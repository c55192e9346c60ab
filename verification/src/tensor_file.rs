//! Where the tensors of a weight file lie in it.
//!
//! A file begins with the length of its header in eight bytes, then comes the
//! header, then the data of all tensors, end to end.
use safetensors::tensor::{Dtype, Metadata, SafeTensorError, SafeTensors};
use vstd::prelude::*;

use crate::text::join2;

verus! {

#[verifier::external_type_specification]
#[verifier::external_body]
pub struct ExMetadata(safetensors::tensor::Metadata);

#[verifier::external_type_specification]
#[verifier::external_body]
pub struct ExSafeTensorError(safetensors::tensor::SafeTensorError);

#[verifier::external_type_specification]
#[verifier::external_body]
pub struct ExDtype(safetensors::tensor::Dtype);

/// What a header says of one tensor.
pub ghost struct TensorFacts {
    /// Type of its elements.
    pub dtype: Dtype,
    /// Its dimensions.
    pub shape: Seq<usize>,
    /// Its first byte, counted from the end of the header.
    pub start: int,
    /// The byte behind its last one.
    pub end: int,
}

/// The end of the last tensor that a header declares; none where
/// `serde_json::from_slice` cannot read the header.
pub uninterp spec fn declared_end(header: Seq<u8>) -> Option<usize>;

/// The end of the last tensor of a header, zero where it has none.
pub uninterp spec fn data_end(m: Metadata) -> usize;

/// What `SafeTensors::read_metadata` reads from a file: the length of its header
/// and its tensors by name.
pub uninterp spec fn header_of(file: Seq<u8>) -> Option<(usize, Map<Seq<char>, TensorFacts>)>;

/// The tensors of a header by name.
pub uninterp spec fn tensors_of(m: Metadata) -> Map<Seq<char>, TensorFacts>;

/// The names of a header's tensors in the order of their data.
pub uninterp spec fn order_of(m: Metadata) -> Seq<Seq<char>>;

/// The text that `Display` gives an error.
pub uninterp spec fn file_error_text(e: SafeTensorError) -> Seq<char>;

/// Longest header that is read.
pub const MAX_HEADER: usize = 100_000_000;

/// The number that eight bytes hold, the lowest first.
pub open spec fn le64(b: Seq<u8>) -> int {
    b[0] + b[1] * 0x100 + b[2] * 0x1_0000 + b[3] * 0x100_0000 + b[4] * 0x1_0000_0000 + b[5]
        * 0x100_0000_0000 + b[6] * 0x1_0000_0000_0000 + b[7] * 0x100_0000_0000_0000
}

/// Where the header of a file ends, if it is all there and not too long.
pub open spec fn header_end(file: Seq<u8>) -> Option<int> {
    if 8 <= file.len() && le64(file) <= MAX_HEADER && 8 + le64(file) <= file.len() {
        Some(8 + le64(file))
    } else {
        None
    }
}

/// A file whose header does not declare more bytes than can be counted.
pub open spec fn addressable(file: Seq<u8>) -> bool {
    header_end(file) matches Some(end) ==> (declared_end(file.subrange(8, end)) matches Some(last)
        ==> last + end <= usize::MAX)
}

/// Tensors that lie end to end in the given order, from the first byte behind
/// the header up to the last of `len` bytes.
pub open spec fn tiles(order: Seq<Seq<char>>, table: Map<Seq<char>, TensorFacts>, len: int) -> bool {
    &&& order.no_duplicates()
    &&& forall|name: Seq<char>| #[trigger] order.contains(name) <==> table.contains_key(name)
    &&& forall|i: int|
        0 <= i < order.len() ==> (#[trigger] table[order[i]]).start == (if i == 0 {
            0
        } else {
            table[order[i - 1]].end
        })
    &&& forall|i: int|
        0 <= i < order.len() ==> (#[trigger] table[order[i]]).start <= table[order[i]].end
    &&& len == if order.len() == 0 {
        0
    } else {
        table[order[order.len() - 1]].end
    }
}

/// `serde_json::from_slice` parses a header, which `Metadata` checks as it is
/// built. Whether it can, and where the last tensor of the header ends, depends on
/// the header alone; in which order tensors with the same offsets stand does not.
#[verifier::external_body]
fn parse_header(header: &[u8]) -> (r: Option<Metadata>)
    ensures
        r is Some <==> declared_end(header@) is Some,
        r matches Some(m) ==> data_end(m) == declared_end(header@)->0,
{
    serde_json::from_slice::<Metadata>(header).ok()
}

/// `Metadata::data_len` gives the end of the last tensor.
#[verifier::external_body]
fn data_len(m: &Metadata) -> (r: usize)
    ensures
        r == data_end(*m),
{
    m.data_len()
}

/// `SafeTensors::read_metadata` reads the header of a file. It accepts a file only
/// if its tensors lie end to end behind the header and fill the file. It adds the
/// end of the last tensor to that of the header, which must not overflow. Which
/// error a refused file gives is left open: tensors with the same offsets are gone
/// through in the order of a hash map.
#[verifier::external_body]
fn read_metadata(file: &[u8]) -> (r: Result<(usize, Metadata), SafeTensorError>)
    requires
        addressable(file@),
    ensures
        r is Err <==> header_of(file@) is None,
        r matches Ok((n, m)) ==> {
            &&& header_of(file@) == Some((n, tensors_of(m)))
            &&& header_end(file@) == Some(8 + n)
            &&& tiles(order_of(m), tensors_of(m), file@.len() - 8 - n)
        },
{
    SafeTensors::read_metadata(file)
}

/// `Metadata::offset_keys` lists the names in the order of their data.
#[verifier::external_body]
fn offset_keys(m: &Metadata) -> (r: Vec<String>)
    ensures
        r@.len() == order_of(*m).len(),
        forall|i: int| 0 <= i < r@.len() ==> (#[trigger] r@[i])@ == order_of(*m)[i],
{
    m.offset_keys()
}

/// `Metadata::info` finds a tensor by its name.
#[verifier::external_body]
fn info(m: &Metadata, name: &str) -> (r: Option<(Dtype, Vec<usize>, usize, usize)>)
    ensures
        r is Some <==> tensors_of(*m).contains_key(name@),
        r matches Some((dtype, shape, start, end)) ==> tensors_of(*m)[name@] == (TensorFacts {
            dtype,
            shape: shape@,
            start: start as int,
            end: end as int,
        }),
{
    m.info(name).map(|i| (i.dtype, i.shape.clone(), i.data_offsets.0, i.data_offsets.1))
}

/// `to_string` of a `SafeTensorError` gives its message.
#[verifier::external_body]
fn message_of(e: &SafeTensorError) -> (r: String)
    ensures
        r@ == file_error_text(*e),
{
    e.to_string()
}

/// A tensor of a file: bytes `start..end` of the file hold its elements.
pub struct TensorEntry {
    pub name: String,
    pub dtype: Dtype,
    pub shape: Vec<usize>,
    pub start: usize,
    pub end: usize,
}

impl TensorEntry {
    /// The entry of a tensor in a file whose header ends at `data`.
    pub open spec fn describes(self, name: Seq<char>, facts: TensorFacts, data: int) -> bool {
        &&& self.name@ == name
        &&& self.dtype == facts.dtype
        &&& self.shape@ == facts.shape
        &&& self.start == data + facts.start
        &&& self.end == data + facts.end
    }
}

/// The entries of a file: every tensor of its header once, in the order of their
/// data, end to end up to the last byte.
pub open spec fn lists(
    entries: Seq<TensorEntry>,
    table: Map<Seq<char>, TensorFacts>,
    data: int,
    len: int,
) -> bool {
    &&& forall|i: int|
        0 <= i < entries.len() ==> {
            &&& table.contains_key((#[trigger] entries[i]).name@)
            &&& entries[i].describes(entries[i].name@, table[entries[i].name@], data)
            &&& entries[i].start <= entries[i].end <= len
            &&& entries[i].start == (if i == 0 {
                data
            } else {
                entries[i - 1].end as int
            })
        }
    &&& forall|i: int, j: int|
        0 <= i < j < entries.len() ==> (#[trigger] entries[i]).name@ != (
        #[trigger] entries[j]).name@
    &&& forall|name: Seq<char>| #[trigger]
        table.contains_key(name) ==> exists|i: int|
            0 <= i < entries.len() && (#[trigger] entries[i]).name@ == name
    &&& len == if entries.len() == 0 {
        data
    } else {
        entries[entries.len() - 1].end as int
    }
}

proof fn lemma_ends_inside(
    order: Seq<Seq<char>>,
    table: Map<Seq<char>, TensorFacts>,
    len: int,
    i: int,
)
    requires
        tiles(order, table, len),
        0 <= i < order.len(),
    ensures
        0 <= table[order[i]].start <= table[order[i]].end <= len,
    decreases order.len() - i,
{
    lemma_starts_nonneg(order, table, len, i);
    if i + 1 < order.len() {
        lemma_ends_inside(order, table, len, i + 1);
        assert(table[order[i + 1]].start == table[order[i]].end);
    }
}

proof fn lemma_starts_nonneg(
    order: Seq<Seq<char>>,
    table: Map<Seq<char>, TensorFacts>,
    len: int,
    i: int,
)
    requires
        tiles(order, table, len),
        0 <= i < order.len(),
    ensures
        0 <= table[order[i]].start,
    decreases i,
{
    if i > 0 {
        lemma_starts_nonneg(order, table, len, i - 1);
        assert(table[order[i - 1]].start <= table[order[i - 1]].end);
        assert(table[order[i]].start == table[order[i - 1]].end);
    }
}

/// Finds the tensors of a file.
pub fn read_tensors(file: &[u8]) -> (r: Result<Vec<TensorEntry>, String>)
    requires
        addressable(file@),
    ensures
        match header_of(file@) {
            Some((n, table)) => r matches Ok(entries) && lists(
                entries@,
                table,
                8 + n,
                file@.len() as int,
            ),
            None => r matches Err(message) && exists|e: SafeTensorError|
                message@ == "safetensors: "@ + #[trigger] file_error_text(e),
        },
{
    let (n, m) = match read_metadata(file) {
        Ok(pair) => pair,
        Err(e) => {
            let message = message_of(&e);
            return Err(join2("safetensors: ", message.as_str()));
        },
    };
    let ghost table = tensors_of(m);
    let ghost order = order_of(m);
    let ghost len = file@.len() - 8 - n;
    assert(file.len() <= usize::MAX);
    let data: usize = 8 + n;
    let names = offset_keys(&m);
    let mut entries: Vec<TensorEntry> = Vec::new();
    let mut i: usize = 0;
    while i < names.len()
        invariant
            i <= names@.len(),
            table == tensors_of(m),
            order == order_of(m),
            tiles(order, table, len),
            len == file@.len() - data,
            file@.len() <= usize::MAX,
            names@.len() == order.len(),
            forall|k: int| 0 <= k < names@.len() ==> (#[trigger] names@[k])@ == order[k],
            entries@.len() == i,
            forall|k: int|
                0 <= k < i ==> (#[trigger] entries@[k]).describes(
                    order[k],
                    table[order[k]],
                    data as int,
                ),
        decreases names@.len() - i,
    {
        let ghost name = order[i as int];
        proof {
            assert(order.contains(name));
            lemma_ends_inside(order, table, len, i as int);
        }
        match info(&m, names[i].as_str()) {
            Some((dtype, shape, start, end)) => {
                entries.push(
                    TensorEntry {
                        name: names[i].clone(),
                        dtype,
                        shape,
                        start: data + start,
                        end: data + end,
                    },
                );
            },
            None => {},
        }
        i += 1;
    }
    proof {
        assert forall|k: int| 0 <= k < entries@.len() implies {
            &&& table.contains_key((#[trigger] entries@[k]).name@)
            &&& entries@[k].describes(entries@[k].name@, table[entries@[k].name@], data as int)
            &&& entries@[k].start <= entries@[k].end <= file@.len()
            &&& entries@[k].start == (if k == 0 {
                data as int
            } else {
                entries@[k - 1].end as int
            })
        } by {
            assert(order.contains(order[k]));
            lemma_ends_inside(order, table, len, k);
            if k > 0 {
                assert(entries@[k - 1].describes(
                    order[k - 1],
                    table[order[k - 1]],
                    data as int,
                ));
            }
        }
        assert forall|a: int, b: int| 0 <= a < b < entries@.len() implies (#[trigger] entries@[a]).name@
            != (#[trigger] entries@[b]).name@ by {
            assert(order[a] != order[b]);
        }
        assert forall|name: Seq<char>| #[trigger] table.contains_key(name) implies exists|k: int|
            0 <= k < entries@.len() && (#[trigger] entries@[k]).name@ == name by {
            assert(order.contains(name));
            let k = choose|k: int| 0 <= k < order.len() && order[k] == name;
            assert(entries@[k].name@ == name);
        }
        if entries@.len() > 0 {
            let last = entries@.len() - 1;
            assert(entries@[last].describes(order[last], table[order[last]], data as int));
        }
    }
    Ok(entries)
}

/// Finds the tensors of a file, `None` where its header declares more bytes than
/// can be counted.
pub fn load_safetensors(file: &[u8]) -> (r: Option<Result<Vec<TensorEntry>, String>>)
    ensures
        r is Some <==> addressable(file@),
        r matches Some(found) ==> match header_of(file@) {
            Some((n, table)) => found matches Ok(entries) && lists(
                entries@,
                table,
                8 + n,
                file@.len() as int,
            ),
            None => found matches Err(message) && exists|e: SafeTensorError|
                message@ == "safetensors: "@ + #[trigger] file_error_text(e),
        },
{
    if let Some(end) = find_header_end(file) {
        if let Some(m) = parse_header(vstd::slice::slice_subrange(file, 8, end)) {
            if data_len(&m) > usize::MAX - end {
                return None;
            }
        }
    }
    Some(read_tensors(file))
}

/// Finds where the header of a file ends, if it is all there and not too long.
pub fn find_header_end(file: &[u8]) -> (r: Option<usize>)
    ensures
        r is Some <==> header_end(file@) is Some,
        r matches Some(end) ==> header_end(file@) == Some(end as int) && 8 <= end <= file@.len(),
{
    if file.len() < 8 {
        return None;
    }
    let low: u64 = file[0] as u64 + file[1] as u64 * 0x100 + file[2] as u64 * 0x1_0000 + file[3] as u64
        * 0x100_0000;
    let high: u64 = file[4] as u64 + file[5] as u64 * 0x100 + file[6] as u64 * 0x1_0000 + file[7] as u64
        * 0x100_0000;
    let n: u64 = low + high * 0x1_0000_0000;
    assert(n == le64(file@));
    if n > MAX_HEADER as u64 {
        return None;
    }
    let end: usize = 8 + n as usize;
    if end <= file.len() {
        Some(end)
    } else {
        None
    }
}

/// Every byte behind the header belongs to exactly one tensor, so reading all
/// tensors reads the data once.
pub proof fn law_tensors_partition(
    entries: Seq<TensorEntry>,
    table: Map<Seq<char>, TensorFacts>,
    data: int,
    len: int,
    p: int,
)
    requires
        lists(entries, table, data, len),
        data <= p < len,
    ensures
        exists|i: int| 0 <= i < entries.len() && (#[trigger] entries[i]).start <= p < entries[i].end,
        forall|i: int, j: int|
            0 <= i < entries.len() && 0 <= j < entries.len() && (#[trigger] entries[i]).start <= p
                < entries[i].end && (#[trigger] entries[j]).start <= p < entries[j].end ==> i == j,
{
    lemma_owner(entries, table, data, len, p, entries.len() as int);
    assert forall|i: int, j: int|
        0 <= i < entries.len() && 0 <= j < entries.len() && (#[trigger] entries[i]).start <= p
            < entries[i].end && (#[trigger] entries[j]).start <= p < entries[j].end implies i
        == j by {
        if i < j {
            lemma_later_starts(entries, table, data, len, i, j);
        } else if j < i {
            lemma_later_starts(entries, table, data, len, j, i);
        }
    }
}

#[verifier::spinoff_prover]
#[verifier::rlimit(60)]
proof fn lemma_later_starts(
    entries: Seq<TensorEntry>,
    table: Map<Seq<char>, TensorFacts>,
    data: int,
    len: int,
    i: int,
    j: int,
)
    requires
        lists(entries, table, data, len),
        0 <= i < j < entries.len(),
    ensures
        entries[i].end <= entries[j].start,
    decreases j,
{
    assert(entries[j].start == entries[j - 1].end);
    if i < j - 1 {
        lemma_later_starts(entries, table, data, len, i, j - 1);
        assert(entries[j - 1].start <= entries[j - 1].end);
    }
}

proof fn lemma_owner(
    entries: Seq<TensorEntry>,
    table: Map<Seq<char>, TensorFacts>,
    data: int,
    len: int,
    p: int,
    n: int,
)
    requires
        lists(entries, table, data, len),
        0 <= n <= entries.len(),
        data <= p < (if n == 0 {
            data
        } else {
            entries[n - 1].end as int
        }),
    ensures
        exists|i: int| 0 <= i < entries.len() && (#[trigger] entries[i]).start <= p < entries[i].end,
    decreases n,
{
    if entries[n - 1].start > p {
        assert(entries[n - 1].start == if n == 1 {
            data
        } else {
            entries[n - 2].end as int
        });
        lemma_owner(entries, table, data, len, p, n - 1);
    }
}

/// The number that bytes hold, each worth 256 times the one before it.
pub open spec fn low_byte_first(b: Seq<u8>) -> int
    decreases b.len(),
{
    if b.len() == 0 {
        0
    } else {
        b[0] + 0x100 * low_byte_first(b.skip(1))
    }
}

/// The length of a header is held in the first eight bytes of a file, the lowest byte first,
/// and the header is the bytes behind those. It is read where it is all there and takes no
/// more than a hundred million bytes.
pub proof fn law_header_follows_its_length(file: Seq<u8>)
    ensures
        ({
            let n = low_byte_first(file.take(8));
            header_end(file) == if 8 <= file.len() && n <= 100_000_000 && n <= file.len() - 8 {
                Some(8 + n)
            } else {
                None
            }
        }),
{
    if 8 <= file.len() {
        let b0 = file.take(8);
        let b1 = b0.skip(1);
        let b2 = b1.skip(1);
        let b3 = b2.skip(1);
        let b4 = b3.skip(1);
        let b5 = b4.skip(1);
        let b6 = b5.skip(1);
        let b7 = b6.skip(1);
        assert(low_byte_first(b7.skip(1)) == 0);
        assert(low_byte_first(b7) == file[7]);
        assert(low_byte_first(b6) == file[6] + 0x100 * low_byte_first(b7));
        assert(low_byte_first(b5) == file[5] + 0x100 * low_byte_first(b6));
        assert(low_byte_first(b4) == file[4] + 0x100 * low_byte_first(b5));
        assert(low_byte_first(b3) == file[3] + 0x100 * low_byte_first(b4));
        assert(low_byte_first(b2) == file[2] + 0x100 * low_byte_first(b3));
        assert(low_byte_first(b1) == file[1] + 0x100 * low_byte_first(b2));
        assert(low_byte_first(b0) == file[0] + 0x100 * low_byte_first(b1));
    }
}

} // verus!
