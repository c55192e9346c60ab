//! Picking the most likely token.
//!
//! Scores are given as integers in the order of the numbers they stand for,
//! `None` for a score that is not a number and compares with nothing.
use vstd::prelude::*;

verus! {

/// Scores that are looked at together.
pub const CHUNK: usize = 4096;

/// Whether one score is greater than another.
pub open spec fn above(a: Option<i32>, b: Option<i32>) -> bool {
    a is Some && b is Some && a->0 > b->0
}

fn exceeds(a: Option<i32>, b: Option<i32>) -> (r: bool)
    ensures
        r == above(a, b),
{
    match (a, b) {
        (Some(x), Some(y)) => x > y,
        _ => false,
    }
}

/// The first score of `start..end` that no later one of them exceeds, looking
/// from the front and moving on only to greater scores.
pub open spec fn chunk_best(keys: Seq<Option<i32>>, start: int, end: int) -> int
    decreases end - start,
{
    if end <= start + 1 {
        start
    } else {
        let before = chunk_best(keys, start, end - 1);
        if above(keys[end - 1], keys[before]) {
            end - 1
        } else {
            before
        }
    }
}

/// End of the chunk that starts at `start`.
pub open spec fn chunk_end(n: int, start: int) -> int {
    if start + CHUNK < n {
        start + CHUNK
    } else {
        n
    }
}

/// The best of the first `chunks` chunks, starting from position zero with the
/// lowest score there is.
pub open spec fn best(keys: Seq<Option<i32>>, lowest: i32, chunks: int) -> (int, Option<i32>)
    decreases chunks,
{
    if chunks <= 0 {
        (0, Some(lowest))
    } else {
        let so_far = best(keys, lowest, chunks - 1);
        let start = (chunks - 1) * CHUNK;
        let i = chunk_best(keys, start, chunk_end(keys.len() as int, start));
        if above(keys[i], so_far.1) {
            (i, keys[i])
        } else {
            so_far
        }
    }
}

/// Number of chunks of `n` scores.
pub open spec fn chunk_number(n: int) -> int {
    (n + CHUNK - 1) / (CHUNK as int)
}

/// Whether every score is a number that is not below the lowest one.
pub open spec fn numbers(keys: Seq<Option<i32>>, lowest: i32) -> bool {
    forall|i: int| 0 <= i < keys.len() ==> #[trigger] keys[i] is Some && keys[i]->0 >= lowest
}

/// Whether `at` is the first position of a greatest score.
pub open spec fn first_greatest(keys: Seq<Option<i32>>, at: int) -> bool {
    &&& 0 <= at < keys.len()
    &&& forall|i: int| 0 <= i < keys.len() ==> (#[trigger] keys[i])->0 <= keys[at]->0
    &&& forall|i: int| 0 <= i < at ==> (#[trigger] keys[i])->0 < keys[at]->0
}

/// Position of the greatest score, the first of them where there are several.
/// `lowest` is the score that nothing is below. A score that is not a number is
/// passed over, and hides its chunk where it stands at the front of one.
pub fn argmax(keys: &[Option<i32>], lowest: i32) -> (r: i32)
    ensures
        r == best(keys@, lowest, chunk_number(keys@.len() as int)).0 as i32,
        numbers(keys@, lowest) && 0 < keys@.len() <= i32::MAX ==> first_greatest(keys@, r as int),
        keys@.len() == 0 ==> r == 0,
{
    proof {
        if numbers(keys@, lowest) && 0 < keys@.len() {
            law_argmax_first_greatest(keys@, lowest);
        }
    }
    let n: usize = keys.len();
    let mut at: usize = 0;
    let mut score: Option<i32> = Some(lowest);
    let mut start: usize = 0;
    let ghost mut chunks: int = 0;
    while start < n
        invariant
            n == keys@.len(),
            0 <= chunks,
            chunks * CHUNK < n ==> start == chunks * CHUNK,
            chunks * CHUNK >= n ==> start == n,
            chunks <= chunk_number(n as int),
            (at as int, score) == best(keys@, lowest, chunks),
        decreases n - start,
    {
        let end: usize = if n - start > CHUNK {
            start + CHUNK
        } else {
            n
        };
        let mut i: usize = start + 1;
        let mut b: usize = start;
        let mut v: Option<i32> = keys[start];
        while i < end
            invariant
                start < i <= end <= n,
                n == keys@.len(),
                start <= b < i,
                b == chunk_best(keys@, start as int, i as int),
                v == keys@[b as int],
            decreases end - i,
        {
            if exceeds(keys[i], v) {
                v = keys[i];
                b = i;
            }
            i += 1;
        }
        if exceeds(v, score) {
            score = v;
            at = b;
        }
        start = end;
        proof {
            chunks = chunks + 1;
        }
    }
    #[verifier::truncate]
    (at as i32)
}

proof fn lemma_chunk_best(keys: Seq<Option<i32>>, start: int, end: int)
    requires
        0 <= start < end <= keys.len(),
        forall|i: int| 0 <= i < keys.len() ==> #[trigger] keys[i] is Some,
    ensures
        start <= chunk_best(keys, start, end) < end,
        forall|i: int|
            start <= i < end ==> (#[trigger] keys[i])->0 <= keys[chunk_best(
                keys,
                start,
                end,
            )]->0,
        forall|i: int|
            start <= i < chunk_best(keys, start, end) ==> (#[trigger] keys[i])->0
                < keys[chunk_best(keys, start, end)]->0,
    decreases end - start,
{
    if end > start + 1 {
        lemma_chunk_best(keys, start, end - 1);
        assert(keys[end - 1] is Some);
    }
}

proof fn lemma_best(keys: Seq<Option<i32>>, lowest: i32, chunks: int)
    requires
        0 <= chunks,
        (chunks - 1) * CHUNK < keys.len(),
        forall|i: int| 0 <= i < keys.len() ==> #[trigger] keys[i] is Some,
    ensures
        ({
            let (at, score) = best(keys, lowest, chunks);
            let seen = if chunks * CHUNK < keys.len() {
                chunks * CHUNK
            } else {
                keys.len() as int
            };
            &&& score is Some
            &&& forall|i: int| 0 <= i < seen ==> (#[trigger] keys[i])->0 <= score->0
            &&& score->0 == lowest && at == 0 || {
                &&& lowest < score->0
                &&& 0 <= at < seen
                &&& keys[at] == score
                &&& forall|i: int| 0 <= i < at ==> (#[trigger] keys[i])->0 < score->0
            }
        }),
    decreases chunks,
{
    if chunks > 0 {
        lemma_best(keys, lowest, chunks - 1);
        let start = (chunks - 1) * CHUNK;
        let end = chunk_end(keys.len() as int, start);
        lemma_chunk_best(keys, start, end);
        let (at, score) = best(keys, lowest, chunks);
        let prior = best(keys, lowest, chunks - 1);
        let i = chunk_best(keys, start, end);
        assert(keys[i] is Some);
        assert forall|k: int| 0 <= k < end implies (#[trigger] keys[k])->0 <= score->0 by {
            if k >= start {
                assert(keys[k]->0 <= keys[i]->0);
            }
        }
    }
}

/// Where every score is a number, the position is that of the first greatest
/// score.
pub proof fn law_argmax_first_greatest(keys: Seq<Option<i32>>, lowest: i32)
    requires
        0 < keys.len(),
        numbers(keys, lowest),
    ensures
        first_greatest(keys, best(keys, lowest, chunk_number(keys.len() as int)).0),
{
    lemma_best(keys, lowest, chunk_number(keys.len() as int));
    let (at, score) = best(keys, lowest, chunk_number(keys.len() as int));
    assert(keys[0]->0 >= lowest);
    assert forall|i: int| 0 <= i < keys.len() implies (#[trigger] keys[i])->0 <= keys[at]->0 by {
        assert(keys[i]->0 <= score->0);
    }
}

proof fn lemma_chunk_best_number(keys: Seq<Option<i32>>, start: int, end: int)
    requires
        start < end,
    ensures
        start <= chunk_best(keys, start, end) < end,
        keys[start] is None ==> chunk_best(keys, start, end) == start,
        keys[start] is Some ==> {
            &&& keys[chunk_best(keys, start, end)] is Some
            &&& forall|i: int|
                start <= i < end && #[trigger] keys[i] is Some ==> keys[i]->0 <= keys[chunk_best(
                    keys,
                    start,
                    end,
                )]->0
        },
    decreases end - start,
{
    if end > start + 1 {
        lemma_chunk_best_number(keys, start, end - 1);
    }
}

proof fn lemma_best_number(keys: Seq<Option<i32>>, lowest: i32, chunks: int)
    requires
        0 <= chunks,
        (chunks - 1) * 4096 < keys.len(),
    ensures
        ({
            let (at, score) = best(keys, lowest, chunks);
            &&& score is Some
            &&& score->0 >= lowest
            &&& score->0 == lowest ==> at == 0
            &&& score->0 > lowest ==> 0 <= at < keys.len() && keys[at] == score && keys[(at / 4096)
                * 4096] is Some
            &&& forall|i: int|
                0 <= i < chunks * 4096 && i < keys.len() && #[trigger] keys[i] is Some && keys[(i
                    / 4096) * 4096] is Some ==> keys[i]->0 <= score->0
        }),
    decreases chunks,
{
    if chunks > 0 {
        lemma_best_number(keys, lowest, chunks - 1);
        let start = (chunks - 1) * 4096;
        let end = chunk_end(keys.len() as int, start);
        lemma_chunk_best_number(keys, start, end);
        let i = chunk_best(keys, start, end);
        assert((i / 4096) * 4096 == start);
    }
}

/// Which score is chosen where some are not numbers: one that is a number, in a chunk of
/// 4096 that begins with a number, and none such is greater; position zero where there is
/// none above the lowest score.
pub proof fn law_argmax_among_numbers(keys: Seq<Option<i32>>, lowest: i32, i: int)
    requires
        0 <= i < keys.len(),
    ensures
        ({
            let at = best(keys, lowest, chunk_number(keys.len() as int)).0;
            let counts = |k: int| keys[k] is Some && keys[k / 4096 * 4096] is Some;
            &&& 0 <= at < keys.len()
            &&& counts(i) && lowest < keys[i]->0 ==> counts(at) && keys[i]->0 <= keys[at]->0
            &&& at == 0 || counts(at) && lowest < keys[at]->0
        }),
{
    let n = keys.len() as int;
    lemma_best_number(keys, lowest, chunk_number(n));
    assert(i < chunk_number(n) * 4096);
}

} // verus!
