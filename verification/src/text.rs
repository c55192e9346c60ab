//! Text as a sequence of characters: trimming, searching and writing numbers.
use vstd::prelude::*;
use vstd::string::StringExecFns;

verus! {

/// Whether a character has the Unicode property White_Space.
pub open spec fn white(c: char) -> bool {
    let n = c as u32;
    ||| 0x9 <= n <= 0xd
    ||| n == 0x20
    ||| n == 0x85
    ||| n == 0xa0
    ||| n == 0x1680
    ||| 0x2000 <= n <= 0x200a
    ||| n == 0x2028
    ||| n == 0x2029
    ||| n == 0x202f
    ||| n == 0x205f
    ||| n == 0x3000
}

/// Whether `char::is_alphabetic` holds of a character.
pub uninterp spec fn letter(c: char) -> bool;

/// The characters that `char::to_uppercase` maps a character to.
pub uninterp spec fn uppercase(c: char) -> Seq<char>;

/// `char::is_alphabetic` tells whether a character has the Unicode property
/// Alphabetic. Its answer depends on the character alone.
pub assume_specification[ char::is_alphabetic ](c: char) -> (r: bool)
    ensures
        r == letter(c),
;

/// `String::push` appends one character.
pub assume_specification[ String::push ](s: &mut String, c: char)
    ensures
        final(s)@ == old(s)@.push(c),
;

/// `char::to_uppercase` yields one or more characters, which depend on the
/// character alone. They are collected in the order in which they come. Which
/// characters they are is not said.
#[verifier::external_body]
fn to_uppercase(c: char) -> (r: Vec<char>)
    ensures
        r@ == uppercase(c),
        0 < r@.len(),
{
    c.to_uppercase().collect()
}

/// Whether a character is whitespace.
pub fn is_white(c: char) -> (r: bool)
    ensures
        r == white(c),
{
    let n: u32 = c as u32;
    (0x9 <= n && n <= 0xd) || n == 0x20 || n == 0x85 || n == 0xa0 || n == 0x1680 || (0x2000 <= n
        && n <= 0x200a) || n == 0x2028 || n == 0x2029 || n == 0x202f || n == 0x205f || n == 0x3000
}

/// The characters of a text.
pub fn to_chars(s: &str) -> (r: Vec<char>)
    ensures
        r@ == s@,
{
    let mut out: Vec<char> = Vec::new();
    for c in it: s.chars()
        invariant
            out@ == it.seq().take(it.index()),
            it.seq() == s@,
    {
        out.push(c);
        assert(it.seq().take(it.index() + 1) =~= it.seq().take(it.index()).push(c));
    }
    assert(s@.take(s@.len() as int) =~= s@);
    out
}

/// Characters `from..to` as a text.
pub fn to_text(chars: &[char], from: usize, to: usize) -> (r: String)
    requires
        from <= to <= chars@.len(),
    ensures
        r@ == chars@.subrange(from as int, to as int),
{
    let mut out = String::new();
    let mut i: usize = from;
    assert(chars@.subrange(from as int, from as int) =~= Seq::<char>::empty());
    while i < to
        invariant
            from <= i <= to <= chars@.len(),
            out@ == chars@.subrange(from as int, i as int),
        decreases to - i,
    {
        out.push(chars[i]);
        i += 1;
        assert(chars@.subrange(from as int, i as int) =~= chars@.subrange(
            from as int,
            i - 1,
        ).push(chars@[i - 1]));
    }
    out
}

/// Without the whitespace in front.
pub open spec fn trim_start(s: Seq<char>) -> Seq<char>
    decreases s.len(),
{
    if s.len() > 0 && white(s[0]) {
        trim_start(s.skip(1))
    } else {
        s
    }
}

/// Without the whitespace at the end.
pub open spec fn trim_end(s: Seq<char>) -> Seq<char>
    decreases s.len(),
{
    if s.len() > 0 && white(s[s.len() - 1]) {
        trim_end(s.take(s.len() - 1))
    } else {
        s
    }
}

/// Without the whitespace at both ends.
pub open spec fn trimmed(s: Seq<char>) -> Seq<char> {
    trim_end(trim_start(s))
}

proof fn lemma_trim_start(s: Seq<char>)
    ensures
        trim_start(s).len() == 0 || !white(trim_start(s)[0]),
    decreases s.len(),
{
    if s.len() > 0 && white(s[0]) {
        lemma_trim_start(s.skip(1));
    }
}

proof fn lemma_trim_end(s: Seq<char>)
    ensures
        trim_end(s).len() <= s.len(),
        trim_end(s) == s.take(trim_end(s).len() as int),
        trim_end(s).len() == 0 || !white(trim_end(s).last()),
    decreases s.len(),
{
    if s.len() > 0 && white(s[s.len() - 1]) {
        let before = s.take(s.len() - 1);
        lemma_trim_end(before);
        assert(before.take(trim_end(before).len() as int) =~= s.take(
            trim_end(before).len() as int,
        ));
    } else {
        assert(s.take(s.len() as int) =~= s);
    }
}

/// Whitespace at the ends is gone after the first time.
pub proof fn lemma_trimmed_twice(s: Seq<char>)
    ensures
        trimmed(trimmed(s)) == trimmed(s),
{
    lemma_trim_start(s);
    lemma_trim_end(trim_start(s));
}

/// Whitespace is the characters that Unicode calls White_Space: the controls from tab to
/// carriage return and next line, the space, the spaces of typography from the en quad
/// on, those that do not break, that of Ogham and that of ideographs, and the separators
/// of lines and paragraphs.
pub proof fn law_whitespace(c: char)
    ensures
        white(c) <==> {
            ||| c == '\u{9}' || c == '\u{a}' || c == '\u{b}' || c == '\u{c}' || c == '\u{d}'
            ||| c == '\u{20}' || c == '\u{85}' || c == '\u{a0}' || c == '\u{1680}'
            ||| c == '\u{2000}' || c == '\u{2001}' || c == '\u{2002}' || c == '\u{2003}'
            ||| c == '\u{2004}' || c == '\u{2005}' || c == '\u{2006}' || c == '\u{2007}'
            ||| c == '\u{2008}' || c == '\u{2009}' || c == '\u{200a}'
            ||| c == '\u{2028}' || c == '\u{2029}' || c == '\u{202f}' || c == '\u{205f}'
            ||| c == '\u{3000}'
        },
{
}

proof fn lemma_trim_start_is_suffix(s: Seq<char>)
    ensures
        ({
            let n = s.len() - trim_start(s).len();
            &&& 0 <= n
            &&& s.skip(n) == trim_start(s)
            &&& forall|i: int| 0 <= i < n ==> white(#[trigger] s[i])
        }),
    decreases s.len(),
{
    if s.len() > 0 && white(s[0]) {
        let rest = s.skip(1);
        lemma_trim_start_is_suffix(rest);
        let n = s.len() - trim_start(s).len();
        assert(rest.skip(n - 1) =~= s.skip(n));
        assert forall|i: int| 0 <= i < n implies white(#[trigger] s[i]) by {
            if i > 0 {
                assert(rest[i - 1] == s[i]);
            }
        }
    } else {
        assert(s.skip(0) =~= s);
    }
}

proof fn lemma_trim_end_is_prefix(s: Seq<char>)
    ensures
        forall|i: int| trim_end(s).len() <= i < s.len() ==> white(#[trigger] s[i]),
    decreases s.len(),
{
    if s.len() > 0 && white(s[s.len() - 1]) {
        let before = s.take(s.len() - 1);
        lemma_trim_end_is_prefix(before);
        lemma_trim_end(before);
        assert forall|i: int| trim_end(s).len() <= i < s.len() implies white(#[trigger] s[i]) by {
            if i < s.len() - 1 {
                assert(before[i] == s[i]);
            }
        }
    }
}

/// Trimming leaves the middle of a text, from `n` on: what it takes off in front and at
/// the end is whitespace, and what it leaves neither begins nor ends with any.
pub proof fn law_trimmed_is_the_middle(s: Seq<char>) -> (n: int)
    ensures
        0 <= n <= n + trimmed(s).len() <= s.len(),
        trimmed(s) == s.subrange(n, n + trimmed(s).len()),
        forall|i: int| 0 <= i < n ==> white(#[trigger] s[i]),
        forall|i: int| n + trimmed(s).len() <= i < s.len() ==> white(#[trigger] s[i]),
        trimmed(s).len() > 0 ==> !white(trimmed(s)[0]) && !white(trimmed(s).last()),
{
    let n = s.len() - trim_start(s).len();
    let front = trim_start(s);
    lemma_trim_start_is_suffix(s);
    lemma_trim_start(s);
    lemma_trim_end(front);
    lemma_trim_end_is_prefix(front);
    assert(trimmed(s) =~= s.subrange(n, n + trimmed(s).len()));
    assert forall|i: int| n + trimmed(s).len() <= i < s.len() implies white(#[trigger] s[i]) by {
        assert(front[i - n] == s[i]);
    }
    n
}

/// The bounds of `chars[from..to]` without the whitespace at both ends.
pub fn trim_range(chars: &[char], from: usize, to: usize) -> (r: (usize, usize))
    requires
        from <= to <= chars@.len(),
    ensures
        from <= r.0 <= r.1 <= to,
        chars@.subrange(r.0 as int, r.1 as int) == trimmed(
            chars@.subrange(from as int, to as int),
        ),
{
    let ghost whole = chars@.subrange(from as int, to as int);
    let mut a: usize = from;
    assert(chars@.subrange(a as int, to as int) =~= whole);
    while a < to && is_white(chars[a])
        invariant
            from <= a <= to <= chars@.len(),
            trim_start(chars@.subrange(a as int, to as int)) == trim_start(whole),
        decreases to - a,
    {
        let ghost here = chars@.subrange(a as int, to as int);
        assert(here[0] == chars@[a as int]);
        assert(here.skip(1) =~= chars@.subrange(a + 1, to as int));
        a += 1;
    }
    let ghost front = chars@.subrange(a as int, to as int);
    assert(a < to ==> front[0] == chars@[a as int]);
    assert(trim_start(front) == front);
    let mut b: usize = to;
    while a < b && is_white(chars[b - 1])
        invariant
            from <= a <= b <= to <= chars@.len(),
            trim_end(chars@.subrange(a as int, b as int)) == trim_end(front),
        decreases b - a,
    {
        let ghost here = chars@.subrange(a as int, b as int);
        assert(here[here.len() - 1] == chars@[b - 1]);
        assert(here.take(here.len() - 1) =~= chars@.subrange(a as int, b - 1));
        b -= 1;
    }
    let ghost here = chars@.subrange(a as int, b as int);
    assert(a < b ==> here[here.len() - 1] == chars@[b - 1]);
    assert(trim_end(here) == here);
    (a, b)
}

/// A text without the whitespace at both ends.
pub fn trim(s: &str) -> (r: String)
    ensures
        r@ == trimmed(s@),
{
    let chars = to_chars(s);
    let n: usize = chars.len();
    let (a, b) = trim_range(chars.as_slice(), 0, n);
    assert(chars@.subrange(0, n as int) =~= s@);
    to_text(chars.as_slice(), a, b)
}

/// Whether `pattern` stands at the beginning of `s`.
pub open spec fn begins(s: Seq<char>, pattern: Seq<char>) -> bool {
    pattern.len() <= s.len() && s.take(pattern.len() as int) == pattern
}

/// The first place where `pattern` occurs in `s`.
pub open spec fn find(s: Seq<char>, pattern: Seq<char>) -> Option<int>
    decreases s.len(),
{
    if begins(s, pattern) {
        Some(0)
    } else if s.len() == 0 {
        None
    } else {
        match find(s.skip(1), pattern) {
            Some(i) => Some(i + 1),
            None => None,
        }
    }
}

/// Where a pattern is found it stands, and nowhere in front of that; where it is not
/// found it stands nowhere.
pub proof fn law_find_is_first(s: Seq<char>, pattern: Seq<char>, k: int)
    requires
        0 <= k,
        k + pattern.len() <= s.len(),
    ensures
        match find(s, pattern) {
            Some(i) => {
                &&& 0 <= i
                &&& i + pattern.len() <= s.len()
                &&& s.subrange(i, i + pattern.len()) == pattern
                &&& k < i ==> s.subrange(k, k + pattern.len()) != pattern
            },
            None => s.subrange(k, k + pattern.len()) != pattern,
        },
    decreases s.len(),
{
    assert(s.take(pattern.len() as int) =~= s.subrange(0, pattern.len() as int));
    if !begins(s, pattern) && s.len() > 0 {
        let rest = s.skip(1);
        if k > 0 {
            law_find_is_first(rest, pattern, k - 1);
            assert(rest.subrange(k - 1, k - 1 + pattern.len()) =~= s.subrange(
                k,
                k + pattern.len(),
            ));
        } else if pattern.len() <= rest.len() {
            law_find_is_first(rest, pattern, 0);
        } else {
            lemma_too_long(rest, pattern);
        }
        if let Some(i) = find(rest, pattern) {
            assert(rest.subrange(i, i + pattern.len()) =~= s.subrange(
                i + 1,
                i + 1 + pattern.len(),
            ));
        }
    }
}

proof fn lemma_too_long(s: Seq<char>, pattern: Seq<char>)
    requires
        s.len() < pattern.len(),
    ensures
        find(s, pattern) is None,
    decreases s.len(),
{
    if s.len() > 0 {
        lemma_too_long(s.skip(1), pattern);
    }
}

/// Whether `pattern` stands at `chars[from..]`.
pub fn begins_at(chars: &[char], from: usize, pattern: &[char]) -> (r: bool)
    requires
        from <= chars@.len(),
    ensures
        r == begins(chars@.skip(from as int), pattern@),
{
    let ghost rest = chars@.skip(from as int);
    if pattern.len() > chars.len() - from {
        return false;
    }
    let mut i: usize = 0;
    while i < pattern.len()
        invariant
            from <= chars@.len(),
            rest == chars@.skip(from as int),
            i <= pattern@.len() <= chars@.len() - from,
            chars@.len() <= usize::MAX,
            forall|k: int| 0 <= k < i ==> rest[k] == pattern@[k],
        decreases pattern@.len() - i,
    {
        if chars[from + i] != pattern[i] {
            assert(rest.take(pattern@.len() as int)[i as int] != pattern@[i as int]);
            return false;
        }
        i += 1;
    }
    assert(rest.take(pattern@.len() as int) =~= pattern@);
    true
}

/// The first place at or after `from` where `pattern` occurs.
pub fn find_from(chars: &[char], from: usize, pattern: &[char]) -> (r: Option<usize>)
    requires
        from <= chars@.len(),
    ensures
        (match r {
            Some(i) => {
                &&& from <= i
                &&& i + pattern@.len() <= chars@.len()
                &&& find(chars@.skip(from as int), pattern@) == Some(i - from)
            },
            None => find(chars@.skip(from as int), pattern@) is None,
        }),
{
    let ghost whole = chars@.skip(from as int);
    let mut i: usize = from;
    loop
        invariant
            from <= i <= chars@.len(),
            whole == chars@.skip(from as int),
            find(whole, pattern@) == (match find(chars@.skip(i as int), pattern@) {
                Some(k) => Some(k + (i - from)),
                None => None::<int>,
            }),
        decreases chars@.len() - i,
    {
        if begins_at(chars, i, pattern) {
            return Some(i);
        }
        if i == chars.len() {
            return None;
        }
        assert(chars@.skip(i as int).skip(1) =~= chars@.skip(i + 1));
        i += 1;
    }
}

/// `s` with its first character in upper case.
pub open spec fn capitalized(s: Seq<char>) -> Seq<char> {
    if s.len() == 0 {
        s
    } else {
        uppercase(s[0]) + s.skip(1)
    }
}

/// Capitalising a text twice is capitalising it once, where the upper case of its
/// first character begins with a character that is its own upper case.
pub proof fn law_capitalized_twice(s: Seq<char>)
    requires
        0 < s.len() ==> {
            let up = uppercase(s[0]);
            0 < up.len() && uppercase(up[0]) == seq![up[0]]
        },
    ensures
        capitalized(capitalized(s)) == capitalized(s),
{
    if 0 < s.len() {
        let up = uppercase(s[0]);
        let once = up + s.skip(1);
        assert(once[0] == up[0]);
        assert(seq![up[0]] + once.skip(1) =~= once);
    }
}

/// Turns the first character of a text to upper case.
pub fn capitalize_first(s: &str) -> (r: String)
    ensures
        r@ == capitalized(s@),
{
    let chars = to_chars(s);
    if chars.len() == 0 {
        return String::new();
    }
    let first = to_uppercase(chars[0]);
    let mut out = to_text(first.as_slice(), 0, first.len());
    assert(out@ =~= uppercase(s@[0]));
    let rest = to_text(chars.as_slice(), 1, chars.len());
    assert(rest@ =~= s@.skip(1));
    out.append(rest.as_str());
    out
}

/// The decimal digit `d`.
pub open spec fn digit(d: int) -> char {
    if d == 0 {
        '0'
    } else if d == 1 {
        '1'
    } else if d == 2 {
        '2'
    } else if d == 3 {
        '3'
    } else if d == 4 {
        '4'
    } else if d == 5 {
        '5'
    } else if d == 6 {
        '6'
    } else if d == 7 {
        '7'
    } else if d == 8 {
        '8'
    } else {
        '9'
    }
}

/// A natural number in decimal.
pub open spec fn decimal(n: int) -> Seq<char>
    decreases n,
{
    if n < 10 {
        seq![digit(n)]
    } else {
        decimal(n / 10).push(digit(n % 10))
    }
}

/// An integer in decimal.
pub open spec fn decimal_signed(n: int) -> Seq<char> {
    if n < 0 {
        seq!['-'] + decimal(-n)
    } else {
        decimal(n)
    }
}

/// The number that decimal digits stand for.
pub open spec fn read_decimal(s: Seq<char>) -> int
    decreases s.len(),
{
    if s.len() == 0 {
        0
    } else {
        read_decimal(s.drop_last()) * 10 + (s.last() as int - '0' as int)
    }
}

/// A number written in decimal is read back, its characters are all digits, and it has
/// no zero in front unless it is zero.
pub proof fn law_decimal_reads_back(n: int)
    requires
        0 <= n,
    ensures
        read_decimal(decimal(n)) == n,
        0 < decimal(n).len(),
        forall|i: int| 0 <= i < decimal(n).len() ==> '0' <= #[trigger] decimal(n)[i] <= '9',
        0 < n ==> decimal(n)[0] != '0',
    decreases n,
{
    let d = decimal(n);
    if n < 10 {
        assert(d.drop_last() =~= Seq::<char>::empty());
        assert(read_decimal(Seq::<char>::empty()) == 0);
        assert(digit(n) as int == '0' as int + n);
    } else {
        law_decimal_reads_back(n / 10);
        assert(d.drop_last() =~= decimal(n / 10));
        assert(digit(n % 10) as int == '0' as int + n % 10);
        assert(d[0] == decimal(n / 10)[0]);
    }
}

/// A number below zero is written as a minus sign and what is written of its opposite;
/// any other number has no sign.
pub proof fn law_sign_comes_first(n: int)
    requires
        0 <= n,
    ensures
        decimal_signed(n) == decimal(n),
        0 < n ==> decimal_signed(-n)[0] == '-' && decimal_signed(-n).skip(1) == decimal(n),
{
    if 0 < n {
        assert(decimal_signed(-n).skip(1) =~= decimal(n));
    }
}

fn digit_char(d: u64) -> (r: char)
    requires
        d < 10,
    ensures
        r == digit(d as int),
{
    match d {
        0 => '0',
        1 => '1',
        2 => '2',
        3 => '3',
        4 => '4',
        5 => '5',
        6 => '6',
        7 => '7',
        8 => '8',
        _ => '9',
    }
}

/// Writes a number in decimal.
pub fn number(n: u64) -> (r: String)
    ensures
        r@ == decimal(n as int),
    decreases n,
{
    let mut out = if n < 10 {
        String::new()
    } else {
        number(n / 10)
    };
    out.push(digit_char(n % 10));
    assert(n < 10 ==> out@ =~= seq![digit(n as int)]);
    out
}

/// Writes an integer in decimal.
pub fn signed_number(n: i32) -> (r: String)
    ensures
        r@ == decimal_signed(n as int),
{
    if n < 0 {
        let mut out = String::new();
        out.push('-');
        assert(out@ =~= seq!['-']);
        let digits = number((-(n as i64)) as u64);
        out.append(digits.as_str());
        out
    } else {
        number(n as u64)
    }
}

/// Two texts one after the other.
pub fn join2(a: &str, b: &str) -> (r: String)
    ensures
        r@ == a@ + b@,
{
    let mut out = String::from_str(a);
    out.append(b);
    out
}

/// Three texts one after the other.
pub fn join3(a: &str, b: &str, c: &str) -> (r: String)
    ensures
        r@ == a@ + b@ + c@,
{
    let mut out = join2(a, b);
    out.append(c);
    out
}

} // verus!
