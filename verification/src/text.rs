//! Character-level text primitives: classification, trimming, decimal
//! numerals and conversions between strings and character vectors.

use vstd::prelude::*;
use vstd::string::*;

verus! {

/// Characters with the Unicode `White_Space` property.
pub open spec fn is_whitespace_char(c: char) -> bool {
    let n = c as u32;
    ||| 0x0009 <= n <= 0x000D
    ||| n == 0x0020
    ||| n == 0x0085
    ||| n == 0x00A0
    ||| n == 0x1680
    ||| 0x2000 <= n <= 0x200A
    ||| n == 0x2028
    ||| n == 0x2029
    ||| n == 0x202F
    ||| n == 0x205F
    ||| n == 0x3000
}

/// Characters that end a sentence.
pub open spec fn is_sentence_end(c: char) -> bool {
    c == '.' || c == '!' || c == '?'
}

/// Whether `c` is white space.
pub fn is_whitespace(c: char) -> (b: bool)
    ensures
        b == is_whitespace_char(c),
{
    let n: u32 = c as u32;
    (0x0009 <= n && n <= 0x000D) || n == 0x0020 || n == 0x0085 || n == 0x00A0 || n == 0x1680 || (
    0x2000 <= n && n <= 0x200A) || n == 0x2028 || n == 0x2029 || n == 0x202F || n == 0x205F || n
        == 0x3000
}

/// Whether `c` ends a sentence.
pub fn is_terminator(c: char) -> (b: bool)
    ensures
        b == is_sentence_end(c),
{
    c == '.' || c == '!' || c == '?'
}

/// The characters of a string, in order.
pub fn to_chars(s: &str) -> (v: Vec<char>)
    ensures
        v@ == s@,
{
    let mut v: Vec<char> = Vec::new();
    for c in it: s.chars()
        invariant
            it.seq() == s@,
            v@ == it.seq().take(it.index()),
    {
        v.push(c);
    }
    v
}

/// `String::push` appends one character to the end of the string.
pub assume_specification[ String::push ](s: &mut String, c: char)
    ensures
        final(s)@ == old(s)@.push(c),
;

/// The string made of the characters of `v` from `from` up to `to`.
pub fn from_chars(v: &Vec<char>, from: usize, to: usize) -> (s: String)
    requires
        from <= to <= v.len(),
    ensures
        s@ == v@.subrange(from as int, to as int),
{
    let mut s = String::new();
    let mut i: usize = from;
    while i < to
        invariant
            from <= i <= to <= v.len(),
            s@ == v@.subrange(from as int, i as int),
        decreases to - i,
    {
        s.push(v[i]);
        i += 1;
    }
    s
}

/// First position at or after `i`, and at most `hi`, that holds no white
/// space; `hi` if there is none.
pub open spec fn skip_whitespace(s: Seq<char>, i: int, hi: int) -> int
    decreases hi - i,
{
    if i < hi && 0 <= i < s.len() && is_whitespace_char(s[i]) {
        skip_whitespace(s, i + 1, hi)
    } else {
        i
    }
}

/// Least position `e >= lo` such that `s[e..j]` is all white space.
pub open spec fn skip_whitespace_back(s: Seq<char>, lo: int, j: int) -> int
    decreases j - lo,
{
    if lo < j && 0 < j <= s.len() && is_whitespace_char(s[j - 1]) {
        skip_whitespace_back(s, lo, j - 1)
    } else {
        j
    }
}

/// `s[lo..hi]` without its leading and trailing white space.
pub open spec fn trim_range(s: Seq<char>, lo: int, hi: int) -> Seq<char> {
    let a = skip_whitespace(s, lo, hi);
    let b = skip_whitespace_back(s, a, hi);
    s.subrange(a, b)
}

/// `s` without its leading and trailing white space.
pub open spec fn trimmed(s: Seq<char>) -> Seq<char> {
    trim_range(s, 0, s.len() as int)
}

/// `skip_whitespace` passes over white space only, and stops at another
/// character or at `hi`.
pub proof fn lemma_skip_whitespace(s: Seq<char>, i: int, hi: int)
    requires
        0 <= i <= hi <= s.len(),
    ensures
        i <= skip_whitespace(s, i, hi) <= hi,
        forall|k: int| i <= k < skip_whitespace(s, i, hi) ==> is_whitespace_char(#[trigger] s[k]),
        skip_whitespace(s, i, hi) < hi ==> !is_whitespace_char(s[skip_whitespace(s, i, hi)]),
    decreases hi - i,
{
    if i < hi && is_whitespace_char(s[i]) {
        lemma_skip_whitespace(s, i + 1, hi);
    }
}

/// `skip_whitespace_back` passes over white space only, and stops behind
/// another character or at `lo`.
pub proof fn lemma_skip_whitespace_back(s: Seq<char>, lo: int, j: int)
    requires
        0 <= lo <= j <= s.len(),
    ensures
        lo <= skip_whitespace_back(s, lo, j) <= j,
        forall|k: int|
            skip_whitespace_back(s, lo, j) <= k < j ==> is_whitespace_char(#[trigger] s[k]),
        lo < skip_whitespace_back(s, lo, j) ==> !is_whitespace_char(
            s[skip_whitespace_back(s, lo, j) - 1],
        ),
    decreases j - lo,
{
    if lo < j && is_whitespace_char(s[j - 1]) {
        lemma_skip_whitespace_back(s, lo, j - 1);
    }
}

/// Trimming keeps a contiguous part of the range, drops only white space,
/// and leaves no white space at either end.
pub proof fn lemma_trim_range(s: Seq<char>, lo: int, hi: int)
    requires
        0 <= lo <= hi <= s.len(),
    ensures
        ({
            let a = skip_whitespace(s, lo, hi);
            let b = skip_whitespace_back(s, a, hi);
            let t = trim_range(s, lo, hi);
            &&& lo <= a <= b <= hi
            &&& t.len() == b - a
            &&& forall|k: int| lo <= k < a ==> is_whitespace_char(#[trigger] s[k])
            &&& forall|k: int| b <= k < hi ==> is_whitespace_char(#[trigger] s[k])
            &&& t.len() > 0 ==> !is_whitespace_char(t[0]) && !is_whitespace_char(t[t.len() - 1])
        }),
{
    lemma_skip_whitespace(s, lo, hi);
    let a = skip_whitespace(s, lo, hi);
    lemma_skip_whitespace_back(s, a, hi);
}

/// The text of `v[lo..hi]`, trimmed.
pub fn trim_to_string(v: &Vec<char>, lo: usize, hi: usize) -> (t: String)
    requires
        lo <= hi <= v.len(),
    ensures
        t@ == trim_range(v@, lo as int, hi as int),
{
    let mut a: usize = lo;
    while a < hi && is_whitespace(v[a])
        invariant
            lo <= a <= hi <= v.len(),
            skip_whitespace(v@, lo as int, hi as int) == skip_whitespace(v@, a as int, hi as int),
        decreases hi - a,
    {
        a += 1;
    }
    let mut b: usize = hi;
    while a < b && is_whitespace(v[b - 1])
        invariant
            a <= b <= hi <= v.len(),
            skip_whitespace_back(v@, a as int, hi as int) == skip_whitespace_back(
                v@,
                a as int,
                b as int,
            ),
        decreases b - a,
    {
        b -= 1;
    }
    from_chars(v, a, b)
}

/// The decimal digit for `d`.
pub open spec fn digit_char(d: int) -> char {
    if d == 0 {
        '0'
    } else if d == 1 {
        '1'
    } else if d == 2 {
        '2'
    } else if d == 3 {
        '3'
    } else if d == 4 {
        '4'
    } else if d == 5 {
        '5'
    } else if d == 6 {
        '6'
    } else if d == 7 {
        '7'
    } else if d == 8 {
        '8'
    } else {
        '9'
    }
}

/// The decimal numeral of `n`, without leading zeros.
pub open spec fn decimal(n: nat) -> Seq<char>
    decreases n,
{
    if n < 10 {
        seq![digit_char(n as int)]
    } else {
        decimal(n / 10).push(digit_char((n % 10) as int))
    }
}

fn digit(d: usize) -> (c: char)
    requires
        d < 10,
    ensures
        c == digit_char(d as int),
{
    if d == 0 {
        '0'
    } else if d == 1 {
        '1'
    } else if d == 2 {
        '2'
    } else if d == 3 {
        '3'
    } else if d == 4 {
        '4'
    } else if d == 5 {
        '5'
    } else if d == 6 {
        '6'
    } else if d == 7 {
        '7'
    } else if d == 8 {
        '8'
    } else {
        '9'
    }
}

/// Appends the decimal numeral of `n` to `out`.
pub fn push_decimal(out: &mut String, n: usize)
    ensures
        final(out)@ == old(out)@ + decimal(n as nat),
    decreases n,
{
    if n >= 10 {
        push_decimal(out, n / 10);
    }
    out.push(digit(n % 10));
}

/// Whether two texts are the same.
pub fn same_text(a: &str, b: &str) -> (same: bool)
    ensures
        same == (a@ == b@),
{
    a.to_owned() == b.to_owned()
}

} // verus!
