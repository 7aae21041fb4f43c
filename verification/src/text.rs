//! Small text helpers: the decimal rendering of integers, and whitespace
//! trimming. The decimal renderers are thin wrappers around the standard
//! formatting of the integer types, against an explicit digit-sequence
//! specification.

use vstd::prelude::*;

verus! {

/// The character for a single decimal digit.
pub open spec fn digit_char(d: nat) -> char {
    if d == 0 {
        '0'
    } else if d == 1 {
        '1'
    } else if d == 2 {
        '2'
    } else if d == 3 {
        '3'
    } else if d == 4 {
        '4'
    } else if d == 5 {
        '5'
    } else if d == 6 {
        '6'
    } else if d == 7 {
        '7'
    } else if d == 8 {
        '8'
    } else {
        '9'
    }
}

/// The decimal digits of `n`, most significant first, with no leading zeros
/// (a single `'0'` for zero).
pub open spec fn dec_digits(n: nat) -> Seq<char>
    decreases n,
{
    if n < 10 {
        seq![digit_char(n)]
    } else {
        dec_digits(n / 10).push(digit_char(n % 10))
    }
}

/// The decimal rendering of a signed number: a leading `'-'` when negative.
pub open spec fn dec_int(v: int) -> Seq<char> {
    if v < 0 {
        seq!['-'] + dec_digits((-v) as nat)
    } else {
        dec_digits(v as nat)
    }
}

/// Relies on `usize`'s standard `to_string`, which renders the value in
/// decimal with no sign and no leading zeros.
#[verifier::external_body]
pub fn usize_to_string(v: usize) -> (r: String)
    ensures
        r@ == dec_digits(v as nat),
{
    v.to_string()
}

/// Relies on `i64`'s standard `to_string`, which renders the value in
/// decimal, with a leading `-` when it is negative.
#[verifier::external_body]
pub fn i64_to_string(v: i64) -> (r: String)
    ensures
        r@ == dec_int(v as int),
{
    v.to_string()
}

/// Relies on `char`'s standard `to_string`, which renders exactly the one
/// character.
#[verifier::external_body]
pub fn char_to_string(c: char) -> (r: String)
    ensures
        r@ == seq![c],
{
    c.to_string()
}

/// Whitespace for the purpose of trimming line text.
pub open spec fn is_trim_char(c: char) -> bool {
    c == ' ' || c == '\n' || c == '\t' || c == '\r'
}

/// The first index at or after `i` holding a non-whitespace character, or
/// the length when there is none.
pub open spec fn trim_start_idx(s: Seq<char>, i: int) -> int
    decreases s.len() - i,
    when 0 <= i <= s.len()
{
    if i >= s.len() || !is_trim_char(s[i]) {
        i
    } else {
        trim_start_idx(s, i + 1)
    }
}

/// The index just after the last non-whitespace character before `j`, or 0
/// when there is none.
pub open spec fn trim_end_idx(s: Seq<char>, j: int) -> int
    decreases j,
    when 0 <= j <= s.len()
{
    if j <= 0 || !is_trim_char(s[j - 1]) {
        j
    } else {
        trim_end_idx(s, j - 1)
    }
}

/// `s` with leading and trailing whitespace removed.
pub open spec fn trimmed(s: Seq<char>) -> Seq<char> {
    let start = trim_start_idx(s, 0);
    let end = trim_end_idx(s, s.len() as int);
    if start >= end {
        Seq::empty()
    } else {
        s.subrange(start, end)
    }
}

/// Removes leading and trailing whitespace from `s`.
pub fn trim_text(s: &str) -> (r: String)
    ensures
        r@ == trimmed(s@),
{
    let len = s.unicode_len();
    let mut start: usize = 0;
    while start < len && is_trim(s.get_char(start))
        invariant
            0 <= start <= len,
            len == s@.len(),
            trim_start_idx(s@, 0) == trim_start_idx(s@, start as int),
        decreases len - start,
    {
        start = start + 1;
    }
    proof {
        assert(trim_start_idx(s@, 0) == start as int);
    }
    let mut end: usize = len;
    while end > start && is_trim(s.get_char(end - 1))
        invariant
            start <= end <= len,
            len == s@.len(),
            trim_end_idx(s@, len as int) == trim_end_idx(s@, end as int),
        decreases end,
    {
        end = end - 1;
    }
    if start >= end {
        proof {
            lemma_trim_end_le(s@, end as int);
        }
        String::new()
    } else {
        proof {
            assert(!is_trim_char(s@[end - 1]));
            assert(trim_end_idx(s@, end as int) == end as int);
        }
        let piece = s.substring_char(start, end);
        piece.to_owned()
    }
}

/// Whitespace test on one character.
fn is_trim(c: char) -> (r: bool)
    ensures
        r == is_trim_char(c),
{
    c == ' ' || c == '\n' || c == '\t' || c == '\r'
}

/// Trimming an end index never moves it forward.
proof fn lemma_trim_end_le(s: Seq<char>, j: int)
    requires
        0 <= j <= s.len(),
    ensures
        trim_end_idx(s, j) <= j,
    decreases j,
{
    if !(j <= 0 || !is_trim_char(s[j - 1])) {
        lemma_trim_end_le(s, j - 1);
    }
}

} // verus!
