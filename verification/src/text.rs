//! Character classes and conversions between `str`, `String` and `Vec<char>`
//! that the lexers and the path functions share.
use vstd::prelude::*;
use vstd::utf8::encode_utf8;

verus! {

/// Whether `char::is_alphabetic` holds of a non-ASCII `c` (the Unicode
/// `Alphabetic` property).
pub uninterp spec fn unicode_alphabetic(c: char) -> bool;

/// Whether `char::is_numeric` holds of a non-ASCII `c` (Unicode general
/// categories `Nd`, `Nl`, `No`).
pub uninterp spec fn unicode_numeric(c: char) -> bool;

/// Whether `char::is_whitespace` holds of a non-ASCII `c` (the Unicode
/// `White_Space` property).
pub uninterp spec fn unicode_whitespace(c: char) -> bool;

/// `char::is_alphabetic`: in ASCII exactly the letters `a`–`z` and `A`–`Z`
/// have the `Alphabetic` property.
pub open spec fn char_alphabetic(c: char) -> bool {
    if (c as u32) < 0x80 {
        ('a' <= c && c <= 'z') || ('A' <= c && c <= 'Z')
    } else {
        unicode_alphabetic(c)
    }
}

/// `char::is_numeric`: in ASCII exactly the digits `0`–`9` are numeric.
pub open spec fn char_numeric(c: char) -> bool {
    if (c as u32) < 0x80 {
        '0' <= c && c <= '9'
    } else {
        unicode_numeric(c)
    }
}

/// `char::is_whitespace`: in ASCII exactly tab, line feed, vertical tab,
/// form feed, carriage return (U+0009 to U+000D) and space have the
/// `White_Space` property.
pub open spec fn char_whitespace(c: char) -> bool {
    if (c as u32) < 0x80 {
        ('\t' <= c && c <= '\r') || c == ' '
    } else {
        unicode_whitespace(c)
    }
}

/// `char::is_alphanumeric`, which its documentation defines as
/// `is_alphabetic() || is_numeric()`.
pub open spec fn unicode_alphanumeric(c: char) -> bool {
    char_alphabetic(c) || char_numeric(c)
}

/// `char::is_digit(10)`: its documentation fixes the radix-10 digits to `'0'..='9'`.
pub open spec fn ascii_digit(c: char) -> bool {
    '0' <= c && c <= '9'
}

/// Calls `char::is_alphabetic`; the result is `char_alphabetic(c)`: the ASCII
/// letters, and beyond ASCII the result named `unicode_alphabetic(c)`.
#[verifier::external_body]
pub(crate) fn is_alphabetic(c: char) -> (r: bool)
    ensures
        r == (if (c as u32) < 0x80 {
            ('a' <= c && c <= 'z') || ('A' <= c && c <= 'Z')
        } else {
            unicode_alphabetic(c)
        }),
{
    c.is_alphabetic()
}

/// Calls `char::is_numeric`; the result is `char_numeric(c)`: the ASCII
/// digits, and beyond ASCII the result named `unicode_numeric(c)`.
#[verifier::external_body]
pub(crate) fn is_numeric(c: char) -> (r: bool)
    ensures
        r == (if (c as u32) < 0x80 {
            '0' <= c && c <= '9'
        } else {
            unicode_numeric(c)
        }),
{
    c.is_numeric()
}

/// Calls `char::is_whitespace`; the result is `char_whitespace(c)`: the ASCII
/// blanks U+0009 to U+000D and space, and beyond ASCII the result named
/// `unicode_whitespace(c)`.
#[verifier::external_body]
pub(crate) fn is_whitespace(c: char) -> (r: bool)
    ensures
        r == (if (c as u32) < 0x80 {
            ('\t' <= c && c <= '\r') || c == ' '
        } else {
            unicode_whitespace(c)
        }),
{
    c.is_whitespace()
}

/// Whether `c` is alphanumeric: `char::is_alphanumeric`, which its
/// documentation defines as `is_alphabetic() || is_numeric()`.
pub(crate) fn is_alphanumeric(c: char) -> (r: bool)
    ensures
        r == unicode_alphanumeric(c),
{
    is_alphabetic(c) || is_numeric(c)
}

/// The characters of `s`, in order.
pub fn chars_of(s: &str) -> (v: Vec<char>)
    ensures
        v@ == s@,
{
    let n = s.unicode_len();
    let mut v: Vec<char> = Vec::new();
    let mut i: usize = 0;
    while i < n
        invariant
            n == s@.len(),
            i <= n,
            v@ == s@.subrange(0, i as int),
        decreases n - i,
    {
        v.push(s.get_char(i));
        i = i + 1;
        assert(v@ =~= s@.subrange(0, i as int));
    }
    assert(s@.subrange(0, n as int) =~= s@);
    v
}

/// Calls `String::push`, which appends one character to the string.
#[verifier::external_body]
fn push_char(s: &mut String, c: char)
    ensures
        final(s)@ == old(s)@.push(c),
{
    s.push(c)
}

/// A `String` that holds exactly the characters `v`.
pub fn string_of(v: &Vec<char>) -> (s: String)
    ensures
        s@ == v@,
{
    let mut s = String::new();
    let mut i: usize = 0;
    while i < v.len()
        invariant
            i <= v@.len(),
            s@ == v@.subrange(0, i as int),
        decreases v.len() - i,
    {
        push_char(&mut s, v[i]);
        i = i + 1;
        assert(s@ =~= v@.subrange(0, i as int));
    }
    assert(v@.subrange(0, v@.len() as int) =~= v@);
    s
}

/// Every character takes at least one byte in UTF-8.
pub proof fn lemma_utf8_len_ge(s: Seq<char>)
    ensures
        encode_utf8(s).len() >= s.len(),
    decreases s.len(),
{
    if s.len() > 0 {
        lemma_utf8_len_ge(s.drop_first());
    }
}

/// Whether two strings hold the same characters.
pub fn str_eq(a: &str, b: &str) -> (r: bool)
    ensures
        r == (a@ == b@),
{
    let ac = chars_of(a);
    let bc = chars_of(b);
    chars_eq(&ac, bc.as_slice())
}

/// Whether `a` holds exactly the characters `b`.
pub fn chars_eq(a: &Vec<char>, b: &[char]) -> (r: bool)
    ensures
        r == (a@ == b@),
{
    if a.len() != b.len() {
        return false;
    }
    let mut i: usize = 0;
    while i < a.len()
        invariant
            a.len() == b.len(),
            i <= a.len(),
            forall|j: int| 0 <= j < i ==> a@[j] == b@[j],
        decreases a.len() - i,
    {
        if a[i] != b[i] {
            return false;
        }
        i = i + 1;
    }
    assert(a@ =~= b@);
    true
}

} // verus!
