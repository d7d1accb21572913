//! Unicode character properties and case mappings from `std`, which follow
//! the Unicode tables. Each function names its result; for ASCII input the
//! result is stated outright.
use vstd::prelude::*;

verus! {

/// `c` is an ASCII letter from `a` to `z`.
pub open spec fn is_ascii_lower(c: char) -> bool {
    'a' <= c && c <= 'z'
}

/// `c` is an ASCII letter from `A` to `Z`.
pub open spec fn is_ascii_upper(c: char) -> bool {
    'A' <= c && c <= 'Z'
}

/// `c` is an ASCII digit.
pub open spec fn is_ascii_digit(c: char) -> bool {
    '0' <= c && c <= '9'
}

/// `c` is an ASCII character.
pub open spec fn is_ascii_char(c: char) -> bool {
    (c as u32) < 0x80
}

/// ASCII lower-casing of one character.
pub open spec fn ascii_lower(c: char) -> char {
    if is_ascii_upper(c) { ((c as u32) + 32) as char } else { c }
}

/// ASCII upper-casing of one character.
pub open spec fn ascii_upper(c: char) -> char {
    if is_ascii_lower(c) { ((c as u32) - 32) as char } else { c }
}

/// Every character of `s` is ASCII.
pub open spec fn all_ascii(s: Seq<char>) -> bool {
    forall|k: int| 0 <= k < s.len() ==> is_ascii_char(#[trigger] s[k])
}

/// ASCII lower-casing of a sequence.
pub open spec fn ascii_lower_seq(s: Seq<char>) -> Seq<char> {
    Seq::new(s.len(), |k: int| ascii_lower(s[k]))
}

/// The Unicode `Lowercase` property of `c`.
pub uninterp spec fn char_is_lowercase(c: char) -> bool;

/// The Unicode `Uppercase` property of `c`.
pub uninterp spec fn char_is_uppercase(c: char) -> bool;

/// The Unicode `Alphabetic` property of `c`.
pub uninterp spec fn char_is_alphabetic(c: char) -> bool;

/// `Alphabetic` or `Numeric` (Nd, Nl, No) per Unicode.
pub uninterp spec fn char_is_alphanumeric(c: char) -> bool;

/// The full Unicode upper-case mapping of `c`.
pub uninterp spec fn char_uppercase(c: char) -> Seq<char>;

/// The full Unicode lower-case mapping of `c`.
pub uninterp spec fn char_lowercase(c: char) -> Seq<char>;

/// The Unicode lower-case mapping of a whole string.
pub uninterp spec fn str_lowercase(s: Seq<char>) -> Seq<char>;

/// `char::is_lowercase`: whether `c` has the Unicode `Lowercase` property
/// (for ASCII, exactly `a..=z`).
#[verifier::external_body]
pub(crate) fn is_lowercase(c: char) -> (b: bool)
    ensures
        b == char_is_lowercase(c),
        is_ascii_char(c) ==> (b <==> is_ascii_lower(c)),
{
    c.is_lowercase()
}

/// `char::is_uppercase`: whether `c` has the Unicode `Uppercase` property
/// (for ASCII, exactly `A..=Z`).
#[verifier::external_body]
pub(crate) fn is_uppercase(c: char) -> (b: bool)
    ensures
        b == char_is_uppercase(c),
        is_ascii_char(c) ==> (b <==> is_ascii_upper(c)),
{
    c.is_uppercase()
}

/// `char::is_alphabetic`: whether `c` has the Unicode `Alphabetic` property
/// (for ASCII, exactly the letters).
#[verifier::external_body]
pub(crate) fn is_alphabetic(c: char) -> (b: bool)
    ensures
        b == char_is_alphabetic(c),
        is_ascii_char(c) ==> (b <==> (is_ascii_lower(c) || is_ascii_upper(c))),
{
    c.is_alphabetic()
}

/// `char::is_alphanumeric`: alphabetic or numeric per Unicode (for ASCII,
/// exactly the letters and digits).
#[verifier::external_body]
pub(crate) fn is_alphanumeric(c: char) -> (b: bool)
    ensures
        b == char_is_alphanumeric(c),
        is_ascii_char(c) ==> (b <==> (is_ascii_lower(c) || is_ascii_upper(c) || is_ascii_digit(c))),
{
    c.is_alphanumeric()
}

/// `char::to_uppercase`, collected: the upper-case mapping of `c`, one to
/// three characters (for ASCII, the ASCII upper case).
#[verifier::external_body]
pub(crate) fn to_uppercase(c: char) -> (s: String)
    ensures
        s@ == char_uppercase(c),
        1 <= s@.len() <= 3,
        is_ascii_char(c) ==> s@ == seq![ascii_upper(c)],
{
    c.to_uppercase().to_string()
}

/// `char::to_lowercase`, collected: the lower-case mapping of `c`, one to
/// three characters (for ASCII, the ASCII lower case).
#[verifier::external_body]
pub(crate) fn to_lowercase_char(c: char) -> (s: String)
    ensures
        s@ == char_lowercase(c),
        1 <= s@.len() <= 3,
        is_ascii_char(c) ==> s@ == seq![ascii_lower(c)],
{
    c.to_lowercase().to_string()
}

/// `str::to_lowercase`: the lower-case form of `s` (for ASCII input, the
/// ASCII lower case of each character).
#[verifier::external_body]
pub(crate) fn to_lowercase(s: &str) -> (r: String)
    ensures
        r@ == str_lowercase(s@),
        all_ascii(s@) ==> r@ == ascii_lower_seq(s@),
{
    s.to_lowercase()
}

/// `a` and `b` are equal when ASCII letters are compared without case
/// (`str::eq_ignore_ascii_case`).
pub open spec fn spec_eq_ignore_ascii_case(a: Seq<char>, b: Seq<char>) -> bool {
    a.len() == b.len() && forall|k: int| 0 <= k < a.len() ==> ascii_lower(#[trigger] a[k]) == ascii_lower(b[k])
}

fn ascii_lower_code(c: char) -> (r: u32)
    ensures
        r == ascii_lower(c) as u32,
{
    if 'A' <= c && c <= 'Z' {
        c as u32 + 32
    } else {
        c as u32
    }
}

/// Whether `a` and `b` are equal when ASCII letters are compared without case.
pub fn eq_ignore_ascii_case(a: &str, b: &str) -> (r: bool)
    ensures
        r == spec_eq_ignore_ascii_case(a@, b@),
{
    let va = crate::text::to_chars(a);
    let vb = crate::text::to_chars(b);
    if va.len() != vb.len() {
        return false;
    }
    let mut k: usize = 0;
    while k < va.len()
        invariant
            0 <= k <= va@.len(),
            va@ == a@,
            vb@ == b@,
            va@.len() == vb@.len(),
            forall|j: int| 0 <= j < k ==> ascii_lower(#[trigger] va@[j]) == ascii_lower(vb@[j]),
        decreases va@.len() - k,
    {
        if ascii_lower_code(va[k]) != ascii_lower_code(vb[k]) {
            assert(ascii_lower(va@[k as int]) != ascii_lower(vb@[k as int]));
            return false;
        }
        k += 1;
    }
    true
}

} // verus!
