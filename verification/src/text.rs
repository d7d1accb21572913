//! Character-level text primitives shared by the directive parsers and the
//! rule helpers: whitespace, trimming, searching, splitting, line breaking and
//! UTF-8 byte offsets, all stated over `Seq<char>` and character ranges.
use vstd::prelude::*;
use vstd::string::StringSliceAdditionalSpecFns;

verus! {

/// Unicode `White_Space`, the set that `char::is_whitespace` recognises.
pub open spec fn is_ws(c: char) -> bool {
    let u = c as u32;
    (0x09 <= u && u <= 0x0d) || u == 0x20 || u == 0x85 || u == 0xa0 || u == 0x1680
        || (0x2000 <= u && u <= 0x200a) || u == 0x2028 || u == 0x2029 || u == 0x202f
        || u == 0x205f || u == 0x3000
}

/// Number of bytes that the UTF-8 encoding of `c` takes.
pub open spec fn utf8_width(c: char) -> nat {
    let u = c as u32;
    if u < 0x80 {
        1
    } else if u < 0x800 {
        2
    } else if u < 0x10000 {
        3
    } else {
        4
    }
}

/// Length in bytes of the UTF-8 encoding of `s`.
pub open spec fn utf8_len(s: Seq<char>) -> nat
    decreases s.len(),
{
    if s.len() == 0 {
        0
    } else {
        utf8_width(s[0]) + utf8_len(s.drop_first())
    }
}

pub proof fn lemma_utf8_len_concat(a: Seq<char>, b: Seq<char>)
    ensures
        utf8_len(a + b) == utf8_len(a) + utf8_len(b),
    decreases a.len(),
{
    if a.len() > 0 {
        assert((a + b).drop_first() =~= a.drop_first() + b);
        lemma_utf8_len_concat(a.drop_first(), b);
    } else {
        assert(a + b =~= b);
    }
}

pub proof fn lemma_utf8_len_take_step(s: Seq<char>, i: int)
    requires
        0 <= i < s.len(),
    ensures
        byte_pos(s, i + 1) == byte_pos(s, i) + utf8_width(s[i]),
{
    assert(s.take(i + 1) =~= s.take(i) + seq![s[i]]);
    lemma_utf8_len_concat(s.take(i), seq![s[i]]);
    assert(seq![s[i]].drop_first() =~= Seq::<char>::empty());
    assert(utf8_len(seq![s[i]]) == utf8_width(s[i]) + utf8_len(Seq::<char>::empty()));
}

pub proof fn lemma_byte_pos_mono(s: Seq<char>, i: int, j: int)
    requires
        0 <= i <= j <= s.len(),
    ensures
        byte_pos(s, i) + (j - i) <= byte_pos(s, j) <= utf8_len(s),
    decreases j - i,
{
    if i < j {
        lemma_byte_pos_mono(s, i, j - 1);
        lemma_utf8_len_take_step(s, j - 1);
    }
    lemma_utf8_len_concat(s.take(j), s.skip(j));
    assert(s.take(j) + s.skip(j) =~= s);
}

/// The byte length of a string is the UTF-8 length of its characters.
pub proof fn lemma_encode_len(s: Seq<char>)
    ensures
        vstd::utf8::encode_utf8(s).len() == utf8_len(s),
    decreases s.len(),
{
    if s.len() > 0 {
        lemma_encode_len(s.drop_first());
        let c = s[0];
        let u = c as u32;
        vstd::utf8::char_is_scalar(c);
        assert(vstd::utf8::encode_scalar(u).len() == utf8_width(c));
        assert(vstd::utf8::encode_utf8(s) == vstd::utf8::encode_scalar(u) + vstd::utf8::encode_utf8(s.drop_first()));
        assert(utf8_len(s) == utf8_width(c) + utf8_len(s.drop_first()));
        assert(vstd::utf8::encode_utf8(s).len() == vstd::utf8::encode_scalar(u).len() + vstd::utf8::encode_utf8(s.drop_first()).len());
    }
}

/// `str::len`: the byte length of `s`.
pub fn str_byte_len(s: &str) -> (n: usize)
    ensures
        n == utf8_len(s@),
{
    proof { lemma_encode_len(s@); }
    let b = s.as_bytes();
    b.len()
}

/// Byte offset of the character at index `i` of `s`.
pub open spec fn byte_pos(s: Seq<char>, i: int) -> nat {
    utf8_len(s.take(i))
}

/// First index in `[lo, hi)` that holds no whitespace, or `hi`.
pub open spec fn trim_lo(s: Seq<char>, lo: int, hi: int) -> int
    decreases hi - lo,
{
    if lo < hi && is_ws(s[lo]) {
        trim_lo(s, lo + 1, hi)
    } else {
        lo
    }
}

/// One past the last index in `[lo, hi)` that holds no whitespace, or `lo`.
pub open spec fn trim_hi(s: Seq<char>, lo: int, hi: int) -> int
    decreases hi - lo,
{
    if lo < hi && is_ws(s[hi - 1]) {
        trim_hi(s, lo, hi - 1)
    } else {
        hi
    }
}

/// `t` is a prefix of `s[lo..hi)`.
pub open spec fn has_prefix(s: Seq<char>, lo: int, hi: int, t: Seq<char>) -> bool {
    &&& lo + t.len() <= hi
    &&& s.subrange(lo, lo + t.len()) == t
}

/// `t` is a suffix of `s[lo..hi)`.
pub open spec fn has_suffix(s: Seq<char>, lo: int, hi: int, t: Seq<char>) -> bool {
    &&& lo + t.len() <= hi
    &&& s.subrange(hi - t.len(), hi) == t
}

/// First index in `[lo, hi)` holding `c`, or `hi` when there is none.
pub open spec fn find_from(s: Seq<char>, lo: int, hi: int, c: char) -> int
    decreases hi - lo,
{
    if lo >= hi {
        hi
    } else if s[lo] == c {
        lo
    } else {
        find_from(s, lo + 1, hi, c)
    }
}

/// The pieces of `s[p..hi)` between occurrences of `c`, scanning from `i`
/// (the current piece started at `p`).
pub open spec fn split_scan(s: Seq<char>, p: int, i: int, hi: int, c: char) -> Seq<(int, int)>
    decreases hi - i,
{
    if i >= hi {
        seq![(p, hi)]
    } else if s[i] == c {
        seq![(p, i)] + split_scan(s, i + 1, i + 1, hi, c)
    } else {
        split_scan(s, p, i + 1, hi, c)
    }
}

/// The pieces of `s[lo..hi)` between occurrences of `c`, as `str::split` yields
/// them (always at least one piece).
pub open spec fn split_ranges(s: Seq<char>, lo: int, hi: int, c: char) -> Seq<(int, int)> {
    split_scan(s, lo, lo, hi, c)
}

/// End of a line whose terminating `'\n'` sits at `f`: a `'\r'` right before it
/// belongs to the line ending.
pub open spec fn line_content_end(s: Seq<char>, lo: int, f: int) -> int {
    if f > lo && s[f - 1] == '\r' {
        f - 1
    } else {
        f
    }
}

/// The lines of `s` from the line that starts at `p`, scanning from `i`.
pub open spec fn line_scan(s: Seq<char>, p: int, i: int) -> Seq<(int, int)>
    decreases s.len() - i,
{
    if i >= s.len() {
        if p < s.len() {
            seq![(p, s.len() as int)]
        } else {
            seq![]
        }
    } else if s[i] == '\n' {
        seq![(p, line_content_end(s, p, i))] + line_scan(s, i + 1, i + 1)
    } else {
        line_scan(s, p, i + 1)
    }
}

/// The lines of `s` as `str::lines` yields them, as character ranges: split at
/// `'\n'`, a `'\r'` right before the `'\n'` dropped, no empty line after a
/// final `'\n'`.
pub open spec fn line_ranges(s: Seq<char>) -> Seq<(int, int)> {
    line_scan(s, 0, 0)
}

/// The characters of `s[r.0..r.1)`.
pub open spec fn slice_of(s: Seq<char>, r: (int, int)) -> Seq<char> {
    s.subrange(r.0, r.1)
}

/// A range that lies within `[0, n]`.
pub open spec fn range_in(r: (int, int), lo: int, hi: int) -> bool {
    lo <= r.0 <= r.1 <= hi
}

pub proof fn lemma_find_from_bounds(s: Seq<char>, lo: int, hi: int, c: char)
    requires
        0 <= lo <= hi <= s.len(),
    ensures
        lo <= find_from(s, lo, hi, c) <= hi,
        find_from(s, lo, hi, c) < hi ==> s[find_from(s, lo, hi, c)] == c,
        forall|k: int| lo <= k < find_from(s, lo, hi, c) ==> s[k] != c,
    decreases hi - lo,
{
    if lo < hi && s[lo] != c {
        lemma_find_from_bounds(s, lo + 1, hi, c);
    }
}

pub proof fn lemma_trim_lo_bounds(s: Seq<char>, lo: int, hi: int)
    requires
        0 <= lo <= hi <= s.len(),
    ensures
        lo <= trim_lo(s, lo, hi) <= hi,
        trim_lo(s, lo, hi) < hi ==> !is_ws(s[trim_lo(s, lo, hi)]),
        forall|k: int| lo <= k < trim_lo(s, lo, hi) ==> is_ws(s[k]),
    decreases hi - lo,
{
    if lo < hi && is_ws(s[lo]) {
        lemma_trim_lo_bounds(s, lo + 1, hi);
    }
}

pub proof fn lemma_trim_hi_bounds(s: Seq<char>, lo: int, hi: int)
    requires
        0 <= lo <= hi <= s.len(),
    ensures
        lo <= trim_hi(s, lo, hi) <= hi,
        trim_hi(s, lo, hi) > lo ==> !is_ws(s[trim_hi(s, lo, hi) - 1]),
        forall|k: int| trim_hi(s, lo, hi) <= k < hi ==> is_ws(s[k]),
    decreases hi - lo,
{
    if lo < hi && is_ws(s[hi - 1]) {
        lemma_trim_hi_bounds(s, lo, hi - 1);
    }
}

/// Copies the characters of `s` into a vector.
pub fn to_chars(s: &str) -> (v: Vec<char>)
    ensures
        v@ == s@,
{
    let mut v: Vec<char> = Vec::new();
    for c in it: s.chars()
        invariant
            v@ == it.seq().take(it.index() as int),
    {
        v.push(c);
    }
    v
}

/// The decimal digit `d` (`0..=9`) as a character.
pub open spec fn digit_char(d: nat) -> char {
    if d == 0 { '0' } else if d == 1 { '1' } else if d == 2 { '2' } else if d == 3 { '3' }
    else if d == 4 { '4' } else if d == 5 { '5' } else if d == 6 { '6' } else if d == 7 { '7' }
    else if d == 8 { '8' } else { '9' }
}

/// The decimal rendering of `n`, without leading zeros.
pub open spec fn decimal(n: nat) -> Seq<char>
    decreases n,
{
    if n < 10 {
        seq![digit_char(n)]
    } else {
        decimal(n / 10).push(digit_char(n % 10))
    }
}

/// The digit `d` as a character.
pub fn digit_to_char(d: usize) -> (c: char)
    requires
        d < 10,
    ensures
        c == digit_char(d as nat),
{
    if d == 0 { '0' } else if d == 1 { '1' } else if d == 2 { '2' } else if d == 3 { '3' }
    else if d == 4 { '4' } else if d == 5 { '5' } else if d == 6 { '6' } else if d == 7 { '7' }
    else if d == 8 { '8' } else { '9' }
}

/// `n` rendered in decimal.
pub fn usize_to_string(n: usize) -> (s: String)
    ensures
        s@ == decimal(n as nat),
    decreases n,
{
    if n < 10 {
        let mut s = String::new();
        push_char(&mut s, digit_to_char(n));
        assert(s@ =~= seq![digit_char(n as nat)]);
        s
    } else {
        let mut s = usize_to_string(n / 10);
        push_char(&mut s, digit_to_char(n % 10));
        s
    }
}

/// Byte offsets of every character position of `v`, `v.len() + 1` of them.
pub fn byte_offsets(v: &Vec<char>) -> (r: Vec<usize>)
    requires
        utf8_len(v@) <= usize::MAX,
    ensures
        r@.len() == v@.len() + 1,
        forall|i: int| 0 <= i <= v@.len() ==> #[trigger] r@[i] == byte_pos(v@, i),
{
    let mut r: Vec<usize> = Vec::new();
    let mut acc: usize = 0;
    let mut i: usize = 0;
    assert(v@.take(0) =~= Seq::<char>::empty());
    r.push(0);
    while i < v.len()
        invariant
            i <= v.len(),
            utf8_len(v@) <= usize::MAX,
            r@.len() == i + 1,
            acc == byte_pos(v@, i as int),
            forall|k: int| 0 <= k <= i ==> #[trigger] r@[k] == byte_pos(v@, k),
        decreases v.len() - i,
    {
        proof {
            lemma_utf8_len_take_step(v@, i as int);
            lemma_byte_pos_mono(v@, i + 1, v@.len() as int);
        }
        acc = acc + char_utf8_width(v[i]);
        i += 1;
        r.push(acc);
    }
    r
}

/// Appends one character to a string (`String::push`).
#[verifier::external_body]
pub(crate) fn push_char(s: &mut String, c: char)
    ensures
        final(s)@ == old(s)@.push(c),
{
    s.push(c);
}

/// The string made of the characters `v[lo..hi)`.
pub fn range_to_string(v: &Vec<char>, lo: usize, hi: usize) -> (r: String)
    requires
        lo <= hi <= v.len(),
    ensures
        r@ == v@.subrange(lo as int, hi as int),
{
    let mut r = String::new();
    let mut i = lo;
    while i < hi
        invariant
            lo <= i <= hi <= v.len(),
            r@ == v@.subrange(lo as int, i as int),
        decreases hi - i,
    {
        push_char(&mut r, v[i]);
        assert(v@.subrange(lo as int, i + 1) == v@.subrange(lo as int, i as int).push(v@[i as int]));
        i += 1;
    }
    r
}

/// The string made of the characters of `v`.
pub fn chars_to_string(v: &Vec<char>) -> (r: String)
    ensures
        r@ == v@,
{
    let r = range_to_string(v, 0, v.len());
    assert(v@.subrange(0, v@.len() as int) == v@);
    r
}

/// `char::is_whitespace`.
pub fn char_is_ws(c: char) -> (b: bool)
    ensures
        b == is_ws(c),
{
    let u = c as u32;
    (0x09 <= u && u <= 0x0d) || u == 0x20 || u == 0x85 || u == 0xa0 || u == 0x1680
        || (0x2000 <= u && u <= 0x200a) || u == 0x2028 || u == 0x2029 || u == 0x202f
        || u == 0x205f || u == 0x3000
}

/// Number of UTF-8 bytes of `c`.
pub fn char_utf8_width(c: char) -> (w: usize)
    ensures
        w == utf8_width(c),
        1 <= w <= 4,
{
    let u = c as u32;
    if u < 0x80 {
        1
    } else if u < 0x800 {
        2
    } else if u < 0x10000 {
        3
    } else {
        4
    }
}

/// The range `[lo, hi)` of `v` with leading and trailing whitespace removed.
pub fn trim_range(v: &Vec<char>, lo: usize, hi: usize) -> (r: (usize, usize))
    requires
        lo <= hi <= v.len(),
    ensures
        r.0 == trim_lo(v@, lo as int, hi as int),
        r.1 == trim_hi(v@, r.0 as int, hi as int),
        lo <= r.0 <= r.1 <= hi,
{
    let a = trim_start_index(v, lo, hi);
    let b = trim_end_index(v, a, hi);
    (a, b)
}

/// `trim_lo` computed.
pub fn trim_start_index(v: &Vec<char>, lo: usize, hi: usize) -> (a: usize)
    requires
        lo <= hi <= v.len(),
    ensures
        a == trim_lo(v@, lo as int, hi as int),
        lo <= a <= hi,
{
    let mut i = lo;
    while i < hi && char_is_ws(v[i])
        invariant
            lo <= i <= hi <= v.len(),
            trim_lo(v@, i as int, hi as int) == trim_lo(v@, lo as int, hi as int),
        decreases hi - i,
    {
        i += 1;
    }
    i
}

/// `trim_hi` computed.
pub fn trim_end_index(v: &Vec<char>, lo: usize, hi: usize) -> (b: usize)
    requires
        lo <= hi <= v.len(),
    ensures
        b == trim_hi(v@, lo as int, hi as int),
        lo <= b <= hi,
{
    let mut j = hi;
    while j > lo && char_is_ws(v[j - 1])
        invariant
            lo <= j <= hi <= v.len(),
            trim_hi(v@, lo as int, j as int) == trim_hi(v@, lo as int, hi as int),
        decreases j - lo,
    {
        j -= 1;
    }
    j
}

/// `find_from` computed.
pub fn find_char_from(v: &Vec<char>, lo: usize, hi: usize, c: char) -> (f: usize)
    requires
        lo <= hi <= v.len(),
    ensures
        f == find_from(v@, lo as int, hi as int, c),
        lo <= f <= hi,
{
    let mut i = lo;
    while i < hi && v[i] != c
        invariant
            lo <= i <= hi <= v.len(),
            find_from(v@, i as int, hi as int, c) == find_from(v@, lo as int, hi as int, c),
        decreases hi - i,
    {
        i += 1;
    }
    i
}

/// Whether `t` is a prefix of `v[lo..hi)`.
pub fn has_prefix_at(v: &Vec<char>, lo: usize, hi: usize, t: &Vec<char>) -> (b: bool)
    requires
        lo <= hi <= v.len(),
    ensures
        b == has_prefix(v@, lo as int, hi as int, t@),
{
    if hi - lo < t.len() {
        return false;
    }
    let mut k: usize = 0;
    while k < t.len()
        invariant
            lo + t.len() <= hi <= v.len(),
            0 <= k <= t.len(),
            forall|j: int| 0 <= j < k ==> v@[lo + j] == t@[j],
        decreases t.len() - k,
    {
        if v[lo + k] != t[k] {
            assert(v@.subrange(lo as int, lo + t.len())[k as int] != t@[k as int]);
            return false;
        }
        k += 1;
    }
    assert(v@.subrange(lo as int, lo + t.len()) =~= t@);
    true
}

/// Whether `t` is a suffix of `v[lo..hi)`.
pub fn has_suffix_at(v: &Vec<char>, lo: usize, hi: usize, t: &Vec<char>) -> (b: bool)
    requires
        lo <= hi <= v.len(),
    ensures
        b == has_suffix(v@, lo as int, hi as int, t@),
{
    if hi - lo < t.len() {
        return false;
    }
    let start = hi - t.len();
    let mut k: usize = 0;
    while k < t.len()
        invariant
            lo <= start,
            start + t.len() == hi <= v.len(),
            0 <= k <= t.len(),
            forall|j: int| 0 <= j < k ==> v@[start + j] == t@[j],
        decreases t.len() - k,
    {
        if v[start + k] != t[k] {
            assert(v@.subrange(start as int, hi as int)[k as int] != t@[k as int]);
            return false;
        }
        k += 1;
    }
    assert(v@.subrange(start as int, hi as int) =~= t@);
    true
}

/// Whether `v[lo..hi)` equals `t`.
pub fn range_eq(v: &Vec<char>, lo: usize, hi: usize, t: &Vec<char>) -> (b: bool)
    requires
        lo <= hi <= v.len(),
    ensures
        b == (v@.subrange(lo as int, hi as int) == t@),
{
    if hi - lo != t.len() {
        assert(v@.subrange(lo as int, hi as int).len() != t@.len());
        return false;
    }
    has_prefix_at(v, lo, hi, t)
}

/// Whether two character sequences are equal.
pub fn chars_eq(a: &Vec<char>, b: &Vec<char>) -> (r: bool)
    ensures
        r == (a@ == b@),
{
    let r = range_eq(a, 0, a.len(), b);
    assert(a@.subrange(0, a@.len() as int) == a@);
    r
}

/// Whether two strings are equal.
pub fn str_eq(a: &str, b: &str) -> (r: bool)
    ensures
        r == (a@ == b@),
{
    let va = to_chars(a);
    let vb = to_chars(b);
    chars_eq(&va, &vb)
}

/// Turns a vector of index pairs into the pairs of integers it holds.
pub open spec fn pairs_view(r: Seq<(usize, usize)>) -> Seq<(int, int)> {
    Seq::new(r.len(), |k: int| (r[k].0 as int, r[k].1 as int))
}

/// The pieces of `v[lo..hi)` separated by `c`.
pub fn split_range(v: &Vec<char>, lo: usize, hi: usize, c: char) -> (r: Vec<(usize, usize)>)
    requires
        lo <= hi <= v.len(),
    ensures
        pairs_view(r@) == split_ranges(v@, lo as int, hi as int, c),
        forall|k: int| 0 <= k < r@.len() ==> lo <= #[trigger] r@[k].0 <= r@[k].1 <= hi,
{
    let mut r: Vec<(usize, usize)> = Vec::new();
    let mut p = lo;
    let mut i = lo;
    while i < hi
        invariant
            lo <= p <= i <= hi <= v.len(),
            split_ranges(v@, lo as int, hi as int, c) == pairs_view(r@) + split_scan(v@, p as int, i as int, hi as int, c),
            forall|k: int| 0 <= k < r@.len() ==> lo <= #[trigger] r@[k].0 <= r@[k].1 <= p,
        decreases hi - i,
    {
        if v[i] == c {
            let ghost old_r = r@;
            r.push((p, i));
            assert(pairs_view(r@) =~= pairs_view(old_r) + seq![(p as int, i as int)]);
            assert(forall|k: int| 0 <= k < old_r.len() ==> #[trigger] r@[k] == old_r[k]);
            assert(forall|k: int| 0 <= k < r@.len() ==> lo <= #[trigger] r@[k].0 <= r@[k].1 <= i + 1);
            i += 1;
            p = i;
        } else {
            i += 1;
        }
    }
    let ghost old_r = r@;
    r.push((p, hi));
    assert(pairs_view(r@) =~= pairs_view(old_r) + seq![(p as int, hi as int)]);
    r
}

/// The lines of `v`, as character ranges.
pub fn line_ranges_of(v: &Vec<char>) -> (r: Vec<(usize, usize)>)
    ensures
        pairs_view(r@) == line_ranges(v@),
        forall|k: int| 0 <= k < r@.len() ==> #[trigger] r@[k].0 <= r@[k].1 <= v.len(),
{
    let mut r: Vec<(usize, usize)> = Vec::new();
    let mut p: usize = 0;
    let mut i: usize = 0;
    while i < v.len()
        invariant
            p <= i <= v.len(),
            line_ranges(v@) == pairs_view(r@) + line_scan(v@, p as int, i as int),
            forall|k: int| 0 <= k < r@.len() ==> (#[trigger] r@[k]).0 <= r@[k].1,
            forall|k: int| 0 <= k < r@.len() ==> (#[trigger] r@[k]).1 <= p,
        decreases v.len() - i,
    {
        if v[i] == '\n' {
            let e = if i > p && v[i - 1] == '\r' { i - 1 } else { i };
            let ghost old_r = r@;
            r.push((p, e));
            assert(pairs_view(r@) =~= pairs_view(old_r) + seq![(p as int, e as int)]);
            assert forall|k: int| 0 <= k < r@.len() implies (#[trigger] r@[k]).0 <= r@[k].1 && r@[k].1 <= i + 1 by {
                if k < old_r.len() {
                    assert(r@[k] == old_r[k]);
                } else {
                    assert(r@[k] == (p, e));
                }
            }
            i += 1;
            p = i;
        } else {
            i += 1;
        }
    }
    assert(line_scan(v@, p as int, v.len() as int) == if p < v.len() { seq![(p as int, v.len() as int)] } else { Seq::<(int, int)>::empty() });
    if p < v.len() {
        let ghost old_r = r@;
        r.push((p, v.len()));
        assert(pairs_view(r@) =~= pairs_view(old_r) + seq![(p as int, v.len() as int)]);
    } else {
        assert(pairs_view(r@) + seq![] =~= pairs_view(r@));
    }
    r
}

/// A range with the whitespace at both ends removed.
pub open spec fn trimmed(s: Seq<char>, r: (int, int)) -> (int, int) {
    (trim_lo(s, r.0, r.1), trim_hi(s, trim_lo(s, r.0, r.1), r.1))
}

/// The trimmed ranges of `pieces` that are not empty, in order.
pub open spec fn nonempty_trimmed(s: Seq<char>, pieces: Seq<(int, int)>) -> Seq<(int, int)>
    decreases pieces.len(),
{
    if pieces.len() == 0 {
        seq![]
    } else {
        let rest = nonempty_trimmed(s, pieces.drop_last());
        let t = trimmed(s, pieces.last());
        if t.0 < t.1 {
            rest.push(t)
        } else {
            rest
        }
    }
}

/// The items of a `sep`-separated list in `s[lo..hi)`: each piece trimmed,
/// empty pieces dropped.
pub open spec fn list_items(s: Seq<char>, lo: int, hi: int, sep: char) -> Seq<(int, int)> {
    nonempty_trimmed(s, split_ranges(s, lo, hi, sep))
}

/// The strings that a sequence of ranges of `s` denote.
pub open spec fn slices_of(s: Seq<char>, rs: Seq<(int, int)>) -> Seq<Seq<char>> {
    Seq::new(rs.len(), |k: int| s.subrange(rs[k].0, rs[k].1))
}

/// The character sequences of a sequence of strings.
pub open spec fn strings_view(v: Seq<String>) -> Seq<Seq<char>> {
    Seq::new(v.len(), |k: int| v[k]@)
}

/// The items of the `sep`-separated list in `v[lo..hi)`.
pub fn list_items_of(v: &Vec<char>, lo: usize, hi: usize, sep: char) -> (r: Vec<(usize, usize)>)
    requires
        lo <= hi <= v.len(),
    ensures
        pairs_view(r@) == list_items(v@, lo as int, hi as int, sep),
        forall|k: int| 0 <= k < r@.len() ==> lo <= #[trigger] r@[k].0 < r@[k].1 <= hi,
{
    let pieces = split_range(v, lo, hi, sep);
    let mut r: Vec<(usize, usize)> = Vec::new();
    let mut k: usize = 0;
    while k < pieces.len()
        invariant
            0 <= k <= pieces.len(),
            lo <= hi <= v.len(),
            pairs_view(pieces@) == split_ranges(v@, lo as int, hi as int, sep),
            forall|j: int| 0 <= j < pieces@.len() ==> lo <= #[trigger] pieces@[j].0 <= pieces@[j].1 <= hi,
            pairs_view(r@) == nonempty_trimmed(v@, pairs_view(pieces@).take(k as int)),
            forall|j: int| 0 <= j < r@.len() ==> lo <= #[trigger] r@[j].0 < r@[j].1 <= hi,
        decreases pieces.len() - k,
    {
        let (a, b) = pieces[k];
        let t = trim_range(v, a, b);
        assert(pairs_view(pieces@).take(k + 1).drop_last() =~= pairs_view(pieces@).take(k as int));
        assert(pairs_view(pieces@).take(k + 1).last() == pairs_view(pieces@)[k as int]);
        if t.0 < t.1 {
            let ghost old_r = r@;
            r.push(t);
            assert(pairs_view(r@) =~= pairs_view(old_r).push((t.0 as int, t.1 as int)));
        }
        k += 1;
    }
    assert(pairs_view(pieces@).take(pieces@.len() as int) =~= pairs_view(pieces@));
    r
}

/// The strings that the ranges `rs` of `v` denote.
pub fn ranges_to_strings(v: &Vec<char>, rs: &Vec<(usize, usize)>) -> (r: Vec<String>)
    requires
        forall|k: int| 0 <= k < rs@.len() ==> #[trigger] rs@[k].0 <= rs@[k].1 <= v.len(),
    ensures
        strings_view(r@) == slices_of(v@, pairs_view(rs@)),
{
    let mut r: Vec<String> = Vec::new();
    let mut k: usize = 0;
    while k < rs.len()
        invariant
            0 <= k <= rs.len(),
            forall|j: int| 0 <= j < rs@.len() ==> #[trigger] rs@[j].0 <= rs@[j].1 <= v.len(),
            strings_view(r@) == slices_of(v@, pairs_view(rs@)).take(k as int),
        decreases rs.len() - k,
    {
        let (a, b) = rs[k];
        let s = range_to_string(v, a, b);
        let ghost old_r = r@;
        r.push(s);
        assert(strings_view(r@) =~= strings_view(old_r).push(s@));
        assert(slices_of(v@, pairs_view(rs@)).take(k + 1) =~= slices_of(v@, pairs_view(rs@)).take(k as int).push(s@));
        k += 1;
    }
    assert(slices_of(v@, pairs_view(rs@)).take(rs@.len() as int) =~= slices_of(v@, pairs_view(rs@)));
    r
}

/// `a` sorts strictly before `b` (code-point lexicographic order, the order
/// of `str`'s `Ord`).
pub open spec fn lex_lt(a: Seq<char>, b: Seq<char>) -> bool
    decreases a.len(),
{
    if a.len() == 0 {
        b.len() > 0
    } else if b.len() == 0 {
        false
    } else if (a[0] as int) < (b[0] as int) {
        true
    } else if (a[0] as int) > (b[0] as int) {
        false
    } else {
        lex_lt(a.drop_first(), b.drop_first())
    }
}

/// `a` sorts before or equal to `b`.
pub open spec fn lex_le(a: Seq<char>, b: Seq<char>) -> bool {
    !lex_lt(b, a)
}

pub proof fn lemma_lex_lt_irrefl(a: Seq<char>)
    ensures
        !lex_lt(a, a),
    decreases a.len(),
{
    if a.len() > 0 {
        lemma_lex_lt_irrefl(a.drop_first());
    }
}

pub proof fn lemma_lex_total(a: Seq<char>, b: Seq<char>)
    ensures
        lex_lt(a, b) || lex_lt(b, a) || a == b,
    decreases a.len(),
{
    if a.len() > 0 && b.len() > 0 && a[0] == b[0] {
        lemma_lex_total(a.drop_first(), b.drop_first());
        if a.drop_first() == b.drop_first() {
            assert(a =~= seq![a[0]] + a.drop_first());
            assert(b =~= seq![b[0]] + b.drop_first());
        }
    } else if a.len() > 0 && b.len() > 0 {
        assert((a[0] as int) != (b[0] as int));
    } else if a.len() == 0 && b.len() == 0 {
        assert(a =~= b);
    }
}

pub proof fn lemma_lex_lt_trans(a: Seq<char>, b: Seq<char>, c: Seq<char>)
    requires
        lex_lt(a, b),
        lex_lt(b, c),
    ensures
        lex_lt(a, c),
    decreases a.len(),
{
    if a.len() > 0 && b.len() > 0 && c.len() > 0 && a[0] == b[0] && b[0] == c[0] {
        lemma_lex_lt_trans(a.drop_first(), b.drop_first(), c.drop_first());
    }
}

pub proof fn lemma_lex_lt_asym(a: Seq<char>, b: Seq<char>)
    requires
        lex_lt(a, b),
    ensures
        !lex_lt(b, a),
{
    if lex_lt(b, a) {
        lemma_lex_lt_trans(a, b, a);
        lemma_lex_lt_irrefl(a);
    }
}

/// Whether `a` sorts strictly before `b`.
pub fn chars_lt(a: &Vec<char>, b: &Vec<char>) -> (r: bool)
    ensures
        r == lex_lt(a@, b@),
{
    let mut i: usize = 0;
    assert(a@.skip(0) =~= a@);
    assert(b@.skip(0) =~= b@);
    while i < a.len() && i < b.len() && a[i] == b[i]
        invariant
            i <= a.len(),
            i <= b.len(),
            lex_lt(a@, b@) == lex_lt(a@.skip(i as int), b@.skip(i as int)),
        decreases a.len() - i,
    {
        assert(a@.skip(i as int).drop_first() =~= a@.skip(i + 1));
        assert(b@.skip(i as int).drop_first() =~= b@.skip(i + 1));
        i += 1;
    }
    if i == a.len() {
        i < b.len()
    } else if i == b.len() {
        false
    } else {
        a[i] < b[i]
    }
}

/// Whether `a` sorts strictly before `b`.
pub fn str_lt(a: &str, b: &str) -> (r: bool)
    ensures
        r == lex_lt(a@, b@),
{
    let va = to_chars(a);
    let vb = to_chars(b);
    chars_lt(&va, &vb)
}

/// The views of a sequence of string slices.
pub open spec fn strs_view(v: Seq<&str>) -> Seq<Seq<char>> {
    Seq::new(v.len(), |k: int| v[k]@)
}

/// `s` is sorted in ascending order.
pub open spec fn sorted_lex(s: Seq<Seq<char>>) -> bool {
    forall|i: int, j: int| 0 <= i < j < s.len() ==> lex_le(#[trigger] s[i], #[trigger] s[j])
}

/// Sorts string slices in ascending order (`sort_unstable` on `&str`).
pub fn sort_strs(v: Vec<&'static str>) -> (r: Vec<&'static str>)
    ensures
        sorted_lex(strs_view(r@)),
        strs_view(r@).to_multiset() == strs_view(v@).to_multiset(),
        r@.len() == v@.len(),
{
    let mut r: Vec<&'static str> = Vec::new();
    let mut k: usize = 0;
    assert(strs_view(v@).take(0) =~= Seq::<Seq<char>>::empty());
    assert(strs_view(r@) =~= Seq::<Seq<char>>::empty());
    while k < v.len()
        invariant
            0 <= k <= v.len(),
            r@.len() == k,
            sorted_lex(strs_view(r@)),
            strs_view(r@).to_multiset() == strs_view(v@).take(k as int).to_multiset(),
        decreases v.len() - k,
    {
        let x = v[k];
        let mut p: usize = 0;
        while p < r.len() && !str_lt(x, r[p])
            invariant
                p <= r@.len(),
                forall|j: int| 0 <= j < p ==> lex_le(#[trigger] strs_view(r@)[j], x@),
            decreases r@.len() - p,
        {
            assert(strs_view(r@)[p as int] == r@[p as int]@);
            p += 1;
        }
        let ghost old_view = strs_view(r@);
        r.insert(p, x);
        assert(strs_view(r@) =~= old_view.insert(p as int, x@));
        proof {
            vstd::seq_lib::to_multiset_insert(old_view, p as int, x@);
            assert(strs_view(v@).take(k + 1) =~= strs_view(v@).take(k as int).push(x@));
            vstd::seq_lib::to_multiset_build(strs_view(v@).take(k as int), x@);
            let nv = strs_view(r@);
            assert forall|i: int, j: int| 0 <= i < j < nv.len() implies lex_le(#[trigger] nv[i], #[trigger] nv[j]) by {
                if p < old_view.len() {
                    assert(lex_lt(x@, old_view[p as int]));
                }
                if i < p && j == p {
                } else if i == p && j > p {
                    let y = old_view[j - 1];
                    if j - 1 == p {
                        lemma_lex_lt_irrefl(y);
                    } else {
                        assert(sorted_lex(old_view));
                        assert(lex_le(old_view[p as int], old_view[j - 1]));
                    }
                    assert(lex_le(old_view[p as int], y));
                    lemma_lex_total(old_view[p as int], y);
                    if lex_lt(y, x@) {
                        if lex_lt(old_view[p as int], y) {
                            lemma_lex_lt_trans(old_view[p as int], y, x@);
                            lemma_lex_lt_asym(x@, old_view[p as int]);
                        } else {
                            lemma_lex_lt_asym(x@, old_view[p as int]);
                        }
                    }
                } else if i < p && j > p {
                    assert(nv[i] == old_view[i] && nv[j] == old_view[j - 1]);
                } else if i > p {
                    assert(nv[i] == old_view[i - 1] && nv[j] == old_view[j - 1]);
                } else {
                    assert(nv[i] == old_view[i] && nv[j] == old_view[j]);
                }
            }
        }
        k += 1;
    }
    assert(strs_view(v@).take(v@.len() as int) =~= strs_view(v@));
    r
}

/// The UTF-8 encoding of a concatenation is the concatenation of encodings.
pub proof fn lemma_encode_concat(a: Seq<char>, b: Seq<char>)
    ensures
        vstd::utf8::encode_utf8(a + b) == vstd::utf8::encode_utf8(a) + vstd::utf8::encode_utf8(b),
    decreases a.len(),
{
    if a.len() == 0 {
        assert(a + b =~= b);
        assert(vstd::utf8::encode_utf8(a) =~= Seq::<u8>::empty());
        assert(Seq::<u8>::empty() + vstd::utf8::encode_utf8(b) =~= vstd::utf8::encode_utf8(b));
    } else {
        assert((a + b).drop_first() =~= a.drop_first() + b);
        assert((a + b)[0] == a[0]);
        lemma_encode_concat(a.drop_first(), b);
        let ea = vstd::utf8::encode_scalar(a[0] as u32);
        assert(vstd::utf8::encode_utf8(a + b) == ea + vstd::utf8::encode_utf8(a.drop_first() + b));
        assert(vstd::utf8::encode_utf8(a) == ea + vstd::utf8::encode_utf8(a.drop_first()));
        assert(ea + (vstd::utf8::encode_utf8(a.drop_first()) + vstd::utf8::encode_utf8(b)) =~= (ea + vstd::utf8::encode_utf8(a.drop_first())) + vstd::utf8::encode_utf8(b));
    }
}

/// `&s[lo..hi]` (indexing a `str` by a byte range): the text between two
/// character boundaries.
#[verifier::external_body]
pub(crate) fn str_slice(s: &str, lo: usize, hi: usize) -> (r: &str)
    requires
        lo <= hi <= s.spec_bytes().len(),
        vstd::utf8::is_char_boundary(s.spec_bytes(), lo as int),
        vstd::utf8::is_char_boundary(s.spec_bytes(), hi as int),
    ensures
        r.spec_bytes() == s.spec_bytes().subrange(lo as int, hi as int),
{
    &s[lo..hi]
}

/// Last index in `[lo, hi)` holding `c`, or `-1` when there is none.
pub open spec fn rfind_from(s: Seq<char>, lo: int, hi: int, c: char) -> int
    decreases hi - lo,
{
    if hi <= lo {
        -1
    } else if s[hi - 1] == c {
        hi - 1
    } else {
        rfind_from(s, lo, hi - 1, c)
    }
}

pub proof fn lemma_rfind_from_bounds(s: Seq<char>, lo: int, hi: int, c: char)
    requires
        0 <= lo <= hi <= s.len(),
    ensures
        rfind_from(s, lo, hi, c) == -1 || (lo <= rfind_from(s, lo, hi, c) < hi && s[rfind_from(s, lo, hi, c)] == c),
        forall|k: int| rfind_from(s, lo, hi, c) < k < hi && lo <= k ==> s[k] != c,
    decreases hi - lo,
{
    if hi > lo && s[hi - 1] != c {
        lemma_rfind_from_bounds(s, lo, hi - 1, c);
    }
}

/// `rfind_from` computed; `None` stands for `-1`.
pub fn rfind_char_from(v: &Vec<char>, lo: usize, hi: usize, c: char) -> (r: Option<usize>)
    requires
        lo <= hi <= v.len(),
    ensures
        match r {
            Some(i) => i as int == rfind_from(v@, lo as int, hi as int, c) && lo <= i < hi,
            None => rfind_from(v@, lo as int, hi as int, c) == -1,
        },
{
    let mut j = hi;
    while j > lo
        invariant
            lo <= j <= hi <= v.len(),
            rfind_from(v@, lo as int, j as int, c) == rfind_from(v@, lo as int, hi as int, c),
        decreases j - lo,
    {
        if v[j - 1] == c {
            return Some(j - 1);
        }
        j -= 1;
    }
    None
}

/// Concatenation of a sequence of strings.
pub open spec fn concat_all(parts: Seq<Seq<char>>) -> Seq<char>
    decreases parts.len(),
{
    if parts.len() == 0 {
        seq![]
    } else {
        concat_all(parts.drop_last()) + parts.last()
    }
}

/// `parts` joined with `sep` between consecutive parts.
pub open spec fn join_with(parts: Seq<Seq<char>>, sep: Seq<char>) -> Seq<char>
    decreases parts.len(),
{
    if parts.len() == 0 {
        seq![]
    } else if parts.len() == 1 {
        parts[0]
    } else {
        join_with(parts.drop_last(), sep) + sep + parts.last()
    }
}

/// Copies `v[lo..hi)` into a new vector.
pub fn copy_range(v: &Vec<char>, lo: usize, hi: usize) -> (r: Vec<char>)
    requires
        lo <= hi <= v.len(),
    ensures
        r@ == v@.subrange(lo as int, hi as int),
{
    let mut r: Vec<char> = Vec::new();
    let mut i = lo;
    while i < hi
        invariant
            lo <= i <= hi <= v.len(),
            r@ == v@.subrange(lo as int, i as int),
        decreases hi - i,
    {
        r.push(v[i]);
        assert(v@.subrange(lo as int, i + 1) =~= v@.subrange(lo as int, i as int).push(v@[i as int]));
        i += 1;
    }
    r
}

/// Joins strings with a separator (`[String]::join`).
pub fn join_strings(parts: &Vec<String>, sep: &str) -> (r: String)
    ensures
        r@ == join_with(strings_view(parts@), sep@),
{
    let mut r = String::new();
    let mut k: usize = 0;
    while k < parts.len()
        invariant
            0 <= k <= parts.len(),
            r@ == join_with(strings_view(parts@).take(k as int), sep@),
        decreases parts.len() - k,
    {
        assert(strings_view(parts@).take(k + 1).drop_last() =~= strings_view(parts@).take(k as int));
        if k > 0 {
            r.append(sep);
        } else {
            assert(strings_view(parts@).take(0) =~= Seq::<Seq<char>>::empty());
        }
        r.append(parts[k].as_str());
        k += 1;
    }
    assert(strings_view(parts@).take(parts@.len() as int) =~= strings_view(parts@));
    r
}

/// The first index below `n` satisfying `p`.
pub open spec fn first_satisfying(n: int, p: spec_fn(int) -> bool) -> Option<int>
    decreases n,
{
    if n <= 0 {
        None
    } else {
        match first_satisfying(n - 1, p) {
            Some(i) => Some(i),
            None => if p(n - 1) { Some(n - 1) } else { None },
        }
    }
}

/// Once an index satisfies `p`, later bounds find the same first index.
pub proof fn lemma_first_satisfying_stable(k: int, n: int, p: spec_fn(int) -> bool)
    requires
        0 <= k <= n,
        first_satisfying(k, p) is Some,
    ensures
        first_satisfying(n, p) == first_satisfying(k, p),
        0 <= first_satisfying(k, p).unwrap() < k,
    decreases n - k,
{
    lemma_first_satisfying_bounds(k, p);
    if n > k {
        lemma_first_satisfying_stable(k, n - 1, p);
    }
}

/// The index that `first_satisfying` finds lies below the bound and satisfies `p`.
pub proof fn lemma_first_satisfying_bounds(n: int, p: spec_fn(int) -> bool)
    ensures
        first_satisfying(n, p) matches Some(i) ==> 0 <= i < n && p(i),
    decreases n,
{
    if n > 0 {
        lemma_first_satisfying_bounds(n - 1, p);
    }
}

/// `t` is a prefix of `s`.
pub open spec fn starts_with(s: Seq<char>, t: Seq<char>) -> bool {
    has_prefix(s, 0, s.len() as int, t)
}

/// `t` is a suffix of `s`.
pub open spec fn ends_with(s: Seq<char>, t: Seq<char>) -> bool {
    has_suffix(s, 0, s.len() as int, t)
}

/// `str::starts_with`.
pub fn str_starts_with(s: &str, t: &str) -> (b: bool)
    ensures
        b == starts_with(s@, t@),
{
    let v = to_chars(s);
    let w = to_chars(t);
    has_prefix_at(&v, 0, v.len(), &w)
}

/// `str::ends_with`.
pub fn str_ends_with(s: &str, t: &str) -> (b: bool)
    ensures
        b == ends_with(s@, t@),
{
    let v = to_chars(s);
    let w = to_chars(t);
    has_suffix_at(&v, 0, v.len(), &w)
}

} // verus!
