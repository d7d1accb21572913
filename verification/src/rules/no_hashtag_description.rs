//! The `noHashtagDescription` lint rule.
use vstd::prelude::*;
use crate::diagnostics::{DiagnosticView, LintDiagnostic, LintSeverity};
use crate::document::{plain_view, DocumentFile, ExecutableDocument};
use crate::schema::{file_diags_view, push_file_diag, FileDiagnostic, FileDiagnosticView};
use crate::text::{
    char_is_ws, copy_range, find_char_from, find_from, first_satisfying, has_prefix, has_prefix_at, is_ws,
    lemma_first_satisfying_bounds, lemma_first_satisfying_stable, line_ranges, line_ranges_of, pairs_view,
    range_to_string, slice_of, starts_with, to_chars, trim_hi, trim_lo, trim_range, trimmed, utf8_len,
    byte_pos, lemma_byte_pos_mono, str_byte_len,
};
use crate::unicode::{char_is_alphabetic, char_is_alphanumeric, is_alphabetic, is_alphanumeric};

verus! {

/// Lint rule that disallows using `#` comments as type or field descriptions.
///
/// In GraphQL SDL, descriptions should use string literals (double quotes or
/// triple quotes), not hash comments. Hash comments are not part of the
/// schema and won't appear in introspection results.
///
/// Behavior mirrors `@graphql-eslint/eslint-plugin`'s `no-hashtag-description`:
/// for each block of consecutive `#` lines that is immediately followed by a
/// schema definition (type, interface, field, etc.), one diagnostic is emitted
/// at the **last** comment line of the block, naming the entity the comment is
/// attached to.
pub struct NoHashtagDescriptionRuleImpl;

impl NoHashtagDescriptionRuleImpl {
    /// The rule's identifier.
    pub fn name(&self) -> (s: &'static str)
        ensures
            s@ == "noHashtagDescription"@,
    {
        "noHashtagDescription"
    }

    /// What the rule checks.
    pub fn description(&self) -> (s: &'static str)
        ensures
            s@ == "Disallows using # comments as type or field descriptions in schema"@,
    {
        "Disallows using # comments as type or field descriptions in schema"
    }

    /// The severity the rule reports with unless configured otherwise.
    pub fn default_severity(&self) -> (s: LintSeverity)
        ensures
            s == LintSeverity::Warning,
    {
        LintSeverity::Warning
    }
}

/// The line prefixes that open a top-level definition, with the kind
/// that messages name it by, in the order they are tried.
pub open spec fn header_prefix(k: int) -> (Seq<char>, Seq<char>) {
    if k == 0 { ("type "@, "type"@) }
    else if k == 1 { ("interface "@, "interface"@) }
    else if k == 2 { ("union "@, "union"@) }
    else if k == 3 { ("enum "@, "enum"@) }
    else if k == 4 { ("scalar "@, "scalar"@) }
    else if k == 5 { ("input "@, "input"@) }
    else if k == 6 { ("directive "@, "directive"@) }
    else if k == 7 { ("extend type "@, "type"@) }
    else if k == 8 { ("extend interface "@, "interface"@) }
    else if k == 9 { ("extend union "@, "union"@) }
    else if k == 10 { ("extend enum "@, "enum"@) }
    else if k == 11 { ("extend scalar "@, "scalar"@) }
    else { ("extend input "@, "input"@) }
}

/// The number of definition prefixes.
pub const HEADER_PREFIXES: usize = 13;

fn header_prefix_exec(k: usize) -> (r: (&'static str, &'static str))
    requires
        k < HEADER_PREFIXES,
    ensures
        (r.0@, r.1@) == header_prefix(k as int),
{
    if k == 0 { ("type ", "type") }
    else if k == 1 { ("interface ", "interface") }
    else if k == 2 { ("union ", "union") }
    else if k == 3 { ("enum ", "enum") }
    else if k == 4 { ("scalar ", "scalar") }
    else if k == 5 { ("input ", "input") }
    else if k == 6 { ("directive ", "directive") }
    else if k == 7 { ("extend type ", "type") }
    else if k == 8 { ("extend interface ", "interface") }
    else if k == 9 { ("extend union ", "union") }
    else if k == 10 { ("extend enum ", "enum") }
    else if k == 11 { ("extend scalar ", "scalar") }
    else { ("extend input ", "input") }
}

/// A character that ends a definition's name on its header line.
pub open spec fn name_stop(c: char) -> bool {
    is_ws(c) || c == '{' || c == '(' || c == '@' || c == ':'
}

/// `x` without its trailing `c` characters.
pub open spec fn strip_trailing(x: Seq<char>, c: char) -> Seq<char>
    decreases x.len(),
{
    if x.len() > 0 && x.last() == c {
        strip_trailing(x.drop_last(), c)
    } else {
        x
    }
}

/// The kind and name that the line `t` declares, trying the prefixes
/// from the `k`-th on: the name runs to the first whitespace, `{`, `(`,
/// `@` or `:`, without trailing `!`; a prefix with an empty name is passed
/// over.
pub open spec fn header_from(t: Seq<char>, k: int) -> Option<(Seq<char>, Seq<char>)>
    decreases HEADER_PREFIXES - k,
{
    if k < 0 || k >= HEADER_PREFIXES {
        None
    } else {
        let (pre, kind) = header_prefix(k);
        if starts_with(t, pre) {
            let rest = t.skip(pre.len() as int);
            let end = match first_satisfying(rest.len() as int, |i: int| name_stop(rest[i])) {
                Some(i) => i,
                None => rest.len() as int,
            };
            let name = strip_trailing(rest.take(end), '!');
            if name.len() > 0 { Some((kind, name)) } else { header_from(t, k + 1) }
        } else {
            header_from(t, k + 1)
        }
    }
}

/// The kind and name of the top-level definition that the (trimmed) line
/// `t` opens, e.g. `type Post implements Node {` gives `("type", "Post")`.
pub open spec fn spec_definition_header(t: Seq<char>) -> Option<(Seq<char>, Seq<char>)> {
    header_from(t, 0)
}

fn name_stop_exec(c: char) -> (b: bool)
    ensures
        b == name_stop(c),
{
    char_is_ws(c) || c == '{' || c == '(' || c == '@' || c == ':'
}

/// Parses a top-level definition header line into its kind and name.
pub fn parse_definition_header(t: &Vec<char>) -> (r: Option<(String, String)>)
    ensures
        match (r, spec_definition_header(t@)) {
            (Some((k, n)), Some((sk, sn))) => k@ == sk && n@ == sn,
            (None, None) => true,
            _ => false,
        },
{
    let mut k: usize = 0;
    while k < HEADER_PREFIXES
        invariant
            0 <= k <= HEADER_PREFIXES,
            header_from(t@, k as int) == header_from(t@, 0),
        decreases HEADER_PREFIXES - k,
    {
        let (pre, kind) = header_prefix_exec(k);
        let pv = to_chars(pre);
        if has_prefix_at(t, 0, t.len(), &pv) {
            let l = pv.len();
            let ghost rest = t@.skip(l as int);
            let ghost p = |i: int| name_stop(rest[i]);
            let mut e = l;
            while e < t.len() && !name_stop_exec(t[e])
                invariant
                    l <= e <= t@.len(),
                    rest == t@.skip(l as int),
                    p == (|i: int| name_stop(rest[i])),
                    first_satisfying((e - l) as int, p) is None,
                decreases t@.len() - e,
            {
                assert(!p((e - l) as int));
                e += 1;
            }
            proof {
                if e < t@.len() {
                    assert(p((e - l) as int));
                    assert(first_satisfying((e - l) as int + 1, p) == Some((e - l) as int));
                    lemma_first_satisfying_stable((e - l) as int + 1, rest.len() as int, p);
                } else {
                    assert((e - l) as int == rest.len());
                }
            }
            let ghost full = rest.take((e - l) as int);
            assert(full =~= t@.subrange(l as int, e as int));
            let mut f = e;
            while f > l && t[f - 1] == '!'
                invariant
                    l <= f <= e <= t@.len(),
                    strip_trailing(t@.subrange(l as int, f as int), '!') == strip_trailing(full, '!'),
                decreases f,
            {
                assert(t@.subrange(l as int, f as int).drop_last() =~= t@.subrange(l as int, f - 1));
                f -= 1;
            }
            proof {
                let x = t@.subrange(l as int, f as int);
                assert(!(x.len() > 0 && x.last() == '!'));
            }
            if f > l {
                let name = range_to_string(t, l, f);
                return Some((kind.to_owned(), name));
            }
        }
        k += 1;
    }
    None
}

/// `x` starts with an alphabetic character and holds only alphanumeric
/// characters and `_`.
pub open spec fn ident_like(x: Seq<char>) -> bool {
    &&& x.len() > 0
    &&& char_is_alphabetic(x[0])
    &&& forall|i: int| 0 <= i < x.len() ==> char_is_alphanumeric(#[trigger] x[i]) || x[i] == '_'
}

/// The field that the (trimmed) line `t` declares, as `name(...): Type`
/// or `name: Type`.
pub open spec fn spec_field_name(t: Seq<char>) -> Option<Seq<char>> {
    if t.len() == 0 || t[0] == '}' {
        None
    } else {
        let colon = find_from(t, 0, t.len() as int, ':');
        if colon >= t.len() {
            None
        } else {
            let (a, b) = trimmed(t, (0, find_from(t, 0, colon, '(')));
            let name = t.subrange(a, b);
            if ident_like(name) { Some(name) } else { None }
        }
    }
}

/// What a `#` comment block right above the (trimmed) line `t` describes,
/// as messages name it, given the definition whose body the line is in.
pub open spec fn spec_classify(t: Seq<char>, parent: Option<(Seq<char>, Seq<char>)>) -> Option<Seq<char>> {
    match spec_definition_header(t) {
        Some((k, n)) => Some(k + " \""@ + n + "\""@),
        None => match parent {
            None => None,
            Some((pk, pn)) => match spec_field_name(t) {
                Some(f) => Some("field \""@ + f + "\" in "@ + pk + " \""@ + pn + "\""@),
                None => {
                    let bare = strip_trailing(t, ',');
                    if pk == "enum"@ && ident_like(bare) {
                        Some("enum value \""@ + bare + "\" in enum \""@ + pn + "\""@)
                    } else {
                        None
                    }
                },
            },
        },
    }
}

fn ident_like_exec(t: &Vec<char>, lo: usize, hi: usize) -> (r: bool)
    requires
        lo <= hi <= t@.len(),
    ensures
        r == ident_like(t@.subrange(lo as int, hi as int)),
{
    let ghost x = t@.subrange(lo as int, hi as int);
    if lo == hi || !is_alphabetic(t[lo]) {
        return false;
    }
    let mut i = lo;
    while i < hi
        invariant
            lo <= i <= hi <= t@.len(),
            x == t@.subrange(lo as int, hi as int),
            forall|j: int| 0 <= j < i - lo ==> char_is_alphanumeric(#[trigger] x[j]) || x[j] == '_',
        decreases hi - i,
    {
        let c = t[i];
        if !(is_alphanumeric(c) || c == '_') {
            assert(!(char_is_alphanumeric(x[i - lo]) || x[i - lo] == '_'));
            return false;
        }
        i += 1;
    }
    true
}

/// Parses a field definition line into the field's name.
pub fn parse_field_name(t: &Vec<char>) -> (r: Option<String>)
    ensures
        match (r, spec_field_name(t@)) {
            (Some(n), Some(sn)) => n@ == sn,
            (None, None) => true,
            _ => false,
        },
{
    if t.len() == 0 || t[0] == '}' {
        return None;
    }
    let colon = find_char_from(t, 0, t.len(), ':');
    if colon >= t.len() {
        return None;
    }
    let ne = find_char_from(t, 0, colon, '(');
    let (a, b) = trim_range(t, 0, ne);
    if ident_like_exec(t, a, b) {
        Some(range_to_string(t, a, b))
    } else {
        None
    }
}

/// The (trimmed) line `t` without its trailing commas, as an end index.
fn strip_commas_end(t: &Vec<char>) -> (e: usize)
    ensures
        e <= t@.len(),
        t@.subrange(0, e as int) == strip_trailing(t@, ','),
{
    let mut e = t.len();
    assert(t@.subrange(0, e as int) =~= t@);
    while e > 0 && t[e - 1] == ','
        invariant
            e <= t@.len(),
            strip_trailing(t@.subrange(0, e as int), ',') == strip_trailing(t@, ','),
        decreases e,
    {
        assert(t@.subrange(0, e as int).drop_last() =~= t@.subrange(0, e - 1));
        e -= 1;
    }
    e
}

/// Determines what a comment block right above the line `t` describes.
pub fn classify_attached_node(t: &Vec<char>, parent: &Option<(String, String)>) -> (r: Option<String>)
    ensures
        match (r, spec_classify(t@, match parent {
            Some((k, n)) => Some((k@, n@)),
            None => None,
        })) {
            (Some(x), Some(y)) => x@ == y,
            (None, None) => true,
            _ => false,
        },
{
    match parse_definition_header(t) {
        Some((k, n)) => {
            let mut m = k;
            m.append(" \"");
            m.append(n.as_str());
            m.append("\"");
            return Some(m);
        },
        None => {},
    }
    match parent {
        None => None,
        Some((pk, pn)) => {
            match parse_field_name(t) {
                Some(f) => {
                    let mut m = "field \"".to_owned();
                    m.append(f.as_str());
                    m.append("\" in ");
                    m.append(pk.as_str());
                    m.append(" \"");
                    m.append(pn.as_str());
                    m.append("\"");
                    Some(m)
                },
                None => {
                    let e = strip_commas_end(t);
                    if crate::text::str_eq(pk.as_str(), "enum") && ident_like_exec(t, 0, e) {
                        let bare = range_to_string(t, 0, e);
                        let mut m = "enum value \"".to_owned();
                        m.append(bare.as_str());
                        m.append("\" in enum \"");
                        m.append(pn.as_str());
                        m.append("\"");
                        Some(m)
                    } else {
                        None
                    }
                },
            }
        },
    }
}

/// The net count of `{` over `}` in `t[k..]` outside double-quoted
/// strings, entered inside a string when `in_str`.
pub open spec fn delta_scan(t: Seq<char>, k: int, in_str: bool) -> int
    decreases t.len() - k,
{
    if k < 0 || k >= t.len() {
        0
    } else {
        let s2 = if t[k] == '"' { !in_str } else { in_str };
        (if s2 { 0int } else if t[k] == '{' { 1int } else if t[k] == '}' { -1int } else { 0int })
            + delta_scan(t, k + 1, s2)
    }
}

/// How much the line `t` changes the brace depth.
pub open spec fn spec_brace_delta(t: Seq<char>) -> int {
    delta_scan(t, 0, false)
}

proof fn lemma_delta_scan_bound(t: Seq<char>, k: int, in_str: bool)
    requires
        0 <= k <= t.len(),
    ensures
        -(t.len() - k) <= delta_scan(t, k, in_str) <= t.len() - k,
    decreases t.len() - k,
{
    if k < t.len() {
        let s2 = if t[k] == '"' { !in_str } else { in_str };
        lemma_delta_scan_bound(t, k + 1, s2);
    }
}

/// The brace depth change of the line `t`.
pub fn brace_delta(t: &Vec<char>) -> (d: i32)
    requires
        t@.len() < i32::MAX,
    ensures
        d == spec_brace_delta(t@),
{
    let mut delta: i32 = 0;
    let mut in_string = false;
    let mut k: usize = 0;
    while k < t.len()
        invariant
            0 <= k <= t@.len() < i32::MAX,
            -(k as int) <= delta <= k,
            delta + delta_scan(t@, k as int, in_string) == spec_brace_delta(t@),
        decreases t@.len() - k,
    {
        let c = t[k];
        if c == '"' {
            in_string = !in_string;
        }
        if !in_string {
            if c == '{' {
                delta += 1;
            } else if c == '}' {
                delta -= 1;
            }
        }
        k += 1;
    }
    delta
}

/// The trimmed text of line `j`.
pub open spec fn tl(s: Seq<char>, ls: Seq<(int, int)>, j: int) -> Seq<char> {
    slice_of(s, trimmed(s, ls[j]))
}

/// A (trimmed) line that is a `#` comment.
pub open spec fn is_hash(t: Seq<char>) -> bool {
    t.len() > 0 && t[0] == '#'
}

/// The last line of the block of consecutive comment lines that starts at
/// line `i`.
pub open spec fn block_end(s: Seq<char>, ls: Seq<(int, int)>, i: int) -> int
    decreases ls.len() - i,
{
    if i >= 0 && i + 1 < ls.len() && is_hash(tl(s, ls, i + 1)) {
        block_end(s, ls, i + 1)
    } else {
        i
    }
}

/// The first line from `j` on that is not blank (the line count when none is).
pub open spec fn next_content(s: Seq<char>, ls: Seq<(int, int)>, j: int) -> int
    decreases ls.len() - j,
{
    if 0 <= j < ls.len() && tl(s, ls, j).len() == 0 {
        next_content(s, ls, j + 1)
    } else {
        j
    }
}

/// The byte offset at which line `k` starts, counting each line's bytes
/// and one byte for its end.
pub open spec fn line_start(s: Seq<char>, ls: Seq<(int, int)>, k: int) -> int
    decreases k,
{
    if k <= 0 {
        0
    } else {
        line_start(s, ls, k - 1) + utf8_len(slice_of(s, ls[k - 1])) + 1
    }
}

proof fn lemma_line_start_mono(s: Seq<char>, ls: Seq<(int, int)>, a: int, b: int)
    requires
        0 <= a <= b,
    ensures
        line_start(s, ls, a) + (b - a) <= line_start(s, ls, b),
    decreases b - a,
{
    if a < b {
        lemma_line_start_mono(s, ls, a, b - 1);
    }
}

proof fn lemma_block_end_bounds(s: Seq<char>, ls: Seq<(int, int)>, i: int)
    requires
        0 <= i < ls.len(),
    ensures
        i <= block_end(s, ls, i) < ls.len(),
    decreases ls.len() - i,
{
    if i + 1 < ls.len() && is_hash(tl(s, ls, i + 1)) {
        lemma_block_end_bounds(s, ls, i + 1);
    }
}

proof fn lemma_next_content_bounds(s: Seq<char>, ls: Seq<(int, int)>, j: int)
    requires
        0 <= j <= ls.len(),
    ensures
        j <= next_content(s, ls, j) <= ls.len(),
    decreases ls.len() - j,
{
    if j < ls.len() && tl(s, ls, j).len() == 0 {
        lemma_next_content_bounds(s, ls, j + 1);
    }
}

/// The message about a comment block describing `node`.
pub open spec fn hashtag_message(node: Seq<char>) -> Seq<char> {
    "Unexpected GraphQL descriptions as hashtag `#` for "@ + node
        + ".\nPrefer using `\"\"\"` for multiline, or `\"` for a single line description."@
}

/// The report about the comment block ending at line `be`: it covers the
/// last comment line without its surrounding whitespace.
pub open spec fn hashtag_report(doc: ExecutableDocument, file: u64, s: Seq<char>, ls: Seq<(int, int)>, be: int, node: Seq<char>) -> FileDiagnosticView {
    let (lo, hi) = ls[be];
    let st = line_start(s, ls, be);
    let a = st + utf8_len(s.subrange(lo, trim_lo(s, lo, hi)));
    let b = st + utf8_len(s.subrange(lo, trim_hi(s, lo, hi)));
    (file, plain_view(doc.spec_span(a as usize, b as usize), LintSeverity::Warning, hashtag_message(node), "noHashtagDescription"@))
}

/// The definition (kind and name) a line in it is attached to after line
/// `t` at brace depth `depth`.
pub open spec fn parent_after(parent: Option<(Seq<char>, Seq<char>)>, depth: int, t: Seq<char>) -> Option<(Seq<char>, Seq<char>)> {
    let p1 = if depth == 0 && spec_definition_header(t) is Some { spec_definition_header(t) } else { parent };
    if depth + spec_brace_delta(t) == 0 && t.contains('}') { None } else { p1 }
}

/// The reports from line `i` on, the enclosing definition being `parent`
/// and the brace depth `depth` before it: each block of `#` lines directly
/// followed (no blank line between) by a line that declares a definition,
/// a field of the enclosing definition or an enum value is reported once,
/// at its last line.
pub open spec fn hashtag_scan(
    doc: ExecutableDocument,
    file: u64,
    s: Seq<char>,
    ls: Seq<(int, int)>,
    i: int,
    parent: Option<(Seq<char>, Seq<char>)>,
    depth: int,
) -> Seq<FileDiagnosticView>
    decreases ls.len() - i,
{
    if i < 0 || i >= ls.len() {
        seq![]
    } else {
        let t = tl(s, ls, i);
        let p2 = parent_after(parent, depth, t);
        let d1 = depth + spec_brace_delta(t);
        if !is_hash(t) {
            hashtag_scan(doc, file, s, ls, i + 1, p2, d1)
        } else {
            let be = block_end(s, ls, i);
            let nx = next_content(s, ls, be + 1);
            let rep = if nx >= ls.len() || nx - be > 1 {
                seq![]
            } else {
                match spec_classify(tl(s, ls, nx), p2) {
                    Some(node) => seq![hashtag_report(doc, file, s, ls, be, node)],
                    None => seq![],
                }
            };
            rep + if i <= be < ls.len() { hashtag_scan(doc, file, s, ls, be + 1, p2, d1) } else { seq![] }
        }
    }
}

/// The enclosing definition as plain values.
pub open spec fn parent_view(p: Option<(String, String)>) -> Option<(Seq<char>, Seq<char>)> {
    match p {
        Some((k, n)) => Some((k@, n@)),
        None => None,
    }
}

proof fn lemma_chars_le_bytes(x: Seq<char>)
    ensures
        x.len() <= utf8_len(x),
{
    lemma_byte_pos_mono(x, 0, x.len() as int);
    assert(x.take(x.len() as int) =~= x);
    assert(x.take(0) =~= Seq::<char>::empty());
}

proof fn lemma_prefix_bytes(s: Seq<char>, lo: int, m: int, hi: int)
    requires
        0 <= lo <= m <= hi <= s.len(),
    ensures
        utf8_len(s.subrange(lo, m)) <= utf8_len(s.subrange(lo, hi)),
{
    let x = s.subrange(lo, hi);
    lemma_byte_pos_mono(x, m - lo, x.len() as int);
    assert(x.take(m - lo) =~= s.subrange(lo, m));
    assert(x.take(x.len() as int) =~= x);
}

/// The lines of `s` lie within it.
pub open spec fn lines_within(ls: Seq<(int, int)>, n: int) -> bool {
    forall|k: int| 0 <= k < ls.len() ==> 0 <= #[trigger] ls[k].0 <= ls[k].1 <= n
}

fn trimmed_line(v: &Vec<char>, lines: &Vec<(usize, usize)>, j: usize) -> (t: Vec<char>)
    requires
        j < lines@.len(),
        lines_within(pairs_view(lines@), v@.len() as int),
    ensures
        t@ == tl(v@, pairs_view(lines@), j as int),
        t@.len() <= lines@[j as int].1 - lines@[j as int].0,
{
    let (lo, hi) = lines[j];
    assert(pairs_view(lines@)[j as int] == (lo as int, hi as int));
    let (a, b) = trim_range(v, lo, hi);
    copy_range(v, a, b)
}

fn line_is_hash(v: &Vec<char>, lines: &Vec<(usize, usize)>, j: usize) -> (r: bool)
    requires
        j < lines@.len(),
        lines_within(pairs_view(lines@), v@.len() as int),
    ensures
        r == is_hash(tl(v@, pairs_view(lines@), j as int)),
{
    let u = trimmed_line(v, lines, j);
    u.len() > 0 && u[0] == '#'
}

fn contains_char(t: &Vec<char>, c: char) -> (r: bool)
    ensures
        r == t@.contains(c),
{
    let mut k: usize = 0;
    while k < t.len()
        invariant
            0 <= k <= t@.len(),
            forall|j: int| 0 <= j < k ==> t@[j] != c,
        decreases t@.len() - k,
    {
        if t[k] == c {
            assert(t@[k as int] == c);
            return true;
        }
        k += 1;
    }
    false
}

/// The byte offset at which line `k` starts.
fn line_start_exec(v: &Vec<char>, lines: &Vec<(usize, usize)>, k: usize) -> (r: usize)
    requires
        k <= lines@.len(),
        lines_within(pairs_view(lines@), v@.len() as int),
        line_start(v@, pairs_view(lines@), lines@.len() as int) < i32::MAX,
    ensures
        r == line_start(v@, pairs_view(lines@), k as int),
{
    let ghost ls = pairs_view(lines@);
    let mut acc: usize = 0;
    let mut l: usize = 0;
    while l < k
        invariant
            0 <= l <= k <= lines@.len(),
            ls == pairs_view(lines@),
            lines_within(ls, v@.len() as int),
            line_start(v@, ls, lines@.len() as int) < i32::MAX,
            acc == line_start(v@, ls, l as int),
        decreases k - l,
    {
        let (lo, hi) = lines[l];
        assert(ls[l as int] == (lo as int, hi as int));
        let text = range_to_string(v, lo, hi);
        let n = str_byte_len(text.as_str());
        proof {
            lemma_line_start_mono(v@, ls, l + 1, lines@.len() as int);
        }
        acc = acc + n + 1;
        l += 1;
    }
    acc
}

/// Reports the `#` comment blocks of `doc` (in file `file_id`) used as
/// descriptions.
#[verifier::spinoff_prover]
#[verifier::rlimit(60)]
fn check_block(file_id: u64, doc: &ExecutableDocument, out: &mut Vec<FileDiagnostic>)
    requires
        line_start(doc.source@, line_ranges(doc.source@), line_ranges(doc.source@).len() as int) < i32::MAX,
    ensures
        file_diags_view(final(out)@) == file_diags_view(old(out)@)
            + hashtag_scan(*doc, file_id, doc.source@, line_ranges(doc.source@), 0, None, 0),
{
    let v = to_chars(doc.source.as_str());
    let lines = line_ranges_of(&v);
    let ghost s = v@;
    let ghost ls = pairs_view(lines@);
    let ghost n = ls.len() as int;
    let ghost total = file_diags_view(out@) + hashtag_scan(*doc, file_id, s, ls, 0, None, 0);
    assert(lines_within(ls, s.len() as int));
    let mut parent: Option<(String, String)> = None;
    let mut depth: i32 = 0;
    let mut i: usize = 0;
    while i < lines.len()
        invariant
            0 <= i <= lines@.len(),
            s == v@,
            s == doc.source@,
            ls == pairs_view(lines@),
            ls == line_ranges(s),
            n == ls.len(),
            lines_within(ls, s.len() as int),
            line_start(s, ls, n) < i32::MAX,
            -line_start(s, ls, i as int) <= depth <= line_start(s, ls, i as int),
            total == file_diags_view(out@) + hashtag_scan(*doc, file_id, s, ls, i as int, parent_view(parent), depth as int),
        decreases lines@.len() - i,
    {
        let t = trimmed_line(&v, &lines, i);
        let ghost p0 = parent_view(parent);
        let ghost d0 = depth as int;
        let (lo, hi) = lines[i];
        assert(ls[i as int] == (lo as int, hi as int));
        proof {
            lemma_chars_le_bytes(slice_of(s, ls[i as int]));
            lemma_line_start_mono(s, ls, i + 1, n);
            lemma_delta_scan_bound(t@, 0, false);
        }
        if depth == 0 {
            match parse_definition_header(&t) {
                Some(h) => {
                    parent = Some(h);
                },
                None => {},
            }
        }
        depth = depth + brace_delta(&t);
        if depth == 0 && contains_char(&t, '}') {
            parent = None;
        }
        assert(parent_view(parent) == parent_after(p0, d0, t@));
        if !(t.len() > 0 && t[0] == '#') {
            i += 1;
            continue;
        }
        proof { lemma_block_end_bounds(s, ls, i as int); }
        let mut be = i;
        while be + 1 < lines.len() && line_is_hash(&v, &lines, be + 1)
            invariant
                i <= be < lines@.len(),
                ls == pairs_view(lines@),
                lines_within(ls, s.len() as int),
                s == v@,
                block_end(s, ls, be as int) == block_end(s, ls, i as int),
            decreases lines@.len() - be,
        {
            be += 1;
        }
        proof { lemma_next_content_bounds(s, ls, be + 1); }
        let mut nx = be + 1;
        while nx < lines.len() && trimmed_line(&v, &lines, nx).len() == 0
            invariant
                be + 1 <= nx <= lines@.len(),
                ls == pairs_view(lines@),
                lines_within(ls, s.len() as int),
                s == v@,
                next_content(s, ls, nx as int) == next_content(s, ls, be + 1),
            decreases lines@.len() - nx,
        {
            nx += 1;
        }
        proof { lemma_line_start_mono(s, ls, i + 1, be + 1); }
        if nx >= lines.len() || nx - be > 1 {
            i = be + 1;
            continue;
        }
        let next = trimmed_line(&v, &lines, nx);
        match classify_attached_node(&next, &parent) {
            Some(node) => {
                let (blo, bhi) = lines[be];
                assert(ls[be as int] == (blo as int, bhi as int));
                let st = line_start_exec(&v, &lines, be);
                let a_idx = crate::text::trim_start_index(&v, blo, bhi);
                let b_idx = crate::text::trim_end_index(&v, blo, bhi);
                proof {
                    lemma_prefix_bytes(s, blo as int, a_idx as int, bhi as int);
                    lemma_prefix_bytes(s, blo as int, b_idx as int, bhi as int);
                    lemma_line_start_mono(s, ls, be + 1, n);
                    assert(slice_of(s, ls[be as int]) == s.subrange(blo as int, bhi as int));
                }
                let lead = str_byte_len(range_to_string(&v, blo, a_idx).as_str());
                let upto = str_byte_len(range_to_string(&v, blo, b_idx).as_str());
                let mut m = "Unexpected GraphQL descriptions as hashtag `#` for ".to_owned();
                m.append(node.as_str());
                m.append(".\nPrefer using `\"\"\"` for multiline, or `\"` for a single line description.");
                let d = LintDiagnostic::new(doc.span(st + lead, st + upto), LintSeverity::Warning, m.as_str(), "noHashtagDescription");
                push_file_diag(out, file_id, d);
            },
            None => {},
        }
        i = be + 1;
    }
}

/// The block `doc` is small enough for the byte offsets and brace depth
/// the rule computes (under 2 GiB, counting a byte per line end).
pub open spec fn block_fits(doc: ExecutableDocument) -> bool {
    line_start(doc.source@, line_ranges(doc.source@), line_ranges(doc.source@).len() as int) < i32::MAX
}

/// The reports about the blocks `docs` of file `file`.
pub open spec fn hashtag_docs_reports(file: u64, docs: Seq<ExecutableDocument>) -> Seq<FileDiagnosticView>
    decreases docs.len(),
{
    if docs.len() == 0 {
        seq![]
    } else {
        hashtag_docs_reports(file, docs.drop_last())
            + hashtag_scan(docs.last(), file, docs.last().source@, line_ranges(docs.last().source@), 0, None, 0)
    }
}

/// The reports about the schema files `files`.
pub open spec fn hashtag_files_reports(files: Seq<DocumentFile>) -> Seq<FileDiagnosticView>
    decreases files.len(),
{
    if files.len() == 0 {
        seq![]
    } else {
        hashtag_files_reports(files.drop_last()) + hashtag_docs_reports(files.last().file_id, files.last().documents@)
    }
}

impl NoHashtagDescriptionRuleImpl {
    /// Reports, in every block of the schema files `files`, each block of
    /// `#` comment lines that directly precedes a definition, a field or an
    /// enum value, at its last line.
    pub fn check(&self, files: &Vec<DocumentFile>) -> (r: Vec<FileDiagnostic>)
        requires
            forall|i: int, j: int| 0 <= i < files@.len() && 0 <= j < files@[i].documents@.len()
                ==> block_fits(#[trigger] files@[i].documents@[j]),
        ensures
            file_diags_view(r@) == hashtag_files_reports(files@),
    {
        let mut out: Vec<FileDiagnostic> = Vec::new();
        let mut i: usize = 0;
        assert(file_diags_view(out@) =~= hashtag_files_reports(files@.take(0)));
        while i < files.len()
            invariant
                0 <= i <= files@.len(),
                forall|a: int, b: int| 0 <= a < files@.len() && 0 <= b < files@[a].documents@.len()
                    ==> block_fits(#[trigger] files@[a].documents@[b]),
                file_diags_view(out@) == hashtag_files_reports(files@.take(i as int)),
            decreases files@.len() - i,
        {
            assert(files@.take(i + 1).drop_last() =~= files@.take(i as int));
            let f = &files[i];
            let ghost mid = file_diags_view(out@);
            let mut j: usize = 0;
            assert(file_diags_view(out@) =~= mid + hashtag_docs_reports(f.file_id, f.documents@.take(0)));
            while j < f.documents.len()
                invariant
                    0 <= j <= f.documents@.len(),
                    i < files@.len(),
                    *f == files@[i as int],
                    forall|a: int, b: int| 0 <= a < files@.len() && 0 <= b < files@[a].documents@.len()
                        ==> block_fits(#[trigger] files@[a].documents@[b]),
                    file_diags_view(out@) == mid + hashtag_docs_reports(f.file_id, f.documents@.take(j as int)),
                decreases f.documents@.len() - j,
            {
                assert(f.documents@.take(j + 1).drop_last() =~= f.documents@.take(j as int));
                assert(block_fits(files@[i as int].documents@[j as int]));
                check_block(f.file_id, &f.documents[j], &mut out);
                j += 1;
            }
            assert(f.documents@.take(j as int) =~= f.documents@);
            i += 1;
        }
        assert(files@.take(i as int) =~= files@);
        out
    }
}

} // verus!
