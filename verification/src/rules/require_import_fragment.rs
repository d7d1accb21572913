//! The `requireImportFragment` lint rule.
use vstd::prelude::*;
use crate::diagnostics::{diags_view, DiagnosticView, LintDiagnostic, LintSeverity};
use crate::document::{plain_view, push_diag, Definition, ExecutableDocument, Selection, SelectionSet};
use crate::schema::{contains_str, names_contain};
use crate::text::{
    char_is_ws, find_char_from, find_from, first_satisfying, has_prefix, has_prefix_at, is_ws, join_strings,
    join_with, lemma_first_satisfying_stable, line_ranges, line_ranges_of, list_items, list_items_of, pairs_view,
    range_eq, range_to_string, ranges_to_strings, rfind_char_from, rfind_from, slice_of, slices_of, split_range,
    split_ranges, str_eq, strings_view, to_chars, trim_hi, trim_lo, trim_range, trimmed,
};

verus! {

/// Lint rule that requires fragment spreads to have a corresponding import comment.
///
/// When working with multiple GraphQL files, fragment dependencies should be
/// made explicit via import comments rather than relying on implicit global
/// resolution. This makes it clear which fragments a file depends on and where
/// they come from.
///
/// The expected import syntax is:
/// ```graphql
/// # import FragmentName from "path/to/file.graphql"
/// ```
///
/// A default import (`# import 'path'`) is also recognized; it is treated as
/// importing every fragment defined in the referenced file.
///
/// Fragments defined in the same document do not require an import.
pub struct RequireImportFragmentRuleImpl;

impl RequireImportFragmentRuleImpl {
    /// The rule's identifier.
    pub fn name(&self) -> (s: &'static str)
        ensures
            s@ == "requireImportFragment"@,
    {
        "requireImportFragment"
    }

    /// What the rule checks.
    pub fn description(&self) -> (s: &'static str)
        ensures
            s@ == "Requires fragment spreads to have a corresponding import comment"@,
    {
        "Requires fragment spreads to have a corresponding import comment"
    }

    /// The severity the rule reports with unless configured otherwise.
    pub fn default_severity(&self) -> (s: LintSeverity)
        ensures
            s == LintSeverity::Warning,
    {
        LintSeverity::Warning
    }
}

/// First index `i` in `[lo, hi)` where `t` starts within `s[lo..hi)`, or `hi`.
pub open spec fn find_sub(s: Seq<char>, lo: int, hi: int, t: Seq<char>) -> int
    decreases hi - lo,
{
    if lo >= hi {
        hi
    } else if has_prefix(s, lo, hi, t) {
        lo
    } else {
        find_sub(s, lo + 1, hi, t)
    }
}

/// The range between the quote that opens the trimmed `s[lo..hi)` (`"` or
/// `'`) and the next occurrence of that quote.
pub open spec fn spec_extract_quoted(s: Seq<char>, lo: int, hi: int) -> Option<(int, int)> {
    let a = trim_lo(s, lo, hi);
    let b = trim_hi(s, a, hi);
    if a >= b || (s[a] != '"' && s[a] != '\'') {
        None
    } else {
        let e = find_from(s, a + 1, b, s[a]);
        if e < b { Some((a + 1, e)) } else { None }
    }
}

/// A parsed `# import ...` comment: `names` is `None` for a default import
/// (every fragment of the file), else the listed fragment names.
pub struct ImportView {
    pub names: Option<Seq<Seq<char>>>,
    pub path: Seq<char>,
}

/// The import that the line `s[r.0..r.1)` declares, if any.
pub open spec fn spec_import_line(s: Seq<char>, r: (int, int)) -> Option<ImportView> {
    let (a, b) = trimmed(s, r);
    if !(a < b && s[a] == '#') {
        None
    } else {
        let (c, d) = trimmed(s, (a + 1, b));
        if !has_prefix(s, c, d, "import"@) {
            None
        } else {
            let e = c + 6;
            if !(e < d && is_ws(s[e])) {
                None
            } else {
                let (f, g) = trimmed(s, (e, d));
                if f < g && (s[f] == '"' || s[f] == '\'') {
                    match spec_extract_quoted(s, f, g) {
                        Some(q) => Some(ImportView { names: None, path: slice_of(s, q) }),
                        None => None,
                    }
                } else {
                    let k = find_sub(s, f, g, " from "@);
                    if k >= g {
                        None
                    } else {
                        let names = list_items(s, f, k, ',');
                        match spec_extract_quoted(s, k + 6, g) {
                            Some(q) => if names.len() > 0 {
                                Some(ImportView { names: Some(slices_of(s, names)), path: slice_of(s, q) })
                            } else {
                                None
                            },
                            None => None,
                        }
                    }
                }
            }
        }
    }
}

/// The imports declared by the lines `lines` of `s`, in order.
pub open spec fn imports_of(s: Seq<char>, lines: Seq<(int, int)>) -> Seq<ImportView>
    decreases lines.len(),
{
    if lines.len() == 0 {
        seq![]
    } else {
        let rest = imports_of(s, lines.drop_last());
        match spec_import_line(s, lines.last()) {
            Some(i) => rest.push(i),
            None => rest,
        }
    }
}

/// A single parsed `# import ...` comment. `names` is `None` for a default
/// import (`# import 'path'`), which imports every fragment of the file.
/// `path` is the import path as written.
#[derive(Debug)]
pub struct ParsedImport {
    pub names: Option<Vec<String>>,
    pub path: String,
}

impl ParsedImport {
    pub open spec fn view(&self) -> ImportView {
        ImportView {
            names: match self.names {
                Some(v) => Some(strings_view(v@)),
                None => None,
            },
            path: self.path@,
        }
    }
}

pub open spec fn imports_view(v: Seq<ParsedImport>) -> Seq<ImportView> {
    Seq::new(v.len(), |k: int| v[k].view())
}

fn find_sub_exec(v: &Vec<char>, lo: usize, hi: usize, t: &Vec<char>) -> (r: usize)
    requires
        lo <= hi <= v.len(),
    ensures
        r == find_sub(v@, lo as int, hi as int, t@),
        lo <= r <= hi,
{
    let mut i = lo;
    while i < hi && !has_prefix_at(v, i, hi, t)
        invariant
            lo <= i <= hi <= v.len(),
            find_sub(v@, i as int, hi as int, t@) == find_sub(v@, lo as int, hi as int, t@),
        decreases hi - i,
    {
        i += 1;
    }
    i
}

fn extract_quoted(v: &Vec<char>, lo: usize, hi: usize) -> (r: Option<(usize, usize)>)
    requires
        lo <= hi <= v.len(),
    ensures
        match (r, spec_extract_quoted(v@, lo as int, hi as int)) {
            (Some(x), Some(y)) => x.0 == y.0 && x.1 == y.1,
            (None, None) => true,
            _ => false,
        },
        r matches Some(x) ==> lo <= x.0 <= x.1 <= hi,
{
    let (a, b) = trim_range(v, lo, hi);
    if a >= b {
        return None;
    }
    let q = v[a];
    if q != '"' && q != '\'' {
        return None;
    }
    let e = find_char_from(v, a + 1, b, q);
    if e < b { Some((a + 1, e)) } else { None }
}

#[verifier::spinoff_prover]
fn parse_import_line(v: &Vec<char>, lo: usize, hi: usize, import_kw: &Vec<char>, from_kw: &Vec<char>) -> (r: Option<ParsedImport>)
    requires
        lo <= hi <= v.len(),
        import_kw@ == "import"@,
        from_kw@ == " from "@,
    ensures
        match (r, spec_import_line(v@, (lo as int, hi as int))) {
            (Some(x), Some(y)) => x.view() == y,
            (None, None) => true,
            _ => false,
        },
{
    proof {
        reveal_strlit("import");
        reveal_strlit(" from ");
    }
    let (a, b) = trim_range(v, lo, hi);
    if !(a < b && v[a] == '#') {
        return None;
    }
    let (c, d) = trim_range(v, a + 1, b);
    if !has_prefix_at(v, c, d, import_kw) {
        return None;
    }
    let e = c + 6;
    if !(e < d && char_is_ws(v[e])) {
        return None;
    }
    let (f, g) = trim_range(v, e, d);
    if f < g && (v[f] == '"' || v[f] == '\'') {
        match extract_quoted(v, f, g) {
            Some((x, y)) => {
                let path = range_to_string(v, x, y);
                Some(ParsedImport { names: None, path })
            },
            None => None,
        }
    } else {
        let k = find_sub_exec(v, f, g, from_kw);
        if k >= g {
            return None;
        }
        proof {
            assert(has_prefix(v@, k as int, g as int, from_kw@)) by {
                lemma_find_sub_found(v@, f as int, g as int, from_kw@);
            }
        }
        assert(f <= k && k < g && g <= v.len());
        let items = list_items_of(v, f, k, ',');
        assert(forall|j: int| 0 <= j < items@.len() ==> f <= #[trigger] items@[j].0 < items@[j].1 <= k);
        match extract_quoted(v, k + 6, g) {
            Some((x, y)) => {
                if items.len() > 0 {
                    assert(forall|j: int| 0 <= j < items@.len() ==> #[trigger] items@[j].0 <= items@[j].1 <= v.len());
                    let names = ranges_to_strings(v, &items);
                    let path = range_to_string(v, x, y);
                    Some(ParsedImport { names: Some(names), path })
                } else {
                    None
                }
            },
            None => None,
        }
    }
}

proof fn lemma_find_sub_found(s: Seq<char>, lo: int, hi: int, t: Seq<char>)
    requires
        lo <= hi,
        find_sub(s, lo, hi, t) < hi,
    ensures
        has_prefix(s, find_sub(s, lo, hi, t), hi, t),
        lo <= find_sub(s, lo, hi, t),
    decreases hi - lo,
{
    if lo < hi && !has_prefix(s, lo, hi, t) {
        lemma_find_sub_found(s, lo + 1, hi, t);
    }
}

/// Parses the `# import ...` comments of a GraphQL source, one per line:
/// named imports (`# import Foo from "path"`, `# import A, B from 'path'`)
/// and default imports (`# import 'path'`). Whitespace may follow `#` and
/// separate the parts; `import` must be followed by whitespace.
pub fn parse_import_comments(source: &str) -> (r: Vec<ParsedImport>)
    ensures
        imports_view(r@) == imports_of(source@, line_ranges(source@)),
{
    let v = to_chars(source);
    let import_kw = to_chars("import");
    let from_kw = to_chars(" from ");
    proof {
        reveal_strlit("import");
        reveal_strlit(" from ");
    }
    let lines = line_ranges_of(&v);
    let mut out: Vec<ParsedImport> = Vec::new();
    let mut k: usize = 0;
    while k < lines.len()
        invariant
            0 <= k <= lines.len(),
            v@ == source@,
            import_kw@ == "import"@,
            from_kw@ == " from "@,
            pairs_view(lines@) == line_ranges(v@),
            forall|j: int| 0 <= j < lines@.len() ==> #[trigger] lines@[j].0 <= lines@[j].1 <= v.len(),
            imports_view(out@) == imports_of(v@, pairs_view(lines@).take(k as int)),
        decreases lines.len() - k,
    {
        let (lo, hi) = lines[k];
        assert(lines@[k as int].0 <= lines@[k as int].1 <= v.len());
        let parsed = parse_import_line(&v, lo, hi, &import_kw, &from_kw);
        assert(pairs_view(lines@).take(k + 1).drop_last() =~= pairs_view(lines@).take(k as int));
        assert(pairs_view(lines@).take(k + 1).last() == (lo as int, hi as int));
        match parsed {
            Some(p) => {
                let ghost old_out = out@;
                out.push(p);
                assert(imports_view(out@) =~= imports_view(old_out).push(out@[old_out.len() as int].view()));
            },
            None => {},
        }
        k += 1;
    }
    assert(pairs_view(lines@).take(lines@.len() as int) =~= pairs_view(lines@));
    out
}

/// The segments a path normalizes to after `segs` when the next piece is
/// `piece`: empty and `.` pieces vanish, `..` drops the last segment.
pub open spec fn norm_step(segs: Seq<Seq<char>>, piece: Seq<char>) -> Seq<Seq<char>> {
    if piece.len() == 0 || piece == "."@ {
        segs
    } else if piece == ".."@ {
        if segs.len() > 0 { segs.drop_last() } else { segs }
    } else {
        segs.push(piece)
    }
}

/// The segments that the pieces `pieces` normalize to.
pub open spec fn norm_fold(pieces: Seq<Seq<char>>) -> Seq<Seq<char>>
    decreases pieces.len(),
{
    if pieces.len() == 0 {
        seq![]
    } else {
        norm_step(norm_fold(pieces.drop_last()), pieces.last())
    }
}

/// The POSIX path `p` normalized: empty segments and `.` dropped, `..`
/// resolved, written absolute.
pub open spec fn spec_normalize_path(p: Seq<char>) -> Seq<char> {
    "/"@ + join_with(norm_fold(slices_of(p, split_ranges(p, 0, p.len() as int, '/'))), "/"@)
}

/// Normalizes a POSIX path: collapses empty segments, resolves `.` and `..`.
pub fn normalize_path(path: &str) -> (r: String)
    ensures
        r@ == spec_normalize_path(path@),
{
    let v = to_chars(path);
    let pieces = split_range(&v, 0, v.len(), '/');
    let ghost ps = slices_of(v@, pairs_view(pieces@));
    let dot = to_chars(".");
    let dotdot = to_chars("..");
    proof {
        reveal_strlit(".");
        reveal_strlit("..");
    }
    let mut segs: Vec<String> = Vec::new();
    let mut k: usize = 0;
    while k < pieces.len()
        invariant
            0 <= k <= pieces@.len(),
            dot@ == "."@,
            dotdot@ == ".."@,
            ps == slices_of(v@, pairs_view(pieces@)),
            forall|j: int| 0 <= j < pieces@.len() ==> 0 <= #[trigger] pieces@[j].0 <= pieces@[j].1 <= v@.len(),
            strings_view(segs@) == norm_fold(ps.take(k as int)),
        decreases pieces@.len() - k,
    {
        let (lo, hi) = pieces[k];
        assert(ps.take(k + 1).drop_last() =~= ps.take(k as int));
        assert(ps.take(k + 1).last() == v@.subrange(lo as int, hi as int));
        let ghost prev = segs@;
        if lo == hi || range_eq(&v, lo, hi, &dot) {
            assert(v@.subrange(lo as int, hi as int).len() == 0 || v@.subrange(lo as int, hi as int) == "."@);
        } else if range_eq(&v, lo, hi, &dotdot) {
            if segs.len() > 0 {
                segs.pop();
                assert(strings_view(segs@) =~= strings_view(prev).drop_last());
            }
        } else {
            let seg = range_to_string(&v, lo, hi);
            segs.push(seg);
            assert(strings_view(segs@) =~= strings_view(prev).push(v@.subrange(lo as int, hi as int)));
        }
        k += 1;
    }
    assert(ps.take(k as int) =~= ps);
    let mut r = "/".to_owned();
    let joined = join_strings(&segs, "/");
    r.append(joined.as_str());
    r
}

/// The URI that `import_path`, written in the file `current_uri`, refers
/// to: resolved against the file's directory and normalized, with the
/// `file://` scheme.
pub open spec fn spec_resolve_import_path(current_uri: Seq<char>, import_path: Seq<char>) -> Seq<char> {
    let base = if has_prefix(current_uri, 0, current_uri.len() as int, "file://"@) {
        current_uri.subrange(7, current_uri.len() as int)
    } else {
        current_uri
    };
    let slash = rfind_from(base, 0, base.len() as int, '/');
    let parent = if slash >= 0 { base.subrange(0, slash) } else { seq![] };
    "file://"@ + spec_normalize_path(parent + "/"@ + import_path)
}

/// Resolves a possibly relative import path against the current file's URI.
pub fn resolve_import_path(current_file_uri: &str, import_path: &str) -> (r: String)
    ensures
        r@ == spec_resolve_import_path(current_file_uri@, import_path@),
{
    let u = to_chars(current_file_uri);
    let scheme = to_chars("file://");
    proof { reveal_strlit("file://"); }
    let start: usize = if has_prefix_at(&u, 0, u.len(), &scheme) { 7 } else { 0 };
    let base = range_to_string(&u, start, u.len());
    let bv = to_chars(base.as_str());
    let parent = match rfind_char_from(&bv, 0, bv.len(), '/') {
        Some(i) => range_to_string(&bv, 0, i),
        None => String::new(),
    };
    let mut joined = parent;
    joined.append("/");
    joined.append(import_path);
    let norm = normalize_path(joined.as_str());
    let mut r = "file://".to_owned();
    r.append(norm.as_str());
    proof {
        if start == 0 {
            assert(u@.subrange(0, u@.len() as int) =~= u@);
        }
    }
    r
}

/// A fragment spread as plain values: name, start and end of the name.
pub type SpreadView = (Seq<char>, usize, usize);

/// The named fragment spreads within `sels`, at any depth, in document order.
pub open spec fn spread_list(sels: Seq<Selection>) -> Seq<SpreadView>
    decreases sels,
{
    if sels.len() == 0 {
        seq![]
    } else {
        let k = sels.len() - 1;
        spread_list(sels.subrange(0, k)) + match sels[k] {
            Selection::Field(f) => match f.selection_set {
                Some(ss) => spread_list(ss.selections@),
                None => seq![],
            },
            Selection::FragmentSpread(sp) => match sp.name {
                Some(n) => seq![(n.value@, n.range.start, n.range.end)],
                None => seq![],
            },
            Selection::InlineFragment(i) => match i.selection_set {
                Some(ss) => spread_list(ss.selections@),
                None => seq![],
            },
        }
    }
}

/// The named fragment spreads of the operations and fragments `defs`.
pub open spec fn doc_spread_list(defs: Seq<Definition>) -> Seq<SpreadView>
    decreases defs.len(),
{
    if defs.len() == 0 {
        seq![]
    } else {
        doc_spread_list(defs.drop_last()) + match defs.last() {
            Definition::Operation(op) => match op.selection_set {
                Some(ss) => spread_list(ss.selections@),
                None => seq![],
            },
            Definition::Fragment(fr) => match fr.selection_set {
                Some(ss) => spread_list(ss.selections@),
                None => seq![],
            },
            Definition::TypeSystem { .. } => seq![],
        }
    }
}

pub open spec fn spreads_view(v: Seq<(String, usize, usize)>) -> Seq<SpreadView> {
    Seq::new(v.len(), |k: int| (v[k].0@, v[k].1, v[k].2))
}

/// Collects the named fragment spreads within `ss`, at any depth, with the
/// byte range of each name.
fn collect_fragment_spreads(ss: &SelectionSet, spreads: &mut Vec<(String, usize, usize)>)
    ensures
        spreads_view(final(spreads)@) == spreads_view(old(spreads)@) + spread_list(ss.selections@),
    decreases ss,
{
    let ghost sels = ss.selections@;
    let ghost start = spreads_view(spreads@);
    let mut k: usize = 0;
    assert(spreads_view(spreads@) =~= start + spread_list(sels.subrange(0, 0)));
    while k < ss.selections.len()
        invariant
            0 <= k <= sels.len(),
            sels == ss.selections@,
            spreads_view(spreads@) == start + spread_list(sels.subrange(0, k as int)),
        decreases sels.len() - k,
    {
        assert(sels.subrange(0, k + 1).subrange(0, k as int) =~= sels.subrange(0, k as int));
        assert(sels.subrange(0, k + 1)[k as int] == sels[k as int]);
        let ghost before = spreads_view(spreads@);
        match &ss.selections[k] {
            Selection::Field(f) => match &f.selection_set {
                Some(nested) => collect_fragment_spreads(nested, spreads),
                None => {},
            },
            Selection::FragmentSpread(sp) => match &sp.name {
                Some(n) => {
                    spreads.push((n.value.clone(), n.range.start, n.range.end));
                    assert(spreads_view(spreads@) =~= before.push((n.value@, n.range.start, n.range.end)));
                },
                None => {},
            },
            Selection::InlineFragment(i) => match &i.selection_set {
                Some(nested) => collect_fragment_spreads(nested, spreads),
                None => {},
            },
        }
        assert(spreads_view(spreads@) =~= start + spread_list(sels.subrange(0, k + 1)));
        k += 1;
    }
    assert(sels.subrange(0, sels.len() as int) =~= sels);
}

/// A file of the project as imports see it: its URI and the fragments
/// defined in it (none known when the file has no content entry).
pub struct KnownFile {
    pub uri: String,
    pub fragments: Option<Vec<String>>,
}

/// The first file of `files` with URI `uri`.
pub open spec fn file_lookup(files: Seq<KnownFile>, uri: Seq<char>) -> Option<int> {
    first_satisfying(files.len() as int, |k: int| files[k].uri@ == uri)
}

/// The file at `uri` may provide the fragment `n`: it is not in the
/// project, has no content entry, or defines `n`.
pub open spec fn file_accepts(files: Seq<KnownFile>, uri: Seq<char>, n: Seq<char>) -> bool {
    match file_lookup(files, uri) {
        Some(k) => match files[k].fragments {
            Some(fs) => names_contain(fs@, n),
            None => true,
        },
        None => true,
    }
}

/// The import `imp`, resolved to `uri`, covers the fragment `n`: a default
/// import or one that lists `n`, of a file that may provide it.
pub open spec fn import_covers(files: Seq<KnownFile>, imp: ImportView, uri: Seq<char>, n: Seq<char>) -> bool {
    (match imp.names {
        Some(ns) => ns.contains(n),
        None => true,
    }) && file_accepts(files, uri, n)
}

/// Some import of `imports`, written in `current_uri`, covers `n`.
pub open spec fn is_imported(files: Seq<KnownFile>, current_uri: Seq<char>, imports: Seq<ImportView>, n: Seq<char>) -> bool {
    exists|i: int| 0 <= i < imports.len()
        && #[trigger] import_covers(files, imports[i], spec_resolve_import_path(current_uri, imports[i].path), n)
}

fn file_accepts_exec(files: &Vec<KnownFile>, uri: &str, n: &str) -> (r: bool)
    ensures
        r == file_accepts(files@, uri@, n@),
{
    let ghost p = |k: int| files@[k].uri@ == uri@;
    let mut k: usize = 0;
    while k < files.len()
        invariant
            0 <= k <= files@.len(),
            first_satisfying(k as int, p) is None,
            p == (|k: int| files@[k].uri@ == uri@),
        decreases files@.len() - k,
    {
        if str_eq(files[k].uri.as_str(), uri) {
            proof {
                assert(p(k as int));
                assert(first_satisfying(k as int + 1, p) == Some(k as int));
                lemma_first_satisfying_stable(k as int + 1, files@.len() as int, p);
            }
            return match &files[k].fragments {
                Some(fs) => contains_str(fs, n),
                None => true,
            };
        }
        k += 1;
    }
    true
}

fn listed(names: &Vec<String>, n: &str) -> (r: bool)
    ensures
        r == strings_view(names@).contains(n@),
{
    let b = contains_str(names, n);
    proof {
        if b {
            let k = choose|k: int| 0 <= k < names@.len() && (#[trigger] names@[k])@ == n@;
            assert(strings_view(names@)[k] == n@);
        }
        if strings_view(names@).contains(n@) {
            let k = choose|k: int| 0 <= k < strings_view(names@).len() && strings_view(names@)[k] == n@;
            assert(names@[k]@ == n@);
        }
    }
    b
}

/// Whether some import of `imports` (resolved to `uris`) covers the fragment `n`.
fn is_fragment_imported(
    files: &Vec<KnownFile>,
    imports: &Vec<ParsedImport>,
    uris: &Vec<String>,
    n: &str,
    Ghost(current_uri): Ghost<Seq<char>>,
) -> (r: bool)
    requires
        uris@.len() == imports@.len(),
        forall|i: int| 0 <= i < uris@.len() ==> (#[trigger] uris@[i])@ == spec_resolve_import_path(current_uri, imports@[i].path@),
    ensures
        r == is_imported(files@, current_uri, imports_view(imports@), n@),
{
    let ghost iv = imports_view(imports@);
    let mut i: usize = 0;
    while i < imports.len()
        invariant
            0 <= i <= imports@.len(),
            uris@.len() == imports@.len(),
            iv == imports_view(imports@),
            forall|j: int| 0 <= j < uris@.len() ==> (#[trigger] uris@[j])@ == spec_resolve_import_path(current_uri, imports@[j].path@),
            forall|j: int| 0 <= j < i ==> !#[trigger] import_covers(files@, iv[j], spec_resolve_import_path(current_uri, iv[j].path), n@),
        decreases imports@.len() - i,
    {
        let imp = &imports[i];
        assert(iv[i as int] == imp.view());
        let named_ok = match &imp.names {
            Some(ns) => listed(ns, n),
            None => true,
        };
        if named_ok && file_accepts_exec(files, uris[i].as_str(), n) {
            assert(import_covers(files@, iv[i as int], spec_resolve_import_path(current_uri, iv[i as int].path), n@));
            return true;
        }
        i += 1;
    }
    false
}

/// `d` is a fragment definition named `n`.
pub open spec fn defines_fragment(d: Definition, n: Seq<char>) -> bool {
    match d {
        Definition::Fragment(fr) => match fr.name {
            Some(m) => m.value@ == n,
            None => false,
        },
        _ => false,
    }
}

/// Some definition of `defs` is a fragment named `n`.
pub open spec fn local_fragment(defs: Seq<Definition>, n: Seq<char>) -> bool {
    exists|k: int| 0 <= k < defs.len() && #[trigger] defines_fragment(defs[k], n)
}

/// Spread `t` of `spreads` repeats the name and position of an earlier one.
pub open spec fn repeats_earlier(spreads: Seq<SpreadView>, t: int) -> bool {
    exists|i: int| 0 <= i < t && #[trigger] spreads[i].0 == spreads[t].0 && spreads[i].1 == spreads[t].1
}

/// Reports about the first `t` spreads of `spreads` in `doc` (of the file
/// `uri`, whose imports are `imports`): each spread of a fragment that
/// the document does not define and no import covers, once per name and
/// position.
pub open spec fn import_reports(
    doc: ExecutableDocument,
    files: Seq<KnownFile>,
    uri: Seq<char>,
    imports: Seq<ImportView>,
    spreads: Seq<SpreadView>,
    t: int,
) -> Seq<DiagnosticView>
    decreases t,
{
    if t <= 0 {
        seq![]
    } else {
        let sp = spreads[t - 1];
        import_reports(doc, files, uri, imports, spreads, t - 1) + if !local_fragment(doc.definitions@, sp.0)
            && !is_imported(files, uri, imports, sp.0) && !repeats_earlier(spreads, t - 1) {
            seq![plain_view(
                doc.spec_span(sp.1, sp.2),
                LintSeverity::Warning,
                "Expected \""@ + sp.0 + "\" fragment to be imported."@,
                "requireImportFragment"@,
            )]
        } else {
            seq![]
        }
    }
}

fn local_fragment_exec(defs: &Vec<Definition>, n: &str) -> (r: bool)
    ensures
        r == local_fragment(defs@, n@),
{
    let mut k: usize = 0;
    while k < defs.len()
        invariant
            0 <= k <= defs@.len(),
            forall|j: int| 0 <= j < k ==> !#[trigger] defines_fragment(defs@[j], n@),
        decreases defs@.len() - k,
    {
        if let Definition::Fragment(fr) = &defs[k] {
            if let Some(m) = &fr.name {
                if str_eq(m.value.as_str(), n) {
                    assert(defines_fragment(defs@[k as int], n@));
                    return true;
                }
            }
        }
        k += 1;
    }
    false
}

fn repeats_earlier_exec(spreads: &Vec<(String, usize, usize)>, t: usize) -> (r: bool)
    requires
        t < spreads@.len(),
    ensures
        r == repeats_earlier(spreads_view(spreads@), t as int),
{
    let ghost sv = spreads_view(spreads@);
    let mut i: usize = 0;
    while i < t
        invariant
            0 <= i <= t < spreads@.len(),
            sv == spreads_view(spreads@),
            forall|j: int| 0 <= j < i ==> !(#[trigger] sv[j].0 == sv[t as int].0 && sv[j].1 == sv[t as int].1),
        decreases t - i,
    {
        if spreads[i].1 == spreads[t].1 && str_eq(spreads[i].0.as_str(), spreads[t].0.as_str()) {
            assert(sv[i as int].0 == sv[t as int].0 && sv[i as int].1 == sv[t as int].1);
            return true;
        }
        i += 1;
    }
    false
}

impl RequireImportFragmentRuleImpl {
    /// Reports, in `doc` of the file `current_uri`, each spread of a
    /// fragment that the document does not define and that no `# import`
    /// comment of the document covers; `files` tells which fragments the
    /// project's files define.
    pub fn check(&self, current_uri: &str, files: &Vec<KnownFile>, doc: &ExecutableDocument) -> (r: Vec<LintDiagnostic>)
        ensures
            diags_view(r@) == import_reports(
                *doc,
                files@,
                current_uri@,
                imports_of(doc.source@, line_ranges(doc.source@)),
                doc_spread_list(doc.definitions@),
                doc_spread_list(doc.definitions@).len() as int,
            ),
    {
        let imports = parse_import_comments(doc.source.as_str());
        let ghost iv = imports_view(imports@);
        let mut uris: Vec<String> = Vec::new();
        let mut i: usize = 0;
        while i < imports.len()
            invariant
                0 <= i <= imports@.len(),
                uris@.len() == i,
                forall|j: int| 0 <= j < i ==> (#[trigger] uris@[j])@ == spec_resolve_import_path(current_uri@, imports@[j].path@),
            decreases imports@.len() - i,
        {
            let u = resolve_import_path(current_uri, imports[i].path.as_str());
            uris.push(u);
            i += 1;
        }
        let mut spreads: Vec<(String, usize, usize)> = Vec::new();
        let mut d: usize = 0;
        assert(spreads_view(spreads@) =~= doc_spread_list(doc.definitions@.take(0)));
        while d < doc.definitions.len()
            invariant
                0 <= d <= doc.definitions@.len(),
                spreads_view(spreads@) == doc_spread_list(doc.definitions@.take(d as int)),
            decreases doc.definitions@.len() - d,
        {
            assert(doc.definitions@.take(d + 1).drop_last() =~= doc.definitions@.take(d as int));
            match &doc.definitions[d] {
                Definition::Operation(op) => match &op.selection_set {
                    Some(ss) => collect_fragment_spreads(ss, &mut spreads),
                    None => assert(spreads_view(spreads@) =~= spreads_view(spreads@) + seq![]),
                },
                Definition::Fragment(fr) => match &fr.selection_set {
                    Some(ss) => collect_fragment_spreads(ss, &mut spreads),
                    None => assert(spreads_view(spreads@) =~= spreads_view(spreads@) + seq![]),
                },
                _ => assert(spreads_view(spreads@) =~= spreads_view(spreads@) + seq![]),
            }
            d += 1;
        }
        assert(doc.definitions@.take(d as int) =~= doc.definitions@);
        let ghost sv = spreads_view(spreads@);
        let mut out: Vec<LintDiagnostic> = Vec::new();
        let mut t: usize = 0;
        assert(diags_view(out@) =~= Seq::<DiagnosticView>::empty());
        while t < spreads.len()
            invariant
                0 <= t <= spreads@.len(),
                sv == spreads_view(spreads@),
                iv == imports_view(imports@),
                iv == imports_of(doc.source@, line_ranges(doc.source@)),
                uris@.len() == imports@.len(),
                forall|j: int| 0 <= j < uris@.len() ==> (#[trigger] uris@[j])@ == spec_resolve_import_path(current_uri@, imports@[j].path@),
                diags_view(out@) == import_reports(*doc, files@, current_uri@, iv, sv, t as int),
            decreases spreads@.len() - t,
        {
            let (n, start, end) = (&spreads[t].0, spreads[t].1, spreads[t].2);
            let ghost before = diags_view(out@);
            if !local_fragment_exec(&doc.definitions, n.as_str())
                && !is_fragment_imported(files, &imports, &uris, n.as_str(), Ghost(current_uri@))
                && !repeats_earlier_exec(&spreads, t) {
                let mut m = "Expected \"".to_owned();
                m.append(n.as_str());
                m.append("\" fragment to be imported.");
                let dg = LintDiagnostic::new(doc.span(start, end), LintSeverity::Warning, m.as_str(), "requireImportFragment");
                push_diag(&mut out, dg);
            }
            assert(diags_view(out@) =~= import_reports(*doc, files@, current_uri@, iv, sv, t + 1));
            t += 1;
        }
        out
    }
}

} // verus!
