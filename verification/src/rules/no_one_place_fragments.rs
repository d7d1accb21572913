//! The `noOnePlaceFragments` lint rule.
use vstd::prelude::*;
use crate::diagnostics::{LintDiagnostic, LintSeverity};
use crate::document::{def_spreads, definition_spreads, plain_view, Definition, DocumentFile, ExecutableDocument};
use crate::rules::no_unused_fragments::{collect_fragments, doc_uses, file_infos, file_uses, infos_view, project_uses, FragmentInfoView};
use crate::schema::{file_diags_view, push_file_diag, FileDiagnostic, FileDiagnosticView};
use crate::text::{join_strings, join_with, str_eq, strings_view};

verus! {

/// Lint rule that detects fragments used in only one place
///
/// Fragments used in only one location should be inlined to reduce complexity.
/// If a fragment is only spread once, it adds indirection without the benefit
/// of reuse.
pub struct NoOnePlaceFragmentsRuleImpl;

impl NoOnePlaceFragmentsRuleImpl {
    /// The rule's identifier.
    pub fn name(&self) -> (s: &'static str)
        ensures
            s@ == "noOnePlaceFragments"@,
    {
        "noOnePlaceFragments"
    }

    /// What the rule checks.
    pub fn description(&self) -> (s: &'static str)
        ensures
            s@ == "Detects fragments that are used in only one place and could be inlined"@,
    {
        "Detects fragments that are used in only one place and could be inlined"
    }

    /// The severity the rule reports with unless configured otherwise.
    pub fn default_severity(&self) -> (s: LintSeverity)
        ensures
            s == LintSeverity::Warning,
    {
        LintSeverity::Warning
    }
}

/// The name of definition `d` as a spread site reports it: the
/// operation's or fragment's name, empty when it has none.
pub open spec fn site_name(d: Definition) -> Seq<char> {
    match d {
        Definition::Operation(op) => match op.name {
            Some(n) => n.value@,
            None => seq![],
        },
        Definition::Fragment(fr) => match fr.name {
            Some(n) => n.value@,
            None => seq![],
        },
        Definition::TypeSystem { .. } => seq![],
    }
}

/// Some definition of `doc` named `dn` spreads the fragment `n`.
pub open spec fn doc_site(doc: ExecutableDocument, n: Seq<char>, dn: Seq<char>) -> bool {
    exists|k: int| 0 <= k < doc.definitions@.len() && #[trigger] def_spreads(doc.definitions@[k], n)
        && site_name(doc.definitions@[k]) == dn
}

/// Some definition named `dn` in some document of `f` spreads `n`.
pub open spec fn file_site(f: DocumentFile, n: Seq<char>, dn: Seq<char>) -> bool {
    exists|k: int| 0 <= k < f.documents@.len() && #[trigger] doc_site(f.documents@[k], n, dn)
}

/// `(id, dn)` is a spread site of `n`: a definition named `dn` in a file
/// with id `id` spreads it.
pub open spec fn is_site(files: Seq<DocumentFile>, n: Seq<char>, id: u64, dn: Seq<char>) -> bool {
    exists|k: int| 0 <= k < files.len() && files[k].file_id == id && #[trigger] file_site(files[k], n, dn)
}

/// The fragment `n` is spread from exactly one site.
pub open spec fn one_place(files: Seq<DocumentFile>, n: Seq<char>) -> bool {
    exists|id: u64, dn: Seq<char>| #[trigger] is_site(files, n, id, dn)
        && forall|id2: u64, dn2: Seq<char>| #[trigger] is_site(files, n, id2, dn2) ==> id2 == id && dn2 == dn
}

/// No two files of `files` share an id.
pub open spec fn distinct_ids(files: Seq<DocumentFile>) -> bool {
    forall|i: int, j: int| 0 <= i < files.len() && 0 <= j < files.len() && i != j
        ==> #[trigger] files[i].file_id != #[trigger] files[j].file_id
}

/// The path of the file with id `id`.
pub open spec fn path_of(files: Seq<DocumentFile>, id: u64) -> Seq<char> {
    files[choose|k: int| 0 <= k < files.len() && files[k].file_id == id].path@
}

/// The path of the file of the site from which `n` is spread.
pub open spec fn usage_path(files: Seq<DocumentFile>, n: Seq<char>) -> Seq<char> {
    let (id, dn) = choose|id: u64, dn: Seq<char>| is_site(files, n, id, dn);
    path_of(files, id)
}

/// The report about fragment `i` when it is spread from one site only.
pub open spec fn one_place_report(files: Seq<DocumentFile>, i: FragmentInfoView) -> Seq<FileDiagnosticView> {
    if one_place(files, i.0) {
        seq![(i.1, plain_view(
            i.2,
            LintSeverity::Warning,
            "Fragment `"@ + i.0 + "` used only once. Inline him in \""@ + usage_path(files, i.0) + "\"."@,
            "noOnePlaceFragments"@,
        ))]
    } else {
        seq![]
    }
}

/// The reports about the fragments `infos`.
pub open spec fn one_place_reports(files: Seq<DocumentFile>, infos: Seq<FragmentInfoView>) -> Seq<FileDiagnosticView>
    decreases infos.len(),
{
    if infos.len() == 0 {
        seq![]
    } else {
        one_place_reports(files, infos.drop_last()) + one_place_report(files, infos.last())
    }
}

/// A site name in `doc` from which `n` is spread, other than `avoid`.
fn find_in_doc(doc: &ExecutableDocument, n: &str, avoid: Option<&str>) -> (r: Option<String>)
    ensures
        r matches Some(dn) ==> doc_site(*doc, n@, dn@) && !(avoid matches Some(a) && a@ == dn@),
        r is None ==> forall|dn: Seq<char>| #[trigger] doc_site(*doc, n@, dn) ==> (avoid matches Some(a) && a@ == dn),
{
    let mut k: usize = 0;
    while k < doc.definitions.len()
        invariant
            0 <= k <= doc.definitions@.len(),
            forall|j: int| 0 <= j < k && #[trigger] def_spreads(doc.definitions@[j], n@)
                ==> (avoid matches Some(a) && a@ == site_name(doc.definitions@[j])),
        decreases doc.definitions@.len() - k,
    {
        let d = &doc.definitions[k];
        if definition_spreads(d, n) {
            let dn: String = match d {
                Definition::Operation(op) => match &op.name {
                    Some(m) => m.value.clone(),
                    None => String::new(),
                },
                Definition::Fragment(fr) => match &fr.name {
                    Some(m) => m.value.clone(),
                    None => String::new(),
                },
                Definition::TypeSystem { .. } => String::new(),
            };
            assert(dn@ == site_name(*d));
            let other = match avoid {
                Some(a) => !str_eq(a, dn.as_str()),
                None => true,
            };
            if other {
                assert(doc_site(*doc, n@, dn@));
                return Some(dn);
            }
        }
        k += 1;
    }
    None
}

/// A site name in `f` from which `n` is spread, other than `avoid`.
fn find_in_file(f: &DocumentFile, n: &str, avoid: Option<&str>) -> (r: Option<String>)
    ensures
        r matches Some(dn) ==> file_site(*f, n@, dn@) && !(avoid matches Some(a) && a@ == dn@),
        r is None ==> forall|dn: Seq<char>| #[trigger] file_site(*f, n@, dn) ==> (avoid matches Some(a) && a@ == dn),
{
    let mut k: usize = 0;
    while k < f.documents.len()
        invariant
            0 <= k <= f.documents@.len(),
            forall|j: int, dn: Seq<char>| 0 <= j < k && #[trigger] doc_site(f.documents@[j], n@, dn)
                ==> (avoid matches Some(a) && a@ == dn),
        decreases f.documents@.len() - k,
    {
        match find_in_doc(&f.documents[k], n, avoid) {
            Some(dn) => {
                assert(file_site(*f, n@, dn@));
                return Some(dn);
            },
            None => {},
        }
        k += 1;
    }
    None
}

/// A spread site of `n` in `files` other than `avoid`: the index of its
/// file and the name of its definition.
fn find_site(files: &Vec<DocumentFile>, n: &str, avoid: Option<(u64, &str)>) -> (r: Option<(usize, String)>)
    ensures
        r matches Some((k, dn)) ==> k < files@.len() && file_site(files@[k as int], n@, dn@)
            && !(avoid matches Some((id, a)) && id == files@[k as int].file_id && a@ == dn@),
        r is None ==> forall|id: u64, dn: Seq<char>| #[trigger] is_site(files@, n@, id, dn)
            ==> (avoid matches Some((aid, a)) && aid == id && a@ == dn),
{
    let mut k: usize = 0;
    while k < files.len()
        invariant
            0 <= k <= files@.len(),
            forall|j: int, dn: Seq<char>| 0 <= j < k && #[trigger] file_site(files@[j], n@, dn)
                ==> (avoid matches Some((aid, a)) && aid == files@[j].file_id && a@ == dn),
        decreases files@.len() - k,
    {
        let f = &files[k];
        let local: Option<&str> = match avoid {
            Some((id, a)) => if id == f.file_id { Some(a) } else { None },
            None => None,
        };
        match find_in_file(f, n, local) {
            Some(dn) => {
                return Some((k, dn));
            },
            None => {},
        }
        k += 1;
    }
    proof {
        assert forall|id: u64, dn: Seq<char>| #[trigger] is_site(files@, n@, id, dn)
            implies (avoid matches Some((aid, a)) && aid == id && a@ == dn) by {
            let j = choose|j: int| 0 <= j < files@.len() && files@[j].file_id == id && #[trigger] file_site(files@[j], n@, dn);
        }
    }
    None
}

/// The path of the file of the single spread site of `n`, when `n` is
/// spread from exactly one site.
fn single_usage_path(files: &Vec<DocumentFile>, n: &str) -> (r: Option<String>)
    requires
        distinct_ids(files@),
    ensures
        r matches Some(p) ==> one_place(files@, n@) && p@ == usage_path(files@, n@),
        r is None ==> !one_place(files@, n@),
{
    match find_site(files, n, None) {
        None => {
            proof {
                if one_place(files@, n@) {
                    let (id, dn) = choose|id: u64, dn: Seq<char>| #[trigger] is_site(files@, n@, id, dn)
                        && forall|id2: u64, dn2: Seq<char>| #[trigger] is_site(files@, n@, id2, dn2) ==> id2 == id && dn2 == dn;
                    assert(is_site(files@, n@, id, dn));
                }
            }
            None
        },
        Some((k, dn)) => {
            let id = files[k].file_id;
            assert(is_site(files@, n@, id, dn@));
            match find_site(files, n, Some((id, dn.as_str()))) {
                Some((k2, dn2)) => {
                    proof {
                        let id2 = files@[k2 as int].file_id;
                        assert(is_site(files@, n@, id2, dn2@));
                        if one_place(files@, n@) {
                            let (i0, d0) = choose|i0: u64, d0: Seq<char>| #[trigger] is_site(files@, n@, i0, d0)
                                && forall|id3: u64, dn3: Seq<char>| #[trigger] is_site(files@, n@, id3, dn3) ==> id3 == i0 && dn3 == d0;
                            assert(is_site(files@, n@, id, dn@));
                        }
                    }
                    None
                },
                None => {
                    proof {
                        assert(one_place(files@, n@));
                        let (cid, cdn) = choose|cid: u64, cdn: Seq<char>| is_site(files@, n@, cid, cdn);
                        assert(is_site(files@, n@, cid, cdn));
                        assert(cid == id);
                        let c = choose|c: int| 0 <= c < files@.len() && files@[c].file_id == id;
                        assert(files@[c].file_id == files@[k as int].file_id);
                        assert(c == k);
                    }
                    Some(files[k].path.clone())
                },
            }
        },
    }
}

impl NoOnePlaceFragmentsRuleImpl {
    /// Reports every named fragment of `files` that is spread from exactly
    /// one site (one definition of one file), naming that site's file.
    pub fn check(&self, files: &Vec<DocumentFile>) -> (r: Vec<FileDiagnostic>)
        requires
            distinct_ids(files@),
        ensures
            file_diags_view(r@) == one_place_reports(files@, file_infos(files@)),
    {
        let infos = collect_fragments(files);
        let ghost iv = infos_view(infos@);
        let mut out: Vec<FileDiagnostic> = Vec::new();
        let mut k: usize = 0;
        assert(file_diags_view(out@) =~= one_place_reports(files@, iv.take(0)));
        while k < infos.len()
            invariant
                0 <= k <= iv.len(),
                iv == infos_view(infos@),
                distinct_ids(files@),
                file_diags_view(out@) == one_place_reports(files@, iv.take(k as int)),
            decreases iv.len() - k,
        {
            assert(iv.take(k + 1).drop_last() =~= iv.take(k as int));
            assert(iv.take(k + 1).last() == infos@[k as int].view());
            let i = &infos[k];
            let ghost before = file_diags_view(out@);
            match single_usage_path(files, i.name.as_str()) {
                Some(p) => {
                    let mut message = "Fragment `".to_owned();
                    message.append(i.name.as_str());
                    message.append("` used only once. Inline him in \"");
                    message.append(p.as_str());
                    message.append("\".");
                    let d = LintDiagnostic::warning(i.name_span, message.as_str(), "noOnePlaceFragments");
                    push_file_diag(&mut out, i.file_id, d);
                },
                None => {},
            }
            assert(file_diags_view(out@) =~= before + one_place_report(files@, iv[k as int]));
            k += 1;
        }
        assert(iv.take(k as int) =~= iv);
        out
    }
}

/// `k` is the length of the longest common prefix of `a` and `b`.
pub open spec fn is_common_prefix_len(a: Seq<Seq<char>>, b: Seq<Seq<char>>, k: int) -> bool {
    &&& 0 <= k <= a.len()
    &&& k <= b.len()
    &&& forall|j: int| 0 <= j < k ==> #[trigger] a[j] == b[j]
    &&& (k == a.len() || k == b.len() || a[k] != b[k])
}

/// The components of the path from `from` to `to`, both given by their
/// components below the root: one `..` for each component of `from` past
/// the common prefix `k`, then the rest of `to`.
pub open spec fn relative_parts(from: Seq<Seq<char>>, to: Seq<Seq<char>>, k: int) -> Seq<Seq<char>> {
    Seq::new((from.len() - k) as nat, |j: int| ".."@) + to.skip(k)
}

/// The path from directory `from` to `to`, both given as their components
/// below the root, written with `/`; empty when they are the same.
pub fn relative_path(from: &Vec<String>, to: &Vec<String>) -> (r: String)
    ensures
        exists|k: int| is_common_prefix_len(strings_view(from@), strings_view(to@), k)
            && r@ == join_with(relative_parts(strings_view(from@), strings_view(to@), k), "/"@),
{
    let ghost a = strings_view(from@);
    let ghost b = strings_view(to@);
    let mut k: usize = 0;
    while k < from.len() && k < to.len() && str_eq(from[k].as_str(), to[k].as_str())
        invariant
            0 <= k <= from@.len(),
            k <= to@.len(),
            a == strings_view(from@),
            b == strings_view(to@),
            forall|j: int| 0 <= j < k ==> #[trigger] a[j] == b[j],
        decreases from@.len() - k,
    {
        k += 1;
    }
    assert(is_common_prefix_len(a, b, k as int));
    let mut parts: Vec<String> = Vec::new();
    let mut j: usize = k;
    while j < from.len()
        invariant
            k <= j <= from@.len(),
            k <= to@.len(),
            strings_view(parts@) == Seq::new((j - k) as nat, |i: int| ".."@),
        decreases from@.len() - j,
    {
        let ghost prev = parts@;
        let up = "..".to_owned();
        parts.push(up);
        assert(strings_view(parts@) =~= strings_view(prev).push(".."@));
        assert(strings_view(parts@) =~= Seq::new((j + 1 - k) as nat, |i: int| ".."@));
        j += 1;
    }
    let ghost ups = strings_view(parts@);
    let mut t: usize = k;
    while t < to.len()
        invariant
            k <= t <= to@.len(),
            b == strings_view(to@),
            strings_view(parts@) == ups + b.subrange(k as int, t as int),
        decreases to@.len() - t,
    {
        let ghost prev = parts@;
        let c = to[t].clone();
        parts.push(c);
        assert(strings_view(parts@) =~= strings_view(prev).push(b[t as int]));
        assert(strings_view(parts@) =~= ups + b.subrange(k as int, t + 1));
        t += 1;
    }
    assert(b.subrange(k as int, b.len() as int) =~= b.skip(k as int));
    assert(strings_view(parts@) =~= relative_parts(a, b, k as int));
    join_strings(&parts, "/")
}

/// A fragment that no operation or fragment of the project spreads (what
/// `noUnusedFragments` reports) is never reported as used in only one
/// place: it has no spread site at all.
pub proof fn law_unused_fragment_has_no_single_site(files: Seq<DocumentFile>, n: Seq<char>)
    requires
        !project_uses(files, n),
    ensures
        !one_place(files, n),
        forall|id: u64, dn: Seq<char>| !#[trigger] is_site(files, n, id, dn),
{
    assert forall|id: u64, dn: Seq<char>| !#[trigger] is_site(files, n, id, dn) by {
        if is_site(files, n, id, dn) {
            let k = choose|k: int| 0 <= k < files.len() && files[k].file_id == id && #[trigger] file_site(files[k], n, dn);
            let j = choose|j: int| 0 <= j < files[k].documents@.len() && #[trigger] doc_site(files[k].documents@[j], n, dn);
            let d = files[k].documents@[j];
            let i = choose|i: int| 0 <= i < d.definitions@.len() && #[trigger] def_spreads(d.definitions@[i], n)
                && site_name(d.definitions@[i]) == dn;
            assert(doc_uses(d, n));
            assert(file_uses(files[k], n));
            assert(project_uses(files, n));
        }
    }
}

} // verus!
