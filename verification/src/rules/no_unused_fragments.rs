//! The `noUnusedFragments` lint rule.
use vstd::prelude::*;
use crate::diagnostics::{CodeFix, CodeFixView, DiagnosticView, LintDiagnostic, LintSeverity, SourceSpan};
use crate::document::{def_spreads, definition_spreads, Definition, DocumentFile, ExecutableDocument, FragmentDefinition, Name};
use crate::schema::{file_diags_view, push_file_diag, FileDiagnostic, FileDiagnosticView};

verus! {

/// Trait implementation for `no_unused_fragments` rule
pub struct NoUnusedFragmentsRuleImpl;

impl NoUnusedFragmentsRuleImpl {
    /// The rule's identifier.
    pub fn name(&self) -> (s: &'static str)
        ensures
            s@ == "noUnusedFragments"@,
    {
        "noUnusedFragments"
    }

    /// What the rule checks.
    pub fn description(&self) -> (s: &'static str)
        ensures
            s@ == "Detects fragment definitions that are never used in any operation"@,
    {
        "Detects fragment definitions that are never used in any operation"
    }

    /// The severity the rule reports with unless configured otherwise.
    pub fn default_severity(&self) -> (s: LintSeverity)
        ensures
            s == LintSeverity::Warning,
    {
        LintSeverity::Warning
    }
}

/// The length of the `fragment` keyword; reports point at it.
pub const FRAGMENT_KEYWORD_LEN: usize = 8;

/// A fragment definition found in the project, with what its report needs.
pub struct FragmentInfo {
    /// Fragment name
    pub name: String,
    /// File where the fragment is defined
    pub file_id: u64,
    /// Span of the fragment's name (carries the block's position)
    pub name_span: SourceSpan,
    /// Byte offset of the start of the whole definition
    pub def_start: usize,
    /// Byte offset of the end of the whole definition
    pub def_end: usize,
    /// File-level byte range of the declaration that holds the block
    pub declaration_range: Option<(usize, usize)>,
    /// Number of GraphQL definitions in the block
    pub block_def_count: usize,
}

/// A fragment info as plain values, in field order.
pub type FragmentInfoView = (Seq<char>, u64, SourceSpan, usize, usize, Option<(usize, usize)>, usize);

impl FragmentInfo {
    pub open spec fn view(&self) -> FragmentInfoView {
        (self.name@, self.file_id, self.name_span, self.def_start, self.def_end, self.declaration_range, self.block_def_count)
    }
}

/// The views of a sequence of fragment infos.
pub open spec fn infos_view(v: Seq<FragmentInfo>) -> Seq<FragmentInfoView> {
    Seq::new(v.len(), |k: int| v[k].view())
}

/// The info of fragment `fr`, named `n`, of `doc` in file `file_id`.
pub open spec fn info_of(file_id: u64, doc: ExecutableDocument, fr: FragmentDefinition, n: Name) -> FragmentInfoView {
    (
        n.value@,
        file_id,
        doc.spec_span(n.range.start, n.range.end),
        fr.range.start,
        fr.range.end,
        doc.declaration_range,
        doc.definitions@.len() as usize,
    )
}

/// The infos of the named fragments among the definitions `defs` of `doc`.
pub open spec fn def_infos(file_id: u64, doc: ExecutableDocument, defs: Seq<Definition>) -> Seq<FragmentInfoView>
    decreases defs.len(),
{
    if defs.len() == 0 {
        seq![]
    } else {
        def_infos(file_id, doc, defs.drop_last()) + match defs.last() {
            Definition::Fragment(fr) => match fr.name {
                Some(n) => seq![info_of(file_id, doc, fr, n)],
                None => seq![],
            },
            _ => seq![],
        }
    }
}

/// The infos of the named fragments of the documents `docs` of file `file_id`.
pub open spec fn doc_infos(file_id: u64, docs: Seq<ExecutableDocument>) -> Seq<FragmentInfoView>
    decreases docs.len(),
{
    if docs.len() == 0 {
        seq![]
    } else {
        doc_infos(file_id, docs.drop_last()) + def_infos(file_id, docs.last(), docs.last().definitions@)
    }
}

/// The infos of the named fragments of `files`, in file and document order.
pub open spec fn file_infos(files: Seq<DocumentFile>) -> Seq<FragmentInfoView>
    decreases files.len(),
{
    if files.len() == 0 {
        seq![]
    } else {
        file_infos(files.drop_last()) + doc_infos(files.last().file_id, files.last().documents@)
    }
}

/// The keyword span of definition `d` of `doc` fits in a `usize`.
pub open spec fn def_fits(doc: ExecutableDocument, d: Definition) -> bool {
    match d {
        Definition::Fragment(fr) => doc.byte_offset + fr.range.start + FRAGMENT_KEYWORD_LEN <= usize::MAX,
        _ => true,
    }
}

/// The keyword spans of the fragments of `doc` fit in a `usize`.
pub open spec fn doc_fits(doc: ExecutableDocument) -> bool {
    forall|k: int| 0 <= k < doc.definitions@.len() ==> #[trigger] def_fits(doc, doc.definitions@[k])
}

/// The keyword spans of the fragments of `f` fit in a `usize`.
pub open spec fn file_fits(f: DocumentFile) -> bool {
    forall|k: int| 0 <= k < f.documents@.len() ==> #[trigger] doc_fits(f.documents@[k])
}

/// The keyword spans of the fragments of `files` fit in a `usize`.
pub open spec fn fragments_fit(files: Seq<DocumentFile>) -> bool {
    forall|k: int| 0 <= k < files.len() ==> #[trigger] file_fits(files[k])
}

/// The keyword span of a fragment info fits in a `usize`.
pub open spec fn info_fits(i: FragmentInfoView) -> bool {
    i.2.byte_offset + i.3 + FRAGMENT_KEYWORD_LEN <= usize::MAX
}

/// The collected infos all fit.
pub open spec fn infos_fit(v: Seq<FragmentInfoView>) -> bool {
    forall|k: int| 0 <= k < v.len() ==> #[trigger] info_fits(v[k])
}

fn collect_from_definitions(file_id: u64, doc: &ExecutableDocument, out: &mut Vec<FragmentInfo>)
    ensures
        infos_view(final(out)@) == infos_view(old(out)@) + def_infos(file_id, *doc, doc.definitions@),
        doc_fits(*doc) && infos_fit(infos_view(old(out)@)) ==> infos_fit(infos_view(final(out)@)),
{
    let ghost start = infos_view(out@);
    let mut k: usize = 0;
    assert(infos_view(out@) =~= start + def_infos(file_id, *doc, doc.definitions@.take(0)));
    while k < doc.definitions.len()
        invariant
            0 <= k <= doc.definitions@.len(),
            infos_view(out@) == start + def_infos(file_id, *doc, doc.definitions@.take(k as int)),
            doc_fits(*doc) && infos_fit(start) ==> infos_fit(infos_view(out@)),
        decreases doc.definitions@.len() - k,
    {
        assert(doc.definitions@.take(k + 1).drop_last() =~= doc.definitions@.take(k as int));
        let ghost before = infos_view(out@);
        if let Definition::Fragment(fr) = &doc.definitions[k] {
            if let Some(n) = &fr.name {
                assert(doc_fits(*doc) ==> def_fits(*doc, doc.definitions@[k as int]));
                let info = FragmentInfo {
                    name: n.value.clone(),
                    file_id,
                    name_span: doc.span(n.range.start, n.range.end),
                    def_start: fr.range.start,
                    def_end: fr.range.end,
                    declaration_range: doc.declaration_range,
                    block_def_count: doc.definitions.len(),
                };
                out.push(info);
                assert(infos_view(out@) =~= before.push(info_of(file_id, *doc, *fr, *n)));
            }
        }
        assert(infos_view(out@) =~= start + def_infos(file_id, *doc, doc.definitions@.take(k + 1)));
        k += 1;
    }
    assert(doc.definitions@.take(k as int) =~= doc.definitions@);
}

fn collect_from_file(f: &DocumentFile, out: &mut Vec<FragmentInfo>)
    ensures
        infos_view(final(out)@) == infos_view(old(out)@) + doc_infos(f.file_id, f.documents@),
        file_fits(*f) && infos_fit(infos_view(old(out)@)) ==> infos_fit(infos_view(final(out)@)),
{
    let ghost start = infos_view(out@);
    let mut k: usize = 0;
    assert(infos_view(out@) =~= start + doc_infos(f.file_id, f.documents@.take(0)));
    while k < f.documents.len()
        invariant
            0 <= k <= f.documents@.len(),
            infos_view(out@) == start + doc_infos(f.file_id, f.documents@.take(k as int)),
            file_fits(*f) && infos_fit(start) ==> infos_fit(infos_view(out@)),
        decreases f.documents@.len() - k,
    {
        assert(f.documents@.take(k + 1).drop_last() =~= f.documents@.take(k as int));
        assert(file_fits(*f) ==> doc_fits(f.documents@[k as int]));
        collect_from_definitions(f.file_id, &f.documents[k], out);
        assert(infos_view(out@) =~= start + doc_infos(f.file_id, f.documents@.take(k + 1)));
        k += 1;
    }
    assert(f.documents@.take(k as int) =~= f.documents@);
}

/// The named fragment definitions of `files`, in file, document and
/// definition order.
pub fn collect_fragments(files: &Vec<DocumentFile>) -> (r: Vec<FragmentInfo>)
    ensures
        infos_view(r@) == file_infos(files@),
        fragments_fit(files@) ==> infos_fit(infos_view(r@)),
{
    let mut out: Vec<FragmentInfo> = Vec::new();
    let mut k: usize = 0;
    assert(infos_view(out@) =~= file_infos(files@.take(0)));
    assert(infos_fit(infos_view(out@)));
    while k < files.len()
        invariant
            0 <= k <= files@.len(),
            infos_view(out@) == file_infos(files@.take(k as int)),
            fragments_fit(files@) ==> infos_fit(infos_view(out@)),
        decreases files@.len() - k,
    {
        assert(files@.take(k + 1).drop_last() =~= files@.take(k as int));
        assert(fragments_fit(files@) ==> file_fits(files@[k as int]));
        collect_from_file(&files[k], &mut out);
        k += 1;
    }
    assert(files@.take(k as int) =~= files@);
    out
}

/// Some definition of `doc` spreads the fragment `n`.
pub open spec fn doc_uses(doc: ExecutableDocument, n: Seq<char>) -> bool {
    exists|k: int| 0 <= k < doc.definitions@.len() && #[trigger] def_spreads(doc.definitions@[k], n)
}

/// Some document of `f` spreads the fragment `n`.
pub open spec fn file_uses(f: DocumentFile, n: Seq<char>) -> bool {
    exists|k: int| 0 <= k < f.documents@.len() && #[trigger] doc_uses(f.documents@[k], n)
}

/// Some file of `files` spreads the fragment `n`.
pub open spec fn project_uses(files: Seq<DocumentFile>, n: Seq<char>) -> bool {
    exists|k: int| 0 <= k < files.len() && #[trigger] file_uses(files[k], n)
}

fn doc_uses_exec(doc: &ExecutableDocument, n: &str) -> (r: bool)
    ensures
        r == doc_uses(*doc, n@),
{
    let mut k: usize = 0;
    while k < doc.definitions.len()
        invariant
            0 <= k <= doc.definitions@.len(),
            forall|j: int| 0 <= j < k ==> !#[trigger] def_spreads(doc.definitions@[j], n@),
        decreases doc.definitions@.len() - k,
    {
        if definition_spreads(&doc.definitions[k], n) {
            return true;
        }
        k += 1;
    }
    false
}

fn file_uses_exec(f: &DocumentFile, n: &str) -> (r: bool)
    ensures
        r == file_uses(*f, n@),
{
    let mut k: usize = 0;
    while k < f.documents.len()
        invariant
            0 <= k <= f.documents@.len(),
            forall|j: int| 0 <= j < k ==> !#[trigger] doc_uses(f.documents@[j], n@),
        decreases f.documents@.len() - k,
    {
        if doc_uses_exec(&f.documents[k], n) {
            return true;
        }
        k += 1;
    }
    false
}

/// Whether some operation or fragment of `files` spreads the fragment `n`.
pub fn fragment_is_used(files: &Vec<DocumentFile>, n: &str) -> (r: bool)
    ensures
        r == project_uses(files@, n@),
{
    let mut k: usize = 0;
    while k < files.len()
        invariant
            0 <= k <= files@.len(),
            forall|j: int| 0 <= j < k ==> !#[trigger] file_uses(files@[j], n@),
        decreases files@.len() - k,
    {
        if file_uses_exec(&files[k], n) {
            return true;
        }
        k += 1;
    }
    false
}

/// The report about an unused fragment: it points at the `fragment`
/// keyword; when the fragment is the only definition of a block with a
/// declaration, the fix removes the declaration and the span is file-level.
pub open spec fn unused_report(i: FragmentInfoView) -> FileDiagnosticView {
    let label = "Remove unused fragment '"@ + i.0 + "'"@;
    let message = "Fragment \""@ + i.0 + "\" is never used."@;
    let (span, fix) = match i.5 {
        Some(decl) => if i.6 == 1 {
            (
                SourceSpan {
                    start: (i.2.byte_offset + i.3) as usize,
                    end: (i.2.byte_offset + i.3 + FRAGMENT_KEYWORD_LEN) as usize,
                    line_offset: 0,
                    byte_offset: 0,
                },
                (label, seq![(decl.0 as int, decl.1 as int, Seq::<char>::empty())]),
            )
        } else {
            (
                SourceSpan { start: i.3, end: (i.3 + FRAGMENT_KEYWORD_LEN) as usize, ..i.2 },
                (label, seq![(i.3 as int, i.4 as int, Seq::<char>::empty())]),
            )
        },
        None => (
            SourceSpan { start: i.3, end: (i.3 + FRAGMENT_KEYWORD_LEN) as usize, ..i.2 },
            (label, seq![(i.3 as int, i.4 as int, Seq::<char>::empty())]),
        ),
    };
    (i.1, (span, LintSeverity::Warning, message, "noUnusedFragments"@, Some(fix)))
}

/// The reports about the fragments `infos` that no definition of `files` spreads.
pub open spec fn unused_reports(infos: Seq<FragmentInfoView>, files: Seq<DocumentFile>) -> Seq<FileDiagnosticView>
    decreases infos.len(),
{
    if infos.len() == 0 {
        seq![]
    } else {
        unused_reports(infos.drop_last(), files) + if project_uses(files, infos.last().0) {
            seq![]
        } else {
            seq![unused_report(infos.last())]
        }
    }
}

fn unused_diagnostic(i: &FragmentInfo) -> (d: LintDiagnostic)
    requires
        info_fits(i.view()),
    ensures
        (i.file_id, d.view()) == unused_report(i.view()),
{
    let mut label = "Remove unused fragment '".to_owned();
    label.append(i.name.as_str());
    label.append("'");
    let mut message = "Fragment \"".to_owned();
    message.append(i.name.as_str());
    message.append("\" is never used.");
    let (span, fix) = match i.declaration_range {
        Some(decl) if i.block_def_count == 1 => {
            let b = i.name_span.byte_offset;
            (
                SourceSpan { start: b + i.def_start, end: b + i.def_start + FRAGMENT_KEYWORD_LEN, line_offset: 0, byte_offset: 0 },
                CodeFix::delete(label.as_str(), decl.0, decl.1),
            )
        },
        _ => (
            SourceSpan { start: i.def_start, end: i.def_start + FRAGMENT_KEYWORD_LEN, ..i.name_span },
            CodeFix::delete(label.as_str(), i.def_start, i.def_end),
        ),
    };
    let d = LintDiagnostic::warning(span, message.as_str(), "noUnusedFragments").with_fix(fix);
    assert(fix.view().1 =~= unused_report(i.view()).1.4.unwrap().1);
    d
}

impl NoUnusedFragmentsRuleImpl {
    /// Reports every named fragment of `files` that no operation or
    /// fragment of `files` spreads, with a fix that removes it.
    pub fn check(&self, files: &Vec<DocumentFile>) -> (r: Vec<FileDiagnostic>)
        requires
            fragments_fit(files@),
        ensures
            file_diags_view(r@) == unused_reports(file_infos(files@), files@),
    {
        let infos = collect_fragments(files);
        let ghost iv = infos_view(infos@);
        let mut out: Vec<FileDiagnostic> = Vec::new();
        let mut k: usize = 0;
        assert(file_diags_view(out@) =~= unused_reports(iv.take(0), files@));
        while k < infos.len()
            invariant
                0 <= k <= iv.len(),
                iv == infos_view(infos@),
                infos_fit(iv),
                file_diags_view(out@) == unused_reports(iv.take(k as int), files@),
            decreases iv.len() - k,
        {
            assert(iv.take(k + 1).drop_last() =~= iv.take(k as int));
            assert(iv.take(k + 1).last() == infos@[k as int].view());
            let i = &infos[k];
            if !fragment_is_used(files, i.name.as_str()) {
                assert(info_fits(iv[k as int]));
                let d = unused_diagnostic(i);
                push_file_diag(&mut out, i.file_id, d);
            }
            k += 1;
        }
        assert(iv.take(k as int) =~= iv);
        out
    }
}

} // verus!
