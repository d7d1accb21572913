//! The `no_duplicate_fields` lint rule.
use vstd::prelude::*;
use crate::diagnostics::{diags_view, DiagnosticView, LintDiagnostic, LintSeverity};
use crate::document::{plain_view, push_diag, Definition, ExecutableDocument, FieldSelection, Name, Selection, SelectionSet};
use crate::schema::{contains_str, names_contain};

verus! {

/// Lint rule that detects duplicate fields in selection sets
///
/// When the same field (with the same alias) is selected multiple times in a
/// selection set, it's usually a mistake. This rule reports such duplicates.
///
/// Example:
/// ```graphql
/// # Bad - duplicate field
/// query GetUser {
///   user {
///     id
///     name
///     name  # duplicate
///   }
/// }
///
/// # Good - no duplicates
/// query GetUser {
///   user {
///     id
///     name
///   }
/// }
/// ```
pub struct NoDuplicateFieldsRuleImpl;

impl NoDuplicateFieldsRuleImpl {
    /// The rule's identifier.
    pub fn name(&self) -> (s: &'static str)
        ensures
            s@ == "no_duplicate_fields"@,
    {
        "no_duplicate_fields"
    }

    /// What the rule checks.
    pub fn description(&self) -> (s: &'static str)
        ensures
            s@ == "Disallows duplicate fields within the same selection set"@,
    {
        "Disallows duplicate fields within the same selection set"
    }

    /// The severity the rule reports with unless configured otherwise.
    pub fn default_severity(&self) -> (s: LintSeverity)
        ensures
            s == LintSeverity::Warning,
    {
        LintSeverity::Warning
    }
}

/// The name a field is answered under, as written: its alias when it has
/// one, else its name.
pub open spec fn response_name(f: FieldSelection) -> Option<Name> {
    match f.alias {
        Some(a) => Some(a),
        None => f.name,
    }
}

/// Some field among the first `k` selections of `sels` is answered under `n`.
pub open spec fn answered_before(sels: Seq<Selection>, k: int, n: Seq<char>) -> bool {
    exists|j: int| 0 <= j < k && #[trigger] field_answers(sels[j], n)
}

/// `s` is a field answered under `n`.
pub open spec fn field_answers(s: Selection, n: Seq<char>) -> bool {
    match s {
        Selection::Field(f) => match response_name(f) {
            Some(m) => m.value@ == n,
            None => false,
        },
        _ => false,
    }
}

/// The report about a field answered under a name already taken.
pub open spec fn duplicate_view(doc: ExecutableDocument, m: Name) -> DiagnosticView {
    plain_view(
        doc.spec_span(m.range.start, m.range.end),
        LintSeverity::Warning,
        "Field '"@ + m.value@ + "' is already selected in this selection set"@,
        "no_duplicate_fields"@,
    )
}

/// The reports about the selections `sels` of one selection set, each
/// field checked against those before it, nested sets checked on their own.
pub open spec fn duplicate_reports(doc: ExecutableDocument, sels: Seq<Selection>) -> Seq<DiagnosticView>
    decreases sels,
{
    if sels.len() == 0 {
        seq![]
    } else {
        let k = sels.len() - 1;
        duplicate_reports(doc, sels.subrange(0, k)) + match sels[k] {
            Selection::Field(f) => {
                (match response_name(f) {
                    Some(m) => if answered_before(sels, k, m.value@) {
                        seq![duplicate_view(doc, m)]
                    } else {
                        seq![]
                    },
                    None => seq![],
                }) + match f.selection_set {
                    Some(ss) => duplicate_reports(doc, ss.selections@),
                    None => seq![],
                }
            },
            Selection::InlineFragment(i) => match i.selection_set {
                Some(ss) => duplicate_reports(doc, ss.selections@),
                None => seq![],
            },
            Selection::FragmentSpread(_) => seq![],
        }
    }
}

/// The name `f` is answered under, if any.
fn response_name_of(f: &FieldSelection) -> (r: Option<&Name>)
    ensures
        r matches Some(m) ==> response_name(*f) == Some(*m),
        r is None ==> response_name(*f) is None,
{
    match &f.alias {
        Some(a) => Some(a),
        None => match &f.name {
            Some(n) => Some(n),
            None => None,
        },
    }
}

proof fn lemma_answered_before_prefix(sels: Seq<Selection>, k: int)
    requires
        0 <= k < sels.len(),
    ensures
        forall|n: Seq<char>| answered_before(sels.subrange(0, k + 1), k, n) == answered_before(sels, k, n),
        forall|n: Seq<char>| #[trigger] answered_before(sels, k + 1, n)
            == (answered_before(sels, k, n) || field_answers(sels[k], n)),
{
    let sub = sels.subrange(0, k + 1);
    assert forall|n: Seq<char>| answered_before(sub, k, n) == answered_before(sels, k, n) by {
        if answered_before(sub, k, n) {
            let j = choose|j: int| 0 <= j < k && #[trigger] field_answers(sub[j], n);
            assert(sub[j] == sels[j]);
        }
        if answered_before(sels, k, n) {
            let j = choose|j: int| 0 <= j < k && #[trigger] field_answers(sels[j], n);
            assert(sub[j] == sels[j]);
        }
    }
    assert forall|n: Seq<char>| #[trigger] answered_before(sels, k + 1, n)
        == (answered_before(sels, k, n) || field_answers(sels[k], n)) by {
        if answered_before(sels, k + 1, n) {
            let j = choose|j: int| 0 <= j < k + 1 && #[trigger] field_answers(sels[j], n);
            if j < k {
                assert(answered_before(sels, k, n));
            }
        }
        if field_answers(sels[k], n) {
            assert(answered_before(sels, k + 1, n));
        }
        if answered_before(sels, k, n) {
            let j = choose|j: int| 0 <= j < k && #[trigger] field_answers(sels[j], n);
            assert(answered_before(sels, k + 1, n));
        }
    }
}

/// Reports every field of `ss` answered under a name that an earlier field
/// of the same set already took, then does the same inside each nested set.
pub fn check_selection_set(ss: &SelectionSet, doc: &ExecutableDocument, out: &mut Vec<LintDiagnostic>)
    ensures
        diags_view(final(out)@) == diags_view(old(out)@) + duplicate_reports(*doc, ss.selections@),
    decreases ss,
{
    let ghost start = diags_view(out@);
    let ghost sels = ss.selections@;
    let mut seen: Vec<String> = Vec::new();
    let mut k: usize = 0;
    assert(diags_view(out@) =~= start + duplicate_reports(*doc, sels.subrange(0, 0)));
    while k < ss.selections.len()
        invariant
            0 <= k <= sels.len(),
            sels == ss.selections@,
            diags_view(out@) == start + duplicate_reports(*doc, sels.subrange(0, k as int)),
            forall|n: Seq<char>| names_contain(seen@, n) <==> answered_before(sels, k as int, n),
        decreases sels.len() - k,
    {
        proof {
            lemma_answered_before_prefix(sels, k as int);
            assert(sels.subrange(0, k + 1).subrange(0, k as int) =~= sels.subrange(0, k as int));
            assert(sels.subrange(0, k + 1)[k as int] == sels[k as int]);
        }
        let ghost before = diags_view(out@);
        match &ss.selections[k] {
            Selection::Field(f) => {
                let rn = response_name_of(f);
                let ghost mid = before;
                match rn {
                    Some(m) => {
                        if contains_str(&seen, m.value.as_str()) {
                            let mut message = "Field '".to_owned();
                            message.append(m.value.as_str());
                            message.append("' is already selected in this selection set");
                            let d = LintDiagnostic::new(doc.span(m.range.start, m.range.end), LintSeverity::Warning, message.as_str(), "no_duplicate_fields");
                            push_diag(out, d);
                            proof { mid = diags_view(out@); }
                            assert(mid == before + seq![duplicate_view(*doc, *m)]);
                        } else {
                            let ghost prev = seen@;
                            assert(forall|n: Seq<char>| names_contain(prev, n) <==> answered_before(sels, k as int, n));
                            seen.push(m.value.clone());
                            assert(seen@ == prev.push(seen@[prev.len() as int]));
                            assert forall|n: Seq<char>| names_contain(seen@, n) <==> answered_before(sels, k + 1, n) by {
                                if names_contain(seen@, n) {
                                    let j = choose|j: int| 0 <= j < seen@.len() && (#[trigger] seen@[j])@ == n;
                                    if j < prev.len() {
                                        assert(prev[j] == seen@[j]);
                                        assert(names_contain(prev, n));
                                    }
                                }
                                if answered_before(sels, k as int, n) {
                                    assert(names_contain(prev, n));
                                    let j = choose|j: int| 0 <= j < prev.len() && (#[trigger] prev[j])@ == n;
                                    assert(seen@[j] == prev[j]);
                                }
                                if field_answers(sels[k as int], n) {
                                    assert(seen@[prev.len() as int]@ == n);
                                }
                            }
                        }
                    },
                    None => {},
                }
                match &f.selection_set {
                    Some(nested) => {
                        check_selection_set(nested, doc, out);
                    },
                    None => {},
                }
                assert(diags_view(out@) == start + duplicate_reports(*doc, sels.subrange(0, k + 1)));
            },
            Selection::InlineFragment(i) => {
                match &i.selection_set {
                    Some(nested) => {
                        check_selection_set(nested, doc, out);
                    },
                    None => {},
                }
                assert(diags_view(out@) == start + duplicate_reports(*doc, sels.subrange(0, k + 1)));
            },
            Selection::FragmentSpread(_) => {
                assert(diags_view(out@) == start + duplicate_reports(*doc, sels.subrange(0, k + 1)));
            },
        }
        k += 1;
    }
    assert(sels.subrange(0, sels.len() as int) =~= sels);
}

/// The reports about the definitions `defs` of `doc`: each operation's and
/// each fragment's selection set checked in turn.
pub open spec fn duplicate_doc_reports(doc: ExecutableDocument, defs: Seq<Definition>) -> Seq<DiagnosticView>
    decreases defs.len(),
{
    if defs.len() == 0 {
        seq![]
    } else {
        duplicate_doc_reports(doc, defs.drop_last()) + match defs.last() {
            Definition::Operation(op) => match op.selection_set {
                Some(ss) => duplicate_reports(doc, ss.selections@),
                None => seq![],
            },
            Definition::Fragment(fr) => match fr.selection_set {
                Some(ss) => duplicate_reports(doc, ss.selections@),
                None => seq![],
            },
            Definition::TypeSystem { .. } => seq![],
        }
    }
}

impl NoDuplicateFieldsRuleImpl {
    /// Reports every field selected twice under one response name within a
    /// selection set, in every operation and fragment of `doc`.
    pub fn check(&self, doc: &ExecutableDocument) -> (r: Vec<LintDiagnostic>)
        ensures
            diags_view(r@) == duplicate_doc_reports(*doc, doc.definitions@),
    {
        let mut out: Vec<LintDiagnostic> = Vec::new();
        let mut k: usize = 0;
        assert(diags_view(out@) =~= Seq::<DiagnosticView>::empty());
        while k < doc.definitions.len()
            invariant
                0 <= k <= doc.definitions@.len(),
                diags_view(out@) == duplicate_doc_reports(*doc, doc.definitions@.take(k as int)),
            decreases doc.definitions@.len() - k,
        {
            assert(doc.definitions@.take(k + 1).drop_last() =~= doc.definitions@.take(k as int));
            match &doc.definitions[k] {
                Definition::Operation(op) => match &op.selection_set {
                    Some(ss) => check_selection_set(ss, doc, &mut out),
                    None => assert(diags_view(out@) =~= diags_view(out@) + seq![]),
                },
                Definition::Fragment(fr) => match &fr.selection_set {
                    Some(ss) => check_selection_set(ss, doc, &mut out),
                    None => assert(diags_view(out@) =~= diags_view(out@) + seq![]),
                },
                _ => assert(diags_view(out@) =~= diags_view(out@) + seq![]),
            }
            k += 1;
        }
        assert(doc.definitions@.take(k as int) =~= doc.definitions@);
        out
    }
}

} // verus!
