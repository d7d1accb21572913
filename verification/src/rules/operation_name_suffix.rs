//! The `operation_name_suffix` lint rule.
use vstd::prelude::*;
use crate::diagnostics::{diags_view, DiagnosticView, LintDiagnostic, LintSeverity};
use crate::document::{plain_view, push_diag, Definition, ExecutableDocument, OperationDefinition};
use crate::rules::OperationKind;
use crate::text::{ends_with, str_ends_with};

verus! {

/// Trait implementation for `operation_name_suffix` rule
///
/// GraphQL best practice recommends operation names end with Query, Mutation, or Subscription.
/// This makes it immediately clear what type of operation is being performed when reading code.
pub struct OperationNameSuffixRuleImpl;

impl OperationNameSuffixRuleImpl {
    /// The rule's identifier.
    pub fn name(&self) -> (s: &'static str)
        ensures
            s@ == "operation_name_suffix"@,
    {
        "operation_name_suffix"
    }

    /// What the rule checks.
    pub fn description(&self) -> (s: &'static str)
        ensures
            s@ == "Requires operation names to have type-specific suffixes (Query, Mutation, Subscription)"@,
    {
        "Requires operation names to have type-specific suffixes (Query, Mutation, Subscription)"
    }

    /// The severity the rule reports with unless configured otherwise.
    pub fn default_severity(&self) -> (s: LintSeverity)
        ensures
            s == LintSeverity::Warning,
    {
        LintSeverity::Warning
    }
}

/// The suffix a name of an operation of kind `k` should end with.
pub open spec fn expected_suffix(k: OperationKind) -> Seq<char> {
    match k {
        OperationKind::Query => "Query"@,
        OperationKind::Mutation => "Mutation"@,
        OperationKind::Subscription => "Subscription"@,
    }
}

fn expected_suffix_of(k: OperationKind) -> (s: &'static str)
    ensures
        s@ == expected_suffix(k),
{
    match k {
        OperationKind::Query => "Query",
        OperationKind::Mutation => "Mutation",
        OperationKind::Subscription => "Subscription",
    }
}

/// The report about operation `op` of `doc`: a named operation whose name
/// does not end with the suffix of its kind.
pub open spec fn suffix_report(doc: ExecutableDocument, op: OperationDefinition) -> Seq<DiagnosticView> {
    match op.name {
        Some(n) => {
            let sfx = expected_suffix(op.kind);
            if ends_with(n.value@, sfx) {
                seq![]
            } else {
                seq![plain_view(
                    doc.spec_span(n.range.start, n.range.end),
                    LintSeverity::Warning,
                    "Operation name '"@ + n.value@ + "' should end with '"@ + sfx
                        + "'. Consider renaming to '"@ + n.value@ + sfx + "'."@,
                    "operation_name_suffix"@,
                )]
            }
        },
        None => seq![],
    }
}

/// The reports about the definitions `defs` of `doc`.
pub open spec fn suffix_reports(doc: ExecutableDocument, defs: Seq<Definition>) -> Seq<DiagnosticView>
    decreases defs.len(),
{
    if defs.len() == 0 {
        seq![]
    } else {
        suffix_reports(doc, defs.drop_last()) + match defs.last() {
            Definition::Operation(op) => suffix_report(doc, op),
            _ => seq![],
        }
    }
}

impl OperationNameSuffixRuleImpl {
    /// Reports every named operation of `doc` whose name does not end with
    /// `Query`, `Mutation` or `Subscription` as its kind asks.
    pub fn check(&self, doc: &ExecutableDocument) -> (r: Vec<LintDiagnostic>)
        ensures
            diags_view(r@) == suffix_reports(*doc, doc.definitions@),
    {
        let mut out: Vec<LintDiagnostic> = Vec::new();
        let mut k: usize = 0;
        assert(diags_view(out@) =~= Seq::<DiagnosticView>::empty());
        while k < doc.definitions.len()
            invariant
                0 <= k <= doc.definitions@.len(),
                diags_view(out@) == suffix_reports(*doc, doc.definitions@.take(k as int)),
            decreases doc.definitions@.len() - k,
        {
            assert(doc.definitions@.take(k + 1).drop_last() =~= doc.definitions@.take(k as int));
            let ghost before = diags_view(out@);
            if let Definition::Operation(op) = &doc.definitions[k] {
                if let Some(n) = &op.name {
                    let sfx = expected_suffix_of(op.kind);
                    if !str_ends_with(n.value.as_str(), sfx) {
                        let mut message = "Operation name '".to_owned();
                        message.append(n.value.as_str());
                        message.append("' should end with '");
                        message.append(sfx);
                        message.append("'. Consider renaming to '");
                        message.append(n.value.as_str());
                        message.append(sfx);
                        message.append("'.");
                        let d = LintDiagnostic::new(doc.span(n.range.start, n.range.end), LintSeverity::Warning, message.as_str(), "operation_name_suffix");
                        push_diag(&mut out, d);
                    }
                }
            }
            assert(diags_view(out@) =~= before + match doc.definitions@[k as int] {
                Definition::Operation(op) => suffix_report(*doc, op),
                _ => seq![],
            });
            k += 1;
        }
        assert(doc.definitions@.take(k as int) =~= doc.definitions@);
        out
    }
}

/// The name that a report suggests (the operation's name followed by the
/// suffix of its kind) satisfies the rule.
pub proof fn law_suggested_name_has_suffix(name: Seq<char>, kind: OperationKind)
    ensures
        ends_with(name + expected_suffix(kind), expected_suffix(kind)),
{
    let sfx = expected_suffix(kind);
    let full = name + sfx;
    assert(full.subrange(full.len() - sfx.len(), full.len() as int) =~= sfx);
}

} // verus!
