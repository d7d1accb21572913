//! The `no_anonymous_operations` lint rule.
use vstd::prelude::*;
use crate::diagnostics::{diags_view, CodeFix, DiagnosticView, LintDiagnostic, LintSeverity, TextEdit};
use crate::document::{braces_fit, push_diag, Definition, ExecutableDocument, OperationDefinition, Selection};

verus! {

/// Lint rule that requires all GraphQL operations to have explicit names
///
/// Anonymous operations are allowed by the GraphQL specification but are
/// discouraged in production code. Named operations provide several benefits:
/// - Better monitoring and debugging (operation names appear in logs and APM tools)
/// - Improved caching strategies in GraphQL clients
/// - Self-documenting code that describes what each operation does
/// - Easier security auditing and operation tracking
///
/// Example:
/// ```graphql
/// # Bad - anonymous operation
/// query {
///   user {
///     id
///     name
///   }
/// }
///
/// # Good - named operation
/// query GetUser {
///   user {
///     id
///     name
///   }
/// }
/// ```
pub struct NoAnonymousOperationsRuleImpl;

impl NoAnonymousOperationsRuleImpl {
    /// The rule's identifier.
    pub fn name(&self) -> (s: &'static str)
        ensures
            s@ == "no_anonymous_operations"@,
    {
        "no_anonymous_operations"
    }

    /// What the rule checks.
    pub fn description(&self) -> (s: &'static str)
        ensures
            s@ == "Requires all operations to have explicit names for better monitoring and debugging"@,
    {
        "Requires all operations to have explicit names for better monitoring and debugging"
    }

    /// The severity the rule reports with unless configured otherwise.
    pub fn default_severity(&self) -> (s: LintSeverity)
        ensures
            s == LintSeverity::Error,
    {
        LintSeverity::Error
    }
}

/// The name that the fix proposes for an anonymous operation: the alias or
/// name of its first selection when that is a field; else its keyword.
pub open spec fn suggested_name(op: OperationDefinition) -> Seq<char> {
    let fallback = op.kind.spec_keyword();
    match op.selection_set {
        Some(ss) => if ss.selections@.len() > 0 {
            match ss.selections@[0] {
                Selection::Field(f) => match f.alias {
                    Some(a) => a.value@,
                    None => match f.name {
                        Some(n) => n.value@,
                        None => fallback,
                    },
                },
                _ => fallback,
            }
        } else {
            fallback
        },
        None => fallback,
    }
}

/// Where the report about an anonymous operation points: its keyword; for
/// the shorthand form, the opening brace of its selection set.
pub open spec fn anonymous_range(op: OperationDefinition) -> (usize, usize) {
    match op.keyword_range {
        Some(r) => (r.start, r.end),
        None => match op.selection_set {
            Some(ss) => (ss.range.start, (ss.range.start + 1) as usize),
            None => (0, 1),
        },
    }
}

/// The fix for an anonymous operation: insert the suggested name after the
/// keyword, or `query <name> ` before the shorthand's brace.
pub open spec fn anonymous_fix(op: OperationDefinition) -> (Seq<char>, Seq<(int, int, Seq<char>)>) {
    let n = suggested_name(op);
    let label = "Rename to `"@ + n + "`"@;
    match op.keyword_range {
        Some(r) => (label, seq![(r.end as int, r.end as int, " "@ + n)]),
        None => {
            let at = match op.selection_set {
                Some(ss) => ss.range.start as int,
                None => 0int,
            };
            (label, seq![(at, at, "query "@ + n + " "@)])
        },
    }
}

/// The report about operation `op` of `doc` when it has no name.
pub open spec fn anonymous_report(doc: ExecutableDocument, op: OperationDefinition) -> Seq<DiagnosticView> {
    if op.name is Some {
        seq![]
    } else {
        let (start, end) = anonymous_range(op);
        seq![(
            doc.spec_span(start, end),
            LintSeverity::Error,
            "Anonymous GraphQL operations are forbidden. Make sure to name your "@ + op.kind.spec_keyword() + "!"@,
            "noAnonymousOperations"@,
            Some(anonymous_fix(op)),
        )]
    }
}

/// The reports about the definitions `defs` of `doc`.
pub open spec fn anonymous_reports(doc: ExecutableDocument, defs: Seq<Definition>) -> Seq<DiagnosticView>
    decreases defs.len(),
{
    if defs.len() == 0 {
        seq![]
    } else {
        anonymous_reports(doc, defs.drop_last()) + match defs.last() {
            Definition::Operation(op) => anonymous_report(doc, op),
            _ => seq![],
        }
    }
}

fn suggested_name_exec(op: &OperationDefinition) -> (r: String)
    ensures
        r@ == suggested_name(*op),
{
    let fallback = op.kind.keyword();
    if let Some(ss) = &op.selection_set {
        if ss.selections.len() > 0 {
            if let Selection::Field(f) = &ss.selections[0] {
                if let Some(a) = &f.alias {
                    return a.value.clone();
                }
                if let Some(n) = &f.name {
                    return n.value.clone();
                }
            }
        }
    }
    fallback.to_owned()
}

/// Reports `op` when it has no name, with a fix that names it after its
/// first field (or its kind).
pub fn check_operation_has_name(op: &OperationDefinition, doc: &ExecutableDocument, out: &mut Vec<LintDiagnostic>)
    requires
        op.selection_set matches Some(ss) ==> ss.range.start < ss.range.end,
    ensures
        diags_view(final(out)@) == diags_view(old(out)@) + anonymous_report(*doc, *op),
{
    if op.name.is_some() {
        assert(diags_view(out@) =~= diags_view(out@) + seq![]);
        return;
    }
    let label = op.kind.keyword();
    let (start, end) = match op.keyword_range {
        Some(r) => (r.start, r.end),
        None => match &op.selection_set {
            Some(ss) => (ss.range.start, ss.range.start + 1),
            None => (0, 1),
        },
    };
    let mut message = "Anonymous GraphQL operations are forbidden. Make sure to name your ".to_owned();
    message.append(label);
    message.append("!");
    let name = suggested_name_exec(op);
    let mut fix_label = "Rename to `".to_owned();
    fix_label.append(name.as_str());
    fix_label.append("`");
    let (at, text) = match op.keyword_range {
        Some(r) => {
            let mut t = " ".to_owned();
            t.append(name.as_str());
            (r.end, t)
        },
        None => {
            let at = match &op.selection_set {
                Some(ss) => ss.range.start,
                None => 0,
            };
            let mut t = "query ".to_owned();
            t.append(name.as_str());
            t.append(" ");
            (at, t)
        },
    };
    let mut edits: Vec<TextEdit> = Vec::new();
    edits.push(TextEdit::new(at, at, text.as_str()));
    let fix = CodeFix::new(fix_label.as_str(), edits);
    assert(fix.view() == anonymous_fix(*op));
    let d = LintDiagnostic::new(doc.span(start, end), LintSeverity::Error, message.as_str(), "noAnonymousOperations").with_fix(fix);
    push_diag(out, d);
}

impl NoAnonymousOperationsRuleImpl {
    /// Reports every operation of `doc` that has no name.
    pub fn check(&self, doc: &ExecutableDocument) -> (r: Vec<LintDiagnostic>)
        requires
            braces_fit(doc.definitions@),
        ensures
            diags_view(r@) == anonymous_reports(*doc, doc.definitions@),
    {
        let mut out: Vec<LintDiagnostic> = Vec::new();
        let mut k: usize = 0;
        assert(diags_view(out@) =~= Seq::<DiagnosticView>::empty());
        while k < doc.definitions.len()
            invariant
                0 <= k <= doc.definitions@.len(),
                braces_fit(doc.definitions@),
                diags_view(out@) == anonymous_reports(*doc, doc.definitions@.take(k as int)),
            decreases doc.definitions@.len() - k,
        {
            assert(doc.definitions@.take(k + 1).drop_last() =~= doc.definitions@.take(k as int));
            match &doc.definitions[k] {
                Definition::Operation(op) => {
                    assert(braces_fit(doc.definitions@));
                    check_operation_has_name(op, doc, &mut out);
                },
                _ => {
                    assert(diags_view(out@) =~= diags_view(out@) + seq![]);
                },
            }
            k += 1;
        }
        assert(doc.definitions@.take(k as int) =~= doc.definitions@);
        out
    }
}

} // verus!
