//! The `noRootType` lint rule.
use vstd::prelude::*;
use crate::diagnostics::{CodeFix, LintDiagnostic, LintSeverity, SourceSpan};
use crate::schema::{
    file_diags_view, find_type, push_file_diag, span_of, type_index, FileDiagnostic, FileDiagnosticView,
    TypeDef,
};

verus! {

/// Lint rule that disallows certain root type definitions in the schema
///
/// Some projects may want to forbid specific root types. For example, a
/// read-only API might disallow `Mutation`, or a project that doesn't use
/// subscriptions might disallow `Subscription`.
pub struct NoRootTypeRuleImpl;

impl NoRootTypeRuleImpl {
    /// The rule's identifier.
    pub fn name(&self) -> (s: &'static str)
        ensures
            s@ == "noRootType"@,
    {
        "noRootType"
    }

    /// What the rule checks.
    pub fn description(&self) -> (s: &'static str)
        ensures
            s@ == "Disallows certain root type definitions in the schema"@,
    {
        "Disallows certain root type definitions in the schema"
    }

    /// The severity the rule reports with unless configured otherwise.
    pub fn default_severity(&self) -> (s: LintSeverity)
        ensures
            s == LintSeverity::Error,
    {
        LintSeverity::Error
    }
}

/// A root operation type.
#[derive(Debug, Clone, Copy, PartialEq, Eq, Structural)]
pub enum RootTypeKind {
    Query,
    Mutation,
    Subscription,
}

impl RootTypeKind {
    pub open spec fn spec_label(self) -> Seq<char> {
        match self {
            RootTypeKind::Query => "query"@,
            RootTypeKind::Mutation => "mutation"@,
            RootTypeKind::Subscription => "subscription"@,
        }
    }

    /// The kind as written in options (`query`, `mutation`, `subscription`).
    pub fn to_display_string(&self) -> (r: String)
        ensures
            r@ == self.spec_label(),
    {
        match self {
            RootTypeKind::Query => "query".to_owned(),
            RootTypeKind::Mutation => "mutation".to_owned(),
            RootTypeKind::Subscription => "subscription".to_owned(),
        }
    }
}

/// Options for the `noRootType` rule: the root types the schema may not define.
#[derive(Debug, Clone)]
pub struct NoRootTypeOptions {
    pub disallow: Vec<RootTypeKind>,
}

/// The names of the schema's root operation types.
#[derive(Debug, Clone)]
pub struct RootTypeNames {
    pub query: Option<String>,
    pub mutation: Option<String>,
    pub subscription: Option<String>,
}

impl RootTypeNames {
    pub open spec fn spec_name_of(&self, k: RootTypeKind) -> Option<String> {
        match k {
            RootTypeKind::Query => self.query,
            RootTypeKind::Mutation => self.mutation,
            RootTypeKind::Subscription => self.subscription,
        }
    }
}

/// The report about a forbidden root type `t` named `n`: at its name (its
/// whole definition when the name's range is empty), with a fix that
/// removes the definition.
pub open spec fn forbidden_report(t: TypeDef, n: Seq<char>) -> FileDiagnosticView {
    let r = if t.name_range.start == t.name_range.end { t.definition_range } else { t.name_range };
    (t.file_id, (
        span_of(r),
        LintSeverity::Error,
        "Root type `"@ + n + "` is forbidden."@,
        "noRootType"@,
        Some(("Remove `"@ + n + "` type"@, seq![(t.definition_range.start as int, t.definition_range.end as int, Seq::<char>::empty())])),
    ))
}

/// Reports for the disallowed kinds `ks`, in order: each whose root type
/// name is known and names a type of the schema.
pub open spec fn disallowed_reports(types: Seq<TypeDef>, roots: RootTypeNames, ks: Seq<RootTypeKind>) -> Seq<FileDiagnosticView>
    decreases ks.len(),
{
    if ks.len() == 0 {
        seq![]
    } else {
        disallowed_reports(types, roots, ks.drop_last()) + match roots.spec_name_of(ks.last()) {
            Some(n) => match type_index(types, n@) {
                Some(i) => seq![forbidden_report(types[i], n@)],
                None => seq![],
            },
            None => seq![],
        }
    }
}

/// What the rule reports: nothing without options; else the forbidden
/// root types that the schema defines.
pub open spec fn spec_no_root_type_check(options: Option<NoRootTypeOptions>, types: Seq<TypeDef>, roots: RootTypeNames) -> Seq<FileDiagnosticView> {
    match options {
        None => seq![],
        Some(o) => disallowed_reports(types, roots, o.disallow@),
    }
}

impl NoRootTypeRuleImpl {
    /// Reports each root type that the options disallow and the schema defines.
    pub fn check(&self, options: &Option<NoRootTypeOptions>, types: &Vec<TypeDef>, roots: &RootTypeNames) -> (r: Vec<FileDiagnostic>)
        ensures
            file_diags_view(r@) == spec_no_root_type_check(*options, types@, *roots),
    {
        let mut out: Vec<FileDiagnostic> = Vec::new();
        let o = match options {
            Some(o) => o,
            None => return out,
        };
        let mut k: usize = 0;
        while k < o.disallow.len()
            invariant
                0 <= k <= o.disallow@.len(),
                *options == Some(*o),
                file_diags_view(out@) == disallowed_reports(types@, *roots, o.disallow@.take(k as int)),
            decreases o.disallow@.len() - k,
        {
            let kind = o.disallow[k];
            assert(o.disallow@.take(k + 1).drop_last() =~= o.disallow@.take(k as int));
            let name = match kind {
                RootTypeKind::Query => &roots.query,
                RootTypeKind::Mutation => &roots.mutation,
                RootTypeKind::Subscription => &roots.subscription,
            };
            let ghost before = file_diags_view(out@);
            if let Some(n) = name {
                if let Some(i) = find_type(types, n.as_str()) {
                    let t = &types[i];
                    let r = if t.name_range.start == t.name_range.end { t.definition_range } else { t.name_range };
                    let mut m = "Root type `".to_owned();
                    m.append(n.as_str());
                    m.append("` is forbidden.");
                    let mut label = "Remove `".to_owned();
                    label.append(n.as_str());
                    label.append("` type");
                    let d = LintDiagnostic::new(SourceSpan::new(r.start, r.end), LintSeverity::Error, m.as_str(), "noRootType")
                        .with_fix(CodeFix::delete(label.as_str(), t.definition_range.start, t.definition_range.end));
                    assert(d.view().4 == forbidden_report(*t, n@).1.4);
                    push_file_diag(&mut out, t.file_id, d);
                } else {
                    assert(file_diags_view(out@) =~= before + seq![]);
                }
            } else {
                assert(file_diags_view(out@) =~= before + seq![]);
            }
            k += 1;
        }
        assert(o.disallow@.take(k as int) =~= o.disallow@);
        out
    }
}

} // verus!
