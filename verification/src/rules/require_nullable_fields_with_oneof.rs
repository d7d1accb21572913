//! The `requireNullableFieldsWithOneof` lint rule.
use vstd::prelude::*;
use crate::diagnostics::{LintDiagnostic, LintSeverity, SourceSpan};
use crate::schema::{
    file_diags_view, find_usage, push_file_diag, span_of, usage_index, FieldSignature, FileDiagnostic,
    FileDiagnosticView, TypeDef, TypeDefKind,
};

verus! {

/// Lint rule that requires all fields in `@oneOf` input types to be nullable.
///
/// The `@oneOf` directive indicates that exactly one field must be provided,
/// meaning all fields must be optional (nullable). Non-null fields would
/// prevent valid `@oneOf` usage.
pub struct RequireNullableFieldsWithOneofRuleImpl;

impl RequireNullableFieldsWithOneofRuleImpl {
    /// The rule's identifier.
    pub fn name(&self) -> (s: &'static str)
        ensures
            s@ == "requireNullableFieldsWithOneof"@,
    {
        "requireNullableFieldsWithOneof"
    }

    /// What the rule checks.
    pub fn description(&self) -> (s: &'static str)
        ensures
            s@ == "Requires all fields in @oneOf input types to be nullable"@,
    {
        "Requires all fields in @oneOf input types to be nullable"
    }

    /// The severity the rule reports with unless configured otherwise.
    pub fn default_severity(&self) -> (s: LintSeverity)
        ensures
            s == LintSeverity::Error,
    {
        LintSeverity::Error
    }
}

/// Reports about the non-null fields among `fs` of the `@oneOf` input type `t`.
pub open spec fn non_null_fields_reports(t: TypeDef, fs: Seq<FieldSignature>) -> Seq<FileDiagnosticView>
    decreases fs.len(),
{
    if fs.len() == 0 {
        seq![]
    } else {
        let f = fs.last();
        non_null_fields_reports(t, fs.drop_last()) + if f.type_ref.is_non_null {
            seq![(t.file_id, (span_of(f.name_range), LintSeverity::Error,
                "Field '"@ + f.name@ + "' on @oneOf input type '"@ + t.name@
                    + "' must be nullable. @oneOf requires exactly one field to be provided, so all fields must be optional."@,
                "requireNullableFieldsWithOneof"@, None))]
        } else {
            seq![]
        }
    }
}

/// Reports about the input object types among `ts` that carry `@oneOf`.
pub open spec fn oneof_reports(ts: Seq<TypeDef>) -> Seq<FileDiagnosticView>
    decreases ts.len(),
{
    if ts.len() == 0 {
        seq![]
    } else {
        let t = ts.last();
        oneof_reports(ts.drop_last()) + if t.kind == TypeDefKind::InputObject && usage_index(t.directives@, "oneOf"@) is Some {
            non_null_fields_reports(t, t.fields@)
        } else {
            seq![]
        }
    }
}

impl RequireNullableFieldsWithOneofRuleImpl {
    /// Reports every non-null field of an input object type that carries `@oneOf`.
    pub fn check(&self, types: &Vec<TypeDef>) -> (r: Vec<FileDiagnostic>)
        ensures
            file_diags_view(r@) == oneof_reports(types@),
    {
        let mut out: Vec<FileDiagnostic> = Vec::new();
        let mut k: usize = 0;
        while k < types.len()
            invariant
                0 <= k <= types@.len(),
                file_diags_view(out@) == oneof_reports(types@.take(k as int)),
            decreases types@.len() - k,
        {
            let t = &types[k];
            assert(types@.take(k + 1).drop_last() =~= types@.take(k as int));
            let ghost mid = file_diags_view(out@);
            if t.kind == TypeDefKind::InputObject && find_usage(&t.directives, "oneOf").is_some() {
                let mut j: usize = 0;
                while j < t.fields.len()
                    invariant
                        0 <= j <= t.fields@.len(),
                        file_diags_view(out@) == mid + non_null_fields_reports(*t, t.fields@.take(j as int)),
                    decreases t.fields@.len() - j,
                {
                    let f = &t.fields[j];
                    assert(t.fields@.take(j + 1).drop_last() =~= t.fields@.take(j as int));
                    if f.type_ref.is_non_null {
                        let mut m = "Field '".to_owned();
                        m.append(f.name.as_str());
                        m.append("' on @oneOf input type '");
                        m.append(t.name.as_str());
                        m.append("' must be nullable. @oneOf requires exactly one field to be provided, so all fields must be optional.");
                        let d = LintDiagnostic::new(SourceSpan::new(f.name_range.start, f.name_range.end), LintSeverity::Error,
                            m.as_str(), "requireNullableFieldsWithOneof");
                        push_file_diag(&mut out, t.file_id, d);
                    } else {
                        assert(file_diags_view(out@) =~= file_diags_view(out@) + seq![]);
                    }
                    j += 1;
                }
                assert(t.fields@.take(j as int) =~= t.fields@);
            } else {
                assert(file_diags_view(out@) =~= mid + seq![]);
            }
            k += 1;
        }
        assert(types@.take(k as int) =~= types@);
        out
    }
}

} // verus!
