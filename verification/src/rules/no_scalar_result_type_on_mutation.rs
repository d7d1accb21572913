//! The `no_scalar_result_type_on_mutation` lint rule.
use vstd::prelude::*;
use crate::diagnostics::LintSeverity;
use crate::schema::{
    builtin_scalar, file_diags_view, find_type, is_builtin_scalar, push_file_diag, type_index,
    warning_at, warning_view, FieldSignature, FileDiagnostic, FileDiagnosticView, TypeDef, TypeDefKind,
};

verus! {

/// Lint rule that disallows scalar return types on mutation fields
///
/// Mutations that return scalar types (like Boolean or String) are a GraphQL
/// anti-pattern. They make it impossible for clients to refetch or normalize
/// the mutation result. Mutations should return object types instead.
pub struct NoScalarResultTypeOnMutationRuleImpl;

impl NoScalarResultTypeOnMutationRuleImpl {
    /// The rule's identifier.
    pub fn name(&self) -> (s: &'static str)
        ensures
            s@ == "no_scalar_result_type_on_mutation"@,
    {
        "no_scalar_result_type_on_mutation"
    }

    /// What the rule checks.
    pub fn description(&self) -> (s: &'static str)
        ensures
            s@ == "Disallows scalar return types on mutation fields"@,
    {
        "Disallows scalar return types on mutation fields"
    }

    /// The severity the rule reports with unless configured otherwise.
    pub fn default_severity(&self) -> (s: LintSeverity)
        ensures
            s == LintSeverity::Warning,
    {
        LintSeverity::Warning
    }
}

/// A return type that counts as scalar: a built-in scalar or a scalar type
/// of the schema.
pub open spec fn scalar_return(types: Seq<TypeDef>, n: Seq<char>) -> bool {
    builtin_scalar(n) || match type_index(types, n) {
        Some(i) => types[i].kind == TypeDefKind::Scalar,
        None => false,
    }
}

/// Reports about the fields `fs` of the mutation type `m` that return scalars.
pub open spec fn scalar_fields_reports(types: Seq<TypeDef>, m: TypeDef, fs: Seq<FieldSignature>) -> Seq<FileDiagnosticView>
    decreases fs.len(),
{
    if fs.len() == 0 {
        seq![]
    } else {
        let f = fs.last();
        scalar_fields_reports(types, m, fs.drop_last()) + if scalar_return(types, f.type_ref.name@) {
            seq![(m.file_id, warning_view(f.name_range,
                "Mutation field '"@ + f.name@ + "' returns scalar type '"@ + f.type_ref.name@ + "'. Mutations should return object types."@,
                "no_scalar_result_type_on_mutation"@))]
        } else {
            seq![]
        }
    }
}

/// What the rule reports: the scalar-returning fields of the mutation root
/// type, when it is named and exists.
pub open spec fn spec_scalar_mutation_check(types: Seq<TypeDef>, mutation: Option<String>) -> Seq<FileDiagnosticView> {
    match mutation {
        Some(mn) => match type_index(types, mn@) {
            Some(i) => scalar_fields_reports(types, types[i], types[i].fields@),
            None => seq![],
        },
        None => seq![],
    }
}

impl NoScalarResultTypeOnMutationRuleImpl {
    /// Reports the fields of the mutation root type that return a scalar.
    pub fn check(&self, types: &Vec<TypeDef>, mutation: &Option<String>) -> (r: Vec<FileDiagnostic>)
        ensures
            file_diags_view(r@) == spec_scalar_mutation_check(types@, *mutation),
    {
        let mut out: Vec<FileDiagnostic> = Vec::new();
        let mn = match mutation {
            Some(mn) => mn,
            None => return out,
        };
        let mi = match find_type(types, mn.as_str()) {
            Some(i) => i,
            None => return out,
        };
        let m = &types[mi];
        let mut k: usize = 0;
        while k < m.fields.len()
            invariant
                0 <= k <= m.fields@.len(),
                mi < types@.len(),
                *m == types@[mi as int],
                file_diags_view(out@) == scalar_fields_reports(types@, *m, m.fields@.take(k as int)),
            decreases m.fields@.len() - k,
        {
            let f = &m.fields[k];
            assert(m.fields@.take(k + 1).drop_last() =~= m.fields@.take(k as int));
            let rt = f.type_ref.name.as_str();
            let is_scalar = is_builtin_scalar(rt) || match find_type(types, rt) {
                Some(i) => types[i].kind == TypeDefKind::Scalar,
                None => false,
            };
            if is_scalar {
                let mut msg = "Mutation field '".to_owned();
                msg.append(f.name.as_str());
                msg.append("' returns scalar type '");
                msg.append(rt);
                msg.append("'. Mutations should return object types.");
                push_file_diag(&mut out, m.file_id, warning_at(f.name_range, msg.as_str(), "no_scalar_result_type_on_mutation"));
            } else {
                assert(file_diags_view(out@) =~= file_diags_view(out@) + seq![]);
            }
            k += 1;
        }
        assert(m.fields@.take(k as int) =~= m.fields@);
        out
    }
}

} // verus!
