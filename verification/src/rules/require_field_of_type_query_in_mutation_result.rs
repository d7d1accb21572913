//! The `require_field_of_type_query_in_mutation_result` lint rule.
use vstd::prelude::*;
use crate::diagnostics::LintSeverity;
use crate::schema::{
    file_diags_view, find_type, push_file_diag, type_index, warning_at, warning_view, FieldSignature,
    FileDiagnostic, FileDiagnosticView, TypeDef, TypeDefKind,
};
use crate::text::str_eq;

verus! {

/// Lint rule that requires mutation result types to include a Query field
///
/// When mutation results include a field that returns the Query type,
/// clients can refetch any data they need in a single round trip after
/// the mutation completes.
pub struct RequireFieldOfTypeQueryInMutationResultRuleImpl;

impl RequireFieldOfTypeQueryInMutationResultRuleImpl {
    /// The rule's identifier.
    pub fn name(&self) -> (s: &'static str)
        ensures
            s@ == "require_field_of_type_query_in_mutation_result"@,
    {
        "require_field_of_type_query_in_mutation_result"
    }

    /// What the rule checks.
    pub fn description(&self) -> (s: &'static str)
        ensures
            s@ == "Requires mutation result types to include a field of the Query type"@,
    {
        "Requires mutation result types to include a field of the Query type"
    }

    /// The severity the rule reports with unless configured otherwise.
    pub fn default_severity(&self) -> (s: LintSeverity)
        ensures
            s == LintSeverity::Warning,
    {
        LintSeverity::Warning
    }
}

/// Reports about the fields `fs` of the mutation type `m`: each whose
/// return type is an object type with no field of the query type `q`.
pub open spec fn mutation_fields_reports(types: Seq<TypeDef>, m: TypeDef, q: Seq<char>, fs: Seq<FieldSignature>) -> Seq<FileDiagnosticView>
    decreases fs.len(),
{
    if fs.len() == 0 {
        seq![]
    } else {
        let f = fs.last();
        let rt = f.type_ref.name@;
        mutation_fields_reports(types, m, q, fs.drop_last()) + match type_index(types, rt) {
            Some(i) => if types[i].kind == TypeDefKind::Object
                && !(exists|k: int| 0 <= k < types[i].fields@.len() && (#[trigger] types[i].fields@[k]).type_ref.name@ == q) {
                seq![(m.file_id, warning_view(f.name_range,
                    "Mutation field '"@ + f.name@ + "' result type '"@ + rt + "' should include a field of type '"@ + q + "'"@,
                    "require_field_of_type_query_in_mutation_result"@))]
            } else {
                seq![]
            },
            None => seq![],
        }
    }
}

/// What the rule reports: nothing unless both root types are named and the
/// mutation type exists; else the reports about its fields.
pub open spec fn spec_query_in_mutation_check(types: Seq<TypeDef>, query: Option<String>, mutation: Option<String>) -> Seq<FileDiagnosticView> {
    match (mutation, query) {
        (Some(mn), Some(qn)) => match type_index(types, mn@) {
            Some(i) => mutation_fields_reports(types, types[i], qn@, types[i].fields@),
            None => seq![],
        },
        _ => seq![],
    }
}

fn has_field_of_type(t: &TypeDef, q: &str) -> (r: bool)
    ensures
        r == exists|k: int| 0 <= k < t.fields@.len() && (#[trigger] t.fields@[k]).type_ref.name@ == q@,
{
    let mut k: usize = 0;
    while k < t.fields.len()
        invariant
            0 <= k <= t.fields@.len(),
            forall|j: int| 0 <= j < k ==> (#[trigger] t.fields@[j]).type_ref.name@ != q@,
        decreases t.fields@.len() - k,
    {
        if str_eq(t.fields[k].type_ref.name.as_str(), q) {
            return true;
        }
        k += 1;
    }
    false
}

impl RequireFieldOfTypeQueryInMutationResultRuleImpl {
    /// Reports the fields of the mutation root type whose object result
    /// type has no field of the query root type.
    pub fn check(&self, types: &Vec<TypeDef>, query: &Option<String>, mutation: &Option<String>) -> (r: Vec<FileDiagnostic>)
        ensures
            file_diags_view(r@) == spec_query_in_mutation_check(types@, *query, *mutation),
    {
        let mut out: Vec<FileDiagnostic> = Vec::new();
        let (mn, qn) = match (mutation, query) {
            (Some(mn), Some(qn)) => (mn, qn),
            _ => return out,
        };
        let mi = match find_type(types, mn.as_str()) {
            Some(i) => i,
            None => return out,
        };
        let m = &types[mi];
        let mut k: usize = 0;
        while k < m.fields.len()
            invariant
                0 <= k <= m.fields@.len(),
                mi < types@.len(),
                *m == types@[mi as int],
                file_diags_view(out@) == mutation_fields_reports(types@, *m, qn@, m.fields@.take(k as int)),
            decreases m.fields@.len() - k,
        {
            let f = &m.fields[k];
            assert(m.fields@.take(k + 1).drop_last() =~= m.fields@.take(k as int));
            let ghost before = file_diags_view(out@);
            let rt = f.type_ref.name.as_str();
            match find_type(types, rt) {
                Some(i) => {
                    if types[i].kind == TypeDefKind::Object && !has_field_of_type(&types[i], qn.as_str()) {
                        let mut msg = "Mutation field '".to_owned();
                        msg.append(f.name.as_str());
                        msg.append("' result type '");
                        msg.append(rt);
                        msg.append("' should include a field of type '");
                        msg.append(qn.as_str());
                        msg.append("'");
                        push_file_diag(&mut out, m.file_id, warning_at(f.name_range, msg.as_str(), "require_field_of_type_query_in_mutation_result"));
                    } else {
                        assert(file_diags_view(out@) =~= before + seq![]);
                    }
                },
                None => {
                    assert(file_diags_view(out@) =~= before + seq![]);
                },
            }
            k += 1;
        }
        assert(m.fields@.take(k as int) =~= m.fields@);
        out
    }
}

} // verus!
