//! The `relayConnectionTypes` lint rule.
use vstd::prelude::*;
use crate::diagnostics::LintSeverity;
use crate::schema::{
    field_index, file_diags_view, find_field, push_file_diag, warning_at, warning_view, FileDiagnostic,
    FileDiagnosticView, TypeDef, TypeDefKind,
};
use crate::text::{ends_with, str_ends_with, str_eq};

verus! {

/// Lint rule that enforces Relay connection type conventions
///
/// Types whose names end in "Connection" must follow the Relay connection
/// specification:
/// - Must be an object type
/// - Must have an `edges` field that returns a list type
/// - Must have a `pageInfo` field that returns a non-null `PageInfo` type
pub struct RelayConnectionTypesRuleImpl;

impl RelayConnectionTypesRuleImpl {
    /// The rule's identifier.
    pub fn name(&self) -> (s: &'static str)
        ensures
            s@ == "relayConnectionTypes"@,
    {
        "relayConnectionTypes"
    }

    /// What the rule checks.
    pub fn description(&self) -> (s: &'static str)
        ensures
            s@ == "Enforces Relay connection type conventions on types ending in 'Connection'"@,
    {
        "Enforces Relay connection type conventions on types ending in 'Connection'"
    }

    /// The severity the rule reports with unless configured otherwise.
    pub fn default_severity(&self) -> (s: LintSeverity)
        ensures
            s == LintSeverity::Warning,
    {
        LintSeverity::Warning
    }
}

pub open spec fn edges_missing_message() -> Seq<char> {
    "Connection type must contain a field `edges` that return a list type."@
}

pub open spec fn page_info_missing_message() -> Seq<char> {
    "Connection type must contain a field `pageInfo` that return a non-null `PageInfo` Object type."@
}

/// Reports about one type `t` whose name ends with `Connection`: it must be
/// an object type, with a list field `edges` and a field `pageInfo` of
/// type `PageInfo!`.
pub open spec fn connection_type_reports(t: TypeDef) -> Seq<FileDiagnosticView> {
    let rule = "relayConnectionTypes"@;
    if t.kind != TypeDefKind::Object {
        seq![(t.file_id, warning_view(t.name_range, "Connection type must be an Object type."@, rule))]
    } else {
        (match field_index(t.fields@, "edges"@) {
            None => seq![(t.file_id, warning_view(t.name_range, edges_missing_message(), rule))],
            Some(i) => if t.fields@[i].type_ref.is_list {
                seq![]
            } else {
                seq![(t.file_id, warning_view(t.fields@[i].name_range, "`edges` field must return a list type."@, rule))]
            },
        }) + (match field_index(t.fields@, "pageInfo"@) {
            None => seq![(t.file_id, warning_view(t.name_range, page_info_missing_message(), rule))],
            Some(i) => if t.fields@[i].type_ref.name@ == "PageInfo"@ && t.fields@[i].type_ref.is_non_null {
                seq![]
            } else {
                seq![(t.file_id, warning_view(t.fields@[i].name_range, "`pageInfo` field must return a non-null `PageInfo` Object type."@, rule))]
            },
        })
    }
}

/// Reports about the types among `ts` whose names end with `Connection`.
pub open spec fn connection_types_reports(ts: Seq<TypeDef>) -> Seq<FileDiagnosticView>
    decreases ts.len(),
{
    if ts.len() == 0 {
        seq![]
    } else {
        connection_types_reports(ts.drop_last())
            + if ends_with(ts.last().name@, "Connection"@) { connection_type_reports(ts.last()) } else { seq![] }
    }
}

fn report_connection_type(t: &TypeDef, out: &mut Vec<FileDiagnostic>)
    ensures
        file_diags_view(final(out)@) == file_diags_view(old(out)@) + connection_type_reports(*t),
{
    let ghost before = file_diags_view(out@);
    if t.kind != TypeDefKind::Object {
        push_file_diag(out, t.file_id, warning_at(t.name_range, "Connection type must be an Object type.", "relayConnectionTypes"));
        return;
    }
    match find_field(&t.fields, "edges") {
        None => push_file_diag(out, t.file_id, warning_at(t.name_range,
            "Connection type must contain a field `edges` that return a list type.", "relayConnectionTypes")),
        Some(i) => {
            if !t.fields[i].type_ref.is_list {
                push_file_diag(out, t.file_id, warning_at(t.fields[i].name_range,
                    "`edges` field must return a list type.", "relayConnectionTypes"));
            }
        },
    }
    let ghost mid = file_diags_view(out@);
    match find_field(&t.fields, "pageInfo") {
        None => push_file_diag(out, t.file_id, warning_at(t.name_range,
            "Connection type must contain a field `pageInfo` that return a non-null `PageInfo` Object type.", "relayConnectionTypes")),
        Some(i) => {
            let f = &t.fields[i];
            if !str_eq(f.type_ref.name.as_str(), "PageInfo") || !f.type_ref.is_non_null {
                push_file_diag(out, t.file_id, warning_at(f.name_range,
                    "`pageInfo` field must return a non-null `PageInfo` Object type.", "relayConnectionTypes"));
            }
        },
    }
    assert(file_diags_view(out@) =~= before + mid.subrange(before.len() as int, mid.len() as int)
        + file_diags_view(out@).subrange(mid.len() as int, file_diags_view(out@).len() as int));
}

impl RelayConnectionTypesRuleImpl {
    /// Checks every type of `types` whose name ends with `Connection`.
    pub fn check(&self, types: &Vec<TypeDef>) -> (r: Vec<FileDiagnostic>)
        ensures
            file_diags_view(r@) == connection_types_reports(types@),
    {
        let mut out: Vec<FileDiagnostic> = Vec::new();
        let mut k: usize = 0;
        while k < types.len()
            invariant
                0 <= k <= types@.len(),
                file_diags_view(out@) == connection_types_reports(types@.take(k as int)),
            decreases types@.len() - k,
        {
            let t = &types[k];
            assert(types@.take(k + 1).drop_last() =~= types@.take(k as int));
            if str_ends_with(t.name.as_str(), "Connection") {
                report_connection_type(t, &mut out);
            } else {
                assert(file_diags_view(out@) =~= file_diags_view(out@) + seq![]);
            }
            k += 1;
        }
        assert(types@.take(k as int) =~= types@);
        out
    }
}

} // verus!
