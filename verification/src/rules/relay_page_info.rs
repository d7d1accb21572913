//! The `relayPageInfo` lint rule.
use vstd::prelude::*;
use crate::diagnostics::{LintSeverity, OffsetRange};
use crate::schema::{
    builtin_scalar, field_index, file_diags_view, find_field, has_type_of_kind, is_builtin_scalar,
    push_file_diag, type_of_kind_exists, warning_at, warning_view, FieldSignature, FileDiagnostic,
    FileDiagnosticView, TypeDef, TypeDefKind,
};
use crate::text::str_eq;

verus! {

/// Lint rule that enforces the Relay specification for the `PageInfo` type.
///
/// The `PageInfo` type must contain the following fields with exact types:
/// - `hasPreviousPage: Boolean!`
/// - `hasNextPage: Boolean!`
/// - `startCursor: String`
/// - `endCursor: String`
pub struct RelayPageInfoRuleImpl;

impl RelayPageInfoRuleImpl {
    /// The rule's identifier.
    pub fn name(&self) -> (s: &'static str)
        ensures
            s@ == "relayPageInfo"@,
    {
        "relayPageInfo"
    }

    /// What the rule checks.
    pub fn description(&self) -> (s: &'static str)
        ensures
            s@ == "Enforces that the PageInfo type follows the Relay specification"@,
    {
        "Enforces that the PageInfo type follows the Relay specification"
    }

    /// The severity the rule reports with unless configured otherwise.
    pub fn default_severity(&self) -> (s: LintSeverity)
        ensures
            s == LintSeverity::Warning,
    {
        LintSeverity::Warning
    }
}

/// The fields that `PageInfo` must have: name, type, and whether it must be
/// non-null, for `k` from 0 to 3.
pub open spec fn required_field(k: int) -> (Seq<char>, Seq<char>, bool) {
    if k == 0 {
        ("hasPreviousPage"@, "Boolean"@, true)
    } else if k == 1 {
        ("hasNextPage"@, "Boolean"@, true)
    } else if k == 2 {
        ("startCursor"@, "String"@, false)
    } else {
        ("endCursor"@, "String"@, false)
    }
}

fn required_field_exec(k: usize) -> (r: (&'static str, &'static str, bool))
    requires
        k < 4,
    ensures
        (r.0@, r.1@, r.2) == required_field(k as int),
{
    if k == 0 {
        ("hasPreviousPage", "Boolean", true)
    } else if k == 1 {
        ("hasNextPage", "Boolean", true)
    } else if k == 2 {
        ("startCursor", "String", false)
    } else {
        ("endCursor", "String", false)
    }
}

/// What a required field must return, as messages say it.
pub open spec fn return_type_text(non_null: bool) -> Seq<char> {
    if non_null {
        "non-null Boolean"@
    } else {
        "either String or Scalar, which can be null if there are no results"@
    }
}

/// The field `f` has the type that required field `k` needs: exactly
/// `Boolean!` for the page flags; a nullable, non-list `String` or other
/// scalar for the cursors.
pub open spec fn field_type_matches(types: Seq<TypeDef>, f: FieldSignature, k: int) -> bool {
    let (_, expected_name, non_null) = required_field(k);
    let referent = f.type_ref.name@;
    if non_null {
        referent == expected_name && !f.type_ref.is_list && f.type_ref.is_non_null
    } else {
        !f.type_ref.is_list && !f.type_ref.is_non_null
            && (referent == expected_name || builtin_scalar(referent) || has_type_of_kind(types, referent, TypeDefKind::Scalar))
    }
}

/// The report, if any, for required field `k` on the `PageInfo` object `p`.
pub open spec fn required_field_report(types: Seq<TypeDef>, p: TypeDef, k: int) -> Seq<FileDiagnosticView> {
    let (name, _, non_null) = required_field(k);
    match field_index(p.fields@, name) {
        Some(i) => if field_type_matches(types, p.fields@[i], k) {
            seq![]
        } else {
            seq![(p.file_id, warning_view(p.fields@[i].name_range,
                "Field `"@ + name + "` must return "@ + return_type_text(non_null) + "."@, "relayPageInfo"@))]
        },
        None => seq![(p.file_id, warning_view(p.name_range,
            "`PageInfo` must contain a field `"@ + name + "`, that return "@ + return_type_text(non_null) + "."@, "relayPageInfo"@))],
    }
}

/// Reports for the required fields `0..k` on `p`.
pub open spec fn required_fields_reports(types: Seq<TypeDef>, p: TypeDef, k: int) -> Seq<FileDiagnosticView>
    decreases k,
{
    if k <= 0 {
        seq![]
    } else {
        required_fields_reports(types, p, k - 1) + required_field_report(types, p, k - 1)
    }
}

/// Reports for one declaration `p` of `PageInfo` (a definition or an
/// extension): it must be an object type with the four required fields.
pub open spec fn page_info_reports(types: Seq<TypeDef>, p: TypeDef) -> Seq<FileDiagnosticView> {
    if p.kind != TypeDefKind::Object {
        seq![(p.file_id, warning_view(p.name_range, "`PageInfo` must be an Object type."@, "relayPageInfo"@))]
    } else {
        required_fields_reports(types, p, 4)
    }
}

/// Reports for the declarations among `ds` that are named `PageInfo`.
pub open spec fn declarations_reports(types: Seq<TypeDef>, ds: Seq<TypeDef>) -> Seq<FileDiagnosticView>
    decreases ds.len(),
{
    if ds.len() == 0 {
        seq![]
    } else {
        declarations_reports(types, ds.drop_last())
            + if ds.last().name@ == "PageInfo"@ { page_info_reports(types, ds.last()) } else { seq![] }
    }
}

/// Some declaration among `ds` is named `PageInfo`.
pub open spec fn has_page_info(ds: Seq<TypeDef>) -> bool {
    exists|i: int| 0 <= i < ds.len() && (#[trigger] ds[i]).name@ == "PageInfo"@
}

/// What the rule reports: when no declaration is named `PageInfo`, one
/// warning at the start of the first schema file (if there is one); else
/// the reports of every `PageInfo` declaration, in order.
pub open spec fn spec_page_info_check(types: Seq<TypeDef>, raw_defs: Seq<TypeDef>, first_schema_file: Option<u64>) -> Seq<FileDiagnosticView> {
    if !has_page_info(raw_defs) {
        match first_schema_file {
            Some(f) => seq![(f, warning_view(OffsetRange { start: 0, end: 1 },
                "The server must provide a `PageInfo` object."@, "relayPageInfo"@))],
            None => seq![],
        }
    } else {
        declarations_reports(types, raw_defs)
    }
}

fn check_required_field(types: &Vec<TypeDef>, p: &TypeDef, k: usize, out: &mut Vec<FileDiagnostic>)
    requires
        k < 4,
    ensures
        file_diags_view(final(out)@) == file_diags_view(old(out)@) + required_field_report(types@, *p, k as int),
{
    let ghost before = file_diags_view(out@);
    let (name, expected_name, non_null) = required_field_exec(k);
    let prefix = if non_null {
        "non-null Boolean"
    } else {
        "either String or Scalar, which can be null if there are no results"
    };
    match find_field(&p.fields, name) {
        Some(i) => {
            let f = &p.fields[i];
            let referent = f.type_ref.name.as_str();
            let matches = if non_null {
                str_eq(referent, expected_name) && !f.type_ref.is_list && f.type_ref.is_non_null
            } else {
                !f.type_ref.is_list && !f.type_ref.is_non_null
                    && (str_eq(referent, expected_name) || is_builtin_scalar(referent)
                        || type_of_kind_exists(types, referent, TypeDefKind::Scalar))
            };
            if !matches {
                let mut m = "Field `".to_owned();
                m.append(name);
                m.append("` must return ");
                m.append(prefix);
                m.append(".");
                push_file_diag(out, p.file_id, warning_at(f.name_range, m.as_str(), "relayPageInfo"));
            } else {
                assert(file_diags_view(out@) =~= before + seq![]);
            }
        },
        None => {
            let mut m = "`PageInfo` must contain a field `".to_owned();
            m.append(name);
            m.append("`, that return ");
            m.append(prefix);
            m.append(".");
            push_file_diag(out, p.file_id, warning_at(p.name_range, m.as_str(), "relayPageInfo"));
        },
    }
}

impl RelayPageInfoRuleImpl {
    /// Checks the `PageInfo` declarations among `raw_defs` (every type
    /// definition and extension as written); `types` holds the merged type
    /// definitions, `first_schema_file` the first schema file, if any.
    pub fn check(&self, types: &Vec<TypeDef>, raw_defs: &Vec<TypeDef>, first_schema_file: Option<u64>) -> (r: Vec<FileDiagnostic>)
        ensures
            file_diags_view(r@) == spec_page_info_check(types@, raw_defs@, first_schema_file),
    {
        let mut out: Vec<FileDiagnostic> = Vec::new();
        let mut found = false;
        let mut d: usize = 0;
        while d < raw_defs.len()
            invariant
                0 <= d <= raw_defs@.len(),
                found == has_page_info(raw_defs@.take(d as int)),
                file_diags_view(out@) == declarations_reports(types@, raw_defs@.take(d as int)),
            decreases raw_defs@.len() - d,
        {
            let p = &raw_defs[d];
            assert(raw_defs@.take(d + 1).drop_last() =~= raw_defs@.take(d as int));
            assert(raw_defs@.take(d + 1)[d as int] == *p);
            if str_eq(p.name.as_str(), "PageInfo") {
                found = true;
                if p.kind != TypeDefKind::Object {
                    push_file_diag(&mut out, p.file_id, warning_at(p.name_range, "`PageInfo` must be an Object type.", "relayPageInfo"));
                } else {
                    let ghost base = file_diags_view(out@);
                    let mut k: usize = 0;
                    while k < 4
                        invariant
                            0 <= k <= 4,
                            file_diags_view(out@) == base + required_fields_reports(types@, *p, k as int),
                        decreases 4 - k,
                    {
                        check_required_field(types, p, k, &mut out);
                        k += 1;
                    }
                }
            } else {
                assert(file_diags_view(out@) =~= file_diags_view(out@) + seq![]);
                assert(has_page_info(raw_defs@.take(d + 1)) == has_page_info(raw_defs@.take(d as int))) by {
                    if has_page_info(raw_defs@.take(d + 1)) {
                        let i = choose|i: int| 0 <= i < d + 1 && (#[trigger] raw_defs@.take(d + 1)[i]).name@ == "PageInfo"@;
                        assert(raw_defs@.take(d as int)[i] == raw_defs@.take(d + 1)[i]);
                    }
                }
            }
            d += 1;
        }
        assert(raw_defs@.take(d as int) =~= raw_defs@);
        if !found {
            let mut fresh: Vec<FileDiagnostic> = Vec::new();
            if let Some(f) = first_schema_file {
                push_file_diag(&mut fresh, f, warning_at(OffsetRange { start: 0, end: 1 },
                    "The server must provide a `PageInfo` object.", "relayPageInfo"));
            }
            return fresh;
        }
        out
    }
}

} // verus!
