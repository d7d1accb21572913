//! The `no_typename_prefix` lint rule.
use vstd::prelude::*;
use crate::diagnostics::LintSeverity;
use crate::schema::{
    file_diags_view, push_file_diag, warning_at, warning_view, FieldSignature, FileDiagnostic,
    FileDiagnosticView, TypeDef, TypeDefKind,
};
use crate::text::{lemma_encode_len, starts_with, str_byte_len, str_slice, str_starts_with, utf8_len};
use crate::unicode::{str_lowercase, to_lowercase};

verus! {

/// Lint rule that disallows field names prefixed with their type name
///
/// Fields like `User.userName` are redundant since the type context is
/// already known. Prefer `User.name` instead.
pub struct NoTypenamePrefixRuleImpl;

impl NoTypenamePrefixRuleImpl {
    /// The rule's identifier.
    pub fn name(&self) -> (s: &'static str)
        ensures
            s@ == "no_typename_prefix"@,
    {
        "no_typename_prefix"
    }

    /// What the rule checks.
    pub fn description(&self) -> (s: &'static str)
        ensures
            s@ == "Disallows field names that are prefixed with their parent type name"@,
    {
        "Disallows field names that are prefixed with their parent type name"
    }

    /// The severity the rule reports with unless configured otherwise.
    pub fn default_severity(&self) -> (s: LintSeverity)
        ensures
            s == LintSeverity::Warning,
    {
        LintSeverity::Warning
    }
}

/// Field `f` of type `t` starts with the type's name, compared in lower
/// case, and is longer than it (in bytes).
pub open spec fn has_type_prefix(t: TypeDef, f: FieldSignature) -> bool {
    let tl = str_lowercase(t.name@);
    let fl = str_lowercase(f.name@);
    starts_with(fl, tl) && utf8_len(fl) > utf8_len(tl)
}

/// The kinds of type whose fields the rule looks at.
pub open spec fn checked_kind(k: TypeDefKind) -> bool {
    k == TypeDefKind::Object || k == TypeDefKind::Interface || k == TypeDefKind::InputObject
}

/// Where the rule cuts a field name after the type name's byte length,
/// that length is a character boundary of the field name (elsewhere the
/// cut would panic).
pub open spec fn cuts_are_boundaries(types: Seq<TypeDef>) -> bool {
    forall|i: int, j: int| 0 <= i < types.len() && 0 <= j < types[i].fields@.len() && checked_kind(types[i].kind)
        && #[trigger] has_type_prefix(types[i], types[i].fields@[j])
        ==> utf8_len(types[i].name@) <= utf8_len(types[i].fields@[j].name@)
            && vstd::utf8::is_char_boundary(vstd::utf8::encode_utf8(types[i].fields@[j].name@), utf8_len(types[i].name@) as int)
}

/// The rest of field `f`'s name after as many bytes as `t`'s name has.
pub open spec fn suggested_name(t: TypeDef, f: FieldSignature) -> Seq<char> {
    vstd::utf8::decode_utf8(vstd::utf8::encode_utf8(f.name@).subrange(utf8_len(t.name@) as int, utf8_len(f.name@) as int))
}

/// Reports about the fields `fs` of `t` that repeat the type's name.
pub open spec fn prefix_reports(t: TypeDef, fs: Seq<FieldSignature>) -> Seq<FileDiagnosticView>
    decreases fs.len(),
{
    if fs.len() == 0 {
        seq![]
    } else {
        let f = fs.last();
        prefix_reports(t, fs.drop_last()) + if has_type_prefix(t, f) {
            seq![(t.file_id, warning_view(f.name_range,
                "Field '"@ + f.name@ + "' on type '"@ + t.name@ + "' starts with the type name. Consider renaming to '"@
                    + suggested_name(t, f) + "'."@,
                "no_typename_prefix"@))]
        } else {
            seq![]
        }
    }
}

/// Reports about the object, interface and input object types among `ts`.
pub open spec fn types_prefix_reports(ts: Seq<TypeDef>) -> Seq<FileDiagnosticView>
    decreases ts.len(),
{
    if ts.len() == 0 {
        seq![]
    } else {
        let t = ts.last();
        types_prefix_reports(ts.drop_last()) + if checked_kind(t.kind) { prefix_reports(t, t.fields@) } else { seq![] }
    }
}

impl NoTypenamePrefixRuleImpl {
    /// Reports the fields whose names start with their type's name.
    pub fn check(&self, types: &Vec<TypeDef>) -> (r: Vec<FileDiagnostic>)
        requires
            cuts_are_boundaries(types@),
        ensures
            file_diags_view(r@) == types_prefix_reports(types@),
    {
        let mut out: Vec<FileDiagnostic> = Vec::new();
        let mut k: usize = 0;
        while k < types.len()
            invariant
                0 <= k <= types@.len(),
                cuts_are_boundaries(types@),
                file_diags_view(out@) == types_prefix_reports(types@.take(k as int)),
            decreases types@.len() - k,
        {
            let t = &types[k];
            assert(types@.take(k + 1).drop_last() =~= types@.take(k as int));
            let ghost mid = file_diags_view(out@);
            if t.kind == TypeDefKind::Object || t.kind == TypeDefKind::Interface || t.kind == TypeDefKind::InputObject {
                let tl = to_lowercase(t.name.as_str());
                let tl_len = str_byte_len(tl.as_str());
                let mut j: usize = 0;
                while j < t.fields.len()
                    invariant
                        0 <= j <= t.fields@.len(),
                        k < types@.len(),
                        *t == types@[k as int],
                        checked_kind(t.kind),
                        cuts_are_boundaries(types@),
                        tl@ == str_lowercase(t.name@),
                        tl_len == utf8_len(tl@),
                        file_diags_view(out@) == mid + prefix_reports(*t, t.fields@.take(j as int)),
                    decreases t.fields@.len() - j,
                {
                    let f = &t.fields[j];
                    assert(t.fields@.take(j + 1).drop_last() =~= t.fields@.take(j as int));
                    let fl = to_lowercase(f.name.as_str());
                    if str_starts_with(fl.as_str(), tl.as_str()) && str_byte_len(fl.as_str()) > tl_len {
                        assert(has_type_prefix(types@[k as int], types@[k as int].fields@[j as int]));
                        let tn = str_byte_len(t.name.as_str());
                        let fnl = str_byte_len(f.name.as_str());
                        proof {
                            lemma_encode_len(f.name@);
                            vstd::utf8::encode_utf8_valid_utf8(f.name@);
                            vstd::utf8::is_char_boundary_start_end_of_seq(vstd::utf8::encode_utf8(f.name@));
                        }
                        let rest = str_slice(f.name.as_str(), tn, fnl);
                        proof {
                            vstd::utf8::encode_utf8_decode_utf8(rest@);
                        }
                        let mut m = "Field '".to_owned();
                        m.append(f.name.as_str());
                        m.append("' on type '");
                        m.append(t.name.as_str());
                        m.append("' starts with the type name. Consider renaming to '");
                        m.append(rest);
                        m.append("'.");
                        push_file_diag(&mut out, t.file_id, warning_at(f.name_range, m.as_str(), "no_typename_prefix"));
                    } else {
                        assert(file_diags_view(out@) =~= file_diags_view(out@) + seq![]);
                    }
                    j += 1;
                }
                assert(t.fields@.take(j as int) =~= t.fields@);
            } else {
                assert(file_diags_view(out@) =~= mid + seq![]);
            }
            k += 1;
        }
        assert(types@.take(k as int) =~= types@);
        out
    }
}

} // verus!
