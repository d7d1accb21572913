//! The `relayArguments` lint rule.
use vstd::prelude::*;
use crate::diagnostics::LintSeverity;
use crate::schema::{
    argument_index, builtin_scalar, file_diags_view, find_argument, find_type, is_builtin_scalar,
    push_file_diag, type_index, warning_at, warning_view, FieldSignature, FileDiagnostic,
    FileDiagnosticView, TypeDef, TypeDefKind, TypeRef,
};
use crate::text::{ends_with, str_ends_with, str_eq};

verus! {

/// Lint rule that enforces Relay-compliant pagination arguments on connection fields
///
/// Fields returning a type whose name ends with "Connection" must include the
/// proper pagination arguments: `first`/`after` (forward), `last`/`before`
/// (backward), or both.
pub struct RelayArgumentsRuleImpl;

impl RelayArgumentsRuleImpl {
    /// The rule's identifier.
    pub fn name(&self) -> (s: &'static str)
        ensures
            s@ == "relayArguments"@,
    {
        "relayArguments"
    }

    /// What the rule checks.
    pub fn description(&self) -> (s: &'static str)
        ensures
            s@ == "Enforce Relay-compliant pagination arguments on connection fields"@,
    {
        "Enforce Relay-compliant pagination arguments on connection fields"
    }

    /// The severity the rule reports with unless configured otherwise.
    pub fn default_severity(&self) -> (s: LintSeverity)
        ensures
            s == LintSeverity::Warning,
    {
        LintSeverity::Warning
    }
}

/// Options for the `relayArguments` rule.
#[derive(Debug, Clone, Copy)]
pub struct RelayArgumentsOptions {
    /// Require both forward (`first`/`after`) and backward (`last`/`before`)
    /// pagination arguments; when false, either pair suffices.
    pub include_both: bool,
}

impl Default for RelayArgumentsOptions {
    fn default() -> (r: Self)
        ensures
            r.include_both,
    {
        RelayArgumentsOptions { include_both: true }
    }
}

/// What type a pagination argument is expected to have.
#[derive(Debug, Clone, Copy, PartialEq, Eq, Structural)]
pub enum ExpectedType {
    /// `first`/`last`: exactly `Int`.
    Int,
    /// `after`/`before`: `String` or any scalar.
    StringOrScalar,
}

impl ExpectedType {
    pub open spec fn spec_label(self) -> Seq<char> {
        match self {
            ExpectedType::Int => "Int"@,
            ExpectedType::StringOrScalar => "String or Scalar"@,
        }
    }

    /// The expected type as messages name it.
    pub fn return_type_label(self) -> (r: &'static str)
        ensures
            r@ == self.spec_label(),
    {
        match self {
            ExpectedType::Int => "Int",
            ExpectedType::StringOrScalar => "String or Scalar",
        }
    }
}

/// An argument type is allowed: not a list, and `Int` for `first`/`last`,
/// `String`, a built-in scalar or a scalar type for `after`/`before`.
pub open spec fn spec_allowed_arg_type(types: Seq<TypeDef>, t: TypeRef, expected: ExpectedType) -> bool {
    !t.is_list && match expected {
        ExpectedType::Int => t.name@ == "Int"@,
        ExpectedType::StringOrScalar => t.name@ == "String"@ || builtin_scalar(t.name@) || match type_index(types, t.name@) {
            Some(k) => types[k].kind == TypeDefKind::Scalar,
            None => false,
        },
    }
}

/// Whether an argument of type `t` is allowed where `expected` is.
pub fn is_allowed_arg_type(t: &TypeRef, expected: ExpectedType, types: &Vec<TypeDef>) -> (r: bool)
    ensures
        r == spec_allowed_arg_type(types@, *t, expected),
{
    if t.is_list {
        return false;
    }
    let n = t.name.as_str();
    match expected {
        ExpectedType::Int => str_eq(n, "Int"),
        ExpectedType::StringOrScalar => {
            if str_eq(n, "String") || is_builtin_scalar(n) {
                return true;
            }
            match find_type(types, n) {
                Some(k) => types[k].kind == TypeDefKind::Scalar,
                None => false,
            }
        },
    }
}

pub open spec fn missing_arguments_message() -> Seq<char> {
    "A field that returns a Connection type must include forward pagination arguments (`first` and `after`), backward pagination arguments (`last` and `before`), or both."@
}

/// The report, if any, about pagination argument `name` of field `f`.
pub open spec fn argument_report(types: Seq<TypeDef>, f: FieldSignature, name: Seq<char>, expected: ExpectedType) -> Seq<FileDiagnosticView> {
    match argument_index(f.arguments@, name) {
        None => seq![(f.file_id, warning_view(f.name_range,
            "Field `"@ + f.name@ + "` must contain an argument `"@ + name + "`, that return "@ + expected.spec_label() + "."@,
            "relayArguments"@))],
        Some(i) => if spec_allowed_arg_type(types, f.arguments@[i].type_ref, expected) {
            seq![]
        } else {
            seq![(f.file_id, warning_view(f.arguments@[i].name_range,
                "Argument `"@ + name + "` must return "@ + expected.spec_label() + "."@, "relayArguments"@))]
        },
    }
}

/// Reports about a field `f` that returns a connection type: one report
/// when it has neither full pagination pair; else the checks of each
/// argument of each pair that is required (both pairs with `include_both`,
/// else the pairs of which an argument is present).
pub open spec fn connection_field_reports(types: Seq<TypeDef>, o: RelayArgumentsOptions, f: FieldSignature) -> Seq<FileDiagnosticView> {
    let first = argument_index(f.arguments@, "first"@);
    let after = argument_index(f.arguments@, "after"@);
    let last = argument_index(f.arguments@, "last"@);
    let before = argument_index(f.arguments@, "before"@);
    let forward = first is Some && after is Some;
    let backward = last is Some && before is Some;
    if !forward && !backward {
        seq![(f.file_id, warning_view(f.name_range, missing_arguments_message(), "relayArguments"@))]
    } else {
        (if o.include_both || first is Some || after is Some {
            argument_report(types, f, "first"@, ExpectedType::Int) + argument_report(types, f, "after"@, ExpectedType::StringOrScalar)
        } else {
            seq![]
        }) + (if o.include_both || last is Some || before is Some {
            argument_report(types, f, "last"@, ExpectedType::Int) + argument_report(types, f, "before"@, ExpectedType::StringOrScalar)
        } else {
            seq![]
        })
    }
}

/// Reports about the fields among `fs` that return connection types.
pub open spec fn fields_reports(types: Seq<TypeDef>, o: RelayArgumentsOptions, fs: Seq<FieldSignature>) -> Seq<FileDiagnosticView>
    decreases fs.len(),
{
    if fs.len() == 0 {
        seq![]
    } else {
        fields_reports(types, o, fs.drop_last())
            + if ends_with(fs.last().type_ref.name@, "Connection"@) { connection_field_reports(types, o, fs.last()) } else { seq![] }
    }
}

/// Reports about the object and interface types among `ts`.
pub open spec fn types_reports(types: Seq<TypeDef>, o: RelayArgumentsOptions, ts: Seq<TypeDef>) -> Seq<FileDiagnosticView>
    decreases ts.len(),
{
    if ts.len() == 0 {
        seq![]
    } else {
        let t = ts.last();
        types_reports(types, o, ts.drop_last())
            + if t.kind == TypeDefKind::Object || t.kind == TypeDefKind::Interface { fields_reports(types, o, t.fields@) } else { seq![] }
    }
}

fn report_argument(types: &Vec<TypeDef>, f: &FieldSignature, name: &str, expected: ExpectedType, out: &mut Vec<FileDiagnostic>)
    ensures
        file_diags_view(final(out)@) == file_diags_view(old(out)@) + argument_report(types@, *f, name@, expected),
{
    let label = expected.return_type_label();
    match find_argument(&f.arguments, name) {
        None => {
            let mut m = "Field `".to_owned();
            m.append(f.name.as_str());
            m.append("` must contain an argument `");
            m.append(name);
            m.append("`, that return ");
            m.append(label);
            m.append(".");
            push_file_diag(out, f.file_id, warning_at(f.name_range, m.as_str(), "relayArguments"));
        },
        Some(i) => {
            if !is_allowed_arg_type(&f.arguments[i].type_ref, expected, types) {
                let mut m = "Argument `".to_owned();
                m.append(name);
                m.append("` must return ");
                m.append(label);
                m.append(".");
                push_file_diag(out, f.file_id, warning_at(f.arguments[i].name_range, m.as_str(), "relayArguments"));
            } else {
                assert(file_diags_view(out@) =~= file_diags_view(out@) + seq![]);
            }
        },
    }
}

fn report_connection_field(types: &Vec<TypeDef>, o: &RelayArgumentsOptions, f: &FieldSignature, out: &mut Vec<FileDiagnostic>)
    ensures
        file_diags_view(final(out)@) == file_diags_view(old(out)@) + connection_field_reports(types@, *o, *f),
{
    let ghost before = file_diags_view(out@);
    let first = find_argument(&f.arguments, "first");
    let after = find_argument(&f.arguments, "after");
    let last = find_argument(&f.arguments, "last");
    let before_arg = find_argument(&f.arguments, "before");
    let forward = first.is_some() && after.is_some();
    let backward = last.is_some() && before_arg.is_some();
    if !forward && !backward {
        push_file_diag(out, f.file_id, warning_at(f.name_range,
            "A field that returns a Connection type must include forward pagination arguments (`first` and `after`), backward pagination arguments (`last` and `before`), or both.",
            "relayArguments"));
        return;
    }
    if o.include_both || first.is_some() || after.is_some() {
        report_argument(types, f, "first", ExpectedType::Int, out);
        report_argument(types, f, "after", ExpectedType::StringOrScalar, out);
    }
    let ghost mid = file_diags_view(out@);
    if o.include_both || last.is_some() || before_arg.is_some() {
        report_argument(types, f, "last", ExpectedType::Int, out);
        report_argument(types, f, "before", ExpectedType::StringOrScalar, out);
    }
    assert(file_diags_view(out@) =~= before + mid.subrange(before.len() as int, mid.len() as int)
        + file_diags_view(out@).subrange(mid.len() as int, file_diags_view(out@).len() as int));
}

impl RelayArgumentsRuleImpl {
    /// Checks the pagination arguments of every field of an object or
    /// interface type of `types` that returns a connection type.
    pub fn check(&self, types: &Vec<TypeDef>, options: &RelayArgumentsOptions) -> (r: Vec<FileDiagnostic>)
        ensures
            file_diags_view(r@) == types_reports(types@, *options, types@),
    {
        let mut out: Vec<FileDiagnostic> = Vec::new();
        let mut k: usize = 0;
        while k < types.len()
            invariant
                0 <= k <= types@.len(),
                file_diags_view(out@) == types_reports(types@, *options, types@.take(k as int)),
            decreases types@.len() - k,
        {
            let t = &types[k];
            assert(types@.take(k + 1).drop_last() =~= types@.take(k as int));
            let ghost mid = file_diags_view(out@);
            if t.kind == TypeDefKind::Object || t.kind == TypeDefKind::Interface {
                let mut j: usize = 0;
                while j < t.fields.len()
                    invariant
                        0 <= j <= t.fields@.len(),
                        file_diags_view(out@) == mid + fields_reports(types@, *options, t.fields@.take(j as int)),
                    decreases t.fields@.len() - j,
                {
                    let f = &t.fields[j];
                    assert(t.fields@.take(j + 1).drop_last() =~= t.fields@.take(j as int));
                    if str_ends_with(f.type_ref.name.as_str(), "Connection") {
                        report_connection_field(types, options, f, &mut out);
                    } else {
                        assert(file_diags_view(out@) =~= file_diags_view(out@) + seq![]);
                    }
                    j += 1;
                }
                assert(t.fields@.take(j as int) =~= t.fields@);
            } else {
                assert(file_diags_view(out@) =~= mid + seq![]);
            }
            k += 1;
        }
        assert(types@.take(k as int) =~= types@);
        out
    }
}

} // verus!
