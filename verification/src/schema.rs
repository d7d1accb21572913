//! A plain model of a GraphQL schema as the schema-side rules read it: type
//! definitions with their fields, arguments, enum values and directives, and
//! directive definitions, each with the byte range of its name.
use vstd::prelude::*;
use crate::diagnostics::{DiagnosticView, LintDiagnostic, LintSeverity, OffsetRange, SourceSpan};
use crate::text::{first_satisfying, lemma_first_satisfying_stable, str_eq};

verus! {

/// The kind of a type definition.
#[derive(Debug, Clone, Copy, PartialEq, Eq, Structural)]
pub enum TypeDefKind {
    Object,
    Interface,
    Union,
    Enum,
    Scalar,
    InputObject,
}

/// A reference to a named type, with its list and non-null wrappers.
#[derive(Debug, Clone)]
pub struct TypeRef {
    /// The innermost named type.
    pub name: String,
    /// The type is a list.
    pub is_list: bool,
    /// The outermost type is non-null.
    pub is_non_null: bool,
    /// Where the named type is written.
    pub name_range: OffsetRange,
}

/// An argument passed to an applied directive, its value as written.
#[derive(Debug, Clone)]
pub struct DirectiveArgument {
    pub name: String,
    /// The value's source text (a string value keeps its quotes).
    pub value: String,
    pub value_range: OffsetRange,
}

/// A directive applied to a definition.
#[derive(Debug, Clone)]
pub struct DirectiveUsage {
    pub name: String,
    pub name_range: OffsetRange,
    pub arguments: Vec<DirectiveArgument>,
}

/// An argument definition (on a field or a directive) or an input field.
#[derive(Debug, Clone)]
pub struct ArgumentDef {
    pub name: String,
    pub type_ref: TypeRef,
    pub directives: Vec<DirectiveUsage>,
    pub file_id: u64,
    pub name_range: OffsetRange,
    pub definition_range: OffsetRange,
    pub description: Option<String>,
    /// The argument carries `@deprecated`.
    pub is_deprecated: bool,
    /// The `reason` of its `@deprecated`, when given.
    pub deprecation_reason: Option<String>,
}

/// A field definition of an object, interface or input object type.
#[derive(Debug, Clone)]
pub struct FieldSignature {
    pub name: String,
    pub type_ref: TypeRef,
    pub arguments: Vec<ArgumentDef>,
    pub directives: Vec<DirectiveUsage>,
    pub file_id: u64,
    pub name_range: OffsetRange,
    pub definition_range: OffsetRange,
    pub description: Option<String>,
    /// The field carries `@deprecated`.
    pub is_deprecated: bool,
    /// The `reason` of its `@deprecated`, when given.
    pub deprecation_reason: Option<String>,
}

/// A value of an enum type.
#[derive(Debug, Clone)]
pub struct EnumValue {
    pub name: String,
    pub directives: Vec<DirectiveUsage>,
    pub name_range: OffsetRange,
    pub definition_range: OffsetRange,
    pub description: Option<String>,
    /// The value carries `@deprecated`.
    pub is_deprecated: bool,
    /// The `reason` of its `@deprecated`, when given.
    pub deprecation_reason: Option<String>,
}

/// A type definition, or one extension of a type.
#[derive(Debug, Clone)]
pub struct TypeDef {
    pub name: String,
    pub kind: TypeDefKind,
    pub file_id: u64,
    pub name_range: OffsetRange,
    pub definition_range: OffsetRange,
    pub fields: Vec<FieldSignature>,
    pub enum_values: Vec<EnumValue>,
    /// Interfaces the type implements.
    pub implements: Vec<String>,
    /// Member types of a union.
    pub union_members: Vec<String>,
    pub directives: Vec<DirectiveUsage>,
    pub description: Option<String>,
    /// The definition is an `extend ...` of a type.
    pub is_extension: bool,
}

/// A directive definition.
#[derive(Debug, Clone)]
pub struct DirectiveDef {
    pub name: String,
    pub arguments: Vec<ArgumentDef>,
    /// The directive may be used in executable documents (on an operation,
    /// field, fragment or variable).
    pub has_executable_location: bool,
    pub file_id: u64,
    pub name_range: OffsetRange,
    pub definition_range: OffsetRange,
    pub description: Option<String>,
}

/// A diagnostic together with the file it belongs to.
#[derive(Debug, Clone)]
pub struct FileDiagnostic {
    pub file_id: u64,
    pub diagnostic: LintDiagnostic,
}

/// A file diagnostic as plain values.
pub type FileDiagnosticView = (u64, DiagnosticView);

impl FileDiagnostic {
    pub open spec fn view(&self) -> FileDiagnosticView {
        (self.file_id, self.diagnostic.view())
    }
}

/// The views of a sequence of file diagnostics.
pub open spec fn file_diags_view(ds: Seq<FileDiagnostic>) -> Seq<FileDiagnosticView> {
    Seq::new(ds.len(), |k: int| ds[k].view())
}

/// A span over a definition's range in a plain GraphQL file.
pub open spec fn span_of(r: OffsetRange) -> SourceSpan {
    SourceSpan::new_spec(r.start, r.end)
}

/// A warning of rule `rule` over the range `r`, without a fix.
pub open spec fn warning_view(r: OffsetRange, message: Seq<char>, rule: Seq<char>) -> DiagnosticView {
    (span_of(r), LintSeverity::Warning, message, rule, None)
}

/// Builds a warning of rule `rule` over the range `r`.
pub fn warning_at(r: OffsetRange, message: &str, rule: &str) -> (d: LintDiagnostic)
    ensures
        d.view() == warning_view(r, message@, rule@),
{
    LintDiagnostic::new(SourceSpan::new(r.start, r.end), LintSeverity::Warning, message, rule)
}

/// Appends a diagnostic for `file_id`.
pub fn push_file_diag(out: &mut Vec<FileDiagnostic>, file_id: u64, diagnostic: LintDiagnostic)
    ensures
        file_diags_view(final(out)@) == file_diags_view(old(out)@).push((file_id, diagnostic.view())),
{
    let ghost before = file_diags_view(out@);
    let ghost dv = diagnostic.view();
    out.push(FileDiagnostic { file_id, diagnostic });
    assert(file_diags_view(out@) =~= before.push((file_id, dv)));
}

/// Index of the first field of `fs` named `n`.
pub open spec fn field_index(fs: Seq<FieldSignature>, n: Seq<char>) -> Option<int> {
    first_satisfying(fs.len() as int, |k: int| fs[k].name@ == n)
}

/// The first field of `fs` named `n`.
pub fn find_field(fs: &Vec<FieldSignature>, n: &str) -> (r: Option<usize>)
    ensures
        match (r, field_index(fs@, n@)) {
            (Some(i), Some(j)) => i == j,
            (None, None) => true,
            _ => false,
        },
        r matches Some(i) ==> i < fs@.len(),
{
    let ghost p = |k: int| fs@[k].name@ == n@;
    let mut k: usize = 0;
    while k < fs.len()
        invariant
            0 <= k <= fs@.len(),
            first_satisfying(k as int, p) is None,
            p == (|k: int| fs@[k].name@ == n@),
        decreases fs@.len() - k,
    {
        if str_eq(fs[k].name.as_str(), n) {
            proof {
                assert(p(k as int));
                assert(first_satisfying(k as int + 1, p) == Some(k as int));
                lemma_first_satisfying_stable(k as int + 1, fs@.len() as int, p);
            }
            return Some(k);
        }
        k += 1;
    }
    None
}

/// Some type of `types` is named `n` and has kind `kind`.
pub open spec fn has_type_of_kind(types: Seq<TypeDef>, n: Seq<char>, kind: TypeDefKind) -> bool {
    exists|i: int| 0 <= i < types.len() && (#[trigger] types[i]).name@ == n && types[i].kind == kind
}

/// Whether some type of `types` is named `n` and has kind `kind`.
pub fn type_of_kind_exists(types: &Vec<TypeDef>, n: &str, kind: TypeDefKind) -> (r: bool)
    ensures
        r == has_type_of_kind(types@, n@, kind),
{
    let mut k: usize = 0;
    while k < types.len()
        invariant
            0 <= k <= types@.len(),
            forall|i: int| 0 <= i < k ==> !((#[trigger] types@[i]).name@ == n@ && types@[i].kind == kind),
        decreases types@.len() - k,
    {
        if types[k].kind == kind && str_eq(types[k].name.as_str(), n) {
            return true;
        }
        k += 1;
    }
    false
}

/// The scalars that GraphQL defines.
pub open spec fn builtin_scalar(n: Seq<char>) -> bool {
    n == "String"@ || n == "Int"@ || n == "Float"@ || n == "Boolean"@ || n == "ID"@
}

/// Whether `n` names a scalar that GraphQL defines.
pub fn is_builtin_scalar(n: &str) -> (r: bool)
    ensures
        r == builtin_scalar(n@),
{
    str_eq(n, "String") || str_eq(n, "Int") || str_eq(n, "Float") || str_eq(n, "Boolean") || str_eq(n, "ID")
}

/// Index of the first type of `types` named `n` (the type a lookup by name
/// finds; names are unique among merged type definitions).
pub open spec fn type_index(types: Seq<TypeDef>, n: Seq<char>) -> Option<int> {
    first_satisfying(types.len() as int, |k: int| types[k].name@ == n)
}

/// The type of `types` named `n`.
pub fn find_type(types: &Vec<TypeDef>, n: &str) -> (r: Option<usize>)
    ensures
        match (r, type_index(types@, n@)) {
            (Some(i), Some(j)) => i == j,
            (None, None) => true,
            _ => false,
        },
        r matches Some(i) ==> i < types@.len(),
{
    let ghost p = |k: int| types@[k].name@ == n@;
    let mut k: usize = 0;
    while k < types.len()
        invariant
            0 <= k <= types@.len(),
            first_satisfying(k as int, p) is None,
            p == (|k: int| types@[k].name@ == n@),
        decreases types@.len() - k,
    {
        if str_eq(types[k].name.as_str(), n) {
            proof {
                assert(p(k as int));
                assert(first_satisfying(k as int + 1, p) == Some(k as int));
                lemma_first_satisfying_stable(k as int + 1, types@.len() as int, p);
            }
            return Some(k);
        }
        k += 1;
    }
    None
}

/// `n` is one of the strings `v`.
pub open spec fn names_contain(v: Seq<String>, n: Seq<char>) -> bool {
    exists|k: int| 0 <= k < v.len() && (#[trigger] v[k])@ == n
}

/// Whether `n` is one of the strings `v`.
pub fn contains_str(v: &Vec<String>, n: &str) -> (r: bool)
    ensures
        r == names_contain(v@, n@),
{
    let mut k: usize = 0;
    while k < v.len()
        invariant
            0 <= k <= v@.len(),
            forall|j: int| 0 <= j < k ==> (#[trigger] v@[j])@ != n@,
        decreases v@.len() - k,
    {
        if str_eq(v[k].as_str(), n) {
            return true;
        }
        k += 1;
    }
    false
}

/// Index of the first value of `vs` named `n`.
pub open spec fn enum_value_index(vs: Seq<EnumValue>, n: Seq<char>) -> Option<int> {
    first_satisfying(vs.len() as int, |k: int| vs[k].name@ == n)
}

/// The first value of `vs` named `n`.
pub fn find_enum_value(vs: &Vec<EnumValue>, n: &str) -> (r: Option<usize>)
    ensures
        match (r, enum_value_index(vs@, n@)) {
            (Some(i), Some(j)) => i == j,
            (None, None) => true,
            _ => false,
        },
        r matches Some(i) ==> i < vs@.len(),
{
    let ghost p = |k: int| vs@[k].name@ == n@;
    let mut k: usize = 0;
    while k < vs.len()
        invariant
            0 <= k <= vs@.len(),
            first_satisfying(k as int, p) is None,
            p == (|k: int| vs@[k].name@ == n@),
        decreases vs@.len() - k,
    {
        if str_eq(vs[k].name.as_str(), n) {
            proof {
                assert(p(k as int));
                assert(first_satisfying(k as int + 1, p) == Some(k as int));
                lemma_first_satisfying_stable(k as int + 1, vs@.len() as int, p);
            }
            return Some(k);
        }
        k += 1;
    }
    None
}

/// Index of the first argument of `args` named `n`.
pub open spec fn argument_index(args: Seq<ArgumentDef>, n: Seq<char>) -> Option<int> {
    first_satisfying(args.len() as int, |k: int| args[k].name@ == n)
}

/// The first argument of `args` named `n`.
pub fn find_argument(args: &Vec<ArgumentDef>, n: &str) -> (r: Option<usize>)
    ensures
        match (r, argument_index(args@, n@)) {
            (Some(i), Some(j)) => i == j,
            (None, None) => true,
            _ => false,
        },
        r matches Some(i) ==> i < args@.len(),
{
    let ghost p = |k: int| args@[k].name@ == n@;
    let mut k: usize = 0;
    while k < args.len()
        invariant
            0 <= k <= args@.len(),
            first_satisfying(k as int, p) is None,
            p == (|k: int| args@[k].name@ == n@),
        decreases args@.len() - k,
    {
        if str_eq(args[k].name.as_str(), n) {
            proof {
                assert(p(k as int));
                assert(first_satisfying(k as int + 1, p) == Some(k as int));
                lemma_first_satisfying_stable(k as int + 1, args@.len() as int, p);
            }
            return Some(k);
        }
        k += 1;
    }
    None
}

/// How messages name a kind of type definition.
pub open spec fn kind_display(k: TypeDefKind) -> Seq<char> {
    match k {
        TypeDefKind::Interface => "interface"@,
        TypeDefKind::Union => "union"@,
        TypeDefKind::Enum => "enum"@,
        TypeDefKind::Scalar => "scalar"@,
        TypeDefKind::InputObject => "input"@,
        TypeDefKind::Object => "type"@,
    }
}

/// Names a kind of type definition as messages do (`type`, `input`, ...).
pub fn type_def_kind_display(k: TypeDefKind) -> (r: &'static str)
    ensures
        r@ == kind_display(k),
{
    match k {
        TypeDefKind::Interface => "interface",
        TypeDefKind::Union => "union",
        TypeDefKind::Enum => "enum",
        TypeDefKind::Scalar => "scalar",
        TypeDefKind::InputObject => "input",
        TypeDefKind::Object => "type",
    }
}

/// Index of the first directive of `ds` named `n`.
pub open spec fn usage_index(ds: Seq<DirectiveUsage>, n: Seq<char>) -> Option<int> {
    first_satisfying(ds.len() as int, |k: int| ds[k].name@ == n)
}

/// The first directive of `ds` named `n`.
pub fn find_usage(ds: &Vec<DirectiveUsage>, n: &str) -> (r: Option<usize>)
    ensures
        match (r, usage_index(ds@, n@)) {
            (Some(i), Some(j)) => i == j,
            (None, None) => true,
            _ => false,
        },
        r matches Some(i) ==> i < ds@.len(),
{
    let ghost p = |k: int| ds@[k].name@ == n@;
    let mut k: usize = 0;
    while k < ds.len()
        invariant
            0 <= k <= ds@.len(),
            first_satisfying(k as int, p) is None,
            p == (|k: int| ds@[k].name@ == n@),
        decreases ds@.len() - k,
    {
        if str_eq(ds[k].name.as_str(), n) {
            proof {
                assert(p(k as int));
                assert(first_satisfying(k as int + 1, p) == Some(k as int));
                lemma_first_satisfying_stable(k as int + 1, ds@.len() as int, p);
            }
            return Some(k);
        }
        k += 1;
    }
    None
}

/// `f` is one of the file ids `ids`.
pub open spec fn has_file(ids: Seq<u64>, f: u64) -> bool {
    exists|k: int| 0 <= k < ids.len() && ids[k] == f
}

/// Whether `f` is one of the file ids `ids`.
pub fn contains_file(ids: &Vec<u64>, f: u64) -> (r: bool)
    ensures
        r == has_file(ids@, f),
{
    let mut k: usize = 0;
    while k < ids.len()
        invariant
            0 <= k <= ids@.len(),
            forall|j: int| 0 <= j < k ==> ids@[j] != f,
        decreases ids@.len() - k,
    {
        if ids[k] == f {
            return true;
        }
        k += 1;
    }
    false
}

} // verus!
