//! The `requireDescription` lint rule.
use vstd::prelude::*;
use vstd::string::StringSliceAdditionalSpecFns;
use crate::diagnostics::{diags_view, DiagnosticView, LintDiagnostic, LintSeverity, OffsetRange};
use crate::document::{plain_view, push_diag, Definition, ExecutableDocument, OperationDefinition};
use crate::pattern::{compile_regex, regex_compiles, regex_is_match, regex_matches};
use crate::schema::{
    builtin_scalar, contains_file, contains_str, file_diags_view, has_file, is_builtin_scalar,
    kind_display, names_contain, push_file_diag, type_def_kind_display, warning_at, warning_view,
    ArgumentDef, DirectiveDef, EnumValue, FieldSignature, FileDiagnostic, FileDiagnosticView, TypeDef,
    TypeDefKind,
};
use crate::text::{
    chars_to_string, copy_range, find_char_from, find_from, range_to_string, rfind_char_from,
    rfind_from, lemma_rfind_from_bounds, starts_with, str_eq, str_slice, str_starts_with, to_chars, trim_hi, trim_lo, trim_range,
    trim_start_index, first_satisfying, lemma_first_satisfying_stable, lemma_first_satisfying_bounds,
};

verus! {

/// Lint rule that requires descriptions on schema definitions and operations.
///
/// Descriptions serve as documentation for schema consumers and operation
/// readers. Mirrors `@graphql-eslint/eslint-plugin`'s `require-description`,
/// which fires on every AST node that can carry a `.description`:
/// type/interface/union/enum/scalar/input definitions, field definitions,
/// input value definitions (input fields and arguments), enum value
/// definitions, directive definitions, and operation definitions.
///
/// `OperationDefinition` description support uses the GraphQL `#` comment
/// immediately above the operation (operations don't have a syntactic
/// `description` slot in the spec).
pub struct RequireDescriptionRuleImpl;

impl RequireDescriptionRuleImpl {
    /// The rule's identifier.
    pub fn name(&self) -> (s: &'static str)
        ensures
            s@ == "requireDescription"@,
    {
        "requireDescription"
    }

    /// What the rule checks.
    pub fn description(&self) -> (s: &'static str)
        ensures
            s@ == "Requires descriptions on type definitions, fields, arguments, enum values, directives, and operations"@,
    {
        "Requires descriptions on type definitions, fields, arguments, enum values, directives, and operations"
    }

    /// The severity the rule reports with unless configured otherwise.
    pub fn default_severity(&self) -> (s: LintSeverity)
        ensures
            s == LintSeverity::Warning,
    {
        LintSeverity::Warning
    }
}

/// Options for the `requireDescription` rule: which kinds of definitions
/// need a description.
#[derive(Debug, Clone)]
pub struct RequireDescriptionOptions {
    /// Every type-definition kind, unless its own entry says otherwise.
    pub types: bool,
    pub object_type_definition: Option<bool>,
    pub interface_type_definition: Option<bool>,
    pub enum_type_definition: Option<bool>,
    pub scalar_type_definition: Option<bool>,
    pub input_object_type_definition: Option<bool>,
    pub union_type_definition: Option<bool>,
    /// Fields of the root operation types.
    pub root_field: bool,
    pub field_definition: bool,
    pub input_value_definition: bool,
    pub enum_value_definition: bool,
    pub directive_definition: bool,
    pub operation_definition: bool,
    /// Selectors `[type=Kind][name.value=X]` of type definitions to skip.
    pub ignored_selectors: Vec<String>,
}

impl Default for RequireDescriptionOptions {
    /// Every kind enabled, nothing ignored.
    fn default() -> (r: Self)
        ensures
            r.types && r.root_field && r.field_definition && r.input_value_definition,
            r.enum_value_definition && r.directive_definition && r.operation_definition,
            r.object_type_definition is None && r.interface_type_definition is None,
            r.enum_type_definition is None && r.scalar_type_definition is None,
            r.input_object_type_definition is None && r.union_type_definition is None,
            r.ignored_selectors@.len() == 0,
    {
        RequireDescriptionOptions {
            types: true,
            object_type_definition: None,
            interface_type_definition: None,
            enum_type_definition: None,
            scalar_type_definition: None,
            input_object_type_definition: None,
            union_type_definition: None,
            root_field: true,
            field_definition: true,
            input_value_definition: true,
            enum_value_definition: true,
            directive_definition: true,
            operation_definition: true,
            ignored_selectors: Vec::new(),
        }
    }
}

impl RequireDescriptionOptions {
    /// Type definitions of kind `kind` need a description: the kind's own
    /// entry when set, else `types`.
    pub open spec fn spec_kind_enabled(&self, kind: TypeDefKind) -> bool {
        let per_kind = match kind {
            TypeDefKind::Object => self.object_type_definition,
            TypeDefKind::Interface => self.interface_type_definition,
            TypeDefKind::Enum => self.enum_type_definition,
            TypeDefKind::Scalar => self.scalar_type_definition,
            TypeDefKind::InputObject => self.input_object_type_definition,
            TypeDefKind::Union => self.union_type_definition,
        };
        match per_kind {
            Some(b) => b,
            None => self.types,
        }
    }

    /// Whether type definitions of kind `kind` need a description.
    pub fn kind_enabled(&self, kind: TypeDefKind) -> (r: bool)
        ensures
            r == self.spec_kind_enabled(kind),
    {
        let per_kind = match kind {
            TypeDefKind::Object => self.object_type_definition,
            TypeDefKind::Interface => self.interface_type_definition,
            TypeDefKind::Enum => self.enum_type_definition,
            TypeDefKind::Scalar => self.scalar_type_definition,
            TypeDefKind::InputObject => self.input_object_type_definition,
            TypeDefKind::Union => self.union_type_definition,
        };
        match per_kind {
            Some(b) => b,
            None => self.types,
        }
    }
}

/// `[content]` at the start of the trimmed `s`: the content, then what
/// follows the closing bracket.
pub open spec fn spec_bracketed_attr(s: Seq<char>) -> Option<(Seq<char>, Seq<char>)> {
    let a = trim_lo(s, 0, s.len() as int);
    if a >= s.len() || s[a] != '[' {
        None
    } else {
        let close = find_from(s, a + 1, s.len() as int, ']');
        if close >= s.len() {
            None
        } else {
            Some((s.subrange(a + 1, close), s.subrange(close + 1, s.len() as int)))
        }
    }
}

/// Extracts `[content]` from the start of `s` (after leading whitespace),
/// returning the content and the rest of `s`.
pub fn parse_bracketed_attr(s: &str) -> (r: Option<(String, String)>)
    ensures
        match (r, spec_bracketed_attr(s@)) {
            (Some(x), Some(y)) => x.0@ == y.0 && x.1@ == y.1,
            (None, None) => true,
            _ => false,
        },
{
    let v = to_chars(s);
    let n = v.len();
    let a = trim_start_index(&v, 0, n);
    if a >= n || v[a] != '[' {
        return None;
    }
    let close = find_char_from(&v, a + 1, n, ']');
    if close >= n {
        return None;
    }
    Some((range_to_string(&v, a + 1, close), range_to_string(&v, close + 1, n)))
}

/// The AST kind name that selectors use for a kind of type definition.
pub open spec fn ast_kind_name(k: TypeDefKind) -> Seq<char> {
    match k {
        TypeDefKind::Interface => "InterfaceTypeDefinition"@,
        TypeDefKind::Enum => "EnumTypeDefinition"@,
        TypeDefKind::Scalar => "ScalarTypeDefinition"@,
        TypeDefKind::InputObject => "InputObjectTypeDefinition"@,
        TypeDefKind::Union => "UnionTypeDefinition"@,
        TypeDefKind::Object => "ObjectTypeDefinition"@,
    }
}

/// Converts a kind of type definition to the AST kind name selectors use.
pub fn type_def_kind_to_ast_kind(k: TypeDefKind) -> (r: &'static str)
    ensures
        r@ == ast_kind_name(k),
{
    match k {
        TypeDefKind::Interface => "InterfaceTypeDefinition",
        TypeDefKind::Enum => "EnumTypeDefinition",
        TypeDefKind::Scalar => "ScalarTypeDefinition",
        TypeDefKind::InputObject => "InputObjectTypeDefinition",
        TypeDefKind::Union => "UnionTypeDefinition",
        TypeDefKind::Object => "ObjectTypeDefinition",
    }
}

/// A parsed `ignoredSelectors` entry.
#[derive(Debug, Clone)]
pub enum IgnoredSelector {
    /// `[type=<ast_kind>][name.value=<name>]`
    ExactName { ast_kind: String, name: String },
    /// `[type=<ast_kind>][name.value=/<pattern>/]` (the pattern compiles)
    Regex { ast_kind: String, pattern: String },
}

/// A selector as plain values: kind, name or pattern, and whether it is a
/// pattern.
pub type SelectorView = (Seq<char>, Seq<char>, bool);

impl IgnoredSelector {
    pub open spec fn view(&self) -> SelectorView {
        match self {
            IgnoredSelector::ExactName { ast_kind, name } => (ast_kind@, name@, false),
            IgnoredSelector::Regex { ast_kind, pattern } => (ast_kind@, pattern@, true),
        }
    }
}

/// The trimmed `s` (whitespace removed at both ends).
pub open spec fn spec_trim(s: Seq<char>) -> Seq<char> {
    let a = trim_lo(s, 0, s.len() as int);
    s.subrange(a, trim_hi(s, a, s.len() as int))
}

/// First index in `[lo, hi)` that is not `c`, or `hi`.
pub open spec fn skip_char(s: Seq<char>, lo: int, hi: int, c: char) -> int
    decreases hi - lo,
{
    if lo < hi && s[lo] == c { skip_char(s, lo + 1, hi, c) } else { lo }
}

/// The pattern of a `/pattern/flags` literal `v` (which starts with `/`):
/// the leading slashes dropped, then everything up to the last `/` of the
/// rest (all of it when there is none).
pub open spec fn regex_literal_body(v: Seq<char>) -> Seq<char> {
    let a = skip_char(v, 0, v.len() as int, '/');
    let inner = v.subrange(a, v.len() as int);
    let e = rfind_from(inner, 0, inner.len() as int, '/');
    if e < 0 { inner } else { inner.subrange(0, e) }
}

/// The selector that `raw` denotes, if it is one of the supported forms and
/// (for a pattern) the pattern compiles.
pub open spec fn spec_parse_selector(raw: Seq<char>) -> Option<SelectorView> {
    let s = spec_trim(raw);
    match spec_bracketed_attr(s) {
        None => None,
        Some((type_attr, rest)) => match spec_bracketed_attr(rest) {
            None => None,
            Some((name_attr, leftover)) => {
                if spec_trim(leftover).len() != 0 || !starts_with(type_attr, "type="@)
                    || !starts_with(name_attr, "name.value="@) {
                    None
                } else {
                    let kind = spec_trim(type_attr.skip(5));
                    let value = spec_trim(name_attr.skip(11));
                    if value.len() > 0 && value[0] == '/' {
                        let body = regex_literal_body(value);
                        if regex_compiles(body) { Some((kind, body, true)) } else { None }
                    } else {
                        Some((kind, value, false))
                    }
                }
            },
        },
    }
}

/// A selector `sel` covers a type of AST kind `kind` named `name`.
pub open spec fn selector_matches(sel: SelectorView, kind: Seq<char>, name: Seq<char>) -> bool {
    sel.0 == kind && if sel.2 { regex_matches(sel.1, name) } else { sel.1 == name }
}

fn trim_string(s: &str) -> (r: String)
    ensures
        r@ == spec_trim(s@),
{
    let v = to_chars(s);
    let (a, b) = trim_range(&v, 0, v.len());
    range_to_string(&v, a, b)
}

fn regex_body(value: &str) -> (r: String)
    requires
        value@.len() > 0,
    ensures
        r@ == regex_literal_body(value@),
{
    let v = to_chars(value);
    let n = v.len();
    let mut a: usize = 0;
    while a < n && v[a] == '/'
        invariant
            0 <= a <= n,
            n == v@.len(),
            skip_char(v@, a as int, n as int, '/') == skip_char(v@, 0, n as int, '/'),
        decreases n - a,
    {
        a += 1;
    }
    let inner = copy_range(&v, a, n);
    match rfind_char_from(&inner, 0, inner.len(), '/') {
        Some(e) => range_to_string(&inner, 0, e),
        None => chars_to_string(&inner),
    }
}

impl IgnoredSelector {
    /// Parses a selector of the form `[type=Kind][name.value=X]`, where `X`
    /// is a plain name or a `/regex/` literal; `None` for any other form or
    /// a pattern that does not compile.
    pub fn parse(raw: &str) -> (r: Option<Self>)
        ensures
            match (r, spec_parse_selector(raw@)) {
                (Some(x), Some(y)) => x.view() == y,
                (None, None) => true,
                _ => false,
            },
    {
        let s = trim_string(raw);
        let (type_attr, rest) = match parse_bracketed_attr(s.as_str()) {
            Some(p) => p,
            None => return None,
        };
        let (name_attr, leftover) = match parse_bracketed_attr(rest.as_str()) {
            Some(p) => p,
            None => return None,
        };
        proof {
            reveal_strlit("type=");
            reveal_strlit("name.value=");
        }
        let left = trim_string(leftover.as_str());
        if !left.as_str().is_empty() || !str_starts_with(type_attr.as_str(), "type=")
            || !str_starts_with(name_attr.as_str(), "name.value=") {
            return None;
        }
        let tv = to_chars(type_attr.as_str());
        let nv = to_chars(name_attr.as_str());
        let kind_raw = range_to_string(&tv, 5, tv.len());
        let value_raw = range_to_string(&nv, 11, nv.len());
        assert(kind_raw@ =~= type_attr@.skip(5));
        assert(value_raw@ =~= name_attr@.skip(11));
        let ast_kind = trim_string(kind_raw.as_str());
        let value = trim_string(value_raw.as_str());
        let vv = to_chars(value.as_str());
        if vv.len() > 0 && vv[0] == '/' {
            let body = regex_body(value.as_str());
            if compile_regex(body.as_str()) {
                Some(IgnoredSelector::Regex { ast_kind, pattern: body })
            } else {
                None
            }
        } else {
            Some(IgnoredSelector::ExactName { ast_kind, name: value })
        }
    }

    /// Whether this selector covers a type of AST kind `ast_kind` named `name`.
    pub fn matches(&self, ast_kind: &str, name: &str) -> (r: bool)
        requires
            self.view().2 ==> regex_compiles(self.view().1),
        ensures
            r == selector_matches(self.view(), ast_kind@, name@),
    {
        match self {
            IgnoredSelector::ExactName { ast_kind: k, name: n } => str_eq(k.as_str(), ast_kind) && str_eq(n.as_str(), name),
            IgnoredSelector::Regex { ast_kind: k, pattern } => str_eq(k.as_str(), ast_kind) && regex_is_match(pattern.as_str(), name),
        }
    }
}

/// The selectors among `raw` that parse, in order.
pub open spec fn parsed_selectors(raw: Seq<String>) -> Seq<SelectorView>
    decreases raw.len(),
{
    if raw.len() == 0 {
        seq![]
    } else {
        parsed_selectors(raw.drop_last()) + match spec_parse_selector(raw.last()@) {
            Some(x) => seq![x],
            None => seq![],
        }
    }
}

pub open spec fn selectors_view(v: Seq<IgnoredSelector>) -> Seq<SelectorView> {
    Seq::new(v.len(), |k: int| v[k].view())
}

proof fn lemma_parsed_pattern_compiles(raw: Seq<char>)
    ensures
        spec_parse_selector(raw) matches Some(x) ==> (x.2 ==> regex_compiles(x.1)),
{
}

proof fn lemma_parsed_selectors_compile(raw: Seq<String>)
    ensures
        forall|k: int| 0 <= k < parsed_selectors(raw).len() ==> (#[trigger] parsed_selectors(raw)[k]).2 ==> regex_compiles(parsed_selectors(raw)[k].1),
    decreases raw.len(),
{
    if raw.len() > 0 {
        lemma_parsed_selectors_compile(raw.drop_last());
        lemma_parsed_pattern_compiles(raw.last()@);
        let pre = parsed_selectors(raw.drop_last());
        let all = parsed_selectors(raw);
        assert forall|k: int| 0 <= k < all.len() implies (#[trigger] all[k]).2 ==> regex_compiles(all[k].1) by {
            if k < pre.len() {
                assert(all[k] == pre[k]);
            }
        }
    }
}

/// Parses the `ignoredSelectors` entries, dropping the ones that are not
/// supported.
pub fn parse_ignored_selectors(raw: &Vec<String>) -> (r: Vec<IgnoredSelector>)
    ensures
        selectors_view(r@) == parsed_selectors(raw@),
{
    let mut out: Vec<IgnoredSelector> = Vec::new();
    let mut k: usize = 0;
    while k < raw.len()
        invariant
            0 <= k <= raw@.len(),
            selectors_view(out@) == parsed_selectors(raw@.take(k as int)),
        decreases raw@.len() - k,
    {
        assert(raw@.take(k + 1).drop_last() =~= raw@.take(k as int));
        let ghost before = selectors_view(out@);
        match IgnoredSelector::parse(raw[k].as_str()) {
            Some(sel) => {
                out.push(sel);
                assert(selectors_view(out@) =~= before.push(out@[before.len() as int].view()));
            },
            None => {
                assert(selectors_view(out@) =~= before + seq![]);
            },
        }
        k += 1;
    }
    assert(raw@.take(k as int) =~= raw@);
    out
}

/// Some selector among `sels` covers a type of AST kind `kind` named `name`.
pub open spec fn any_selector_matches(sels: Seq<SelectorView>, kind: Seq<char>, name: Seq<char>) -> bool {
    exists|k: int| 0 <= k < sels.len() && selector_matches(#[trigger] sels[k], kind, name)
}

fn any_matches(sels: &Vec<IgnoredSelector>, kind: &str, name: &str) -> (r: bool)
    requires
        forall|k: int| 0 <= k < sels@.len() ==> (#[trigger] sels@[k]).view().2 ==> regex_compiles(sels@[k].view().1),
    ensures
        r == any_selector_matches(selectors_view(sels@), kind@, name@),
{
    let ghost sv = selectors_view(sels@);
    let mut k: usize = 0;
    while k < sels.len()
        invariant
            0 <= k <= sels@.len(),
            sv == selectors_view(sels@),
            forall|j: int| 0 <= j < sels@.len() ==> (#[trigger] sels@[j]).view().2 ==> regex_compiles(sels@[j].view().1),
            forall|j: int| 0 <= j < k ==> !selector_matches(#[trigger] sv[j], kind@, name@),
        decreases sels@.len() - k,
    {
        if sels[k].matches(kind, name) {
            assert(selector_matches(sv[k as int], kind@, name@));
            return true;
        }
        k += 1;
    }
    false
}

/// `Description is required for <label>`, over `r`, for `file`.
pub open spec fn missing_description(file: u64, r: OffsetRange, label: Seq<char>) -> FileDiagnosticView {
    (file, warning_view(r, "Description is required for "@ + label, "requireDescription"@))
}

/// How reports name the type `t` as the parent of its members.
pub open spec fn parent_label(t: TypeDef) -> Seq<char> {
    let kind = match t.kind {
        TypeDefKind::Interface => "interface"@,
        TypeDefKind::InputObject => "input"@,
        TypeDefKind::Enum => "enum"@,
        _ => "type"@,
    };
    kind + " \""@ + t.name@ + "\""@
}

/// How reports name field `f` of `t`.
pub open spec fn field_label(t: TypeDef, f: FieldSignature) -> Seq<char> {
    (if t.kind == TypeDefKind::InputObject { "input value \""@ } else { "field \""@ })
        + f.name@ + "\" in "@ + parent_label(t)
}

/// Reports about the arguments `args` (in the source files) without a
/// description, named as members of `owner`.
pub open spec fn args_reports(src: Seq<u64>, owner: Seq<char>, args: Seq<ArgumentDef>) -> Seq<FileDiagnosticView>
    decreases args.len(),
{
    if args.len() == 0 {
        seq![]
    } else {
        let a = args.last();
        args_reports(src, owner, args.drop_last()) + if has_file(src, a.file_id) && a.description is None {
            seq![missing_description(a.file_id, a.name_range, "input value \""@ + a.name@ + "\" in "@ + owner)]
        } else {
            seq![]
        }
    }
}

/// Reports about the fields `fs` of `t` (in the source files), each
/// followed by those about its arguments.
pub open spec fn fields_reports(o: RequireDescriptionOptions, src: Seq<u64>, is_root: bool, t: TypeDef, fs: Seq<FieldSignature>) -> Seq<FileDiagnosticView>
    decreases fs.len(),
{
    if fs.len() == 0 {
        seq![]
    } else {
        let f = fs.last();
        let enabled = if t.kind == TypeDefKind::InputObject {
            o.input_value_definition
        } else {
            o.field_definition || (is_root && o.root_field)
        };
        fields_reports(o, src, is_root, t, fs.drop_last()) + if !has_file(src, f.file_id) {
            seq![]
        } else {
            (if enabled && f.description is None {
                seq![missing_description(f.file_id, f.name_range, field_label(t, f))]
            } else {
                seq![]
            }) + (if o.input_value_definition && t.kind != TypeDefKind::InputObject {
                args_reports(src, field_label(t, f), f.arguments@)
            } else {
                seq![]
            })
        }
    }
}

/// Reports about the enum values `vs` of `t` without a description.
pub open spec fn values_reports(t: TypeDef, vs: Seq<EnumValue>) -> Seq<FileDiagnosticView>
    decreases vs.len(),
{
    if vs.len() == 0 {
        seq![]
    } else {
        let v = vs.last();
        values_reports(t, vs.drop_last()) + if v.description is None {
            seq![missing_description(t.file_id, v.name_range, "enum value \""@ + v.name@ + "\" in "@ + parent_label(t))]
        } else {
            seq![]
        }
    }
}

/// Reports about type `t`: nothing for a built-in scalar or a type outside
/// the source files; else the type itself (unless an ignored selector
/// covers it, its kind is not enabled, or it has a description), its
/// fields with their arguments, and its enum values.
pub open spec fn type_reports(o: RequireDescriptionOptions, sels: Seq<SelectorView>, src: Seq<u64>, roots: Seq<String>, t: TypeDef) -> Seq<FileDiagnosticView> {
    if (t.kind == TypeDefKind::Scalar && builtin_scalar(t.name@)) || !has_file(src, t.file_id) {
        seq![]
    } else {
        let ignored = any_selector_matches(sels, ast_kind_name(t.kind), t.name@);
        let is_root = o.root_field && names_contain(roots, t.name@);
        (if !ignored && o.spec_kind_enabled(t.kind) && t.description is None {
            seq![missing_description(t.file_id, t.name_range, kind_display(t.kind) + " \""@ + t.name@ + "\""@)]
        } else {
            seq![]
        }) + fields_reports(o, src, is_root, t, t.fields@)
            + (if o.enum_value_definition { values_reports(t, t.enum_values@) } else { seq![] })
    }
}

/// Reports about every type of `ts`, in order.
pub open spec fn types_reports(o: RequireDescriptionOptions, sels: Seq<SelectorView>, src: Seq<u64>, roots: Seq<String>, ts: Seq<TypeDef>) -> Seq<FileDiagnosticView>
    decreases ts.len(),
{
    if ts.len() == 0 {
        seq![]
    } else {
        types_reports(o, sels, src, roots, ts.drop_last()) + type_reports(o, sels, src, roots, ts.last())
    }
}

/// Reports about the directive definitions `ds` (in the source files) and,
/// with `input_value_definition`, their arguments.
pub open spec fn directives_reports(o: RequireDescriptionOptions, src: Seq<u64>, ds: Seq<DirectiveDef>) -> Seq<FileDiagnosticView>
    decreases ds.len(),
{
    if ds.len() == 0 {
        seq![]
    } else {
        let d = ds.last();
        let label = "directive \""@ + d.name@ + "\""@;
        directives_reports(o, src, ds.drop_last()) + if !has_file(src, d.file_id) {
            seq![]
        } else {
            (if o.directive_definition && d.description is None {
                seq![missing_description(d.file_id, d.name_range, label)]
            } else {
                seq![]
            }) + (if o.input_value_definition { args_reports(src, label, d.arguments@) } else { seq![] })
        }
    }
}

/// Everything the schema side of the rule reports.
pub open spec fn spec_schema_check(o: RequireDescriptionOptions, src: Seq<u64>, roots: Seq<String>, types: Seq<TypeDef>, dirs: Seq<DirectiveDef>) -> Seq<FileDiagnosticView> {
    types_reports(o, parsed_selectors(o.ignored_selectors@), src, roots, types)
        + if o.directive_definition || o.input_value_definition { directives_reports(o, src, dirs) } else { seq![] }
}

fn push_missing(out: &mut Vec<FileDiagnostic>, file: u64, r: OffsetRange, label: &str)
    ensures
        file_diags_view(final(out)@) == file_diags_view(old(out)@).push(missing_description(file, r, label@)),
{
    let mut m = "Description is required for ".to_owned();
    m.append(label);
    push_file_diag(out, file, warning_at(r, m.as_str(), "requireDescription"));
}

fn report_args(src: &Vec<u64>, owner: &str, args: &Vec<ArgumentDef>, out: &mut Vec<FileDiagnostic>)
    ensures
        file_diags_view(final(out)@) == file_diags_view(old(out)@) + args_reports(src@, owner@, args@),
{
    let ghost before = file_diags_view(out@);
    let mut k: usize = 0;
    while k < args.len()
        invariant
            0 <= k <= args@.len(),
            file_diags_view(out@) == before + args_reports(src@, owner@, args@.take(k as int)),
        decreases args@.len() - k,
    {
        let a = &args[k];
        assert(args@.take(k + 1).drop_last() =~= args@.take(k as int));
        if contains_file(src, a.file_id) && a.description.is_none() {
            let mut label = "input value \"".to_owned();
            label.append(a.name.as_str());
            label.append("\" in ");
            label.append(owner);
            push_missing(out, a.file_id, a.name_range, label.as_str());
        } else {
            assert(file_diags_view(out@) =~= file_diags_view(out@) + seq![]);
        }
        k += 1;
    }
    assert(args@.take(k as int) =~= args@);
}

fn parent_label_exec(t: &TypeDef) -> (r: String)
    ensures
        r@ == parent_label(*t),
{
    let mut r = match t.kind {
        TypeDefKind::Interface => "interface".to_owned(),
        TypeDefKind::InputObject => "input".to_owned(),
        TypeDefKind::Enum => "enum".to_owned(),
        _ => "type".to_owned(),
    };
    r.append(" \"");
    r.append(t.name.as_str());
    r.append("\"");
    r
}

fn report_fields(o: &RequireDescriptionOptions, src: &Vec<u64>, is_root: bool, t: &TypeDef, out: &mut Vec<FileDiagnostic>)
    ensures
        file_diags_view(final(out)@) == file_diags_view(old(out)@) + fields_reports(*o, src@, is_root, *t, t.fields@),
{
    let ghost before = file_diags_view(out@);
    let parent = parent_label_exec(t);
    let mut k: usize = 0;
    while k < t.fields.len()
        invariant
            0 <= k <= t.fields@.len(),
            parent@ == parent_label(*t),
            file_diags_view(out@) == before + fields_reports(*o, src@, is_root, *t, t.fields@.take(k as int)),
        decreases t.fields@.len() - k,
    {
        let f = &t.fields[k];
        assert(t.fields@.take(k + 1).drop_last() =~= t.fields@.take(k as int));
        let ghost mid = file_diags_view(out@);
        if contains_file(src, f.file_id) {
            let mut label = if t.kind == TypeDefKind::InputObject { "input value \"".to_owned() } else { "field \"".to_owned() };
            label.append(f.name.as_str());
            label.append("\" in ");
            label.append(parent.as_str());
            assert(label@ == field_label(*t, *f));
            let enabled = if t.kind == TypeDefKind::InputObject {
                o.input_value_definition
            } else {
                o.field_definition || (is_root && o.root_field)
            };
            if enabled && f.description.is_none() {
                push_missing(out, f.file_id, f.name_range, label.as_str());
            }
            let ghost mid2 = file_diags_view(out@);
            if o.input_value_definition && t.kind != TypeDefKind::InputObject {
                report_args(src, label.as_str(), &f.arguments, out);
            }
            assert(file_diags_view(out@) =~= mid + mid2.subrange(mid.len() as int, mid2.len() as int)
                + file_diags_view(out@).subrange(mid2.len() as int, file_diags_view(out@).len() as int));
        } else {
            assert(file_diags_view(out@) =~= mid + seq![]);
        }
        k += 1;
    }
    assert(t.fields@.take(k as int) =~= t.fields@);
}

fn report_values(t: &TypeDef, out: &mut Vec<FileDiagnostic>)
    ensures
        file_diags_view(final(out)@) == file_diags_view(old(out)@) + values_reports(*t, t.enum_values@),
{
    let ghost before = file_diags_view(out@);
    let parent = parent_label_exec(t);
    let mut k: usize = 0;
    while k < t.enum_values.len()
        invariant
            0 <= k <= t.enum_values@.len(),
            parent@ == parent_label(*t),
            file_diags_view(out@) == before + values_reports(*t, t.enum_values@.take(k as int)),
        decreases t.enum_values@.len() - k,
    {
        let v = &t.enum_values[k];
        assert(t.enum_values@.take(k + 1).drop_last() =~= t.enum_values@.take(k as int));
        if v.description.is_none() {
            let mut label = "enum value \"".to_owned();
            label.append(v.name.as_str());
            label.append("\" in ");
            label.append(parent.as_str());
            push_missing(out, t.file_id, v.name_range, label.as_str());
        } else {
            assert(file_diags_view(out@) =~= file_diags_view(out@) + seq![]);
        }
        k += 1;
    }
    assert(t.enum_values@.take(k as int) =~= t.enum_values@);
}

#[verifier::spinoff_prover]
#[verifier::rlimit(40)]
fn report_type(o: &RequireDescriptionOptions, sels: &Vec<IgnoredSelector>, src: &Vec<u64>, roots: &Vec<String>, t: &TypeDef, out: &mut Vec<FileDiagnostic>)
    requires
        forall|k: int| 0 <= k < sels@.len() ==> (#[trigger] sels@[k]).view().2 ==> regex_compiles(sels@[k].view().1),
    ensures
        file_diags_view(final(out)@) == file_diags_view(old(out)@) + type_reports(*o, selectors_view(sels@), src@, roots@, *t),
{
    let ghost before = file_diags_view(out@);
    if (t.kind == TypeDefKind::Scalar && is_builtin_scalar(t.name.as_str())) || !contains_file(src, t.file_id) {
        assert(file_diags_view(out@) =~= before + seq![]);
        return;
    }
    let ignored = any_matches(sels, type_def_kind_to_ast_kind(t.kind), t.name.as_str());
    let is_root = o.root_field && contains_str(roots, t.name.as_str());
    if !ignored && o.kind_enabled(t.kind) && t.description.is_none() {
        let mut label = type_def_kind_display(t.kind).to_owned();
        label.append(" \"");
        label.append(t.name.as_str());
        label.append("\"");
        push_missing(out, t.file_id, t.name_range, label.as_str());
    }
    let ghost a = file_diags_view(out@);
    report_fields(o, src, is_root, t, out);
    let ghost b = file_diags_view(out@);
    if o.enum_value_definition {
        report_values(t, out);
    }
    assert(file_diags_view(out@) =~= before + a.subrange(before.len() as int, a.len() as int)
        + b.subrange(a.len() as int, b.len() as int)
        + file_diags_view(out@).subrange(b.len() as int, file_diags_view(out@).len() as int));
}

impl RequireDescriptionRuleImpl {
    /// Reports the schema definitions in the source files `src` that lack
    /// a description: types, fields, arguments, enum values and directive
    /// definitions, as `options` enables them. `roots` holds the names of
    /// the root operation types.
    pub fn check_schema(
        &self,
        options: &RequireDescriptionOptions,
        src: &Vec<u64>,
        roots: &Vec<String>,
        types: &Vec<TypeDef>,
        dirs: &Vec<DirectiveDef>,
    ) -> (r: Vec<FileDiagnostic>)
        ensures
            file_diags_view(r@) == spec_schema_check(*options, src@, roots@, types@, dirs@),
    {
        let sels = parse_ignored_selectors(&options.ignored_selectors);
        proof {
            lemma_parsed_selectors_compile(options.ignored_selectors@);
            assert forall|k: int| 0 <= k < sels@.len() implies (#[trigger] sels@[k]).view().2 ==> regex_compiles(sels@[k].view().1) by {
                assert(selectors_view(sels@)[k] == sels@[k].view());
            }
        }
        let mut out: Vec<FileDiagnostic> = Vec::new();
        let mut k: usize = 0;
        while k < types.len()
            invariant
                0 <= k <= types@.len(),
                selectors_view(sels@) == parsed_selectors(options.ignored_selectors@),
                forall|j: int| 0 <= j < sels@.len() ==> (#[trigger] sels@[j]).view().2 ==> regex_compiles(sels@[j].view().1),
                file_diags_view(out@) == types_reports(*options, selectors_view(sels@), src@, roots@, types@.take(k as int)),
            decreases types@.len() - k,
        {
            assert(types@.take(k + 1).drop_last() =~= types@.take(k as int));
            report_type(options, &sels, src, roots, &types[k], &mut out);
            k += 1;
        }
        assert(types@.take(k as int) =~= types@);
        let ghost part1 = file_diags_view(out@);
        if options.directive_definition || options.input_value_definition {
            let mut d: usize = 0;
            while d < dirs.len()
                invariant
                    0 <= d <= dirs@.len(),
                    file_diags_view(out@) == part1 + directives_reports(*options, src@, dirs@.take(d as int)),
                decreases dirs@.len() - d,
            {
                let dd = &dirs[d];
                assert(dirs@.take(d + 1).drop_last() =~= dirs@.take(d as int));
                let ghost mid = file_diags_view(out@);
                if contains_file(src, dd.file_id) {
                    let mut label = "directive \"".to_owned();
                    label.append(dd.name.as_str());
                    label.append("\"");
                    if options.directive_definition && dd.description.is_none() {
                        push_missing(&mut out, dd.file_id, dd.name_range, label.as_str());
                    }
                    let ghost mid2 = file_diags_view(out@);
                    if options.input_value_definition {
                        report_args(src, label.as_str(), &dd.arguments, &mut out);
                    }
                    assert(file_diags_view(out@) =~= mid + mid2.subrange(mid.len() as int, mid2.len() as int)
                        + file_diags_view(out@).subrange(mid2.len() as int, file_diags_view(out@).len() as int));
                } else {
                    assert(file_diags_view(out@) =~= mid + seq![]);
                }
                d += 1;
            }
            assert(dirs@.take(d as int) =~= dirs@);
        } else {
            assert(file_diags_view(out@) =~= part1 + seq![]);
        }
        out
    }
}

/// ASCII whitespace (`u8::is_ascii_whitespace` on a one-byte character).
pub open spec fn is_ascii_ws(c: char) -> bool {
    c == ' ' || c == '\t' || c == '\n' || c == '\x0C' || c == '\r'
}

/// Walking back from `i` over the whitespace of the line that ends there:
/// the index just past the newline that ends the previous line (0 at the
/// start of the text), or `None` when a character other than ASCII
/// whitespace comes first.
pub open spec fn back_over_blank(c: Seq<char>, i: int) -> Option<int>
    decreases i,
{
    if i <= 0 {
        Some(0)
    } else if c[i - 1] == '\n' {
        Some(i)
    } else if !is_ascii_ws(c[i - 1]) {
        None
    } else {
        back_over_blank(c, i - 1)
    }
}

/// The text `c` (everything before an operation) ends with a `#` comment
/// on the line right before the operation's line, and that comment is not
/// an `eslint` directive.
pub open spec fn spec_immediate_comment(c: Seq<char>) -> bool {
    match back_over_blank(c, c.len() as int) {
        None => false,
        Some(idx) => if idx == 0 {
            false
        } else {
            let e = idx - 1;
            let st = rfind_from(c, 0, e, '\n') + 1;
            let t = trim_lo(c, st, e);
            if !(t < e && c[t] == '#') {
                false
            } else {
                let a = skip_char(c, t, e, '#');
                let b = trim_lo(c, a, e);
                !starts_with(c.subrange(b, trim_hi(c, b, e)), "eslint"@)
            }
        },
    }
}

proof fn lemma_back_over_blank_bounds(c: Seq<char>, i: int)
    requires
        0 <= i <= c.len(),
    ensures
        back_over_blank(c, i) matches Some(idx) ==> 0 <= idx <= i && (idx > 0 ==> c[idx - 1] == '\n'),
    decreases i,
{
    if i > 0 && c[i - 1] != '\n' && is_ascii_ws(c[i - 1]) {
        lemma_back_over_blank_bounds(c, i - 1);
    }
}

proof fn lemma_skip_char_bounds(s: Seq<char>, lo: int, hi: int, c: char)
    requires
        lo <= hi,
    ensures
        lo <= skip_char(s, lo, hi, c) <= hi,
    decreases hi - lo,
{
    if lo < hi && s[lo] == c {
        lemma_skip_char_bounds(s, lo + 1, hi, c);
    }
}

/// Whether the operation starting at byte `op_start` of `source` has a `#`
/// comment on the line right before it (blank characters only between the
/// line start and the operation), other than an `eslint` directive.
pub fn has_immediate_comment(source: &str, op_start: usize) -> (r: bool)
    requires
        op_start <= source.spec_bytes().len(),
        vstd::utf8::is_char_boundary(source.spec_bytes(), op_start as int),
    ensures
        r == spec_immediate_comment(vstd::utf8::decode_utf8(source.spec_bytes().subrange(0, op_start as int))),
{
    proof {
        vstd::utf8::encode_utf8_valid_utf8(source@);
        vstd::utf8::is_char_boundary_start_end_of_seq(source.spec_bytes());
    }
    let before = str_slice(source, 0, op_start);
    proof {
        vstd::utf8::encode_utf8_decode_utf8(before@);
    }
    let c = to_chars(before);
    let mut idx = c.len();
    while idx > 0 && c[idx - 1] != '\n'
        invariant
            idx <= c@.len(),
            c@ == vstd::utf8::decode_utf8(source.spec_bytes().subrange(0, op_start as int)),
            back_over_blank(c@, idx as int) == back_over_blank(c@, c@.len() as int),
        decreases idx,
    {
        let ch = c[idx - 1];
        if !(ch == ' ' || ch == '\t' || ch == '\n' || ch == '\x0C' || ch == '\r') {
            return false;
        }
        idx -= 1;
    }
    proof {
        lemma_back_over_blank_bounds(c@, c@.len() as int);
    }
    if idx == 0 {
        return false;
    }
    let e = idx - 1;
    let st = match rfind_char_from(&c, 0, e, '\n') {
        Some(nl) => nl + 1,
        None => 0,
    };
    proof {
        lemma_rfind_from_bounds(c@, 0, e as int, '\n');
    }
    let t = trim_start_index(&c, st, e);
    if !(t < e && c[t] == '#') {
        return false;
    }
    let mut a = t;
    while a < e && c[a] == '#'
        invariant
            t <= a <= e,
            e < c@.len(),
            skip_char(c@, a as int, e as int, '#') == skip_char(c@, t as int, e as int, '#'),
        decreases e - a,
    {
        a += 1;
    }
    let (b, b2) = trim_range(&c, a, e);
    let body = range_to_string(&c, b, b2);
    !str_starts_with(body.as_str(), "eslint")
}

/// The first position at which the bytes `t` occur in `b`.
pub open spec fn find_bytes(b: Seq<u8>, t: Seq<u8>) -> Option<int> {
    first_satisfying(b.len() - t.len() + 1, |p: int| b.subrange(p, p + t.len()) == t)
}

fn find_bytes_exec(b: &[u8], lo: usize, hi: usize, t: &[u8]) -> (r: Option<usize>)
    requires
        lo <= hi <= b@.len(),
    ensures
        match (r, find_bytes(b@.subrange(lo as int, hi as int), t@)) {
            (Some(i), Some(j)) => i == j,
            (None, None) => true,
            _ => false,
        },
{
    let ghost raw = b@.subrange(lo as int, hi as int);
    let ghost p = |q: int| raw.subrange(q, q + t@.len()) == t@;
    if t.len() > hi - lo {
        assert(raw.len() - t@.len() + 1 <= 0);
        return None;
    }
    if t.len() == 0 {
        proof {
            assert(raw.subrange(0, 0) =~= t@);
            assert(p(0));
            assert(first_satisfying(0, p) is None);
            assert(first_satisfying(1, p) == Some(0int));
            lemma_first_satisfying_stable(1, raw.len() - t@.len() + 1, p);
        }
        return Some(0);
    }
    let n = hi - lo - t.len() + 1;
    let mut q: usize = 0;
    while q < n
        invariant
            0 <= q <= n,
            n == raw.len() - t@.len() + 1,
            lo <= hi <= b@.len(),
            raw == b@.subrange(lo as int, hi as int),
            first_satisfying(q as int, p) is None,
            p == (|q: int| raw.subrange(q, q + t@.len()) == t@),
        decreases n - q,
    {
        let mut j: usize = 0;
        let mut same = true;
        while j < t.len()
            invariant
                0 <= j <= t@.len(),
                q < n,
                n == raw.len() - t@.len() + 1,
                lo <= hi <= b@.len(),
                raw == b@.subrange(lo as int, hi as int),
                same == forall|x: int| 0 <= x < j ==> raw[q + x] == t@[x],
            decreases t@.len() - j,
        {
            if b[lo + q + j] != t[j] {
                same = false;
            }
            proof {
                assert(raw[q + j] == b@[lo + q + j]);
            }
            j += 1;
        }
        if same {
            proof {
                assert(raw.subrange(q as int, q + t@.len()) =~= t@);
                assert(p(q as int));
                assert(first_satisfying(q as int + 1, p) == Some(q as int));
                lemma_first_satisfying_stable(q as int + 1, n as int, p);
            }
            return Some(q);
        }
        proof {
            if p(q as int) {
                assert forall|x: int| 0 <= x < t@.len() implies raw[q + x] == t@[x] by {
                    assert(raw.subrange(q as int, q + t@.len())[x] == raw[q + x]);
                }
            }
        }
        q += 1;
    }
    None
}

/// Where the report about an undescribed operation points, relative to
/// its text `raw`: its keyword when that occurs first within the first 8
/// bytes; else its first `{`; else its first byte.
pub open spec fn operation_anchor(raw: Seq<u8>, keyword: Seq<u8>) -> (int, int) {
    match find_bytes(raw, keyword) {
        Some(p) if p < 8 => (p, p + keyword.len()),
        _ => match find_bytes(raw, seq![123u8]) {
            Some(p) => (p, p + 1),
            None => (0, if raw.len() < 1 { raw.len() as int } else { 1 }),
        },
    }
}

/// How the report names an operation: `query "Name"`, or its keyword alone.
pub open spec fn operation_label(op: OperationDefinition) -> Seq<char> {
    match op.name {
        Some(n) => op.kind.spec_keyword() + " \""@ + n.value@ + "\""@,
        None => op.kind.spec_keyword(),
    }
}

/// The report about operation `op` of `doc` when it lies within the
/// source and no `#` comment line sits right above it.
pub open spec fn operation_description_report(doc: ExecutableDocument, op: OperationDefinition) -> Seq<DiagnosticView> {
    let src = vstd::utf8::encode_utf8(doc.source@);
    let (a, b) = (op.range.start as int, op.range.end as int);
    if a >= src.len() || b > src.len() {
        seq![]
    } else if spec_immediate_comment(vstd::utf8::decode_utf8(src.subrange(0, a))) {
        seq![]
    } else {
        let (rs, re) = operation_anchor(src.subrange(a, b), vstd::utf8::encode_utf8(op.kind.spec_keyword()));
        seq![plain_view(
            doc.spec_span((a + rs) as usize, (a + re) as usize),
            LintSeverity::Warning,
            "Description is required for "@ + operation_label(op),
            "requireDescription"@,
        )]
    }
}

/// The reports about the operations among `defs`.
pub open spec fn operation_description_reports(doc: ExecutableDocument, defs: Seq<Definition>) -> Seq<DiagnosticView>
    decreases defs.len(),
{
    if defs.len() == 0 {
        seq![]
    } else {
        operation_description_reports(doc, defs.drop_last()) + match defs.last() {
            Definition::Operation(op) => operation_description_report(doc, op),
            _ => seq![],
        }
    }
}

/// The ranges of the operations of `doc` that lie within its source are
/// ordered and on character boundaries.
pub open spec fn operations_fit(doc: ExecutableDocument) -> bool {
    let src = vstd::utf8::encode_utf8(doc.source@);
    forall|k: int| 0 <= k < doc.definitions@.len() ==> match #[trigger] doc.definitions@[k] {
        Definition::Operation(op) => op.range.start < src.len() && op.range.end <= src.len() ==> {
            &&& op.range.start <= op.range.end
            &&& vstd::utf8::is_char_boundary(src, op.range.start as int)
            &&& vstd::utf8::is_char_boundary(src, op.range.end as int)
        },
        _ => true,
    }
}

fn operation_report(doc: &ExecutableDocument, op: &OperationDefinition, out: &mut Vec<LintDiagnostic>)
    requires
        ({
            let src = vstd::utf8::encode_utf8(doc.source@);
            op.range.start < src.len() && op.range.end <= src.len() ==> {
                &&& op.range.start <= op.range.end
                &&& vstd::utf8::is_char_boundary(src, op.range.start as int)
                &&& vstd::utf8::is_char_boundary(src, op.range.end as int)
            }
        }),
    ensures
        diags_view(final(out)@) == diags_view(old(out)@) + operation_description_report(*doc, *op),
{
    let source = doc.source.as_str();
    let bytes = source.as_bytes();
    let ghost src = vstd::utf8::encode_utf8(doc.source@);
    assert(bytes@ == src);
    let a = op.range.start;
    let b = op.range.end;
    if a >= bytes.len() || b > bytes.len() {
        assert(diags_view(out@) =~= diags_view(out@) + seq![]);
        return;
    }
    if has_immediate_comment(source, a) {
        assert(diags_view(out@) =~= diags_view(out@) + seq![]);
        return;
    }
    let keyword = op.kind.keyword();
    let kw = keyword.as_bytes();
    let brace: [u8; 1] = [123u8];
    proof {
        let raw = src.subrange(a as int, b as int);
        lemma_first_satisfying_bounds(raw.len() - kw@.len() + 1, |p: int| raw.subrange(p, p + kw@.len()) == kw@);
        lemma_first_satisfying_bounds(raw.len() - 1 + 1, |p: int| raw.subrange(p, p + seq![123u8].len()) == seq![123u8]);
        assert(brace@ =~= seq![123u8]);
    }
    let (rs, re) = match find_bytes_exec(bytes, a, b, kw) {
        Some(p) if p < 8 => (p, p + kw.len()),
        _ => match find_bytes_exec(bytes, a, b, &brace) {
            Some(p) => (p, p + 1),
            None => (0, if b - a < 1 { b - a } else { 1 }),
        },
    };
    let label = match &op.name {
        Some(n) => {
            let mut l = keyword.to_owned();
            l.append(" \"");
            l.append(n.value.as_str());
            l.append("\"");
            l
        },
        None => keyword.to_owned(),
    };
    let mut message = "Description is required for ".to_owned();
    message.append(label.as_str());
    let d = LintDiagnostic::new(doc.span(a + rs, a + re), LintSeverity::Warning, message.as_str(), "requireDescription");
    push_diag(out, d);
}

impl RequireDescriptionRuleImpl {
    /// Reports every operation of `doc` with no `#` comment line right above
    /// it, when operations need a description.
    pub fn check(&self, options: &RequireDescriptionOptions, doc: &ExecutableDocument) -> (r: Vec<LintDiagnostic>)
        requires
            operations_fit(*doc),
        ensures
            diags_view(r@) == if options.operation_definition {
                operation_description_reports(*doc, doc.definitions@)
            } else {
                seq![]
            },
    {
        let mut out: Vec<LintDiagnostic> = Vec::new();
        assert(diags_view(out@) =~= Seq::<DiagnosticView>::empty());
        if !options.operation_definition {
            return out;
        }
        let mut k: usize = 0;
        while k < doc.definitions.len()
            invariant
                0 <= k <= doc.definitions@.len(),
                operations_fit(*doc),
                diags_view(out@) == operation_description_reports(*doc, doc.definitions@.take(k as int)),
            decreases doc.definitions@.len() - k,
        {
            assert(doc.definitions@.take(k + 1).drop_last() =~= doc.definitions@.take(k as int));
            match &doc.definitions[k] {
                Definition::Operation(op) => {
                    assert(operations_fit(*doc));
                    operation_report(doc, op, &mut out);
                },
                _ => assert(diags_view(out@) =~= diags_view(out@) + seq![]),
            }
            k += 1;
        }
        assert(doc.definitions@.take(k as int) =~= doc.definitions@);
        out
    }
}


proof fn lemma_contains_left(a: Seq<FileDiagnosticView>, b: Seq<FileDiagnosticView>, x: FileDiagnosticView)
    requires
        a.contains(x),
    ensures
        (a + b).contains(x),
{
    let i = choose|i: int| 0 <= i < a.len() && a[i] == x;
    assert((a + b)[i] == x);
}

proof fn lemma_contains_right(a: Seq<FileDiagnosticView>, b: Seq<FileDiagnosticView>, x: FileDiagnosticView)
    requires
        b.contains(x),
    ensures
        (a + b).contains(x),
{
    let i = choose|i: int| 0 <= i < b.len() && b[i] == x;
    assert((a + b)[a.len() + i] == x);
}

proof fn lemma_root_field_reported(o: RequireDescriptionOptions, src: Seq<u64>, t: TypeDef, fs: Seq<FieldSignature>, k: int)
    requires
        o.root_field,
        t.kind != TypeDefKind::InputObject,
        0 <= k < fs.len(),
        has_file(src, fs[k].file_id),
        fs[k].description is None,
    ensures
        fields_reports(o, src, true, t, fs).contains(missing_description(fs[k].file_id, fs[k].name_range, field_label(t, fs[k]))),
    decreases fs.len(),
{
    let x = missing_description(fs[k].file_id, fs[k].name_range, field_label(t, fs[k]));
    let rest = fields_reports(o, src, true, t, fs.drop_last());
    if k == fs.len() - 1 {
        let args = if o.input_value_definition && t.kind != TypeDefKind::InputObject {
            args_reports(src, field_label(t, fs[k]), fs[k].arguments@)
        } else {
            seq![]
        };
        assert(seq![x][0] == x);
        lemma_contains_left(seq![x], args, x);
        lemma_contains_right(rest, seq![x] + args, x);
    } else {
        assert(fs.drop_last()[k] == fs[k]);
        lemma_root_field_reported(o, src, t, fs.drop_last(), k);
        let tail = fields_reports(o, src, true, t, fs);
        lemma_contains_left(rest, tail.subrange(rest.len() as int, tail.len() as int), x);
        assert(rest + tail.subrange(rest.len() as int, tail.len() as int) =~= tail);
    }
}

proof fn lemma_types_reports_include(
    o: RequireDescriptionOptions,
    sels: Seq<SelectorView>,
    src: Seq<u64>,
    roots: Seq<String>,
    ts: Seq<TypeDef>,
    i: int,
    x: FileDiagnosticView,
)
    requires
        0 <= i < ts.len(),
        type_reports(o, sels, src, roots, ts[i]).contains(x),
    ensures
        types_reports(o, sels, src, roots, ts).contains(x),
    decreases ts.len(),
{
    let rest = types_reports(o, sels, src, roots, ts.drop_last());
    if i == ts.len() - 1 {
        lemma_contains_right(rest, type_reports(o, sels, src, roots, ts.last()), x);
    } else {
        assert(ts.drop_last()[i] == ts[i]);
        lemma_types_reports_include(o, sels, src, roots, ts.drop_last(), i, x);
        lemma_contains_left(rest, type_reports(o, sels, src, roots, ts.last()), x);
    }
}

/// With `rootField` enabled, every field of a root operation type (an object
/// type named among `roots`, defined in the source files) that has no
/// description is reported as `Description is required for field "<field>"
/// in type "<type>"`, whether or not `FieldDefinition` is enabled.
pub proof fn law_root_fields_need_descriptions(
    o: RequireDescriptionOptions,
    src: Seq<u64>,
    roots: Seq<String>,
    types: Seq<TypeDef>,
    dirs: Seq<DirectiveDef>,
    ti: int,
    fi: int,
)
    requires
        o.root_field,
        0 <= ti < types.len(),
        types[ti].kind == TypeDefKind::Object,
        names_contain(roots, types[ti].name@),
        has_file(src, types[ti].file_id),
        0 <= fi < types[ti].fields@.len(),
        has_file(src, types[ti].fields@[fi].file_id),
        types[ti].fields@[fi].description is None,
    ensures
        spec_schema_check(o, src, roots, types, dirs).contains(missing_description(
            types[ti].fields@[fi].file_id,
            types[ti].fields@[fi].name_range,
            "field \""@ + types[ti].fields@[fi].name@ + "\" in "@ + "type"@ + " \""@ + types[ti].name@ + "\""@,
        )),
{
    let t = types[ti];
    let f = t.fields@[fi];
    let x = missing_description(f.file_id, f.name_range, field_label(t, f));
    assert(field_label(t, f) =~= "field \""@ + f.name@ + "\" in "@ + "type"@ + " \""@ + t.name@ + "\""@);
    lemma_root_field_reported(o, src, t, t.fields@, fi);
    let sels = parsed_selectors(o.ignored_selectors@);
    let own = if !any_selector_matches(sels, ast_kind_name(t.kind), t.name@) && o.spec_kind_enabled(t.kind) && t.description is None {
        seq![missing_description(t.file_id, t.name_range, kind_display(t.kind) + " \""@ + t.name@ + "\""@)]
    } else {
        seq![]
    };
    let fr = fields_reports(o, src, true, t, t.fields@);
    let vr = if o.enum_value_definition { values_reports(t, t.enum_values@) } else { seq![] };
    lemma_contains_right(own, fr, x);
    lemma_contains_left(own + fr, vr, x);
    assert(!(t.kind == TypeDefKind::Scalar && builtin_scalar(t.name@)));
    assert(type_reports(o, sels, src, roots, t) == own + fr + vr);
    lemma_types_reports_include(o, sels, src, roots, types, ti, x);
    let dr = if o.directive_definition || o.input_value_definition { directives_reports(o, src, dirs) } else { seq![] };
    lemma_contains_left(types_reports(o, sels, src, roots, types), dr, x);
}

} // verus!
