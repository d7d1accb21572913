//! Scenarios of the rules, each on GraphQL source text. The text is parsed
//! with `apollo_parser` and turned into the library's document and schema
//! models, which the rules then check.
use apollo_parser::cst::{self, CstNode};
use apollo_parser::Parser;
use graphql_linter::diagnostics::{LintDiagnostic, LintSeverity, OffsetRange};
use graphql_linter::document::{
    ArgValue, Argument, Definition, DocumentFile, ExecutableDocument, FieldSelection, FragmentDefinition,
    FragmentSpread, InlineFragment, Name, OperationDefinition, Selection, SelectionSet, VariableDefinition,
};
use graphql_linter::rules::{get_operation_kind, OperationKind};
use graphql_linter::schema_assembly::{merge_type_extensions, root_type_names, RootOperationType};
use graphql_linter::schema::{
    ArgumentDef, DirectiveArgument, DirectiveDef, DirectiveUsage, EnumValue, FieldSignature, FileDiagnostic,
    TypeDef, TypeDefKind, TypeRef,
};
use std::collections::HashMap;

// ---------------------------------------------------------------------------
// From syntax trees to the library's models
// ---------------------------------------------------------------------------

fn range_of(node: &apollo_parser::SyntaxNode) -> OffsetRange {
    let r = node.text_range();
    OffsetRange { start: r.start().into(), end: r.end().into() }
}

fn conv_name(n: Option<cst::Name>) -> Option<Name> {
    n.map(|n| Name { value: n.text().to_string(), range: range_of(n.syntax()) })
}

fn conv_value(v: cst::Value) -> ArgValue {
    match v {
        cst::Value::EnumValue(e) => ArgValue::Enum(conv_name(e.name())),
        cst::Value::ListValue(l) => ArgValue::List(l.values().map(conv_value).collect()),
        cst::Value::ObjectValue(o) => ArgValue::Object(o.object_fields().map(|f| f.value().map(conv_value)).collect()),
        _ => ArgValue::Other,
    }
}

fn conv_selection_set(ss: cst::SelectionSet) -> SelectionSet {
    SelectionSet { selections: ss.selections().map(conv_selection).collect(), range: range_of(ss.syntax()) }
}

fn conv_selection(s: cst::Selection) -> Selection {
    match s {
        cst::Selection::Field(f) => Selection::Field(FieldSelection {
            alias: f.alias().and_then(|a| conv_name(a.name())),
            name: conv_name(f.name()),
            arguments: f
                .arguments()
                .map(|a| {
                    a.arguments()
                        .map(|arg| Argument { name: conv_name(arg.name()), value: arg.value().map(conv_value) })
                        .collect()
                })
                .unwrap_or_default(),
            selection_set: f.selection_set().map(conv_selection_set),
            range: range_of(f.syntax()),
        }),
        cst::Selection::FragmentSpread(s) => Selection::FragmentSpread(FragmentSpread {
            name: s.fragment_name().and_then(|n| conv_name(n.name())),
            range: range_of(s.syntax()),
        }),
        cst::Selection::InlineFragment(i) => Selection::InlineFragment(InlineFragment {
            type_condition: i.type_condition().and_then(|t| t.named_type()).and_then(|n| conv_name(n.name())),
            selection_set: i.selection_set().map(conv_selection_set),
            range: range_of(i.syntax()),
        }),
    }
}

fn conv_definition(d: cst::Definition) -> Definition {
    match d {
        cst::Definition::OperationDefinition(op) => {
            let (kind, keyword_range) = match op.operation_type() {
                Some(t) => (get_operation_kind(&t), Some(range_of(t.syntax()))),
                None => (OperationKind::Query, None),
            };
            Definition::Operation(OperationDefinition {
                kind,
                keyword_range,
                name: conv_name(op.name()),
                variables: op
                    .variable_definitions()
                    .map(|vs| {
                        vs.variable_definitions()
                            .map(|v| VariableDefinition {
                                name: conv_name(v.variable().and_then(|x| x.name())),
                                range: range_of(v.syntax()),
                            })
                            .collect()
                    })
                    .unwrap_or_default(),
                selection_set: op.selection_set().map(conv_selection_set),
                range: range_of(op.syntax()),
            })
        }
        cst::Definition::FragmentDefinition(f) => Definition::Fragment(FragmentDefinition {
            name: f.fragment_name().and_then(|n| conv_name(n.name())),
            type_condition: f.type_condition().and_then(|t| t.named_type()).and_then(|n| conv_name(n.name())),
            selection_set: f.selection_set().map(conv_selection_set),
            range: range_of(f.syntax()),
        }),
        other => Definition::TypeSystem { range: range_of(other.syntax()) },
    }
}

/// The executable document held by a `.graphql` file.
fn parse_document(source: &str) -> ExecutableDocument {
    let tree = Parser::new(source).parse();
    ExecutableDocument {
        definitions: tree.document().definitions().map(conv_definition).collect(),
        line_offset: 0,
        byte_offset: 0,
        source: source.to_string(),
        declaration_range: None,
    }
}

fn string_of(s: cst::StringValue) -> String {
    String::from(s)
}

fn description_of(d: Option<cst::Description>) -> Option<String> {
    d.and_then(|d| d.string_value()).map(string_of)
}

fn conv_type(t: cst::Type) -> TypeRef {
    match t {
        cst::Type::NamedType(n) => {
            let name = n.name();
            TypeRef {
                name: name.as_ref().map(|x| x.text().to_string()).unwrap_or_default(),
                is_list: false,
                is_non_null: false,
                name_range: name.map(|x| range_of(x.syntax())).unwrap_or(OffsetRange { start: 0, end: 0 }),
            }
        }
        cst::Type::ListType(l) => {
            let inner = l.ty().map(conv_type);
            match inner {
                Some(i) => TypeRef { is_list: true, is_non_null: false, ..i },
                None => TypeRef { name: String::new(), is_list: true, is_non_null: false, name_range: range_of(l.syntax()) },
            }
        }
        cst::Type::NonNullType(nn) => {
            let inner = if let Some(n) = nn.named_type() {
                conv_type(cst::Type::NamedType(n))
            } else if let Some(l) = nn.list_type() {
                conv_type(cst::Type::ListType(l))
            } else {
                TypeRef { name: String::new(), is_list: false, is_non_null: false, name_range: range_of(nn.syntax()) }
            };
            TypeRef { is_non_null: true, ..inner }
        }
    }
}

fn conv_directives(d: Option<cst::Directives>) -> Vec<DirectiveUsage> {
    let Some(d) = d else { return vec![] };
    d.directives()
        .map(|dir| {
            let name = dir.name();
            DirectiveUsage {
                name: name.as_ref().map(|n| n.text().to_string()).unwrap_or_default(),
                name_range: name.map(|n| range_of(n.syntax())).unwrap_or(range_of(dir.syntax())),
                arguments: dir
                    .arguments()
                    .map(|args| {
                        args.arguments()
                            .filter_map(|a| {
                                let v = a.value()?;
                                Some(DirectiveArgument {
                                    name: a.name().map(|n| n.text().to_string()).unwrap_or_default(),
                                    value: v.syntax().to_string().trim().to_string(),
                                    value_range: range_of(v.syntax()),
                                })
                            })
                            .collect()
                    })
                    .unwrap_or_default(),
            }
        })
        .collect()
}

/// Whether `@deprecated` is applied, and the string given as its `reason`.
fn deprecation_of(d: &Option<cst::Directives>) -> (bool, Option<String>) {
    let Some(d) = d else { return (false, None) };
    for dir in d.directives() {
        if dir.name().map(|n| n.text().to_string()).as_deref() == Some("deprecated") {
            let reason = dir.arguments().and_then(|args| {
                args.arguments().find_map(|a| {
                    if a.name().map(|n| n.text().to_string()).as_deref() == Some("reason") {
                        match a.value() {
                            Some(cst::Value::StringValue(s)) => Some(string_of(s)),
                            _ => None,
                        }
                    } else {
                        None
                    }
                })
            });
            return (true, reason);
        }
    }
    (false, None)
}

fn conv_input_value(file_id: u64, v: cst::InputValueDefinition) -> ArgumentDef {
    let directives = v.directives();
    let (is_deprecated, deprecation_reason) = deprecation_of(&directives);
    let name = v.name();
    ArgumentDef {
        name: name.as_ref().map(|n| n.text().to_string()).unwrap_or_default(),
        type_ref: v.ty().map(conv_type).unwrap_or(TypeRef {
            name: String::new(),
            is_list: false,
            is_non_null: false,
            name_range: range_of(v.syntax()),
        }),
        directives: conv_directives(directives),
        file_id,
        name_range: name.map(|n| range_of(n.syntax())).unwrap_or(range_of(v.syntax())),
        definition_range: range_of(v.syntax()),
        description: description_of(v.description()),
        is_deprecated,
        deprecation_reason,
    }
}

fn input_value_as_field(a: ArgumentDef) -> FieldSignature {
    FieldSignature {
        name: a.name,
        type_ref: a.type_ref,
        arguments: vec![],
        directives: a.directives,
        file_id: a.file_id,
        name_range: a.name_range,
        definition_range: a.definition_range,
        description: a.description,
        is_deprecated: a.is_deprecated,
        deprecation_reason: a.deprecation_reason,
    }
}

fn conv_field(file_id: u64, f: cst::FieldDefinition) -> FieldSignature {
    let directives = f.directives();
    let (is_deprecated, deprecation_reason) = deprecation_of(&directives);
    let name = f.name();
    FieldSignature {
        name: name.as_ref().map(|n| n.text().to_string()).unwrap_or_default(),
        type_ref: f.ty().map(conv_type).unwrap_or(TypeRef {
            name: String::new(),
            is_list: false,
            is_non_null: false,
            name_range: range_of(f.syntax()),
        }),
        arguments: f
            .arguments_definition()
            .map(|a| a.input_value_definitions().map(|v| conv_input_value(file_id, v)).collect())
            .unwrap_or_default(),
        directives: conv_directives(directives),
        file_id,
        name_range: name.map(|n| range_of(n.syntax())).unwrap_or(range_of(f.syntax())),
        definition_range: range_of(f.syntax()),
        description: description_of(f.description()),
        is_deprecated,
        deprecation_reason,
    }
}

fn conv_enum_value(v: cst::EnumValueDefinition) -> EnumValue {
    let directives = v.directives();
    let (is_deprecated, deprecation_reason) = deprecation_of(&directives);
    let ev = v.enum_value();
    EnumValue {
        name: ev.as_ref().map(|e| e.text().to_string()).unwrap_or_default(),
        directives: conv_directives(directives),
        name_range: ev.map(|e| range_of(e.syntax())).unwrap_or(range_of(v.syntax())),
        definition_range: range_of(v.syntax()),
        description: description_of(v.description()),
        is_deprecated,
        deprecation_reason,
    }
}

fn named_types(n: impl Iterator<Item = cst::NamedType>) -> Vec<String> {
    n.filter_map(|t| t.name()).map(|x| x.text().to_string()).collect()
}

struct TypeParts {
    kind: TypeDefKind,
    name: Option<cst::Name>,
    fields: Vec<FieldSignature>,
    enum_values: Vec<EnumValue>,
    implements: Vec<String>,
    union_members: Vec<String>,
    directives: Option<cst::Directives>,
    description: Option<String>,
    is_extension: bool,
}

fn parts(file_id: u64, d: &cst::Definition) -> Option<TypeParts> {
    let fields = |f: Option<cst::FieldsDefinition>| -> Vec<FieldSignature> {
        f.map(|f| f.field_definitions().map(|x| conv_field(file_id, x)).collect()).unwrap_or_default()
    };
    let inputs = |f: Option<cst::InputFieldsDefinition>| -> Vec<FieldSignature> {
        f.map(|f| f.input_value_definitions().map(|x| input_value_as_field(conv_input_value(file_id, x))).collect())
            .unwrap_or_default()
    };
    let values = |v: Option<cst::EnumValuesDefinition>| -> Vec<EnumValue> {
        v.map(|v| v.enum_value_definitions().map(conv_enum_value).collect()).unwrap_or_default()
    };
    let imps = |i: Option<cst::ImplementsInterfaces>| -> Vec<String> {
        i.map(|i| named_types(i.named_types())).unwrap_or_default()
    };
    let members = |u: Option<cst::UnionMemberTypes>| -> Vec<String> {
        u.map(|u| named_types(u.named_types())).unwrap_or_default()
    };
    let empty = |kind, name, directives, description, is_extension| TypeParts {
        kind,
        name,
        fields: vec![],
        enum_values: vec![],
        implements: vec![],
        union_members: vec![],
        directives,
        description,
        is_extension,
    };
    Some(match d {
        cst::Definition::ObjectTypeDefinition(t) => TypeParts {
            fields: fields(t.fields_definition()),
            implements: imps(t.implements_interfaces()),
            ..empty(TypeDefKind::Object, t.name(), t.directives(), description_of(t.description()), false)
        },
        cst::Definition::ObjectTypeExtension(t) => TypeParts {
            fields: fields(t.fields_definition()),
            implements: imps(t.implements_interfaces()),
            ..empty(TypeDefKind::Object, t.name(), t.directives(), None, true)
        },
        cst::Definition::InterfaceTypeDefinition(t) => TypeParts {
            fields: fields(t.fields_definition()),
            implements: imps(t.implements_interfaces()),
            ..empty(TypeDefKind::Interface, t.name(), t.directives(), description_of(t.description()), false)
        },
        cst::Definition::InterfaceTypeExtension(t) => TypeParts {
            fields: fields(t.fields_definition()),
            implements: imps(t.implements_interfaces()),
            ..empty(TypeDefKind::Interface, t.name(), t.directives(), None, true)
        },
        cst::Definition::UnionTypeDefinition(t) => TypeParts {
            union_members: members(t.union_member_types()),
            ..empty(TypeDefKind::Union, t.name(), t.directives(), description_of(t.description()), false)
        },
        cst::Definition::UnionTypeExtension(t) => TypeParts {
            union_members: members(t.union_member_types()),
            ..empty(TypeDefKind::Union, t.name(), t.directives(), None, true)
        },
        cst::Definition::EnumTypeDefinition(t) => TypeParts {
            enum_values: values(t.enum_values_definition()),
            ..empty(TypeDefKind::Enum, t.name(), t.directives(), description_of(t.description()), false)
        },
        cst::Definition::EnumTypeExtension(t) => TypeParts {
            enum_values: values(t.enum_values_definition()),
            ..empty(TypeDefKind::Enum, t.name(), t.directives(), None, true)
        },
        cst::Definition::InputObjectTypeDefinition(t) => TypeParts {
            fields: inputs(t.input_fields_definition()),
            ..empty(TypeDefKind::InputObject, t.name(), t.directives(), description_of(t.description()), false)
        },
        cst::Definition::InputObjectTypeExtension(t) => TypeParts {
            fields: inputs(t.input_fields_definition()),
            ..empty(TypeDefKind::InputObject, t.name(), t.directives(), None, true)
        },
        cst::Definition::ScalarTypeDefinition(t) => {
            empty(TypeDefKind::Scalar, t.name(), t.directives(), description_of(t.description()), false)
        }
        cst::Definition::ScalarTypeExtension(t) => empty(TypeDefKind::Scalar, t.name(), t.directives(), None, true),
        _ => return None,
    })
}

/// Whether a directive location is one of an executable document.
fn is_executable_location(l: &str) -> bool {
    matches!(
        l,
        "QUERY"
            | "MUTATION"
            | "SUBSCRIPTION"
            | "FIELD"
            | "FRAGMENT_DEFINITION"
            | "FRAGMENT_SPREAD"
            | "INLINE_FRAGMENT"
            | "VARIABLE_DEFINITION"
    )
}

/// A schema as the schema-side rules see it.
#[derive(Debug)]
struct Schema {
    /// Every type definition and extension, in file order.
    raw: Vec<TypeDef>,
    /// One entry per type name: the definition with its extensions merged in.
    types: Vec<TypeDef>,
    directives: Vec<DirectiveDef>,
    roots: RootTypeNames,
    /// Directives applied to `schema` definitions and extensions.
    schema_directives: Vec<DirectiveUsage>,
    /// The ids of the schema files.
    files: Vec<u64>,
    /// The text of each schema file.
    texts: Vec<(u64, String)>,
}

/// Parses schema files, given as `(file id, text)`, into a schema.
fn parse_schema(files: &[(u64, &str)]) -> Schema {
    let mut s = Schema {
        raw: vec![],
        types: vec![],
        directives: vec![],
        roots: RootTypeNames { query: None, mutation: None, subscription: None },
        schema_directives: vec![],
        files: vec![],
        texts: vec![],
    };
    let mut declared: Option<Vec<RootOperationType>> = None;
    for (file_id, text) in files {
        s.files.push(*file_id);
        s.texts.push((*file_id, text.to_string()));
        let tree = Parser::new(text).parse();
        for d in tree.document().definitions() {
            match &d {
                cst::Definition::DirectiveDefinition(dd) => {
                    let name = dd.name();
                    let locations: Vec<String> = dd
                        .directive_locations()
                        .map(|l| {
                            l.directive_locations()
                                .filter_map(|x| x.text().map(|t| t.to_string()))
                                .collect()
                        })
                        .unwrap_or_default();
                    s.directives.push(DirectiveDef {
                        name: name.as_ref().map(|n| n.text().to_string()).unwrap_or_default(),
                        arguments: dd
                            .arguments_definition()
                            .map(|a| a.input_value_definitions().map(|v| conv_input_value(*file_id, v)).collect())
                            .unwrap_or_default(),
                        has_executable_location: locations.iter().any(|l| is_executable_location(l)),
                        file_id: *file_id,
                        name_range: name.map(|n| range_of(n.syntax())).unwrap_or(range_of(dd.syntax())),
                        definition_range: range_of(dd.syntax()),
                        description: description_of(dd.description()),
                    });
                }
                cst::Definition::SchemaDefinition(sd) => {
                    add_roots(declared.get_or_insert_with(Vec::new), sd.root_operation_type_definitions());
                    s.schema_directives.extend(conv_directives(sd.directives()));
                }
                cst::Definition::SchemaExtension(se) => {
                    add_roots(declared.get_or_insert_with(Vec::new), se.root_operation_type_definitions());
                    s.schema_directives.extend(conv_directives(se.directives()));
                }
                _ => {
                    if let Some(p) = parts(*file_id, &d) {
                        let name = p.name;
                        s.raw.push(TypeDef {
                            name: name.as_ref().map(|n| n.text().to_string()).unwrap_or_default(),
                            kind: p.kind,
                            file_id: *file_id,
                            name_range: name.map(|n| range_of(n.syntax())).unwrap_or(range_of(d.syntax())),
                            definition_range: range_of(d.syntax()),
                            fields: p.fields,
                            enum_values: p.enum_values,
                            implements: p.implements,
                            union_members: p.union_members,
                            directives: conv_directives(p.directives),
                            description: p.description,
                            is_extension: p.is_extension,
                        });
                    }
                }
            }
        }
    }
    s.types = merge_type_extensions(s.raw.clone());
    s.roots = root_type_names(&declared, &s.types);
    s
}

/// The root operation types that a `schema` definition or extension declares.
fn add_roots(r: &mut Vec<RootOperationType>, defs: cst::CstChildren<cst::RootOperationTypeDefinition>) {
    for rd in defs {
        let Some(named_type) = rd.named_type().and_then(|n| n.name()).map(|n| n.text().to_string()) else { continue };
        if let Some(op) = rd.operation_type() {
            r.push(RootOperationType { kind: get_operation_kind(&op), named_type });
        }
    }
}

/// The schema held by one file, `file:///schema.graphql` with id 0.
fn schema_of(text: &str) -> Schema {
    parse_schema(&[(0, text)])
}

/// A parsed JSON value, for rule options written as JSON.
fn json(text: &str) -> serde_json::Value {
    serde_json::from_str(text).expect("valid JSON")
}

/// Groups file diagnostics by file, as the project-wide rules report them.
fn by_file(diags: Vec<FileDiagnostic>) -> HashMap<u64, Vec<LintDiagnostic>> {
    let mut m: HashMap<u64, Vec<LintDiagnostic>> = HashMap::new();
    for d in diags {
        m.entry(d.file_id).or_default().push(d.diagnostic);
    }
    m
}

/// All diagnostics of a project-wide check, in report order.
fn flat(diags: Vec<FileDiagnostic>) -> Vec<LintDiagnostic> {
    diags.into_iter().map(|d| d.diagnostic).collect()
}

/// Stands in for the project database of the rules' scenarios.
#[derive(Default)]
struct RootDatabase;

fn bool_at(v: &serde_json::Value, key: &str) -> Option<bool> {
    v.get(key).and_then(|x| x.as_bool())
}

fn str_at(v: &serde_json::Value, key: &str) -> Option<String> {
    v.get(key).and_then(|x| x.as_str()).map(|s| s.to_string())
}

fn strings_at(v: &serde_json::Value, key: &str) -> Option<Vec<String>> {
    v.get(key)
        .and_then(|x| x.as_array())
        .map(|a| a.iter().filter_map(|s| s.as_str().map(|s| s.to_string())).collect())
}
use graphql_linter::rules::input_name::InputNameOptions;
use graphql_linter::rules::no_root_type::{NoRootTypeOptions, RootTypeKind, RootTypeNames};
use graphql_linter::rules::relay_arguments::RelayArgumentsOptions;
use graphql_linter::rules::relay_edge_types::RelayEdgeTypesOptions;
use graphql_linter::rules::require_deprecation_date::RequireDeprecationDateOptions;
use graphql_linter::rules::{
    InputNameRuleImpl, NoRootTypeRuleImpl, NoScalarResultTypeOnMutationRuleImpl, NoTypenamePrefixRuleImpl,
    NoUnreachableTypesRuleImpl, RelayArgumentsRuleImpl, RelayConnectionTypesRuleImpl, RelayEdgeTypesRuleImpl,
    RelayPageInfoRuleImpl, RequireDeprecationDateRuleImpl, RequireDeprecationReasonRuleImpl,
    RequireFieldOfTypeQueryInMutationResultRuleImpl, RequireNullableFieldsWithOneofRuleImpl,
};
use graphql_linter::rules::match_document_filename::{DefinitionTypeConfig, FilenameStyle, MatchDocumentFilenameOptions};
use graphql_linter::rules::{
    LoneExecutableDefinitionRuleImpl, MatchDocumentFilenameRuleImpl, NoAnonymousOperationsRuleImpl,
    NoDeprecatedRuleImpl, NoOnePlaceFragmentsRuleImpl, NoUnusedFragmentsRuleImpl, OperationNameSuffixRuleImpl,
    RequireImportFragmentRuleImpl,
};
use std::sync::Arc;
use graphql_linter::rules::alphabetize::{
    AlphabetizeOptions, BoolOrKindList, DefinitionEntry, DocumentDefinition, MemberListKind, OrderedItem,
    SelectionsConfig, SelectionsOwner,
};
use graphql_linter::rules::naming_convention::{NamingCase, NamingConventionOptions, NamingRule};
use graphql_linter::rules::{AlphabetizeRuleImpl, NamingConventionRuleImpl};
use graphql_linter::rules::description_style::{
    Described, DescribedDefinition, DescribedField, DescribedKind, DescriptionLiteral, DescriptionStyleKind,
    DescriptionStyleOptions,
};
use graphql_linter::rules::require_description::RequireDescriptionOptions;
use graphql_linter::rules::{DescriptionStyleRuleImpl, NoHashtagDescriptionRuleImpl, RequireDescriptionRuleImpl};

// ---------------------------------------------------------------------------
// Running the schema rules as the project runs them
// ---------------------------------------------------------------------------

/// A rule, run on parsed text with options written as JSON.
struct Harness<R>(R);

type ByFile = HashMap<u64, Vec<LintDiagnostic>>;

/// A project whose only schema file, id 0, holds `schema`.
fn create_schema_project(_db: &RootDatabase, schema: &str) -> Schema {
    schema_of(schema)
}

fn root_list(r: &RootTypeNames) -> Vec<String> {
    [&r.query, &r.mutation, &r.subscription].into_iter().flatten().cloned().collect()
}

impl Harness<RequireDeprecationReasonRuleImpl> {
    fn check(&self, _db: &RootDatabase, s: Schema, _o: Option<&serde_json::Value>) -> ByFile {
        by_file(self.0.check(&s.types))
    }
}

impl Harness<NoTypenamePrefixRuleImpl> {
    fn check(&self, _db: &RootDatabase, s: Schema, _o: Option<&serde_json::Value>) -> ByFile {
        by_file(self.0.check(&s.types))
    }
}

impl Harness<NoScalarResultTypeOnMutationRuleImpl> {
    fn check(&self, _db: &RootDatabase, s: Schema, _o: Option<&serde_json::Value>) -> ByFile {
        by_file(self.0.check(&s.types, &s.roots.mutation))
    }
}

impl Harness<RequireFieldOfTypeQueryInMutationResultRuleImpl> {
    fn check(&self, _db: &RootDatabase, s: Schema, _o: Option<&serde_json::Value>) -> ByFile {
        by_file(self.0.check(&s.types, &s.roots.query, &s.roots.mutation))
    }
}

impl Harness<RequireNullableFieldsWithOneofRuleImpl> {
    fn check(&self, _db: &RootDatabase, s: Schema, _o: Option<&serde_json::Value>) -> ByFile {
        by_file(self.0.check(&s.types))
    }
}

impl Harness<NoUnreachableTypesRuleImpl> {
    fn check(&self, _db: &RootDatabase, s: Schema, _o: Option<&serde_json::Value>) -> ByFile {
        let on_schema: Vec<String> = s.schema_directives.iter().map(|d| d.name.clone()).collect();
        by_file(self.0.check(&s.types, &s.directives, &root_list(&s.roots), &s.raw, &on_schema))
    }
}

/// `{ "disallow": [...] }`.
fn make_options(disallow: &[&str]) -> serde_json::Value {
    let list = disallow.iter().map(|d| serde_json::Value::String(d.to_string())).collect();
    let mut m = serde_json::Map::new();
    m.insert("disallow".to_string(), serde_json::Value::Array(list));
    serde_json::Value::Object(m)
}

fn no_root_type_options(v: Option<&serde_json::Value>) -> Option<NoRootTypeOptions> {
    let list = v?.get("disallow")?.as_array()?;
    let mut disallow = Vec::new();
    for k in list {
        disallow.push(match k.as_str()? {
            "query" => RootTypeKind::Query,
            "mutation" => RootTypeKind::Mutation,
            "subscription" => RootTypeKind::Subscription,
            _ => return None,
        });
    }
    Some(NoRootTypeOptions { disallow })
}

impl Harness<NoRootTypeRuleImpl> {
    fn check(&self, _db: &RootDatabase, s: Schema, o: Option<&serde_json::Value>) -> ByFile {
        let roots = RootTypeNames {
            query: s.roots.query.clone(),
            mutation: s.roots.mutation.clone(),
            subscription: s.roots.subscription.clone(),
        };
        by_file(self.0.check(&no_root_type_options(o), &s.types, &roots))
    }
}

impl Harness<RelayPageInfoRuleImpl> {
    fn check(&self, _db: &RootDatabase, s: Schema, _o: Option<&serde_json::Value>) -> ByFile {
        by_file(self.0.check(&s.types, &s.raw, s.files.first().copied()))
    }
}

fn relay_arguments_options(v: Option<&serde_json::Value>) -> RelayArgumentsOptions {
    let d = RelayArgumentsOptions::default();
    match v {
        Some(v) if v.is_object() => match v.get("includeBoth") {
            None => d,
            Some(b) => match b.as_bool() {
                Some(b) => RelayArgumentsOptions { include_both: b },
                None => d,
            },
        },
        _ => d,
    }
}

impl Harness<RelayArgumentsRuleImpl> {
    fn check(&self, _db: &RootDatabase, s: Schema, o: Option<&serde_json::Value>) -> ByFile {
        by_file(self.0.check(&s.types, &relay_arguments_options(o)))
    }
}

fn input_name_options(v: Option<&serde_json::Value>) -> InputNameOptions {
    let d = InputNameOptions::default();
    let Some(v) = v.filter(|v| v.is_object()) else { return d };
    InputNameOptions {
        check_input_type: bool_at(v, "checkInputType").unwrap_or(d.check_input_type),
        case_sensitive_input_type: bool_at(v, "caseSensitiveInputType").unwrap_or(d.case_sensitive_input_type),
        check_queries: bool_at(v, "checkQueries").unwrap_or(d.check_queries),
        check_mutations: bool_at(v, "checkMutations").unwrap_or(d.check_mutations),
    }
}

impl Harness<InputNameRuleImpl> {
    fn check(&self, _db: &RootDatabase, s: Schema, o: Option<&serde_json::Value>) -> ByFile {
        by_file(self.0.check(&input_name_options(o), &s.types, &s.roots.query, &s.roots.mutation))
    }
}

fn now_ms() -> i64 {
    let d = std::time::SystemTime::now().duration_since(std::time::UNIX_EPOCH).expect("clock after 1970");
    d.as_millis() as i64
}

impl Harness<RequireDeprecationDateRuleImpl> {
    fn check(&self, _db: &RootDatabase, s: Schema, o: Option<&serde_json::Value>) -> ByFile {
        let d = RequireDeprecationDateOptions::default();
        let options = match o {
            Some(v) if v.is_object() => match v.get("argumentName") {
                None => d,
                Some(a) => match a.as_str() {
                    Some(a) => RequireDeprecationDateOptions { argument_name: a.to_string() },
                    None => d,
                },
            },
            _ => d,
        };
        by_file(self.0.check(&s.types, &options, now_ms()))
    }
}

fn relay_edge_types_options(v: Option<&serde_json::Value>) -> RelayEdgeTypesOptions {
    let Some(v) = v.filter(|v| v.is_object()) else { return RelayEdgeTypesOptions::default() };
    RelayEdgeTypesOptions {
        with_edge_suffix: bool_at(v, "withEdgeSuffix").unwrap_or(true),
        should_implement_node: bool_at(v, "shouldImplementNode").unwrap_or(true),
        list_type_can_wrap_only_edge_type: bool_at(v, "listTypeCanWrapOnlyEdgeType").unwrap_or(true),
    }
}

impl Harness<RelayEdgeTypesRuleImpl> {
    fn check(&self, _db: &RootDatabase, s: Schema, o: Option<&serde_json::Value>) -> ByFile {
        by_file(self.0.check(&s.types, &relay_edge_types_options(o)))
    }
}

impl Harness<RelayConnectionTypesRuleImpl> {
    fn check(&self, _db: &RootDatabase, s: Schema, _o: Option<&serde_json::Value>) -> ByFile {
        by_file(self.0.check(&s.types))
    }
}

fn rct_check_schema(schema: &str) -> Vec<LintDiagnostic> {
    let db = RootDatabase::default();
    let rule = Harness(RelayConnectionTypesRuleImpl);
    let project_files = create_schema_project(&db, schema);
    let diagnostics = rule.check(&db, project_files, None);
    diagnostics.into_values().flatten().collect()
}

fn ret_check_with_options(schema: &str, options: Option<&serde_json::Value>) -> Vec<LintDiagnostic> {
    let db = RootDatabase::default();
    let rule = Harness(RelayEdgeTypesRuleImpl);
    let project_files = create_schema_project(&db, schema);
    let diagnostics = rule.check(&db, project_files, options);
    diagnostics.into_values().flatten().collect()
}

fn ret_check(schema: &str) -> Vec<LintDiagnostic> {
    ret_check_with_options(schema, None)
}

fn rdd_check_with_options(schema: &str, options: Option<&serde_json::Value>) -> Vec<LintDiagnostic> {
    let db = RootDatabase::default();
    let rule = Harness(RequireDeprecationDateRuleImpl);
    let project_files = create_schema_project(&db, schema);
    let diagnostics = rule.check(&db, project_files, options);
    diagnostics.into_values().flatten().collect()
}

fn rdd_check(schema: &str) -> Vec<LintDiagnostic> {
    rdd_check_with_options(schema, None)
}

// ---------------------------------------------------------------------------
// Project files, and running the document rules
// ---------------------------------------------------------------------------

#[derive(Clone, Copy, PartialEq, Eq, Hash, Debug)]
struct FileId(u64);

impl FileId {
    fn new(n: u32) -> Self {
        FileId(n as u64)
    }
}

#[derive(Clone)]
struct FileContent(Arc<str>);

impl FileContent {
    fn new(_db: &RootDatabase, text: Arc<str>) -> Self {
        FileContent(text)
    }
}

#[derive(Clone)]
struct FileUri(String);

impl FileUri {
    fn new(s: &str) -> Self {
        FileUri(s.to_string())
    }
}

#[derive(Clone, Copy, PartialEq)]
enum Language {
    GraphQL,
    TypeScript,
}

#[derive(Clone, Copy, PartialEq)]
enum DocumentKind {
    Executable,
}

#[derive(Clone)]
struct FileMetadata {
    uri: FileUri,
    language: Language,
}

impl FileMetadata {
    fn new(_db: &RootDatabase, _id: FileId, uri: FileUri, language: Language, _kind: DocumentKind) -> Self {
        FileMetadata { uri, language }
    }
}

/// The files of a project: schema files, and document files.
#[derive(Clone, Default)]
struct ProjectFiles {
    schema: Vec<(u64, String)>,
    documents: Vec<(FileId, FileContent, FileMetadata)>,
}

/// A project with no files besides the one being checked.
fn create_test_project_files(_db: &RootDatabase) -> ProjectFiles {
    ProjectFiles::default()
}

/// A project whose document files are `files`.
fn files_project(_db: &RootDatabase, files: &[(FileId, FileContent, FileMetadata)]) -> ProjectFiles {
    ProjectFiles { schema: vec![], documents: files.to_vec() }
}

/// The GraphQL documents of a file: the whole file for `.graphql`, each
/// `` gql`...` `` block for TypeScript.
fn documents_of(text: &str, language: Language) -> Vec<ExecutableDocument> {
    if language == Language::GraphQL {
        return vec![parse_document(text)];
    }
    let mut docs = Vec::new();
    let mut from = 0;
    while let Some(k) = text[from..].find("gql`") {
        let start = from + k + 4;
        let Some(len) = text[start..].find('`') else { break };
        let end = start + len;
        let mut doc = parse_document(&text[start..end]);
        doc.byte_offset = start;
        doc.line_offset = text[..start].matches('\n').count();
        let decl_start = text[..start].rfind('\n').map_or(0, |p| p + 1);
        let mut decl_end = end + 1;
        if text[decl_end..].starts_with(';') {
            decl_end += 1;
        }
        if text[decl_end..].starts_with('\n') {
            decl_end += 1;
        }
        doc.declaration_range = Some((decl_start, decl_end));
        docs.push(doc);
        from = end + 1;
    }
    docs
}

/// The document files of a project, in the library's model.
fn document_files(pf: &ProjectFiles) -> Vec<DocumentFile> {
    pf.documents
        .iter()
        .map(|(id, content, meta)| DocumentFile {
            file_id: id.0,
            path: meta.uri.0.strip_prefix("file://").unwrap_or(&meta.uri.0).to_string(),
            documents: documents_of(&content.0, meta.language),
        })
        .collect()
}

fn by_file_id(diags: Vec<FileDiagnostic>) -> HashMap<FileId, Vec<LintDiagnostic>> {
    by_file(diags).into_iter().map(|(k, v)| (FileId(k), v)).collect()
}

impl Harness<NoAnonymousOperationsRuleImpl> {
    fn check(
        &self,
        _db: &RootDatabase,
        _id: FileId,
        content: FileContent,
        _meta: FileMetadata,
        _pf: ProjectFiles,
        _o: Option<&serde_json::Value>,
    ) -> Vec<LintDiagnostic> {
        self.0.check(&parse_document(&content.0))
    }
}

fn ons_run_rule(_db: &RootDatabase, source: &str) -> Vec<LintDiagnostic> {
    OperationNameSuffixRuleImpl.check(&parse_document(source))
}

fn led_check(source: &str) -> Vec<LintDiagnostic> {
    LoneExecutableDefinitionRuleImpl.check(&parse_document(source))
}

fn rif_check(source: &str) -> Vec<LintDiagnostic> {
    RequireImportFragmentRuleImpl.check("file:///test.graphql", &vec![], &parse_document(source))
}

fn filename_style(s: &str) -> Option<FilenameStyle> {
    Some(match s {
        "camelCase" => FilenameStyle::CamelCase,
        "PascalCase" => FilenameStyle::PascalCase,
        "snake_case" => FilenameStyle::SnakeCase,
        "kebab-case" => FilenameStyle::KebabCase,
        "matchDocumentStyle" => FilenameStyle::MatchDocumentStyle,
        _ => return None,
    })
}

fn definition_type_config(v: Option<&serde_json::Value>) -> Option<DefinitionTypeConfig> {
    let Some(v) = v else { return Some(DefinitionTypeConfig::default()) };
    let o = v.as_object()?;
    let style = match o.get("style") {
        None => FilenameStyle::MatchDocumentStyle,
        Some(s) => filename_style(s.as_str()?)?,
    };
    let suffix = match o.get("suffix") {
        None => String::new(),
        Some(s) => s.as_str()?.to_string(),
    };
    Some(DefinitionTypeConfig { style, suffix })
}

fn match_document_filename_options(v: Option<&serde_json::Value>) -> MatchDocumentFilenameOptions {
    let parse = |v: &serde_json::Value| -> Option<MatchDocumentFilenameOptions> {
        v.as_object()?;
        Some(MatchDocumentFilenameOptions {
            query: definition_type_config(v.get("query"))?,
            mutation: definition_type_config(v.get("mutation"))?,
            subscription: definition_type_config(v.get("subscription"))?,
            fragment: definition_type_config(v.get("fragment"))?,
        })
    };
    v.and_then(parse).unwrap_or_default()
}

fn mdf_check_with_uri_and_options(source: &str, uri: &str, options: Option<&serde_json::Value>) -> Vec<LintDiagnostic> {
    MatchDocumentFilenameRuleImpl.check(&match_document_filename_options(options), uri, &parse_document(source))
}

fn mdf_check_with_uri(source: &str, uri: &str) -> Vec<LintDiagnostic> {
    mdf_check_with_uri_and_options(source, uri, None)
}

impl Harness<NoUnusedFragmentsRuleImpl> {
    fn check(&self, _db: &RootDatabase, pf: ProjectFiles, _o: Option<&serde_json::Value>) -> HashMap<FileId, Vec<LintDiagnostic>> {
        by_file_id(self.0.check(&document_files(&pf)))
    }
}

impl Harness<NoOnePlaceFragmentsRuleImpl> {
    fn check(&self, _db: &RootDatabase, pf: ProjectFiles, _o: Option<&serde_json::Value>) -> HashMap<FileId, Vec<LintDiagnostic>> {
        by_file_id(self.0.check(&document_files(&pf)))
    }
}

/// A project with one schema file (id 0) and one document file (id 1).
fn nd_create_test_project(
    _db: &RootDatabase,
    schema_source: &str,
    document_source: &str,
) -> (FileId, FileContent, FileMetadata, ProjectFiles) {
    let doc_id = FileId(1);
    let content = FileContent(Arc::from(document_source));
    let meta = FileMetadata { uri: FileUri::new("file:///query.graphql"), language: Language::GraphQL };
    let pf = ProjectFiles {
        schema: vec![(0, schema_source.to_string())],
        documents: vec![(doc_id, content.clone(), meta.clone())],
    };
    (doc_id, content, meta, pf)
}

fn schema_of_project(pf: &ProjectFiles) -> Schema {
    let files: Vec<(u64, &str)> = pf.schema.iter().map(|(id, t)| (*id, t.as_str())).collect();
    parse_schema(&files)
}

impl Harness<NoDeprecatedRuleImpl> {
    fn check(
        &self,
        _db: &RootDatabase,
        _id: FileId,
        content: FileContent,
        _meta: FileMetadata,
        pf: ProjectFiles,
        _o: Option<&serde_json::Value>,
    ) -> Vec<LintDiagnostic> {
        self.0.check(&schema_of_project(&pf).types, &parse_document(&content.0))
    }
}

// ---------------------------------------------------------------------------
// alphabetize: options, and the schema document's definitions
// ---------------------------------------------------------------------------

fn kind_list(v: &serde_json::Value) -> Option<BoolOrKindList> {
    if let Some(b) = v.as_bool() {
        return Some(BoolOrKindList::Bool(b));
    }
    let list = v.as_array()?;
    let mut kinds = Vec::new();
    for k in list {
        kinds.push(k.as_str()?.to_string());
    }
    Some(BoolOrKindList::Kinds(kinds))
}

fn alphabetize_options_of(v: &serde_json::Value) -> Option<AlphabetizeOptions> {
    v.as_object()?;
    let mut o = AlphabetizeOptions::default();
    if let Some(s) = v.get("selections") {
        o.selections = if let Some(b) = s.as_bool() {
            SelectionsConfig::Bool(b)
        } else {
            let mut owners = Vec::new();
            for k in s.as_array()? {
                owners.push(match k.as_str()? {
                    "OperationDefinition" => SelectionsOwner::OperationDefinition,
                    "FragmentDefinition" => SelectionsOwner::FragmentDefinition,
                    _ => return None,
                });
            }
            SelectionsConfig::Owners(owners)
        };
    }
    if let Some(a) = v.get("arguments") {
        o.arguments = kind_list(a)?;
    }
    if let Some(f) = v.get("fields") {
        o.fields = kind_list(f)?;
    }
    if let Some(b) = v.get("variables") {
        o.variables = b.as_bool()?;
    }
    if let Some(b) = v.get("definitions") {
        o.definitions = b.as_bool()?;
    }
    if let Some(b) = v.get("values") {
        o.values = b.as_bool()?;
    }
    if let Some(g) = v.get("groups") {
        let mut groups = Vec::new();
        for x in g.as_array()? {
            groups.push(x.as_str()?.to_string());
        }
        o.groups = groups;
    }
    Some(o)
}

fn alphabetize_options(v: Option<&serde_json::Value>) -> AlphabetizeOptions {
    v.and_then(alphabetize_options_of).unwrap_or_default()
}

fn span_pair(n: &apollo_parser::SyntaxNode) -> (usize, usize) {
    let r = range_of(n);
    (r.start, r.end)
}

fn ordered(name: Option<cst::Name>, node: &apollo_parser::SyntaxNode) -> Option<OrderedItem> {
    let n = name?;
    Some(OrderedItem { name: n.text().to_string(), range: span_pair(node), name_range: span_pair(n.syntax()) })
}

fn field_items(f: Option<cst::FieldsDefinition>) -> (Vec<OrderedItem>, Vec<Vec<OrderedItem>>) {
    let Some(f) = f else { return (vec![], vec![]) };
    let members = f.field_definitions().filter_map(|x| ordered(x.name(), x.syntax())).collect();
    let arguments = f
        .field_definitions()
        .map(|x| {
            x.arguments_definition()
                .map(|a| a.input_value_definitions().filter_map(|v| ordered(v.name(), v.syntax())).collect())
                .unwrap_or_default()
        })
        .collect();
    (members, arguments)
}

fn input_items(v: Option<cst::CstChildren<cst::InputValueDefinition>>) -> Vec<OrderedItem> {
    v.map(|v| v.filter_map(|x| ordered(x.name(), x.syntax())).collect()).unwrap_or_default()
}

fn enum_items(v: Option<cst::EnumValuesDefinition>) -> Vec<OrderedItem> {
    v.map(|v| {
        v.enum_value_definitions()
            .filter_map(|x| ordered(x.enum_value().and_then(|e| e.name()), x.syntax()))
            .collect()
    })
    .unwrap_or_default()
}

fn named(kind: &str, name: Option<cst::Name>) -> Option<DefinitionEntry> {
    let n = name?;
    Some(DefinitionEntry::Named { kind: kind.to_string(), name: n.text().to_string(), name_range: span_pair(n.syntax()) })
}

/// A top-level definition as the ordering checks read it.
fn document_definition(d: &cst::Definition) -> DocumentDefinition {
    let (entry, kind, members, member_arguments) = match d {
        cst::Definition::ObjectTypeDefinition(t) => {
            let (m, a) = field_items(t.fields_definition());
            (named("type", t.name()), MemberListKind::Object, m, a)
        }
        cst::Definition::ObjectTypeExtension(t) => {
            let (m, a) = field_items(t.fields_definition());
            (named("type", t.name()), MemberListKind::Object, m, a)
        }
        cst::Definition::InterfaceTypeDefinition(t) => {
            let (m, a) = field_items(t.fields_definition());
            (named("interface", t.name()), MemberListKind::Interface, m, a)
        }
        cst::Definition::InterfaceTypeExtension(t) => {
            let (m, a) = field_items(t.fields_definition());
            (named("interface", t.name()), MemberListKind::Interface, m, a)
        }
        cst::Definition::UnionTypeDefinition(t) => (named("union", t.name()), MemberListKind::Other, vec![], vec![]),
        cst::Definition::UnionTypeExtension(t) => (named("union", t.name()), MemberListKind::Other, vec![], vec![]),
        cst::Definition::EnumTypeDefinition(t) => {
            (named("enum", t.name()), MemberListKind::Enum, enum_items(t.enum_values_definition()), vec![])
        }
        cst::Definition::EnumTypeExtension(t) => {
            (named("enum", t.name()), MemberListKind::Enum, enum_items(t.enum_values_definition()), vec![])
        }
        cst::Definition::ScalarTypeDefinition(t) => (named("scalar", t.name()), MemberListKind::Other, vec![], vec![]),
        cst::Definition::ScalarTypeExtension(t) => (named("scalar", t.name()), MemberListKind::Other, vec![], vec![]),
        cst::Definition::InputObjectTypeDefinition(t) => (
            named("input", t.name()),
            MemberListKind::InputObject,
            input_items(t.input_fields_definition().map(|f| f.input_value_definitions())),
            vec![],
        ),
        cst::Definition::InputObjectTypeExtension(t) => (
            named("input", t.name()),
            MemberListKind::InputObject,
            input_items(t.input_fields_definition().map(|f| f.input_value_definitions())),
            vec![],
        ),
        cst::Definition::DirectiveDefinition(t) => (
            named("directive", t.name()),
            MemberListKind::Directive,
            input_items(t.arguments_definition().map(|a| a.input_value_definitions())),
            vec![],
        ),
        cst::Definition::OperationDefinition(op) => {
            let label = match op.operation_type() {
                Some(t) => get_operation_kind(&t).keyword(),
                None => "query",
            };
            let entry = match op.name() {
                Some(n) => named(label, Some(n)),
                None => Some(DefinitionEntry::Unnamed { label: "operation definition".to_string() }),
            };
            (entry, MemberListKind::Other, vec![], vec![])
        }
        cst::Definition::FragmentDefinition(f) => {
            (named("fragment", f.fragment_name().and_then(|n| n.name())), MemberListKind::Other, vec![], vec![])
        }
        cst::Definition::SchemaDefinition(_) | cst::Definition::SchemaExtension(_) => (
            Some(DefinitionEntry::Unnamed { label: "schema definition".to_string() }),
            MemberListKind::Other,
            vec![],
            vec![],
        ),
    };
    DocumentDefinition { entry, range: span_pair(d.syntax()), kind, members, member_arguments }
}

fn al_check_with_options(source: &str, options: &serde_json::Value) -> Vec<LintDiagnostic> {
    AlphabetizeRuleImpl.check(&alphabetize_options(Some(options)), &parse_document(source))
}

fn al_check(source: &str) -> Vec<LintDiagnostic> {
    AlphabetizeRuleImpl.check(&AlphabetizeOptions::default(), &parse_document(source))
}

fn al_check_schema(schema: &str, options: &serde_json::Value) -> Vec<LintDiagnostic> {
    let tree = Parser::new(schema).parse();
    let defs: Vec<DocumentDefinition> = tree.document().definitions().map(|d| document_definition(&d)).collect();
    AlphabetizeRuleImpl.check_schema_document(&alphabetize_options(Some(options)), &defs, schema)
}

// ---------------------------------------------------------------------------
// namingConvention: options
// ---------------------------------------------------------------------------

fn naming_case(s: &str) -> Option<NamingCase> {
    Some(match s {
        "camelCase" => NamingCase::Camel,
        "PascalCase" => NamingCase::Pascal,
        "snake_case" => NamingCase::Snake,
        "UPPER_CASE" => NamingCase::Upper,
        _ => return None,
    })
}

fn opt_string(v: &serde_json::Value, key: &str) -> Option<Option<String>> {
    match v.get(key) {
        None | Some(serde_json::Value::Null) => Some(None),
        Some(x) => Some(Some(x.as_str()?.to_string())),
    }
}

fn string_list(v: &serde_json::Value, key: &str) -> Option<Vec<String>> {
    match v.get(key) {
        None => Some(vec![]),
        Some(x) => x.as_array()?.iter().map(|s| s.as_str().map(|s| s.to_string())).collect(),
    }
}

fn flag(v: &serde_json::Value, key: &str) -> Option<bool> {
    match v.get(key) {
        None => Some(false),
        Some(x) => x.as_bool(),
    }
}

fn naming_rule(v: &serde_json::Value) -> Option<NamingRule> {
    if let Some(s) = v.as_str() {
        return naming_case(s).map(NamingRule::Case);
    }
    v.as_object()?;
    let style = match v.get("style") {
        None | Some(serde_json::Value::Null) => None,
        Some(s) => Some(naming_case(s.as_str()?)?),
    };
    Some(NamingRule::Detailed {
        style,
        prefix: opt_string(v, "prefix")?,
        suffix: opt_string(v, "suffix")?,
        forbidden_prefixes: string_list(v, "forbiddenPrefixes")?,
        forbidden_suffixes: string_list(v, "forbiddenSuffixes")?,
        required_prefixes: string_list(v, "requiredPrefixes")?,
        required_suffixes: string_list(v, "requiredSuffixes")?,
        required_pattern: opt_string(v, "requiredPattern")?,
        forbidden_patterns: string_list(v, "forbiddenPatterns")?,
        ignore_pattern: opt_string(v, "ignorePattern")?,
        allow_leading_underscore: flag(v, "allowLeadingUnderscore")?,
        allow_trailing_underscore: flag(v, "allowTrailingUnderscore")?,
    })
}

fn rule_at(v: &serde_json::Value, keys: &[&str]) -> Option<Option<NamingRule>> {
    for k in keys {
        match v.get(*k) {
            None | Some(serde_json::Value::Null) => {}
            Some(x) => return Some(Some(naming_rule(x)?)),
        }
    }
    Some(None)
}

fn naming_options_of(v: &serde_json::Value) -> Option<NamingConventionOptions> {
    v.as_object()?;
    let mut o = NamingConventionOptions::new();
    o.operation_definition = rule_at(v, &["OperationDefinition"])?;
    o.fragment_definition = rule_at(v, &["FragmentDefinition"])?;
    o.variable = rule_at(v, &["VariableDefinition", "Variable"])?;
    o.types = rule_at(v, &["types"])?;
    o.field_definition = rule_at(v, &["FieldDefinition"])?;
    o.input_value_definition = rule_at(v, &["InputValueDefinition"])?;
    o.argument = rule_at(v, &["Argument"])?;
    o.directive_definition = rule_at(v, &["DirectiveDefinition"])?;
    o.enum_value_definition = rule_at(v, &["EnumValueDefinition"])?;
    o.object_type_definition = rule_at(v, &["ObjectTypeDefinition"])?;
    o.interface_type_definition = rule_at(v, &["InterfaceTypeDefinition"])?;
    o.enum_type_definition = rule_at(v, &["EnumTypeDefinition"])?;
    o.union_type_definition = rule_at(v, &["UnionTypeDefinition"])?;
    o.scalar_type_definition = rule_at(v, &["ScalarTypeDefinition"])?;
    o.input_object_type_definition = rule_at(v, &["InputObjectTypeDefinition"])?;
    Some(o)
}

fn naming_options(v: Option<&serde_json::Value>) -> NamingConventionOptions {
    v.and_then(naming_options_of).unwrap_or_else(NamingConventionOptions::new)
}

fn nc_check_with_options(source: &str, options: Option<&serde_json::Value>) -> Vec<LintDiagnostic> {
    NamingConventionRuleImpl.check(&naming_options(options), &parse_document(source))
}

fn nc_check(source: &str) -> Vec<LintDiagnostic> {
    nc_check_with_options(source, None)
}

fn nc_schema_messages(diags: &HashMap<FileId, Vec<LintDiagnostic>>) -> Vec<String> {
    diags.values().flatten().map(|d| d.message.clone()).collect()
}

fn nc_check_schema(schema: &str, options: Option<&serde_json::Value>) -> HashMap<FileId, Vec<LintDiagnostic>> {
    let s = schema_of(schema);
    by_file_id(NamingConventionRuleImpl.check_schema(&naming_options(options), &s.files, &s.types, &s.directives))
}

// ---------------------------------------------------------------------------
// Descriptions: requireDescription, descriptionStyle, noHashtagDescription
// ---------------------------------------------------------------------------

fn literal_of(d: Option<cst::Description>) -> Option<DescriptionLiteral> {
    let sv = d?.string_value()?;
    let r = range_of(sv.syntax());
    let value_len = String::from(sv).len();
    Some(DescriptionLiteral { start: r.start, end: r.end, value_len })
}

fn described(name: Option<cst::Name>, d: Option<cst::Description>) -> Described {
    Described { name: name.map(|n| n.text().to_string()).unwrap_or_default(), description: literal_of(d) }
}

fn described_inputs(v: Option<cst::CstChildren<cst::InputValueDefinition>>) -> Vec<Described> {
    v.map(|v| v.map(|x| described(x.name(), x.description())).collect()).unwrap_or_default()
}

fn described_fields(f: Option<cst::FieldsDefinition>) -> Vec<DescribedField> {
    f.map(|f| {
        f.field_definitions()
            .map(|x| DescribedField {
                name: x.name().map(|n| n.text().to_string()).unwrap_or_default(),
                description: literal_of(x.description()),
                arguments: described_inputs(x.arguments_definition().map(|a| a.input_value_definitions())),
            })
            .collect()
    })
    .unwrap_or_default()
}

/// A definition of a schema document, with its descriptions.
fn described_definition(d: cst::Definition) -> DescribedDefinition {
    let text = |n: Option<cst::Name>| n.map(|n| n.text().to_string()).unwrap_or_default();
    let plain = |kind, name, description| DescribedDefinition { kind, name, description, fields: vec![], items: vec![] };
    match d {
        cst::Definition::ObjectTypeDefinition(t) => DescribedDefinition {
            fields: described_fields(t.fields_definition()),
            ..plain(DescribedKind::Object, text(t.name()), literal_of(t.description()))
        },
        cst::Definition::InterfaceTypeDefinition(t) => DescribedDefinition {
            fields: described_fields(t.fields_definition()),
            ..plain(DescribedKind::Interface, text(t.name()), literal_of(t.description()))
        },
        cst::Definition::UnionTypeDefinition(t) => {
            plain(DescribedKind::Union, text(t.name()), literal_of(t.description()))
        }
        cst::Definition::EnumTypeDefinition(t) => DescribedDefinition {
            items: t
                .enum_values_definition()
                .map(|v| {
                    v.enum_value_definitions()
                        .map(|x| described(x.enum_value().and_then(|e| e.name()), x.description()))
                        .collect()
                })
                .unwrap_or_default(),
            ..plain(DescribedKind::Enum, text(t.name()), literal_of(t.description()))
        },
        cst::Definition::ScalarTypeDefinition(t) => {
            plain(DescribedKind::Scalar, text(t.name()), literal_of(t.description()))
        }
        cst::Definition::InputObjectTypeDefinition(t) => DescribedDefinition {
            items: described_inputs(t.input_fields_definition().map(|f| f.input_value_definitions())),
            ..plain(DescribedKind::InputObject, text(t.name()), literal_of(t.description()))
        },
        cst::Definition::DirectiveDefinition(t) => DescribedDefinition {
            items: described_inputs(t.arguments_definition().map(|a| a.input_value_definitions())),
            ..plain(DescribedKind::Directive, text(t.name()), literal_of(t.description()))
        },
        _ => plain(DescribedKind::Other, String::new(), None),
    }
}

fn description_style_options(v: Option<&serde_json::Value>) -> DescriptionStyleOptions {
    let parse = |v: &serde_json::Value| -> Option<DescriptionStyleOptions> {
        v.as_object()?;
        match v.get("style") {
            None => Some(DescriptionStyleOptions::default()),
            Some(s) => match s.as_str()? {
                "inline" => Some(DescriptionStyleOptions { style: DescriptionStyleKind::Inline }),
                "block" => Some(DescriptionStyleOptions { style: DescriptionStyleKind::Block }),
                _ => None,
            },
        }
    };
    v.and_then(parse).unwrap_or_default()
}

impl Harness<DescriptionStyleRuleImpl> {
    fn check(&self, _db: &RootDatabase, s: Schema, o: Option<&serde_json::Value>) -> ByFile {
        let opts = description_style_options(o);
        let mut out: ByFile = HashMap::new();
        for (id, text) in &s.texts {
            let doc = parse_document(text);
            let defs: Vec<DescribedDefinition> =
                Parser::new(text).parse().document().definitions().map(described_definition).collect();
            let diags = self.0.check(&opts, &doc, &defs);
            if !diags.is_empty() {
                out.entry(*id).or_default().extend(diags);
            }
        }
        out
    }
}

impl Harness<NoHashtagDescriptionRuleImpl> {
    fn check(&self, _db: &RootDatabase, s: Schema, _o: Option<&serde_json::Value>) -> ByFile {
        let files: Vec<DocumentFile> = s
            .texts
            .iter()
            .map(|(id, text)| DocumentFile {
                file_id: *id,
                path: "/schema.graphql".to_string(),
                documents: vec![parse_document(text)],
            })
            .collect();
        by_file(self.0.check(&files))
    }
}

/// A project-wide schema rule.
trait StandaloneSchemaLintRule {
    fn check(&self, db: &RootDatabase, project: Schema, options: Option<&serde_json::Value>) -> HashMap<FileId, Vec<LintDiagnostic>>;
}

/// A rule run on one document file.
trait StandaloneDocumentLintRule {
    fn check(
        &self,
        db: &RootDatabase,
        file_id: FileId,
        content: FileContent,
        metadata: FileMetadata,
        project: ProjectFiles,
        options: Option<&serde_json::Value>,
    ) -> Vec<LintDiagnostic>;
}

impl StandaloneSchemaLintRule for Harness<RequireDescriptionRuleImpl> {
    fn check(&self, _db: &RootDatabase, s: Schema, _o: Option<&serde_json::Value>) -> HashMap<FileId, Vec<LintDiagnostic>> {
        let opts = RequireDescriptionOptions::default();
        by_file_id(self.0.check_schema(&opts, &s.files, &root_list(&s.roots), &s.types, &s.directives))
    }
}

impl StandaloneDocumentLintRule for Harness<RequireDescriptionRuleImpl> {
    fn check(
        &self,
        _db: &RootDatabase,
        _id: FileId,
        content: FileContent,
        _meta: FileMetadata,
        _pf: ProjectFiles,
        _o: Option<&serde_json::Value>,
    ) -> Vec<LintDiagnostic> {
        self.0.check(&RequireDescriptionOptions::default(), &parse_document(&content.0))
    }
}

/// A project whose only document file, id 0, holds `source`.
fn rd_create_document_project(_db: &RootDatabase, source: &str) -> (FileId, FileContent, FileMetadata, ProjectFiles) {
    let id = FileId(0);
    let content = FileContent(Arc::from(source));
    let meta = FileMetadata { uri: FileUri::new("file:///query.graphql"), language: Language::GraphQL };
    let pf = ProjectFiles { schema: vec![], documents: vec![(id, content.clone(), meta.clone())] };
    (id, content, meta, pf)
}

fn rd_messages(diagnostics: &HashMap<FileId, Vec<LintDiagnostic>>) -> Vec<&str> {
    diagnostics.values().flatten().map(|d| d.message.as_str()).collect()
}

// ---------------------------------------------------------------------------
// alphabetize
// ---------------------------------------------------------------------------
#[test]
fn test_alphabetical_selections() {
    let diagnostics = al_check("query Q { user { age email name } }");
    assert!(diagnostics.is_empty());
}

#[test]
fn test_non_alphabetical_selections() {
    let diagnostics = al_check("query Q { user { name age email } }");
    assert_eq!(diagnostics.len(), 1);
    assert!(diagnostics[0]
        .message
        .contains("field \"age\" should be before field \"name\""));
}

#[test]
fn test_nested_non_alphabetical() {
    let diagnostics = al_check("query Q { user { posts { title id } } }");
    assert_eq!(diagnostics.len(), 1);
    assert!(diagnostics[0]
        .message
        .contains("field \"id\" should be before field \"title\""));
}

#[test]
fn test_mixed_field_after_fragment_spread() {
    // Fragment spread `Zed` then field `age` — current is field, previous is fragment spread.
    let diagnostics = al_check("query Q { user { ...Zed age } }");
    assert_eq!(diagnostics.len(), 1);
    assert_eq!(
        diagnostics[0].message,
        "field \"age\" should be before fragment spread \"Zed\""
    );
}

#[test]
fn test_mixed_fragment_spread_after_field() {
    // Field `name` then fragment spread `Avatar` — current is fragment spread, previous is field.
    let diagnostics = al_check("query Q { user { name ...Avatar } }");
    assert_eq!(diagnostics.len(), 1);
    assert_eq!(
        diagnostics[0].message,
        "fragment spread \"Avatar\" should be before field \"name\""
    );
}

#[test]
fn test_selections_array_only_operation_definition() {
    // With `selections: ["OperationDefinition"]`, fragment definitions
    // are NOT scanned for selection-set ordering.
    let opts = json(r#"{ "selections": ["OperationDefinition"] }"#);
    let source = "fragment F on User { name age id }\nquery Q { user { name age id } }\n";
    let diagnostics = al_check_with_options(source, &opts);
    assert_eq!(diagnostics.len(), 1, "expected only the query to fire");
    assert!(diagnostics[0]
        .message
        .contains("field \"age\" should be before field \"name\""));
}

#[test]
fn test_selections_array_only_fragment_definition() {
    let opts = json(r#"{ "selections": ["FragmentDefinition"] }"#);
    let source = "fragment F on User { name age id }\nquery Q { user { name age id } }\n";
    let diagnostics = al_check_with_options(source, &opts);
    assert_eq!(diagnostics.len(), 1, "expected only the fragment to fire");
}

#[test]
fn test_selections_array_both_kinds() {
    let opts = json(r#"{
        "selections": ["OperationDefinition", "FragmentDefinition"]
    }"#);
    let source = "fragment F on User { name age id }\nquery Q { user { name age id } }\n";
    let diagnostics = al_check_with_options(source, &opts);
    assert_eq!(diagnostics.len(), 2);
}

#[test]
fn test_selections_false_disables_check() {
    let opts = json(r#"{ "selections": false }"#);
    let diagnostics = al_check_with_options("query Q { user { name age } }", &opts);
    assert!(diagnostics.is_empty());
}

#[test]
fn test_definitions_unordered_fires() {
    let opts = json(r#"{ "definitions": true }"#);
    let schema = "type Zebra { id: ID! }\ntype Apple { id: ID! }\n";
    let diagnostics = al_check_schema(schema, &opts);
    assert_eq!(
        diagnostics.len(),
        1,
        "expected one definition-order diagnostic"
    );
    assert_eq!(
        diagnostics[0].message,
        "type \"Apple\" should be before type \"Zebra\""
    );
}

#[test]
fn test_definitions_ordered_clean() {
    let opts = json(r#"{ "definitions": true }"#);
    let schema = "type Apple { id: ID! }\ntype Zebra { id: ID! }\n";
    let diagnostics = al_check_schema(schema, &opts);
    assert!(
        diagnostics.is_empty(),
        "expected no diagnostics, got {diagnostics:?}"
    );
}

#[test]
fn test_definitions_off_does_not_fire() {
    let opts = json(r#"{ "values": true }"#);
    let schema = "type Zebra { id: ID! }\ntype Apple { id: ID! }\n";
    let diagnostics = al_check_schema(schema, &opts);
    // No `definitions` flag, so out-of-order types are fine.
    assert!(diagnostics.is_empty());
}

#[test]
fn test_fields_in_object_type_unordered_fires() {
    let opts = json(r#"{ "fields": ["ObjectTypeDefinition"] }"#);
    // `name age id`: only the (name, age) pair is misordered (id > age, so
    // no diagnostic on the second pair). Mirrors graphql-eslint's
    // consecutive-pair scan.
    let schema = "type User { name: String age: Int id: ID! }\n";
    let diagnostics = al_check_schema(schema, &opts);
    assert_eq!(diagnostics.len(), 1, "got: {diagnostics:?}");
    assert_eq!(
        diagnostics[0].message,
        "field \"age\" should be before field \"name\""
    );
}

#[test]
fn test_fields_in_input_object_unordered_fires() {
    let opts = json(r#"{ "fields": ["InputObjectTypeDefinition"] }"#);
    let schema = "input UserFilter { name: String age: Int }\n";
    let diagnostics = al_check_schema(schema, &opts);
    assert_eq!(diagnostics.len(), 1);
    assert_eq!(
        diagnostics[0].message,
        "input value \"age\" should be before input value \"name\""
    );
}

#[test]
fn test_values_in_enum_unordered_fires() {
    let opts = json(r#"{ "values": true }"#);
    let schema = "enum Role { SUPER_ADMIN ADMIN USER GOD }\n";
    let diagnostics = al_check_schema(schema, &opts);
    assert_eq!(diagnostics.len(), 2, "got: {diagnostics:?}");
    assert_eq!(
        diagnostics[0].message,
        "enum value \"ADMIN\" should be before enum value \"SUPER_ADMIN\""
    );
    assert_eq!(
        diagnostics[1].message,
        "enum value \"GOD\" should be before enum value \"USER\""
    );
}

#[test]
fn test_values_off_does_not_fire() {
    let opts = json(r#"{ "definitions": true }"#);
    let schema = "enum Role { Z A }\n";
    let diagnostics = al_check_schema(schema, &opts);
    assert!(diagnostics.is_empty());
}

#[test]
fn test_fields_only_for_interface_when_object_excluded() {
    // `fields` array form narrows to InterfaceTypeDefinition only — the
    // object type's misordered fields must NOT be flagged.
    let opts = json(r#"{ "fields": ["InterfaceTypeDefinition"] }"#);
    let schema =
        "type User { name: String age: Int }\ninterface Node { name: String age: Int }\n";
    let diagnostics = al_check_schema(schema, &opts);
    assert_eq!(diagnostics.len(), 1, "got: {diagnostics:?}");
    assert_eq!(
        diagnostics[0].message,
        "field \"age\" should be before field \"name\""
    );
    // The diagnostic must point at the interface's `age`, not the object's.
    // The interface appears second in the source, so its `age` byte-position
    // is > the object's `age`.
    let object_age = schema.find("type User { name: String age").unwrap()
        + "type User { name: String ".len();
    assert!(
        diagnostics[0].span.start > object_age,
        "diagnostic should point at the interface's `age`, not the object's"
    );
}

#[test]
fn test_fields_bool_true_covers_all_kinds() {
    let opts = json(r#"{ "fields": true }"#);
    let schema =
        "type User { name: String age: Int }\ninput Filter { name: String age: Int }\n";
    let diagnostics = al_check_schema(schema, &opts);
    assert_eq!(diagnostics.len(), 2, "got: {diagnostics:?}");
}

#[test]
fn test_groups_ordering_id_first_wildcard_middle() {
    // `groups: ["id", "*", "createdAt"]` → expected order is:
    //   id (rank 0) < {anything else} (rank 1, alphabetical) < createdAt (rank 2)
    // The schema has fields out of that order (`name` before `id`,
    // `createdAt` before `email`); both should fire.
    let opts = json(r#"{
        "fields": ["ObjectTypeDefinition"],
        "groups": ["id", "*", "createdAt"]
    }"#);
    let schema = "type User { name: String id: ID! createdAt: String email: String }\n";
    let diagnostics = al_check_schema(schema, &opts);
    // 2 misorderings under the group rule:
    //   - `id` (rank 0) should be before `name` (rank 1, *)
    //   - `email` (rank 1, *) should be before `createdAt` (rank 2)
    assert_eq!(diagnostics.len(), 2, "got: {diagnostics:?}");
}

#[test]
fn test_groups_within_bucket_falls_back_to_alphabetical() {
    // No name in `groups`, so everything lands in `*` and the within-
    // bucket order is alphabetical — same as legacy behavior.
    let opts = json(r#"{
        "fields": ["ObjectTypeDefinition"],
        "groups": ["*"]
    }"#);
    let schema = "type User { name: String age: Int }\n";
    let diagnostics = al_check_schema(schema, &opts);
    assert_eq!(diagnostics.len(), 1);
}

#[test]
fn test_groups_unconfigured_uses_alphabetical() {
    // Empty `groups` (the default) keeps the legacy alphabetical
    // comparator — backwards-compatible for existing configs.
    let opts = json(r#"{
        "fields": ["ObjectTypeDefinition"]
    }"#);
    let schema = "type User { name: String age: Int }\n";
    let diagnostics = al_check_schema(schema, &opts);
    assert_eq!(diagnostics.len(), 1);
}

#[test]
fn test_arguments_field_definition_unordered_fires() {
    // `arguments: ["FieldDefinition"]` enables sorting field-arg
    // definitions on object/interface types. `name(b, a)` is
    // misordered → 1 diagnostic.
    let opts = json(r#"{ "arguments": ["FieldDefinition"] }"#);
    let schema = "type Query { user(b: Int, a: Int): String }\n";
    let diagnostics = al_check_schema(schema, &opts);
    assert_eq!(diagnostics.len(), 1, "got: {diagnostics:?}");
}

#[test]
fn test_arguments_directive_definition_unordered_fires() {
    // `arguments: ["DirectiveDefinition"]` enables sorting
    // arguments on directive defs.
    let opts = json(r#"{ "arguments": ["DirectiveDefinition"] }"#);
    let schema = "directive @demo(b: Int, a: Int) on FIELD\n";
    let diagnostics = al_check_schema(schema, &opts);
    assert_eq!(diagnostics.len(), 1, "got: {diagnostics:?}");
}

#[test]
fn test_arguments_per_context_narrowing_excludes_other_kinds() {
    // `arguments: ["FieldDefinition"]` should NOT fire on
    // directive args (they're a different context). `["DirectiveDefinition"]`
    // similarly should not fire on field args.
    let opts = json(r#"{ "arguments": ["FieldDefinition"] }"#);
    let schema = "directive @demo(b: Int, a: Int) on FIELD\n\
                      type Query { user(b: Int, a: Int): String }\n";
    let diagnostics = al_check_schema(schema, &opts);
    // Only the field args fire; the directive args are skipped.
    assert_eq!(diagnostics.len(), 1, "got: {diagnostics:?}");
}

#[test]
fn test_arguments_bool_true_covers_both_contexts() {
    // Bool form enables every context; both field args and directive
    // args should fire.
    let opts = json(r#"{ "arguments": true }"#);
    let schema = "directive @demo(b: Int, a: Int) on FIELD\n\
                      type Query { user(b: Int, a: Int): String }\n";
    let diagnostics = al_check_schema(schema, &opts);
    assert_eq!(diagnostics.len(), 2, "got: {diagnostics:?}");
}

#[test]
fn test_groups_named_bucket_pulls_to_front() {
    // Even with `*` first, an explicit named bucket later in the list
    // wins for that name. `["*", "id"]` means id is LAST.
    let opts = json(r#"{
        "fields": ["ObjectTypeDefinition"],
        "groups": ["*", "id"]
    }"#);
    let schema = "type User { id: ID! name: String age: Int }\n";
    let diagnostics = al_check_schema(schema, &opts);
    // `id` (rank 1) appearing first is a violation; `age` < `name`
    // alphabetically within `*` is also a violation.
    assert_eq!(diagnostics.len(), 2, "got: {diagnostics:?}");
}

// ---------------------------------------------------------------------------
// description_style
// ---------------------------------------------------------------------------
#[test]
fn test_block_style_with_block_option() {
    let db = RootDatabase::default();
    let rule = Harness(DescriptionStyleRuleImpl);
    let schema = r#"
"""A user"""
type User {
    id: ID!
}
"#;
    let project_files = create_schema_project(&db, schema);
    let diagnostics = rule.check(&db, project_files, None); // default is block
    let all: Vec<_> = diagnostics.values().flatten().collect();
    assert!(all.is_empty());
}

#[test]
fn test_inline_style_with_block_option() {
    let db = RootDatabase::default();
    let rule = Harness(DescriptionStyleRuleImpl);
    let schema = r#"
"A user"
type User {
    id: ID!
}
"#;
    let project_files = create_schema_project(&db, schema);
    let diagnostics = rule.check(&db, project_files, None); // default is block
    let all: Vec<_> = diagnostics.values().flatten().collect();
    assert_eq!(all.len(), 1);
    assert_eq!(
        all[0].message,
        "Unexpected inline description for type \"User\""
    );
}

#[test]
fn test_inline_field_description_flagged() {
    let db = RootDatabase::default();
    let rule = Harness(DescriptionStyleRuleImpl);
    let schema = r#"
"""A user"""
type User {
    "The user id"
    id: ID!
}
"#;
    let project_files = create_schema_project(&db, schema);
    let diagnostics = rule.check(&db, project_files, None);
    let all: Vec<_> = diagnostics.values().flatten().collect();
    assert_eq!(all.len(), 1);
    assert_eq!(
        all[0].message,
        "Unexpected inline description for field \"id\" in type \"User\""
    );
}

#[test]
fn test_inline_argument_description_flagged() {
    let db = RootDatabase::default();
    let rule = Harness(DescriptionStyleRuleImpl);
    let schema = r#"
"""A query"""
type Query {
    """Lookup a user"""
    user(
        "The user id"
        id: ID!
    ): String
}
"#;
    let project_files = create_schema_project(&db, schema);
    let diagnostics = rule.check(&db, project_files, None);
    let all: Vec<_> = diagnostics.values().flatten().collect();
    assert_eq!(all.len(), 1);
    assert_eq!(
        all[0].message,
        "Unexpected inline description for input value \"id\" in field \"user\" in type \"Query\""
    );
}

#[test]
fn test_inline_input_field_description_flagged() {
    let db = RootDatabase::default();
    let rule = Harness(DescriptionStyleRuleImpl);
    let schema = r#"
"""Filter input"""
input UserFilter {
    "Match users by id"
    id: ID
}
"#;
    let project_files = create_schema_project(&db, schema);
    let diagnostics = rule.check(&db, project_files, None);
    let all: Vec<_> = diagnostics.values().flatten().collect();
    assert_eq!(all.len(), 1);
    assert_eq!(
        all[0].message,
        "Unexpected inline description for input value \"id\" in input \"UserFilter\""
    );
}

#[test]
fn test_inline_enum_value_description_flagged() {
    let db = RootDatabase::default();
    let rule = Harness(DescriptionStyleRuleImpl);
    let schema = r#"
"""Color"""
enum Color {
    "The color red"
    RED
}
"#;
    let project_files = create_schema_project(&db, schema);
    let diagnostics = rule.check(&db, project_files, None);
    let all: Vec<_> = diagnostics.values().flatten().collect();
    assert_eq!(all.len(), 1);
    assert_eq!(
        all[0].message,
        "Unexpected inline description for enum value \"RED\" in enum \"Color\""
    );
}

#[test]
fn test_inline_directive_definition_description_flagged() {
    let db = RootDatabase::default();
    let rule = Harness(DescriptionStyleRuleImpl);
    let schema = r#"
"Mark a field as cached"
directive @cached(
    "How long to cache"
    seconds: Int
) on FIELD_DEFINITION
"#;
    let project_files = create_schema_project(&db, schema);
    let diagnostics = rule.check(&db, project_files, None);
    let messages: Vec<&str> = diagnostics
        .values()
        .flatten()
        .map(|d| d.message.as_str())
        .collect();
    assert_eq!(messages.len(), 2);
    assert!(messages.contains(&"Unexpected inline description for directive \"cached\""));
    assert!(messages.contains(
        &"Unexpected inline description for input value \"seconds\" in directive \"cached\""
    ));
}

#[test]
fn test_block_style_on_nested_nodes_does_not_warn() {
    let db = RootDatabase::default();
    let rule = Harness(DescriptionStyleRuleImpl);
    let schema = r#"
"""A user"""
type User {
    """Field id"""
    id(
        """Argument something"""
        something: String
    ): ID!
}

"""Color"""
enum Color {
    """Red"""
    RED
}

"""Filter"""
input UserFilter {
    """Filter by id"""
    id: ID
}

"""Cache directive"""
directive @cached(
    """seconds"""
    seconds: Int
) on FIELD_DEFINITION
"#;
    let project_files = create_schema_project(&db, schema);
    let diagnostics = rule.check(&db, project_files, None);
    let all: Vec<_> = diagnostics.values().flatten().collect();
    assert!(all.is_empty(), "expected no diagnostics, got: {all:?}");
}

// ---------------------------------------------------------------------------
// input_name
// ---------------------------------------------------------------------------
#[test]
fn mutation_argument_named_input_is_ok() {
    let db = RootDatabase::default();
    let rule = Harness(InputNameRuleImpl);
    let schema = "type Mutation { setMessage(input: SetMessageInput): String } \
                      input SetMessageInput { message: String }";
    let project_files = create_schema_project(&db, schema);
    let diagnostics = rule.check(&db, project_files, None);
    let all: Vec<_> = diagnostics.values().flatten().collect();
    assert!(all.is_empty());
}

#[test]
fn mutation_argument_not_named_input_reports() {
    let db = RootDatabase::default();
    let rule = Harness(InputNameRuleImpl);
    let schema = "type Mutation { setMessage(message: String): String }";
    let project_files = create_schema_project(&db, schema);
    let diagnostics = rule.check(&db, project_files, None);
    let all: Vec<_> = diagnostics.values().flatten().collect();
    assert_eq!(all.len(), 1);
    assert_eq!(
        all[0].message,
        "Input \"message\" should be named \"input\" for \"Mutation.setMessage\""
    );
}

#[test]
fn multiple_arguments_each_must_be_input() {
    let db = RootDatabase::default();
    let rule = Harness(InputNameRuleImpl);
    let schema = "type Mutation { setMessage(a: String, b: Int): String }";
    let project_files = create_schema_project(&db, schema);
    let diagnostics = rule.check(&db, project_files, None);
    let all: Vec<_> = diagnostics.values().flatten().collect();
    assert_eq!(all.len(), 2);
}

#[test]
fn query_arguments_skipped_by_default() {
    let db = RootDatabase::default();
    let rule = Harness(InputNameRuleImpl);
    let schema = "type Query { user(id: ID!): String }";
    let project_files = create_schema_project(&db, schema);
    let diagnostics = rule.check(&db, project_files, None);
    let all: Vec<_> = diagnostics.values().flatten().collect();
    assert!(all.is_empty());
}

#[test]
fn query_arguments_checked_when_enabled() {
    let db = RootDatabase::default();
    let rule = Harness(InputNameRuleImpl);
    let schema = "type Query { user(id: ID!): String }";
    let project_files = create_schema_project(&db, schema);
    let opts = json(r#"{ "checkQueries": true }"#);
    let diagnostics = rule.check(&db, project_files, Some(&opts));
    let all: Vec<_> = diagnostics.values().flatten().collect();
    assert_eq!(all.len(), 1);
    assert!(all[0].message.contains("Query.user"));
}

#[test]
fn mutations_can_be_disabled() {
    let db = RootDatabase::default();
    let rule = Harness(InputNameRuleImpl);
    let schema = "type Mutation { setMessage(message: String): String }";
    let project_files = create_schema_project(&db, schema);
    let opts = json(r#"{ "checkMutations": false }"#);
    let diagnostics = rule.check(&db, project_files, Some(&opts));
    let all: Vec<_> = diagnostics.values().flatten().collect();
    assert!(all.is_empty());
}

#[test]
fn check_input_type_flags_mismatch() {
    let db = RootDatabase::default();
    let rule = Harness(InputNameRuleImpl);
    let schema = "type Mutation { setMessage(input: InputMessage): String } \
                      input InputMessage { message: String }";
    let project_files = create_schema_project(&db, schema);
    let opts = json(r#"{ "checkInputType": true }"#);
    let diagnostics = rule.check(&db, project_files, Some(&opts));
    let all: Vec<_> = diagnostics.values().flatten().collect();
    assert_eq!(all.len(), 1);
    assert_eq!(
        all[0].message,
        "Input type `InputMessage` name should be `setMessageInput`."
    );
}

#[test]
fn check_input_type_passes_on_matching_name() {
    let db = RootDatabase::default();
    let rule = Harness(InputNameRuleImpl);
    let schema = "type Mutation { setMessage(input: setMessageInput): String } \
                      input setMessageInput { message: String }";
    let project_files = create_schema_project(&db, schema);
    let opts = json(r#"{ "checkInputType": true }"#);
    let diagnostics = rule.check(&db, project_files, Some(&opts));
    let all: Vec<_> = diagnostics.values().flatten().collect();
    assert!(all.is_empty());
}

#[test]
fn case_insensitive_input_type_allows_case_differences() {
    let db = RootDatabase::default();
    let rule = Harness(InputNameRuleImpl);
    let schema = "type Mutation { SetMessage(input: setmessageinput): String } \
                      input setmessageinput { message: String }";
    let project_files = create_schema_project(&db, schema);
    let opts = json(r#"{
        "checkInputType": true,
        "caseSensitiveInputType": false
    }"#);
    let diagnostics = rule.check(&db, project_files, Some(&opts));
    let all: Vec<_> = diagnostics.values().flatten().collect();
    assert!(all.is_empty());
}

#[test]
fn check_input_type_and_argument_name_both_reported() {
    let db = RootDatabase::default();
    let rule = Harness(InputNameRuleImpl);
    let schema = "type Mutation { setMessage(message: InputMessage): String } \
                      input InputMessage { message: String }";
    let project_files = create_schema_project(&db, schema);
    let opts = json(r#"{ "checkInputType": true }"#);
    let diagnostics = rule.check(&db, project_files, Some(&opts));
    let all: Vec<_> = diagnostics.values().flatten().collect();
    assert_eq!(all.len(), 2);
    assert!(all
        .iter()
        .any(|d| d.message.contains("should be named \"input\"")));
    assert!(all
        .iter()
        .any(|d| d.message.contains("name should be `setMessageInput`")));
}

#[test]
fn input_object_type_definitions_are_not_checked() {
    let db = RootDatabase::default();
    let rule = Harness(InputNameRuleImpl);
    // No mutation/query fields - the rule should ignore input type
    // definitions entirely.
    let schema = "input SomeArbitraryName { name: String }";
    let project_files = create_schema_project(&db, schema);
    let diagnostics = rule.check(&db, project_files, None);
    let all: Vec<_> = diagnostics.values().flatten().collect();
    assert!(all.is_empty());
}

// ---------------------------------------------------------------------------
// lone_executable_definition
// ---------------------------------------------------------------------------
#[test]
fn test_single_operation() {
    let diagnostics = led_check("query Q { user { id } }");
    assert!(diagnostics.is_empty());
}

#[test]
fn test_single_fragment() {
    let diagnostics = led_check("fragment F on User { id }");
    assert!(diagnostics.is_empty());
}

#[test]
fn test_multiple_operations() {
    let diagnostics = led_check("query Q1 { user { id } } query Q2 { posts { id } }");
    assert_eq!(diagnostics.len(), 1);
    assert!(diagnostics[0].message.contains("Q2"));
}

#[test]
fn test_operation_and_fragment() {
    let diagnostics = led_check("fragment F on User { id } query Q { user { ...F } }");
    assert_eq!(diagnostics.len(), 1);
}

// ---------------------------------------------------------------------------
// match_document_filename
// ---------------------------------------------------------------------------
#[test]
fn test_matching_query_name() {
    let diagnostics = mdf_check_with_uri(
        "query GetUser { user { id } }",
        "file:///path/to/GetUser.graphql",
    );
    assert!(diagnostics.is_empty());
}

#[test]
fn test_mismatched_query_name() {
    let diagnostics = mdf_check_with_uri(
        "query FetchUser { user { id } }",
        "file:///path/to/GetUser.graphql",
    );
    assert_eq!(diagnostics.len(), 1);
    assert!(diagnostics[0].message.contains("GetUser"));
    assert!(diagnostics[0].message.contains("FetchUser"));
}

#[test]
fn test_matching_mutation_name() {
    let diagnostics = mdf_check_with_uri(
        "mutation UpdateUser { updateUser { id } }",
        "file:///path/to/UpdateUser.graphql",
    );
    assert!(diagnostics.is_empty());
}

#[test]
fn test_mismatched_mutation_name() {
    let diagnostics = mdf_check_with_uri(
        "mutation DeleteUser { deleteUser { id } }",
        "file:///path/to/UpdateUser.graphql",
    );
    assert_eq!(diagnostics.len(), 1);
    assert!(diagnostics[0].message.contains("mutation"));
}

#[test]
fn test_matching_subscription_name() {
    let diagnostics = mdf_check_with_uri(
        "subscription OnUserUpdate { userUpdated { id } }",
        "file:///path/to/OnUserUpdate.graphql",
    );
    assert!(diagnostics.is_empty());
}

#[test]
fn test_matching_fragment_name() {
    let diagnostics = mdf_check_with_uri(
        "fragment UserFields on User { id name }",
        "file:///path/to/UserFields.graphql",
    );
    assert!(diagnostics.is_empty());
}

#[test]
fn test_mismatched_fragment_name() {
    let diagnostics = mdf_check_with_uri(
        "fragment UserDetails on User { id name }",
        "file:///path/to/UserFields.graphql",
    );
    assert_eq!(diagnostics.len(), 1);
    assert!(diagnostics[0].message.contains("fragment"));
    assert!(diagnostics[0].message.contains("UserDetails"));
}

#[test]
fn test_anonymous_query_ignored() {
    let diagnostics =
        mdf_check_with_uri("query { user { id } }", "file:///path/to/GetUser.graphql");
    assert!(diagnostics.is_empty());
}

#[test]
fn test_shorthand_query_ignored() {
    let diagnostics = mdf_check_with_uri("{ user { id } }", "file:///path/to/GetUser.graphql");
    assert!(diagnostics.is_empty());
}

#[test]
fn test_camel_case_style() {
    let options = json(r#"{
        "query": { "style": "camelCase" }
    }"#);
    let diagnostics = mdf_check_with_uri_and_options(
        "query GetUser { user { id } }",
        "file:///path/to/getUser.graphql",
        Some(&options),
    );
    assert!(diagnostics.is_empty());
}

#[test]
fn test_kebab_case_style() {
    let options = json(r#"{
        "query": { "style": "kebab-case" }
    }"#);
    let diagnostics = mdf_check_with_uri_and_options(
        "query GetUserById { user { id } }",
        "file:///path/to/get-user-by-id.graphql",
        Some(&options),
    );
    assert!(diagnostics.is_empty());
}

#[test]
fn test_snake_case_style() {
    let options = json(r#"{
        "query": { "style": "snake_case" }
    }"#);
    let diagnostics = mdf_check_with_uri_and_options(
        "query GetUserById { user { id } }",
        "file:///path/to/get_user_by_id.graphql",
        Some(&options),
    );
    assert!(diagnostics.is_empty());
}

#[test]
fn test_pascal_case_style() {
    let options = json(r#"{
        "query": { "style": "PascalCase" }
    }"#);
    let diagnostics = mdf_check_with_uri_and_options(
        "query get_user { user { id } }",
        "file:///path/to/GetUser.graphql",
        Some(&options),
    );
    assert!(diagnostics.is_empty());
}

#[test]
fn test_suffix_match() {
    let options = json(r#"{
        "query": { "style": "matchDocumentStyle", "suffix": "Query" }
    }"#);
    let diagnostics = mdf_check_with_uri_and_options(
        "query GetUser { user { id } }",
        "file:///path/to/GetUserQuery.graphql",
        Some(&options),
    );
    assert!(diagnostics.is_empty());
}

#[test]
fn test_suffix_mismatch() {
    let options = json(r#"{
        "query": { "style": "matchDocumentStyle", "suffix": "Query" }
    }"#);
    let diagnostics = mdf_check_with_uri_and_options(
        "query GetUser { user { id } }",
        "file:///path/to/GetUser.graphql",
        Some(&options),
    );
    assert_eq!(diagnostics.len(), 1);
    assert!(diagnostics[0].message.contains("GetUserQuery"));
}

#[test]
fn test_fragment_suffix() {
    let options = json(r#"{
        "fragment": { "style": "kebab-case", "suffix": ".fragment" }
    }"#);
    let diagnostics = mdf_check_with_uri_and_options(
        "fragment UserFields on User { id name }",
        "file:///path/to/user-fields.fragment.graphql",
        Some(&options),
    );
    assert!(diagnostics.is_empty());
}

#[test]
fn test_multiple_operations_one_matches() {
    let diagnostics = mdf_check_with_uri(
        "query GetUser { user { id } }\nquery FetchPosts { posts { id } }",
        "file:///path/to/GetUser.graphql",
    );
    // Second operation doesn't match
    assert_eq!(diagnostics.len(), 1);
    assert!(diagnostics[0].message.contains("FetchPosts"));
}

#[test]
fn test_gql_extension() {
    let diagnostics = mdf_check_with_uri(
        "query GetUser { user { id } }",
        "file:///path/to/GetUser.gql",
    );
    assert!(diagnostics.is_empty());
}

#[test]
fn test_mismatch_snapshot() {
    let diagnostics = mdf_check_with_uri(
        r"
query FetchUser { user { id } }
fragment PostDetails on Post { id title }
",
        "file:///path/to/GetUser.graphql",
    );
    let messages: Vec<&str> = diagnostics.iter().map(|d| d.message.as_str()).collect();
    assert_eq!(
        messages,
        vec![
            "Filename 'GetUser' does not match query name 'FetchUser'. Expected filename 'FetchUser'.",
            "Filename 'GetUser' does not match fragment name 'PostDetails'. Expected filename 'PostDetails'.",
        ]
    );
}

// ---------------------------------------------------------------------------
// naming_convention
// ---------------------------------------------------------------------------
#[test]
fn test_no_options_is_noop() {
    let diagnostics = nc_check("query lowercaseOp { user { id } }");
    assert!(diagnostics.is_empty());
    let diagnostics = nc_check("fragment lowercase_frag on User { id }");
    assert!(diagnostics.is_empty());
    let diagnostics = nc_check("query Q($Bad: ID!) { user(id: $Bad) { id } }");
    assert!(diagnostics.is_empty());
}

#[test]
fn test_valid_operation_name() {
    let opts = json(r#"{ "OperationDefinition": "PascalCase" }"#);
    let diagnostics = nc_check_with_options("query GetUser { user { id } }", Some(&opts));
    assert!(diagnostics.is_empty());
}

#[test]
fn test_invalid_operation_name() {
    let opts = json(r#"{ "OperationDefinition": "PascalCase" }"#);
    let diagnostics = nc_check_with_options("query get_user { user { id } }", Some(&opts));
    assert_eq!(diagnostics.len(), 1);
    assert_eq!(
        diagnostics[0].message,
        "Query \"get_user\" should be in PascalCase format"
    );
}

#[test]
fn test_valid_fragment_name() {
    let opts = json(r#"{ "FragmentDefinition": "PascalCase" }"#);
    let diagnostics = nc_check_with_options("fragment UserFields on User { id }", Some(&opts));
    assert!(diagnostics.is_empty());
}

#[test]
fn test_invalid_fragment_name() {
    let opts = json(r#"{ "FragmentDefinition": "PascalCase" }"#);
    let diagnostics = nc_check_with_options("fragment user_fields on User { id }", Some(&opts));
    assert_eq!(diagnostics.len(), 1);
    assert_eq!(
        diagnostics[0].message,
        "Fragment \"user_fields\" should be in PascalCase format"
    );
}

#[test]
fn test_valid_variable_name() {
    let opts = json(r#"{ "VariableDefinition": "camelCase" }"#);
    let diagnostics = nc_check_with_options(
        "query Q($userId: ID!) { user(id: $userId) { id } }",
        Some(&opts),
    );
    assert!(diagnostics.is_empty());
}

#[test]
fn test_invalid_variable_name() {
    let opts = json(r#"{ "VariableDefinition": "camelCase" }"#);
    let diagnostics = nc_check_with_options(
        "query Q($UserId: ID!) { user(id: $UserId) { id } }",
        Some(&opts),
    );
    assert_eq!(diagnostics.len(), 1);
    assert_eq!(
        diagnostics[0].message,
        "Variable \"UserId\" should be in camelCase format"
    );
}

#[test]
fn test_object_form_with_style() {
    let opts = json(r#"{
        "OperationDefinition": {
            "style": "PascalCase",
            "forbiddenPrefixes": ["Query"],
            "forbiddenSuffixes": ["Query"]
        }
    }"#);
    let diagnostics = nc_check_with_options("query lowercaseOp { user { id } }", Some(&opts));
    assert_eq!(diagnostics.len(), 1);
    assert!(diagnostics[0].message.contains("PascalCase"));
}

#[test]
fn test_selector_keys_dont_break_deserialization() {
    let opts = json(r#"{
        "FieldDefinition[parent.name.value=Query]": {
            "forbiddenPrefixes": ["query"]
        },
        "EnumTypeDefinition,EnumTypeExtension": {
            "forbiddenPrefixes": ["Enum"]
        }
    }"#);
    let diagnostics = nc_check_with_options("query GetUser { user { id } }", Some(&opts));
    assert!(diagnostics.is_empty());
}

#[test]
fn test_forbidden_prefix() {
    let opts = json(r#"{
        "OperationDefinition": { "forbiddenPrefixes": ["Get"] }
    }"#);
    let diagnostics = nc_check_with_options("query GetUser { user { id } }", Some(&opts));
    assert_eq!(diagnostics.len(), 1);
    assert_eq!(
        diagnostics[0].message,
        "Query \"GetUser\" should not have \"Get\" prefix"
    );
}

#[test]
fn test_forbidden_suffix() {
    let opts = json(r#"{
        "OperationDefinition": { "forbiddenSuffixes": ["Query"] }
    }"#);
    let diagnostics = nc_check_with_options("query GetUserQuery { user { id } }", Some(&opts));
    assert_eq!(diagnostics.len(), 1);
    assert_eq!(
        diagnostics[0].message,
        "Query \"GetUserQuery\" should not have \"Query\" suffix"
    );
}

#[test]
fn test_required_prefix_singular() {
    let opts = json(r#"{
        "OperationDefinition": { "prefix": "Get" }
    }"#);
    let diagnostics = nc_check_with_options("query FetchUser { user { id } }", Some(&opts));
    assert_eq!(diagnostics.len(), 1);
    assert_eq!(
        diagnostics[0].message,
        "Query \"FetchUser\" should have \"Get\" prefix"
    );
}

#[test]
fn test_required_suffix_singular() {
    let opts = json(r#"{
        "OperationDefinition": { "suffix": "Query" }
    }"#);
    let diagnostics = nc_check_with_options("query GetUser { user { id } }", Some(&opts));
    assert_eq!(diagnostics.len(), 1);
    assert_eq!(
        diagnostics[0].message,
        "Query \"GetUser\" should have \"Query\" suffix"
    );
}

#[test]
fn test_required_prefixes_list_message() {
    let opts = json(r#"{
        "OperationDefinition": { "requiredPrefixes": ["Get", "List"] }
    }"#);
    let diagnostics = nc_check_with_options("query FetchUser { user { id } }", Some(&opts));
    assert_eq!(diagnostics.len(), 1);
    assert_eq!(
        diagnostics[0].message,
        "Query \"FetchUser\" should have one of the following prefixes: Get or List"
    );
}

#[test]
fn test_required_suffixes_three_items_uses_or() {
    let opts = json(r#"{
        "OperationDefinition": { "requiredSuffixes": ["Query", "Mutation", "Subscription"] }
    }"#);
    let diagnostics = nc_check_with_options("query GetUser { user { id } }", Some(&opts));
    assert_eq!(diagnostics.len(), 1);
    assert_eq!(
        diagnostics[0].message,
        "Query \"GetUser\" should have one of the following suffixes: Query, Mutation, or Subscription"
    );
}

#[test]
fn test_required_pattern() {
    let opts = json(r#"{
        "OperationDefinition": { "requiredPattern": "^Get" }
    }"#);
    let diagnostics = nc_check_with_options("query FetchUser { user { id } }", Some(&opts));
    assert_eq!(diagnostics.len(), 1);
    assert_eq!(
        diagnostics[0].message,
        "Query \"FetchUser\" should contain the required pattern: /^Get/"
    );
}

#[test]
fn test_forbidden_patterns() {
    let opts = json(r#"{
        "OperationDefinition": { "forbiddenPatterns": ["^Get"] }
    }"#);
    let diagnostics = nc_check_with_options("query GetUser { user { id } }", Some(&opts));
    assert_eq!(diagnostics.len(), 1);
    assert_eq!(
        diagnostics[0].message,
        "Query \"GetUser\" should not contain the forbidden pattern \"/^Get/\""
    );
}

#[test]
fn test_ignore_pattern_skips_check() {
    let opts = json(r#"{
        "OperationDefinition": {
            "style": "camelCase",
            "ignorePattern": "^EAN13"
        }
    }"#);
    // Operation name fails camelCase but matches ignorePattern → no diag.
    let diagnostics = nc_check_with_options("query EAN13 { user { id } }", Some(&opts));
    assert!(diagnostics.is_empty(), "got: {:?}", diagnostics);
}

#[test]
fn test_allow_leading_underscore_strips_before_case_check() {
    let opts = json(r#"{
        "OperationDefinition": {
            "style": "PascalCase",
            "allowLeadingUnderscore": true
        }
    }"#);
    // After stripping the leading `_`, `_GetUser` → `GetUser`, valid PascalCase.
    let diagnostics = nc_check_with_options("query _GetUser { user { id } }", Some(&opts));
    assert!(diagnostics.is_empty(), "got: {:?}", diagnostics);
}

#[test]
fn test_allow_trailing_underscore_strips_before_case_check() {
    let opts = json(r#"{
        "OperationDefinition": {
            "style": "PascalCase",
            "allowTrailingUnderscore": true
        }
    }"#);
    let diagnostics = nc_check_with_options("query GetUser_ { user { id } }", Some(&opts));
    assert!(diagnostics.is_empty(), "got: {:?}", diagnostics);
}

#[test]
fn test_disallow_leading_underscore_when_not_opted_in() {
    // Without `allowLeadingUnderscore`, the leading `_` is part of the
    // name and PascalCase still rejects it (first char must be uppercase).
    let opts = json(r#"{
        "OperationDefinition": "PascalCase"
    }"#);
    let diagnostics = nc_check_with_options("query _GetUser { user { id } }", Some(&opts));
    assert_eq!(diagnostics.len(), 1);
}

#[test]
fn test_schema_field_definition_camelcase() {
    let opts = json(r#"{ "FieldDefinition": "camelCase" }"#);
    let diags = nc_check_schema("type User { first_name: String }\n", Some(&opts));
    let msgs = nc_schema_messages(&diags);
    assert!(
        msgs.contains(&"Field \"first_name\" should be in camelCase format".to_string()),
        "got: {:?}",
        msgs
    );
}

#[test]
fn test_schema_object_type_pascalcase() {
    let opts = json(r#"{ "ObjectTypeDefinition": "PascalCase" }"#);
    let diags = nc_check_schema("type user { id: ID! }\n", Some(&opts));
    let msgs = nc_schema_messages(&diags);
    assert!(
        msgs.contains(&"Type \"user\" should be in PascalCase format".to_string()),
        "got: {:?}",
        msgs
    );
}

#[test]
fn test_schema_enum_value_upper_case() {
    let opts = json(r#"{ "EnumValueDefinition": "UPPER_CASE" }"#);
    let diags = nc_check_schema("enum Color { red GREEN }\n", Some(&opts));
    let msgs = nc_schema_messages(&diags);
    assert!(
        msgs.iter()
            .any(|m| m == "Enum value \"red\" should be in UPPER_CASE format"),
        "got: {:?}",
        msgs
    );
    assert!(
        !msgs.iter().any(|m| m.contains("\"GREEN\"")),
        "GREEN should pass UPPER_CASE; got: {:?}",
        msgs
    );
}

#[test]
fn test_schema_input_value_definition() {
    let opts = json(r#"{ "InputValueDefinition": "camelCase" }"#);
    let diags = nc_check_schema("input UserFilter { ID_field: String }\n", Some(&opts));
    let msgs = nc_schema_messages(&diags);
    assert!(
        msgs.contains(&"Input value \"ID_field\" should be in camelCase format".to_string()),
        "got: {:?}",
        msgs
    );
}

#[test]
fn test_schema_argument() {
    let opts = json(r#"{ "Argument": "camelCase" }"#);
    let diags = nc_check_schema("type Query { user(User_Id: ID!): String }\n", Some(&opts));
    let msgs = nc_schema_messages(&diags);
    assert!(
        msgs.contains(&"Argument \"User_Id\" should be in camelCase format".to_string()),
        "got: {:?}",
        msgs
    );
}

#[test]
fn test_schema_directive_definition() {
    let opts = json(r#"{ "DirectiveDefinition": "camelCase" }"#);
    let diags = nc_check_schema("directive @My_Cool_Dir on FIELD_DEFINITION\n", Some(&opts));
    let msgs = nc_schema_messages(&diags);
    assert!(
        msgs.contains(&"Directive \"My_Cool_Dir\" should be in camelCase format".to_string()),
        "got: {:?}",
        msgs
    );
}

#[test]
fn test_schema_interface_union_scalar_input_each_check() {
    let opts = json(r#"{
        "InterfaceTypeDefinition": "PascalCase",
        "UnionTypeDefinition": "PascalCase",
        "ScalarTypeDefinition": "PascalCase",
        "InputObjectTypeDefinition": "PascalCase"
    }"#);
    let schema = r"
            interface my_iface { id: ID! }
            type A implements my_iface { id: ID! }
            type B { id: ID! }
            union my_union = A | B
            scalar my_scalar
            input my_input { id: ID! }
        ";
    let diags = nc_check_schema(schema, Some(&opts));
    let msgs = nc_schema_messages(&diags);
    assert!(
        msgs.iter()
            .any(|m| m == "Interface \"my_iface\" should be in PascalCase format"),
        "got: {:?}",
        msgs
    );
    assert!(
        msgs.iter()
            .any(|m| m == "Union \"my_union\" should be in PascalCase format"),
        "got: {:?}",
        msgs
    );
    assert!(
        msgs.iter()
            .any(|m| m == "Scalar \"my_scalar\" should be in PascalCase format"),
        "got: {:?}",
        msgs
    );
    assert!(
        msgs.iter()
            .any(|m| m == "Input \"my_input\" should be in PascalCase format"),
        "got: {:?}",
        msgs
    );
}

#[test]
fn test_schema_types_umbrella_applies_to_all_unmapped_kinds() {
    let opts = json(r#"{ "types": "PascalCase" }"#);
    let schema = r"
            type good_type { id: ID! }
            interface good_iface { id: ID! }
            enum good_enum { A B }
            scalar good_scalar
            input good_input { id: ID! }
        ";
    let diags = nc_check_schema(schema, Some(&opts));
    let msgs = nc_schema_messages(&diags);
    for expected_kind in ["Type", "Interface", "Enum", "Scalar", "Input"] {
        assert!(
            msgs.iter()
                .any(|m| m.starts_with(expected_kind) && m.contains("PascalCase")),
            "expected umbrella diagnostic for {expected_kind}, got: {:?}",
            msgs
        );
    }
}

#[test]
fn test_schema_explicit_override_wins_over_types_umbrella() {
    // umbrella says PascalCase but ObjectTypeDefinition explicitly allows
    // snake_case for object types only.
    let opts = json(r#"{
        "types": "PascalCase",
        "ObjectTypeDefinition": "snake_case"
    }"#);
    let schema = r"
            type my_type { id: ID! }
            interface my_iface { id: ID! }
        ";
    let diags = nc_check_schema(schema, Some(&opts));
    let msgs = nc_schema_messages(&diags);
    // `my_type` passes snake_case → no diag.
    assert!(
        !msgs.iter().any(|m| m.contains("\"my_type\"")),
        "object should pass override, got: {:?}",
        msgs
    );
    // `my_iface` falls through to umbrella (PascalCase) → diag.
    assert!(
        msgs.iter()
            .any(|m| m == "Interface \"my_iface\" should be in PascalCase format"),
        "interface should fall through to umbrella, got: {:?}",
        msgs
    );
}

#[test]
fn test_schema_field_forbidden_prefix() {
    let opts = json(r#"{
        "FieldDefinition": { "forbiddenPrefixes": ["get"] }
    }"#);
    let diags = nc_check_schema("type User { getName: String }\n", Some(&opts));
    let msgs = nc_schema_messages(&diags);
    assert!(
        msgs.contains(&"Field \"getName\" should not have \"get\" prefix".to_string()),
        "got: {:?}",
        msgs
    );
}

#[test]
fn test_schema_ignore_pattern_skips() {
    let opts = json(r#"{
        "FieldDefinition": {
            "style": "camelCase",
            "ignorePattern": "^(EAN13|UPC)"
        }
    }"#);
    let schema = "type Product { EAN13: String UPC: String NotIgnored: String }\n";
    let diags = nc_check_schema(schema, Some(&opts));
    let msgs = nc_schema_messages(&diags);
    // EAN13/UPC ignored, NotIgnored fails camelCase.
    assert_eq!(msgs.len(), 1, "got: {:?}", msgs);
    assert_eq!(
        msgs[0],
        "Field \"NotIgnored\" should be in camelCase format"
    );
}

// ---------------------------------------------------------------------------
// no_anonymous_operations
// ---------------------------------------------------------------------------
#[test]
fn test_anonymous_query_with_keyword() {
    let db = RootDatabase::default();
    let rule = Harness(NoAnonymousOperationsRuleImpl);

    let source = "
query {
  user {
    id
    name
  }
}
";

    let file_id = FileId::new(0);
    let content = FileContent::new(&db, Arc::from(source));
    let metadata = FileMetadata::new(
        &db,
        file_id,
        FileUri::new("file:///test.graphql"),
        Language::GraphQL,
        DocumentKind::Executable,
    );
    let project_files = create_test_project_files(&db);

    let diagnostics = rule.check(&db, file_id, content, metadata, project_files, None);

    assert_eq!(diagnostics.len(), 1);
    assert!(diagnostics[0]
        .message
        .contains("Anonymous GraphQL operations are forbidden. Make sure to name your query"));
    assert_eq!(diagnostics[0].severity, LintSeverity::Error);
}

#[test]
fn test_anonymous_query_shorthand() {
    let db = RootDatabase::default();
    let rule = Harness(NoAnonymousOperationsRuleImpl);

    let source = "
{
  user {
    id
    name
  }
}
";

    let file_id = FileId::new(0);
    let content = FileContent::new(&db, Arc::from(source));
    let metadata = FileMetadata::new(
        &db,
        file_id,
        FileUri::new("file:///test.graphql"),
        Language::GraphQL,
        DocumentKind::Executable,
    );
    let project_files = create_test_project_files(&db);

    let diagnostics = rule.check(&db, file_id, content, metadata, project_files, None);

    assert_eq!(diagnostics.len(), 1);
    assert!(diagnostics[0]
        .message
        .contains("Anonymous GraphQL operations are forbidden. Make sure to name your query"));
    assert_eq!(diagnostics[0].severity, LintSeverity::Error);
}

#[test]
fn test_anonymous_mutation() {
    let db = RootDatabase::default();
    let rule = Harness(NoAnonymousOperationsRuleImpl);

    let source = "
mutation {
  updateUser(id: \"123\", name: \"Alice\") {
    id
    name
  }
}
";

    let file_id = FileId::new(0);
    let content = FileContent::new(&db, Arc::from(source));
    let metadata = FileMetadata::new(
        &db,
        file_id,
        FileUri::new("file:///test.graphql"),
        Language::GraphQL,
        DocumentKind::Executable,
    );
    let project_files = create_test_project_files(&db);

    let diagnostics = rule.check(&db, file_id, content, metadata, project_files, None);

    assert_eq!(diagnostics.len(), 1);
    assert!(diagnostics[0].message.contains(
        "Anonymous GraphQL operations are forbidden. Make sure to name your mutation"
    ));
    assert_eq!(diagnostics[0].severity, LintSeverity::Error);
}

#[test]
fn test_anonymous_subscription() {
    let db = RootDatabase::default();
    let rule = Harness(NoAnonymousOperationsRuleImpl);

    let source = "
subscription {
  messageAdded {
    id
    content
  }
}
";

    let file_id = FileId::new(0);
    let content = FileContent::new(&db, Arc::from(source));
    let metadata = FileMetadata::new(
        &db,
        file_id,
        FileUri::new("file:///test.graphql"),
        Language::GraphQL,
        DocumentKind::Executable,
    );
    let project_files = create_test_project_files(&db);

    let diagnostics = rule.check(&db, file_id, content, metadata, project_files, None);

    assert_eq!(diagnostics.len(), 1);
    assert!(diagnostics[0].message.contains(
        "Anonymous GraphQL operations are forbidden. Make sure to name your subscription"
    ));
    assert_eq!(diagnostics[0].severity, LintSeverity::Error);
}

#[test]
fn test_named_query() {
    let db = RootDatabase::default();
    let rule = Harness(NoAnonymousOperationsRuleImpl);

    let source = "
query GetUser {
  user {
    id
    name
  }
}
";

    let file_id = FileId::new(0);
    let content = FileContent::new(&db, Arc::from(source));
    let metadata = FileMetadata::new(
        &db,
        file_id,
        FileUri::new("file:///test.graphql"),
        Language::GraphQL,
        DocumentKind::Executable,
    );
    let project_files = create_test_project_files(&db);

    let diagnostics = rule.check(&db, file_id, content, metadata, project_files, None);

    assert_eq!(diagnostics.len(), 0);
}

#[test]
fn test_named_mutation() {
    let db = RootDatabase::default();
    let rule = Harness(NoAnonymousOperationsRuleImpl);

    let source = "
mutation UpdateUser {
  updateUser(id: \"123\", name: \"Alice\") {
    id
    name
  }
}
";

    let file_id = FileId::new(0);
    let content = FileContent::new(&db, Arc::from(source));
    let metadata = FileMetadata::new(
        &db,
        file_id,
        FileUri::new("file:///test.graphql"),
        Language::GraphQL,
        DocumentKind::Executable,
    );
    let project_files = create_test_project_files(&db);

    let diagnostics = rule.check(&db, file_id, content, metadata, project_files, None);

    assert_eq!(diagnostics.len(), 0);
}

#[test]
fn test_named_subscription() {
    let db = RootDatabase::default();
    let rule = Harness(NoAnonymousOperationsRuleImpl);

    let source = "
subscription OnMessageAdded {
  messageAdded {
    id
    content
  }
}
";

    let file_id = FileId::new(0);
    let content = FileContent::new(&db, Arc::from(source));
    let metadata = FileMetadata::new(
        &db,
        file_id,
        FileUri::new("file:///test.graphql"),
        Language::GraphQL,
        DocumentKind::Executable,
    );
    let project_files = create_test_project_files(&db);

    let diagnostics = rule.check(&db, file_id, content, metadata, project_files, None);

    assert_eq!(diagnostics.len(), 0);
}

#[test]
fn test_multiple_operations_some_anonymous() {
    let db = RootDatabase::default();
    let rule = Harness(NoAnonymousOperationsRuleImpl);

    let source = "
query GetUser {
  user {
    id
  }
}

mutation {
  updateUser(id: \"123\") {
    id
  }
}

query {
  posts {
    id
  }
}
";

    let file_id = FileId::new(0);
    let content = FileContent::new(&db, Arc::from(source));
    let metadata = FileMetadata::new(
        &db,
        file_id,
        FileUri::new("file:///test.graphql"),
        Language::GraphQL,
        DocumentKind::Executable,
    );
    let project_files = create_test_project_files(&db);

    let diagnostics = rule.check(&db, file_id, content, metadata, project_files, None);

    // Should have 2 diagnostics - one for the anonymous mutation, one for the anonymous query
    assert_eq!(diagnostics.len(), 2);
    assert!(diagnostics
        .iter()
        .any(|d| d.message.contains("name your mutation")));
    assert!(diagnostics
        .iter()
        .any(|d| d.message.contains("name your query")));
}

#[test]
fn test_fragment_definitions_ignored() {
    let db = RootDatabase::default();
    let rule = Harness(NoAnonymousOperationsRuleImpl);

    let source = "
fragment UserFields on User {
  id
  name
  email
}

query GetUser {
  user {
    ...UserFields
  }
}
";

    let file_id = FileId::new(0);
    let content = FileContent::new(&db, Arc::from(source));
    let metadata = FileMetadata::new(
        &db,
        file_id,
        FileUri::new("file:///test.graphql"),
        Language::GraphQL,
        DocumentKind::Executable,
    );
    let project_files = create_test_project_files(&db);

    let diagnostics = rule.check(&db, file_id, content, metadata, project_files, None);

    // Fragment definitions should be ignored, query is named
    assert_eq!(diagnostics.len(), 0);
}

#[test]
fn test_single_anonymous_operation() {
    let db = RootDatabase::default();
    let rule = Harness(NoAnonymousOperationsRuleImpl);

    let source = "
query {
  user {
    id
    name
  }
}
";

    let file_id = FileId::new(0);
    let content = FileContent::new(&db, Arc::from(source));
    let metadata = FileMetadata::new(
        &db,
        file_id,
        FileUri::new("file:///test.graphql"),
        Language::GraphQL,
        DocumentKind::Executable,
    );
    let project_files = create_test_project_files(&db);

    let diagnostics = rule.check(&db, file_id, content, metadata, project_files, None);

    // Even a single anonymous operation should fail (per user's request)
    assert_eq!(diagnostics.len(), 1);
    assert!(diagnostics[0]
        .message
        .contains("Anonymous GraphQL operations are forbidden. Make sure to name your query"));
}

#[test]
fn test_named_query_with_variables() {
    let db = RootDatabase::default();
    let rule = Harness(NoAnonymousOperationsRuleImpl);

    let source = "
query GetUserById($id: ID!) {
  user(id: $id) {
    id
    name
  }
}
";

    let file_id = FileId::new(0);
    let content = FileContent::new(&db, Arc::from(source));
    let metadata = FileMetadata::new(
        &db,
        file_id,
        FileUri::new("file:///test.graphql"),
        Language::GraphQL,
        DocumentKind::Executable,
    );
    let project_files = create_test_project_files(&db);

    let diagnostics = rule.check(&db, file_id, content, metadata, project_files, None);

    assert_eq!(diagnostics.len(), 0);
}

#[test]
fn test_anonymous_query_with_variables() {
    let db = RootDatabase::default();
    let rule = Harness(NoAnonymousOperationsRuleImpl);

    let source = "
query($id: ID!) {
  user(id: $id) {
    id
    name
  }
}
";

    let file_id = FileId::new(0);
    let content = FileContent::new(&db, Arc::from(source));
    let metadata = FileMetadata::new(
        &db,
        file_id,
        FileUri::new("file:///test.graphql"),
        Language::GraphQL,
        DocumentKind::Executable,
    );
    let project_files = create_test_project_files(&db);

    let diagnostics = rule.check(&db, file_id, content, metadata, project_files, None);

    assert_eq!(diagnostics.len(), 1);
    assert!(diagnostics[0]
        .message
        .contains("Anonymous GraphQL operations are forbidden. Make sure to name your query"));
}

#[test]
fn test_anonymous_operations_snapshot() {
    let db = RootDatabase::default();
    let rule = Harness(NoAnonymousOperationsRuleImpl);

    let source = r#"
query { users { id } }
mutation { updateUser(id: "1") { id } }
subscription { onUserUpdate { id } }
"#;

    let file_id = FileId::new(0);
    let content = FileContent::new(&db, Arc::from(source));
    let metadata = FileMetadata::new(
        &db,
        file_id,
        FileUri::new("file:///test.graphql"),
        Language::GraphQL,
        DocumentKind::Executable,
    );
    let project_files = create_test_project_files(&db);

    let diagnostics = rule.check(&db, file_id, content, metadata, project_files, None);

    let messages: Vec<&str> = diagnostics.iter().map(|d| d.message.as_str()).collect();
    assert_eq!(
        messages,
        vec![
            "Anonymous GraphQL operations are forbidden. Make sure to name your query!",
            "Anonymous GraphQL operations are forbidden. Make sure to name your mutation!",
            "Anonymous GraphQL operations are forbidden. Make sure to name your subscription!",
        ]
    );
}

// ---------------------------------------------------------------------------
// no_deprecated
// ---------------------------------------------------------------------------
const SCHEMA_WITH_DEPRECATIONS: &str = r#"
type Query {
    user(id: ID!): User
    oldUser(id: ID!): User @deprecated(reason: "Use user instead")
}

type User {
    id: ID!
    name: String!
    email: String!
    username: String @deprecated(reason: "Use name instead")
    posts(status: PostStatus): [Post!]!
}

type Post {
    id: ID!
    title: String!
}

enum PostStatus {
    PUBLISHED
    DRAFT
    ARCHIVED @deprecated(reason: "Use DRAFT instead")
}
"#;

#[test]
fn test_deprecated_field_warning() {
    let db = RootDatabase::default();
    let rule = Harness(NoDeprecatedRuleImpl);

    let source = r#"
query GetUser {
    user(id: "1") {
        id
        username
    }
}
"#;

    let (file_id, content, metadata, project_files) =
        nd_create_test_project(&db, SCHEMA_WITH_DEPRECATIONS, source);

    let diagnostics = rule.check(&db, file_id, content, metadata, project_files, None);

    assert_eq!(diagnostics.len(), 1);
    assert!(diagnostics[0].message.contains("username"));
    assert!(diagnostics[0].message.contains("deprecated"));
    assert!(diagnostics[0].message.contains("Use name instead"));
}

#[test]
fn test_no_warning_for_non_deprecated_fields() {
    let db = RootDatabase::default();
    let rule = Harness(NoDeprecatedRuleImpl);

    let source = r#"
query GetUser {
    user(id: "1") {
        id
        name
        email
    }
}
"#;

    let (file_id, content, metadata, project_files) =
        nd_create_test_project(&db, SCHEMA_WITH_DEPRECATIONS, source);

    let diagnostics = rule.check(&db, file_id, content, metadata, project_files, None);

    assert_eq!(diagnostics.len(), 0);
}

#[test]
fn test_deprecated_root_field_warning() {
    let db = RootDatabase::default();
    let rule = Harness(NoDeprecatedRuleImpl);

    let source = r#"
query GetUser {
    oldUser(id: "1") {
        id
        name
    }
}
"#;

    let (file_id, content, metadata, project_files) =
        nd_create_test_project(&db, SCHEMA_WITH_DEPRECATIONS, source);

    let diagnostics = rule.check(&db, file_id, content, metadata, project_files, None);

    assert_eq!(diagnostics.len(), 1);
    assert!(diagnostics[0].message.contains("oldUser"));
    assert!(diagnostics[0].message.contains("deprecated"));
}

#[test]
fn test_deprecated_enum_value_warning() {
    let db = RootDatabase::default();
    let rule = Harness(NoDeprecatedRuleImpl);

    let source = r#"
query GetUserPosts {
    user(id: "1") {
        posts(status: ARCHIVED) {
            id
            title
        }
    }
}
"#;

    let (file_id, content, metadata, project_files) =
        nd_create_test_project(&db, SCHEMA_WITH_DEPRECATIONS, source);

    let diagnostics = rule.check(&db, file_id, content, metadata, project_files, None);

    assert_eq!(diagnostics.len(), 1);
    assert!(diagnostics[0].message.contains("ARCHIVED"));
    assert!(diagnostics[0].message.contains("deprecated"));
}

#[test]
fn test_non_deprecated_enum_value_no_warning() {
    let db = RootDatabase::default();
    let rule = Harness(NoDeprecatedRuleImpl);

    let source = r#"
query GetUserPosts {
    user(id: "1") {
        posts(status: PUBLISHED) {
            id
            title
        }
    }
}
"#;

    let (file_id, content, metadata, project_files) =
        nd_create_test_project(&db, SCHEMA_WITH_DEPRECATIONS, source);

    let diagnostics = rule.check(&db, file_id, content, metadata, project_files, None);

    assert_eq!(diagnostics.len(), 0);
}

#[test]
fn test_multiple_deprecated_usages() {
    let db = RootDatabase::default();
    let rule = Harness(NoDeprecatedRuleImpl);

    let source = r#"
query GetUser {
    oldUser(id: "1") {
        id
        username
    }
}
"#;

    let (file_id, content, metadata, project_files) =
        nd_create_test_project(&db, SCHEMA_WITH_DEPRECATIONS, source);

    let diagnostics = rule.check(&db, file_id, content, metadata, project_files, None);

    assert_eq!(diagnostics.len(), 2);
    let messages: Vec<&str> = diagnostics.iter().map(|d| d.message.as_str()).collect();
    assert!(messages.iter().any(|m| m.contains("oldUser")));
    assert!(messages.iter().any(|m| m.contains("username")));
}

#[test]
fn test_deprecated_field_in_fragment() {
    let db = RootDatabase::default();
    let rule = Harness(NoDeprecatedRuleImpl);

    let source = r#"
fragment UserFields on User {
    id
    username
}

query GetUser {
    user(id: "1") {
        ...UserFields
    }
}
"#;

    let (file_id, content, metadata, project_files) =
        nd_create_test_project(&db, SCHEMA_WITH_DEPRECATIONS, source);

    let diagnostics = rule.check(&db, file_id, content, metadata, project_files, None);

    assert_eq!(diagnostics.len(), 1);
    assert!(diagnostics[0].message.contains("username"));
}

#[test]
fn test_mutation_with_deprecated_field() {
    let db = RootDatabase::default();
    let rule = Harness(NoDeprecatedRuleImpl);

    let schema = r"
type Query {
    user: User
}

type Mutation {
    updateUser(id: ID!): User
}

type User {
    id: ID!
    name: String!
    oldField: String @deprecated
}
";

    let source = r#"
mutation UpdateUser {
    updateUser(id: "1") {
        oldField
    }
}
"#;

    let (file_id, content, metadata, project_files) = nd_create_test_project(&db, schema, source);

    let diagnostics = rule.check(&db, file_id, content, metadata, project_files, None);

    assert_eq!(diagnostics.len(), 1);
    assert!(diagnostics[0].message.contains("oldField"));
}

#[test]
fn test_nested_selection_deprecated_field() {
    let db = RootDatabase::default();
    let rule = Harness(NoDeprecatedRuleImpl);

    let schema = r#"
type Query {
    user: User
}

type User {
    id: ID!
    profile: Profile
}

type Profile {
    bio: String
    oldAvatar: String @deprecated(reason: "Use avatar instead")
}
"#;

    let source = r"
query GetUser {
    user {
        id
        profile {
            bio
            oldAvatar
        }
    }
}
";

    let (file_id, content, metadata, project_files) = nd_create_test_project(&db, schema, source);

    let diagnostics = rule.check(&db, file_id, content, metadata, project_files, None);

    assert_eq!(diagnostics.len(), 1);
    assert!(diagnostics[0].message.contains("oldAvatar"));
}

#[test]
fn test_inline_fragment_deprecated_field() {
    let db = RootDatabase::default();
    let rule = Harness(NoDeprecatedRuleImpl);

    let schema = r"
type Query {
    node(id: ID!): Node
}

interface Node {
    id: ID!
}

type User implements Node {
    id: ID!
    name: String!
    oldField: String @deprecated
}
";

    let source = r#"
query GetNode {
    node(id: "1") {
        id
        ... on User {
            name
            oldField
        }
    }
}
"#;

    let (file_id, content, metadata, project_files) = nd_create_test_project(&db, schema, source);

    let diagnostics = rule.check(&db, file_id, content, metadata, project_files, None);

    assert_eq!(diagnostics.len(), 1);
    assert!(diagnostics[0].message.contains("oldField"));
}

#[test]
fn no_deprecated_test_deprecated_without_reason() {
    let db = RootDatabase::default();
    let rule = Harness(NoDeprecatedRuleImpl);

    let schema = r"
type Query {
    user: User
}

type User {
    id: ID!
    legacyField: String @deprecated
}
";

    let source = r"
query GetUser {
    user {
        legacyField
    }
}
";

    let (file_id, content, metadata, project_files) = nd_create_test_project(&db, schema, source);

    let diagnostics = rule.check(&db, file_id, content, metadata, project_files, None);

    assert_eq!(diagnostics.len(), 1);
    assert!(diagnostics[0].message.contains("legacyField"));
    assert!(diagnostics[0].message.contains("deprecated"));
    assert!(!diagnostics[0].message.contains(':'));
}

// ---------------------------------------------------------------------------
// no_hashtag_description
// ---------------------------------------------------------------------------
#[test]
fn test_proper_description() {
    let db = RootDatabase::default();
    let rule = Harness(NoHashtagDescriptionRuleImpl);
    let schema = r#"
"A user in the system"
type User {
    id: ID!
}
"#;
    let project_files = create_schema_project(&db, schema);
    let diagnostics = rule.check(&db, project_files, None);
    let all: Vec<_> = diagnostics.values().flatten().collect();
    assert!(all.is_empty());
}

#[test]
fn test_hashtag_description_on_type() {
    let db = RootDatabase::default();
    let rule = Harness(NoHashtagDescriptionRuleImpl);
    let schema = r"
# A user in the system
type User {
    id: ID!
}
";
    let project_files = create_schema_project(&db, schema);
    let diagnostics = rule.check(&db, project_files, None);
    let all: Vec<_> = diagnostics.values().flatten().collect();
    assert_eq!(all.len(), 1);
    assert!(all[0].message.contains("type \"User\""));
    assert!(all[0].message.contains("Unexpected GraphQL descriptions"));
}

#[test]
fn test_consecutive_comments_collapse_to_one_diagnostic() {
    // Multiple `#` lines describing the same entity should produce one
    // diagnostic, not one per line.
    let db = RootDatabase::default();
    let rule = Harness(NoHashtagDescriptionRuleImpl);
    let schema = r"
# Represents a user
# More about the user
type User {
    id: ID!
}
";
    let project_files = create_schema_project(&db, schema);
    let diagnostics = rule.check(&db, project_files, None);
    let all: Vec<_> = diagnostics.values().flatten().collect();
    assert_eq!(all.len(), 1, "expected one diagnostic for the whole block");
}

#[test]
fn test_hashtag_description_on_field() {
    let db = RootDatabase::default();
    let rule = Harness(NoHashtagDescriptionRuleImpl);
    let schema = r"
type User {
    # The user's display name
    name: String!
}
";
    let project_files = create_schema_project(&db, schema);
    let diagnostics = rule.check(&db, project_files, None);
    let all: Vec<_> = diagnostics.values().flatten().collect();
    assert_eq!(all.len(), 1);
    assert!(all[0].message.contains("field \"name\" in type \"User\""));
}

#[test]
fn test_inline_comment_not_attached_when_separated_by_blank_line() {
    // A blank line between the comment and the next definition means the
    // comment is documentation, not a description.
    let db = RootDatabase::default();
    let rule = Harness(NoHashtagDescriptionRuleImpl);
    let schema = r#"
# This is a file-level note about the schema.

"A user"
type User {
    id: ID!
}
"#;
    let project_files = create_schema_project(&db, schema);
    let diagnostics = rule.check(&db, project_files, None);
    let all: Vec<_> = diagnostics.values().flatten().collect();
    assert!(all.is_empty());
}

// ---------------------------------------------------------------------------
// no_one_place_fragments
// ---------------------------------------------------------------------------
#[test]
fn test_fragment_used_once() {
    let db = RootDatabase::default();
    let rule = Harness(NoOnePlaceFragmentsRuleImpl);

    let source = "fragment F on User { name } query Q { user { ...F } }";
    let file_id = FileId::new(0);
    let content = FileContent::new(&db, Arc::from(source));
    let metadata = FileMetadata::new(
        &db,
        file_id,
        FileUri::new("file:///test.graphql"),
        Language::GraphQL,
        DocumentKind::Executable,
    );

    let project_files = files_project(&db, &[(file_id, content, metadata)]);
    let diagnostics = rule.check(&db, project_files, None);

    let file_diags = diagnostics.get(&file_id);
    assert!(
        file_diags.is_some_and(|d| d.len() == 1),
        "Expected one diagnostic for one-place fragment"
    );
    let diag = &file_diags.unwrap()[0];
    assert!(
        diag.message.starts_with("Fragment `F` used only once."),
        "unexpected message: {}",
        diag.message
    );
    assert!(
        diag.message.contains("Inline him in \""),
        "missing `Inline him in` suffix; got: {}",
        diag.message
    );
    assert!(
        diag.message.contains("test.graphql"),
        "expected usage-site path in message; got: {}",
        diag.message
    );
}

#[test]
fn test_fragment_used_multiple_times() {
    let db = RootDatabase::default();
    let rule = Harness(NoOnePlaceFragmentsRuleImpl);

    let source =
        "fragment F on User { name } query Q1 { user { ...F } } query Q2 { users { ...F } }";
    let file_id = FileId::new(0);
    let content = FileContent::new(&db, Arc::from(source));
    let metadata = FileMetadata::new(
        &db,
        file_id,
        FileUri::new("file:///test.graphql"),
        Language::GraphQL,
        DocumentKind::Executable,
    );

    let project_files = files_project(&db, &[(file_id, content, metadata)]);
    let diagnostics = rule.check(&db, project_files, None);

    let file_diags = diagnostics.get(&file_id);
    assert!(
        file_diags.is_none() || file_diags.is_some_and(Vec::is_empty),
        "Expected no diagnostic for fragment used in multiple places"
    );
}

// ---------------------------------------------------------------------------
// no_root_type
// ---------------------------------------------------------------------------
#[test]
fn test_no_options_produces_no_diagnostics() {
    let db = RootDatabase::default();
    let rule = Harness(NoRootTypeRuleImpl);
    let schema = "type Query { field: String } type Mutation { doThing: String }";
    let project_files = create_schema_project(&db, schema);
    let diagnostics = rule.check(&db, project_files, None);
    let all: Vec<_> = diagnostics.values().flatten().collect();
    assert!(all.is_empty());
}

#[test]
fn test_empty_disallow_produces_no_diagnostics() {
    let db = RootDatabase::default();
    let rule = Harness(NoRootTypeRuleImpl);
    let schema = "type Query { field: String } type Mutation { doThing: String }";
    let project_files = create_schema_project(&db, schema);
    let opts = make_options(&[]);
    let diagnostics = rule.check(&db, project_files, Some(&opts));
    let all: Vec<_> = diagnostics.values().flatten().collect();
    assert!(all.is_empty());
}

#[test]
fn test_disallow_mutation() {
    let db = RootDatabase::default();
    let rule = Harness(NoRootTypeRuleImpl);
    let schema = "type Query { field: String } type Mutation { doThing: String }";
    let project_files = create_schema_project(&db, schema);
    let opts = make_options(&["mutation"]);
    let diagnostics = rule.check(&db, project_files, Some(&opts));
    let all: Vec<_> = diagnostics.values().flatten().collect();
    assert_eq!(all.len(), 1);
    assert!(all[0].message.contains("Mutation"));
    assert!(all[0].message.contains("forbidden"));
}

#[test]
fn test_disallow_subscription() {
    let db = RootDatabase::default();
    let rule = Harness(NoRootTypeRuleImpl);
    let schema = "type Query { field: String } type Subscription { onEvent: String }";
    let project_files = create_schema_project(&db, schema);
    let opts = make_options(&["subscription"]);
    let diagnostics = rule.check(&db, project_files, Some(&opts));
    let all: Vec<_> = diagnostics.values().flatten().collect();
    assert_eq!(all.len(), 1);
    assert!(all[0].message.contains("Subscription"));
}

#[test]
fn test_disallow_multiple_root_types() {
    let db = RootDatabase::default();
    let rule = Harness(NoRootTypeRuleImpl);
    let schema = "type Query { field: String } type Mutation { doThing: String } type Subscription { onEvent: String }";
    let project_files = create_schema_project(&db, schema);
    let opts = make_options(&["mutation", "subscription"]);
    let diagnostics = rule.check(&db, project_files, Some(&opts));
    let all: Vec<_> = diagnostics.values().flatten().collect();
    assert_eq!(all.len(), 2);
}

#[test]
fn test_allowed_root_type_not_flagged() {
    let db = RootDatabase::default();
    let rule = Harness(NoRootTypeRuleImpl);
    let schema = "type Query { field: String } type Mutation { doThing: String }";
    let project_files = create_schema_project(&db, schema);
    let opts = make_options(&["subscription"]);
    let diagnostics = rule.check(&db, project_files, Some(&opts));
    let all: Vec<_> = diagnostics.values().flatten().collect();
    assert!(all.is_empty());
}

#[test]
fn test_disallow_query() {
    let db = RootDatabase::default();
    let rule = Harness(NoRootTypeRuleImpl);
    let schema = "type Query { field: String }";
    let project_files = create_schema_project(&db, schema);
    let opts = make_options(&["query"]);
    let diagnostics = rule.check(&db, project_files, Some(&opts));
    let all: Vec<_> = diagnostics.values().flatten().collect();
    assert_eq!(all.len(), 1);
    assert!(all[0].message.contains("Query"));
}

// ---------------------------------------------------------------------------
// no_scalar_result_type_on_mutation
// ---------------------------------------------------------------------------
#[test]
fn test_mutation_returns_object() {
    let db = RootDatabase::default();
    let rule = Harness(NoScalarResultTypeOnMutationRuleImpl);
    let schema =
        "type Query { user: User } type Mutation { createUser: User! } type User { id: ID! }";
    let project_files = create_schema_project(&db, schema);
    let diagnostics = rule.check(&db, project_files, None);
    let all: Vec<_> = diagnostics.values().flatten().collect();
    assert!(all.is_empty());
}

#[test]
fn test_mutation_returns_scalar() {
    let db = RootDatabase::default();
    let rule = Harness(NoScalarResultTypeOnMutationRuleImpl);
    let schema = "type Query { user: User } type Mutation { deleteUser: Boolean! } type User { id: ID! }";
    let project_files = create_schema_project(&db, schema);
    let diagnostics = rule.check(&db, project_files, None);
    let all: Vec<_> = diagnostics.values().flatten().collect();
    assert_eq!(all.len(), 1);
    assert!(all[0].message.contains("deleteUser"));
}

// ---------------------------------------------------------------------------
// no_typename_prefix
// ---------------------------------------------------------------------------
#[test]
fn test_no_prefix() {
    let db = RootDatabase::default();
    let rule = Harness(NoTypenamePrefixRuleImpl);
    let schema = "type User { id: ID! name: String! }";
    let project_files = create_schema_project(&db, schema);
    let diagnostics = rule.check(&db, project_files, None);
    let all: Vec<_> = diagnostics.values().flatten().collect();
    assert!(all.is_empty());
}

#[test]
fn test_with_prefix() {
    let db = RootDatabase::default();
    let rule = Harness(NoTypenamePrefixRuleImpl);
    let schema = "type User { userId: ID! userName: String! }";
    let project_files = create_schema_project(&db, schema);
    let diagnostics = rule.check(&db, project_files, None);
    let all: Vec<_> = diagnostics.values().flatten().collect();
    assert_eq!(all.len(), 2);
}

// ---------------------------------------------------------------------------
// no_unreachable_types
// ---------------------------------------------------------------------------
#[test]
fn test_reachable_type() {
    let db = RootDatabase::default();
    let rule = Harness(NoUnreachableTypesRuleImpl);
    let schema = "type Query { user: User } type User { id: ID! }";
    let project_files = create_schema_project(&db, schema);
    let diagnostics = rule.check(&db, project_files, None);
    let user_warnings: Vec<_> = diagnostics
        .values()
        .flatten()
        .filter(|d| d.message.contains("`User`"))
        .collect();
    assert!(user_warnings.is_empty());
}

#[test]
fn test_unreachable_type() {
    let db = RootDatabase::default();
    let rule = Harness(NoUnreachableTypesRuleImpl);
    let schema =
        "type Query { user: User } type User { id: ID! } type OrphanType { name: String }";
    let project_files = create_schema_project(&db, schema);
    let diagnostics = rule.check(&db, project_files, None);
    let orphan_warnings: Vec<_> = diagnostics
        .values()
        .flatten()
        .filter(|d| d.message.contains("`OrphanType`"))
        .collect();
    assert_eq!(orphan_warnings.len(), 1);
}

#[test]
fn test_interface_implementors_are_reachable_regression_1037() {
    let db = RootDatabase::default();
    let rule = Harness(NoUnreachableTypesRuleImpl);
    let schema = "
            interface Move { id: ID! }
            type PhysicalMove implements Move { id: ID!, makesContact: Boolean! }
            type SpecialMove implements Move { id: ID!, effectChance: Int }
            type StatusMove implements Move { id: ID!, inflicts: String }
            type Pokemon { moves: [Move!]! }
            type Query { pokemon: Pokemon }
        ";
    let project_files = create_schema_project(&db, schema);
    let diagnostics = rule.check(&db, project_files, None);
    let all: Vec<_> = diagnostics.values().flatten().collect();
    for n in ["PhysicalMove", "SpecialMove", "StatusMove"] {
        let hits: Vec<_> = all
            .iter()
            .filter(|d| d.message.contains(&format!("`{n}`")))
            .collect();
        assert!(
            hits.is_empty(),
            "expected `{n}` to be reachable via interface dispatch, got: {hits:?}"
        );
    }
}

#[test]
fn test_union_members_are_reachable_regression_1037() {
    let db = RootDatabase::default();
    let rule = Harness(NoUnreachableTypesRuleImpl);
    let schema = "
            type Cat { meows: Boolean! }
            type Dog { barks: Boolean! }
            union Pet = Cat | Dog
            type Query { pet: Pet }
        ";
    let project_files = create_schema_project(&db, schema);
    let diagnostics = rule.check(&db, project_files, None);
    let all: Vec<_> = diagnostics.values().flatten().collect();
    for n in ["Cat", "Dog"] {
        let hits: Vec<_> = all
            .iter()
            .filter(|d| d.message.contains(&format!("`{n}`")))
            .collect();
        assert!(
            hits.is_empty(),
            "expected union member `{n}` to be reachable, got: {hits:?}"
        );
    }
}

// ---------------------------------------------------------------------------
// no_unused_fragments
// ---------------------------------------------------------------------------
#[test]
fn test_unused_fragment_has_fix() {
    let db = RootDatabase::default();
    let rule = Harness(NoUnusedFragmentsRuleImpl);

    let source = "fragment UnusedFields on User { name }";
    let file_id = FileId::new(0);
    let content = FileContent::new(&db, Arc::from(source));
    let metadata = FileMetadata::new(
        &db,
        file_id,
        FileUri::new("file:///test.graphql"),
        Language::GraphQL,
        DocumentKind::Executable,
    );

    let project_files = files_project(&db, &[(file_id, content, metadata)]);
    let diagnostics = rule.check(&db, project_files, None);

    assert_eq!(diagnostics.len(), 1);
    let file_diags = diagnostics
        .get(&file_id)
        .expect("Expected diagnostics for file");
    assert_eq!(file_diags.len(), 1);

    let diag = &file_diags[0];
    assert!(diag.message.contains("UnusedFields"));
    assert!(diag.message.contains("never used"));

    // Verify fix is provided
    assert!(diag.has_fix());
    let fix = diag.fix.as_ref().unwrap();
    assert!(fix.label.contains("Remove unused fragment"));
    assert!(fix.label.contains("UnusedFields"));
    assert_eq!(fix.edits.len(), 1);
    assert_eq!(fix.edits[0].new_text, "");

    // Verify fix range covers the entire fragment definition
    assert_eq!(fix.edits[0].offset_range.start, 0);
    assert_eq!(fix.edits[0].offset_range.end, source.len());
}

#[test]
fn test_used_fragment_no_diagnostic() {
    let db = RootDatabase::default();
    let rule = Harness(NoUnusedFragmentsRuleImpl);

    let source =
        "fragment UserFields on User { name } query GetUser { user { ...UserFields } }";
    let file_id = FileId::new(0);
    let content = FileContent::new(&db, Arc::from(source));
    let metadata = FileMetadata::new(
        &db,
        file_id,
        FileUri::new("file:///test.graphql"),
        Language::GraphQL,
        DocumentKind::Executable,
    );

    let project_files = files_project(&db, &[(file_id, content, metadata)]);
    let diagnostics = rule.check(&db, project_files, None);

    // No diagnostics - fragment is used
    assert!(diagnostics.is_empty() || diagnostics.get(&file_id).is_none_or(Vec::is_empty));
}

#[test]
fn test_fragment_used_in_another_file() {
    let db = RootDatabase::default();
    let rule = Harness(NoUnusedFragmentsRuleImpl);

    // File 1: Fragment definition
    let source1 = "fragment UserFields on User { name }";
    let file_id1 = FileId::new(0);
    let content1 = FileContent::new(&db, Arc::from(source1));
    let metadata1 = FileMetadata::new(
        &db,
        file_id1,
        FileUri::new("file:///fragments.graphql"),
        Language::GraphQL,
        DocumentKind::Executable,
    );

    // File 2: Operation using the fragment
    let source2 = "query GetUser { user { ...UserFields } }";
    let file_id2 = FileId::new(1);
    let content2 = FileContent::new(&db, Arc::from(source2));
    let metadata2 = FileMetadata::new(
        &db,
        file_id2,
        FileUri::new("file:///queries.graphql"),
        Language::GraphQL,
        DocumentKind::Executable,
    );

    let project_files = files_project(
        &db,
        &[
            (file_id1, content1, metadata1),
            (file_id2, content2, metadata2),
        ],
    );
    let diagnostics = rule.check(&db, project_files, None);

    // No diagnostics - fragment is used in another file
    assert!(
        diagnostics.is_empty()
            || (diagnostics.get(&file_id1).is_none_or(Vec::is_empty)
                && diagnostics.get(&file_id2).is_none_or(Vec::is_empty))
    );
}

#[test]
fn test_multiple_unused_fragments() {
    let db = RootDatabase::default();
    let rule = Harness(NoUnusedFragmentsRuleImpl);

    let source = "fragment A on User { name } fragment B on User { email }";
    let file_id = FileId::new(0);
    let content = FileContent::new(&db, Arc::from(source));
    let metadata = FileMetadata::new(
        &db,
        file_id,
        FileUri::new("file:///test.graphql"),
        Language::GraphQL,
        DocumentKind::Executable,
    );

    let project_files = files_project(&db, &[(file_id, content, metadata)]);
    let diagnostics = rule.check(&db, project_files, None);

    let file_diags = diagnostics
        .get(&file_id)
        .expect("Expected diagnostics for file");
    assert_eq!(file_diags.len(), 2);

    // Both should have fixes
    for diag in file_diags {
        assert!(diag.has_fix());
        let fix = diag.fix.as_ref().unwrap();
        assert!(fix.label.contains("Remove unused fragment"));
        assert_eq!(fix.edits.len(), 1);
        assert_eq!(fix.edits[0].new_text, "");
    }
}

#[test]
fn test_fix_range_is_accurate() {
    let db = RootDatabase::default();
    let rule = Harness(NoUnusedFragmentsRuleImpl);

    // Fragment starts after the query - "query Q { user }" has a valid selection
    let source = "query Q { user } fragment Unused on User { name email }";
    let file_id = FileId::new(0);
    let content = FileContent::new(&db, Arc::from(source));
    let metadata = FileMetadata::new(
        &db,
        file_id,
        FileUri::new("file:///test.graphql"),
        Language::GraphQL,
        DocumentKind::Executable,
    );

    let project_files = files_project(&db, &[(file_id, content, metadata)]);
    let diagnostics = rule.check(&db, project_files, None);

    let file_diags = diagnostics
        .get(&file_id)
        .expect("Expected diagnostics for file");
    assert_eq!(file_diags.len(), 1);

    let diag = &file_diags[0];
    let fix = diag.fix.as_ref().unwrap();

    // Verify the fix deletes exactly the fragment definition
    let deleted_text = &source[fix.edits[0].offset_range.start..fix.edits[0].offset_range.end];
    assert!(deleted_text.starts_with("fragment Unused"));
    assert!(deleted_text.ends_with('}'));
}

#[test]
fn test_ts_single_fragment_fix_deletes_declaration() {
    let db = RootDatabase::default();
    let rule = Harness(NoUnusedFragmentsRuleImpl);

    let source =
        "import { gql } from 'graphql-tag';\nconst F = gql`fragment Unused on User { name }`;\n";
    let file_id = FileId::new(0);
    let content = FileContent::new(&db, Arc::from(source));
    let metadata = FileMetadata::new(
        &db,
        file_id,
        FileUri::new("file:///test.ts"),
        Language::TypeScript,
        DocumentKind::Executable,
    );

    let project_files = files_project(&db, &[(file_id, content, metadata)]);
    let diagnostics = rule.check(&db, project_files, None);

    let file_diags = diagnostics
        .get(&file_id)
        .expect("Expected diagnostics for file");
    assert_eq!(file_diags.len(), 1);

    let diag = &file_diags[0];
    assert!(diag.has_fix());
    let fix = diag.fix.as_ref().unwrap();

    // Fix should delete the entire TS declaration, not just the GraphQL content
    let deleted = &source[fix.edits[0].offset_range.start..fix.edits[0].offset_range.end];
    assert!(
        deleted.contains("const F"),
        "Fix should delete the TS declaration, got: {deleted:?}",
    );
}

#[test]
fn test_diagnostic_range_points_to_fragment_name() {
    let db = RootDatabase::default();
    let rule = Harness(NoUnusedFragmentsRuleImpl);

    let source = "fragment UnusedFragment on User { name }";
    let file_id = FileId::new(0);
    let content = FileContent::new(&db, Arc::from(source));
    let metadata = FileMetadata::new(
        &db,
        file_id,
        FileUri::new("file:///test.graphql"),
        Language::GraphQL,
        DocumentKind::Executable,
    );

    let project_files = files_project(&db, &[(file_id, content, metadata)]);
    let diagnostics = rule.check(&db, project_files, None);

    let file_diags = diagnostics
        .get(&file_id)
        .expect("Expected diagnostics for file");
    assert_eq!(file_diags.len(), 1);

    let diag = &file_diags[0];
    // Diagnostic range now points at the `fragment` keyword for parity
    // with graphql-eslint's adapter (which re-locates onto the first
    // token of the fragment definition).
    let keyword_text = &source[diag.span.start..diag.span.end];
    assert_eq!(keyword_text, "fragment");
}

// ---------------------------------------------------------------------------
// operation_name_suffix
// ---------------------------------------------------------------------------
#[test]
fn test_query_with_correct_suffix() {
    let db = RootDatabase::default();
    let source = "query GetUserQuery { user { id } }";

    let diagnostics = ons_run_rule(&db, source);

    assert_eq!(diagnostics.len(), 0);
}

#[test]
fn test_query_without_suffix_warns() {
    let db = RootDatabase::default();
    let source = "query GetUser { user { id } }";

    let diagnostics = ons_run_rule(&db, source);

    assert_eq!(diagnostics.len(), 1);
    assert!(diagnostics[0].message.contains("GetUser"));
    assert!(diagnostics[0].message.contains("Query"));
}

#[test]
fn test_mutation_with_correct_suffix() {
    let db = RootDatabase::default();
    let source = "mutation UpdateUserMutation { updateUser { id } }";

    let diagnostics = ons_run_rule(&db, source);

    assert_eq!(diagnostics.len(), 0);
}

#[test]
fn test_mutation_without_suffix_warns() {
    let db = RootDatabase::default();
    let source = "mutation UpdateUser { updateUser { id } }";

    let diagnostics = ons_run_rule(&db, source);

    assert_eq!(diagnostics.len(), 1);
    assert!(diagnostics[0].message.contains("UpdateUser"));
    assert!(diagnostics[0].message.contains("Mutation"));
}

#[test]
fn test_subscription_with_correct_suffix() {
    let db = RootDatabase::default();
    let source = "subscription OnUserUpdateSubscription { userUpdated { id } }";

    let diagnostics = ons_run_rule(&db, source);

    assert_eq!(diagnostics.len(), 0);
}

#[test]
fn test_subscription_without_suffix_warns() {
    let db = RootDatabase::default();
    let source = "subscription OnUserUpdate { userUpdated { id } }";

    let diagnostics = ons_run_rule(&db, source);

    assert_eq!(diagnostics.len(), 1);
    assert!(diagnostics[0].message.contains("OnUserUpdate"));
    assert!(diagnostics[0].message.contains("Subscription"));
}

#[test]
fn test_anonymous_query_no_warning() {
    let db = RootDatabase::default();
    let source = "{ user { id } }";

    let diagnostics = ons_run_rule(&db, source);

    assert_eq!(diagnostics.len(), 0);
}

#[test]
fn test_anonymous_mutation_no_warning() {
    let db = RootDatabase::default();
    let source = "mutation { updateUser { id } }";

    let diagnostics = ons_run_rule(&db, source);

    assert_eq!(diagnostics.len(), 0);
}

#[test]
fn test_multiple_operations_mixed() {
    let db = RootDatabase::default();
    let source = r"
query GetUserQuery { user { id } }
query FetchPosts { posts { id } }
mutation UpdateUserMutation { updateUser { id } }
";

    let diagnostics = ons_run_rule(&db, source);

    assert_eq!(diagnostics.len(), 1);
    assert!(diagnostics[0].message.contains("FetchPosts"));
}

#[test]
fn test_wrong_suffix_for_operation_type() {
    let db = RootDatabase::default();
    let source = "mutation UpdateUserQuery { updateUser { id } }";

    let diagnostics = ons_run_rule(&db, source);

    assert_eq!(diagnostics.len(), 1);
    assert!(diagnostics[0].message.contains("Mutation"));
}

#[test]
fn test_shorthand_query_no_warning() {
    let db = RootDatabase::default();
    let source = "query { user { id } }";

    let diagnostics = ons_run_rule(&db, source);

    assert_eq!(diagnostics.len(), 0);
}

#[test]
fn test_suggestion_includes_correct_suffix() {
    let db = RootDatabase::default();
    let source = "query GetUser { user { id } }";

    let diagnostics = ons_run_rule(&db, source);

    assert_eq!(diagnostics.len(), 1);
    assert!(diagnostics[0].message.contains("GetUserQuery"));
}

// ---------------------------------------------------------------------------
// relay_arguments
// ---------------------------------------------------------------------------
#[test]
fn test_connection_with_all_args_no_warning() {
    let db = RootDatabase::default();
    let rule = Harness(RelayArgumentsRuleImpl);
    let schema = r"
type User {
    posts(first: Int, after: String, last: Int, before: String): PostConnection
}

type PostConnection {
    edges: [PostEdge]
}

type PostEdge {
    node: Post
    cursor: String
}

type Post {
    id: ID!
    title: String
}
";
    let project_files = create_schema_project(&db, schema);
    let diagnostics = rule.check(&db, project_files, None);
    let all: Vec<_> = diagnostics.values().flatten().collect();
    assert!(all.is_empty(), "Expected no warnings: {all:?}");
}

#[test]
fn test_connection_with_no_args_warning() {
    let db = RootDatabase::default();
    let rule = Harness(RelayArgumentsRuleImpl);
    let schema = r"
type User {
    posts: PostConnection
}

type PostConnection {
    edges: [PostEdge]
}

type PostEdge {
    node: Post
    cursor: String
}

type Post {
    id: ID!
}
";
    let project_files = create_schema_project(&db, schema);
    let diagnostics = rule.check(&db, project_files, None);
    let all: Vec<_> = diagnostics.values().flatten().collect();
    assert_eq!(all.len(), 1);
    assert!(all[0].message.contains("Connection type must include"));
    assert!(all[0].message.contains("`first` and `after`"));
    assert!(all[0].message.contains("`last` and `before`"));
}

#[test]
fn test_connection_with_only_forward_args_include_both_true() {
    let db = RootDatabase::default();
    let rule = Harness(RelayArgumentsRuleImpl);
    let schema = r"
type User {
    posts(first: Int, after: String): PostConnection
}

type PostConnection {
    edges: [PostEdge]
}

type PostEdge {
    node: Post
    cursor: String
}

type Post {
    id: ID!
}
";
    let project_files = create_schema_project(&db, schema);
    // Default: includeBoth = true, so only forward args should warn
    let diagnostics = rule.check(&db, project_files, None);
    let all: Vec<_> = diagnostics.values().flatten().collect();
    // graphql-eslint emits one diagnostic per missing argument when one
    // pair is present but the other is missing.
    assert_eq!(
        all.len(),
        2,
        "Should warn for missing `last` and `before`: {all:?}"
    );
    let messages: Vec<&str> = all.iter().map(|d| d.message.as_str()).collect();
    assert!(messages
        .iter()
        .any(|m| m.contains("`last`") && m.contains("Int")));
    assert!(messages
        .iter()
        .any(|m| m.contains("`before`") && m.contains("String or Scalar")));
}

#[test]
fn test_connection_with_only_forward_args_include_both_false() {
    let db = RootDatabase::default();
    let rule = Harness(RelayArgumentsRuleImpl);
    let schema = r"
type User {
    posts(first: Int, after: String): PostConnection
}

type PostConnection {
    edges: [PostEdge]
}

type PostEdge {
    node: Post
    cursor: String
}

type Post {
    id: ID!
}
";
    let project_files = create_schema_project(&db, schema);
    let options = json(r#"{ "includeBoth": false }"#);
    let diagnostics = rule.check(&db, project_files, Some(&options));
    let all: Vec<_> = diagnostics.values().flatten().collect();
    assert!(
        all.is_empty(),
        "Should not warn when includeBoth=false and forward args present: {all:?}"
    );
}

#[test]
fn test_connection_with_only_backward_args_include_both_false() {
    let db = RootDatabase::default();
    let rule = Harness(RelayArgumentsRuleImpl);
    let schema = r"
type User {
    posts(last: Int, before: String): PostConnection
}

type PostConnection {
    edges: [PostEdge]
}

type PostEdge {
    node: Post
    cursor: String
}

type Post {
    id: ID!
}
";
    let project_files = create_schema_project(&db, schema);
    let options = json(r#"{ "includeBoth": false }"#);
    let diagnostics = rule.check(&db, project_files, Some(&options));
    let all: Vec<_> = diagnostics.values().flatten().collect();
    assert!(
        all.is_empty(),
        "Should not warn with backward args when includeBoth=false: {all:?}"
    );
}

#[test]
fn test_non_connection_field_no_warning() {
    let db = RootDatabase::default();
    let rule = Harness(RelayArgumentsRuleImpl);
    let schema = r"
type User {
    name: String
    posts: [Post]
}

type Post {
    id: ID!
}
";
    let project_files = create_schema_project(&db, schema);
    let diagnostics = rule.check(&db, project_files, None);
    let all: Vec<_> = diagnostics.values().flatten().collect();
    assert!(
        all.is_empty(),
        "Should not warn for non-Connection fields: {all:?}"
    );
}

#[test]
fn test_partial_forward_args_warning() {
    let db = RootDatabase::default();
    let rule = Harness(RelayArgumentsRuleImpl);
    let schema = r"
type User {
    posts(first: Int): PostConnection
}

type PostConnection {
    edges: [PostEdge]
}

type PostEdge {
    node: Post
    cursor: String
}

type Post {
    id: ID!
}
";
    let project_files = create_schema_project(&db, schema);
    let options = json(r#"{ "includeBoth": false }"#);
    let diagnostics = rule.check(&db, project_files, Some(&options));
    let all: Vec<_> = diagnostics.values().flatten().collect();
    assert_eq!(
        all.len(),
        1,
        "Should warn when only `first` is present without `after`: {all:?}"
    );
}

#[test]
fn test_interface_with_connection_field() {
    let db = RootDatabase::default();
    let rule = Harness(RelayArgumentsRuleImpl);
    let schema = r"
interface Node {
    id: ID!
}

interface HasPosts {
    posts: PostConnection
}

type PostConnection {
    edges: [PostEdge]
}

type PostEdge {
    node: Post
    cursor: String
}

type Post implements Node {
    id: ID!
}
";
    let project_files = create_schema_project(&db, schema);
    let diagnostics = rule.check(&db, project_files, None);
    let all: Vec<_> = diagnostics.values().flatten().collect();
    assert_eq!(
        all.len(),
        1,
        "Should warn on interface connection fields: {all:?}"
    );
    assert!(all[0].message.contains("Connection type must include"));
}

#[test]
fn test_multiple_connection_fields() {
    let db = RootDatabase::default();
    let rule = Harness(RelayArgumentsRuleImpl);
    let schema = r"
type User {
    posts: PostConnection
    comments(first: Int, after: String, last: Int, before: String): CommentConnection
    followers: FollowerConnection
}

type PostConnection { edges: [Post] }
type CommentConnection { edges: [Comment] }
type FollowerConnection { edges: [User] }
type Post { id: ID! }
type Comment { id: ID! }
";
    let project_files = create_schema_project(&db, schema);
    let diagnostics = rule.check(&db, project_files, None);
    let all: Vec<_> = diagnostics.values().flatten().collect();
    assert_eq!(
        all.len(),
        2,
        "Should warn on posts and followers but not comments: {all:?}"
    );
    // The aligned graphql-eslint MISSING_ARGUMENTS message is generic and
    // does not include the field name; both diagnostics share the same text.
    let messages: Vec<&str> = all.iter().map(|d| d.message.as_str()).collect();
    assert!(messages
        .iter()
        .all(|m| m.contains("Connection type must include")));
}

#[test]
fn test_connection_with_extra_args_no_warning() {
    let db = RootDatabase::default();
    let rule = Harness(RelayArgumentsRuleImpl);
    let schema = r"
type User {
    posts(first: Int, after: String, last: Int, before: String, filter: String): PostConnection
}

type PostConnection { edges: [Post] }
type Post { id: ID! }
";
    let project_files = create_schema_project(&db, schema);
    let diagnostics = rule.check(&db, project_files, None);
    let all: Vec<_> = diagnostics.values().flatten().collect();
    assert!(
        all.is_empty(),
        "Extra args beyond pagination should not cause warnings: {all:?}"
    );
}

#[test]
fn test_first_with_non_int_type_warning() {
    let db = RootDatabase::default();
    let rule = Harness(RelayArgumentsRuleImpl);
    let schema = r"
type User {
    posts(first: String, after: String, last: Int, before: String): PostConnection
}

type PostConnection { edges: [Post] }
type Post { id: ID! }
";
    let project_files = create_schema_project(&db, schema);
    let diagnostics = rule.check(&db, project_files, None);
    let all: Vec<_> = diagnostics.values().flatten().collect();
    let messages: Vec<&str> = all.iter().map(|d| d.message.as_str()).collect();
    assert_eq!(all.len(), 1, "Expected one warning: {messages:?}");
    assert_eq!(messages[0], "Argument `first` must return Int.");
}

#[test]
fn test_after_with_custom_scalar_no_warning() {
    let db = RootDatabase::default();
    let rule = Harness(RelayArgumentsRuleImpl);
    let schema = r"
scalar Cursor

type User {
    posts(first: Int, after: Cursor, last: Int, before: Cursor): PostConnection
}

type PostConnection { edges: [Post] }
type Post { id: ID! }
";
    let project_files = create_schema_project(&db, schema);
    let diagnostics = rule.check(&db, project_files, None);
    let all: Vec<_> = diagnostics.values().flatten().collect();
    assert!(
        all.is_empty(),
        "Custom scalars are accepted for after/before: {all:?}"
    );
}

#[test]
fn test_after_with_non_scalar_type_warning() {
    let db = RootDatabase::default();
    let rule = Harness(RelayArgumentsRuleImpl);
    let schema = r"
type CursorObj {
    value: String
}

type User {
    posts(first: Int, after: CursorObj, last: Int, before: String): PostConnection
}

type PostConnection { edges: [Post] }
type Post { id: ID! }
";
    let project_files = create_schema_project(&db, schema);
    let diagnostics = rule.check(&db, project_files, None);
    let all: Vec<_> = diagnostics.values().flatten().collect();
    let messages: Vec<&str> = all.iter().map(|d| d.message.as_str()).collect();
    assert_eq!(all.len(), 1, "Expected one warning: {messages:?}");
    assert_eq!(
        messages[0],
        "Argument `after` must return String or Scalar."
    );
}

#[test]
fn test_pagination_args_with_list_types_warning() {
    let db = RootDatabase::default();
    let rule = Harness(RelayArgumentsRuleImpl);
    let schema = r"
type User {
    posts(first: [Int], after: [String], last: Int, before: String): PostConnection
}

type PostConnection { edges: [Post] }
type Post { id: ID! }
";
    let project_files = create_schema_project(&db, schema);
    let diagnostics = rule.check(&db, project_files, None);
    let all: Vec<_> = diagnostics.values().flatten().collect();
    let messages: Vec<&str> = all.iter().map(|d| d.message.as_str()).collect();
    assert_eq!(all.len(), 2, "Expected two warnings: {messages:?}");
    assert!(messages.contains(&"Argument `first` must return Int."));
    assert!(messages.contains(&"Argument `after` must return String or Scalar."));
}

#[test]
fn test_pagination_args_with_non_null_types_no_warning() {
    let db = RootDatabase::default();
    let rule = Harness(RelayArgumentsRuleImpl);
    let schema = r"
type User {
    posts(first: Int!, after: String!, last: Int!, before: String!): PostConnection
}

type PostConnection { edges: [Post] }
type Post { id: ID! }
";
    let project_files = create_schema_project(&db, schema);
    let diagnostics = rule.check(&db, project_files, None);
    let all: Vec<_> = diagnostics.values().flatten().collect();
    assert!(
        all.is_empty(),
        "NonNull wrapper around correct type is allowed: {all:?}"
    );
}

// ---------------------------------------------------------------------------
// relay_connection_types
// ---------------------------------------------------------------------------
#[test]
fn valid_connection_type() {
    let diagnostics =
        rct_check_schema("type UserConnection { edges: [UserEdge] pageInfo: PageInfo! }");
    assert!(diagnostics.is_empty());
}

#[test]
fn valid_connection_with_extra_fields() {
    let diagnostics = rct_check_schema(
        "type UserConnection { edges: [UserEdge] pageInfo: PageInfo! totalCount: Int! }",
    );
    assert!(diagnostics.is_empty());
}

#[test]
fn non_connection_type_ignored() {
    let diagnostics = rct_check_schema("type User { id: ID! name: String! }");
    assert!(diagnostics.is_empty());
}

#[test]
fn missing_edges_field() {
    let diagnostics = rct_check_schema("type UserConnection { pageInfo: PageInfo! }");
    assert_eq!(diagnostics.len(), 1);
    assert!(diagnostics[0]
        .message
        .contains("Connection type must contain a field `edges` that return a list type."));
}

#[test]
fn missing_page_info_field() {
    let diagnostics = rct_check_schema("type UserConnection { edges: [UserEdge] }");
    assert_eq!(diagnostics.len(), 1);
    assert!(diagnostics[0].message.contains(
        "Connection type must contain a field `pageInfo` that return a non-null `PageInfo` Object type."
    ));
}

#[test]
fn relay_connection_types_missing_both_fields() {
    let diagnostics = rct_check_schema("type UserConnection { totalCount: Int! }");
    assert_eq!(diagnostics.len(), 2);
}

#[test]
fn edges_not_a_list() {
    let diagnostics =
        rct_check_schema("type UserConnection { edges: UserEdge pageInfo: PageInfo! }");
    assert_eq!(diagnostics.len(), 1);
    assert!(diagnostics[0]
        .message
        .contains("`edges` field must return a list type."));
}

#[test]
fn page_info_nullable() {
    let diagnostics =
        rct_check_schema("type UserConnection { edges: [UserEdge] pageInfo: PageInfo }");
    assert_eq!(diagnostics.len(), 1);
    assert!(diagnostics[0]
        .message
        .contains("`pageInfo` field must return a non-null `PageInfo` Object type."));
}

#[test]
fn page_info_wrong_type() {
    let diagnostics =
        rct_check_schema("type UserConnection { edges: [UserEdge] pageInfo: String! }");
    assert_eq!(diagnostics.len(), 1);
    assert!(diagnostics[0]
        .message
        .contains("`pageInfo` field must return a non-null `PageInfo` Object type."));
}

#[test]
fn non_object_connection_type() {
    let diagnostics = rct_check_schema("scalar UserConnection");
    assert_eq!(diagnostics.len(), 1);
    assert!(diagnostics[0]
        .message
        .contains("Connection type must be an Object type."));
}

#[test]
fn enum_connection_type() {
    let diagnostics = rct_check_schema("enum StatusConnection { ACTIVE INACTIVE }");
    assert_eq!(diagnostics.len(), 1);
    assert!(diagnostics[0]
        .message
        .contains("Connection type must be an Object type."));
}

#[test]
fn interface_connection_type() {
    let diagnostics =
        rct_check_schema("interface NodeConnection { edges: [NodeEdge] pageInfo: PageInfo! }");
    assert_eq!(diagnostics.len(), 1);
    assert!(diagnostics[0]
        .message
        .contains("Connection type must be an Object type."));
}

#[test]
fn multiple_connection_types() {
    let diagnostics = rct_check_schema(
        r"
            type UserConnection { edges: [UserEdge] pageInfo: PageInfo! }
            type PostConnection { totalCount: Int! }
            ",
    );
    // PostConnection is missing both edges and pageInfo
    assert_eq!(diagnostics.len(), 2);
}

// ---------------------------------------------------------------------------
// relay_edge_types
// ---------------------------------------------------------------------------
#[test]
fn valid_relay_edge_type() {
    let schema = r"
            interface Node {
                id: ID!
            }
            type User implements Node {
                id: ID!
                name: String!
            }
            type UserEdge {
                node: User
                cursor: String!
            }
            type UserConnection {
                edges: [UserEdge]
            }
        ";
    let diagnostics = ret_check(schema);
    assert!(
        diagnostics.is_empty(),
        "Expected no diagnostics, got: {diagnostics:?}"
    );
}

#[test]
fn missing_node_field() {
    let schema = r"
            type UserEdge {
                cursor: String!
            }
            type UserConnection {
                edges: [UserEdge]
            }
        ";
    let diagnostics = ret_check(schema);
    assert_eq!(diagnostics.len(), 1);
    assert!(diagnostics[0]
        .message
        .contains("Edge type must contain a field `node`"));
}

#[test]
fn missing_cursor_field() {
    let schema = r"
            interface Node { id: ID! }
            type User implements Node { id: ID! }
            type UserEdge {
                node: User
            }
            type UserConnection {
                edges: [UserEdge]
            }
        ";
    let diagnostics = ret_check(schema);
    assert_eq!(diagnostics.len(), 1);
    assert!(diagnostics[0]
        .message
        .contains("Edge type must contain a field `cursor`"));
}

#[test]
fn relay_edge_types_missing_both_fields() {
    let schema = r"
            type UserEdge {
                someField: String
            }
            type UserConnection {
                edges: [UserEdge]
            }
        ";
    let diagnostics = ret_check(schema);
    assert_eq!(diagnostics.len(), 2);
    let messages: Vec<&str> = diagnostics.iter().map(|d| d.message.as_str()).collect();
    assert!(messages.iter().any(|m| m.contains("`node`")));
    assert!(messages.iter().any(|m| m.contains("`cursor`")));
}

#[test]
fn node_field_must_not_be_list() {
    let schema = r"
            interface Node { id: ID! }
            type User implements Node { id: ID! }
            type UserEdge {
                node: [User]
                cursor: String!
            }
            type UserConnection {
                edges: [UserEdge]
            }
        ";
    let diagnostics = ret_check(schema);
    assert_eq!(diagnostics.len(), 1);
    assert!(diagnostics[0]
        .message
        .contains("Field `node` must return either"));
}

#[test]
fn cursor_field_wrong_type() {
    let schema = r"
            interface Node { id: ID! }
            type User implements Node { id: ID! }
            type UserEdge {
                node: User
                cursor: User
            }
            type UserConnection {
                edges: [UserEdge]
            }
        ";
    let diagnostics = ret_check(schema);
    assert_eq!(diagnostics.len(), 1);
    assert!(diagnostics[0]
        .message
        .contains("Field `cursor` must return either"));
}

#[test]
fn cursor_field_allows_scalar() {
    let schema = r"
            interface Node { id: ID! }
            type User implements Node { id: ID! }
            scalar Cursor
            type UserEdge {
                node: User
                cursor: Cursor
            }
            type UserConnection {
                edges: [UserEdge]
            }
        ";
    let diagnostics = ret_check(schema);
    assert!(
        diagnostics.is_empty(),
        "Scalar cursor should be allowed: {diagnostics:?}"
    );
}

#[test]
fn cursor_field_allows_id() {
    let schema = r"
            interface Node { id: ID! }
            type User implements Node { id: ID! }
            type UserEdge {
                node: User
                cursor: ID!
            }
            type UserConnection {
                edges: [UserEdge]
            }
        ";
    let diagnostics = ret_check(schema);
    assert!(
        diagnostics.is_empty(),
        "ID cursor should be allowed: {diagnostics:?}"
    );
}

#[test]
fn edge_type_missing_suffix() {
    let schema = r"
            interface Node { id: ID! }
            type User implements Node { id: ID! name: String! }
            type UserItem {
                node: User
                cursor: String!
            }
            type UserConnection {
                edges: [UserItem]
            }
        ";
    let diagnostics = ret_check(schema);
    assert_eq!(diagnostics.len(), 1);
    assert!(diagnostics[0]
        .message
        .contains("Edge type must have \"Edge\" suffix."));
}

#[test]
fn edge_suffix_disabled() {
    let schema = r"
            interface Node { id: ID! }
            type User implements Node { id: ID! }
            type UserItem {
                node: User
                cursor: String!
            }
            type UserConnection {
                edges: [UserItem]
            }
        ";
    let opts = json(r#"{ "withEdgeSuffix": false }"#);
    let diagnostics = ret_check_with_options(schema, Some(&opts));
    assert!(
        diagnostics.is_empty(),
        "Should pass with suffix check disabled: {diagnostics:?}"
    );
}

#[test]
fn node_does_not_implement_node_interface() {
    let schema = r"
            interface Node { id: ID! }
            type User {
                id: ID!
                name: String!
            }
            type UserEdge {
                node: User
                cursor: String!
            }
            type UserConnection {
                edges: [UserEdge]
            }
        ";
    let diagnostics = ret_check(schema);
    assert_eq!(diagnostics.len(), 1);
    assert!(diagnostics[0]
        .message
        .contains("Edge type's field `node` must implement `Node` interface."));
}

#[test]
fn should_implement_node_disabled() {
    let schema = r"
            type User {
                id: ID!
            }
            type UserEdge {
                node: User
                cursor: String!
            }
            type UserConnection {
                edges: [UserEdge]
            }
        ";
    let opts = json(r#"{ "shouldImplementNode": false }"#);
    let diagnostics = ret_check_with_options(schema, Some(&opts));
    assert!(
        diagnostics.is_empty(),
        "Should pass with Node interface check disabled: {diagnostics:?}"
    );
}

#[test]
fn non_connection_types_ignored() {
    let schema = r"
            type User {
                name: String!
            }
        ";
    let diagnostics = ret_check(schema);
    assert!(diagnostics.is_empty());
}

#[test]
fn connection_without_edges_field_ignored() {
    let schema = r"
            type UserConnection {
                nodes: [User]
            }
            type User { id: ID! }
        ";
    let diagnostics = ret_check(schema);
    assert!(diagnostics.is_empty());
}

#[test]
fn edge_type_not_referenced_by_connection_ignored() {
    // An edge type that isn't used by any connection should not be checked
    let schema = r"
            type UserEdge {
                someField: String
            }
        ";
    let diagnostics = ret_check(schema);
    assert!(diagnostics.is_empty());
}

#[test]
fn multiple_connections() {
    let schema = r"
            interface Node { id: ID! }
            type User implements Node { id: ID! }
            type Post implements Node { id: ID! }
            type UserEdge {
                node: User
                cursor: String!
            }
            type PostEdge {
                node: Post
                cursor: String!
            }
            type UserConnection {
                edges: [UserEdge]
            }
            type PostConnection {
                edges: [PostEdge]
            }
        ";
    let diagnostics = ret_check(schema);
    assert!(
        diagnostics.is_empty(),
        "Expected no diagnostics: {diagnostics:?}"
    );
}

// ---------------------------------------------------------------------------
// relay_page_info
// ---------------------------------------------------------------------------
#[test]
fn valid_page_info() {
    let db = RootDatabase::default();
    let rule = Harness(RelayPageInfoRuleImpl);
    let schema = r"
            type PageInfo {
                hasPreviousPage: Boolean!
                hasNextPage: Boolean!
                startCursor: String
                endCursor: String
            }
        ";
    let project_files = create_schema_project(&db, schema);
    let diagnostics = rule.check(&db, project_files, None);
    let all: Vec<_> = diagnostics.values().flatten().collect();
    assert!(all.is_empty());
}

#[test]
fn valid_page_info_with_extra_fields() {
    let db = RootDatabase::default();
    let rule = Harness(RelayPageInfoRuleImpl);
    let schema = r"
            type PageInfo {
                hasPreviousPage: Boolean!
                hasNextPage: Boolean!
                startCursor: String
                endCursor: String
                totalCount: Int
            }
        ";
    let project_files = create_schema_project(&db, schema);
    let diagnostics = rule.check(&db, project_files, None);
    let all: Vec<_> = diagnostics.values().flatten().collect();
    assert!(all.is_empty());
}

#[test]
fn no_page_info_type() {
    let db = RootDatabase::default();
    let rule = Harness(RelayPageInfoRuleImpl);
    let schema = "type Query { hello: String }";
    let project_files = create_schema_project(&db, schema);
    let diagnostics = rule.check(&db, project_files, None);
    let all: Vec<_> = diagnostics.values().flatten().collect();
    assert_eq!(all.len(), 1);
    assert!(all[0].message.contains("server must provide a `PageInfo`"));
    assert_eq!(all[0].span.start, 0);
    assert_eq!(all[0].span.end, 1);
}

#[test]
fn custom_scalar_cursor_is_valid() {
    let db = RootDatabase::default();
    let rule = Harness(RelayPageInfoRuleImpl);
    let schema = r"
            scalar Cursor
            type PageInfo {
                hasPreviousPage: Boolean!
                hasNextPage: Boolean!
                startCursor: Cursor
                endCursor: Cursor
            }
        ";
    let project_files = create_schema_project(&db, schema);
    let diagnostics = rule.check(&db, project_files, None);
    let all: Vec<_> = diagnostics.values().flatten().collect();
    assert!(all.is_empty(), "expected no diagnostics, got {all:?}");
}

#[test]
fn id_cursor_is_valid() {
    let db = RootDatabase::default();
    let rule = Harness(RelayPageInfoRuleImpl);
    // `ID` is a built-in scalar, so it should also be accepted.
    let schema = r"
            type PageInfo {
                hasPreviousPage: Boolean!
                hasNextPage: Boolean!
                startCursor: ID
                endCursor: ID
            }
        ";
    let project_files = create_schema_project(&db, schema);
    let diagnostics = rule.check(&db, project_files, None);
    let all: Vec<_> = diagnostics.values().flatten().collect();
    assert!(all.is_empty(), "expected no diagnostics, got {all:?}");
}

#[test]
fn object_cursor_is_invalid() {
    let db = RootDatabase::default();
    let rule = Harness(RelayPageInfoRuleImpl);
    // An object type is not a scalar, so it should still be flagged.
    let schema = r"
            type CursorObj { value: String }
            type PageInfo {
                hasPreviousPage: Boolean!
                hasNextPage: Boolean!
                startCursor: CursorObj
                endCursor: CursorObj
            }
        ";
    let project_files = create_schema_project(&db, schema);
    let diagnostics = rule.check(&db, project_files, None);
    let all: Vec<_> = diagnostics.values().flatten().collect();
    assert_eq!(all.len(), 2);
    assert!(all.iter().any(|d| d.message.contains("startCursor")));
    assert!(all.iter().any(|d| d.message.contains("endCursor")));
}

#[test]
fn missing_all_fields() {
    let db = RootDatabase::default();
    let rule = Harness(RelayPageInfoRuleImpl);
    let schema = r"
            type PageInfo {
                totalCount: Int
            }
        ";
    let project_files = create_schema_project(&db, schema);
    let diagnostics = rule.check(&db, project_files, None);
    let all: Vec<_> = diagnostics.values().flatten().collect();
    assert_eq!(all.len(), 4);
    assert!(all.iter().any(|d| d.message.contains("hasPreviousPage")));
    assert!(all.iter().any(|d| d.message.contains("hasNextPage")));
    assert!(all.iter().any(|d| d.message.contains("startCursor")));
    assert!(all.iter().any(|d| d.message.contains("endCursor")));
}

#[test]
fn wrong_type_for_has_next_page() {
    let db = RootDatabase::default();
    let rule = Harness(RelayPageInfoRuleImpl);
    let schema = r"
            type PageInfo {
                hasPreviousPage: Boolean!
                hasNextPage: String
                startCursor: String
                endCursor: String
            }
        ";
    let project_files = create_schema_project(&db, schema);
    let diagnostics = rule.check(&db, project_files, None);
    let all: Vec<_> = diagnostics.values().flatten().collect();
    assert_eq!(all.len(), 1);
    assert!(all[0].message.contains("hasNextPage"));
    assert!(all[0].message.contains("non-null Boolean"));
}

#[test]
fn nullable_boolean_fields() {
    let db = RootDatabase::default();
    let rule = Harness(RelayPageInfoRuleImpl);
    let schema = r"
            type PageInfo {
                hasPreviousPage: Boolean
                hasNextPage: Boolean
                startCursor: String
                endCursor: String
            }
        ";
    let project_files = create_schema_project(&db, schema);
    let diagnostics = rule.check(&db, project_files, None);
    let all: Vec<_> = diagnostics.values().flatten().collect();
    assert_eq!(all.len(), 2);
    assert!(all.iter().any(|d| d.message.contains("hasPreviousPage")));
    assert!(all.iter().any(|d| d.message.contains("hasNextPage")));
}

#[test]
fn non_null_cursor_fields_is_valid() {
    let db = RootDatabase::default();
    let rule = Harness(RelayPageInfoRuleImpl);
    // Cursors as non-null is stricter than required but still valid
    // Actually, the Relay spec says String (nullable), so non-null is wrong type
    let schema = r"
            type PageInfo {
                hasPreviousPage: Boolean!
                hasNextPage: Boolean!
                startCursor: String!
                endCursor: String!
            }
        ";
    let project_files = create_schema_project(&db, schema);
    let diagnostics = rule.check(&db, project_files, None);
    let all: Vec<_> = diagnostics.values().flatten().collect();
    // Non-null cursors don't match the spec (String, not String!)
    assert_eq!(all.len(), 2);
    assert!(all.iter().any(|d| d.message.contains("startCursor")));
    assert!(all.iter().any(|d| d.message.contains("endCursor")));
}

#[test]
fn page_info_not_object_type() {
    let db = RootDatabase::default();
    let rule = Harness(RelayPageInfoRuleImpl);
    let schema = "scalar PageInfo";
    let project_files = create_schema_project(&db, schema);
    let diagnostics = rule.check(&db, project_files, None);
    let all: Vec<_> = diagnostics.values().flatten().collect();
    assert_eq!(all.len(), 1);
    assert!(all[0].message.contains("`PageInfo` must be an Object type"));
}

// ---------------------------------------------------------------------------
// require_deprecation_date
// ---------------------------------------------------------------------------
#[test]
fn test_deprecated_with_future_deletion_date() {
    let diagnostics = rdd_check(
        r#"
type User {
    id: ID!
    oldField: String @deprecated(reason: "Use newField", deletionDate: "01/01/2999")
}
"#,
    );
    assert!(diagnostics.is_empty(), "got {diagnostics:?}");
}

#[test]
fn test_deprecated_without_deletion_date() {
    let diagnostics = rdd_check(
        r#"
type User {
    id: ID!
    oldField: String @deprecated(reason: "Use newField instead")
}
"#,
    );
    assert_eq!(diagnostics.len(), 1);
    assert_eq!(
        diagnostics[0].message,
        "Directive \"@deprecated\" must have a deletion date for field \"oldField\" in type \"User\""
    );
}

#[test]
fn require_deprecation_date_test_deprecated_without_reason() {
    let diagnostics = rdd_check(
        r"
type User {
    id: ID!
    oldField: String @deprecated
}
",
    );
    assert_eq!(diagnostics.len(), 1);
    assert!(diagnostics[0].message.contains("must have a deletion date"));
}

#[test]
fn test_enum_deprecated_without_date() {
    let diagnostics = rdd_check(
        r#"
enum Status {
    ACTIVE
    LEGACY @deprecated(reason: "No longer used")
}
"#,
    );
    assert_eq!(diagnostics.len(), 1);
    assert_eq!(
        diagnostics[0].message,
        "Directive \"@deprecated\" must have a deletion date for enum value \"LEGACY\" in enum \"Status\""
    );
}

#[test]
fn test_enum_deprecated_with_future_date() {
    let diagnostics = rdd_check(
        r#"
enum Status {
    ACTIVE
    LEGACY @deprecated(reason: "No longer used", deletionDate: "01/06/2999")
}
"#,
    );
    assert!(diagnostics.is_empty(), "got {diagnostics:?}");
}

#[test]
fn test_no_deprecated_fields() {
    let diagnostics = rdd_check(
        r"
type User {
    id: ID!
    name: String
}
",
    );
    assert!(diagnostics.is_empty());
}

#[test]
fn test_invalid_format() {
    // Date in YYYY-MM-DD form — graphql-eslint requires DD/MM/YYYY.
    let diagnostics = rdd_check(
        r#"
type User {
    id: ID!
    oldField: String @deprecated(reason: "Use newField", deletionDate: "2025-06-01")
}
"#,
    );
    assert_eq!(diagnostics.len(), 1);
    assert_eq!(
        diagnostics[0].message,
        "Deletion date must be in format \"DD/MM/YYYY\" for field \"oldField\" in type \"User\""
    );
}

#[test]
fn test_invalid_date() {
    // Format matches but the date is impossible (no Feb 31).
    let diagnostics = rdd_check(
        r#"
type User {
    id: ID!
    oldField: String @deprecated(reason: "x", deletionDate: "31/02/2999")
}
"#,
    );
    assert_eq!(diagnostics.len(), 1);
    assert_eq!(
        diagnostics[0].message,
        "Invalid \"31/02/2999\" deletion date for field \"oldField\" in type \"User\""
    );
}

#[test]
fn test_can_be_removed_when_in_past() {
    let diagnostics = rdd_check(
        r#"
type User {
    id: ID!
    oldField: String @deprecated(reason: "x", deletionDate: "01/01/1990")
}
"#,
    );
    assert_eq!(diagnostics.len(), 1);
    // The middle byte is U+0441 (Cyrillic small letter es), matching
    // graphql-eslint exactly.
    assert_eq!(
        diagnostics[0].message,
        "field \"oldField\" in type \"User\" \u{0441}an be removed"
    );
}

#[test]
fn test_custom_argument_name() {
    let opts = json(r#"{ "argumentName": "removalDate" }"#);
    let diagnostics = rdd_check_with_options(
        r#"
type User {
    id: ID!
    oldField: String @deprecated(reason: "Use newField", removalDate: "01/03/2999")
}
"#,
        Some(&opts),
    );
    assert!(diagnostics.is_empty(), "got {diagnostics:?}");
}

#[test]
fn test_custom_argument_name_missing() {
    let opts = json(r#"{ "argumentName": "removalDate" }"#);
    let diagnostics = rdd_check_with_options(
        r#"
type User {
    id: ID!
    oldField: String @deprecated(reason: "Use newField", deletionDate: "01/03/2999")
}
"#,
        Some(&opts),
    );
    assert_eq!(diagnostics.len(), 1);
}

#[test]
fn test_position_points_at_directive_name() {
    let schema = "type Query { _: Boolean }\ntype User {\n  id: ID!\n  oldField: String @deprecated(reason: \"use newField\")\n}\n";
    let diagnostics = rdd_check(schema);
    assert_eq!(diagnostics.len(), 1);
    // Range should cover `deprecated` (the directive name token), not
    // the field, the directive arguments, or the field type.
    let span = &diagnostics[0].span;
    let text = &schema[span.start..span.end];
    assert_eq!(text, "deprecated");
}

// ---------------------------------------------------------------------------
// require_deprecation_reason
// ---------------------------------------------------------------------------
#[test]
fn test_deprecated_with_reason() {
    let db = RootDatabase::default();
    let rule = Harness(RequireDeprecationReasonRuleImpl);
    let schema = r#"
type User {
    id: ID!
    oldField: String @deprecated(reason: "Use newField")
}
"#;
    let project_files = create_schema_project(&db, schema);
    let diagnostics = rule.check(&db, project_files, None);
    let all: Vec<_> = diagnostics.values().flatten().collect();
    assert!(all.is_empty());
}

#[test]
fn require_deprecation_reason_test_deprecated_without_reason() {
    let db = RootDatabase::default();
    let rule = Harness(RequireDeprecationReasonRuleImpl);
    let schema = r"
type User {
    id: ID!
    oldField: String @deprecated
}
";
    let project_files = create_schema_project(&db, schema);
    let diagnostics = rule.check(&db, project_files, None);
    let all: Vec<_> = diagnostics.values().flatten().collect();
    assert_eq!(all.len(), 1);
    assert!(all[0].message.contains("Deprecation reason is required"));
}

#[test]
fn test_deprecated_with_empty_reason() {
    let db = RootDatabase::default();
    let rule = Harness(RequireDeprecationReasonRuleImpl);
    let schema = r#"
type User {
    id: ID!
    oldField: String @deprecated(reason: "")
}
"#;
    let project_files = create_schema_project(&db, schema);
    let diagnostics = rule.check(&db, project_files, None);
    let all: Vec<_> = diagnostics.values().flatten().collect();
    assert_eq!(all.len(), 1);
    assert!(all[0].message.contains("Deprecation reason is required"));
}

#[test]
fn test_type_level_deprecated_without_reason() {
    let db = RootDatabase::default();
    let rule = Harness(RequireDeprecationReasonRuleImpl);
    let schema = r"
type MyQuery @deprecated {
    field: String
}
";
    let project_files = create_schema_project(&db, schema);
    let diagnostics = rule.check(&db, project_files, None);
    let all: Vec<_> = diagnostics.values().flatten().collect();
    assert_eq!(all.len(), 1);
    assert!(all[0].message.contains("Deprecation reason is required"));
    assert!(all[0].message.contains("MyQuery"));
}

// ---------------------------------------------------------------------------
// require_description
// ---------------------------------------------------------------------------
#[test]
fn test_type_with_description() {
    let db = RootDatabase::default();
    let rule = Harness(RequireDescriptionRuleImpl);

    let schema = r#"
"A user in the system"
type User {
    "An id"
    id: ID!
    "A name"
    name: String!
}
"#;

    let project_files = create_schema_project(&db, schema);
    let diagnostics = StandaloneSchemaLintRule::check(&rule, &db, project_files, None);

    let user_warnings: Vec<_> = diagnostics
        .values()
        .flatten()
        .filter(|d| d.message.contains("\"User\""))
        .collect();
    assert!(user_warnings.is_empty());
}

#[test]
fn test_type_without_description() {
    let db = RootDatabase::default();
    let rule = Harness(RequireDescriptionRuleImpl);

    let schema = r"
type User {
    id: ID!
    name: String!
}
";

    let project_files = create_schema_project(&db, schema);
    let diagnostics = StandaloneSchemaLintRule::check(&rule, &db, project_files, None);

    let user_warnings: Vec<_> = diagnostics
        .values()
        .flatten()
        .filter(|d| d.message == "Description is required for type \"User\"")
        .collect();
    assert_eq!(user_warnings.len(), 1);
}

#[test]
fn test_field_without_description_flagged() {
    let db = RootDatabase::default();
    let rule = Harness(RequireDescriptionRuleImpl);
    let schema = r#"
"A user"
type User {
    id: ID!
}
"#;
    let project_files = create_schema_project(&db, schema);
    let diagnostics = StandaloneSchemaLintRule::check(&rule, &db, project_files, None);
    let msgs = rd_messages(&diagnostics);
    assert!(
        msgs.contains(&"Description is required for field \"id\" in type \"User\""),
        "missing field diagnostic, got: {msgs:?}"
    );
}

#[test]
fn test_argument_without_description_flagged() {
    let db = RootDatabase::default();
    let rule = Harness(RequireDescriptionRuleImpl);
    let schema = r#"
"A query"
type Query {
    "Lookup a user"
    user(id: ID!): String
}
"#;
    let project_files = create_schema_project(&db, schema);
    let diagnostics = StandaloneSchemaLintRule::check(&rule, &db, project_files, None);
    let msgs = rd_messages(&diagnostics);
    assert!(
        msgs.contains(
            &"Description is required for input value \"id\" in field \"user\" in type \"Query\""
        ),
        "missing arg diagnostic, got: {msgs:?}"
    );
}

#[test]
fn test_input_field_without_description_flagged() {
    let db = RootDatabase::default();
    let rule = Harness(RequireDescriptionRuleImpl);
    let schema = r#"
"Filter input"
input UserFilter {
    id: ID
}
"#;
    let project_files = create_schema_project(&db, schema);
    let diagnostics = StandaloneSchemaLintRule::check(&rule, &db, project_files, None);
    let msgs = rd_messages(&diagnostics);
    assert!(
        msgs.contains(
            &"Description is required for input value \"id\" in input \"UserFilter\""
        ),
        "missing input field diagnostic, got: {msgs:?}"
    );
}

#[test]
fn test_enum_value_without_description_flagged() {
    let db = RootDatabase::default();
    let rule = Harness(RequireDescriptionRuleImpl);
    let schema = r#"
"A color"
enum Color {
    RED
}
"#;
    let project_files = create_schema_project(&db, schema);
    let diagnostics = StandaloneSchemaLintRule::check(&rule, &db, project_files, None);
    let msgs = rd_messages(&diagnostics);
    assert!(
        msgs.contains(&"Description is required for enum value \"RED\" in enum \"Color\""),
        "missing enum value diagnostic, got: {msgs:?}"
    );
}

#[test]
fn test_directive_without_description_flagged() {
    let db = RootDatabase::default();
    let rule = Harness(RequireDescriptionRuleImpl);
    let schema = r"
directive @cached(seconds: Int) on FIELD_DEFINITION
";
    let project_files = create_schema_project(&db, schema);
    let diagnostics = StandaloneSchemaLintRule::check(&rule, &db, project_files, None);
    let msgs = rd_messages(&diagnostics);
    assert!(
        msgs.contains(&"Description is required for directive \"cached\""),
        "missing directive diagnostic, got: {msgs:?}"
    );
    assert!(
        msgs.contains(
            &"Description is required for input value \"seconds\" in directive \"cached\""
        ),
        "missing directive arg diagnostic, got: {msgs:?}"
    );
}

#[test]
fn test_fully_documented_schema_clean() {
    let db = RootDatabase::default();
    let rule = Harness(RequireDescriptionRuleImpl);
    let schema = r#"
"A user"
type User {
    "The id"
    id: ID!
}

"Filter input"
input UserFilter {
    "Filter by id"
    id: ID
}

"Color"
enum Color {
    "Red"
    RED
}

"Cache directive"
directive @cached(
    "How long to cache"
    seconds: Int
) on FIELD_DEFINITION
"#;
    let project_files = create_schema_project(&db, schema);
    let diagnostics = StandaloneSchemaLintRule::check(&rule, &db, project_files, None);
    let msgs = rd_messages(&diagnostics);
    assert!(msgs.is_empty(), "expected no diagnostics, got: {msgs:?}");
}

#[test]
fn test_operation_without_comment_flagged() {
    let db = RootDatabase::default();
    let rule = Harness(RequireDescriptionRuleImpl);
    let source = "query GetUser { user { id } }\n";
    let (file_id, content, metadata, project_files) = rd_create_document_project(&db, source);
    let diagnostics = StandaloneDocumentLintRule::check(
        &rule,
        &db,
        file_id,
        content,
        metadata,
        project_files,
        None,
    );
    assert_eq!(diagnostics.len(), 1);
    assert_eq!(
        diagnostics[0].message,
        "Description is required for query \"GetUser\""
    );
}

#[test]
fn test_operation_with_leading_comment_clean() {
    let db = RootDatabase::default();
    let rule = Harness(RequireDescriptionRuleImpl);
    let source = "# Fetches the current user\nquery GetUser { user { id } }\n";
    let (file_id, content, metadata, project_files) = rd_create_document_project(&db, source);
    let diagnostics = StandaloneDocumentLintRule::check(
        &rule,
        &db,
        file_id,
        content,
        metadata,
        project_files,
        None,
    );
    assert!(
        diagnostics.is_empty(),
        "unexpected diagnostics: {:?}",
        diagnostics.iter().map(|d| &d.message).collect::<Vec<_>>()
    );
}

#[test]
fn test_operation_with_blank_line_after_comment_flagged() {
    let db = RootDatabase::default();
    let rule = Harness(RequireDescriptionRuleImpl);
    // Blank line between comment and operation — graphql-eslint requires
    // `linesBefore === 1`, so this is NOT a description.
    let source = "# Fetches the current user\n\nquery GetUser { user { id } }\n";
    let (file_id, content, metadata, project_files) = rd_create_document_project(&db, source);
    let diagnostics = StandaloneDocumentLintRule::check(
        &rule,
        &db,
        file_id,
        content,
        metadata,
        project_files,
        None,
    );
    assert_eq!(diagnostics.len(), 1);
}

#[test]
fn test_anonymous_operation_uses_keyword_label() {
    let db = RootDatabase::default();
    let rule = Harness(RequireDescriptionRuleImpl);
    let source = "mutation { updateUser(id: \"1\") { id } }\n";
    let (file_id, content, metadata, project_files) = rd_create_document_project(&db, source);
    let diagnostics = StandaloneDocumentLintRule::check(
        &rule,
        &db,
        file_id,
        content,
        metadata,
        project_files,
        None,
    );
    assert_eq!(diagnostics.len(), 1);
    assert_eq!(
        diagnostics[0].message,
        "Description is required for mutation"
    );
}

#[test]
fn test_eslint_disable_comment_does_not_satisfy() {
    let db = RootDatabase::default();
    let rule = Harness(RequireDescriptionRuleImpl);
    let source = "# eslint-disable-next-line\nquery GetUser { user { id } }\n";
    let (file_id, content, metadata, project_files) = rd_create_document_project(&db, source);
    let diagnostics = StandaloneDocumentLintRule::check(
        &rule,
        &db,
        file_id,
        content,
        metadata,
        project_files,
        None,
    );
    assert_eq!(diagnostics.len(), 1);
}

#[test]
fn test_fragment_definitions_not_flagged() {
    let db = RootDatabase::default();
    let rule = Harness(RequireDescriptionRuleImpl);
    let source = "fragment UserFields on User { id }\n";
    let (file_id, content, metadata, project_files) = rd_create_document_project(&db, source);
    let diagnostics = StandaloneDocumentLintRule::check(
        &rule,
        &db,
        file_id,
        content,
        metadata,
        project_files,
        None,
    );
    assert!(diagnostics.is_empty());
}

// ---------------------------------------------------------------------------
// require_field_of_type_query_in_mutation_result
// ---------------------------------------------------------------------------
#[test]
fn test_mutation_result_with_query_field() {
    let db = RootDatabase::default();
    let rule = Harness(RequireFieldOfTypeQueryInMutationResultRuleImpl);
    let schema = "type Query { user: User } type Mutation { createUser: CreateUserResult! } type CreateUserResult { user: User! query: Query! } type User { id: ID! }";
    let project_files = create_schema_project(&db, schema);
    let diagnostics = rule.check(&db, project_files, None);
    let all: Vec<_> = diagnostics.values().flatten().collect();
    assert!(all.is_empty());
}

#[test]
fn test_mutation_result_without_query_field() {
    let db = RootDatabase::default();
    let rule = Harness(RequireFieldOfTypeQueryInMutationResultRuleImpl);
    let schema = "type Query { user: User } type Mutation { createUser: CreateUserResult! } type CreateUserResult { user: User! } type User { id: ID! }";
    let project_files = create_schema_project(&db, schema);
    let diagnostics = rule.check(&db, project_files, None);
    let all: Vec<_> = diagnostics.values().flatten().collect();
    assert_eq!(all.len(), 1);
    assert!(all[0].message.contains("createUser"));
}

// ---------------------------------------------------------------------------
// require_import_fragment
// ---------------------------------------------------------------------------
#[test]
fn test_fragment_spread_without_import() {
    let diagnostics = rif_check("query GetUser { user { ...UserFields } }");
    assert_eq!(diagnostics.len(), 1);
    assert!(diagnostics[0].message.contains("UserFields"));
    assert!(diagnostics[0].message.contains("fragment to be imported"));
}

#[test]
fn test_fragment_spread_with_import() {
    let source = r#"# import UserFields from "user-fields.graphql"
query GetUser { user { ...UserFields } }"#;
    let diagnostics = rif_check(source);
    assert!(diagnostics.is_empty());
}

#[test]
fn test_locally_defined_fragment_no_import_needed() {
    let source = r"fragment UserFields on User { name }
query GetUser { user { ...UserFields } }";
    let diagnostics = rif_check(source);
    assert!(diagnostics.is_empty());
}

#[test]
fn test_multiple_imports() {
    let source = r#"# import UserFields from "user.graphql"
# import PostFields from "post.graphql"
query GetFeed { user { ...UserFields } posts { ...PostFields } }"#;
    let diagnostics = rif_check(source);
    assert!(diagnostics.is_empty());
}

#[test]
fn test_comma_separated_imports() {
    let source = r#"# import UserFields, PostFields from "types.graphql"
query GetFeed { user { ...UserFields } posts { ...PostFields } }"#;
    let diagnostics = rif_check(source);
    assert!(diagnostics.is_empty());
}

#[test]
fn test_mixed_imported_and_missing() {
    let source = r#"# import UserFields from "user.graphql"
query GetFeed { user { ...UserFields } posts { ...PostFields } }"#;
    let diagnostics = rif_check(source);
    assert_eq!(diagnostics.len(), 1);
    assert!(diagnostics[0].message.contains("PostFields"));
}

#[test]
fn test_nested_fragment_spread_without_import() {
    let source = "query GetUser { user { posts { ...PostFields } } }";
    let diagnostics = rif_check(source);
    assert_eq!(diagnostics.len(), 1);
    assert!(diagnostics[0].message.contains("PostFields"));
}

#[test]
fn test_fragment_in_inline_fragment() {
    let source = "query GetUser { user { ... on Admin { ...AdminFields } } }";
    let diagnostics = rif_check(source);
    assert_eq!(diagnostics.len(), 1);
    assert!(diagnostics[0].message.contains("AdminFields"));
}

#[test]
fn test_no_fragment_spreads() {
    let diagnostics = rif_check("query GetUser { user { id name } }");
    assert!(diagnostics.is_empty());
}

#[test]
fn test_diagnostic_points_to_fragment_name() {
    let source = "query GetUser { user { ...UserFields } }";
    let diagnostics = rif_check(source);
    assert_eq!(diagnostics.len(), 1);
    let name_text = &source[diagnostics[0].span.start..diagnostics[0].span.end];
    assert_eq!(name_text, "UserFields");
}

#[test]
fn test_import_with_single_quotes() {
    let source = r"# import UserFields from 'user.graphql'
query GetUser { user { ...UserFields } }";
    let diagnostics = rif_check(source);
    assert!(diagnostics.is_empty());
}

#[test]
fn test_fragment_spread_in_fragment_definition() {
    let source = r#"# import AddressFields from "address.graphql"
fragment UserFields on User { name address { ...AddressFields } }"#;
    let diagnostics = rif_check(source);
    assert!(diagnostics.is_empty());
}

#[test]
fn test_fragment_spread_in_fragment_without_import() {
    let source = "fragment UserFields on User { name address { ...AddressFields } }";
    let diagnostics = rif_check(source);
    assert_eq!(diagnostics.len(), 1);
    assert!(diagnostics[0].message.contains("AddressFields"));
}

// ---------------------------------------------------------------------------
// require_nullable_fields_with_oneof
// ---------------------------------------------------------------------------
#[test]
fn test_oneof_with_nullable_fields() {
    let db = RootDatabase::default();
    let rule = Harness(RequireNullableFieldsWithOneofRuleImpl);
    let schema = r#"
input UserByInput @oneOf {
    id: ID
    email: String
    username: String
}
"#;
    let project_files = create_schema_project(&db, schema);
    let diagnostics = rule.check(&db, project_files, None);
    let all: Vec<_> = diagnostics.values().flatten().collect();
    assert!(all.is_empty());
}

#[test]
fn test_oneof_with_non_null_fields() {
    let db = RootDatabase::default();
    let rule = Harness(RequireNullableFieldsWithOneofRuleImpl);
    let schema = r#"
input UserByInput @oneOf {
    id: ID!
    email: String!
    username: String
}
"#;
    let project_files = create_schema_project(&db, schema);
    let diagnostics = rule.check(&db, project_files, None);
    let all: Vec<_> = diagnostics.values().flatten().collect();
    assert_eq!(all.len(), 2);
    assert!(all[0].message.contains("must be nullable"));
}

#[test]
fn test_input_without_oneof_allows_non_null() {
    let db = RootDatabase::default();
    let rule = Harness(RequireNullableFieldsWithOneofRuleImpl);
    let schema = r#"
input UserInput {
    id: ID!
    email: String!
}
"#;
    let project_files = create_schema_project(&db, schema);
    let diagnostics = rule.check(&db, project_files, None);
    let all: Vec<_> = diagnostics.values().flatten().collect();
    assert!(all.is_empty());
}

#[test]
fn test_non_input_types_ignored() {
    let db = RootDatabase::default();
    let rule = Harness(RequireNullableFieldsWithOneofRuleImpl);
    let schema = r#"
type User {
    id: ID!
    name: String!
}
"#;
    let project_files = create_schema_project(&db, schema);
    let diagnostics = rule.check(&db, project_files, None);
    let all: Vec<_> = diagnostics.values().flatten().collect();
    assert!(all.is_empty());
}

#[test]
fn test_oneof_all_non_null() {
    let db = RootDatabase::default();
    let rule = Harness(RequireNullableFieldsWithOneofRuleImpl);
    let schema = r#"
input FindUserInput @oneOf {
    id: ID!
    email: String!
    username: String!
}
"#;
    let project_files = create_schema_project(&db, schema);
    let diagnostics = rule.check(&db, project_files, None);
    let all: Vec<_> = diagnostics.values().flatten().collect();
    assert_eq!(all.len(), 3);
}
