//! Lint rule implementations, one module per rule.
use vstd::prelude::*;
use apollo_parser::cst;
pub mod alphabetize;
pub mod description_style;
pub mod input_name;
pub mod lone_executable_definition;
pub mod match_document_filename;
pub mod naming_convention;
pub mod no_anonymous_operations;
pub mod no_deprecated;
pub mod no_duplicate_fields;
pub mod no_hashtag_description;
pub mod no_one_place_fragments;
pub mod no_root_type;
pub mod no_scalar_result_type_on_mutation;
pub mod no_typename_prefix;
pub mod no_unreachable_types;
pub mod no_unused_fragments;
pub mod operation_name_suffix;
pub mod redundant_fields;
pub mod relay_arguments;
pub mod relay_connection_types;
pub mod relay_edge_types;
pub mod relay_page_info;
pub mod require_deprecation_date;
pub mod require_deprecation_reason;
pub mod require_description;
pub mod require_field_of_type_query_in_mutation_result;
pub mod require_id_field;
pub mod require_import_fragment;
pub mod require_nullable_fields_with_oneof;
pub mod unique_names;
pub mod unused_fields;
pub mod unused_fragments;
pub mod unused_variables;

pub use alphabetize::AlphabetizeRuleImpl;
pub use description_style::DescriptionStyleRuleImpl;
pub use input_name::InputNameRuleImpl;
pub use lone_executable_definition::LoneExecutableDefinitionRuleImpl;
pub use match_document_filename::MatchDocumentFilenameRuleImpl;
pub use naming_convention::NamingConventionRuleImpl;
pub use no_anonymous_operations::NoAnonymousOperationsRuleImpl;
pub use no_deprecated::NoDeprecatedRuleImpl;
pub use no_duplicate_fields::NoDuplicateFieldsRuleImpl;
pub use no_hashtag_description::NoHashtagDescriptionRuleImpl;
pub use no_one_place_fragments::NoOnePlaceFragmentsRuleImpl;
pub use no_root_type::NoRootTypeRuleImpl;
pub use no_scalar_result_type_on_mutation::NoScalarResultTypeOnMutationRuleImpl;
pub use no_typename_prefix::NoTypenamePrefixRuleImpl;
pub use no_unreachable_types::NoUnreachableTypesRuleImpl;
pub use no_unused_fragments::NoUnusedFragmentsRuleImpl;
pub use operation_name_suffix::OperationNameSuffixRuleImpl;
pub use redundant_fields::RedundantFieldsRuleImpl;
pub use relay_arguments::RelayArgumentsRuleImpl;
pub use relay_connection_types::RelayConnectionTypesRuleImpl;
pub use relay_edge_types::RelayEdgeTypesRuleImpl;
pub use relay_page_info::RelayPageInfoRuleImpl;
pub use require_deprecation_date::RequireDeprecationDateRuleImpl;
pub use require_deprecation_reason::RequireDeprecationReasonRuleImpl;
pub use require_description::RequireDescriptionRuleImpl;
pub use require_field_of_type_query_in_mutation_result::RequireFieldOfTypeQueryInMutationResultRuleImpl;
pub use require_id_field::RequireIdFieldRuleImpl;
pub use require_import_fragment::RequireImportFragmentRuleImpl;
pub use require_nullable_fields_with_oneof::RequireNullableFieldsWithOneofRuleImpl;
pub use unique_names::UniqueNamesRuleImpl;
pub use unused_fields::UnusedFieldsRuleImpl;
pub use unused_fragments::UnusedFragmentsRuleImpl;
pub use unused_variables::UnusedVariablesRuleImpl;

verus! {

#[verifier::external_type_specification]
#[verifier::external_body]
pub struct ExOperationType(cst::OperationType);

/// The kind of GraphQL operation.
#[derive(Debug, Clone, Copy, PartialEq, Eq, Structural)]
pub enum OperationKind {
    Query,
    Mutation,
    Subscription,
}

impl OperationKind {
    /// The operation's keyword.
    pub open spec fn spec_keyword(self) -> Seq<char> {
        match self {
            OperationKind::Query => "query"@,
            OperationKind::Mutation => "mutation"@,
            OperationKind::Subscription => "subscription"@,
        }
    }

    /// The operation's keyword: `query`, `mutation` or `subscription`.
    pub fn keyword(self) -> (r: &'static str)
        ensures
            r@ == self.spec_keyword(),
    {
        match self {
            OperationKind::Query => "query",
            OperationKind::Mutation => "mutation",
            OperationKind::Subscription => "subscription",
        }
    }
}

/// The kind that an operation-type node denotes, from which of its
/// keyword tokens it holds: `query` first, then `mutation`, else
/// `subscription`.
pub fn operation_kind_from_tokens(has_query: bool, has_mutation: bool) -> (k: OperationKind)
    ensures
        k == (if has_query {
            OperationKind::Query
        } else if has_mutation {
            OperationKind::Mutation
        } else {
            OperationKind::Subscription
        }),
{
    if has_query {
        OperationKind::Query
    } else if has_mutation {
        OperationKind::Mutation
    } else {
        OperationKind::Subscription
    }
}

/// The operation-type node holds the `query` keyword token.
pub uninterp spec fn op_has_query(op_type: cst::OperationType) -> bool;

/// The operation-type node holds the `mutation` keyword token.
pub uninterp spec fn op_has_mutation(op_type: cst::OperationType) -> bool;

/// `cst::OperationType::query_token`: whether the node holds the `query`
/// keyword, a property of the node alone.
#[verifier::external_body]
fn has_query_token(op_type: &cst::OperationType) -> (b: bool)
    ensures
        b == op_has_query(*op_type),
{
    op_type.query_token().is_some()
}

/// `cst::OperationType::mutation_token`: whether the node holds the
/// `mutation` keyword, a property of the node alone.
#[verifier::external_body]
fn has_mutation_token(op_type: &cst::OperationType) -> (b: bool)
    ensures
        b == op_has_mutation(*op_type),
{
    op_type.mutation_token().is_some()
}

/// The kind of operation that an operation-type node denotes: `query` if it
/// holds the `query` keyword, else `mutation` if it holds that one, else
/// `subscription`.
pub fn get_operation_kind(op_type: &cst::OperationType) -> (k: OperationKind)
    ensures
        k == (if op_has_query(*op_type) {
            OperationKind::Query
        } else if op_has_mutation(*op_type) {
            OperationKind::Mutation
        } else {
            OperationKind::Subscription
        }),
{
    let q = has_query_token(op_type);
    let m = has_mutation_token(op_type);
    operation_kind_from_tokens(q, m)
}

} // verus!
