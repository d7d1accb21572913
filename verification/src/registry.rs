//! Registry of the lint rules that the linter runs, by category.
use vstd::prelude::*;
use crate::diagnostics::LintSeverity;
use crate::rules::{
    NoAnonymousOperationsRuleImpl, NoDeprecatedRuleImpl, OperationNameSuffixRuleImpl,
    RedundantFieldsRuleImpl, RequireIdFieldRuleImpl, UniqueNamesRuleImpl, UnusedFieldsRuleImpl,
    UnusedFragmentsRuleImpl, UnusedVariablesRuleImpl,
};
use crate::text::{sort_strs, sorted_lex, strs_view};

verus! {

/// A registered rule's metadata: identifier, description, default severity.
#[derive(Debug, Clone, Copy)]
pub struct RuleInfo {
    name: &'static str,
    description: &'static str,
    default_severity: LintSeverity,
}

/// Rule metadata as plain values.
pub type RuleInfoView = (Seq<char>, Seq<char>, LintSeverity);

impl RuleInfo {
    pub closed spec fn view(&self) -> RuleInfoView {
        (self.name@, self.description@, self.default_severity)
    }

    fn of(name: &'static str, description: &'static str, default_severity: LintSeverity) -> (r: Self)
        ensures
            r.view() == (name@, description@, default_severity),
    {
        RuleInfo { name, description, default_severity }
    }

    /// The rule's identifier.
    pub fn name(&self) -> (s: &'static str)
        ensures
            s@ == self.view().0,
    {
        self.name
    }

    /// What the rule checks.
    pub fn description(&self) -> (s: &'static str)
        ensures
            s@ == self.view().1,
    {
        self.description
    }

    /// The severity the rule reports with unless configured otherwise.
    pub fn default_severity(&self) -> (s: LintSeverity)
        ensures
            s == self.view().2,
    {
        self.default_severity
    }
}

/// Metadata views of a list of rules.
pub open spec fn infos_view(v: Seq<RuleInfo>) -> Seq<RuleInfoView> {
    Seq::new(v.len(), |k: int| v[k].view())
}

/// The identifiers of a list of rule metadata.
pub open spec fn names_of(v: Seq<RuleInfoView>) -> Seq<Seq<char>> {
    Seq::new(v.len(), |k: int| v[k].0)
}

/// Rules that check one document without the schema.
pub open spec fn spec_standalone_document_rules() -> Seq<RuleInfoView> {
    seq![
        ("no_anonymous_operations"@, "Requires all operations to have explicit names for better monitoring and debugging"@, LintSeverity::Error),
        ("operation_name_suffix"@, "Requires operation names to have type-specific suffixes (Query, Mutation, Subscription)"@, LintSeverity::Warning),
        ("redundant_fields"@, "Detects fields that are redundant because they are already included in a sibling fragment spread"@, LintSeverity::Warning),
        ("unused_variables"@, "Detects variables that are declared by an operation but never used in it"@, LintSeverity::Warning),
    ]
}

/// Rules that check one document against the schema.
pub open spec fn spec_document_schema_rules() -> Seq<RuleInfoView> {
    seq![
        ("no_deprecated"@, "Warns when using deprecated fields, arguments, or enum values"@, LintSeverity::Warning),
        ("require_id_field"@, "Requires the `id` field to be selected on types that define it"@, LintSeverity::Warning),
    ]
}

/// Rules that check the whole project.
pub open spec fn spec_project_rules() -> Seq<RuleInfoView> {
    seq![
        ("unique_names"@, "Requires operation and fragment names to be unique across the project"@, LintSeverity::Warning),
        ("unused_fields"@, "Detects schema fields that no operation or fragment in the project selects"@, LintSeverity::Warning),
        ("unused_fragments"@, "Detects fragment definitions that are never spread anywhere in the project"@, LintSeverity::Warning),
    ]
}

/// The identifiers of every registered rule, category by category.
pub open spec fn spec_registered_names() -> Seq<Seq<char>> {
    names_of(spec_standalone_document_rules()) + names_of(spec_document_schema_rules()) + names_of(spec_project_rules())
}

/// Rules that check one document without the schema.
pub fn standalone_document_rules() -> (r: Vec<RuleInfo>)
    ensures
        infos_view(r@) == spec_standalone_document_rules(),
{
    let a = NoAnonymousOperationsRuleImpl;
    let b = OperationNameSuffixRuleImpl;
    let c = RedundantFieldsRuleImpl;
    let d = UnusedVariablesRuleImpl;
    let mut r: Vec<RuleInfo> = Vec::new();
    r.push(RuleInfo::of(a.name(), a.description(), a.default_severity()));
    r.push(RuleInfo::of(b.name(), b.description(), b.default_severity()));
    r.push(RuleInfo::of(c.name(), c.description(), c.default_severity()));
    r.push(RuleInfo::of(d.name(), d.description(), d.default_severity()));
    assert(infos_view(r@) =~= spec_standalone_document_rules());
    r
}

/// Rules that check one document against the schema.
pub fn document_schema_rules() -> (r: Vec<RuleInfo>)
    ensures
        infos_view(r@) == spec_document_schema_rules(),
{
    let a = NoDeprecatedRuleImpl;
    let b = RequireIdFieldRuleImpl;
    let mut r: Vec<RuleInfo> = Vec::new();
    r.push(RuleInfo::of(a.name(), a.description(), a.default_severity()));
    r.push(RuleInfo::of(b.name(), b.description(), b.default_severity()));
    assert(infos_view(r@) =~= spec_document_schema_rules());
    r
}

/// Rules that check the whole project.
pub fn project_rules() -> (r: Vec<RuleInfo>)
    ensures
        infos_view(r@) == spec_project_rules(),
{
    let a = UniqueNamesRuleImpl;
    let b = UnusedFieldsRuleImpl;
    let c = UnusedFragmentsRuleImpl;
    let mut r: Vec<RuleInfo> = Vec::new();
    r.push(RuleInfo::of(a.name(), a.description(), a.default_severity()));
    r.push(RuleInfo::of(b.name(), b.description(), b.default_severity()));
    r.push(RuleInfo::of(c.name(), c.description(), c.default_severity()));
    assert(infos_view(r@) =~= spec_project_rules());
    r
}

/// The identifiers of every registered rule, sorted.
pub fn all_rule_names() -> (r: Vec<&'static str>)
    ensures
        sorted_lex(strs_view(r@)),
        strs_view(r@).to_multiset() == spec_registered_names().to_multiset(),
{
    let mut names: Vec<&'static str> = Vec::new();
    let a = standalone_document_rules();
    let b = document_schema_rules();
    let c = project_rules();
    let mut k: usize = 0;
    while k < a.len()
        invariant
            0 <= k <= a.len(),
            infos_view(a@) == spec_standalone_document_rules(),
            strs_view(names@) == names_of(infos_view(a@)).take(k as int),
        decreases a.len() - k,
    {
        let ghost before = strs_view(names@);
        names.push(a[k].name());
        assert(strs_view(names@) =~= before.push(infos_view(a@)[k as int].0));
        assert(names_of(infos_view(a@)).take(k + 1) =~= names_of(infos_view(a@)).take(k as int).push(infos_view(a@)[k as int].0));
        k += 1;
    }
    let ghost after_a = strs_view(names@);
    assert(after_a =~= names_of(spec_standalone_document_rules()));
    k = 0;
    while k < b.len()
        invariant
            0 <= k <= b.len(),
            infos_view(b@) == spec_document_schema_rules(),
            strs_view(names@) == after_a + names_of(infos_view(b@)).take(k as int),
        decreases b.len() - k,
    {
        let ghost before = strs_view(names@);
        names.push(b[k].name());
        assert(strs_view(names@) =~= before.push(infos_view(b@)[k as int].0));
        assert(names_of(infos_view(b@)).take(k + 1) =~= names_of(infos_view(b@)).take(k as int).push(infos_view(b@)[k as int].0));
        k += 1;
    }
    let ghost after_b = strs_view(names@);
    assert(after_b =~= after_a + names_of(spec_document_schema_rules()));
    k = 0;
    while k < c.len()
        invariant
            0 <= k <= c.len(),
            infos_view(c@) == spec_project_rules(),
            strs_view(names@) == after_b + names_of(infos_view(c@)).take(k as int),
        decreases c.len() - k,
    {
        let ghost before = strs_view(names@);
        names.push(c[k].name());
        assert(strs_view(names@) =~= before.push(infos_view(c@)[k as int].0));
        assert(names_of(infos_view(c@)).take(k + 1) =~= names_of(infos_view(c@)).take(k as int).push(infos_view(c@)[k as int].0));
        k += 1;
    }
    assert(strs_view(names@) =~= spec_registered_names());
    sort_strs(names)
}


/// The registered rule identifiers are nine, all different.
proof fn lemma_registered_names_distinct()
    ensures
        spec_registered_names().len() == 9,
        spec_registered_names().no_duplicates(),
{
    reveal_strlit("no_anonymous_operations");
    reveal_strlit("operation_name_suffix");
    reveal_strlit("redundant_fields");
    reveal_strlit("unused_variables");
    reveal_strlit("no_deprecated");
    reveal_strlit("require_id_field");
    reveal_strlit("unique_names");
    reveal_strlit("unused_fields");
    reveal_strlit("unused_fragments");
    let n = spec_registered_names();
    assert(n =~= seq![
        "no_anonymous_operations"@, "operation_name_suffix"@, "redundant_fields"@, "unused_variables"@,
        "no_deprecated"@, "require_id_field"@, "unique_names"@, "unused_fields"@, "unused_fragments"@,
    ]);
    assert forall|i: int, j: int| 0 <= i < n.len() && 0 <= j < n.len() && i != j implies n[i] != n[j] by {
        if n[i] == n[j] {
            assert(n[i].len() == n[j].len());
            assert(n[i][0] == n[j][0]);
            assert(n[i][2] == n[j][2]);
            assert(n[i][7] == n[j][7]);
        }
    }
}

/// Any arrangement of the registered rule identifiers, such as the list
/// that `all_rule_names` returns, holds nine names and none twice.
pub proof fn law_rule_names_nonempty_and_distinct(names: Seq<Seq<char>>)
    requires
        names.to_multiset() == spec_registered_names().to_multiset(),
    ensures
        names.len() == 9,
        names.no_duplicates(),
{
    lemma_registered_names_distinct();
    let reg = spec_registered_names();
    reg.lemma_multiset_has_no_duplicates();
    vstd::seq_lib::to_multiset_len(names);
    vstd::seq_lib::to_multiset_len(reg);
    names.lemma_multiset_has_no_duplicates_conv();
}

} // verus!
