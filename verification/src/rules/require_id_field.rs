//! The `require_id_field` lint rule.
use vstd::prelude::*;
use crate::diagnostics::LintSeverity;

verus! {

/// Lint rule that requires selecting the `id` field wherever the type has one.
pub struct RequireIdFieldRuleImpl;

impl RequireIdFieldRuleImpl {
    /// The rule's identifier.
    pub fn name(&self) -> (s: &'static str)
        ensures
            s@ == "require_id_field"@,
    {
        "require_id_field"
    }

    /// What the rule checks.
    pub fn description(&self) -> (s: &'static str)
        ensures
            s@ == "Requires the `id` field to be selected on types that define it"@,
    {
        "Requires the `id` field to be selected on types that define it"
    }

    /// The severity the rule reports with unless configured otherwise.
    pub fn default_severity(&self) -> (s: LintSeverity)
        ensures
            s == LintSeverity::Warning,
    {
        LintSeverity::Warning
    }
}

} // verus!
