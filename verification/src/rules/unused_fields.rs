//! The `unused_fields` lint rule.
use vstd::prelude::*;
use crate::diagnostics::LintSeverity;

verus! {

/// Lint rule that detects schema fields that no document selects.
pub struct UnusedFieldsRuleImpl;

impl UnusedFieldsRuleImpl {
    /// The rule's identifier.
    pub fn name(&self) -> (s: &'static str)
        ensures
            s@ == "unused_fields"@,
    {
        "unused_fields"
    }

    /// What the rule checks.
    pub fn description(&self) -> (s: &'static str)
        ensures
            s@ == "Detects schema fields that no operation or fragment in the project selects"@,
    {
        "Detects schema fields that no operation or fragment in the project selects"
    }

    /// The severity the rule reports with unless configured otherwise.
    pub fn default_severity(&self) -> (s: LintSeverity)
        ensures
            s == LintSeverity::Warning,
    {
        LintSeverity::Warning
    }
}

} // verus!
