//! The `unique_names` lint rule.
use vstd::prelude::*;
use crate::diagnostics::LintSeverity;

verus! {

/// Lint rule that requires operation and fragment names to be unique project-wide.
pub struct UniqueNamesRuleImpl;

impl UniqueNamesRuleImpl {
    /// The rule's identifier.
    pub fn name(&self) -> (s: &'static str)
        ensures
            s@ == "unique_names"@,
    {
        "unique_names"
    }

    /// What the rule checks.
    pub fn description(&self) -> (s: &'static str)
        ensures
            s@ == "Requires operation and fragment names to be unique across the project"@,
    {
        "Requires operation and fragment names to be unique across the project"
    }

    /// The severity the rule reports with unless configured otherwise.
    pub fn default_severity(&self) -> (s: LintSeverity)
        ensures
            s == LintSeverity::Warning,
    {
        LintSeverity::Warning
    }
}

} // verus!
