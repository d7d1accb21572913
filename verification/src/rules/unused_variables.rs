//! The `unused_variables` lint rule.
use vstd::prelude::*;
use crate::diagnostics::LintSeverity;

verus! {

/// Lint rule that detects operation variables that are declared but never used.
pub struct UnusedVariablesRuleImpl;

impl UnusedVariablesRuleImpl {
    /// The rule's identifier.
    pub fn name(&self) -> (s: &'static str)
        ensures
            s@ == "unused_variables"@,
    {
        "unused_variables"
    }

    /// What the rule checks.
    pub fn description(&self) -> (s: &'static str)
        ensures
            s@ == "Detects variables that are declared by an operation but never used in it"@,
    {
        "Detects variables that are declared by an operation but never used in it"
    }

    /// The severity the rule reports with unless configured otherwise.
    pub fn default_severity(&self) -> (s: LintSeverity)
        ensures
            s == LintSeverity::Warning,
    {
        LintSeverity::Warning
    }
}

} // verus!
