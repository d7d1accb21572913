//! The `unused_fragments` lint rule.
use vstd::prelude::*;
use crate::diagnostics::LintSeverity;

verus! {

/// Lint rule that detects fragment definitions that are never spread.
pub struct UnusedFragmentsRuleImpl;

impl UnusedFragmentsRuleImpl {
    /// The rule's identifier.
    pub fn name(&self) -> (s: &'static str)
        ensures
            s@ == "unused_fragments"@,
    {
        "unused_fragments"
    }

    /// What the rule checks.
    pub fn description(&self) -> (s: &'static str)
        ensures
            s@ == "Detects fragment definitions that are never spread anywhere in the project"@,
    {
        "Detects fragment definitions that are never spread anywhere in the project"
    }

    /// The severity the rule reports with unless configured otherwise.
    pub fn default_severity(&self) -> (s: LintSeverity)
        ensures
            s == LintSeverity::Warning,
    {
        LintSeverity::Warning
    }
}

} // verus!
