//! Lint configuration: presets, per-rule severities and options.
//!
//! Supported shapes (as written in a config file):
//!
//! ```yaml
//! lint: recommended                 # one preset
//! lint: [recommended, strict]       # several presets
//! lint:
//!   extends: recommended            # presets plus per-rule overrides
//!   rules:
//!     noDeprecated: off
//!     requireIdField: [warn, { fields: ["id", "uuid"] }]
//! ```
use vstd::prelude::*;
use crate::text::{str_eq, strings_view, strs_view};

verus! {

/// `serde_json::Value`, the rule options exactly as the config gave them.
#[verifier::external_type_specification]
#[verifier::external_body]
pub struct ExJsonValue(serde_json::Value);

/// Severity level for a lint rule.
#[derive(Debug, Clone, Copy, PartialEq, Eq)]
#[non_exhaustive]
pub enum LintSeverity {
    Off,
    Warn,
    Error,
}

impl LintSeverity {
    /// The severity's lowercase name.
    pub open spec fn spec_label(self) -> Seq<char> {
        match self {
            LintSeverity::Off => "off"@,
            LintSeverity::Warn => "warn"@,
            LintSeverity::Error => "error"@,
        }
    }

    /// The severity's lowercase name (`"off"`, `"warn"`, `"error"`).
    pub fn to_display_string(&self) -> (s: String)
        ensures
            s@ == self.spec_label(),
    {
        match self {
            LintSeverity::Off => "off".to_owned(),
            LintSeverity::Warn => "warn".to_owned(),
            LintSeverity::Error => "error".to_owned(),
        }
    }
}

/// The severity named by a config string, if it names one.
pub open spec fn spec_severity_named(v: Seq<char>) -> Option<LintSeverity> {
    if v == "off"@ {
        Some(LintSeverity::Off)
    } else if v == "warn"@ {
        Some(LintSeverity::Warn)
    } else if v == "error"@ {
        Some(LintSeverity::Error)
    } else {
        None
    }
}

/// Reads a severity from a config string: `off`, `warn` or `error`; anything
/// else is an `unknown severity` error.
pub fn severity_from_str(v: &str) -> (r: Result<LintSeverity, String>)
    ensures
        match spec_severity_named(v@) {
            Some(s) => r == Ok::<LintSeverity, String>(s),
            None => r matches Err(e) && e@ == "unknown severity: "@ + v@,
        },
{
    if str_eq(v, "off") {
        Ok(LintSeverity::Off)
    } else if str_eq(v, "warn") {
        Ok(LintSeverity::Warn)
    } else if str_eq(v, "error") {
        Ok(LintSeverity::Error)
    } else {
        let mut e = "unknown severity: ".to_owned();
        e.append(v);
        Err(e)
    }
}

/// Reads a severity from a config boolean. YAML 1.1 parses a bare `off` as
/// `false`, which maps to `Off`; `true` is no severity.
pub fn severity_from_bool(v: bool) -> (r: Result<LintSeverity, String>)
    ensures
        !v ==> r == Ok::<LintSeverity, String>(LintSeverity::Off),
        v ==> (r matches Err(e) && e@ == "boolean `true` is not a valid severity"@),
{
    if v {
        Err("boolean `true` is not a valid severity".to_owned())
    } else {
        Ok(LintSeverity::Off)
    }
}

/// Configuration for a single lint rule.
///
/// Supports a bare severity (`rule: warn`), an object
/// (`rule: { severity: warn, options: {...} }`) and the ESLint array form
/// (`rule: [warn, {...}]`).
#[derive(Debug, Clone, PartialEq)]
pub enum LintRuleConfig {
    /// Just a severity level (simple case)
    Severity(LintSeverity),
    /// Detailed config with options
    Detailed { severity: LintSeverity, options: Option<serde_json::Value> },
}

impl LintRuleConfig {
    /// The configured severity.
    pub open spec fn spec_severity(&self) -> LintSeverity {
        match self {
            LintRuleConfig::Severity(s) => *s,
            LintRuleConfig::Detailed { severity, .. } => *severity,
        }
    }

    /// Gets the severity for this rule configuration.
    pub fn severity(&self) -> (s: LintSeverity)
        ensures
            s == self.spec_severity(),
    {
        match self {
            LintRuleConfig::Severity(s) => *s,
            LintRuleConfig::Detailed { severity, .. } => *severity,
        }
    }

    /// Gets the options for this rule configuration (if any).
    pub fn options(&self) -> (o: Option<&serde_json::Value>)
        ensures
            match self {
                LintRuleConfig::Severity(_) => o is None,
                LintRuleConfig::Detailed { options, .. } => match options {
                    Some(v) => o == Some(v),
                    None => o is None,
                },
            },
    {
        match self {
            LintRuleConfig::Severity(_) => None,
            LintRuleConfig::Detailed { options, .. } => match options {
                Some(v) => Some(v),
                None => None,
            },
        }
    }
}

/// A rule config from a config string: a bare severity.
pub fn rule_config_from_str(v: &str) -> (r: Result<LintRuleConfig, String>)
    ensures
        match spec_severity_named(v@) {
            Some(s) => r matches Ok(c) && c == LintRuleConfig::Severity(s),
            None => r matches Err(e) && e@ == "unknown severity: "@ + v@,
        },
{
    match severity_from_str(v) {
        Ok(s) => Ok(LintRuleConfig::Severity(s)),
        Err(e) => Err(e),
    }
}

/// A rule config from a config boolean: `false` is `off`, `true` is refused.
pub fn rule_config_from_bool(v: bool) -> (r: Result<LintRuleConfig, String>)
    ensures
        !v ==> (r matches Ok(c) && c == LintRuleConfig::Severity(LintSeverity::Off)),
        v ==> (r matches Err(e) && e@ == "boolean `true` is not a valid severity; use 'off', 'warn', or 'error'"@),
{
    if v {
        Err("boolean `true` is not a valid severity; use 'off', 'warn', or 'error'".to_owned())
    } else {
        Ok(LintRuleConfig::Severity(LintSeverity::Off))
    }
}

/// A rule config from the ESLint array form `[severity, options?]`, given its
/// first element (if any) and its second. Without a first element there is no
/// config (`None`).
pub fn rule_config_from_array(severity: Option<LintSeverity>, options: Option<serde_json::Value>) -> (r: Option<LintRuleConfig>)
    ensures
        match severity {
            Some(s) => r matches Some(c) && c == (LintRuleConfig::Detailed { severity: s, options }),
            None => r is None,
        },
{
    match severity {
        Some(s) => Some(LintRuleConfig::Detailed { severity: s, options }),
        None => None,
    }
}

/// Extends configuration: a single preset or several.
#[derive(Debug, Clone, PartialEq, Eq)]
#[non_exhaustive]
pub enum ExtendsConfig {
    /// Single preset: `extends: recommended` or `lint: recommended`
    Single(String),
    /// Multiple presets: `extends: [recommended, strict]` or `lint: [recommended, strict]`
    Multiple(Vec<String>),
}

impl ExtendsConfig {
    /// The preset names, in order.
    pub open spec fn spec_presets(&self) -> Seq<Seq<char>> {
        match self {
            ExtendsConfig::Single(s) => seq![s@],
            ExtendsConfig::Multiple(v) => strings_view(v@),
        }
    }

    /// Gets all presets as a vector (normalizes single to vec).
    pub fn presets(&self) -> (r: Vec<&str>)
        ensures
            strs_view(r@) == self.spec_presets(),
    {
        let mut r: Vec<&str> = Vec::new();
        match self {
            ExtendsConfig::Single(s) => {
                r.push(s.as_str());
                assert(strs_view(r@) =~= seq![s@]);
            }
            ExtendsConfig::Multiple(v) => {
                let mut k: usize = 0;
                while k < v.len()
                    invariant
                        0 <= k <= v.len(),
                        strs_view(r@) == strings_view(v@).take(k as int),
                    decreases v.len() - k,
                {
                    let ghost before = strs_view(r@);
                    r.push(v[k].as_str());
                    assert(strs_view(r@) =~= before.push(v@[k as int]@));
                    assert(strings_view(v@).take(k + 1) =~= strings_view(v@).take(k as int).push(v@[k as int]@));
                    k += 1;
                }
                assert(strings_view(v@).take(v@.len() as int) =~= strings_view(v@));
            }
        }
        r
    }
}

/// Full lint configuration: presets to extend and per-rule configurations.
///
/// Rule names use `camelCase` (e.g., `noDeprecated`), matching the config file
/// format. When a name occurs more than once, its first entry counts.
#[derive(Debug, Clone)]
pub struct FullLintConfig {
    /// Presets to extend (optional)
    pub extends: Option<ExtendsConfig>,
    /// Rule configurations, by rule name. Read from a configuration file
    /// the names are distinct (`distinct_rule_keys`), and the list then acts
    /// as a map from name to entry (`law_distinct_keys_lookup`).
    pub rules: Vec<(String, LintRuleConfig)>,
}

/// Overall lint configuration.
#[derive(Debug, Clone)]
#[non_exhaustive]
pub enum LintConfig {
    /// Preset(s): `lint: recommended` or `lint: [recommended, strict]`
    Preset(ExtendsConfig),
    /// Full configuration with optional extends and rules
    Full(FullLintConfig),
}

/// The severity that the `recommended` preset gives a rule, if it has one.
pub open spec fn spec_recommended_severity(rule: Seq<char>) -> Option<LintSeverity> {
    if rule == "noAnonymousOperations"@ {
        Some(LintSeverity::Error)
    } else if rule == "noDeprecated"@ || rule == "redundantFields"@ || rule == "unusedFragments"@
        || rule == "unusedFields"@ || rule == "noDuplicateFields"@ || rule == "noUnreachableTypes"@
        || rule == "requireDeprecationReason"@ || rule == "noHashtagDescription"@
        || rule == "uniqueEnumValueNames"@ {
        Some(LintSeverity::Warn)
    } else {
        None
    }
}

/// The severity that a list of presets gives a rule: the `recommended`
/// preset's, when the list names it.
pub open spec fn spec_severity_from_presets(presets: Seq<Seq<char>>, rule: Seq<char>) -> Option<LintSeverity> {
    if presets.contains("recommended"@) {
        spec_recommended_severity(rule)
    } else {
        None
    }
}

/// The first entry of `rules` for `rule`, if any.
pub open spec fn first_entry(rules: Seq<(String, LintRuleConfig)>, rule: Seq<char>) -> Option<LintRuleConfig>
    decreases rules.len(),
{
    if rules.len() == 0 {
        None
    } else if rules[0].0@ == rule {
        Some(rules[0].1)
    } else {
        first_entry(rules.drop_first(), rule)
    }
}

impl LintConfig {
    /// The severity configured for `rule`: a rule entry wins over the presets.
    pub open spec fn spec_severity(&self, rule: Seq<char>) -> Option<LintSeverity> {
        match self {
            LintConfig::Preset(p) => spec_severity_from_presets(p.spec_presets(), rule),
            LintConfig::Full(f) => match first_entry(f.rules@, rule) {
                Some(c) => Some(c.spec_severity()),
                None => match f.extends {
                    Some(e) => spec_severity_from_presets(e.spec_presets(), rule),
                    None => None,
                },
            },
        }
    }

    /// `rule` is enabled: its severity is `warn` or `error`.
    pub open spec fn spec_is_enabled(&self, rule: Seq<char>) -> bool {
        self.spec_severity(rule) == Some(LintSeverity::Warn) || self.spec_severity(rule) == Some(LintSeverity::Error)
    }

    /// The default configuration: no presets and no rules.
    pub fn default() -> (c: Self)
        ensures
            c matches LintConfig::Full(f) && f.extends is None && f.rules@.len() == 0,
    {
        LintConfig::Full(FullLintConfig { extends: None, rules: Vec::new() })
    }

    /// Gets the recommended configuration.
    pub fn recommended() -> (c: Self)
        ensures
            c matches LintConfig::Preset(p) && p.spec_presets() == seq!["recommended"@],
    {
        LintConfig::Preset(ExtendsConfig::Single("recommended".to_owned()))
    }

    /// Gets recommended severity for a rule.
    ///
    /// The `recommended` preset includes rules that are objectively beneficial
    /// without being opinionated about architecture choices.
    fn recommended_severity(rule_name: &str) -> (r: Option<LintSeverity>)
        ensures
            r == spec_recommended_severity(rule_name@),
    {
        if str_eq(rule_name, "noAnonymousOperations") {
            Some(LintSeverity::Error)
        } else if str_eq(rule_name, "noDeprecated") || str_eq(rule_name, "redundantFields")
            || str_eq(rule_name, "unusedFragments") || str_eq(rule_name, "unusedFields")
            || str_eq(rule_name, "noDuplicateFields") || str_eq(rule_name, "noUnreachableTypes")
            || str_eq(rule_name, "requireDeprecationReason")
            || str_eq(rule_name, "noHashtagDescription") || str_eq(rule_name, "uniqueEnumValueNames") {
            Some(LintSeverity::Warn)
        } else {
            None
        }
    }

    /// Gets severity from a list of presets (later presets override earlier).
    fn severity_from_presets(presets: &ExtendsConfig, rule_name: &str) -> (r: Option<LintSeverity>)
        ensures
            r == spec_severity_from_presets(presets.spec_presets(), rule_name@),
    {
        let names = presets.presets();
        let mut severity: Option<LintSeverity> = None;
        let mut k: usize = 0;
        while k < names.len()
            invariant
                0 <= k <= names.len(),
                strs_view(names@) == presets.spec_presets(),
                severity == spec_severity_from_presets(strs_view(names@).take(k as int), rule_name@),
            decreases names.len() - k,
        {
            proof {
                let t = strs_view(names@).take(k as int);
                let t1 = strs_view(names@).take(k + 1);
                assert(t1 =~= t.push(strs_view(names@)[k as int]));
                assert(t1.contains("recommended"@) <==> (t.contains("recommended"@) || strs_view(names@)[k as int] == "recommended"@)) by {
                    if t1.contains("recommended"@) {
                        let j = choose|j: int| 0 <= j < t1.len() && t1[j] == "recommended"@;
                        if j < k {
                            assert(t[j] == t1[j]);
                        }
                    }
                    if t.contains("recommended"@) {
                        let j = choose|j: int| 0 <= j < t.len() && t[j] == "recommended"@;
                        assert(t1[j] == t[j]);
                    }
                    if strs_view(names@)[k as int] == "recommended"@ {
                        assert(t1[k as int] == "recommended"@);
                    }
                }
            }
            if str_eq(names[k], "recommended") {
                if let Some(s) = Self::recommended_severity(rule_name) {
                    severity = Some(s);
                }
            }
            k += 1;
        }
        assert(strs_view(names@).take(names@.len() as int) =~= strs_view(names@));
        severity
    }

    /// Gets the severity for a rule, considering presets and overrides.
    pub fn get_severity(&self, rule_name: &str) -> (r: Option<LintSeverity>)
        ensures
            r == self.spec_severity(rule_name@),
    {
        match self {
            LintConfig::Preset(presets) => Self::severity_from_presets(presets, rule_name),
            LintConfig::Full(f) => {
                match find_rule(&f.rules, rule_name) {
                    Some(c) => Some(c.severity()),
                    None => match &f.extends {
                        Some(e) => Self::severity_from_presets(e, rule_name),
                        None => None,
                    },
                }
            }
        }
    }

    /// Gets the options for a rule (if configured).
    ///
    /// Returns `None` if the rule is not configured or has no options.
    pub fn get_options(&self, rule_name: &str) -> (r: Option<&serde_json::Value>)
        ensures
            match self {
                LintConfig::Preset(_) => r is None,
                LintConfig::Full(f) => match first_entry(f.rules@, rule_name@) {
                    Some(LintRuleConfig::Detailed { options: Some(v), .. }) => r == Some(&v),
                    _ => r is None,
                },
            },
    {
        match self {
            LintConfig::Preset(_) => None,
            LintConfig::Full(f) => match find_rule(&f.rules, rule_name) {
                Some(c) => c.options(),
                None => None,
            },
        }
    }

    /// Checks if a rule is enabled (not `off` and not unconfigured).
    pub fn is_enabled(&self, rule_name: &str) -> (b: bool)
        ensures
            b == self.spec_is_enabled(rule_name@),
    {
        match self.get_severity(rule_name) {
            Some(LintSeverity::Warn) | Some(LintSeverity::Error) => true,
            _ => false,
        }
    }
}

/// The first entry for `rule_name`.
fn find_rule<'a>(rules: &'a Vec<(String, LintRuleConfig)>, rule_name: &str) -> (r: Option<&'a LintRuleConfig>)
    ensures
        match first_entry(rules@, rule_name@) {
            Some(c) => r == Some(&c),
            None => r is None,
        },
{
    let mut k: usize = 0;
    assert(rules@.skip(0) =~= rules@);
    while k < rules.len()
        invariant
            0 <= k <= rules.len(),
            first_entry(rules@, rule_name@) == first_entry(rules@.skip(k as int), rule_name@),
        decreases rules.len() - k,
    {
        assert(rules@.skip(k as int).drop_first() =~= rules@.skip(k + 1));
        if str_eq(rules[k].0.as_str(), rule_name) {
            return Some(&rules[k].1);
        }
        k += 1;
    }
    None
}

/// The first preset other than `recommended`, if any.
pub open spec fn first_unknown_preset(ps: Seq<Seq<char>>) -> Option<Seq<char>>
    decreases ps.len(),
{
    if ps.len() == 0 {
        None
    } else if ps[0] != "recommended"@ {
        Some(ps[0])
    } else {
        first_unknown_preset(ps.drop_first())
    }
}

/// The error for an unknown preset.
pub open spec fn preset_error(p: Seq<char>) -> Seq<char> {
    "Invalid preset name: '"@ + p + "'\n\nValid presets are:\n  - recommended"@
}

/// The configured rule names that `valid` lacks, in configuration order.
pub open spec fn unknown_rules(rules: Seq<(String, LintRuleConfig)>, valid: Seq<Seq<char>>) -> Seq<Seq<char>>
    decreases rules.len(),
{
    if rules.len() == 0 {
        seq![]
    } else {
        let rest = unknown_rules(rules.drop_last(), valid);
        if valid.contains(rules.last().0@) {
            rest
        } else {
            rest.push(rules.last().0@)
        }
    }
}

/// `items` joined by `sep`.
pub open spec fn joined(items: Seq<Seq<char>>, sep: Seq<char>) -> Seq<char>
    decreases items.len(),
{
    if items.len() == 0 {
        seq![]
    } else if items.len() == 1 {
        items[0]
    } else {
        joined(items.drop_last(), sep) + sep + items.last()
    }
}

/// One `  - name` line per name.
pub open spec fn bullet_lines(names: Seq<Seq<char>>) -> Seq<char>
    decreases names.len(),
{
    if names.len() == 0 {
        seq![]
    } else {
        bullet_lines(names.drop_last()) + "  - "@ + names.last() + "\n"@
    }
}

/// The error listing unknown rule names and then the valid ones.
pub open spec fn rules_error(unknown: Seq<Seq<char>>, valid: Seq<Seq<char>>) -> Seq<char> {
    "Invalid lint rule name(s): "@ + joined(unknown, ", "@) + "\n\nValid rule names are:\n"@ + bullet_lines(valid)
}

/// `names` lists the registered rule names in sorted order.
pub open spec fn sorted_rule_listing(names: Seq<Seq<char>>) -> bool {
    crate::text::sorted_lex(names) && names.to_multiset() == crate::registry::spec_registered_names().to_multiset()
}

/// The outcome of validating `cfg` when the registered names, sorted, are `valid`.
pub open spec fn spec_validate(cfg: LintConfig, valid: Seq<Seq<char>>) -> Result<(), Seq<char>> {
    match cfg {
        LintConfig::Preset(p) => match first_unknown_preset(p.spec_presets()) {
            Some(x) => Err(preset_error(x)),
            None => Ok(()),
        },
        LintConfig::Full(f) => {
            let ext = match f.extends {
                Some(e) => first_unknown_preset(e.spec_presets()),
                None => None,
            };
            match ext {
                Some(x) => Err(preset_error(x)),
                None => {
                    let u = unknown_rules(f.rules@, valid);
                    if u.len() == 0 { Ok(()) } else { Err(rules_error(u, valid)) }
                },
            }
        },
    }
}

/// Views a validation outcome.
pub open spec fn result_view(r: Result<(), String>) -> Result<(), Seq<char>> {
    match r {
        Ok(()) => Ok(()),
        Err(e) => Err(e@),
    }
}

fn unknown_preset(p: &ExtendsConfig) -> (r: Option<&str>)
    ensures
        match first_unknown_preset(p.spec_presets()) {
            Some(x) => r matches Some(s) && s@ == x,
            None => r is None,
        },
{
    let names = p.presets();
    let mut k: usize = 0;
    assert(strs_view(names@).skip(0) =~= strs_view(names@));
    while k < names.len()
        invariant
            0 <= k <= names.len(),
            strs_view(names@) == p.spec_presets(),
            first_unknown_preset(p.spec_presets()) == first_unknown_preset(strs_view(names@).skip(k as int)),
        decreases names.len() - k,
    {
        assert(strs_view(names@).skip(k as int).drop_first() =~= strs_view(names@).skip(k + 1));
        if !str_eq(names[k], "recommended") {
            return Some(names[k]);
        }
        k += 1;
    }
    None
}

fn preset_error_message(p: &str) -> (e: String)
    ensures
        e@ == preset_error(p@),
{
    let mut e = "Invalid preset name: '".to_owned();
    e.append(p);
    e.append("'\n\nValid presets are:\n  - recommended");
    e
}

fn contains_str(v: &Vec<&'static str>, x: &str) -> (b: bool)
    ensures
        b == strs_view(v@).contains(x@),
{
    let mut k: usize = 0;
    while k < v.len()
        invariant
            0 <= k <= v.len(),
            forall|j: int| 0 <= j < k ==> #[trigger] strs_view(v@)[j] != x@,
        decreases v.len() - k,
    {
        if str_eq(v[k], x) {
            assert(strs_view(v@)[k as int] == x@);
            return true;
        }
        k += 1;
    }
    false
}

impl LintConfig {
    /// Validates the lint configuration against available rules.
    ///
    /// Returns an error if any configured preset or rule name is invalid.
    /// The error message includes a list of valid rule names.
    pub fn validate(&self) -> (r: Result<(), String>)
        ensures
            exists|valid: Seq<Seq<char>>| sorted_rule_listing(valid) && result_view(r) == spec_validate(*self, valid),
    {
        let valid_rules = crate::registry::all_rule_names();
        let ghost valid = strs_view(valid_rules@);
        assert(sorted_rule_listing(valid));
        match self {
            LintConfig::Preset(p) => {
                match unknown_preset(p) {
                    Some(x) => {
                        let r = Err(preset_error_message(x));
                        assert(sorted_rule_listing(valid) && result_view(r) == spec_validate(*self, valid));
                        return r;
                    }
                    None => {
                        assert(sorted_rule_listing(valid) && result_view(Ok(())) == spec_validate(*self, valid));
                        return Ok(());
                    }
                }
            }
            LintConfig::Full(f) => {
                if let Some(e) = &f.extends {
                    if let Some(x) = unknown_preset(e) {
                        let r = Err(preset_error_message(x));
                        assert(sorted_rule_listing(valid) && result_view(r) == spec_validate(*self, valid));
                        return r;
                    }
                }
                let mut unknown: Vec<&str> = Vec::new();
                let mut k: usize = 0;
                while k < f.rules.len()
                    invariant
                        0 <= k <= f.rules.len(),
                        valid == strs_view(valid_rules@),
                        strs_view(unknown@) == unknown_rules(f.rules@.take(k as int), valid),
                    decreases f.rules.len() - k,
                {
                    assert(f.rules@.take(k + 1).drop_last() =~= f.rules@.take(k as int));
                    let name = f.rules[k].0.as_str();
                    if !contains_str(&valid_rules, name) {
                        let ghost before = strs_view(unknown@);
                        unknown.push(name);
                        assert(strs_view(unknown@) =~= before.push(name@));
                    }
                    k += 1;
                }
                assert(f.rules@.take(f.rules@.len() as int) =~= f.rules@);
                if unknown.len() == 0 {
                    assert(sorted_rule_listing(valid) && result_view(Ok(())) == spec_validate(*self, valid));
                    return Ok(());
                }
                let mut e = "Invalid lint rule name(s): ".to_owned();
                let mut j: usize = 0;
                while j < unknown.len()
                    invariant
                        0 <= j <= unknown.len(),
                        e@ == "Invalid lint rule name(s): "@ + joined(strs_view(unknown@).take(j as int), ", "@),
                    decreases unknown.len() - j,
                {
                    let ghost prev = strs_view(unknown@).take(j as int);
                    assert(strs_view(unknown@).take(j + 1).drop_last() =~= prev);
                    if j > 0 {
                        e.append(", ");
                    }
                    e.append(unknown[j]);
                    proof {
                        if j == 0 {
                            assert(prev =~= Seq::<Seq<char>>::empty());
                        }
                    }
                    j += 1;
                }
                assert(strs_view(unknown@).take(unknown@.len() as int) =~= strs_view(unknown@));
                e.append("\n\nValid rule names are:\n");
                let ghost head = e@;
                let mut m: usize = 0;
                while m < valid_rules.len()
                    invariant
                        0 <= m <= valid_rules.len(),
                        valid == strs_view(valid_rules@),
                        e@ == head + bullet_lines(valid.take(m as int)),
                    decreases valid_rules.len() - m,
                {
                    assert(valid.take(m + 1).drop_last() =~= valid.take(m as int));
                    e.append("  - ");
                    e.append(valid_rules[m]);
                    e.append("\n");
                    m += 1;
                }
                assert(valid.take(valid.len() as int) =~= valid);
                let r = Err(e);
                assert(sorted_rule_listing(valid) && result_view(r) == spec_validate(*self, valid));
                r
            }
        }
    }
}

/// The recommended configuration enables exactly the rules that the
/// `recommended` preset lists.
pub proof fn law_recommended_enables_listed(cfg: LintConfig, rule: Seq<char>)
    requires
        cfg matches LintConfig::Preset(p) && p.spec_presets() == seq!["recommended"@],
    ensures
        cfg.spec_is_enabled(rule) <==> spec_recommended_severity(rule) is Some,
{
    let p = match cfg { LintConfig::Preset(p) => p, _ => arbitrary() };
    assert(p.spec_presets()[0] == "recommended"@);
    assert(p.spec_presets().contains("recommended"@));
}

/// With no presets and no rule entries, no rule is enabled.
pub proof fn law_default_enables_nothing(cfg: LintConfig, rule: Seq<char>)
    requires
        cfg matches LintConfig::Full(f) && f.extends is None && f.rules@.len() == 0,
    ensures
        !cfg.spec_is_enabled(rule),
        cfg.spec_severity(rule) is None,
{
}

/// A rule entry decides the rule's severity whatever the presets say; without
/// an entry, the presets decide.
pub proof fn law_rule_entry_overrides_presets(f: FullLintConfig, rule: Seq<char>)
    ensures
        first_entry(f.rules@, rule) matches Some(c) ==> LintConfig::Full(f).spec_severity(rule) == Some(c.spec_severity()),
        first_entry(f.rules@, rule) is None ==> LintConfig::Full(f).spec_severity(rule) == match f.extends {
            Some(e) => spec_severity_from_presets(e.spec_presets(), rule),
            None => None,
        },
{
}

/// A configuration that only names the `recommended` preset validates.
pub proof fn law_recommended_is_valid(cfg: LintConfig, valid: Seq<Seq<char>>)
    requires
        cfg matches LintConfig::Preset(p) && p.spec_presets() == seq!["recommended"@],
    ensures
        spec_validate(cfg, valid) == Ok::<(), Seq<char>>(()),
{
    let p = match cfg { LintConfig::Preset(p) => p, _ => arbitrary() };
    let ps = p.spec_presets();
    assert(ps.drop_first() =~= Seq::<Seq<char>>::empty());
    assert(first_unknown_preset(ps.drop_first()) is None);
}


/// `x` occurs in `s` as a contiguous stretch.
pub open spec fn occurs_in(x: Seq<char>, s: Seq<char>) -> bool {
    exists|i: int| 0 <= i && i + x.len() <= s.len() && #[trigger] s.subrange(i, i + x.len()) == x
}

proof fn lemma_occurs_concat(x: Seq<char>, s: Seq<char>, p: Seq<char>, q: Seq<char>)
    requires
        occurs_in(x, s),
    ensures
        occurs_in(x, p + s + q),
{
    let i = choose|i: int| 0 <= i && i + x.len() <= s.len() && #[trigger] s.subrange(i, i + x.len()) == x;
    let t = p + s + q;
    let j = p.len() + i;
    assert(t.subrange(j, j + x.len()) =~= x);
}

proof fn lemma_occurs_whole(x: Seq<char>, p: Seq<char>, q: Seq<char>)
    ensures
        occurs_in(x, p + x + q),
{
    let t = p + x + q;
    assert(t.subrange(p.len() as int, (p.len() + x.len()) as int) =~= x);
}

proof fn lemma_joined_occurs(items: Seq<Seq<char>>, sep: Seq<char>, k: int)
    requires
        0 <= k < items.len(),
    ensures
        occurs_in(items[k], joined(items, sep)),
    decreases items.len(),
{
    if items.len() == 1 {
        lemma_occurs_whole(items[0], seq![], seq![]);
        assert(seq![] + items[0] + Seq::<char>::empty() =~= items[0]);
    } else if k == items.len() - 1 {
        lemma_occurs_whole(items.last(), joined(items.drop_last(), sep) + sep, seq![]);
        assert(joined(items.drop_last(), sep) + sep + items.last() + Seq::<char>::empty()
            =~= joined(items, sep));
    } else {
        lemma_joined_occurs(items.drop_last(), sep, k);
        lemma_occurs_concat(items[k], joined(items.drop_last(), sep), seq![], sep + items.last());
        assert(Seq::<char>::empty() + joined(items.drop_last(), sep) + (sep + items.last()) =~= joined(items, sep));
    }
}

proof fn lemma_bullets_occur(names: Seq<Seq<char>>, k: int)
    requires
        0 <= k < names.len(),
    ensures
        occurs_in(names[k], bullet_lines(names)),
    decreases names.len(),
{
    if k == names.len() - 1 {
        lemma_occurs_whole(names.last(), bullet_lines(names.drop_last()) + "  - "@, "\n"@);
    } else {
        lemma_bullets_occur(names.drop_last(), k);
        lemma_occurs_concat(names[k], bullet_lines(names.drop_last()), seq![], "  - "@ + names.last() + "\n"@);
        assert(Seq::<char>::empty() + bullet_lines(names.drop_last()) + ("  - "@ + names.last() + "\n"@)
            =~= bullet_lines(names));
    }
}

proof fn lemma_first_unknown_preset(ps: Seq<Seq<char>>)
    ensures
        first_unknown_preset(ps) is Some <==> exists|i: int| 0 <= i < ps.len() && #[trigger] ps[i] != "recommended"@,
    decreases ps.len(),
{
    if ps.len() > 0 {
        lemma_first_unknown_preset(ps.drop_first());
        if ps[0] == "recommended"@ {
            if exists|i: int| 0 <= i < ps.len() && #[trigger] ps[i] != "recommended"@ {
                let i = choose|i: int| 0 <= i < ps.len() && #[trigger] ps[i] != "recommended"@;
                assert(ps.drop_first()[i - 1] == ps[i]);
            }
        } else {
            assert(ps[0] != "recommended"@);
        }
    }
}

proof fn lemma_unknown_rules(rules: Seq<(String, LintRuleConfig)>, valid: Seq<Seq<char>>, x: Seq<char>)
    ensures
        unknown_rules(rules, valid).contains(x)
            <==> !valid.contains(x) && exists|i: int| 0 <= i < rules.len() && (#[trigger] rules[i]).0@ == x,
    decreases rules.len(),
{
    if rules.len() > 0 {
        let rest = rules.drop_last();
        lemma_unknown_rules(rest, valid, x);
        let u = unknown_rules(rules, valid);
        if exists|i: int| 0 <= i < rules.len() && (#[trigger] rules[i]).0@ == x {
            let i = choose|i: int| 0 <= i < rules.len() && (#[trigger] rules[i]).0@ == x;
            if i < rules.len() - 1 {
                assert(rest[i] == rules[i]);
            }
            if !valid.contains(x) && i == rules.len() - 1 {
                assert(u[u.len() - 1] == x);
            }
            if !valid.contains(x) && i < rules.len() - 1 {
                let j = choose|j: int| 0 <= j < unknown_rules(rest, valid).len() && unknown_rules(rest, valid)[j] == x;
                assert(u[j] == x);
            }
        }
        if u.contains(x) {
            let j = choose|j: int| 0 <= j < u.len() && u[j] == x;
            if j < unknown_rules(rest, valid).len() {
                assert(unknown_rules(rest, valid)[j] == x);
                let i = choose|i: int| 0 <= i < rest.len() && (#[trigger] rest[i]).0@ == x;
                assert(rules[i] == rest[i]);
            } else {
                assert(rules[rules.len() - 1].0@ == x);
            }
        }
    }
}

/// The presets a configuration names: the preset list itself, or the
/// `extends` of a full configuration.
pub open spec fn config_presets(cfg: LintConfig) -> Seq<Seq<char>> {
    match cfg {
        LintConfig::Preset(p) => p.spec_presets(),
        LintConfig::Full(f) => match f.extends {
            Some(e) => e.spec_presets(),
            None => seq![],
        },
    }
}

/// The rule names a configuration sets.
pub open spec fn config_rule_keys(cfg: LintConfig) -> Seq<Seq<char>> {
    match cfg {
        LintConfig::Preset(_) => seq![],
        LintConfig::Full(f) => Seq::new(f.rules@.len(), |i: int| f.rules@[i].0@),
    }
}

/// Validation refuses a configuration exactly when it names a preset other
/// than `recommended` or sets a rule that is not registered. When only rule
/// names are at fault, the error names every unknown rule and lists every
/// registered rule.
pub proof fn law_validate_refuses_unknown_names(cfg: LintConfig, valid: Seq<Seq<char>>)
    requires
        sorted_rule_listing(valid),
    ensures
        spec_validate(cfg, valid) is Err <==> (exists|i: int| 0 <= i < config_presets(cfg).len()
            && #[trigger] config_presets(cfg)[i] != "recommended"@)
            || (exists|i: int| 0 <= i < config_rule_keys(cfg).len()
            && !crate::registry::spec_registered_names().contains(#[trigger] config_rule_keys(cfg)[i])),
        (forall|i: int| 0 <= i < config_presets(cfg).len() ==> #[trigger] config_presets(cfg)[i] == "recommended"@)
            ==> match spec_validate(cfg, valid) {
                Err(m) => (forall|i: int| 0 <= i < config_rule_keys(cfg).len()
                    && !crate::registry::spec_registered_names().contains(#[trigger] config_rule_keys(cfg)[i])
                    ==> occurs_in(config_rule_keys(cfg)[i], m))
                    && (forall|x: Seq<char>| crate::registry::spec_registered_names().contains(x) ==> occurs_in(x, m)),
                Ok(()) => true,
            },
{
    broadcast use vstd::seq_lib::to_multiset_contains;
    let reg = crate::registry::spec_registered_names();
    assert forall|x: Seq<char>| valid.contains(x) <==> reg.contains(x) by {
        vstd::seq_lib::to_multiset_contains(valid, x);
        vstd::seq_lib::to_multiset_contains(reg, x);
    }
    lemma_first_unknown_preset(config_presets(cfg));
    match cfg {
        LintConfig::Preset(p) => {
            assert(config_presets(cfg) == p.spec_presets());
        },
        LintConfig::Full(f) => {
            let keys = config_rule_keys(cfg);
            let u = unknown_rules(f.rules@, valid);
            assert forall|x: Seq<char>| u.contains(x) <==> !reg.contains(x) && keys.contains(x) by {
                lemma_unknown_rules(f.rules@, valid, x);
                if keys.contains(x) {
                    let i = choose|i: int| 0 <= i < keys.len() && keys[i] == x;
                    assert(f.rules@[i].0@ == x);
                }
                if exists|i: int| 0 <= i < f.rules@.len() && (#[trigger] f.rules@[i]).0@ == x {
                    let i = choose|i: int| 0 <= i < f.rules@.len() && (#[trigger] f.rules@[i]).0@ == x;
                    assert(keys[i] == x);
                }
            }
            if exists|i: int| 0 <= i < keys.len() && !reg.contains(#[trigger] keys[i]) {
                let i = choose|i: int| 0 <= i < keys.len() && !reg.contains(#[trigger] keys[i]);
                assert(keys.contains(keys[i]));
                assert(u.contains(keys[i]));
                assert(u.len() > 0);
            }
            if u.len() > 0 {
                assert(u.contains(u[0]));
                let i = choose|i: int| 0 <= i < keys.len() && keys[i] == u[0];
                assert(!reg.contains(keys[i]));
            }
            let ext = match f.extends {
                Some(e) => first_unknown_preset(e.spec_presets()),
                None => None,
            };
            if ext is None && u.len() > 0 {
                let m = rules_error(u, valid);
                let head = "Invalid lint rule name(s): "@;
                let mid = "\n\nValid rule names are:\n"@;
                assert(m == head + joined(u, ", "@) + mid + bullet_lines(valid));
                assert forall|i: int| 0 <= i < keys.len() && !reg.contains(#[trigger] keys[i])
                    implies occurs_in(keys[i], m) by {
                    assert(keys.contains(keys[i]));
                    assert(u.contains(keys[i]));
                    let j = choose|j: int| 0 <= j < u.len() && u[j] == keys[i];
                    lemma_joined_occurs(u, ", "@, j);
                    lemma_occurs_concat(keys[i], joined(u, ", "@), head, mid + bullet_lines(valid));
                    assert(head + joined(u, ", "@) + (mid + bullet_lines(valid)) =~= m);
                }
                assert forall|x: Seq<char>| reg.contains(x) implies occurs_in(x, m) by {
                    assert(valid.contains(x));
                    let j = choose|j: int| 0 <= j < valid.len() && valid[j] == x;
                    lemma_bullets_occur(valid, j);
                    lemma_occurs_concat(x, bullet_lines(valid), head + joined(u, ", "@) + mid, seq![]);
                    assert(head + joined(u, ", "@) + mid + bullet_lines(valid) + Seq::<char>::empty() =~= m);
                }
            }
        },
    }
}


/// What `LintConfig::validate` returns: `r` is its result on `cfg` (its
/// contract gives a sorted listing `valid` of the registered rule names).
/// The result is an error exactly when a preset other than `recommended` is
/// named or a rule that is not registered is set; when only rule names are at
/// fault, the error message names every unknown rule and every registered
/// rule.
pub proof fn law_validate_result(cfg: LintConfig, r: Result<(), String>, valid: Seq<Seq<char>>)
    requires
        sorted_rule_listing(valid),
        result_view(r) == spec_validate(cfg, valid),
    ensures
        r is Err <==> (exists|i: int| 0 <= i < config_presets(cfg).len()
            && #[trigger] config_presets(cfg)[i] != "recommended"@)
            || (exists|i: int| 0 <= i < config_rule_keys(cfg).len()
            && !crate::registry::spec_registered_names().contains(#[trigger] config_rule_keys(cfg)[i])),
        (forall|i: int| 0 <= i < config_presets(cfg).len() ==> #[trigger] config_presets(cfg)[i] == "recommended"@)
            ==> match r {
                Err(m) => (forall|i: int| 0 <= i < config_rule_keys(cfg).len()
                    && !crate::registry::spec_registered_names().contains(#[trigger] config_rule_keys(cfg)[i])
                    ==> occurs_in(config_rule_keys(cfg)[i], m@))
                    && (forall|x: Seq<char>| crate::registry::spec_registered_names().contains(x) ==> occurs_in(x, m@)),
                Ok(()) => true,
            },
{
    law_validate_refuses_unknown_names(cfg, valid);
}

/// No two rule entries share a name (what a map of rule entries has).
pub open spec fn distinct_rule_keys(rules: Seq<(String, LintRuleConfig)>) -> bool {
    forall|i: int, j: int| 0 <= i < rules.len() && 0 <= j < rules.len() && i != j
        ==> #[trigger] rules[i].0@ != #[trigger] rules[j].0@
}

/// With distinct rule names, as a configuration read from a map has them,
/// looking a rule up finds its one entry: the list behaves as the map.
pub proof fn law_distinct_keys_lookup(rules: Seq<(String, LintRuleConfig)>, i: int)
    requires
        distinct_rule_keys(rules),
        0 <= i < rules.len(),
    ensures
        first_entry(rules, rules[i].0@) == Some(rules[i].1),
    decreases i,
{
    if i > 0 {
        let rest = rules.drop_first();
        assert(rules[0].0@ != rules[i].0@);
        assert forall|a: int, b: int| 0 <= a < rest.len() && 0 <= b < rest.len() && a != b
            implies #[trigger] rest[a].0@ != #[trigger] rest[b].0@ by {
            assert(rest[a] == rules[a + 1]);
            assert(rest[b] == rules[b + 1]);
        }
        assert(rest[i - 1] == rules[i]);
        law_distinct_keys_lookup(rest, i - 1);
    }
}

} // verus!
