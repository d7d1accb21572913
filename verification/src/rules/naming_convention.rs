//! The `namingConvention` lint rule.
use vstd::prelude::*;
use vstd::string::StrSliceExecFns;
use crate::diagnostics::{diags_view, DiagnosticView, LintDiagnostic, LintSeverity};
use crate::diagnostics::OffsetRange;
use crate::document::{plain_view, push_diag, Definition, ExecutableDocument, Name, VariableDefinition};
use crate::schema::{
    builtin_scalar, contains_file, file_diags_view, has_file, is_builtin_scalar, push_file_diag,
    warning_at, warning_view, ArgumentDef, DirectiveDef, EnumValue, FieldSignature, FileDiagnostic,
    FileDiagnosticView, TypeDef, TypeDefKind,
};
use crate::pattern::{regex_compiles, regex_matches, try_match};
use crate::text::{
    ends_with, first_satisfying, join_strings, lemma_first_satisfying_stable, join_with, range_to_string, starts_with,
    str_ends_with, str_starts_with, strings_view, to_chars,
};
use crate::unicode::{char_uppercase, to_uppercase, char_is_lowercase, char_is_uppercase, is_ascii_digit, is_lowercase, is_uppercase};

verus! {

/// Lint rule that enforces naming conventions for operations, fragments,
/// variables, and (on the schema side) types, fields, arguments, enum values,
/// and directives.
///
/// Like graphql-eslint, the rule no-ops with no options — each kind must be
/// explicitly configured.
///
/// ESLint-style selector keys (e.g. `"FieldDefinition[parent.name.value=Query]"`)
/// are accepted for drop-in config compatibility but no diagnostics are
/// emitted from them; selector parsing is a follow-up.
pub struct NamingConventionRuleImpl;

impl NamingConventionRuleImpl {
    /// The rule's identifier.
    pub fn name(&self) -> (s: &'static str)
        ensures
            s@ == "namingConvention"@,
    {
        "namingConvention"
    }

    /// What the rule checks.
    pub fn description(&self) -> (s: &'static str)
        ensures
            s@ == "Enforces naming conventions for operations, fragments, variables, and schema definitions"@,
    {
        "Enforces naming conventions for operations, fragments, variables, and schema definitions"
    }

    /// The severity the rule reports with unless configured otherwise.
    pub fn default_severity(&self) -> (s: LintSeverity)
        ensures
            s == LintSeverity::Warning,
    {
        LintSeverity::Warning
    }
}

/// Convention for names: `camelCase`, `PascalCase`, `snake_case`, `UPPER_CASE`.
#[derive(Debug, Clone, Copy, PartialEq, Eq, Structural)]
pub enum NamingCase {
    Camel,
    Pascal,
    Snake,
    Upper,
}

/// `s` holds `c`.
pub open spec fn holds_char(s: Seq<char>, c: char) -> bool {
    exists|k: int| 0 <= k < s.len() && s[k] == c
}

/// `camelCase`: empty, or a lower-case first letter and no `_`.
pub open spec fn spec_is_camel(s: Seq<char>) -> bool {
    s.len() == 0 || (char_is_lowercase(s[0]) && !holds_char(s, '_'))
}

/// `PascalCase`: empty, or an upper-case first letter and no `_`.
pub open spec fn spec_is_pascal(s: Seq<char>) -> bool {
    s.len() == 0 || (char_is_uppercase(s[0]) && !holds_char(s, '_'))
}

/// `snake_case`: only lower-case letters, ASCII digits and `_`.
pub open spec fn spec_is_snake(s: Seq<char>) -> bool {
    forall|k: int| 0 <= k < s.len() ==> char_is_lowercase(#[trigger] s[k]) || is_ascii_digit(s[k]) || s[k] == '_'
}

/// `UPPER_CASE`: only upper-case letters, ASCII digits and `_`.
pub open spec fn spec_is_upper(s: Seq<char>) -> bool {
    forall|k: int| 0 <= k < s.len() ==> char_is_uppercase(#[trigger] s[k]) || is_ascii_digit(s[k]) || s[k] == '_'
}

fn contains_char(v: &Vec<char>, c: char) -> (b: bool)
    ensures
        b == holds_char(v@, c),
{
    let mut k: usize = 0;
    while k < v.len()
        invariant
            0 <= k <= v.len(),
            forall|j: int| 0 <= j < k ==> v@[j] != c,
        decreases v.len() - k,
    {
        if v[k] == c {
            return true;
        }
        k += 1;
    }
    false
}

fn is_digit(c: char) -> (b: bool)
    ensures
        b == is_ascii_digit(c),
{
    '0' <= c && c <= '9'
}

/// Whether `s` is in `camelCase`.
pub fn is_camel_case(s: &str) -> (b: bool)
    ensures
        b == spec_is_camel(s@),
{
    let v = to_chars(s);
    if v.len() == 0 {
        return true;
    }
    is_lowercase(v[0]) && !contains_char(&v, '_')
}

/// Whether `s` is in `PascalCase`.
pub fn is_pascal_case(s: &str) -> (b: bool)
    ensures
        b == spec_is_pascal(s@),
{
    let v = to_chars(s);
    if v.len() == 0 {
        return true;
    }
    is_uppercase(v[0]) && !contains_char(&v, '_')
}

/// Whether `s` is in `snake_case`.
pub fn is_snake_case(s: &str) -> (b: bool)
    ensures
        b == spec_is_snake(s@),
{
    let v = to_chars(s);
    let mut k: usize = 0;
    while k < v.len()
        invariant
            0 <= k <= v.len(),
            v@ == s@,
            forall|j: int| 0 <= j < k ==> char_is_lowercase(#[trigger] v@[j]) || is_ascii_digit(v@[j]) || v@[j] == '_',
        decreases v.len() - k,
    {
        let c = v[k];
        if !(is_lowercase(c) || is_digit(c) || c == '_') {
            return false;
        }
        k += 1;
    }
    true
}

/// Whether `s` is in `UPPER_CASE`.
pub fn is_upper_case(s: &str) -> (b: bool)
    ensures
        b == spec_is_upper(s@),
{
    let v = to_chars(s);
    let mut k: usize = 0;
    while k < v.len()
        invariant
            0 <= k <= v.len(),
            v@ == s@,
            forall|j: int| 0 <= j < k ==> char_is_uppercase(#[trigger] v@[j]) || is_ascii_digit(v@[j]) || v@[j] == '_',
        decreases v.len() - k,
    {
        let c = v[k];
        if !(is_uppercase(c) || is_digit(c) || c == '_') {
            return false;
        }
        k += 1;
    }
    true
}

impl NamingCase {
    /// `name` follows this convention.
    pub open spec fn spec_check(self, name: Seq<char>) -> bool {
        match self {
            NamingCase::Camel => spec_is_camel(name),
            NamingCase::Pascal => spec_is_pascal(name),
            NamingCase::Snake => spec_is_snake(name),
            NamingCase::Upper => spec_is_upper(name),
        }
    }

    /// The convention's name.
    pub open spec fn spec_label(self) -> Seq<char> {
        match self {
            NamingCase::Camel => "camelCase"@,
            NamingCase::Pascal => "PascalCase"@,
            NamingCase::Snake => "snake_case"@,
            NamingCase::Upper => "UPPER_CASE"@,
        }
    }

    /// Whether `name` follows this convention.
    pub fn check(self, name: &str) -> (b: bool)
        ensures
            b == self.spec_check(name@),
    {
        match self {
            NamingCase::Camel => is_camel_case(name),
            NamingCase::Pascal => is_pascal_case(name),
            NamingCase::Snake => is_snake_case(name),
            NamingCase::Upper => is_upper_case(name),
        }
    }

    /// The convention's name (`"camelCase"`, ...).
    pub fn label(self) -> (s: &'static str)
        ensures
            s@ == self.spec_label(),
    {
        match self {
            NamingCase::Camel => "camelCase",
            NamingCase::Pascal => "PascalCase",
            NamingCase::Snake => "snake_case",
            NamingCase::Upper => "UPPER_CASE",
        }
    }
}

/// Per-kind rule entry: a bare convention, or the detailed form.
#[derive(Debug, Clone, PartialEq)]
pub enum NamingRule {
    /// `Kind: "camelCase"`
    Case(NamingCase),
    /// `Kind: { style: "camelCase", forbiddenPrefixes: [...], ... }`
    Detailed {
        style: Option<NamingCase>,
        prefix: Option<String>,
        suffix: Option<String>,
        forbidden_prefixes: Vec<String>,
        forbidden_suffixes: Vec<String>,
        required_prefixes: Vec<String>,
        required_suffixes: Vec<String>,
        required_pattern: Option<String>,
        forbidden_patterns: Vec<String>,
        ignore_pattern: Option<String>,
        allow_leading_underscore: bool,
        allow_trailing_underscore: bool,
    },
}

/// A naming rule with both forms brought to one shape.
pub struct NormalizedRule<'a> {
    pub style: Option<NamingCase>,
    pub prefix: Option<&'a str>,
    pub suffix: Option<&'a str>,
    pub forbidden_prefixes: &'a [String],
    pub forbidden_suffixes: &'a [String],
    pub required_prefixes: &'a [String],
    pub required_suffixes: &'a [String],
    pub required_pattern: Option<&'a str>,
    pub forbidden_patterns: &'a [String],
    pub ignore_pattern: Option<&'a str>,
    pub allow_leading_underscore: bool,
    pub allow_trailing_underscore: bool,
}

/// A normalized rule as plain values.
pub struct RuleView {
    pub style: Option<NamingCase>,
    pub prefix: Option<Seq<char>>,
    pub suffix: Option<Seq<char>>,
    pub forbidden_prefixes: Seq<Seq<char>>,
    pub forbidden_suffixes: Seq<Seq<char>>,
    pub required_prefixes: Seq<Seq<char>>,
    pub required_suffixes: Seq<Seq<char>>,
    pub required_pattern: Option<Seq<char>>,
    pub forbidden_patterns: Seq<Seq<char>>,
    pub ignore_pattern: Option<Seq<char>>,
    pub allow_leading_underscore: bool,
    pub allow_trailing_underscore: bool,
}

pub open spec fn opt_str_view(o: Option<&str>) -> Option<Seq<char>> {
    match o {
        Some(s) => Some(s@),
        None => None,
    }
}

pub open spec fn opt_string_view(o: Option<String>) -> Option<Seq<char>> {
    match o {
        Some(s) => Some(s@),
        None => None,
    }
}

impl<'a> NormalizedRule<'a> {
    pub open spec fn view(&self) -> RuleView {
        RuleView {
            style: self.style,
            prefix: opt_str_view(self.prefix),
            suffix: opt_str_view(self.suffix),
            forbidden_prefixes: strings_view(self.forbidden_prefixes@),
            forbidden_suffixes: strings_view(self.forbidden_suffixes@),
            required_prefixes: strings_view(self.required_prefixes@),
            required_suffixes: strings_view(self.required_suffixes@),
            required_pattern: opt_str_view(self.required_pattern),
            forbidden_patterns: strings_view(self.forbidden_patterns@),
            ignore_pattern: opt_str_view(self.ignore_pattern),
            allow_leading_underscore: self.allow_leading_underscore,
            allow_trailing_underscore: self.allow_trailing_underscore,
        }
    }
}

/// The normalized form of a naming rule.
pub open spec fn spec_normalize(rule: NamingRule) -> RuleView {
    match rule {
        NamingRule::Case(c) => RuleView {
            style: Some(c),
            prefix: None,
            suffix: None,
            forbidden_prefixes: seq![],
            forbidden_suffixes: seq![],
            required_prefixes: seq![],
            required_suffixes: seq![],
            required_pattern: None,
            forbidden_patterns: seq![],
            ignore_pattern: None,
            allow_leading_underscore: false,
            allow_trailing_underscore: false,
        },
        NamingRule::Detailed {
            style, prefix, suffix, forbidden_prefixes, forbidden_suffixes, required_prefixes,
            required_suffixes, required_pattern, forbidden_patterns, ignore_pattern,
            allow_leading_underscore, allow_trailing_underscore,
        } => RuleView {
            style,
            prefix: opt_string_view(prefix),
            suffix: opt_string_view(suffix),
            forbidden_prefixes: strings_view(forbidden_prefixes@),
            forbidden_suffixes: strings_view(forbidden_suffixes@),
            required_prefixes: strings_view(required_prefixes@),
            required_suffixes: strings_view(required_suffixes@),
            required_pattern: opt_string_view(required_pattern),
            forbidden_patterns: strings_view(forbidden_patterns@),
            ignore_pattern: opt_string_view(ignore_pattern),
            allow_leading_underscore,
            allow_trailing_underscore,
        },
    }
}

fn opt_as_str<'a>(o: &'a Option<String>) -> (r: Option<&'a str>)
    ensures
        opt_str_view(r) == opt_string_view(*o),
{
    match o {
        Some(s) => Some(s.as_str()),
        None => None,
    }
}

impl<'a> NormalizedRule<'a> {
    /// Brings both forms of a naming rule to one shape.
    pub fn from_rule(rule: &'a NamingRule) -> (r: Self)
        ensures
            r.view() == spec_normalize(*rule),
    {
        match rule {
            NamingRule::Case(c) => {
                let r = NormalizedRule {
                    style: Some(*c),
                    prefix: None,
                    suffix: None,
                    forbidden_prefixes: &[],
                    forbidden_suffixes: &[],
                    required_prefixes: &[],
                    required_suffixes: &[],
                    required_pattern: None,
                    forbidden_patterns: &[],
                    ignore_pattern: None,
                    allow_leading_underscore: false,
                    allow_trailing_underscore: false,
                };
                assert(strings_view(r.forbidden_prefixes@) =~= Seq::<Seq<char>>::empty());
                assert(strings_view(r.forbidden_suffixes@) =~= Seq::<Seq<char>>::empty());
                assert(strings_view(r.required_prefixes@) =~= Seq::<Seq<char>>::empty());
                assert(strings_view(r.required_suffixes@) =~= Seq::<Seq<char>>::empty());
                assert(strings_view(r.forbidden_patterns@) =~= Seq::<Seq<char>>::empty());
                r
            }
            NamingRule::Detailed {
                style, prefix, suffix, forbidden_prefixes, forbidden_suffixes, required_prefixes,
                required_suffixes, required_pattern, forbidden_patterns, ignore_pattern,
                allow_leading_underscore, allow_trailing_underscore,
            } => NormalizedRule {
                style: *style,
                prefix: opt_as_str(prefix),
                suffix: opt_as_str(suffix),
                forbidden_prefixes: forbidden_prefixes.as_slice(),
                forbidden_suffixes: forbidden_suffixes.as_slice(),
                required_prefixes: required_prefixes.as_slice(),
                required_suffixes: required_suffixes.as_slice(),
                required_pattern: opt_as_str(required_pattern),
                forbidden_patterns: forbidden_patterns.as_slice(),
                ignore_pattern: opt_as_str(ignore_pattern),
                allow_leading_underscore: *allow_leading_underscore,
                allow_trailing_underscore: *allow_trailing_underscore,
            },
        }
    }
}

/// First index in `[lo, hi)` not holding `c`, or `hi`.
pub open spec fn skip_lo(s: Seq<char>, lo: int, hi: int, c: char) -> int
    decreases hi - lo,
{
    if lo < hi && s[lo] == c { skip_lo(s, lo + 1, hi, c) } else { lo }
}

/// One past the last index in `[lo, hi)` not holding `c`, or `lo`.
pub open spec fn skip_hi(s: Seq<char>, lo: int, hi: int, c: char) -> int
    decreases hi - lo,
{
    if lo < hi && s[hi - 1] == c { skip_hi(s, lo, hi - 1, c) } else { hi }
}

/// `name` with leading underscores removed when `lead`, then trailing ones
/// when `trail`.
pub open spec fn spec_strip(name: Seq<char>, lead: bool, trail: bool) -> Seq<char> {
    let n = name.len() as int;
    let lo = if lead { skip_lo(name, 0, n, '_') } else { 0 };
    let hi = if trail { skip_hi(name, lo, n, '_') } else { n };
    name.subrange(lo, hi)
}

proof fn lemma_skip_bounds(s: Seq<char>, lo: int, hi: int, c: char)
    requires
        0 <= lo <= hi <= s.len(),
    ensures
        lo <= skip_lo(s, lo, hi, c) <= hi,
        lo <= skip_hi(s, lo, hi, c) <= hi,
    decreases hi - lo,
{
    if lo < hi {
        if s[lo] == c {
            lemma_skip_bounds(s, lo + 1, hi, c);
        }
        if s[hi - 1] == c {
            lemma_skip_bounds(s, lo, hi - 1, c);
        }
    }
}

impl<'a> NormalizedRule<'a> {
    /// Removes the leading and/or trailing underscores that the rule allows.
    pub fn strip_underscores<'b>(&self, name: &'b str) -> (r: &'b str)
        ensures
            r@ == spec_strip(name@, self.allow_leading_underscore, self.allow_trailing_underscore),
    {
        let v = to_chars(name);
        let n = v.len();
        let mut lo: usize = 0;
        if self.allow_leading_underscore {
            while lo < n && v[lo] == '_'
                invariant
                    lo <= n == v.len(),
                    skip_lo(v@, lo as int, n as int, '_') == skip_lo(v@, 0, n as int, '_'),
                decreases n - lo,
            {
                lo += 1;
            }
        }
        let mut hi: usize = n;
        if self.allow_trailing_underscore {
            while hi > lo && v[hi - 1] == '_'
                invariant
                    lo <= hi <= n == v.len(),
                    skip_hi(v@, lo as int, hi as int, '_') == skip_hi(v@, lo as int, n as int, '_'),
                decreases hi - lo,
            {
                hi -= 1;
            }
        }
        name.substring_char(lo, hi)
    }
}

/// Words joined as an English disjunction: `a`, `a or b`, `a, b, or c`.
pub open spec fn spec_english_join(words: Seq<Seq<char>>) -> Seq<char> {
    if words.len() == 0 {
        seq![]
    } else if words.len() == 1 {
        words[0]
    } else if words.len() == 2 {
        words[0] + " or "@ + words[1]
    } else {
        join_with(words.drop_last(), ", "@) + ", or "@ + words.last()
    }
}

/// Joins a list of strings using `, ` as separator and `, or ` before the
/// last item.
pub fn english_join(words: &[String]) -> (r: String)
    ensures
        r@ == spec_english_join(strings_view(words@)),
{
    let n = words.len();
    if n == 0 {
        return String::new();
    }
    if n == 1 {
        return words[0].clone();
    }
    if n == 2 {
        let mut r = words[0].clone();
        r.append(" or ");
        r.append(words[1].as_str());
        return r;
    }
    let mut head: Vec<String> = Vec::new();
    let mut k: usize = 0;
    while k < n - 1
        invariant
            n == words@.len(),
            n > 2,
            0 <= k <= n - 1,
            strings_view(head@) == strings_view(words@).take(k as int),
        decreases n - 1 - k,
    {
        let ghost before = strings_view(head@);
        head.push(words[k].clone());
        assert(strings_view(head@) =~= before.push(words@[k as int]@));
        assert(strings_view(words@).take(k + 1) =~= strings_view(words@).take(k as int).push(words@[k as int]@));
        k += 1;
    }
    assert(strings_view(words@).take(n - 1) =~= strings_view(words@).drop_last());
    let mut r = join_strings(&head, ", ");
    r.append(", or ");
    r.append(words[n - 1].as_str());
    r
}

/// The first failed check of a naming rule.
#[derive(Debug)]
pub struct CheckFailure {
    /// The message text after `<Kind> "<name>" should `.
    pub message_body: String,
}

/// The message body for the first check that `name` fails under `rule`, in
/// this order: an `ignorePattern` match passes the name outright; then
/// `prefix`, `suffix`, `requiredPattern`, the first matching
/// `forbiddenPatterns` entry, the first matching forbidden prefix, then
/// suffix, the required prefixes, the required suffixes, and `style`.
/// Patterns that do not compile are skipped.
pub open spec fn spec_check_name(rule: RuleView, name: Seq<char>) -> Option<Seq<char>> {
    let s = spec_strip(name, rule.allow_leading_underscore, rule.allow_trailing_underscore);
    let fpat = first_satisfying(rule.forbidden_patterns.len() as int,
        |k: int| regex_compiles(rule.forbidden_patterns[k]) && regex_matches(rule.forbidden_patterns[k], s));
    let fpre = first_satisfying(rule.forbidden_prefixes.len() as int, |k: int| starts_with(s, rule.forbidden_prefixes[k]));
    let fsuf = first_satisfying(rule.forbidden_suffixes.len() as int, |k: int| ends_with(s, rule.forbidden_suffixes[k]));
    if rule.ignore_pattern is Some && regex_compiles(rule.ignore_pattern.unwrap()) && regex_matches(rule.ignore_pattern.unwrap(), s) {
        None
    } else if rule.prefix is Some && !starts_with(s, rule.prefix.unwrap()) {
        Some("have \""@ + rule.prefix.unwrap() + "\" prefix"@)
    } else if rule.suffix is Some && !ends_with(s, rule.suffix.unwrap()) {
        Some("have \""@ + rule.suffix.unwrap() + "\" suffix"@)
    } else if rule.required_pattern is Some && regex_compiles(rule.required_pattern.unwrap()) && !regex_matches(rule.required_pattern.unwrap(), s) {
        Some("contain the required pattern: /"@ + rule.required_pattern.unwrap() + "/"@)
    } else if fpat is Some {
        Some("not contain the forbidden pattern \"/"@ + rule.forbidden_patterns[fpat.unwrap()] + "/\""@)
    } else if fpre is Some {
        Some("not have \""@ + rule.forbidden_prefixes[fpre.unwrap()] + "\" prefix"@)
    } else if fsuf is Some {
        Some("not have \""@ + rule.forbidden_suffixes[fsuf.unwrap()] + "\" suffix"@)
    } else if rule.required_prefixes.len() > 0
        && first_satisfying(rule.required_prefixes.len() as int, |k: int| starts_with(s, rule.required_prefixes[k])) is None {
        Some("have one of the following prefixes: "@ + spec_english_join(rule.required_prefixes))
    } else if rule.required_suffixes.len() > 0
        && first_satisfying(rule.required_suffixes.len() as int, |k: int| ends_with(s, rule.required_suffixes[k])) is None {
        Some("have one of the following suffixes: "@ + spec_english_join(rule.required_suffixes))
    } else if rule.style is Some && !rule.style.unwrap().spec_check(s) {
        Some("be in "@ + rule.style.unwrap().spec_label() + " format"@)
    } else {
        None
    }
}

/// The first pattern of `pats` that compiles and matches `s`.
fn first_matching_pattern(pats: &[String], s: &str) -> (r: Option<usize>)
    ensures
        match (r, first_satisfying(pats@.len() as int, |k: int| regex_compiles(strings_view(pats@)[k]) && regex_matches(strings_view(pats@)[k], s@))) {
            (Some(i), Some(j)) => i == j,
            (None, None) => true,
            _ => false,
        },
        r matches Some(i) ==> i < pats@.len(),
{
    let ghost p = |k: int| regex_compiles(strings_view(pats@)[k]) && regex_matches(strings_view(pats@)[k], s@);
    let mut k: usize = 0;
    while k < pats.len()
        invariant
            0 <= k <= pats@.len(),
            first_satisfying(k as int, p) is None,
            p == (|k: int| regex_compiles(strings_view(pats@)[k]) && regex_matches(strings_view(pats@)[k], s@)),
        decreases pats@.len() - k,
    {
        if let Some(m) = try_match(pats[k].as_str(), s) {
            if m {
                proof {
                    assert(p(k as int));
                    assert(first_satisfying(k as int + 1, p) == Some(k as int));
                    lemma_first_satisfying_stable(k as int + 1, pats@.len() as int, p);
                }
                return Some(k);
            }
        }
        k += 1;
    }
    None
}

/// The first string of `ts` that `s` starts with.
fn first_prefix(ts: &[String], s: &str) -> (r: Option<usize>)
    ensures
        match (r, first_satisfying(ts@.len() as int, |k: int| starts_with(s@, strings_view(ts@)[k]))) {
            (Some(i), Some(j)) => i == j,
            (None, None) => true,
            _ => false,
        },
        r matches Some(i) ==> i < ts@.len(),
{
    let ghost p = |k: int| starts_with(s@, strings_view(ts@)[k]);
    let mut k: usize = 0;
    while k < ts.len()
        invariant
            0 <= k <= ts@.len(),
            first_satisfying(k as int, p) is None,
            p == (|k: int| starts_with(s@, strings_view(ts@)[k])),
        decreases ts@.len() - k,
    {
        if str_starts_with(s, ts[k].as_str()) {
            proof {
                assert(p(k as int));
                assert(first_satisfying(k as int + 1, p) == Some(k as int));
                lemma_first_satisfying_stable(k as int + 1, ts@.len() as int, p);
            }
            return Some(k);
        }
        k += 1;
    }
    None
}

/// The first string of `ts` that `s` ends with.
fn first_suffix(ts: &[String], s: &str) -> (r: Option<usize>)
    ensures
        match (r, first_satisfying(ts@.len() as int, |k: int| ends_with(s@, strings_view(ts@)[k]))) {
            (Some(i), Some(j)) => i == j,
            (None, None) => true,
            _ => false,
        },
        r matches Some(i) ==> i < ts@.len(),
{
    let ghost p = |k: int| ends_with(s@, strings_view(ts@)[k]);
    let mut k: usize = 0;
    while k < ts.len()
        invariant
            0 <= k <= ts@.len(),
            first_satisfying(k as int, p) is None,
            p == (|k: int| ends_with(s@, strings_view(ts@)[k])),
        decreases ts@.len() - k,
    {
        if str_ends_with(s, ts[k].as_str()) {
            proof {
                assert(p(k as int));
                assert(first_satisfying(k as int + 1, p) == Some(k as int));
                lemma_first_satisfying_stable(k as int + 1, ts@.len() as int, p);
            }
            return Some(k);
        }
        k += 1;
    }
    None
}

fn failure(parts: (&str, &str, &str)) -> (f: CheckFailure)
    ensures
        f.message_body@ == parts.0@ + parts.1@ + parts.2@,
{
    let mut m = parts.0.to_owned();
    m.append(parts.1);
    m.append(parts.2);
    CheckFailure { message_body: m }
}

/// Runs the per-kind checks of `rule` against `name` and reports the first
/// one that fails.
pub fn check_name(rule: &NormalizedRule<'_>, name: &str) -> (r: Option<CheckFailure>)
    ensures
        match (r, spec_check_name(rule.view(), name@)) {
            (Some(f), Some(b)) => f.message_body@ == b,
            (None, None) => true,
            _ => false,
        },
{
    let stripped = rule.strip_underscores(name);
    let ghost rv = rule.view();
    if let Some(p) = rule.ignore_pattern {
        if let Some(m) = try_match(p, stripped) {
            if m {
                return None;
            }
        }
    }
    if let Some(prefix) = rule.prefix {
        if !str_starts_with(stripped, prefix) {
            return Some(failure(("have \"", prefix, "\" prefix")));
        }
    }
    if let Some(suffix) = rule.suffix {
        if !str_ends_with(stripped, suffix) {
            return Some(failure(("have \"", suffix, "\" suffix")));
        }
    }
    if let Some(pat) = rule.required_pattern {
        if let Some(m) = try_match(pat, stripped) {
            if !m {
                return Some(failure(("contain the required pattern: /", pat, "/")));
            }
        }
    }
    if let Some(k) = first_matching_pattern(rule.forbidden_patterns, stripped) {
        return Some(failure(("not contain the forbidden pattern \"/", rule.forbidden_patterns[k].as_str(), "/\"")));
    }
    if let Some(k) = first_prefix(rule.forbidden_prefixes, stripped) {
        return Some(failure(("not have \"", rule.forbidden_prefixes[k].as_str(), "\" prefix")));
    }
    if let Some(k) = first_suffix(rule.forbidden_suffixes, stripped) {
        return Some(failure(("not have \"", rule.forbidden_suffixes[k].as_str(), "\" suffix")));
    }
    if rule.required_prefixes.len() != 0 && first_prefix(rule.required_prefixes, stripped).is_none() {
        let list = english_join(rule.required_prefixes);
        proof {
            reveal_strlit("");
            assert("have one of the following prefixes: "@ + list@ + ""@ =~= "have one of the following prefixes: "@ + list@);
        }
        return Some(failure(("have one of the following prefixes: ", list.as_str(), "")));
    }
    if rule.required_suffixes.len() != 0 && first_suffix(rule.required_suffixes, stripped).is_none() {
        let list = english_join(rule.required_suffixes);
        proof {
            reveal_strlit("");
            assert("have one of the following suffixes: "@ + list@ + ""@ =~= "have one of the following suffixes: "@ + list@);
        }
        return Some(failure(("have one of the following suffixes: ", list.as_str(), "")));
    }
    if let Some(style) = rule.style {
        if !style.check(stripped) {
            return Some(failure(("be in ", style.label(), " format")));
        }
    }
    None
}

/// `<Kind> "<name>" should <body>`, with the kind's first character
/// upper-cased.
pub open spec fn spec_format_message(kind: Seq<char>, name: Seq<char>, body: Seq<char>) -> Seq<char> {
    let head = if kind.len() == 0 { kind } else { char_uppercase(kind[0]) + kind.drop_first() };
    head + " \""@ + name + "\" should "@ + body
}

/// Composes the full diagnostic message: `${KindLabel} "${name}" should ${body}`.
pub fn format_message(kind_label: &str, name: &str, body: &str) -> (r: String)
    ensures
        r@ == spec_format_message(kind_label@, name@, body@),
{
    let v = to_chars(kind_label);
    let mut r = String::new();
    if v.len() != 0 {
        let up = to_uppercase(v[0]);
        r.append(up.as_str());
        let rest = range_to_string(&v, 1, v.len());
        r.append(rest.as_str());
        assert(v@.subrange(1, v@.len() as int) =~= v@.drop_first());
    }
    r.append(" \"");
    r.append(name);
    r.append("\" should ");
    r.append(body);
    r
}

/// Options of the rule: one optional entry per kind of definition. With no
/// entry set the rule reports nothing.
pub struct NamingConventionOptions {
    pub operation_definition: Option<NamingRule>,
    pub fragment_definition: Option<NamingRule>,
    pub variable: Option<NamingRule>,
    /// Applies to every type-system kind that has no entry of its own.
    pub types: Option<NamingRule>,
    pub field_definition: Option<NamingRule>,
    pub input_value_definition: Option<NamingRule>,
    pub argument: Option<NamingRule>,
    pub directive_definition: Option<NamingRule>,
    pub enum_value_definition: Option<NamingRule>,
    pub object_type_definition: Option<NamingRule>,
    pub interface_type_definition: Option<NamingRule>,
    pub enum_type_definition: Option<NamingRule>,
    pub union_type_definition: Option<NamingRule>,
    pub scalar_type_definition: Option<NamingRule>,
    pub input_object_type_definition: Option<NamingRule>,
}

impl NamingConventionOptions {
    /// No entry set.
    pub fn new() -> (o: Self)
        ensures
            o.operation_definition is None && o.fragment_definition is None && o.variable is None,
            o.types is None && o.field_definition is None && o.input_value_definition is None,
            o.argument is None && o.directive_definition is None && o.enum_value_definition is None,
            o.object_type_definition is None && o.interface_type_definition is None,
            o.enum_type_definition is None && o.union_type_definition is None,
            o.scalar_type_definition is None && o.input_object_type_definition is None,
    {
        NamingConventionOptions {
            operation_definition: None,
            fragment_definition: None,
            variable: None,
            types: None,
            field_definition: None,
            input_value_definition: None,
            argument: None,
            directive_definition: None,
            enum_value_definition: None,
            object_type_definition: None,
            interface_type_definition: None,
            enum_type_definition: None,
            union_type_definition: None,
            scalar_type_definition: None,
            input_object_type_definition: None,
        }
    }

    /// The entry of the type-system kind `kind` itself.
    pub open spec fn explicit_rule(&self, kind: TypeDefKind) -> Option<NamingRule> {
        match kind {
            TypeDefKind::Object => self.object_type_definition,
            TypeDefKind::Interface => self.interface_type_definition,
            TypeDefKind::Enum => self.enum_type_definition,
            TypeDefKind::Union => self.union_type_definition,
            TypeDefKind::Scalar => self.scalar_type_definition,
            TypeDefKind::InputObject => self.input_object_type_definition,
        }
    }

    /// The rule that applies to type definitions of kind `kind`: its own
    /// entry, else the `types` entry.
    pub fn rule_for_type_kind(&self, kind: TypeDefKind) -> (r: Option<&NamingRule>)
        ensures
            r == (match self.explicit_rule(kind) {
                Some(x) => Some(&x),
                None => match self.types {
                    Some(t) => Some(&t),
                    None => None,
                },
            }),
    {
        let explicit = match kind {
            TypeDefKind::Object => self.object_type_definition.as_ref(),
            TypeDefKind::Interface => self.interface_type_definition.as_ref(),
            TypeDefKind::Enum => self.enum_type_definition.as_ref(),
            TypeDefKind::Union => self.union_type_definition.as_ref(),
            TypeDefKind::Scalar => self.scalar_type_definition.as_ref(),
            TypeDefKind::InputObject => self.input_object_type_definition.as_ref(),
        };
        match explicit {
            Some(x) => Some(x),
            None => self.types.as_ref(),
        }
    }
}

/// The report, if any, when `name` (of a `kind` definition at `r` in
/// `file`) breaks `rule`.
pub open spec fn name_report(rule: Option<NamingRule>, kind: Seq<char>, name: Seq<char>, file: u64, r: OffsetRange) -> Seq<FileDiagnosticView> {
    match rule {
        Some(ru) => match spec_check_name(spec_normalize(ru), name) {
            Some(body) => seq![(file, warning_view(r, spec_format_message(kind, name, body), "namingConvention"@))],
            None => seq![],
        },
        None => seq![],
    }
}

/// How messages name a type-system kind.
pub open spec fn kind_label(k: TypeDefKind) -> Seq<char> {
    match k {
        TypeDefKind::Interface => "interface"@,
        TypeDefKind::Enum => "enum"@,
        TypeDefKind::Union => "union"@,
        TypeDefKind::Scalar => "scalar"@,
        TypeDefKind::InputObject => "input"@,
        TypeDefKind::Object => "type"@,
    }
}

/// Reports about the arguments `args` (in the source files `src`).
pub open spec fn naming_args_reports(o: NamingConventionOptions, src: Seq<u64>, args: Seq<ArgumentDef>) -> Seq<FileDiagnosticView>
    decreases args.len(),
{
    if args.len() == 0 {
        seq![]
    } else {
        let a = args.last();
        naming_args_reports(o, src, args.drop_last()) + if has_file(src, a.file_id) {
            name_report(o.argument, "argument"@, a.name@, a.file_id, a.name_range)
        } else {
            seq![]
        }
    }
}

/// Reports about the fields `fs` of `t` (in the source files), each
/// followed by its arguments' (for types other than input objects).
pub open spec fn naming_fields_reports(o: NamingConventionOptions, src: Seq<u64>, t: TypeDef, fs: Seq<FieldSignature>) -> Seq<FileDiagnosticView>
    decreases fs.len(),
{
    if fs.len() == 0 {
        seq![]
    } else {
        let f = fs.last();
        let input = t.kind == TypeDefKind::InputObject;
        naming_fields_reports(o, src, t, fs.drop_last()) + if !has_file(src, f.file_id) {
            seq![]
        } else {
            (if input {
                name_report(o.input_value_definition, "input value"@, f.name@, f.file_id, f.name_range)
            } else {
                name_report(o.field_definition, "field"@, f.name@, f.file_id, f.name_range)
            }) + (if !input && o.argument is Some { naming_args_reports(o, src, f.arguments@) } else { seq![] })
        }
    }
}

/// Reports about the values `vs` of enum `t`.
pub open spec fn naming_values_reports(o: NamingConventionOptions, t: TypeDef, vs: Seq<EnumValue>) -> Seq<FileDiagnosticView>
    decreases vs.len(),
{
    if vs.len() == 0 {
        seq![]
    } else {
        naming_values_reports(o, t, vs.drop_last())
            + name_report(o.enum_value_definition, "enum value"@, vs.last().name@, t.file_id, vs.last().name_range)
    }
}

/// The rule that applies to type definitions of kind `k`.
pub open spec fn type_rule(o: NamingConventionOptions, k: TypeDefKind) -> Option<NamingRule> {
    match o.explicit_rule(k) {
        Some(x) => Some(x),
        None => o.types,
    }
}

/// Reports about type `t`: nothing for a built-in scalar or a type outside
/// the source files; else its name, its fields (with their arguments) and,
/// for an enum, its values.
pub open spec fn naming_type_reports(o: NamingConventionOptions, src: Seq<u64>, t: TypeDef) -> Seq<FileDiagnosticView> {
    if (t.kind == TypeDefKind::Scalar && builtin_scalar(t.name@)) || !has_file(src, t.file_id) {
        seq![]
    } else {
        name_report(type_rule(o, t.kind), kind_label(t.kind), t.name@, t.file_id, t.name_range)
            + naming_fields_reports(o, src, t, t.fields@)
            + (if o.enum_value_definition is Some && t.kind == TypeDefKind::Enum {
                naming_values_reports(o, t, t.enum_values@)
            } else {
                seq![]
            })
    }
}

pub open spec fn naming_types_reports(o: NamingConventionOptions, src: Seq<u64>, ts: Seq<TypeDef>) -> Seq<FileDiagnosticView>
    decreases ts.len(),
{
    if ts.len() == 0 {
        seq![]
    } else {
        naming_types_reports(o, src, ts.drop_last()) + naming_type_reports(o, src, ts.last())
    }
}

/// Reports about the directive definitions `ds` (in the source files) and
/// their arguments.
pub open spec fn naming_directives_reports(o: NamingConventionOptions, src: Seq<u64>, ds: Seq<DirectiveDef>) -> Seq<FileDiagnosticView>
    decreases ds.len(),
{
    if ds.len() == 0 {
        seq![]
    } else {
        let d = ds.last();
        naming_directives_reports(o, src, ds.drop_last()) + if !has_file(src, d.file_id) {
            seq![]
        } else {
            name_report(o.directive_definition, "directive"@, d.name@, d.file_id, d.name_range)
                + (if o.argument is Some { naming_args_reports(o, src, d.arguments@) } else { seq![] })
        }
    }
}

fn report_name(rule: Option<&NamingRule>, kind: &str, name: &str, file: u64, r: OffsetRange, out: &mut Vec<FileDiagnostic>)
    ensures
        file_diags_view(final(out)@) == file_diags_view(old(out)@) + name_report(match rule {
            Some(x) => Some(*x),
            None => None,
        }, kind@, name@, file, r),
{
    let ghost before = file_diags_view(out@);
    if let Some(ru) = rule {
        let normalized = NormalizedRule::from_rule(ru);
        if let Some(failure) = check_name(&normalized, name) {
            let m = format_message(kind, name, failure.message_body.as_str());
            push_file_diag(out, file, warning_at(r, m.as_str(), "namingConvention"));
            return;
        }
    }
    assert(file_diags_view(out@) =~= before + seq![]);
}

fn kind_label_exec(k: TypeDefKind) -> (r: &'static str)
    ensures
        r@ == kind_label(k),
{
    match k {
        TypeDefKind::Interface => "interface",
        TypeDefKind::Enum => "enum",
        TypeDefKind::Union => "union",
        TypeDefKind::Scalar => "scalar",
        TypeDefKind::InputObject => "input",
        TypeDefKind::Object => "type",
    }
}

fn report_args(o: &NamingConventionOptions, src: &Vec<u64>, args: &Vec<ArgumentDef>, out: &mut Vec<FileDiagnostic>)
    ensures
        file_diags_view(final(out)@) == file_diags_view(old(out)@) + naming_args_reports(*o, src@, args@),
{
    let ghost before = file_diags_view(out@);
    let mut k: usize = 0;
    while k < args.len()
        invariant
            0 <= k <= args@.len(),
            file_diags_view(out@) == before + naming_args_reports(*o, src@, args@.take(k as int)),
        decreases args@.len() - k,
    {
        let a = &args[k];
        assert(args@.take(k + 1).drop_last() =~= args@.take(k as int));
        if contains_file(src, a.file_id) {
            report_name(o.argument.as_ref(), "argument", a.name.as_str(), a.file_id, a.name_range, out);
        } else {
            assert(file_diags_view(out@) =~= file_diags_view(out@) + seq![]);
        }
        k += 1;
    }
    assert(args@.take(k as int) =~= args@);
}

fn report_type_names(o: &NamingConventionOptions, src: &Vec<u64>, t: &TypeDef, out: &mut Vec<FileDiagnostic>)
    ensures
        file_diags_view(final(out)@) == file_diags_view(old(out)@) + naming_type_reports(*o, src@, *t),
{
    let ghost before = file_diags_view(out@);
    if (t.kind == TypeDefKind::Scalar && is_builtin_scalar(t.name.as_str())) || !contains_file(src, t.file_id) {
        assert(file_diags_view(out@) =~= before + seq![]);
        return;
    }
    report_name(o.rule_for_type_kind(t.kind), kind_label_exec(t.kind), t.name.as_str(), t.file_id, t.name_range, out);
    let ghost a = file_diags_view(out@);
    let input = t.kind == TypeDefKind::InputObject;
    let mut k: usize = 0;
    while k < t.fields.len()
        invariant
            0 <= k <= t.fields@.len(),
            input == (t.kind == TypeDefKind::InputObject),
            file_diags_view(out@) == a + naming_fields_reports(*o, src@, *t, t.fields@.take(k as int)),
        decreases t.fields@.len() - k,
    {
        let f = &t.fields[k];
        assert(t.fields@.take(k + 1).drop_last() =~= t.fields@.take(k as int));
        let ghost mid = file_diags_view(out@);
        if contains_file(src, f.file_id) {
            if input {
                report_name(o.input_value_definition.as_ref(), "input value", f.name.as_str(), f.file_id, f.name_range, out);
            } else {
                report_name(o.field_definition.as_ref(), "field", f.name.as_str(), f.file_id, f.name_range, out);
            }
            let ghost mid2 = file_diags_view(out@);
            if !input && o.argument.is_some() {
                report_args(o, src, &f.arguments, out);
            }
            assert(file_diags_view(out@) =~= mid + mid2.subrange(mid.len() as int, mid2.len() as int)
                + file_diags_view(out@).subrange(mid2.len() as int, file_diags_view(out@).len() as int));
        } else {
            assert(file_diags_view(out@) =~= mid + seq![]);
        }
        k += 1;
    }
    assert(t.fields@.take(k as int) =~= t.fields@);
    let ghost b = file_diags_view(out@);
    if o.enum_value_definition.is_some() && t.kind == TypeDefKind::Enum {
        let mut e: usize = 0;
        while e < t.enum_values.len()
            invariant
                0 <= e <= t.enum_values@.len(),
                file_diags_view(out@) == b + naming_values_reports(*o, *t, t.enum_values@.take(e as int)),
            decreases t.enum_values@.len() - e,
        {
            let v = &t.enum_values[e];
            assert(t.enum_values@.take(e + 1).drop_last() =~= t.enum_values@.take(e as int));
            report_name(o.enum_value_definition.as_ref(), "enum value", v.name.as_str(), t.file_id, v.name_range, out);
            e += 1;
        }
        assert(t.enum_values@.take(e as int) =~= t.enum_values@);
    }
    assert(file_diags_view(out@) =~= before + a.subrange(before.len() as int, a.len() as int)
        + b.subrange(a.len() as int, b.len() as int)
        + file_diags_view(out@).subrange(b.len() as int, file_diags_view(out@).len() as int));
}

impl NamingConventionRuleImpl {
    /// Checks the names of the schema definitions in the source files `src`:
    /// types (with the `types` entry as fallback), fields, input values,
    /// arguments, enum values and directive definitions.
    pub fn check_schema(&self, options: &NamingConventionOptions, src: &Vec<u64>, types: &Vec<TypeDef>, dirs: &Vec<DirectiveDef>) -> (r: Vec<FileDiagnostic>)
        ensures
            file_diags_view(r@) == naming_types_reports(*options, src@, types@) + naming_directives_reports(*options, src@, dirs@),
    {
        let mut out: Vec<FileDiagnostic> = Vec::new();
        let mut k: usize = 0;
        while k < types.len()
            invariant
                0 <= k <= types@.len(),
                file_diags_view(out@) == naming_types_reports(*options, src@, types@.take(k as int)),
            decreases types@.len() - k,
        {
            assert(types@.take(k + 1).drop_last() =~= types@.take(k as int));
            report_type_names(options, src, &types[k], &mut out);
            k += 1;
        }
        assert(types@.take(k as int) =~= types@);
        let ghost part1 = file_diags_view(out@);
        let mut d: usize = 0;
        while d < dirs.len()
            invariant
                0 <= d <= dirs@.len(),
                file_diags_view(out@) == part1 + naming_directives_reports(*options, src@, dirs@.take(d as int)),
            decreases dirs@.len() - d,
        {
            let dd = &dirs[d];
            assert(dirs@.take(d + 1).drop_last() =~= dirs@.take(d as int));
            let ghost mid = file_diags_view(out@);
            if contains_file(src, dd.file_id) {
                report_name(options.directive_definition.as_ref(), "directive", dd.name.as_str(), dd.file_id, dd.name_range, &mut out);
                let ghost mid2 = file_diags_view(out@);
                if options.argument.is_some() {
                    report_args(options, src, &dd.arguments, &mut out);
                }
                assert(file_diags_view(out@) =~= mid + mid2.subrange(mid.len() as int, mid2.len() as int)
                    + file_diags_view(out@).subrange(mid2.len() as int, file_diags_view(out@).len() as int));
            } else {
                assert(file_diags_view(out@) =~= mid + seq![]);
            }
            d += 1;
        }
        assert(dirs@.take(d as int) =~= dirs@);
        out
    }
}

/// The report, if any, when the name `n` of a `kind` definition of `doc`
/// breaks `rule`.
pub open spec fn doc_name_report(doc: ExecutableDocument, rule: Option<NamingRule>, kind: Seq<char>, n: Name) -> Seq<DiagnosticView> {
    match rule {
        Some(ru) => match spec_check_name(spec_normalize(ru), n.value@) {
            Some(body) => seq![plain_view(
                doc.spec_span(n.range.start, n.range.end),
                LintSeverity::Warning,
                spec_format_message(kind, n.value@, body),
                "namingConvention"@,
            )],
            None => seq![],
        },
        None => seq![],
    }
}

/// Reports about the named variables `vars` of an operation of `doc`.
pub open spec fn doc_vars_reports(doc: ExecutableDocument, rule: Option<NamingRule>, vars: Seq<VariableDefinition>) -> Seq<DiagnosticView>
    decreases vars.len(),
{
    if vars.len() == 0 {
        seq![]
    } else {
        doc_vars_reports(doc, rule, vars.drop_last()) + match vars.last().name {
            Some(n) => doc_name_report(doc, rule, "variable"@, n),
            None => seq![],
        }
    }
}

/// Reports about definition `d` of `doc`: an operation's name, then its
/// variables; a fragment's name.
pub open spec fn doc_def_reports(o: NamingConventionOptions, doc: ExecutableDocument, d: Definition) -> Seq<DiagnosticView> {
    match d {
        Definition::Operation(op) => (match op.name {
            Some(n) => doc_name_report(doc, o.operation_definition, op.kind.spec_keyword(), n),
            None => seq![],
        }) + doc_vars_reports(doc, o.variable, op.variables@),
        Definition::Fragment(fr) => match fr.name {
            Some(n) => doc_name_report(doc, o.fragment_definition, "fragment"@, n),
            None => seq![],
        },
        Definition::TypeSystem { .. } => seq![],
    }
}

/// Reports about the definitions `defs` of `doc`.
pub open spec fn doc_defs_reports(o: NamingConventionOptions, doc: ExecutableDocument, defs: Seq<Definition>) -> Seq<DiagnosticView>
    decreases defs.len(),
{
    if defs.len() == 0 {
        seq![]
    } else {
        doc_defs_reports(o, doc, defs.drop_last()) + doc_def_reports(o, doc, defs.last())
    }
}

fn report_doc_name(doc: &ExecutableDocument, rule: Option<&NamingRule>, kind: &str, n: &Name, out: &mut Vec<LintDiagnostic>)
    ensures
        diags_view(final(out)@) == diags_view(old(out)@) + doc_name_report(*doc, match rule {
            Some(x) => Some(*x),
            None => None,
        }, kind@, *n),
{
    let ghost before = diags_view(out@);
    if let Some(ru) = rule {
        let normalized = NormalizedRule::from_rule(ru);
        if let Some(failure) = check_name(&normalized, n.value.as_str()) {
            let m = format_message(kind, n.value.as_str(), failure.message_body.as_str());
            let d = LintDiagnostic::new(doc.span(n.range.start, n.range.end), LintSeverity::Warning, m.as_str(), "namingConvention");
            push_diag(out, d);
            return;
        }
    }
    assert(diags_view(out@) =~= before + seq![]);
}

fn report_doc_vars(doc: &ExecutableDocument, rule: Option<&NamingRule>, vars: &Vec<VariableDefinition>, out: &mut Vec<LintDiagnostic>)
    ensures
        diags_view(final(out)@) == diags_view(old(out)@) + doc_vars_reports(*doc, match rule {
            Some(x) => Some(*x),
            None => None,
        }, vars@),
{
    let ghost start = diags_view(out@);
    let ghost ru = match rule {
        Some(x) => Some(*x),
        None => None,
    };
    let mut k: usize = 0;
    assert(diags_view(out@) =~= start + doc_vars_reports(*doc, ru, vars@.take(0)));
    while k < vars.len()
        invariant
            0 <= k <= vars@.len(),
            ru == match rule {
                Some(x) => Some(*x),
                None => None::<NamingRule>,
            },
            diags_view(out@) == start + doc_vars_reports(*doc, ru, vars@.take(k as int)),
        decreases vars@.len() - k,
    {
        assert(vars@.take(k + 1).drop_last() =~= vars@.take(k as int));
        match &vars[k].name {
            Some(n) => report_doc_name(doc, rule, "variable", n, out),
            None => {},
        }
        assert(diags_view(out@) =~= start + doc_vars_reports(*doc, ru, vars@.take(k + 1)));
        k += 1;
    }
    assert(vars@.take(k as int) =~= vars@);
}

impl NamingConventionRuleImpl {
    /// Checks the names of the operations, their variables and the
    /// fragments of `doc` against the configured entries.
    pub fn check(&self, options: &NamingConventionOptions, doc: &ExecutableDocument) -> (r: Vec<LintDiagnostic>)
        ensures
            diags_view(r@) == doc_defs_reports(*options, *doc, doc.definitions@),
    {
        let mut out: Vec<LintDiagnostic> = Vec::new();
        let mut k: usize = 0;
        assert(diags_view(out@) =~= Seq::<DiagnosticView>::empty());
        while k < doc.definitions.len()
            invariant
                0 <= k <= doc.definitions@.len(),
                diags_view(out@) == doc_defs_reports(*options, *doc, doc.definitions@.take(k as int)),
            decreases doc.definitions@.len() - k,
        {
            assert(doc.definitions@.take(k + 1).drop_last() =~= doc.definitions@.take(k as int));
            let ghost before = diags_view(out@);
            match &doc.definitions[k] {
                Definition::Operation(op) => {
                    match &op.name {
                        Some(n) => report_doc_name(doc, options.operation_definition.as_ref(), op.kind.keyword(), n, &mut out),
                        None => {},
                    }
                    let ghost mid = diags_view(out@);
                    report_doc_vars(doc, options.variable.as_ref(), &op.variables, &mut out);
                    assert(diags_view(out@) =~= before + mid.subrange(before.len() as int, mid.len() as int)
                        + diags_view(out@).subrange(mid.len() as int, diags_view(out@).len() as int));
                },
                Definition::Fragment(fr) => match &fr.name {
                    Some(n) => report_doc_name(doc, options.fragment_definition.as_ref(), "fragment", n, &mut out),
                    None => {},
                },
                _ => {},
            }
            assert(diags_view(out@) =~= before + doc_def_reports(*options, *doc, doc.definitions@[k as int]));
            k += 1;
        }
        assert(doc.definitions@.take(k as int) =~= doc.definitions@);
        out
    }
}

/// No entry of the options is set.
pub open spec fn no_entries(o: NamingConventionOptions) -> bool {
    &&& o.operation_definition is None && o.fragment_definition is None && o.variable is None
    &&& o.types is None && o.field_definition is None && o.input_value_definition is None
    &&& o.argument is None && o.directive_definition is None && o.enum_value_definition is None
    &&& o.object_type_definition is None && o.interface_type_definition is None
    &&& o.enum_type_definition is None && o.union_type_definition is None
    &&& o.scalar_type_definition is None && o.input_object_type_definition is None
}

proof fn lemma_no_vars_reports(doc: ExecutableDocument, vars: Seq<VariableDefinition>)
    ensures
        doc_vars_reports(doc, None, vars) == Seq::<DiagnosticView>::empty(),
    decreases vars.len(),
{
    if vars.len() > 0 {
        lemma_no_vars_reports(doc, vars.drop_last());
    }
}

proof fn lemma_no_doc_reports(o: NamingConventionOptions, doc: ExecutableDocument, defs: Seq<Definition>)
    requires
        no_entries(o),
    ensures
        doc_defs_reports(o, doc, defs) == Seq::<DiagnosticView>::empty(),
    decreases defs.len(),
{
    if defs.len() > 0 {
        lemma_no_doc_reports(o, doc, defs.drop_last());
        match defs.last() {
            Definition::Operation(op) => lemma_no_vars_reports(doc, op.variables@),
            _ => {},
        }
    }
}

proof fn lemma_no_field_reports(o: NamingConventionOptions, src: Seq<u64>, t: TypeDef, fs: Seq<FieldSignature>)
    requires
        no_entries(o),
    ensures
        naming_fields_reports(o, src, t, fs) == Seq::<FileDiagnosticView>::empty(),
    decreases fs.len(),
{
    if fs.len() > 0 {
        lemma_no_field_reports(o, src, t, fs.drop_last());
    }
}

proof fn lemma_no_type_reports(o: NamingConventionOptions, src: Seq<u64>, ts: Seq<TypeDef>)
    requires
        no_entries(o),
    ensures
        naming_types_reports(o, src, ts) == Seq::<FileDiagnosticView>::empty(),
    decreases ts.len(),
{
    if ts.len() > 0 {
        lemma_no_type_reports(o, src, ts.drop_last());
        lemma_no_field_reports(o, src, ts.last(), ts.last().fields@);
    }
}

proof fn lemma_no_directive_reports(o: NamingConventionOptions, src: Seq<u64>, ds: Seq<DirectiveDef>)
    requires
        no_entries(o),
    ensures
        naming_directives_reports(o, src, ds) == Seq::<FileDiagnosticView>::empty(),
    decreases ds.len(),
{
    if ds.len() > 0 {
        lemma_no_directive_reports(o, src, ds.drop_last());
    }
}

/// With no entry set the rule reports nothing, on documents and on the
/// schema alike.
pub proof fn law_no_options_no_reports(
    o: NamingConventionOptions,
    doc: ExecutableDocument,
    src: Seq<u64>,
    types: Seq<TypeDef>,
    dirs: Seq<DirectiveDef>,
)
    requires
        no_entries(o),
    ensures
        doc_defs_reports(o, doc, doc.definitions@) == Seq::<DiagnosticView>::empty(),
        naming_types_reports(o, src, types) + naming_directives_reports(o, src, dirs) == Seq::<FileDiagnosticView>::empty(),
{
    lemma_no_doc_reports(o, doc, doc.definitions@);
    lemma_no_type_reports(o, src, types);
    lemma_no_directive_reports(o, src, dirs);
    assert(Seq::<FileDiagnosticView>::empty() + Seq::<FileDiagnosticView>::empty() =~= Seq::<FileDiagnosticView>::empty());
}


/// A name that holds an underscore is in neither PascalCase nor camelCase,
/// whatever its letters: `NamingCase::check` refuses it for both.
pub proof fn law_underscore_is_neither_pascal_nor_camel(name: Seq<char>, k: int)
    requires
        0 <= k < name.len(),
        name[k] == '_',
    ensures
        !NamingCase::Pascal.spec_check(name),
        !NamingCase::Camel.spec_check(name),
{
    assert(holds_char(name, '_'));
}

} // verus!
