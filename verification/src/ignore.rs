//! Inline lint ignore comments.
//!
//! Users can suppress lint diagnostics on a per-case basis using comments:
//!
//! ```graphql
//! # graphql-analyzer-ignore
//! query { ... }
//!
//! # graphql-analyzer-ignore: no_deprecated, unused_variables
//! query { ... }
//! ```
//!
//! The comment must appear on the line immediately before the diagnostic.
//! Without rule names, all lint rules are suppressed for that line.
use vstd::prelude::*;
use crate::text::{
    byte_offsets, byte_pos, chars_eq, has_prefix, has_prefix_at, line_ranges, line_ranges_of,
    list_items, list_items_of, pairs_view, range_to_string, str_byte_len, to_chars, trim_range,
    trimmed,
};

verus! {

/// Byte range of a single rule name within an ignore comment.
/// Byte offsets are file-relative (not line-relative).
#[derive(Debug, Clone, PartialEq, Eq)]
pub struct RuleSpan {
    pub name: String,
    pub byte_offset: usize,
    pub byte_end: usize,
}

/// A parsed ignore directive from a comment.
#[derive(Debug, Clone, PartialEq, Eq)]
pub struct IgnoreDirective {
    /// The line number this directive appears on (0-based).
    pub line: usize,
    /// Byte offset of the start of this comment line in the source.
    pub byte_offset: usize,
    /// Byte offset of the end of this comment line in the source.
    pub byte_end: usize,
    /// The rules to ignore. Empty means ignore all rules.
    pub rules: Vec<RuleSpan>,
}

/// A rule span as plain values: name, first byte, end byte.
pub type RuleSpanView = (Seq<char>, int, int);

/// A directive as plain values: line, first byte, end byte, rules.
pub type DirectiveView = (int, int, int, Seq<RuleSpanView>);

impl RuleSpan {
    pub open spec fn view(&self) -> RuleSpanView {
        (self.name@, self.byte_offset as int, self.byte_end as int)
    }
}

impl IgnoreDirective {
    pub open spec fn view(&self) -> DirectiveView {
        (self.line as int, self.byte_offset as int, self.byte_end as int,
            Seq::new(self.rules@.len(), |k: int| self.rules@[k].view()))
    }

    /// This directive suppresses `rule`: it lists no rule, or lists `rule`.
    pub open spec fn spec_suppresses(&self, rule: Seq<char>) -> bool {
        self.rules@.len() == 0 || exists|k: int| 0 <= k < self.rules@.len() && #[trigger] self.rules@[k].name@ == rule
    }

    /// Returns true if this directive suppresses the given rule.
    pub fn suppresses(&self, rule_name: &str) -> (b: bool)
        ensures
            b == self.spec_suppresses(rule_name@),
    {
        if self.rules.len() == 0 {
            return true;
        }
        let name = to_chars(rule_name);
        let mut k: usize = 0;
        while k < self.rules.len()
            invariant
                0 <= k <= self.rules.len(),
                name@ == rule_name@,
                forall|j: int| 0 <= j < k ==> #[trigger] self.rules@[j].name@ != rule_name@,
            decreases self.rules.len() - k,
        {
            let n = to_chars(self.rules[k].name.as_str());
            if chars_eq(&n, &name) {
                return true;
            }
            k += 1;
        }
        false
    }

    /// The names of the rules this directive lists, in order.
    pub fn rule_names(&self) -> (r: Vec<&str>)
        ensures
            r@.len() == self.rules@.len(),
            forall|k: int| 0 <= k < r@.len() ==> #[trigger] r@[k]@ == self.rules@[k].name@,
    {
        let mut r: Vec<&str> = Vec::new();
        let mut k: usize = 0;
        while k < self.rules.len()
            invariant
                0 <= k <= self.rules.len(),
                r@.len() == k,
                forall|j: int| 0 <= j < k ==> #[trigger] r@[j]@ == self.rules@[j].name@,
            decreases self.rules.len() - k,
        {
            r.push(self.rules[k].name.as_str());
            k += 1;
        }
        r
    }
}

/// The comment keyword that starts an ignore directive.
pub open spec fn ignore_prefix() -> Seq<char> {
    "graphql-analyzer-ignore"@
}

/// The rule spans that the list in `src[lo..hi)` names.
pub open spec fn rule_spans(src: Seq<char>, lo: int, hi: int) -> Seq<RuleSpanView> {
    let items = list_items(src, lo, hi, ',');
    Seq::new(items.len(), |k: int| (src.subrange(items[k].0, items[k].1), byte_pos(src, items[k].0) as int, byte_pos(src, items[k].1) as int))
}

/// The ignore directive on line `k` (0-based) of `src`, if it holds one.
pub open spec fn spec_ignore_line(src: Seq<char>, k: int) -> Option<DirectiveView> {
    let l = line_ranges(src)[k];
    let t = trimmed(src, l);
    if t.0 < t.1 && src[t.0] == '#' {
        let b = trimmed(src, (t.0 + 1, t.1));
        if has_prefix(src, b.0, b.1, ignore_prefix()) {
            let rest = trimmed(src, (b.0 + ignore_prefix().len(), b.1));
            if rest.0 == rest.1 {
                Some((k, byte_pos(src, l.0) as int, byte_pos(src, l.1) as int, seq![]))
            } else if src[rest.0] == ':' {
                Some((k, byte_pos(src, l.0) as int, byte_pos(src, l.1) as int, rule_spans(src, rest.0 + 1, rest.1)))
            } else {
                None
            }
        } else {
            None
        }
    } else {
        None
    }
}

/// The ignore directives of the first `n` lines of `src`, in line order.
pub open spec fn spec_ignore_directives(src: Seq<char>, n: int) -> Seq<DirectiveView>
    decreases n,
{
    if n <= 0 {
        seq![]
    } else {
        let rest = spec_ignore_directives(src, n - 1);
        match spec_ignore_line(src, n - 1) {
            Some(d) => rest.push(d),
            None => rest,
        }
    }
}

/// The views of a sequence of directives.
pub open spec fn directives_view(ds: Seq<IgnoreDirective>) -> Seq<DirectiveView> {
    Seq::new(ds.len(), |k: int| ds[k].view())
}

/// Parses all ignore directives from GraphQL source text.
///
/// Scans each line for comments matching `# graphql-analyzer-ignore`
/// or `# graphql-analyzer-ignore: rule1, rule2`.
pub fn parse_ignore_directives(source: &str) -> (r: Vec<IgnoreDirective>)
    ensures
        directives_view(r@) == spec_ignore_directives(source@, line_ranges(source@).len() as int),
{
    let total = str_byte_len(source);
    let v = to_chars(source);
    let offs = byte_offsets(&v);
    let lines = line_ranges_of(&v);
    let prefix = to_chars("graphql-analyzer-ignore");
    let mut out: Vec<IgnoreDirective> = Vec::new();
    let mut k: usize = 0;
    while k < lines.len()
        invariant
            v@ == source@,
            prefix@ == ignore_prefix(),
            offs@.len() == v@.len() + 1,
            forall|i: int| 0 <= i <= v@.len() ==> #[trigger] offs@[i] == byte_pos(v@, i),
            pairs_view(lines@) == line_ranges(v@),
            forall|j: int| 0 <= j < lines@.len() ==> #[trigger] lines@[j].0 <= lines@[j].1 <= v.len(),
            0 <= k <= lines.len(),
            directives_view(out@) == spec_ignore_directives(v@, k as int),
        decreases lines.len() - k,
    {
        let (lo, hi) = lines[k];
        assert(line_ranges(v@)[k as int] == (lo as int, hi as int));
        let d = parse_line(&v, &offs, &prefix, k, lo, hi);
        match d {
            Some(dir) => {
                let ghost before = directives_view(out@);
                out.push(dir);
                assert(directives_view(out@) =~= before.push(dir.view()));
            }
            None => {}
        }
        k += 1;
    }
    out
}

fn parse_line(v: &Vec<char>, offs: &Vec<usize>, prefix: &Vec<char>, k: usize, lo: usize, hi: usize) -> (r: Option<IgnoreDirective>)
    requires
        lo <= hi <= v.len(),
        k < line_ranges(v@).len(),
        line_ranges(v@)[k as int] == (lo as int, hi as int),
        prefix@ == ignore_prefix(),
        offs@.len() == v@.len() + 1,
        forall|i: int| 0 <= i <= v@.len() ==> #[trigger] offs@[i] == byte_pos(v@, i),
    ensures
        match (r, spec_ignore_line(v@, k as int)) {
            (None, None) => true,
            (Some(d), Some(s)) => d.view() == s,
            _ => false,
        },
{
    let t = trim_range(v, lo, hi);
    if !(t.0 < t.1 && v[t.0] == '#') {
        return None;
    }
    let b = trim_range(v, t.0 + 1, t.1);
    if !has_prefix_at(v, b.0, b.1, prefix) {
        return None;
    }
    let rest = trim_range(v, b.0 + prefix.len(), b.1);
    if rest.0 == rest.1 {
        let d = IgnoreDirective { line: k, byte_offset: offs[lo], byte_end: offs[hi], rules: Vec::new() };
        assert(d.view().3 =~= Seq::<RuleSpanView>::empty());
        Some(d)
    } else if v[rest.0] == ':' {
        let rules = rule_span_list(v, offs, rest.0 + 1, rest.1);
        let d = IgnoreDirective { line: k, byte_offset: offs[lo], byte_end: offs[hi], rules };
        assert(d.view().3 =~= rule_spans(v@, rest.0 + 1, rest.1 as int));
        Some(d)
    } else {
        None
    }
}

fn rule_span_list(v: &Vec<char>, offs: &Vec<usize>, lo: usize, hi: usize) -> (r: Vec<RuleSpan>)
    requires
        lo <= hi <= v.len(),
        offs@.len() == v@.len() + 1,
        forall|i: int| 0 <= i <= v@.len() ==> #[trigger] offs@[i] == byte_pos(v@, i),
    ensures
        Seq::new(r@.len(), |k: int| r@[k].view()) == rule_spans(v@, lo as int, hi as int),
{
    let items = list_items_of(v, lo, hi, ',');
    let ghost spans = rule_spans(v@, lo as int, hi as int);
    let mut r: Vec<RuleSpan> = Vec::new();
    let mut k: usize = 0;
    while k < items.len()
        invariant
            0 <= k <= items.len(),
            lo <= hi <= v.len(),
            offs@.len() == v@.len() + 1,
            forall|i: int| 0 <= i <= v@.len() ==> #[trigger] offs@[i] == byte_pos(v@, i),
            pairs_view(items@) == list_items(v@, lo as int, hi as int, ','),
            forall|j: int| 0 <= j < items@.len() ==> lo <= #[trigger] items@[j].0 < items@[j].1 <= hi,
            spans == rule_spans(v@, lo as int, hi as int),
            r@.len() == k,
            forall|j: int| 0 <= j < k ==> #[trigger] r@[j].view() == spans[j],
        decreases items.len() - k,
    {
        let (a, b) = items[k];
        let name = range_to_string(v, a, b);
        r.push(RuleSpan { name, byte_offset: offs[a], byte_end: offs[b] });
        assert(pairs_view(items@)[k as int] == (a as int, b as int));
        k += 1;
    }
    assert(Seq::new(r@.len(), |j: int| r@[j].view()) =~= spans);
    r
}

/// A diagnostic on line `line` for `rule` is suppressed by `directives`: some
/// directive sits on the line before and suppresses `rule`.
pub open spec fn spec_is_suppressed(directives: Seq<IgnoreDirective>, line: int, rule: Seq<char>) -> bool {
    line != 0 && exists|k: int| 0 <= k < directives.len() && #[trigger] directives[k].line == line - 1
        && directives[k].spec_suppresses(rule)
}

/// Checks if a diagnostic at the given line should be suppressed.
///
/// A diagnostic is suppressed if there is an ignore directive on the
/// immediately preceding line that covers the diagnostic's rule.
pub fn is_suppressed(directives: &[IgnoreDirective], diagnostic_line: usize, rule: &str) -> (b: bool)
    ensures
        b == spec_is_suppressed(directives@, diagnostic_line as int, rule@),
{
    if diagnostic_line == 0 {
        return false;
    }
    let preceding_line = diagnostic_line - 1;
    let mut k: usize = 0;
    while k < directives.len()
        invariant
            0 <= k <= directives@.len(),
            preceding_line == diagnostic_line - 1,
            forall|j: int| 0 <= j < k ==> !(#[trigger] directives@[j].line == preceding_line && directives@[j].spec_suppresses(rule@)),
        decreases directives@.len() - k,
    {
        if directives[k].line == preceding_line && directives[k].suppresses(rule) {
            return true;
        }
        k += 1;
    }
    false
}

/// Result of checking whether an ignore directive (or individual rules) is unused.
#[derive(Debug)]
pub enum UnusedIgnore<'a> {
    /// The entire directive matched nothing (bare ignore or all listed rules unused).
    EntireDirective(&'a IgnoreDirective),
    /// Some rules in a multi-rule directive were unused.
    UnusedRules { directive: &'a IgnoreDirective, rules: Vec<&'a RuleSpan> },
}

/// Some diagnostic sits on `line`.
pub open spec fn diag_on_line(diags: Seq<(usize, &str)>, line: int) -> bool {
    exists|k: int| 0 <= k < diags.len() && #[trigger] diags[k].0 == line
}

/// Some diagnostic of rule `name` sits on `line`.
pub open spec fn diag_for(diags: Seq<(usize, &str)>, line: int, name: Seq<char>) -> bool {
    exists|k: int| 0 <= k < diags.len() && #[trigger] diags[k].0 == line && diags[k].1@ == name
}

/// Indices, among the first `n` rules of `d`, of the rules that no diagnostic
/// on the line after `d` matches.
pub open spec fn unused_rule_indices(d: IgnoreDirective, diags: Seq<(usize, &str)>, n: int) -> Seq<int>
    decreases n,
{
    if n <= 0 {
        seq![]
    } else {
        let rest = unused_rule_indices(d, diags, n - 1);
        if diag_for(diags, d.line + 1, d.rules@[n - 1].name@) {
            rest
        } else {
            rest.push(n - 1)
        }
    }
}

/// How `d` is unused: `None` when it suppressed something it lists (or, bare,
/// anything); `Some(None)` when the whole directive is unused; `Some(Some(ix))`
/// when only the rules at indices `ix` are.
pub open spec fn spec_unused(d: IgnoreDirective, diags: Seq<(usize, &str)>) -> Option<Option<Seq<int>>> {
    if d.rules@.len() == 0 {
        if diag_on_line(diags, d.line + 1) { None } else { Some(None) }
    } else {
        let u = unused_rule_indices(d, diags, d.rules@.len() as int);
        if u.len() == 0 {
            None
        } else if u.len() == d.rules@.len() {
            Some(None)
        } else {
            Some(Some(u))
        }
    }
}

/// The unused findings for the first `n` directives: directive index and how
/// it is unused.
pub open spec fn spec_unused_upto(ds: Seq<IgnoreDirective>, diags: Seq<(usize, &str)>, n: int) -> Seq<(int, Option<Seq<int>>)>
    decreases n,
{
    if n <= 0 {
        seq![]
    } else {
        let rest = spec_unused_upto(ds, diags, n - 1);
        match spec_unused(ds[n - 1], diags) {
            Some(u) => rest.push((n - 1, u)),
            None => rest,
        }
    }
}

/// `u` reports exactly the finding `f` about `ds`.
pub open spec fn reports(u: UnusedIgnore, f: (int, Option<Seq<int>>), ds: Seq<IgnoreDirective>) -> bool {
    match u {
        UnusedIgnore::EntireDirective(d) => f.1 is None && *d == ds[f.0],
        UnusedIgnore::UnusedRules { directive, rules } => f.1 matches Some(ix) && *directive == ds[f.0]
            && rules@.len() == ix.len()
            && forall|j: int| 0 <= j < ix.len() ==> *#[trigger] rules@[j] == ds[f.0].rules@[ix[j]],
    }
}

/// Finds ignore directives where individual rules didn't suppress any diagnostic.
///
/// Provides per-rule granularity: if a multi-rule directive has some rules that
/// matched and some that didn't, only the unmatched rules are reported.
pub fn find_unused_rules<'a>(
    directives: &'a [IgnoreDirective],
    diagnostic_lines_and_rules: &[(usize, &str)],
) -> (r: Vec<UnusedIgnore<'a>>)
    requires
        forall|k: int| 0 <= k < directives@.len() ==> #[trigger] directives@[k].line < usize::MAX,
    ensures
        r@.len() == spec_unused_upto(directives@, diagnostic_lines_and_rules@, directives@.len() as int).len(),
        forall|k: int| 0 <= k < r@.len() ==> reports(#[trigger] r@[k], spec_unused_upto(directives@, diagnostic_lines_and_rules@, directives@.len() as int)[k], directives@),
{
    let diags = diagnostic_lines_and_rules;
    let mut out: Vec<UnusedIgnore<'a>> = Vec::new();
    let mut i: usize = 0;
    while i < directives.len()
        invariant
            0 <= i <= directives@.len(),
            diags@ == diagnostic_lines_and_rules@,
            forall|k: int| 0 <= k < directives@.len() ==> #[trigger] directives@[k].line < usize::MAX,
            out@.len() == spec_unused_upto(directives@, diags@, i as int).len(),
            forall|k: int| 0 <= k < out@.len() ==> reports(#[trigger] out@[k], spec_unused_upto(directives@, diags@, i as int)[k], directives@),
        decreases directives@.len() - i,
    {
        let d: &'a IgnoreDirective = &directives[i];
        let target_line = d.line + 1;
        let ghost before = spec_unused_upto(directives@, diags@, i as int);
        if d.rules.len() == 0 {
            if !any_on_line(diags, target_line) {
                out.push(UnusedIgnore::EntireDirective(d));
                assert(reports(out@[out@.len() - 1], spec_unused_upto(directives@, diags@, i + 1)[out@.len() - 1], directives@));
            }
        } else {
            let unused = unused_rules_of(d, diags, target_line);
            if unused.len() == 0 {
            } else if unused.len() == d.rules.len() {
                out.push(UnusedIgnore::EntireDirective(d));
                assert(reports(out@[out@.len() - 1], spec_unused_upto(directives@, diags@, i + 1)[out@.len() - 1], directives@));
            } else {
                out.push(UnusedIgnore::UnusedRules { directive: d, rules: unused });
                assert(reports(out@[out@.len() - 1], spec_unused_upto(directives@, diags@, i + 1)[out@.len() - 1], directives@));
            }
        }
        assert forall|k: int| 0 <= k < out@.len() implies reports(#[trigger] out@[k], spec_unused_upto(directives@, diags@, i + 1)[k], directives@) by {
            if k < before.len() {
                assert(spec_unused_upto(directives@, diags@, i + 1)[k] == before[k]);
            }
        }
        i += 1;
    }
    out
}

fn any_on_line(diags: &[(usize, &str)], line: usize) -> (b: bool)
    ensures
        b == diag_on_line(diags@, line as int),
{
    let mut k: usize = 0;
    while k < diags.len()
        invariant
            0 <= k <= diags@.len(),
            forall|j: int| 0 <= j < k ==> #[trigger] diags@[j].0 != line,
        decreases diags@.len() - k,
    {
        if diags[k].0 == line {
            return true;
        }
        k += 1;
    }
    false
}

fn any_for(diags: &[(usize, &str)], line: usize, name: &String) -> (b: bool)
    ensures
        b == diag_for(diags@, line as int, name@),
{
    let nv = to_chars(name.as_str());
    let mut k: usize = 0;
    while k < diags.len()
        invariant
            0 <= k <= diags@.len(),
            nv@ == name@,
            forall|j: int| 0 <= j < k ==> !(#[trigger] diags@[j].0 == line && diags@[j].1@ == name@),
        decreases diags@.len() - k,
    {
        if diags[k].0 == line {
            let rv = to_chars(diags[k].1);
            if chars_eq(&rv, &nv) {
                return true;
            }
        }
        k += 1;
    }
    false
}

fn unused_rules_of<'a>(d: &'a IgnoreDirective, diags: &[(usize, &str)], target_line: usize) -> (r: Vec<&'a RuleSpan>)
    requires
        target_line == d.line + 1,
    ensures
        r@.len() == unused_rule_indices(*d, diags@, d.rules@.len() as int).len(),
        forall|j: int| 0 <= j < r@.len() ==> *#[trigger] r@[j] == d.rules@[unused_rule_indices(*d, diags@, d.rules@.len() as int)[j]],
{
    let mut r: Vec<&'a RuleSpan> = Vec::new();
    let mut k: usize = 0;
    while k < d.rules.len()
        invariant
            0 <= k <= d.rules@.len(),
            target_line == d.line + 1,
            r@.len() == unused_rule_indices(*d, diags@, k as int).len(),
            forall|j: int| 0 <= j < r@.len() ==> *#[trigger] r@[j] == d.rules@[unused_rule_indices(*d, diags@, k as int)[j]],
        decreases d.rules@.len() - k,
    {
        let rs: &'a RuleSpan = &d.rules[k];
        if !any_for(diags, target_line, &rs.name) {
            r.push(rs);
        }
        k += 1;
    }
    r
}

proof fn lemma_directive_listed(src: Seq<char>, n: int, k: int)
    requires
        0 <= k < n,
        spec_ignore_line(src, k) is Some,
    ensures
        spec_ignore_directives(src, n).contains(spec_ignore_line(src, k).unwrap()),
    decreases n,
{
    let rest = spec_ignore_directives(src, n - 1);
    if k < n - 1 {
        lemma_directive_listed(src, n - 1, k);
        let j = choose|j: int| 0 <= j < rest.len() && rest[j] == spec_ignore_line(src, k).unwrap();
        match spec_ignore_line(src, n - 1) {
            Some(d) => assert(rest.push(d)[j] == rest[j]),
            None => {},
        }
    } else {
        assert(rest.push(spec_ignore_line(src, k).unwrap())[rest.len() as int] == spec_ignore_line(src, k).unwrap());
    }
}

proof fn lemma_directive_origin(src: Seq<char>, n: int, j: int)
    requires
        0 <= j < spec_ignore_directives(src, n).len(),
    ensures
        0 <= spec_ignore_directives(src, n)[j].0 < n,
        spec_ignore_line(src, spec_ignore_directives(src, n)[j].0) == Some(spec_ignore_directives(src, n)[j]),
    decreases n,
{
    if n > 0 {
        let rest = spec_ignore_directives(src, n - 1);
        if j < rest.len() {
            lemma_directive_origin(src, n - 1, j);
            match spec_ignore_line(src, n - 1) {
                Some(d) => assert(rest.push(d)[j] == rest[j]),
                None => {},
            }
        }
    }
}

/// An ignore comment suppresses, on the line right after it, every rule
/// it names, and every rule when it names none: for `ds` the directives
/// parsed from `src` (what `parse_ignore_directives` returns).
pub proof fn law_ignore_comment_suppresses_next_line(src: Seq<char>, ds: Seq<IgnoreDirective>, k: int, rule: Seq<char>)
    requires
        0 <= k < line_ranges(src).len(),
        directives_view(ds) == spec_ignore_directives(src, line_ranges(src).len() as int),
        spec_ignore_line(src, k) matches Some(d)
            && (d.3.len() == 0 || exists|i: int| 0 <= i < d.3.len() && #[trigger] d.3[i].0 == rule),
    ensures
        spec_is_suppressed(ds, k + 1, rule),
{
    let n = line_ranges(src).len() as int;
    let d = spec_ignore_line(src, k).unwrap();
    lemma_directive_listed(src, n, k);
    let j = choose|j: int| 0 <= j < spec_ignore_directives(src, n).len() && spec_ignore_directives(src, n)[j] == d;
    assert(directives_view(ds)[j] == ds[j].view());
    assert(ds[j].line == k);
    if d.3.len() != 0 {
        let i = choose|i: int| 0 <= i < d.3.len() && #[trigger] d.3[i].0 == rule;
        assert(ds[j].view().3[i] == ds[j].rules@[i].view());
        assert(ds[j].rules@[i].name@ == rule);
    }
    assert(ds[j].spec_suppresses(rule));
}

/// A diagnostic is suppressed only by an ignore comment on the line right
/// before it: for `ds` the directives parsed from `src`.
pub proof fn law_suppression_needs_comment_on_previous_line(src: Seq<char>, ds: Seq<IgnoreDirective>, line: int, rule: Seq<char>)
    requires
        directives_view(ds) == spec_ignore_directives(src, line_ranges(src).len() as int),
        spec_is_suppressed(ds, line, rule),
    ensures
        0 < line <= line_ranges(src).len(),
        spec_ignore_line(src, line - 1) is Some,
{
    let n = line_ranges(src).len() as int;
    let k = choose|k: int| 0 <= k < ds.len() && #[trigger] ds[k].line == line - 1 && ds[k].spec_suppresses(rule);
    assert(directives_view(ds)[k] == ds[k].view());
    lemma_directive_origin(src, n, k);
}

} // verus!
