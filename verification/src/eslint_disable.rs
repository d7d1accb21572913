//! `# eslint-disable*` directive comments in `.graphql` source text, resolved
//! into a `Suppressions` map that filters diagnostics by rule and line.
//!
//! Supported directives:
//! - `# eslint-disable-next-line [rule, ...]` suppresses the directive line
//!   itself and the line after it; the bare form suppresses every rule.
//! - `# eslint-disable [rule, ...]` suppresses from this line until a matching
//!   `eslint-enable` (or the end of the file); the bare form suppresses all.
//! - `# eslint-enable [rule, ...]` re-enables rules disabled above.
use vstd::prelude::*;
use crate::text::{char_is_ws, is_ws, copy_range, chars_eq, line_ranges_of, pairs_view, has_prefix, has_prefix_at, line_ranges, list_items, list_items_of, ranges_to_strings, slices_of, strings_view, to_chars, trim_lo, trim_range, trim_start_index, trimmed};

verus! {

/// One suppressed stretch of lines, as plain values: first line, last line
/// (both 1-based, inclusive) and the rule, or `None` for every rule.
pub type RangeView = (int, int, Option<Seq<char>>);

/// An `eslint-disable` block still open: its rule (or `None`) and first line.
pub type OpenView = (Option<Seq<char>>, int);

/// A resolved set of suppressed `(rule, line)` pairs derived from directive
/// comments in a single source file. Line numbers are 1-based.
pub struct Suppressions {
    ranges: Vec<SuppressionRange>,
}

struct SuppressionRange {
    /// First 1-based line that is suppressed (inclusive).
    start_line: u32,
    /// Last 1-based line that is suppressed (inclusive).
    end_line: u32,
    /// The specific rule suppressed, or `None` for "all rules".
    rule: Option<String>,
}

/// The kind of an `eslint-*` directive.
#[derive(Debug, Clone, Copy, PartialEq, Eq)]
pub enum DirectiveKind {
    DisableNextLine,
    Disable,
    Enable,
}

/// A parsed `eslint-*` directive.
pub struct ParsedDirective {
    pub kind: DirectiveKind,
    /// Rule names parsed from the comma-separated list. Empty = bare (all rules).
    pub rules: Vec<String>,
}

pub open spec fn opt_string_view(o: Option<String>) -> Option<Seq<char>> {
    match o {
        Some(s) => Some(s@),
        None => None,
    }
}

impl SuppressionRange {
    spec fn view(&self) -> RangeView {
        (self.start_line as int, self.end_line as int, opt_string_view(self.rule))
    }
}

impl Suppressions {
    /// The suppressed ranges, as plain values.
    pub closed spec fn ranges_view(&self) -> Seq<RangeView> {
        Seq::new(self.ranges@.len(), |k: int| self.ranges@[k].view())
    }
}

/// The rule names of a directive, from the text after its keyword.
pub open spec fn directive_rules(t: Seq<char>, lo: int) -> Seq<Seq<char>> {
    let r = trimmed(t, (lo, t.len() as int));
    if r.0 == r.1 {
        seq![]
    } else {
        slices_of(t, list_items(t, r.0, r.1, ','))
    }
}

/// `t` holds the keyword `k` at `a`, followed by the end of `t` or by
/// whitespace.
pub open spec fn keyword_at(t: Seq<char>, a: int, k: Seq<char>) -> bool {
    let e = a + k.len();
    has_prefix(t, a, t.len() as int, k) && (e == t.len() || (e < t.len() && is_ws(t[e])))
}

/// The directive that a trimmed line holds, if any: `#`, optional
/// whitespace, a keyword, then nothing or whitespace and a rule list.
pub open spec fn spec_parse_directive(t: Seq<char>) -> Option<(DirectiveKind, Seq<Seq<char>>)> {
    if t.len() == 0 || t[0] != '#' {
        None
    } else {
        let a = trim_lo(t, 1, t.len() as int);
        let n = t.len() as int;
        if keyword_at(t, a, "eslint-disable-next-line"@) {
            Some((DirectiveKind::DisableNextLine, directive_rules(t, a + "eslint-disable-next-line"@.len())))
        } else if keyword_at(t, a, "eslint-disable"@) {
            Some((DirectiveKind::Disable, directive_rules(t, a + "eslint-disable"@.len())))
        } else if keyword_at(t, a, "eslint-enable"@) {
            Some((DirectiveKind::Enable, directive_rules(t, a + "eslint-enable"@.len())))
        } else {
            None
        }
    }
}

/// State while scanning a file: ranges found so far and blocks still open.
pub type ScanState = (Seq<RangeView>, Seq<OpenView>);

/// Ranges for a directive that covers lines `a..=b` for each listed rule, or
/// for every rule when the list is empty.
pub open spec fn ranges_for(rules: Seq<Seq<char>>, a: int, b: int) -> Seq<RangeView> {
    if rules.len() == 0 {
        seq![(a, b, None)]
    } else {
        Seq::new(rules.len(), |k: int| (a, b, Some(rules[k])))
    }
}

/// Blocks opened by a `disable` directive on `line`.
pub open spec fn opens_for(rules: Seq<Seq<char>>, line: int) -> Seq<OpenView> {
    if rules.len() == 0 {
        seq![(None, line)]
    } else {
        Seq::new(rules.len(), |k: int| (Some(rules[k]), line))
    }
}

/// Index of the most recent open block for `rule`, or `-1`.
pub open spec fn last_open_for(open: Seq<OpenView>, rule: Seq<char>) -> int
    decreases open.len(),
{
    if open.len() == 0 {
        -1
    } else if open.last().0 == Some(rule) {
        open.len() - 1
    } else {
        last_open_for(open.drop_last(), rule)
    }
}

/// Closing the most recent open block for `rule` at `line`, if there is one.
pub open spec fn close_one(st: ScanState, rule: Seq<char>, line: int) -> ScanState {
    let pos = last_open_for(st.1, rule);
    if pos < 0 {
        st
    } else {
        (st.0.push((st.1[pos].1, line, st.1[pos].0)), st.1.remove(pos))
    }
}

/// Closing, in order, the most recent open block of each rule of `rules`.
pub open spec fn close_each(st: ScanState, rules: Seq<Seq<char>>, line: int) -> ScanState
    decreases rules.len(),
{
    if rules.len() == 0 {
        st
    } else {
        close_one(close_each(st, rules.drop_last(), line), rules.last(), line)
    }
}

/// Ranges that close every open block at `line`, oldest first.
pub open spec fn close_all(open: Seq<OpenView>, line: int) -> Seq<RangeView> {
    Seq::new(open.len(), |k: int| (open[k].1, line, open[k].0))
}

/// The effect of one directive on `line`.
pub open spec fn step(st: ScanState, line: int, d: (DirectiveKind, Seq<Seq<char>>)) -> ScanState {
    match d.0 {
        DirectiveKind::DisableNextLine => (st.0 + ranges_for(d.1, line, line + 1), st.1),
        DirectiveKind::Disable => (st.0, st.1 + opens_for(d.1, line)),
        DirectiveKind::Enable => if d.1.len() == 0 {
            (st.0 + close_all(st.1, line), seq![])
        } else {
            close_each(st, d.1, line)
        },
    }
}

/// The directive held by line `k` (0-based) of `src`.
pub open spec fn line_directive(src: Seq<char>, k: int) -> Option<(DirectiveKind, Seq<Seq<char>>)> {
    let r = line_ranges(src)[k];
    let t = trimmed(src, r);
    spec_parse_directive(src.subrange(t.0, t.1))
}

/// The state after the first `n` lines of `src`.
pub open spec fn scan(src: Seq<char>, n: int) -> ScanState
    decreases n,
{
    if n <= 0 {
        (seq![], seq![])
    } else {
        let st = scan(src, n - 1);
        match line_directive(src, n - 1) {
            Some(d) => step(st, n, d),
            None => st,
        }
    }
}

/// The suppressed ranges of `src`: those closed while scanning, then every
/// block left open, extended to the end of the file (`u32::MAX`).
pub open spec fn spec_suppressions(src: Seq<char>) -> Seq<RangeView> {
    let st = scan(src, line_ranges(src).len() as int);
    st.0 + Seq::new(st.1.len(), |k: int| (st.1[k].1, u32::MAX as int, st.1[k].0))
}

/// `rule` on `line` falls in one of `ranges`.
pub open spec fn covered(ranges: Seq<RangeView>, rule: Seq<char>, line: int) -> bool {
    exists|k: int| 0 <= k < ranges.len() && #[trigger] ranges[k].0 <= line && line <= ranges[k].1
        && (ranges[k].2 is None || ranges[k].2 == Some(rule))
}

/// Parses a trimmed line as a `# eslint-disable*` directive. Returns `None`
/// if the line is not a recognised directive.
pub fn parse_eslint_directive(trimmed: &str) -> (r: Option<ParsedDirective>)
    ensures
        match (r, spec_parse_directive(trimmed@)) {
            (None, None) => true,
            (Some(p), Some(d)) => p.kind == d.0 && strings_view(p.rules@) == d.1,
            _ => false,
        },
{
    let t = to_chars(trimmed);
    parse_directive_chars(&t)
}

fn keyword_at_exec(t: &Vec<char>, a: usize, k: &Vec<char>) -> (b: bool)
    requires
        a <= t.len(),
    ensures
        b == keyword_at(t@, a as int, k@),
{
    if !has_prefix_at(t, a, t.len(), k) {
        return false;
    }
    let e = a + k.len();
    e == t.len() || (e < t.len() && char_is_ws(t[e]))
}

fn parse_directive_chars(t: &Vec<char>) -> (r: Option<ParsedDirective>)
    ensures
        match (r, spec_parse_directive(t@)) {
            (None, None) => true,
            (Some(p), Some(d)) => p.kind == d.0 && strings_view(p.rules@) == d.1,
            _ => false,
        },
{
    let n = t.len();
    if n == 0 || t[0] != '#' {
        return None;
    }
    let a = trim_start_index(t, 1, n);
    let next_line = to_chars("eslint-disable-next-line");
    let disable = to_chars("eslint-disable");
    let enable = to_chars("eslint-enable");
    let (kind, rest) = if keyword_at_exec(t, a, &next_line) {
        (DirectiveKind::DisableNextLine, a + next_line.len())
    } else if keyword_at_exec(t, a, &disable) {
        (DirectiveKind::Disable, a + disable.len())
    } else if keyword_at_exec(t, a, &enable) {
        (DirectiveKind::Enable, a + enable.len())
    } else {
        return None;
    };
    let rules = directive_rule_list(t, rest);
    Some(ParsedDirective { kind, rules })
}

fn directive_rule_list(t: &Vec<char>, lo: usize) -> (r: Vec<String>)
    requires
        lo <= t.len(),
    ensures
        strings_view(r@) == directive_rules(t@, lo as int),
{
    let (x, y) = trim_range(t, lo, t.len());
    if x == y {
        let r: Vec<String> = Vec::new();
        assert(strings_view(r@) =~= Seq::<Seq<char>>::empty());
        r
    } else {
        let items = list_items_of(t, x, y, ',');
        ranges_to_strings(t, &items)
    }
}

spec fn ranges_seq_view(r: Seq<SuppressionRange>) -> Seq<RangeView> {
    Seq::new(r.len(), |k: int| r[k].view())
}

pub open spec fn open_view(o: Seq<(Option<String>, u32)>) -> Seq<OpenView> {
    Seq::new(o.len(), |k: int| (opt_string_view(o[k].0), o[k].1 as int))
}

fn clone_opt(o: &Option<String>) -> (r: Option<String>)
    ensures
        opt_string_view(r) == opt_string_view(*o),
{
    match o {
        Some(s) => Some(s.clone()),
        None => None,
    }
}

fn apply_next_line(ranges: &mut Vec<SuppressionRange>, rules: &Vec<String>, line: u32)
    requires
        line < u32::MAX,
    ensures
        ranges_seq_view(final(ranges)@) == ranges_seq_view(old(ranges)@) + ranges_for(strings_view(rules@), line as int, line + 1),
{
    let ghost r0 = ranges_seq_view(ranges@);
    if rules.len() == 0 {
        ranges.push(SuppressionRange { start_line: line, end_line: line + 1, rule: None });
        assert(ranges_seq_view(ranges@) =~= r0 + ranges_for(strings_view(rules@), line as int, line + 1));
    } else {
        let mut k: usize = 0;
        while k < rules.len()
            invariant
                0 <= k <= rules.len(),
                rules.len() > 0,
                line < u32::MAX,
                ranges_seq_view(ranges@) == r0 + ranges_for(strings_view(rules@), line as int, line + 1).take(k as int),
            decreases rules.len() - k,
        {
            let ghost before = ranges_seq_view(ranges@);
            ranges.push(SuppressionRange { start_line: line, end_line: line + 1, rule: Some(rules[k].clone()) });
            assert(ranges_seq_view(ranges@) =~= before.push((line as int, line + 1, Some(rules@[k as int]@))));
            assert(ranges_for(strings_view(rules@), line as int, line + 1).take(k + 1) =~= ranges_for(strings_view(rules@), line as int, line + 1).take(k as int).push((line as int, line + 1, Some(rules@[k as int]@))));
            k += 1;
        }
        assert(ranges_for(strings_view(rules@), line as int, line + 1).take(rules@.len() as int) =~= ranges_for(strings_view(rules@), line as int, line + 1));
    }
}

fn apply_disable(open: &mut Vec<(Option<String>, u32)>, rules: &Vec<String>, line: u32)
    ensures
        open_view(final(open)@) == open_view(old(open)@) + opens_for(strings_view(rules@), line as int),
{
    let ghost o0 = open_view(open@);
    if rules.len() == 0 {
        open.push((None, line));
        assert(open_view(open@) =~= o0 + opens_for(strings_view(rules@), line as int));
    } else {
        let mut k: usize = 0;
        while k < rules.len()
            invariant
                0 <= k <= rules.len(),
                rules.len() > 0,
                open_view(open@) == o0 + opens_for(strings_view(rules@), line as int).take(k as int),
            decreases rules.len() - k,
        {
            let ghost before = open_view(open@);
            open.push((Some(rules[k].clone()), line));
            assert(open_view(open@) =~= before.push((Some(rules@[k as int]@), line as int)));
            assert(opens_for(strings_view(rules@), line as int).take(k + 1) =~= opens_for(strings_view(rules@), line as int).take(k as int).push((Some(rules@[k as int]@), line as int)));
            k += 1;
        }
        assert(opens_for(strings_view(rules@), line as int).take(rules@.len() as int) =~= opens_for(strings_view(rules@), line as int));
    }
}

fn apply_close_all(ranges: &mut Vec<SuppressionRange>, open: &mut Vec<(Option<String>, u32)>, line: u32)
    ensures
        ranges_seq_view(final(ranges)@) == ranges_seq_view(old(ranges)@) + close_all(open_view(old(open)@), line as int),
        final(open)@.len() == 0,
{
    let ghost r0 = ranges_seq_view(ranges@);
    let ghost o0 = open_view(open@);
    let mut k: usize = 0;
    while k < open.len()
        invariant
            0 <= k <= open.len(),
            open_view(open@) == o0,
            ranges_seq_view(ranges@) == r0 + close_all(o0, line as int).take(k as int),
        decreases open.len() - k,
    {
        let ghost before = ranges_seq_view(ranges@);
        let rule = clone_opt(&open[k].0);
        let start = open[k].1;
        ranges.push(SuppressionRange { start_line: start, end_line: line, rule });
        assert(ranges_seq_view(ranges@) =~= before.push((o0[k as int].1, line as int, o0[k as int].0)));
        assert(close_all(o0, line as int).take(k + 1) =~= close_all(o0, line as int).take(k as int).push((o0[k as int].1, line as int, o0[k as int].0)));
        k += 1;
    }
    assert(close_all(o0, line as int).take(o0.len() as int) =~= close_all(o0, line as int));
    open.clear();
}

fn last_open_index(open: &Vec<(Option<String>, u32)>, rule: &String) -> (r: Option<usize>)
    ensures
        match r {
            Some(i) => i < open@.len() && i as int == last_open_for(open_view(open@), rule@),
            None => last_open_for(open_view(open@), rule@) == -1,
        },
{
    let mut i = open.len();
    assert(open_view(open@).take(i as int) =~= open_view(open@));
    while i > 0
        invariant
            i <= open.len(),
            last_open_for(open_view(open@), rule@) == last_open_for(open_view(open@).take(i as int), rule@),
        decreases i,
    {
        let ghost pre = open_view(open@).take(i as int);
        assert(pre.drop_last() =~= open_view(open@).take(i - 1));
        let is_match = match &open[i - 1].0 {
            Some(s) => *s == *rule,
            None => false,
        };
        if is_match {
            return Some(i - 1);
        }
        i -= 1;
    }
    assert(open_view(open@).take(0) =~= Seq::<OpenView>::empty());
    None
}

fn apply_close_one(ranges: &mut Vec<SuppressionRange>, open: &mut Vec<(Option<String>, u32)>, rule: &String, line: u32)
    ensures
        (ranges_seq_view(final(ranges)@), open_view(final(open)@)) == close_one((ranges_seq_view(old(ranges)@), open_view(old(open)@)), rule@, line as int),
{
    let ghost r0 = ranges_seq_view(ranges@);
    let ghost o0 = open_view(open@);
    match last_open_index(open, rule) {
        None => {}
        Some(pos) => {
            let (rule_opt, start) = open.remove(pos);
            ranges.push(SuppressionRange { start_line: start, end_line: line, rule: rule_opt });
            assert(ranges_seq_view(ranges@) =~= r0.push((o0[pos as int].1, line as int, o0[pos as int].0)));
            assert(open_view(open@) =~= o0.remove(pos as int));
        }
    }
}

fn apply_close_each(ranges: &mut Vec<SuppressionRange>, open: &mut Vec<(Option<String>, u32)>, rules: &Vec<String>, line: u32)
    ensures
        (ranges_seq_view(final(ranges)@), open_view(final(open)@)) == close_each((ranges_seq_view(old(ranges)@), open_view(old(open)@)), strings_view(rules@), line as int),
{
    let ghost st0 = (ranges_seq_view(ranges@), open_view(open@));
    let mut k: usize = 0;
    while k < rules.len()
        invariant
            0 <= k <= rules.len(),
            (ranges_seq_view(ranges@), open_view(open@)) == close_each(st0, strings_view(rules@).take(k as int), line as int),
        decreases rules.len() - k,
    {
        assert(strings_view(rules@).take(k + 1).drop_last() =~= strings_view(rules@).take(k as int));
        apply_close_one(ranges, open, &rules[k], line);
        k += 1;
    }
    assert(strings_view(rules@).take(rules@.len() as int) =~= strings_view(rules@));
}

impl Suppressions {
    /// Parses `source` and builds its suppression map.
    pub fn from_source(source: &str) -> (r: Self)
        requires
            line_ranges(source@).len() < u32::MAX - 1,
        ensures
            r.ranges_view() == spec_suppressions(source@),
    {
        let v = to_chars(source);
        let lines = line_ranges_of(&v);
        let mut ranges: Vec<SuppressionRange> = Vec::new();
        let mut open: Vec<(Option<String>, u32)> = Vec::new();
        let mut k: usize = 0;
        while k < lines.len()
            invariant
                v@ == source@,
                pairs_view(lines@) == line_ranges(v@),
                forall|j: int| 0 <= j < lines@.len() ==> #[trigger] lines@[j].0 <= lines@[j].1 <= v.len(),
                lines@.len() < u32::MAX - 1,
                0 <= k <= lines.len(),
                (ranges_seq_view(ranges@), open_view(open@)) == scan(v@, k as int),
            decreases lines.len() - k,
        {
            let line_no: u32 = (k + 1) as u32;
            let (lo, hi) = lines[k];
            let t = trim_range(&v, lo, hi);
            let line = copy_range(&v, t.0, t.1);
            assert(line_ranges(v@)[k as int] == (lo as int, hi as int));
            let d = parse_directive_chars(&line);
            match d {
                None => {}
                Some(pd) => {
                    match pd.kind {
                        DirectiveKind::DisableNextLine => apply_next_line(&mut ranges, &pd.rules, line_no),
                        DirectiveKind::Disable => apply_disable(&mut open, &pd.rules, line_no),
                        DirectiveKind::Enable => {
                            if pd.rules.len() == 0 {
                                apply_close_all(&mut ranges, &mut open, line_no);
                                assert(open_view(open@) =~= Seq::<OpenView>::empty());
                            } else {
                                apply_close_each(&mut ranges, &mut open, &pd.rules, line_no);
                            }
                        }
                    }
                }
            }
            k += 1;
        }
        let ghost closed = ranges_seq_view(ranges@);
        let ghost o = open_view(open@);
        let mut j: usize = 0;
        while j < open.len()
            invariant
                0 <= j <= open.len(),
                open_view(open@) == o,
                ranges_seq_view(ranges@) == closed + Seq::new(o.len(), |i: int| (o[i].1, u32::MAX as int, o[i].0)).take(j as int),
            decreases open.len() - j,
        {
            let ghost before = ranges_seq_view(ranges@);
            let rule = clone_opt(&open[j].0);
            let start = open[j].1;
            ranges.push(SuppressionRange { start_line: start, end_line: u32::MAX, rule });
            assert(ranges_seq_view(ranges@) =~= before.push((o[j as int].1, u32::MAX as int, o[j as int].0)));
            assert(Seq::new(o.len(), |i: int| (o[i].1, u32::MAX as int, o[i].0)).take(j + 1) =~= Seq::new(o.len(), |i: int| (o[i].1, u32::MAX as int, o[i].0)).take(j as int).push((o[j as int].1, u32::MAX as int, o[j as int].0)));
            j += 1;
        }
        assert(Seq::new(o.len(), |i: int| (o[i].1, u32::MAX as int, o[i].0)).take(o.len() as int) =~= Seq::new(o.len(), |i: int| (o[i].1, u32::MAX as int, o[i].0)));
        let r = Suppressions { ranges };
        assert(r.ranges_view() =~= ranges_seq_view(r.ranges@));
        r
    }

    /// Returns `true` if `rule_name` at `line` (1-based) is suppressed.
    pub fn is_suppressed(&self, rule_name: &str, line: u32) -> (b: bool)
        ensures
            b == covered(self.ranges_view(), rule_name@, line as int),
    {
        let name = to_chars(rule_name);
        let mut k: usize = 0;
        while k < self.ranges.len()
            invariant
                0 <= k <= self.ranges.len(),
                name@ == rule_name@,
                forall|j: int| 0 <= j < k ==> !({
                    let r = #[trigger] self.ranges_view()[j];
                    r.0 <= line && line <= r.1 && (r.2 is None || r.2 == Some(rule_name@))
                }),
            decreases self.ranges.len() - k,
        {
            let r = &self.ranges[k];
            let ghost rv = self.ranges_view()[k as int];
            assert(rv == r.view());
            let rule_ok = match &r.rule {
                None => true,
                Some(s) => {
                    let sv = to_chars(s.as_str());
                    assert(rv.2 == Some(s@));
                    chars_eq(&sv, &name)
                }
            };
            assert(rule_ok == (rv.2 is None || rv.2 == Some(rule_name@)));
            assert(self.ranges_view()[k as int] == r.view());
            if line >= r.start_line && line <= r.end_line && rule_ok {
                assert(0 <= k < self.ranges_view().len());
                assert(rv.0 <= line && line <= rv.1);
                assert(self.ranges_view()[k as int].0 <= line);
                assert(covered(self.ranges_view(), rule_name@, line as int));
                return true;
            }
            k += 1;
        }
        assert(self.ranges_view().len() == self.ranges@.len());
        false
    }
}

/// `a` is a prefix of `b`.
pub open spec fn prefix_of(a: Seq<RangeView>, b: Seq<RangeView>) -> bool {
    a.len() <= b.len() && forall|k: int| 0 <= k < a.len() ==> #[trigger] b[k] == a[k]
}

proof fn lemma_close_each_extends(st: ScanState, rules: Seq<Seq<char>>, line: int)
    ensures
        prefix_of(st.0, close_each(st, rules, line).0),
    decreases rules.len(),
{
    if rules.len() > 0 {
        lemma_close_each_extends(st, rules.drop_last(), line);
    }
}

proof fn lemma_step_extends(st: ScanState, line: int, d: (DirectiveKind, Seq<Seq<char>>))
    ensures
        prefix_of(st.0, step(st, line, d).0),
{
    match d.0 {
        DirectiveKind::Enable => if d.1.len() > 0 {
            lemma_close_each_extends(st, d.1, line);
        },
        _ => {},
    }
}

proof fn lemma_scan_extends(src: Seq<char>, n: int, m: int)
    requires
        0 <= n <= m,
    ensures
        prefix_of(scan(src, n).0, scan(src, m).0),
    decreases m - n,
{
    if n < m {
        lemma_scan_extends(src, n, m - 1);
        match line_directive(src, m - 1) {
            Some(d) => lemma_step_extends(scan(src, m - 1), m, d),
            None => {},
        }
    }
}

/// A `# eslint-disable-next-line` directive on the (1-based) line `d`
/// suppresses, on line `d` and on line `d + 1`, every rule it lists, and every
/// rule at all when it lists none.
pub proof fn law_disable_next_line_covers(src: Seq<char>, d: int, rule: Seq<char>)
    requires
        1 <= d <= line_ranges(src).len(),
        line_directive(src, d - 1) matches Some(dir) && dir.0 == DirectiveKind::DisableNextLine
            && (dir.1.len() == 0 || dir.1.contains(rule)),
    ensures
        covered(spec_suppressions(src), rule, d),
        covered(spec_suppressions(src), rule, d + 1),
{
    let dir = line_directive(src, d - 1).unwrap();
    let before = scan(src, d - 1);
    let after = scan(src, d);
    assert(after == step(before, d, dir));
    let n = line_ranges(src).len() as int;
    lemma_scan_extends(src, d, n);
    let fin = spec_suppressions(src);
    let k: int = if dir.1.len() == 0 {
        before.0.len() as int
    } else {
        let j = choose|j: int| 0 <= j < dir.1.len() && dir.1[j] == rule;
        before.0.len() + j
    };
    assert(after.0[k] == fin[k]);
    assert(fin[k].0 == d && fin[k].1 == d + 1);
    assert(fin[k].2 is None || fin[k].2 == Some(rule));
}


/// Lines `lo..hi` (0-based) holding no directive leave the scan unchanged.
proof fn lemma_scan_quiet(src: Seq<char>, lo: int, hi: int)
    requires
        0 <= lo <= hi,
        forall|j: int| lo <= j < hi ==> #[trigger] line_directive(src, j) is None,
    ensures
        scan(src, hi) == scan(src, lo),
    decreases hi - lo,
{
    if lo < hi {
        lemma_scan_quiet(src, lo, hi - 1);
        assert(line_directive(src, hi - 1) is None);
    }
}

/// A source in which no line holds an `eslint-*` directive suppresses
/// nothing: no rule on any line.
pub proof fn law_no_directive_no_suppression(src: Seq<char>, rule: Seq<char>, line: int)
    requires
        forall|j: int| 0 <= j < line_ranges(src).len() ==> #[trigger] line_directive(src, j) is None,
    ensures
        spec_suppressions(src).len() == 0,
        !covered(spec_suppressions(src), rule, line),
{
    let n = line_ranges(src).len() as int;
    lemma_scan_quiet(src, 0, n);
    assert(spec_suppressions(src) =~= Seq::<RangeView>::empty());
}

/// When the only directive of a source is an `eslint-disable-next-line` on
/// the (1-based) line `k` listing `rules`, exactly lines `k` and `k + 1` are
/// suppressed, for the listed rules, or for every rule when none is listed.
pub proof fn law_single_next_line_directive(src: Seq<char>, k: int, rules: Seq<Seq<char>>, rule: Seq<char>, line: int)
    requires
        1 <= k <= line_ranges(src).len(),
        line_directive(src, k - 1) == Some((DirectiveKind::DisableNextLine, rules)),
        forall|j: int| 0 <= j < line_ranges(src).len() && j != k - 1 ==> #[trigger] line_directive(src, j) is None,
    ensures
        covered(spec_suppressions(src), rule, line)
            <==> (line == k || line == k + 1) && (rules.len() == 0 || rules.contains(rule)),
{
    let n = line_ranges(src).len() as int;
    lemma_scan_quiet(src, 0, k - 1);
    assert(scan(src, k) == step(scan(src, k - 1), k, (DirectiveKind::DisableNextLine, rules)));
    lemma_scan_quiet(src, k, n);
    let fin = spec_suppressions(src);
    assert(fin =~= ranges_for(rules, k, k + 1));
    if covered(fin, rule, line) {
        let i = choose|i: int| 0 <= i < fin.len() && #[trigger] fin[i].0 <= line && line <= fin[i].1
            && (fin[i].2 is None || fin[i].2 == Some(rule));
        if rules.len() > 0 {
            assert(rules[i] == rule);
        }
    }
    if (line == k || line == k + 1) && (rules.len() == 0 || rules.contains(rule)) {
        if rules.len() == 0 {
            assert(fin[0].0 <= line);
        } else {
            let i = choose|i: int| 0 <= i < rules.len() && rules[i] == rule;
            assert(fin[i].0 <= line);
        }
    }
}

/// The ranges of one block over lines `k..=m` for `rules` (one rule, or
/// none for every rule).
pub open spec fn block_covers(rules: Seq<Seq<char>>, k: int, m: int, rule: Seq<char>, line: int) -> bool {
    k <= line && line <= m && (rules.len() == 0 || rules[0] == rule)
}

/// When the only directives of a source are `eslint-disable` on the
/// (1-based) line `k` and `eslint-enable` on a later line `m`, both with the
/// same single rule or both bare, the rule (every rule, when bare) is
/// suppressed exactly on lines `k` to `m`.
pub proof fn law_disable_enable_block(src: Seq<char>, k: int, m: int, rules: Seq<Seq<char>>, rule: Seq<char>, line: int)
    requires
        1 <= k < m <= line_ranges(src).len(),
        rules.len() <= 1,
        line_directive(src, k - 1) == Some((DirectiveKind::Disable, rules)),
        line_directive(src, m - 1) == Some((DirectiveKind::Enable, rules)),
        forall|j: int| 0 <= j < line_ranges(src).len() && j != k - 1 && j != m - 1
            ==> #[trigger] line_directive(src, j) is None,
    ensures
        covered(spec_suppressions(src), rule, line) <==> block_covers(rules, k, m, rule, line),
{
    let n = line_ranges(src).len() as int;
    lemma_scan_quiet(src, 0, k - 1);
    let st1 = scan(src, k);
    assert(st1 == step(scan(src, k - 1), k, (DirectiveKind::Disable, rules)));
    assert(st1.0 =~= Seq::<RangeView>::empty());
    assert(st1.1 =~= opens_for(rules, k));
    lemma_scan_quiet(src, k, m - 1);
    let st2 = scan(src, m);
    assert(st2 == step(scan(src, m - 1), m, (DirectiveKind::Enable, rules)));
    if rules.len() == 0 {
        assert(st2.0 =~= seq![(k, m, None::<Seq<char>>)]);
        assert(st2.1 =~= Seq::<OpenView>::empty());
    } else {
        let a = rules[0];
        assert(rules.drop_last() =~= Seq::<Seq<char>>::empty());
        assert(close_each(st1, rules.drop_last(), m) == st1);
        assert(last_open_for(st1.1, a) == 0);
        assert(st2 == close_one(st1, a, m));
        assert(st2.0 =~= seq![(k, m, Some(a))]);
        assert(st2.1 =~= Seq::<OpenView>::empty());
    }
    lemma_scan_quiet(src, m, n);
    let fin = spec_suppressions(src);
    assert(fin =~= st2.0);
    if block_covers(rules, k, m, rule, line) {
        assert(fin[0].0 <= line);
    }
}

/// When the only directive of a source is `eslint-disable` on the (1-based)
/// line `k`, with one rule or bare, that rule (every rule, when bare) is
/// suppressed from line `k` to the end of the file.
pub proof fn law_disable_to_end_of_file(src: Seq<char>, k: int, rules: Seq<Seq<char>>, rule: Seq<char>, line: int)
    requires
        1 <= k <= line_ranges(src).len(),
        rules.len() <= 1,
        line_directive(src, k - 1) == Some((DirectiveKind::Disable, rules)),
        forall|j: int| 0 <= j < line_ranges(src).len() && j != k - 1 ==> #[trigger] line_directive(src, j) is None,
    ensures
        covered(spec_suppressions(src), rule, line) <==> block_covers(rules, k, u32::MAX as int, rule, line),
{
    let n = line_ranges(src).len() as int;
    lemma_scan_quiet(src, 0, k - 1);
    let st1 = scan(src, k);
    assert(st1 == step(scan(src, k - 1), k, (DirectiveKind::Disable, rules)));
    lemma_scan_quiet(src, k, n);
    let fin = spec_suppressions(src);
    if rules.len() == 0 {
        assert(fin =~= seq![(k, u32::MAX as int, None::<Seq<char>>)]);
    } else {
        assert(fin =~= seq![(k, u32::MAX as int, Some(rules[0]))]);
    }
    if block_covers(rules, k, u32::MAX as int, rule, line) {
        assert(fin[0].0 <= line);
    }
}


/// `Suppressions::from_source` on a source without any `eslint-*` directive
/// line gives a map in which `is_suppressed` is false for every rule on
/// every line. `s` is the map that `from_source(src)` returns.
pub proof fn law_from_source_without_directives(src: Seq<char>, s: Suppressions, rule: Seq<char>, line: int)
    requires
        s.ranges_view() == spec_suppressions(src),
        forall|j: int| 0 <= j < line_ranges(src).len() ==> #[trigger] line_directive(src, j) is None,
    ensures
        !covered(s.ranges_view(), rule, line),
{
    law_no_directive_no_suppression(src, rule, line);
}

/// `Suppressions::from_source` on a source whose only directive is
/// `# eslint-disable-next-line`, listing `rules`, on the (1-based) line `k`:
/// `is_suppressed(rule, line)` holds exactly on lines `k` and `k + 1`, for a
/// listed rule, or for every rule when none is listed.
pub proof fn law_from_source_single_next_line(
    src: Seq<char>,
    s: Suppressions,
    k: int,
    rules: Seq<Seq<char>>,
    rule: Seq<char>,
    line: int,
)
    requires
        s.ranges_view() == spec_suppressions(src),
        1 <= k <= line_ranges(src).len(),
        line_directive(src, k - 1) == Some((DirectiveKind::DisableNextLine, rules)),
        forall|j: int| 0 <= j < line_ranges(src).len() && j != k - 1 ==> #[trigger] line_directive(src, j) is None,
    ensures
        covered(s.ranges_view(), rule, line)
            <==> (line == k || line == k + 1) && (rules.len() == 0 || rules.contains(rule)),
{
    law_single_next_line_directive(src, k, rules, rule, line);
}

/// `Suppressions::from_source` on a source whose only directives are
/// `# eslint-disable` on the (1-based) line `k` and `# eslint-enable` on a
/// later line `m`, both naming the same rule or both bare:
/// `is_suppressed(rule, line)` holds exactly for that rule (every rule, when
/// bare) on lines `k` to `m`.
pub proof fn law_from_source_disable_enable_pair(
    src: Seq<char>,
    s: Suppressions,
    k: int,
    m: int,
    rules: Seq<Seq<char>>,
    rule: Seq<char>,
    line: int,
)
    requires
        s.ranges_view() == spec_suppressions(src),
        1 <= k < m <= line_ranges(src).len(),
        rules.len() <= 1,
        line_directive(src, k - 1) == Some((DirectiveKind::Disable, rules)),
        line_directive(src, m - 1) == Some((DirectiveKind::Enable, rules)),
        forall|j: int| 0 <= j < line_ranges(src).len() && j != k - 1 && j != m - 1
            ==> #[trigger] line_directive(src, j) is None,
    ensures
        covered(s.ranges_view(), rule, line) <==> block_covers(rules, k, m, rule, line),
{
    law_disable_enable_block(src, k, m, rules, rule, line);
}

/// `Suppressions::from_source` on a source whose only directive is
/// `# eslint-disable` on the (1-based) line `k`, naming one rule or bare:
/// `is_suppressed(rule, line)` holds exactly for that rule (every rule, when
/// bare) from line `k` to the end of the file.
pub proof fn law_from_source_disable_to_end(
    src: Seq<char>,
    s: Suppressions,
    k: int,
    rules: Seq<Seq<char>>,
    rule: Seq<char>,
    line: int,
)
    requires
        s.ranges_view() == spec_suppressions(src),
        1 <= k <= line_ranges(src).len(),
        rules.len() <= 1,
        line_directive(src, k - 1) == Some((DirectiveKind::Disable, rules)),
        forall|j: int| 0 <= j < line_ranges(src).len() && j != k - 1 ==> #[trigger] line_directive(src, j) is None,
    ensures
        covered(s.ranges_view(), rule, line) <==> block_covers(rules, k, u32::MAX as int, rule, line),
{
    law_disable_to_end_of_file(src, k, rules, rule, line);
}

} // verus!
