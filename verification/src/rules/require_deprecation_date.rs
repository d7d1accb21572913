//! The `requireDeprecationDate` lint rule.
use vstd::prelude::*;
use crate::diagnostics::{CodeFix, DiagnosticView, LintDiagnostic, LintSeverity, OffsetRange, SourceSpan};
use crate::schema::{
    file_diags_view, span_of, ArgumentDef, DirectiveUsage, EnumValue, FieldSignature, FileDiagnostic,
    FileDiagnosticView, TypeDef,
};
use crate::text::{
    first_satisfying, lemma_first_satisfying_stable, pairs_view, range_to_string, split_range,
    split_ranges, split_scan, str_eq, to_chars,
};

verus! {

/// Lint rule that requires a deletion date on `@deprecated` directives.
///
/// Mirrors graphql-eslint:
///   - Reads the date from a dedicated `deletionDate` argument (configurable)
///     on the directive — not from a substring of the `reason`.
///   - Validates the date is in `DD/MM/YYYY` format.
///   - Validates the date is real (e.g. rejects `99/13/2025`).
///   - When the deletion date is in the past, emits a "can be removed"
///     diagnostic so teams know the field is overdue for removal.
pub struct RequireDeprecationDateRuleImpl;

impl RequireDeprecationDateRuleImpl {
    /// The rule's identifier.
    pub fn name(&self) -> (s: &'static str)
        ensures
            s@ == "requireDeprecationDate"@,
    {
        "requireDeprecationDate"
    }

    /// What the rule checks.
    pub fn description(&self) -> (s: &'static str)
        ensures
            s@ == "Requires @deprecated directives to include a deletion date"@,
    {
        "Requires @deprecated directives to include a deletion date"
    }

    /// The severity the rule reports with unless configured otherwise.
    pub fn default_severity(&self) -> (s: LintSeverity)
        ensures
            s == LintSeverity::Warning,
    {
        LintSeverity::Warning
    }
}

/// Options for the `requireDeprecationDate` rule.
#[derive(Debug, Clone)]
pub struct RequireDeprecationDateOptions {
    /// The directive argument that holds the deletion date.
    pub argument_name: String,
}

impl Default for RequireDeprecationDateOptions {
    fn default() -> (r: Self)
        ensures
            r.argument_name@ == "deletionDate"@,
    {
        RequireDeprecationDateOptions { argument_name: "deletionDate".to_owned() }
    }
}

/// `s` has the shape `DD/MM/YYYY`: ten characters, `/` at the third and
/// sixth, decimal digits elsewhere.
pub open spec fn spec_valid_date_format(s: Seq<char>) -> bool {
    &&& s.len() == 10
    &&& s[2] == '/' && s[5] == '/'
    &&& forall|k: int| 0 <= k < 10 && k != 2 && k != 5 ==> is_dec_digit(#[trigger] s[k])
}

/// Validates the `DD/MM/YYYY` shape.
pub fn is_valid_date_format(s: &str) -> (r: bool)
    ensures
        r == spec_valid_date_format(s@),
{
    let v = to_chars(s);
    if v.len() != 10 {
        return false;
    }
    if v[2] != '/' || v[5] != '/' {
        return false;
    }
    let mut k: usize = 0;
    while k < 10
        invariant
            0 <= k <= 10,
            v@.len() == 10,
            v@ == s@,
            forall|j: int| 0 <= j < k && j != 2 && j != 5 ==> is_dec_digit(#[trigger] v@[j]),
        decreases 10 - k,
    {
        if k != 2 && k != 5 {
            let c = v[k];
            if !('0' <= c && c <= '9') {
                assert(!is_dec_digit(v@[k as int]));
                return false;
            }
        }
        k += 1;
    }
    true
}

/// A decimal digit character.
pub open spec fn is_dec_digit(c: char) -> bool {
    '0' <= c <= '9'
}

/// All characters of `s` are decimal digits.
pub open spec fn all_dec_digits(s: Seq<char>) -> bool {
    forall|k: int| 0 <= k < s.len() ==> is_dec_digit(#[trigger] s[k])
}

/// The number that the decimal digits `s` denote.
pub open spec fn dec_value(s: Seq<char>) -> nat
    decreases s.len(),
{
    if s.len() == 0 {
        0
    } else {
        dec_value(s.drop_last()) * 10 + ((s.last() as u32 - '0' as u32) as nat)
    }
}

/// `s` read as `str::parse::<u32>` reads it: an optional `+`, then one or
/// more decimal digits, with a value that fits in `u32`.
pub open spec fn spec_parse_u32(s: Seq<char>) -> Option<nat> {
    let t = if s.len() > 0 && s[0] == '+' { s.drop_first() } else { s };
    if t.len() == 0 || !all_dec_digits(t) || dec_value(t) > u32::MAX {
        None
    } else {
        Some(dec_value(t))
    }
}

/// `s` read as `str::parse::<i32>` reads it: an optional sign, then one or
/// more decimal digits, with a value that fits in `i32`.
pub open spec fn spec_parse_i32(s: Seq<char>) -> Option<int> {
    let neg = s.len() > 0 && s[0] == '-';
    let t = if s.len() > 0 && (s[0] == '+' || s[0] == '-') { s.drop_first() } else { s };
    if t.len() == 0 || !all_dec_digits(t) {
        None
    } else {
        let v: int = if neg { -(dec_value(t) as int) } else { dec_value(t) as int };
        if i32::MIN <= v <= i32::MAX { Some(v) } else { None }
    }
}

proof fn lemma_dec_value_prefix(s: Seq<char>, i: int)
    requires
        0 <= i <= s.len(),
        all_dec_digits(s),
    ensures
        dec_value(s.take(i)) <= dec_value(s),
    decreases s.len() - i,
{
    if i < s.len() {
        lemma_dec_value_prefix(s, i + 1);
        assert(s.take(i + 1).drop_last() =~= s.take(i));
        assert(s.take(i + 1).last() == s[i]);
    } else {
        assert(s.take(i) =~= s);
    }
}

/// Reads the decimal digits `v[lo..hi)`; `None` when one is not a digit,
/// the range is empty, or the value exceeds `limit`.
fn parse_digits(v: &Vec<char>, lo: usize, hi: usize, limit: u64) -> (r: Option<u64>)
    requires
        lo <= hi <= v.len(),
        limit <= u32::MAX + 1,
    ensures
        match r {
            Some(x) => lo < hi && all_dec_digits(v@.subrange(lo as int, hi as int))
                && x == dec_value(v@.subrange(lo as int, hi as int)) && x <= limit,
            None => lo == hi || !all_dec_digits(v@.subrange(lo as int, hi as int))
                || dec_value(v@.subrange(lo as int, hi as int)) > limit,
        },
{
    if lo == hi {
        return None;
    }
    let ghost t = v@.subrange(lo as int, hi as int);
    let mut acc: u64 = 0;
    let mut i = lo;
    while i < hi
        invariant
            lo <= i <= hi <= v.len(),
            t == v@.subrange(lo as int, hi as int),
            acc <= limit,
            limit <= u32::MAX + 1,
            all_dec_digits(t.take(i - lo)),
            acc == dec_value(t.take(i - lo)),
        decreases hi - i,
    {
        let c = v[i];
        if !('0' <= c && c <= '9') {
            assert(!is_dec_digit(t[i - lo]));
            return None;
        }
        let d = (c as u32 - '0' as u32) as u64;
        assert(t.take(i - lo + 1).drop_last() =~= t.take(i - lo));
        assert(t.take(i - lo + 1).last() == c);
        acc = acc * 10 + d;
        i += 1;
        assert(all_dec_digits(t.take(i - lo)));
        if acc > limit {
            proof {
                if all_dec_digits(t) {
                    lemma_dec_value_prefix(t, i - lo);
                }
            }
            return None;
        }
    }
    assert(t.take(hi - lo) =~= t);
    Some(acc)
}

/// `str::parse::<u32>` on the characters `v[lo..hi)`.
fn parse_u32_range(v: &Vec<char>, lo: usize, hi: usize) -> (r: Option<u32>)
    requires
        lo <= hi <= v.len(),
    ensures
        match (r, spec_parse_u32(v@.subrange(lo as int, hi as int))) {
            (Some(x), Some(y)) => x == y,
            (None, None) => true,
            _ => false,
        },
{
    let ghost s = v@.subrange(lo as int, hi as int);
    let start = if lo < hi && v[lo] == '+' { lo + 1 } else { lo };
    assert(v@.subrange(start as int, hi as int) =~= (if s.len() > 0 && s[0] == '+' { s.drop_first() } else { s }));
    match parse_digits(v, start, hi, 0xffff_ffffu64) {
        Some(x) => Some(x as u32),
        None => None,
    }
}

/// `str::parse::<i32>` on the characters `v[lo..hi)`.
fn parse_i32_range(v: &Vec<char>, lo: usize, hi: usize) -> (r: Option<i32>)
    requires
        lo <= hi <= v.len(),
    ensures
        match (r, spec_parse_i32(v@.subrange(lo as int, hi as int))) {
            (Some(x), Some(y)) => x == y,
            (None, None) => true,
            _ => false,
        },
{
    let ghost s = v@.subrange(lo as int, hi as int);
    let neg = lo < hi && v[lo] == '-';
    let start = if lo < hi && (v[lo] == '+' || v[lo] == '-') { lo + 1 } else { lo };
    assert(v@.subrange(start as int, hi as int) =~= (if s.len() > 0 && (s[0] == '+' || s[0] == '-') { s.drop_first() } else { s }));
    let limit: u64 = if neg { 0x8000_0000u64 } else { 0x7fff_ffffu64 };
    match parse_digits(v, start, hi, limit) {
        Some(x) => {
            if neg {
                if x == 0x8000_0000u64 {
                    Some(i32::MIN)
                } else {
                    Some(-(x as i32))
                }
            } else {
                Some(x as i32)
            }
        },
        None => None,
    }
}

/// Gregorian leap year.
pub open spec fn spec_is_leap_year(year: int) -> bool {
    (year % 4 == 0 && year % 100 != 0) || year % 400 == 0
}

/// Whether `year` is a Gregorian leap year.
pub fn is_leap_year(year: i32) -> (r: bool)
    ensures
        r == spec_is_leap_year(year as int),
{
    let a: u64 = if year >= 0 { year as u64 } else { (-(year as i64)) as u64 };
    proof {
        let y = year as int;
        assert(a as int == y || a as int == -y);
        assert(((-y) % 4 == 0) == (y % 4 == 0)) by (nonlinear_arith);
        assert(((-y) % 100 == 0) == (y % 100 == 0)) by (nonlinear_arith);
        assert(((-y) % 400 == 0) == (y % 400 == 0)) by (nonlinear_arith);
    }
    (a % 4 == 0 && a % 100 != 0) || a % 400 == 0
}

/// Days in `month` of `year`, when `month` is 1 to 12.
pub open spec fn spec_days_in_month(year: int, month: int) -> Option<int> {
    if month == 1 || month == 3 || month == 5 || month == 7 || month == 8 || month == 10 || month == 12 {
        Some(31)
    } else if month == 4 || month == 6 || month == 9 || month == 11 {
        Some(30)
    } else if month == 2 {
        Some(if spec_is_leap_year(year) { 29 } else { 28 })
    } else {
        None
    }
}

/// Days in the given month of the given year (Gregorian).
pub fn days_in_month(year: i32, month: u32) -> (r: Option<u32>)
    ensures
        match (r, spec_days_in_month(year as int, month as int)) {
            (Some(x), Some(y)) => x == y,
            (None, None) => true,
            _ => false,
        },
{
    match month {
        1 | 3 | 5 | 7 | 8 | 10 | 12 => Some(31),
        4 | 6 | 9 | 11 => Some(30),
        2 => Some(if is_leap_year(year) { 29 } else { 28 }),
        _ => None,
    }
}

/// Days in a year.
pub open spec fn year_length(y: int) -> int {
    if spec_is_leap_year(y) { 366 } else { 365 }
}

/// Days in the years `from` up to, not including, `to`.
pub open spec fn years_days(from: int, to: int) -> int
    decreases to - from,
{
    if to <= from { 0 } else { years_days(from, to - 1) + year_length(to - 1) }
}

/// Days in the months before `month` of `year` (months past December count
/// no days).
pub open spec fn months_days(year: int, month: int) -> int
    decreases month,
{
    if month <= 1 {
        0
    } else {
        months_days(year, month - 1) + match spec_days_in_month(year, month - 1) {
            Some(d) => d,
            None => 0,
        }
    }
}

/// Days from 1970-01-01 to the given date (negative before it).
pub open spec fn spec_days_from_epoch(year: int, month: int, day: int) -> int {
    (if year >= 1970 { years_days(1970, year) } else { -years_days(year, 1970) })
        + months_days(year, month) + day - 1
}

proof fn lemma_years_days_bounds(from: int, to: int)
    requires
        from <= to,
    ensures
        0 <= years_days(from, to) <= 366 * (to - from),
    decreases to - from,
{
    if to > from {
        lemma_years_days_bounds(from, to - 1);
    }
}

proof fn lemma_months_days_bounds(year: int, month: int)
    ensures
        0 <= months_days(year, month) <= 31 * 12,
    decreases month,
{
    if month > 1 {
        lemma_months_days_bounds(year, month - 1);
        if month <= 13 {
            lemma_months_days_small(year, month);
        }
    }
}

proof fn lemma_months_days_small(year: int, month: int)
    requires
        1 <= month <= 13,
    ensures
        0 <= months_days(year, month) <= 31 * (month - 1),
    decreases month,
{
    if month > 1 {
        lemma_months_days_small(year, month - 1);
    }
}

/// Days from 1970-01-01 (UTC) to the given date; negative before it.
pub fn days_from_epoch(year: i32, month: u32, day: u32) -> (r: i64)
    ensures
        r == spec_days_from_epoch(year as int, month as int, day as int),
{
    let mut total: i64 = 0;
    if year >= 1970 {
        let mut y: i32 = 1970;
        while y < year
            invariant
                1970 <= y <= year,
                total == years_days(1970, y as int),
                0 <= total <= 366 * (y - 1970),
            decreases year - y,
        {
            proof { lemma_years_days_bounds(1970, y as int); }
            total += if is_leap_year(y) { 366 } else { 365 };
            y += 1;
        }
    } else {
        let mut y: i32 = year;
        while y < 1970
            invariant
                year <= y <= 1970,
                total == -years_days(year as int, y as int),
                -366 * (y - year) <= total <= 0,
            decreases 1970 - y,
        {
            total -= if is_leap_year(y) { 366 } else { 365 };
            y += 1;
        }
    }
    let ghost base = if year >= 1970 { years_days(1970, year as int) } else { -years_days(year as int, 1970) };
    assert(total == base);
    let mut m: u32 = 1;
    let mut mdays: i64 = 0;
    while m < month
        invariant
            total == base,
            -366 * 0x1_0000_0000 <= total <= 366 * 0x1_0000_0000,
            1 <= m,
            m <= month || m == 1,
            mdays == months_days(year as int, m as int),
            0 <= mdays <= 31 * 12,
        decreases month - m,
    {
        proof { lemma_months_days_bounds(year as int, m as int + 1); }
        let d: i64 = match days_in_month(year, m) {
            Some(x) => x as i64,
            None => 0,
        };
        mdays += d;
        m += 1;
    }
    assert(mdays == months_days(year as int, m as int));
    proof {
        if month == 0 {
            assert(months_days(year as int, 0) == 0);
            assert(months_days(year as int, 1) == 0);
            assert(m == 1);
        } else {
            assert(m == month);
        }
    }
    assert(mdays == months_days(year as int, month as int));
    total + mdays + day as i64 - 1
}

/// The date `DD/MM/YYYY` that `s` names, as days since 1970-01-01: `s` split
/// at `/` into exactly three parts, read as `u32`, `u32` and `i32` by
/// `str::parse`, forming a real calendar date.
pub open spec fn spec_date_days(s: Seq<char>) -> Option<int> {
    let p = split_ranges(s, 0, s.len() as int, '/');
    if p.len() != 3 {
        None
    } else {
        match (
            spec_parse_u32(s.subrange(p[0].0, p[0].1)),
            spec_parse_u32(s.subrange(p[1].0, p[1].1)),
            spec_parse_i32(s.subrange(p[2].0, p[2].1)),
        ) {
            (Some(d), Some(m), Some(y)) => if 1 <= m <= 12 {
                match spec_days_in_month(y, m as int) {
                    Some(md) => if 1 <= d <= md { Some(spec_days_from_epoch(y, m as int, d as int)) } else { None },
                    None => None,
                }
            } else {
                None
            },
            _ => None,
        }
    }
}

/// Milliseconds in a day.
pub open spec fn ms_per_day() -> int {
    86_400_000
}

/// Parses a `DD/MM/YYYY` date into milliseconds since the UNIX epoch, when
/// it names a real calendar date.
pub fn parse_dd_mm_yyyy(s: &str) -> (r: Option<i64>)
    requires
        spec_date_days(s@) matches Some(d) ==> i64::MIN <= d * ms_per_day() <= i64::MAX,
    ensures
        match (r, spec_date_days(s@)) {
            (Some(x), Some(d)) => x == d * ms_per_day(),
            (None, None) => true,
            _ => false,
        },
{
    let v = to_chars(s);
    let parts = split_range(&v, 0, v.len(), '/');
    if parts.len() != 3 {
        return None;
    }
    let (a0, b0) = parts[0];
    let (a1, b1) = parts[1];
    let (a2, b2) = parts[2];
    let day = match parse_u32_range(&v, a0, b0) {
        Some(x) => x,
        None => return None,
    };
    let month = match parse_u32_range(&v, a1, b1) {
        Some(x) => x,
        None => return None,
    };
    let year = match parse_i32_range(&v, a2, b2) {
        Some(x) => x,
        None => return None,
    };
    if !(1 <= month && month <= 12) {
        return None;
    }
    let max_day = match days_in_month(year, month) {
        Some(x) => x,
        None => return None,
    };
    if day < 1 || day > max_day {
        return None;
    }
    let days = days_from_epoch(year, month, day);
    Some(days * 86_400_000)
}

/// Ten to the power `n`.
pub open spec fn pow10(n: nat) -> nat
    decreases n,
{
    if n == 0 { 1 } else { 10 * pow10((n - 1) as nat) }
}

proof fn lemma_dec_value_bound(t: Seq<char>)
    requires
        all_dec_digits(t),
    ensures
        dec_value(t) < pow10(t.len()),
    decreases t.len(),
{
    if t.len() > 0 {
        assert(all_dec_digits(t.drop_last()));
        lemma_dec_value_bound(t.drop_last());
        assert(is_dec_digit(t[t.len() - 1]));
    }
}

/// A date of the `DD/MM/YYYY` shape is at most a few thousand years from
/// 1970, so its millisecond timestamp fits in `i64`.
pub proof fn lemma_valid_format_date_fits(s: Seq<char>)
    requires
        spec_valid_date_format(s),
    ensures
        spec_date_days(s) matches Some(d) ==> i64::MIN <= d * ms_per_day() <= i64::MAX,
{
    assert(!is_dec_digit('/'));
    assert(s[0] != '/' && s[1] != '/' && s[3] != '/' && s[4] != '/');
    assert(s[6] != '/' && s[7] != '/' && s[8] != '/' && s[9] != '/') by {
        assert(is_dec_digit(s[6]) && is_dec_digit(s[7]) && is_dec_digit(s[8]) && is_dec_digit(s[9]));
    }
    assert(is_dec_digit(s[0]) && is_dec_digit(s[1]) && is_dec_digit(s[3]) && is_dec_digit(s[4]));
    reveal_with_fuel(split_scan, 12);
    let p = split_ranges(s, 0, 10, '/');
    assert(p =~= seq![(0int, 2int), (3int, 5int), (6int, 10int)]);
    let ys = s.subrange(6, 10);
    if let Some(d) = spec_date_days(s) {
        let y = spec_parse_i32(ys).unwrap();
        let t = if ys.len() > 0 && (ys[0] == '+' || ys[0] == '-') { ys.drop_first() } else { ys };
        assert(t =~= ys);
        lemma_dec_value_bound(t);
        reveal_with_fuel(pow10, 5);
        assert(0 <= y < 10000);
        if y >= 1970 {
            lemma_years_days_bounds(1970, y);
        } else {
            lemma_years_days_bounds(y, 1970);
        }
        let m = spec_parse_u32(s.subrange(3, 5)).unwrap();
        lemma_months_days_bounds(y, m as int);
        assert(-366 * 2000 - 1 <= d <= 366 * 10000 + 31 * 12 + 0xffff_ffff);
        assert(i64::MIN <= d * ms_per_day() <= i64::MAX) by (nonlinear_arith)
            requires
                -366 * 2000 - 1 <= d <= 366 * 10000 + 31 * 12 + 0xffff_ffff;
    }
}

/// The content of a string value written with double quotes: `s` without
/// its first and last character, when both are `"` and `s` has at least
/// two characters.
pub open spec fn spec_unquote(s: Seq<char>) -> Option<Seq<char>> {
    if s.len() >= 2 && s[0] == '"' && s.last() == '"' {
        Some(s.subrange(1, s.len() - 1))
    } else {
        None
    }
}

/// Strips the surrounding double quotes from a directive argument's value
/// as written (a string value keeps its quotes).
pub fn unquote_string(s: &str) -> (r: Option<String>)
    ensures
        match (r, spec_unquote(s@)) {
            (Some(x), Some(y)) => x@ == y,
            (None, None) => true,
            _ => false,
        },
{
    let v = to_chars(s);
    if v.len() >= 2 && v[0] == '"' && v[v.len() - 1] == '"' {
        Some(range_to_string(&v, 1, v.len() - 1))
    } else {
        None
    }
}

/// `field "<f>" in type "<t>"`
pub open spec fn field_label(f: Seq<char>, t: Seq<char>) -> Seq<char> {
    "field \""@ + f + "\" in type \""@ + t + "\""@
}

/// `input value "<a>" in field "<f>"`
pub open spec fn input_value_label(a: Seq<char>, f: Seq<char>) -> Seq<char> {
    "input value \""@ + a + "\" in field \""@ + f + "\""@
}

/// `enum value "<v>" in enum "<t>"`
pub open spec fn enum_value_label(v: Seq<char>, t: Seq<char>) -> Seq<char> {
    "enum value \""@ + v + "\" in enum \""@ + t + "\""@
}

/// The node a `@deprecated` directive is applied to, for messages.
pub enum NodeKind<'a> {
    Field { field: &'a str, parent: &'a str },
    InputValue { arg: &'a str, field: &'a str },
    EnumValue { value: &'a str, parent: &'a str },
}

impl<'a> NodeKind<'a> {
    /// How messages name the node.
    pub open spec fn spec_render(&self) -> Seq<char> {
        match self {
            NodeKind::Field { field, parent } => field_label(field@, parent@),
            NodeKind::InputValue { arg, field } => input_value_label(arg@, field@),
            NodeKind::EnumValue { value, parent } => enum_value_label(value@, parent@),
        }
    }

    /// The node's own name.
    pub open spec fn spec_bare_name(&self) -> Seq<char> {
        match self {
            NodeKind::Field { field, .. } => field@,
            NodeKind::InputValue { arg, .. } => arg@,
            NodeKind::EnumValue { value, .. } => value@,
        }
    }

    /// Names the node as messages do, e.g. `field "x" in type "T"`.
    pub fn render(&self) -> (r: String)
        ensures
            r@ == self.spec_render(),
    {
        let (a, b, c, d) = match self {
            NodeKind::Field { field, parent } => ("field \"", *field, "\" in type \"", *parent),
            NodeKind::InputValue { arg, field } => ("input value \"", *arg, "\" in field \"", *field),
            NodeKind::EnumValue { value, parent } => ("enum value \"", *value, "\" in enum \"", *parent),
        };
        let mut r = a.to_owned();
        r.append(b);
        r.append(c);
        r.append(d);
        r.append("\"");
        r
    }

    /// The node's own name (field, argument or enum value).
    pub fn bare_name(&self) -> (r: &str)
        ensures
            r@ == self.spec_bare_name(),
    {
        match self {
            NodeKind::Field { field, .. } => field,
            NodeKind::InputValue { arg, .. } => arg,
            NodeKind::EnumValue { value, .. } => value,
        }
    }
}

/// Index of the first argument of `d` named `name`.
pub open spec fn arg_index(d: DirectiveUsage, name: Seq<char>) -> Option<int> {
    first_satisfying(d.arguments@.len() as int, |k: int| d.arguments@[k].name@ == name)
}

/// A warning of this rule.
pub open spec fn date_warning(r: OffsetRange, message: Seq<char>) -> DiagnosticView {
    (span_of(r), LintSeverity::Warning, message, "requireDeprecationDate"@, None)
}

/// What the rule reports for the `@deprecated` directive `d` on `node`,
/// whose definition spans `def`, at time `now` (milliseconds since the
/// epoch): a missing date argument, a date not in `DD/MM/YYYY` form, a date
/// that is no calendar date, or a date already past (with a fix that
/// removes the definition when its range is not empty).
pub open spec fn spec_diagnose(d: DirectiveUsage, argument_name: Seq<char>, node: Seq<char>, bare: Seq<char>, def: OffsetRange, now: int) -> Option<DiagnosticView> {
    match arg_index(d, argument_name) {
        None => Some(date_warning(d.name_range, "Directive \"@deprecated\" must have a deletion date for "@ + node)),
        Some(i) => {
            let arg = d.arguments@[i];
            match spec_unquote(arg.value@) {
                Some(ds) if spec_valid_date_format(ds) => match spec_date_days(ds) {
                    None => Some(date_warning(arg.value_range, "Invalid \""@ + ds + "\" deletion date for "@ + node)),
                    Some(days) => if now > days * ms_per_day() {
                        let w = date_warning(d.name_range, node + " \u{0441}an be removed"@);
                        if def.start < def.end {
                            Some((w.0, w.1, w.2, w.3, Some(("Remove `"@ + bare + "`"@, seq![(def.start as int, def.end as int, Seq::<char>::empty())]))))
                        } else {
                            Some(w)
                        }
                    } else {
                        None
                    },
                },
                _ => Some(date_warning(arg.value_range, "Deletion date must be in format \"DD/MM/YYYY\" for "@ + node)),
            }
        },
    }
}

fn find_arg(d: &DirectiveUsage, name: &str) -> (r: Option<usize>)
    ensures
        match (r, arg_index(*d, name@)) {
            (Some(i), Some(j)) => i == j,
            (None, None) => true,
            _ => false,
        },
        r matches Some(i) ==> i < d.arguments@.len(),
{
    let ghost p = |k: int| d.arguments@[k].name@ == name@;
    let mut k: usize = 0;
    while k < d.arguments.len()
        invariant
            0 <= k <= d.arguments@.len(),
            first_satisfying(k as int, p) is None,
            p == (|k: int| d.arguments@[k].name@ == name@),
        decreases d.arguments@.len() - k,
    {
        if str_eq(d.arguments[k].name.as_str(), name) {
            proof {
                assert(p(k as int));
                assert(first_satisfying(k as int + 1, p) == Some(k as int));
                lemma_first_satisfying_stable(k as int + 1, d.arguments@.len() as int, p);
            }
            return Some(k);
        }
        k += 1;
    }
    None
}

fn warning(r: OffsetRange, message: &str) -> (d: LintDiagnostic)
    ensures
        d.view() == date_warning(r, message@),
{
    LintDiagnostic::new(SourceSpan::new(r.start, r.end), LintSeverity::Warning, message, "requireDeprecationDate")
}

/// Checks one `@deprecated` directive `deprecated` applied to `node`, whose
/// definition spans `parent_def_range`, against the deletion date argument
/// `argument_name`, at time `now_ms`.
pub fn diagnose(
    deprecated: &DirectiveUsage,
    argument_name: &str,
    node: &NodeKind<'_>,
    parent_def_range: OffsetRange,
    now_ms: i64,
) -> (r: Option<LintDiagnostic>)
    ensures
        match (r, spec_diagnose(*deprecated, argument_name@, node.spec_render(), node.spec_bare_name(), parent_def_range, now_ms as int)) {
            (Some(x), Some(y)) => x.view() == y,
            (None, None) => true,
            _ => false,
        },
{
    let node_name = node.render();
    let idx = match find_arg(deprecated, argument_name) {
        None => {
            let mut m = "Directive \"@deprecated\" must have a deletion date for ".to_owned();
            m.append(node_name.as_str());
            return Some(warning(deprecated.name_range, m.as_str()));
        },
        Some(i) => i,
    };
    let arg = &deprecated.arguments[idx];
    let date = match unquote_string(arg.value.as_str()) {
        Some(x) => x,
        None => {
            let mut m = "Deletion date must be in format \"DD/MM/YYYY\" for ".to_owned();
            m.append(node_name.as_str());
            return Some(warning(arg.value_range, m.as_str()));
        },
    };
    if !is_valid_date_format(date.as_str()) {
        let mut m = "Deletion date must be in format \"DD/MM/YYYY\" for ".to_owned();
        m.append(node_name.as_str());
        return Some(warning(arg.value_range, m.as_str()));
    }
    proof {
        lemma_valid_format_date_fits(date@);
    }
    let deletion_ms = match parse_dd_mm_yyyy(date.as_str()) {
        Some(x) => x,
        None => {
            let mut m = "Invalid \"".to_owned();
            m.append(date.as_str());
            m.append("\" deletion date for ");
            m.append(node_name.as_str());
            return Some(warning(arg.value_range, m.as_str()));
        },
    };
    if now_ms > deletion_ms {
        let mut m = node_name.clone();
        m.append(" \u{0441}an be removed");
        let w = warning(deprecated.name_range, m.as_str());
        if parent_def_range.start < parent_def_range.end {
            let mut label = "Remove `".to_owned();
            label.append(node.bare_name());
            label.append("`");
            let fix = CodeFix::delete(label.as_str(), parent_def_range.start, parent_def_range.end);
            let w2 = w.with_fix(fix);
            assert(w2.view().4 == Some(("Remove `"@ + node.spec_bare_name() + "`"@, seq![(parent_def_range.start as int, parent_def_range.end as int, Seq::<char>::empty())])));
            return Some(w2);
        }
        return Some(w);
    }
    None
}

/// Index of the first `@deprecated` among `ds`.
pub open spec fn deprecated_index(ds: Seq<DirectiveUsage>) -> Option<int> {
    first_satisfying(ds.len() as int, |k: int| ds[k].name@ == "deprecated"@)
}

/// What the rule reports for a node with directives `ds`.
pub open spec fn node_report(ds: Seq<DirectiveUsage>, argument_name: Seq<char>, node: Seq<char>, bare: Seq<char>, def: OffsetRange, now: int) -> Option<DiagnosticView> {
    match deprecated_index(ds) {
        Some(i) => spec_diagnose(ds[i], argument_name, node, bare, def, now),
        None => None,
    }
}

/// A report, if any, attached to `file`.
pub open spec fn in_file(file: u64, o: Option<DiagnosticView>) -> Seq<FileDiagnosticView> {
    match o {
        Some(v) => seq![(file, v)],
        None => seq![],
    }
}

/// Reports for the arguments `args` of field `f` of a type in `file`.
pub open spec fn args_reports(file: u64, f: Seq<char>, args: Seq<ArgumentDef>, an: Seq<char>, now: int) -> Seq<FileDiagnosticView>
    decreases args.len(),
{
    if args.len() == 0 {
        seq![]
    } else {
        let a = args.last();
        args_reports(file, f, args.drop_last(), an, now)
            + in_file(file, node_report(a.directives@, an, input_value_label(a.name@, f), a.name@, a.definition_range, now))
    }
}

/// Reports for the fields `fs` of type `t`, each followed by its arguments'.
pub open spec fn fields_reports(t: TypeDef, fs: Seq<FieldSignature>, an: Seq<char>, now: int) -> Seq<FileDiagnosticView>
    decreases fs.len(),
{
    if fs.len() == 0 {
        seq![]
    } else {
        let f = fs.last();
        fields_reports(t, fs.drop_last(), an, now)
            + in_file(t.file_id, node_report(f.directives@, an, field_label(f.name@, t.name@), f.name@, f.definition_range, now))
            + args_reports(t.file_id, f.name@, f.arguments@, an, now)
    }
}

/// Reports for the enum values `vs` of type `t`.
pub open spec fn enum_values_reports(t: TypeDef, vs: Seq<EnumValue>, an: Seq<char>, now: int) -> Seq<FileDiagnosticView>
    decreases vs.len(),
{
    if vs.len() == 0 {
        seq![]
    } else {
        let v = vs.last();
        enum_values_reports(t, vs.drop_last(), an, now)
            + in_file(t.file_id, node_report(v.directives@, an, enum_value_label(v.name@, t.name@), v.name@, v.definition_range, now))
    }
}

/// Reports for the types `ts`: per type, its fields (with their arguments),
/// then its enum values.
pub open spec fn types_reports(ts: Seq<TypeDef>, an: Seq<char>, now: int) -> Seq<FileDiagnosticView>
    decreases ts.len(),
{
    if ts.len() == 0 {
        seq![]
    } else {
        let t = ts.last();
        types_reports(ts.drop_last(), an, now) + fields_reports(t, t.fields@, an, now) + enum_values_reports(t, t.enum_values@, an, now)
    }
}

/// The first `@deprecated` directive among `ds`.
fn find_deprecated(ds: &Vec<DirectiveUsage>) -> (r: Option<usize>)
    ensures
        match (r, deprecated_index(ds@)) {
            (Some(i), Some(j)) => i == j,
            (None, None) => true,
            _ => false,
        },
        r matches Some(i) ==> i < ds@.len(),
{
    let ghost p = |k: int| ds@[k].name@ == "deprecated"@;
    let mut k: usize = 0;
    while k < ds.len()
        invariant
            0 <= k <= ds@.len(),
            first_satisfying(k as int, p) is None,
            p == (|k: int| ds@[k].name@ == "deprecated"@),
        decreases ds@.len() - k,
    {
        if str_eq(ds[k].name.as_str(), "deprecated") {
            proof {
                assert(p(k as int));
                assert(first_satisfying(k as int + 1, p) == Some(k as int));
                lemma_first_satisfying_stable(k as int + 1, ds@.len() as int, p);
            }
            return Some(k);
        }
        k += 1;
    }
    None
}

fn report_node(
    ds: &Vec<DirectiveUsage>,
    argument_name: &str,
    node: &NodeKind<'_>,
    def: OffsetRange,
    now_ms: i64,
    file_id: u64,
    out: &mut Vec<FileDiagnostic>,
)
    ensures
        file_diags_view(final(out)@) == file_diags_view(old(out)@)
            + in_file(file_id, node_report(ds@, argument_name@, node.spec_render(), node.spec_bare_name(), def, now_ms as int)),
{
    let ghost before = out@;
    if let Some(i) = find_deprecated(ds) {
        if let Some(d) = diagnose(&ds[i], argument_name, node, def, now_ms) {
            out.push(FileDiagnostic { file_id, diagnostic: d });
            assert(file_diags_view(out@) =~= file_diags_view(before).push(out@[before.len() as int].view()));
            return;
        }
    }
    assert(file_diags_view(out@) =~= file_diags_view(before) + seq![]);
}

fn report_args(file_id: u64, field: &FieldSignature, argument_name: &str, now_ms: i64, out: &mut Vec<FileDiagnostic>)
    ensures
        file_diags_view(final(out)@) == file_diags_view(old(out)@)
            + args_reports(file_id, field.name@, field.arguments@, argument_name@, now_ms as int),
{
    let ghost before = file_diags_view(out@);
    let mut k: usize = 0;
    while k < field.arguments.len()
        invariant
            0 <= k <= field.arguments@.len(),
            file_diags_view(out@) == before + args_reports(file_id, field.name@, field.arguments@.take(k as int), argument_name@, now_ms as int),
        decreases field.arguments@.len() - k,
    {
        let a = &field.arguments[k];
        let node = NodeKind::InputValue { arg: a.name.as_str(), field: field.name.as_str() };
        report_node(&a.directives, argument_name, &node, a.definition_range, now_ms, file_id, out);
        assert(field.arguments@.take(k + 1).drop_last() =~= field.arguments@.take(k as int));
        k += 1;
    }
    assert(field.arguments@.take(k as int) =~= field.arguments@);
}

fn report_fields(t: &TypeDef, argument_name: &str, now_ms: i64, out: &mut Vec<FileDiagnostic>)
    ensures
        file_diags_view(final(out)@) == file_diags_view(old(out)@) + fields_reports(*t, t.fields@, argument_name@, now_ms as int),
{
    let ghost before = file_diags_view(out@);
    let mut k: usize = 0;
    while k < t.fields.len()
        invariant
            0 <= k <= t.fields@.len(),
            file_diags_view(out@) == before + fields_reports(*t, t.fields@.take(k as int), argument_name@, now_ms as int),
        decreases t.fields@.len() - k,
    {
        let f = &t.fields[k];
        let node = NodeKind::Field { field: f.name.as_str(), parent: t.name.as_str() };
        report_node(&f.directives, argument_name, &node, f.definition_range, now_ms, t.file_id, out);
        report_args(t.file_id, f, argument_name, now_ms, out);
        assert(t.fields@.take(k + 1).drop_last() =~= t.fields@.take(k as int));
        k += 1;
    }
    assert(t.fields@.take(k as int) =~= t.fields@);
}

fn report_enum_values(t: &TypeDef, argument_name: &str, now_ms: i64, out: &mut Vec<FileDiagnostic>)
    ensures
        file_diags_view(final(out)@) == file_diags_view(old(out)@) + enum_values_reports(*t, t.enum_values@, argument_name@, now_ms as int),
{
    let ghost before = file_diags_view(out@);
    let mut k: usize = 0;
    while k < t.enum_values.len()
        invariant
            0 <= k <= t.enum_values@.len(),
            file_diags_view(out@) == before + enum_values_reports(*t, t.enum_values@.take(k as int), argument_name@, now_ms as int),
        decreases t.enum_values@.len() - k,
    {
        let v = &t.enum_values[k];
        let node = NodeKind::EnumValue { value: v.name.as_str(), parent: t.name.as_str() };
        report_node(&v.directives, argument_name, &node, v.definition_range, now_ms, t.file_id, out);
        assert(t.enum_values@.take(k + 1).drop_last() =~= t.enum_values@.take(k as int));
        k += 1;
    }
    assert(t.enum_values@.take(k as int) =~= t.enum_values@);
}

impl RequireDeprecationDateRuleImpl {
    /// Checks every `@deprecated` directive on the fields, field arguments
    /// and enum values of `types` at time `now_ms` (milliseconds since the
    /// UNIX epoch).
    pub fn check(&self, types: &Vec<TypeDef>, options: &RequireDeprecationDateOptions, now_ms: i64) -> (r: Vec<FileDiagnostic>)
        ensures
            file_diags_view(r@) == types_reports(types@, options.argument_name@, now_ms as int),
    {
        let mut out: Vec<FileDiagnostic> = Vec::new();
        let mut k: usize = 0;
        while k < types.len()
            invariant
                0 <= k <= types@.len(),
                file_diags_view(out@) == types_reports(types@.take(k as int), options.argument_name@, now_ms as int),
            decreases types@.len() - k,
        {
            let t = &types[k];
            report_fields(t, options.argument_name.as_str(), now_ms, &mut out);
            report_enum_values(t, options.argument_name.as_str(), now_ms, &mut out);
            assert(types@.take(k + 1).drop_last() =~= types@.take(k as int));
            k += 1;
        }
        assert(types@.take(k as int) =~= types@);
        out
    }
}


proof fn lemma_years_days_front(from: int, to: int)
    requires
        from < to,
    ensures
        years_days(from, to) == year_length(from) + years_days(from + 1, to),
    decreases to - from,
{
    assert(years_days(from, to) == years_days(from, to - 1) + year_length(to - 1));
    if to > from + 1 {
        lemma_years_days_front(from, to - 1);
        assert(years_days(from + 1, to) == years_days(from + 1, to - 1) + year_length(to - 1));
    } else {
        assert(years_days(from, from) == 0);
        assert(years_days(from + 1, to) == 0);
    }
}

/// The day count of the year before `year` ends exactly a year's length
/// before that of `year`.
proof fn lemma_epoch_years_step(year: int)
    ensures
        (if year + 1 >= 1970 { years_days(1970, year + 1) } else { -years_days(year + 1, 1970) })
            == (if year >= 1970 { years_days(1970, year) } else { -years_days(year, 1970) }) + year_length(year),
{
    if year < 1969 {
        lemma_years_days_front(year, 1970);
    } else if year == 1969 {
        lemma_years_days_front(1969, 1970);
        assert(years_days(1970, 1970) == 0);
    } else {
        assert(years_days(1970, year + 1) == years_days(1970, year) + year_length(year));
    }
}

proof fn lemma_months_days_grow(year: int, m1: int, m2: int)
    requires
        1 <= m1 < m2 <= 13,
    ensures
        months_days(year, m2) >= months_days(year, m1) + 28 * (m2 - m1),
    decreases m2 - m1,
{
    if m2 > m1 + 1 {
        lemma_months_days_grow(year, m1, m2 - 1);
    }
}

/// The day counts of real dates follow the calendar: 1 January 1970 is day
/// 0; the next day of a month, the first of the next month, and 1 January of
/// the next year each come one day after the date before them.
pub proof fn law_days_follow_calendar(year: int, month: int, day: int)
    requires
        1 <= month <= 12,
        spec_days_in_month(year, month) matches Some(md) && 1 <= day <= md,
    ensures
        spec_days_from_epoch(1970, 1, 1) == 0,
        day < spec_days_in_month(year, month).unwrap()
            ==> spec_days_from_epoch(year, month, day + 1) == spec_days_from_epoch(year, month, day) + 1,
        day == spec_days_in_month(year, month).unwrap() && month < 12
            ==> spec_days_from_epoch(year, month + 1, 1) == spec_days_from_epoch(year, month, day) + 1,
        day == spec_days_in_month(year, month).unwrap() && month == 12
            ==> spec_days_from_epoch(year + 1, 1, 1) == spec_days_from_epoch(year, month, day) + 1,
{
    if month == 12 {
        lemma_epoch_years_step(year);
        reveal_with_fuel(months_days, 13);
        assert(months_days(year, 12) == if spec_is_leap_year(year) { 335int } else { 334int });
    }
}

/// Within a year, a later month gives a later day count for the same day
/// of the month (at least 28 days later per month).
pub proof fn law_days_increase_with_month(year: int, m1: int, m2: int, day: int)
    requires
        1 <= m1 < m2 <= 12,
    ensures
        spec_days_from_epoch(year, m2, day) >= spec_days_from_epoch(year, m1, day) + 28 * (m2 - m1),
        spec_days_from_epoch(year, m1, day) < spec_days_from_epoch(year, m2, day),
{
    lemma_months_days_grow(year, m1, m2);
}

} // verus!
