//! The `requireDeprecationReason` lint rule.
use vstd::prelude::*;
use crate::diagnostics::{LintSeverity, OffsetRange};
use crate::schema::{
    file_diags_view, find_usage, kind_display, push_file_diag, type_def_kind_display, usage_index,
    warning_at, warning_view, ArgumentDef, DirectiveUsage, EnumValue, FieldSignature, FileDiagnostic,
    FileDiagnosticView, TypeDef,
};
use crate::text::{
    char_is_ws, first_satisfying, is_ws, lemma_first_satisfying_stable, range_to_string, str_eq, to_chars,
};

verus! {

/// Lint rule that requires a reason in @deprecated directives
pub struct RequireDeprecationReasonRuleImpl;

impl RequireDeprecationReasonRuleImpl {
    /// The rule's identifier.
    pub fn name(&self) -> (s: &'static str)
        ensures
            s@ == "requireDeprecationReason"@,
    {
        "requireDeprecationReason"
    }

    /// What the rule checks.
    pub fn description(&self) -> (s: &'static str)
        ensures
            s@ == "Requires a reason argument in @deprecated directives"@,
    {
        "Requires a reason argument in @deprecated directives"
    }

    /// The severity the rule reports with unless configured otherwise.
    pub fn default_severity(&self) -> (s: LintSeverity)
        ensures
            s == LintSeverity::Warning,
    {
        LintSeverity::Warning
    }
}

/// A reason that counts as missing: absent, empty, or only whitespace.
pub open spec fn missing_reason(r: Option<Seq<char>>) -> bool {
    match r {
        None => true,
        Some(s) => all_ws(s),
    }
}

/// Every character of `s` is whitespace.
pub open spec fn all_ws(s: Seq<char>) -> bool {
    forall|k: int| 0 <= k < s.len() ==> is_ws(#[trigger] s[k])
}

/// First index in `[lo, hi)` that is not `"`, or `hi`.
pub open spec fn quote_lo(s: Seq<char>, lo: int, hi: int) -> int
    decreases hi - lo,
{
    if lo < hi && s[lo] == '"' { quote_lo(s, lo + 1, hi) } else { lo }
}

/// One past the last index in `[lo, hi)` that is not `"`, or `lo`.
pub open spec fn quote_hi(s: Seq<char>, lo: int, hi: int) -> int
    decreases hi - lo,
{
    if lo < hi && s[hi - 1] == '"' { quote_hi(s, lo, hi - 1) } else { hi }
}

/// `s` with every leading and trailing `"` removed (`str::trim_matches('"')`).
pub open spec fn strip_quotes(s: Seq<char>) -> Seq<char> {
    let a = quote_lo(s, 0, s.len() as int);
    s.subrange(a, quote_hi(s, a, s.len() as int))
}

proof fn lemma_quote_bounds(s: Seq<char>, lo: int, hi: int)
    requires
        0 <= lo <= hi <= s.len(),
    ensures
        lo <= quote_lo(s, lo, hi) <= hi,
        lo <= quote_hi(s, lo, hi) <= hi,
    decreases hi - lo,
{
    if lo < hi {
        lemma_quote_bounds(s, lo + 1, hi);
        lemma_quote_bounds(s, lo, hi - 1);
    }
}

/// The `reason` of a type-level `@deprecated` usage `d`: the value of its
/// first `reason` argument with the quotes stripped.
pub open spec fn usage_reason(d: DirectiveUsage) -> Option<Seq<char>> {
    match first_satisfying(d.arguments@.len() as int, |k: int| d.arguments@[k].name@ == "reason"@) {
        Some(i) => Some(strip_quotes(d.arguments@[i].value@)),
        None => None,
    }
}

pub open spec fn opt_view(o: Option<String>) -> Option<Seq<char>> {
    match o {
        Some(s) => Some(s@),
        None => None,
    }
}

/// Where a report about a deprecated node points: the name of its
/// `@deprecated` directive, else `fallback`.
pub open spec fn deprecated_range(ds: Seq<DirectiveUsage>, fallback: OffsetRange) -> OffsetRange {
    match usage_index(ds, "deprecated"@) {
        Some(i) => ds[i].name_range,
        None => fallback,
    }
}

pub open spec fn reason_warning(file: u64, r: OffsetRange, m: Seq<char>) -> FileDiagnosticView {
    (file, warning_view(r, "Deprecation reason is required for "@ + m + "."@, "requireDeprecationReason"@))
}

/// Reports about the deprecated arguments among `args` of field `f`.
pub open spec fn args_reports(t: TypeDef, f: FieldSignature, args: Seq<ArgumentDef>) -> Seq<FileDiagnosticView>
    decreases args.len(),
{
    if args.len() == 0 {
        seq![]
    } else {
        let a = args.last();
        args_reports(t, f, args.drop_last()) + if a.is_deprecated && missing_reason(opt_view(a.deprecation_reason)) {
            seq![reason_warning(t.file_id, deprecated_range(a.directives@, f.name_range),
                "input value \""@ + a.name@ + "\" in field \""@ + f.name@ + "\""@)]
        } else {
            seq![]
        }
    }
}

/// Reports about the deprecated fields among `fs` of `t`, each followed by
/// those about its arguments.
pub open spec fn fields_reports(t: TypeDef, fs: Seq<FieldSignature>) -> Seq<FileDiagnosticView>
    decreases fs.len(),
{
    if fs.len() == 0 {
        seq![]
    } else {
        let f = fs.last();
        fields_reports(t, fs.drop_last()) + (if f.is_deprecated && missing_reason(opt_view(f.deprecation_reason)) {
            seq![reason_warning(t.file_id, deprecated_range(f.directives@, f.name_range),
                "field \""@ + f.name@ + "\" in "@ + kind_display(t.kind) + " \""@ + t.name@ + "\""@)]
        } else {
            seq![]
        }) + args_reports(t, f, f.arguments@)
    }
}

/// Reports about the deprecated values among `vs` of enum `t`.
pub open spec fn values_reports(t: TypeDef, vs: Seq<EnumValue>) -> Seq<FileDiagnosticView>
    decreases vs.len(),
{
    if vs.len() == 0 {
        seq![]
    } else {
        let v = vs.last();
        values_reports(t, vs.drop_last()) + if v.is_deprecated && missing_reason(opt_view(v.deprecation_reason)) {
            seq![reason_warning(t.file_id, deprecated_range(v.directives@, t.name_range),
                "enum value \""@ + v.name@ + "\" in enum \""@ + t.name@ + "\""@)]
        } else {
            seq![]
        }
    }
}

/// Reports about type `t`: a type-level `@deprecated` without reason, then
/// its fields (and their arguments), then its enum values.
pub open spec fn type_reports(t: TypeDef) -> Seq<FileDiagnosticView> {
    (match usage_index(t.directives@, "deprecated"@) {
        Some(i) => if missing_reason(usage_reason(t.directives@[i])) {
            seq![reason_warning(t.file_id, t.directives@[i].name_range,
                kind_display(t.kind) + " \""@ + t.name@ + "\""@)]
        } else {
            seq![]
        },
        None => seq![],
    }) + fields_reports(t, t.fields@) + values_reports(t, t.enum_values@)
}

/// Reports about every type of `ts`, in order.
pub open spec fn types_reports(ts: Seq<TypeDef>) -> Seq<FileDiagnosticView>
    decreases ts.len(),
{
    if ts.len() == 0 {
        seq![]
    } else {
        types_reports(ts.drop_last()) + type_reports(ts.last())
    }
}

fn all_whitespace(s: &str) -> (b: bool)
    ensures
        b == all_ws(s@),
{
    let v = to_chars(s);
    let mut k: usize = 0;
    while k < v.len()
        invariant
            0 <= k <= v@.len(),
            v@ == s@,
            forall|j: int| 0 <= j < k ==> is_ws(#[trigger] v@[j]),
        decreases v@.len() - k,
    {
        if !char_is_ws(v[k]) {
            assert(!is_ws(s@[k as int]));
            return false;
        }
        k += 1;
    }
    true
}

/// The characters of an optional string slice.
pub open spec fn opt_chars(o: Option<&str>) -> Option<Seq<char>> {
    match o {
        Some(s) => Some(s@),
        None => None,
    }
}

fn is_missing_reason(r: Option<&str>) -> (b: bool)
    ensures
        b == missing_reason(opt_chars(r)),
{
    match r {
        None => true,
        Some(s) => all_whitespace(s),
    }
}

fn strip_quotes_exec(s: &str) -> (r: String)
    ensures
        r@ == strip_quotes(s@),
{
    let v = to_chars(s);
    let n = v.len();
    let mut a: usize = 0;
    while a < n && v[a] == '"'
        invariant
            0 <= a <= n,
            n == v@.len(),
            quote_lo(v@, a as int, n as int) == quote_lo(v@, 0, n as int),
        decreases n - a,
    {
        a += 1;
    }
    let mut b: usize = n;
    while b > a && v[b - 1] == '"'
        invariant
            a <= b <= n,
            n == v@.len(),
            quote_hi(v@, a as int, b as int) == quote_hi(v@, a as int, n as int),
        decreases b - a,
    {
        b -= 1;
    }
    range_to_string(&v, a, b)
}

fn reason_of(d: &DirectiveUsage) -> (r: Option<String>)
    ensures
        opt_view(r) == usage_reason(*d),
{
    let ghost p = |k: int| d.arguments@[k].name@ == "reason"@;
    let mut k: usize = 0;
    while k < d.arguments.len()
        invariant
            0 <= k <= d.arguments@.len(),
            first_satisfying(k as int, p) is None,
            p == (|k: int| d.arguments@[k].name@ == "reason"@),
        decreases d.arguments@.len() - k,
    {
        if str_eq(d.arguments[k].name.as_str(), "reason") {
            proof {
                assert(p(k as int));
                assert(first_satisfying(k as int + 1, p) == Some(k as int));
                lemma_first_satisfying_stable(k as int + 1, d.arguments@.len() as int, p);
            }
            return Some(strip_quotes_exec(d.arguments[k].value.as_str()));
        }
        k += 1;
    }
    None
}

fn opt_str(o: &Option<String>) -> (r: Option<&str>)
    ensures
        match r {
            Some(s) => opt_view(*o) == Some(s@),
            None => opt_view(*o) is None,
        },
{
    match o {
        Some(s) => Some(s.as_str()),
        None => None,
    }
}

fn deprecated_range_exec(ds: &Vec<DirectiveUsage>, fallback: OffsetRange) -> (r: OffsetRange)
    ensures
        r == deprecated_range(ds@, fallback),
{
    match find_usage(ds, "deprecated") {
        Some(i) => ds[i].name_range,
        None => fallback,
    }
}

fn push_reason(out: &mut Vec<FileDiagnostic>, file: u64, r: OffsetRange, m: &str)
    ensures
        file_diags_view(final(out)@) == file_diags_view(old(out)@).push(reason_warning(file, r, m@)),
{
    let mut msg = "Deprecation reason is required for ".to_owned();
    msg.append(m);
    msg.append(".");
    push_file_diag(out, file, warning_at(r, msg.as_str(), "requireDeprecationReason"));
}

fn report_field(t: &TypeDef, f: &FieldSignature, out: &mut Vec<FileDiagnostic>)
    ensures
        file_diags_view(final(out)@) == file_diags_view(old(out)@)
            + (if f.is_deprecated && missing_reason(opt_view(f.deprecation_reason)) {
                seq![reason_warning(t.file_id, deprecated_range(f.directives@, f.name_range),
                    "field \""@ + f.name@ + "\" in "@ + kind_display(t.kind) + " \""@ + t.name@ + "\""@)]
            } else {
                seq![]
            }) + args_reports(*t, *f, f.arguments@),
{
    let ghost before = file_diags_view(out@);
    if f.is_deprecated && is_missing_reason(opt_str(&f.deprecation_reason)) {
        let mut m = "field \"".to_owned();
        m.append(f.name.as_str());
        m.append("\" in ");
        m.append(type_def_kind_display(t.kind));
        m.append(" \"");
        m.append(t.name.as_str());
        m.append("\"");
        push_reason(out, t.file_id, deprecated_range_exec(&f.directives, f.name_range), m.as_str());
    }
    let ghost mid = file_diags_view(out@);
    let mut k: usize = 0;
    while k < f.arguments.len()
        invariant
            0 <= k <= f.arguments@.len(),
            file_diags_view(out@) == mid + args_reports(*t, *f, f.arguments@.take(k as int)),
        decreases f.arguments@.len() - k,
    {
        let a = &f.arguments[k];
        assert(f.arguments@.take(k + 1).drop_last() =~= f.arguments@.take(k as int));
        if a.is_deprecated && is_missing_reason(opt_str(&a.deprecation_reason)) {
            let mut m = "input value \"".to_owned();
            m.append(a.name.as_str());
            m.append("\" in field \"");
            m.append(f.name.as_str());
            m.append("\"");
            push_reason(out, t.file_id, deprecated_range_exec(&a.directives, f.name_range), m.as_str());
        } else {
            assert(file_diags_view(out@) =~= file_diags_view(out@) + seq![]);
        }
        k += 1;
    }
    assert(f.arguments@.take(k as int) =~= f.arguments@);
    assert(file_diags_view(out@) =~= before + mid.subrange(before.len() as int, mid.len() as int)
        + file_diags_view(out@).subrange(mid.len() as int, file_diags_view(out@).len() as int));
}

fn report_type(t: &TypeDef, out: &mut Vec<FileDiagnostic>)
    ensures
        file_diags_view(final(out)@) == file_diags_view(old(out)@) + type_reports(*t),
{
    let ghost before = file_diags_view(out@);
    if let Some(i) = find_usage(&t.directives, "deprecated") {
        let reason = reason_of(&t.directives[i]);
        let r = match &reason {
            Some(x) => Some(x.as_str()),
            None => None,
        };
        if is_missing_reason(r) {
            let mut m = type_def_kind_display(t.kind).to_owned();
            m.append(" \"");
            m.append(t.name.as_str());
            m.append("\"");
            push_reason(out, t.file_id, t.directives[i].name_range, m.as_str());
        }
    }
    let ghost after_type = file_diags_view(out@);
    let mut k: usize = 0;
    while k < t.fields.len()
        invariant
            0 <= k <= t.fields@.len(),
            file_diags_view(out@) == after_type + fields_reports(*t, t.fields@.take(k as int)),
        decreases t.fields@.len() - k,
    {
        assert(t.fields@.take(k + 1).drop_last() =~= t.fields@.take(k as int));
        report_field(t, &t.fields[k], out);
        k += 1;
    }
    assert(t.fields@.take(k as int) =~= t.fields@);
    let ghost after_fields = file_diags_view(out@);
    let mut e: usize = 0;
    while e < t.enum_values.len()
        invariant
            0 <= e <= t.enum_values@.len(),
            file_diags_view(out@) == after_fields + values_reports(*t, t.enum_values@.take(e as int)),
        decreases t.enum_values@.len() - e,
    {
        let v = &t.enum_values[e];
        assert(t.enum_values@.take(e + 1).drop_last() =~= t.enum_values@.take(e as int));
        if v.is_deprecated && is_missing_reason(opt_str(&v.deprecation_reason)) {
            let mut m = "enum value \"".to_owned();
            m.append(v.name.as_str());
            m.append("\" in enum \"");
            m.append(t.name.as_str());
            m.append("\"");
            push_reason(out, t.file_id, deprecated_range_exec(&v.directives, t.name_range), m.as_str());
        } else {
            assert(file_diags_view(out@) =~= file_diags_view(out@) + seq![]);
        }
        e += 1;
    }
    assert(t.enum_values@.take(e as int) =~= t.enum_values@);
    assert(file_diags_view(out@) =~= before + after_type.subrange(before.len() as int, after_type.len() as int)
        + after_fields.subrange(after_type.len() as int, after_fields.len() as int)
        + file_diags_view(out@).subrange(after_fields.len() as int, file_diags_view(out@).len() as int));
}

impl RequireDeprecationReasonRuleImpl {
    /// Reports every `@deprecated` without a (non-blank) reason on the types,
    /// fields, arguments and enum values of `types`.
    pub fn check(&self, types: &Vec<TypeDef>) -> (r: Vec<FileDiagnostic>)
        ensures
            file_diags_view(r@) == types_reports(types@),
    {
        let mut out: Vec<FileDiagnostic> = Vec::new();
        let mut k: usize = 0;
        while k < types.len()
            invariant
                0 <= k <= types@.len(),
                file_diags_view(out@) == types_reports(types@.take(k as int)),
            decreases types@.len() - k,
        {
            assert(types@.take(k + 1).drop_last() =~= types@.take(k as int));
            report_type(&types[k], &mut out);
            k += 1;
        }
        assert(types@.take(k as int) =~= types@);
        out
    }
}

} // verus!
