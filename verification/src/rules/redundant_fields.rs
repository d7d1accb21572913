//! The `redundant_fields` lint rule.
use vstd::prelude::*;
use vstd::string::StringSliceAdditionalSpecFns;
use crate::diagnostics::{diags_view, CodeFix, DiagnosticView, LintDiagnostic, LintSeverity};
use crate::document::{push_diag, Definition, ExecutableDocument, FieldSelection, FragmentDefinition, Selection, SelectionSet};
use crate::schema::names_contain;
use crate::text::{join_strings, join_with, str_eq, strings_view};

verus! {

/// Lint rule that detects fields that are redundant because they are already
/// included in a sibling fragment spread within the same selection set.
///
/// This rule only considers fields redundant if they have the same alias
/// (or no alias). Aliased fields are treated as distinct from non-aliased
/// or differently-aliased versions of the same field.
///
/// Example:
/// ```graphql
/// fragment UserFields on User {
///   id
///   name
/// }
///
/// query GetUser {
///   user {
///     ...UserFields
///     id    # Redundant - already in UserFields
///     name  # Redundant - already in UserFields
///     userId: id  # NOT redundant - different alias
///   }
/// }
/// ```
pub struct RedundantFieldsRuleImpl;

impl RedundantFieldsRuleImpl {
    /// The rule's identifier.
    pub fn name(&self) -> (s: &'static str)
        ensures
            s@ == "redundant_fields"@,
    {
        "redundant_fields"
    }

    /// What the rule checks.
    pub fn description(&self) -> (s: &'static str)
        ensures
            s@ == "Detects fields that are redundant because they are already included in a sibling fragment spread"@,
    {
        "Detects fields that are redundant because they are already included in a sibling fragment spread"
    }

    /// The severity the rule reports with unless configured otherwise.
    pub fn default_severity(&self) -> (s: LintSeverity)
        ensures
            s == LintSeverity::Warning,
    {
        LintSeverity::Warning
    }
}

/// Index of the last `\n` in `b[..i]`, or -1.
pub open spec fn last_newline_before(b: Seq<u8>, i: int) -> int
    decreases i,
{
    if i <= 0 {
        -1
    } else if b[i - 1] == 10u8 {
        i - 1
    } else {
        last_newline_before(b, i - 1)
    }
}

/// Index of the first `\n` in `b[i..]`, or `b.len()`.
pub open spec fn next_newline_from(b: Seq<u8>, i: int) -> int
    decreases b.len() - i,
{
    if i >= b.len() {
        b.len() as int
    } else if b[i] == 10u8 {
        i
    } else {
        next_newline_from(b, i + 1)
    }
}

/// `b[lo..hi]` holds only spaces and tabs.
pub open spec fn blank_between(b: Seq<u8>, lo: int, hi: int) -> bool {
    forall|k: int| lo <= k < hi ==> (#[trigger] b[k] == 32u8 || b[k] == 9u8)
}

/// The range that deleting the field `b[fs..fe]` removes: its whole line,
/// with the newline that ends it, where nothing but spaces and tabs share
/// that line with the field; else the field alone.
pub open spec fn spec_line_deletion_range(b: Seq<u8>, fs: int, fe: int) -> (int, int) {
    let line_start = last_newline_before(b, fs) + 1;
    let nl = next_newline_from(b, fe);
    let line_end = if nl < b.len() { nl + 1 } else { b.len() as int };
    let after_end = if line_end > fe && b[line_end - 1] == 10u8 { line_end - 1 } else { line_end };
    if blank_between(b, line_start, fs) && blank_between(b, fe, after_end) {
        (line_start, line_end)
    } else {
        (fs, fe)
    }
}

proof fn lemma_last_newline_bounds(b: Seq<u8>, i: int)
    requires
        0 <= i <= b.len(),
    ensures
        -1 <= last_newline_before(b, i) < i,
        last_newline_before(b, i) >= 0 ==> b[last_newline_before(b, i)] == 10u8,
    decreases i,
{
    if i > 0 {
        lemma_last_newline_bounds(b, i - 1);
    }
}

proof fn lemma_next_newline_bounds(b: Seq<u8>, i: int)
    requires
        0 <= i <= b.len(),
    ensures
        i <= next_newline_from(b, i) <= b.len(),
        next_newline_from(b, i) < b.len() ==> b[next_newline_from(b, i)] == 10u8,
    decreases b.len() - i,
{
    if i < b.len() {
        lemma_next_newline_bounds(b, i + 1);
    }
}

fn is_blank_byte(c: u8) -> (r: bool)
    ensures
        r == (c == 32u8 || c == 9u8),
{
    c == 32u8 || c == 9u8
}

fn all_blank(b: &[u8], lo: usize, hi: usize) -> (r: bool)
    requires
        lo <= hi <= b@.len(),
    ensures
        r == blank_between(b@, lo as int, hi as int),
{
    let mut k = lo;
    while k < hi
        invariant
            lo <= k <= hi <= b@.len(),
            blank_between(b@, lo as int, k as int),
        decreases hi - k,
    {
        if !is_blank_byte(b[k]) {
            assert(!(b@[k as int] == 32u8 || b@[k as int] == 9u8));
            return false;
        }
        k += 1;
    }
    true
}

/// Computes the range to delete for a redundant field at bytes
/// `field_start..field_end` of `source`: the entire line, including its
/// leading whitespace and trailing newline, when the field occupies the
/// line alone; otherwise just the field's own text.
pub fn compute_line_deletion_range(source: &str, field_start: usize, field_end: usize) -> (r: (usize, usize))
    requires
        field_start <= field_end <= source.spec_bytes().len(),
    ensures
        (r.0 as int, r.1 as int) == spec_line_deletion_range(source.spec_bytes(), field_start as int, field_end as int),
{
    let bytes = source.as_bytes();
    let ghost b = bytes@;
    let n = bytes.len();
    let mut i = field_start;
    while i > 0 && bytes[i - 1] != 10u8
        invariant
            i <= field_start <= b.len(),
            b == bytes@,
            n == b.len(),
            last_newline_before(b, i as int) == last_newline_before(b, field_start as int),
        decreases i,
    {
        i -= 1;
    }
    let line_start = i;
    proof {
        lemma_last_newline_bounds(b, field_start as int);
    }
    let mut j = field_end;
    while j < n && bytes[j] != 10u8
        invariant
            field_end <= j <= n,
            b == bytes@,
            n == b.len(),
            next_newline_from(b, j as int) == next_newline_from(b, field_end as int),
        decreases n - j,
    {
        j += 1;
    }
    let line_end = if j < n { j + 1 } else { n };
    let after_end = if line_end > field_end && bytes[line_end - 1] == 10u8 { line_end - 1 } else { line_end };
    if all_blank(bytes, line_start, field_start) && all_blank(bytes, field_end, after_end) {
        (line_start, line_end)
    } else {
        (field_start, field_end)
    }
}

/// `f` is named `n`.
pub open spec fn names(f: FragmentDefinition, n: Seq<char>) -> bool {
    f.name matches Some(m) && m.value@ == n
}

/// The named fragment definitions among `defs`, in order.
pub open spec fn named_fragments(defs: Seq<Definition>) -> Seq<FragmentDefinition>
    decreases defs.len(),
{
    if defs.len() == 0 {
        seq![]
    } else {
        named_fragments(defs.drop_last()) + match defs.last() {
            Definition::Fragment(fr) => if fr.name is Some { seq![fr] } else { seq![] },
            _ => seq![],
        }
    }
}

/// The named fragment definitions of the blocks `docs`, in order.
pub open spec fn local_fragments(docs: Seq<ExecutableDocument>) -> Seq<FragmentDefinition>
    decreases docs.len(),
{
    if docs.len() == 0 {
        seq![]
    } else {
        local_fragments(docs.drop_last()) + named_fragments(docs.last().definitions@)
    }
}

/// The definitions behind a sequence of references.
pub open spec fn deref_frags(s: Seq<&FragmentDefinition>) -> Seq<FragmentDefinition> {
    Seq::new(s.len(), |i: int| *s[i])
}

/// The name `n` resolves to `entries[x]`, where the first `local` entries
/// are the file's own fragments: the last of those named `n`, else the
/// first entry after them named `n`.
pub open spec fn resolves_to(entries: Seq<FragmentDefinition>, local: int, n: Seq<char>, x: int) -> bool {
    &&& 0 <= x < entries.len()
    &&& names(entries[x], n)
    &&& if exists|j: int| 0 <= j < local && #[trigger] names(entries[j], n) {
        x < local && forall|j: int| x < j < local ==> !#[trigger] names(entries[j], n)
    } else {
        local <= x && forall|j: int| local <= j < x ==> !#[trigger] names(entries[j], n)
    }
}

proof fn lemma_resolves_unique(entries: Seq<FragmentDefinition>, local: int, n: Seq<char>, x: int, y: int)
    requires
        0 <= local <= entries.len(),
        resolves_to(entries, local, n, x),
        resolves_to(entries, local, n, y),
    ensures
        x == y,
{
    if x < y {
        assert(names(entries[y], n));
    } else if y < x {
        assert(names(entries[x], n));
    }
}

fn fragment_named(f: &FragmentDefinition, n: &str) -> (r: bool)
    ensures
        r == names(*f, n@),
{
    match &f.name {
        Some(m) => str_eq(m.value.as_str(), n),
        None => false,
    }
}

/// The entry that the name `n` resolves to, if any.
fn resolve(reg: &Vec<&FragmentDefinition>, local: usize, n: &str) -> (r: Option<usize>)
    requires
        local <= reg@.len(),
    ensures
        r matches Some(x) ==> resolves_to(deref_frags(reg@), local as int, n@, x as int),
        r is None ==> forall|x: int| !resolves_to(deref_frags(reg@), local as int, n@, x),
{
    let ghost e = deref_frags(reg@);
    let mut k: usize = local;
    while k > 0
        invariant
            k <= local <= reg@.len(),
            e == deref_frags(reg@),
            forall|j: int| k <= j < local ==> !#[trigger] names(e[j], n@),
        decreases k,
    {
        if fragment_named(reg[k - 1], n) {
            assert(names(e[k - 1], n@));
            return Some(k - 1);
        }
        k -= 1;
    }
    assert(!exists|j: int| 0 <= j < local && #[trigger] names(e[j], n@));
    let mut t: usize = local;
    while t < reg.len()
        invariant
            local <= t <= reg@.len(),
            e == deref_frags(reg@),
            !exists|j: int| 0 <= j < local && #[trigger] names(e[j], n@),
            forall|j: int| local <= j < t ==> !#[trigger] names(e[j], n@),
        decreases reg@.len() - t,
    {
        if fragment_named(reg[t], n) {
            assert(names(e[t as int], n@));
            return Some(t);
        }
        t += 1;
    }
    None
}

fn push_named_fragments<'a>(defs: &'a Vec<Definition>, out: &mut Vec<&'a FragmentDefinition>)
    ensures
        deref_frags(final(out)@) == deref_frags(old(out)@) + named_fragments(defs@),
{
    let ghost start = deref_frags(out@);
    let mut k: usize = 0;
    assert(deref_frags(out@) =~= start + named_fragments(defs@.take(0)));
    while k < defs.len()
        invariant
            0 <= k <= defs@.len(),
            deref_frags(out@) == start + named_fragments(defs@.take(k as int)),
        decreases defs@.len() - k,
    {
        assert(defs@.take(k + 1).drop_last() =~= defs@.take(k as int));
        let ghost prev = out@;
        if let Definition::Fragment(fr) = &defs[k] {
            if fr.name.is_some() {
                out.push(fr);
                assert(deref_frags(out@) =~= deref_frags(prev).push(*fr));
            }
        }
        assert(deref_frags(out@) =~= start + named_fragments(defs@.take(k + 1)));
        k += 1;
    }
    assert(defs@.take(k as int) =~= defs@);
}

/// The fragments a name can resolve to: the named fragments of the file's
/// blocks `docs`, then `others` (those of other files); and how many of
/// them are the file's own.
pub fn build_registry<'a>(docs: &'a Vec<ExecutableDocument>, others: &'a Vec<FragmentDefinition>) -> (r: (Vec<&'a FragmentDefinition>, usize))
    ensures
        deref_frags(r.0@) == local_fragments(docs@) + others@,
        r.1 == local_fragments(docs@).len(),
{
    let mut out: Vec<&'a FragmentDefinition> = Vec::new();
    let mut k: usize = 0;
    assert(deref_frags(out@) =~= local_fragments(docs@.take(0)));
    while k < docs.len()
        invariant
            0 <= k <= docs@.len(),
            deref_frags(out@) == local_fragments(docs@.take(k as int)),
        decreases docs@.len() - k,
    {
        assert(docs@.take(k + 1).drop_last() =~= docs@.take(k as int));
        push_named_fragments(&docs[k].definitions, &mut out);
        k += 1;
    }
    assert(docs@.take(k as int) =~= docs@);
    let local = out.len();
    let ghost lf = deref_frags(out@);
    let mut t: usize = 0;
    while t < others.len()
        invariant
            0 <= t <= others@.len(),
            deref_frags(out@) == lf + others@.take(t as int),
        decreases others@.len() - t,
    {
        let ghost prev = out@;
        out.push(&others[t]);
        assert(deref_frags(out@) =~= deref_frags(prev).push(others@[t as int]));
        assert(deref_frags(out@) =~= lf + others@.take(t + 1));
        t += 1;
    }
    assert(others@.take(t as int) =~= others@);
    (out, local)
}

/// The key of a field selection: its name and its alias; none without a name.
pub open spec fn field_key(f: FieldSelection) -> Option<(Seq<char>, Option<Seq<char>>)> {
    match f.name {
        Some(n) => Some((n.value@, match f.alias {
            Some(a) => Some(a.value@),
            None => None,
        })),
        None => None,
    }
}

/// Some field of `sels`, or of an inline fragment within it (not within
/// a field), has key `key`.
pub open spec fn direct_key(sels: Seq<Selection>, key: (Seq<char>, Option<Seq<char>>)) -> bool
    decreases sels,
{
    if sels.len() == 0 {
        false
    } else {
        let k = sels.len() - 1;
        direct_key(sels.subrange(0, k), key) || match sels[k] {
            Selection::Field(f) => field_key(f) == Some(key),
            Selection::InlineFragment(i) => match i.selection_set {
                Some(ss) => direct_key(ss.selections@, key),
                None => false,
            },
            Selection::FragmentSpread(_) => false,
        }
    }
}

/// Some spread of `sels`, or of an inline fragment within it (not within
/// a field), names the fragment `m`.
pub open spec fn direct_spread(sels: Seq<Selection>, m: Seq<char>) -> bool
    decreases sels,
{
    if sels.len() == 0 {
        false
    } else {
        let k = sels.len() - 1;
        direct_spread(sels.subrange(0, k), m) || match sels[k] {
            Selection::Field(_) => false,
            Selection::InlineFragment(i) => match i.selection_set {
                Some(ss) => direct_spread(ss.selections@, m),
                None => false,
            },
            Selection::FragmentSpread(sp) => sp.name matches Some(nm) && nm.value@ == m,
        }
    }
}

/// The selections of fragment `f` (none without a selection set).
pub open spec fn frag_sels(f: FragmentDefinition) -> Seq<Selection> {
    match f.selection_set {
        Some(ss) => ss.selections@,
        None => seq![],
    }
}

/// Entry `x` spreads a name that resolves to entry `y`.
pub open spec fn frag_refs(entries: Seq<FragmentDefinition>, local: int, x: int, y: int) -> bool {
    exists|m: Seq<char>| #[trigger] direct_spread(frag_sels(entries[x]), m) && resolves_to(entries, local, m, y)
}

/// Entry `x` is reached from the name `start` in at most `k` steps.
pub open spec fn frag_reached_within(entries: Seq<FragmentDefinition>, local: int, start: Seq<char>, k: nat, x: int) -> bool
    decreases k,
{
    if k == 0 {
        resolves_to(entries, local, start, x)
    } else {
        ||| frag_reached_within(entries, local, start, (k - 1) as nat, x)
        ||| exists|y: int| 0 <= y < entries.len() && frag_reached_within(entries, local, start, (k - 1) as nat, y)
            && #[trigger] frag_refs(entries, local, y, x)
    }
}

/// Entry `x` is reached from the name `start`: it is what `start`
/// resolves to, or what a spread within a reached entry resolves to.
pub open spec fn frag_reached(entries: Seq<FragmentDefinition>, local: int, start: Seq<char>, x: int) -> bool {
    exists|k: nat| #[trigger] frag_reached_within(entries, local, start, k, x)
}

/// Spreading `start` selects a field with key `key`: some entry reached
/// from it has such a field.
pub open spec fn provides(entries: Seq<FragmentDefinition>, local: int, start: Seq<char>, key: (Seq<char>, Option<Seq<char>>)) -> bool {
    exists|x: int| 0 <= x < entries.len() && frag_reached(entries, local, start, x) && #[trigger] direct_key(frag_sels(entries[x]), key)
}

fn collect_direct_spreads(ss: &SelectionSet, out: &mut Vec<String>)
    ensures
        forall|m: Seq<char>| names_contain(final(out)@, m) <==> (names_contain(old(out)@, m) || direct_spread(ss.selections@, m)),
    decreases ss,
{
    let ghost sels = ss.selections@;
    let ghost start = out@;
    let mut k: usize = 0;
    while k < ss.selections.len()
        invariant
            0 <= k <= sels.len(),
            sels == ss.selections@,
            forall|m: Seq<char>| names_contain(out@, m) <==> (names_contain(start, m) || direct_spread(sels.subrange(0, k as int), m)),
        decreases sels.len() - k,
    {
        assert(sels.subrange(0, k + 1).subrange(0, k as int) =~= sels.subrange(0, k as int));
        assert(sels.subrange(0, k + 1)[k as int] == sels[k as int]);
        let ghost prev = out@;
        match &ss.selections[k] {
            Selection::Field(_) => {},
            Selection::InlineFragment(i) => match &i.selection_set {
                Some(nested) => collect_direct_spreads(nested, out),
                None => {},
            },
            Selection::FragmentSpread(sp) => match &sp.name {
                Some(nm) => {
                    out.push(nm.value.clone());
                    assert forall|m: Seq<char>| names_contain(out@, m) <==> (names_contain(prev, m) || nm.value@ == m) by {
                        if names_contain(out@, m) {
                            let j = choose|j: int| 0 <= j < out@.len() && (#[trigger] out@[j])@ == m;
                            if j < prev.len() {
                                assert(prev[j] == out@[j]);
                            }
                        }
                        if names_contain(prev, m) {
                            let j = choose|j: int| 0 <= j < prev.len() && (#[trigger] prev[j])@ == m;
                            assert(out@[j] == prev[j]);
                        }
                        if nm.value@ == m {
                            assert(out@[prev.len() as int]@ == m);
                        }
                    }
                },
                None => {},
            },
        }
        let ghost k1: int = k + 1;
        assert forall|m: Seq<char>| #[trigger] names_contain(out@, m) <==> (names_contain(start, m) || direct_spread(sels.subrange(0, k1), m)) by {
            assert(names_contain(prev, m) <==> (names_contain(start, m) || direct_spread(sels.subrange(0, k as int), m)));
        }
        k += 1;
        assert(k1 == k as int);
    }
    assert(sels.subrange(0, sels.len() as int) =~= sels);
}

/// The names that fragment `f` spreads directly (not within fields).
fn direct_spreads_of(f: &FragmentDefinition) -> (r: Vec<String>)
    ensures
        forall|m: Seq<char>| names_contain(r@, m) <==> direct_spread(frag_sels(*f), m),
{
    let mut out: Vec<String> = Vec::new();
    match &f.selection_set {
        Some(ss) => collect_direct_spreads(ss, &mut out),
        None => {},
    }
    out
}

/// Whether some field of `ss`, or of an inline fragment within it, has
/// the key `(name, alias)`.
fn has_direct_key(ss: &SelectionSet, name: &str, alias: Option<&str>) -> (r: bool)
    ensures
        r == direct_key(ss.selections@, (name@, match alias {
            Some(a) => Some(a@),
            None => None,
        })),
    decreases ss,
{
    let ghost key = (name@, match alias {
        Some(a) => Some(a@),
        None => None::<Seq<char>>,
    });
    let ghost sels = ss.selections@;
    let mut k: usize = 0;
    while k < ss.selections.len()
        invariant
            0 <= k <= sels.len(),
            sels == ss.selections@,
            key == (name@, match alias {
                Some(a) => Some(a@),
                None => None::<Seq<char>>,
            }),
            !direct_key(sels.subrange(0, k as int), key),
        decreases sels.len() - k,
    {
        assert(sels.subrange(0, k + 1).subrange(0, k as int) =~= sels.subrange(0, k as int));
        assert(sels.subrange(0, k + 1)[k as int] == sels[k as int]);
        let hit = match &ss.selections[k] {
            Selection::Field(f) => match &f.name {
                Some(n) => str_eq(n.value.as_str(), name) && match (&f.alias, alias) {
                    (Some(a), Some(b)) => str_eq(a.value.as_str(), b),
                    (None, None) => true,
                    _ => false,
                },
                None => false,
            },
            Selection::InlineFragment(i) => match &i.selection_set {
                Some(nested) => has_direct_key(nested, name, alias),
                None => false,
            },
            Selection::FragmentSpread(_) => false,
        };
        if hit {
            assert(direct_key(sels.subrange(0, k + 1), key));
            proof { lemma_direct_key_prefix(sels, k + 1, key); }
            return true;
        }
        k += 1;
    }
    assert(sels.subrange(0, sels.len() as int) =~= sels);
    false
}

proof fn lemma_direct_key_prefix(sels: Seq<Selection>, k: int, key: (Seq<char>, Option<Seq<char>>))
    requires
        0 <= k <= sels.len(),
        direct_key(sels.subrange(0, k), key),
    ensures
        direct_key(sels, key),
    decreases sels.len() - k,
{
    if k < sels.len() {
        let m = sels.len() - 1;
        assert(sels.subrange(0, m).subrange(0, k) =~= sels.subrange(0, k));
        lemma_direct_key_prefix(sels.subrange(0, m), k, key);
    } else {
        assert(sels.subrange(0, k) =~= sels);
    }
}

/// Number of `false` entries of `s`.
pub open spec fn count_unset(s: Seq<bool>) -> nat
    decreases s.len(),
{
    if s.len() == 0 {
        0
    } else {
        count_unset(s.drop_last()) + if s.last() { 0nat } else { 1nat }
    }
}

proof fn lemma_count_unset_mark(s: Seq<bool>, i: int)
    requires
        0 <= i < s.len(),
        !s[i],
    ensures
        count_unset(s.update(i, true)) + 1 == count_unset(s),
    decreases s.len(),
{
    if i < s.len() - 1 {
        lemma_count_unset_mark(s.drop_last(), i);
        assert(s.update(i, true).drop_last() =~= s.drop_last().update(i, true));
    } else {
        assert(s.update(i, true).drop_last() =~= s.drop_last());
    }
}

proof fn lemma_closed_reached(entries: Seq<FragmentDefinition>, local: int, start: Seq<char>, visited: Seq<bool>, k: nat, x: int)
    requires
        visited.len() == entries.len(),
        0 <= x < entries.len(),
        forall|y: int| 0 <= y < entries.len() && #[trigger] resolves_to(entries, local, start, y) ==> visited[y],
        forall|a: int, b: int| 0 <= a < entries.len() && 0 <= b < entries.len() && visited[a]
            && #[trigger] frag_refs(entries, local, a, b) ==> visited[b],
        frag_reached_within(entries, local, start, k, x),
    ensures
        visited[x],
    decreases k,
{
    if k > 0 {
        if frag_reached_within(entries, local, start, (k - 1) as nat, x) {
            lemma_closed_reached(entries, local, start, visited, (k - 1) as nat, x);
        } else {
            let y = choose|y: int| 0 <= y < entries.len() && frag_reached_within(entries, local, start, (k - 1) as nat, y)
                && #[trigger] frag_refs(entries, local, y, x);
            lemma_closed_reached(entries, local, start, visited, (k - 1) as nat, y);
        }
    }
}

/// Marks what the names `names` resolve to, as entries spread from `x`.
fn mark_spread_targets(
    reg: &Vec<&FragmentDefinition>,
    local: usize,
    names: &Vec<String>,
    visited: &mut Vec<bool>,
    stack: &mut Vec<usize>,
    Ghost(start): Ghost<Seq<char>>,
    Ghost(kx): Ghost<nat>,
    Ghost(x): Ghost<int>,
)
    requires
        local <= reg@.len(),
        old(visited)@.len() == reg@.len(),
        0 <= x < reg@.len(),
        frag_reached_within(deref_frags(reg@), local as int, start, kx, x),
        forall|m: Seq<char>| names_contain(names@, m) ==> direct_spread(frag_sels(deref_frags(reg@)[x]), m),
        forall|y: int| 0 <= y < reg@.len() && #[trigger] old(visited)@[y] ==> frag_reached(deref_frags(reg@), local as int, start, y),
        forall|k: int| 0 <= k < old(stack)@.len() ==> (#[trigger] old(stack)@[k]) < reg@.len() && old(visited)@[old(stack)@[k] as int],
    ensures
        final(visited)@.len() == reg@.len(),
        forall|y: int| 0 <= y < reg@.len() && #[trigger] old(visited)@[y] ==> final(visited)@[y],
        forall|y: int| 0 <= y < reg@.len() && #[trigger] final(visited)@[y] ==> frag_reached(deref_frags(reg@), local as int, start, y),
        forall|y: int| 0 <= y < reg@.len() && final(visited)@[y] && !old(visited)@[y] ==> #[trigger] final(stack)@.contains(y as usize),
        forall|k: int| 0 <= k < old(stack)@.len() ==> final(stack)@[k] == old(stack)@[k],
        old(stack)@.len() <= final(stack)@.len(),
        forall|k: int| 0 <= k < final(stack)@.len() ==> (#[trigger] final(stack)@[k]) < reg@.len() && final(visited)@[final(stack)@[k] as int],
        count_unset(final(visited)@) + final(stack)@.len() == count_unset(old(visited)@) + old(stack)@.len(),
        forall|m: Seq<char>, y: int| names_contain(names@, m) && #[trigger] resolves_to(deref_frags(reg@), local as int, m, y)
            ==> final(visited)@[y],
{
    let ghost e = deref_frags(reg@);
    let ghost v0 = visited@;
    let ghost s0 = stack@;
    let mut t: usize = 0;
    while t < names.len()
        invariant
            0 <= t <= names@.len(),
            local <= reg@.len(),
            e == deref_frags(reg@),
            visited@.len() == reg@.len(),
            0 <= x < reg@.len(),
            frag_reached_within(e, local as int, start, kx, x),
            forall|m: Seq<char>| names_contain(names@, m) ==> direct_spread(frag_sels(e[x]), m),
            forall|y: int| 0 <= y < reg@.len() && #[trigger] v0[y] ==> visited@[y],
            forall|y: int| 0 <= y < reg@.len() && #[trigger] visited@[y] ==> frag_reached(e, local as int, start, y),
            forall|y: int| 0 <= y < reg@.len() && visited@[y] && !v0[y] ==> #[trigger] stack@.contains(y as usize),
            forall|k: int| 0 <= k < s0.len() ==> stack@[k] == s0[k],
            s0.len() <= stack@.len(),
            forall|k: int| 0 <= k < stack@.len() ==> (#[trigger] stack@[k]) < reg@.len() && visited@[stack@[k] as int],
            count_unset(visited@) + stack@.len() == count_unset(v0) + s0.len(),
            forall|j: int, y: int| 0 <= j < t && #[trigger] resolves_to(e, local as int, names@[j]@, y) ==> visited@[y],
        decreases names@.len() - t,
    {
        let target = resolve(reg, local, names[t].as_str());
        match target {
            Some(y) => {
                if !visited[y] {
                    proof {
                        lemma_count_unset_mark(visited@, y as int);
                        assert(names_contain(names@, names@[t as int]@));
                        assert(direct_spread(frag_sels(e[x]), names@[t as int]@));
                        assert(frag_refs(e, local as int, x, y as int));
                        assert(frag_reached_within(e, local as int, start, kx + 1, y as int));
                    }
                    let ghost st = stack@;
                    visited.set(y, true);
                    stack.push(y);
                    proof {
                        assert(stack@[st.len() as int] == y);
                        assert forall|z: int| 0 <= z < reg@.len() && visited@[z] && !v0[z] implies #[trigger] stack@.contains(z as usize) by {
                            if z != y {
                                assert(st.contains(z as usize));
                                let w = choose|w: int| 0 <= w < st.len() && st[w] == z as usize;
                                assert(stack@[w] == z as usize);
                            }
                        }
                    }
                }
                proof {
                    assert forall|j: int, z: int| 0 <= j < t + 1 && #[trigger] resolves_to(e, local as int, names@[j]@, z) implies visited@[z] by {
                        if j == t {
                            lemma_resolves_unique(e, local as int, names@[j]@, z, y as int);
                        }
                    }
                }
            },
            None => {},
        }
        t += 1;
    }
    proof {
        assert forall|m: Seq<char>, y: int| names_contain(names@, m) && #[trigger] resolves_to(e, local as int, m, y) implies visited@[y] by {
            let j = choose|j: int| 0 <= j < names@.len() && (#[trigger] names@[j])@ == m;
            assert(resolves_to(e, local as int, names@[j]@, y));
        }
    }
}

/// Which entries are reached from the name `start`, by index.
fn fragment_closure(reg: &Vec<&FragmentDefinition>, local: usize, start: &str) -> (v: Vec<bool>)
    requires
        local <= reg@.len(),
    ensures
        v@.len() == reg@.len(),
        forall|x: int| 0 <= x < reg@.len() ==> (v@[x] <==> frag_reached(deref_frags(reg@), local as int, start@, x)),
{
    let ghost e = deref_frags(reg@);
    let n = reg.len();
    let mut visited: Vec<bool> = Vec::new();
    let mut done: Vec<bool> = Vec::new();
    let mut z: usize = 0;
    while z < n
        invariant
            0 <= z <= n,
            n == reg@.len(),
            visited@.len() == z,
            done@.len() == z,
            forall|x: int| 0 <= x < z ==> !(#[trigger] visited@[x]),
            forall|x: int| 0 <= x < z ==> !(#[trigger] done@[x]),
        decreases n - z,
    {
        visited.push(false);
        done.push(false);
        z += 1;
    }
    let mut stack: Vec<usize> = Vec::new();
    match resolve(reg, local, start) {
        Some(r) => {
            proof {
                lemma_count_unset_mark(visited@, r as int);
                assert(frag_reached_within(e, local as int, start@, 0, r as int));
            }
            visited.set(r, true);
            stack.push(r);
            proof {
                assert forall|y: int| 0 <= y < n && #[trigger] resolves_to(e, local as int, start@, y) implies visited@[y] by {
                    lemma_resolves_unique(e, local as int, start@, y, r as int);
                }
                assert(stack@[0] == r);
            }
        },
        None => {},
    }
    while stack.len() > 0
        invariant
            n == reg@.len(),
            local <= n,
            e == deref_frags(reg@),
            visited@.len() == n,
            done@.len() == n,
            forall|x: int| 0 <= x < n && #[trigger] visited@[x] ==> frag_reached(e, local as int, start@, x),
            forall|y: int| 0 <= y < n && #[trigger] resolves_to(e, local as int, start@, y) ==> visited@[y],
            forall|a: int, b: int| 0 <= a < n && 0 <= b < n && done@[a]
                && #[trigger] frag_refs(e, local as int, a, b) ==> visited@[b],
            forall|x: int| 0 <= x < n && visited@[x] && !(#[trigger] done@[x]) ==> stack@.contains(x as usize),
            forall|k: int| 0 <= k < stack@.len() ==> (#[trigger] stack@[k]) < n && visited@[stack@[k] as int],
            forall|x: int| 0 <= x < n && #[trigger] done@[x] ==> visited@[x],
        decreases count_unset(visited@), stack@.len(),
    {
        let ghost c0 = count_unset(visited@);
        let ghost s0 = stack@.len();
        let ghost old_stack = stack@;
        let i = stack.pop().unwrap();
        assert(stack@ =~= old_stack.drop_last());
        assert(old_stack[old_stack.len() - 1] == i);
        proof {
            assert forall|x: int| 0 <= x < n && visited@[x] && !(#[trigger] done@[x]) && x != i implies stack@.contains(x as usize) by {
                let w = choose|w: int| 0 <= w < old_stack.len() && old_stack[w] == x as usize;
                assert(w != old_stack.len() - 1);
                assert(stack@[w] == x as usize);
            }
        }
        if done[i] {
            continue;
        }
        done.set(i, true);
        let ghost ki = choose|k: nat| #[trigger] frag_reached_within(e, local as int, start@, k, i as int);
        let names = direct_spreads_of(reg[i]);
        let ghost v1 = visited@;
        let ghost st1 = stack@;
        mark_spread_targets(reg, local, &names, &mut visited, &mut stack, Ghost(start@), Ghost(ki), Ghost(i as int));
        proof {
            assert forall|a: int, b: int| 0 <= a < n && 0 <= b < n && done@[a]
                && #[trigger] frag_refs(e, local as int, a, b) implies visited@[b] by {
                if a == i {
                    let m = choose|m: Seq<char>| #[trigger] direct_spread(frag_sels(e[a]), m) && resolves_to(e, local as int, m, b);
                    assert(names_contain(names@, m));
                } else {
                    assert(v1[b]);
                }
            }
            assert forall|x: int| 0 <= x < n && visited@[x] && !(#[trigger] done@[x]) implies stack@.contains(x as usize) by {
                if v1[x] {
                    assert(st1.contains(x as usize));
                    let w = choose|w: int| 0 <= w < st1.len() && st1[w] == x as usize;
                    assert(stack@[w] == x as usize);
                }
            }
            assert forall|y: int| 0 <= y < n && #[trigger] resolves_to(e, local as int, start@, y) implies visited@[y] by {
                assert(v1[y]);
            }
            assert forall|x: int| 0 <= x < n && #[trigger] done@[x] implies visited@[x] by {
                if x != i {
                    assert(v1[x]);
                }
            }
        }
    }
    proof {
        assert forall|x: int| 0 <= x < n && visited@[x] implies #[trigger] done@[x] by {
            if !done@[x] {
                assert(stack@.contains(x as usize));
            }
        }
        assert forall|x: int| 0 <= x < n implies (visited@[x] <==> frag_reached(e, local as int, start@, x)) by {
            if frag_reached(e, local as int, start@, x) {
                let k = choose|k: nat| #[trigger] frag_reached_within(e, local as int, start@, k, x);
                lemma_closed_reached(e, local as int, start@, visited@, k, x);
            }
        }
    }
    visited
}

/// The fragments spread at the top level of `sels`, in order.
pub open spec fn spread_names(sels: Seq<Selection>) -> Seq<Seq<char>>
    decreases sels.len(),
{
    if sels.len() == 0 {
        seq![]
    } else {
        spread_names(sels.drop_last()) + match sels.last() {
            Selection::FragmentSpread(sp) => match sp.name {
                Some(n) => seq![n.value@],
                None => seq![],
            },
            _ => seq![],
        }
    }
}

/// Some fragment spread at the top level of `sels` selects a field with key `key`.
pub open spec fn from_fragments(entries: Seq<FragmentDefinition>, local: int, sels: Seq<Selection>, key: (Seq<char>, Option<Seq<char>>)) -> bool {
    exists|i: int| 0 <= i < spread_names(sels).len() && #[trigger] provides(entries, local, spread_names(sels)[i], key)
}

/// The key of selection `i` of `sels`, when it is a field with a name.
pub open spec fn key_at(sels: Seq<Selection>, i: int) -> Option<(Seq<char>, Option<Seq<char>>)> {
    match sels[i] {
        Selection::Field(f) => field_key(f),
        _ => None,
    }
}

/// Selection `i` of `sels` is the first field with its key.
pub open spec fn first_of_key(sels: Seq<Selection>, i: int) -> bool {
    key_at(sels, i) is Some && forall|j: int| 0 <= j < i ==> #[trigger] key_at(sels, j) != key_at(sels, i)
}

/// How messages name a field: `'alias: name'` or `'name'`.
pub open spec fn describe(key: (Seq<char>, Option<Seq<char>>)) -> Seq<char> {
    match key.1 {
        Some(a) => "'"@ + a + ": "@ + key.0 + "'"@,
        None => "'"@ + key.0 + "'"@,
    }
}

/// How messages name the fragments `names`.
pub open spec fn fragment_list(names: Seq<Seq<char>>) -> Seq<char> {
    if names.len() == 1 {
        "fragment '"@ + names[0] + "'"@
    } else {
        "fragments "@ + join_with(Seq::new(names.len(), |i: int| "'"@ + names[i] + "'"@), ", "@)
    }
}

/// A report about field `f` (with key `key`) of `doc`, with a fix that
/// deletes it (with its line when it stands alone there).
pub open spec fn field_report(doc: ExecutableDocument, f: FieldSelection, message: Seq<char>, label: Seq<char>) -> DiagnosticView {
    let r = spec_line_deletion_range(vstd::utf8::encode_utf8(doc.source@), f.range.start as int, f.range.end as int);
    let nm = f.name.unwrap();
    (
        doc.spec_span(nm.range.start, nm.range.end),
        LintSeverity::Warning,
        message,
        "redundant_fields"@,
        Some((label, seq![(r.0, r.1, Seq::<char>::empty())])),
    )
}

/// The report about a field selected again under the key `key`.
pub open spec fn dup_report(doc: ExecutableDocument, f: FieldSelection, key: (Seq<char>, Option<Seq<char>>)) -> DiagnosticView {
    field_report(doc, f,
        "Field "@ + describe(key) + " is selected multiple times in the same selection set"@,
        "Remove duplicate field "@ + describe(key))
}

/// The report about a field that a sibling spread already selects.
pub open spec fn redundant_report(doc: ExecutableDocument, ctx: Seq<Selection>, f: FieldSelection, key: (Seq<char>, Option<Seq<char>>)) -> DiagnosticView {
    field_report(doc, f,
        "Field "@ + describe(key) + " is redundant - already included in "@ + fragment_list(spread_names(ctx)),
        "Remove redundant field "@ + describe(key))
}

/// Reports about the fields among the first `t` selections of `sels`
/// with key `key`, all but the first such field of `sels`.
pub open spec fn key_members(doc: ExecutableDocument, sels: Seq<Selection>, key: (Seq<char>, Option<Seq<char>>), t: int) -> Seq<DiagnosticView>
    decreases t,
{
    if t <= 0 {
        seq![]
    } else {
        key_members(doc, sels, key, t - 1) + match sels[t - 1] {
            Selection::Field(f) => if field_key(f) == Some(key) && !first_of_key(sels, t - 1) {
                seq![dup_report(doc, f, key)]
            } else {
                seq![]
            },
            _ => seq![],
        }
    }
}

/// Reports about the fields of `sels` selected more than once: one group
/// per key, in the order the keys first occur among the first `t`
/// selections, each reporting every occurrence but the first.
pub open spec fn dup_reports(doc: ExecutableDocument, sels: Seq<Selection>, t: int) -> Seq<DiagnosticView>
    decreases t,
{
    if t <= 0 {
        seq![]
    } else {
        dup_reports(doc, sels, t - 1) + if first_of_key(sels, t - 1) {
            key_members(doc, sels, key_at(sels, t - 1).unwrap(), sels.len() as int)
        } else {
            seq![]
        }
    }
}

/// Reports about the selections `sels` of the set `ctx`: each field that
/// a sibling spread of `ctx` already selects, then the reports inside the
/// field's or inline fragment's own selection set.
pub open spec fn redundancy_walk(entries: Seq<FragmentDefinition>, local: int, doc: ExecutableDocument, ctx: Seq<Selection>, sels: Seq<Selection>) -> Seq<DiagnosticView>
    decreases sels, 0int,
{
    if sels.len() == 0 {
        seq![]
    } else {
        let k = sels.len() - 1;
        redundancy_walk(entries, local, doc, ctx, sels.subrange(0, k)) + match sels[k] {
            Selection::Field(f) => (match field_key(f) {
                Some(key) => if from_fragments(entries, local, ctx, key) {
                    seq![redundant_report(doc, ctx, f, key)]
                } else {
                    seq![]
                },
                None => seq![],
            }) + match f.selection_set {
                Some(ss) => set_reports(entries, local, doc, ss.selections@),
                None => seq![],
            },
            Selection::InlineFragment(i) => match i.selection_set {
                Some(ss) => set_reports(entries, local, doc, ss.selections@),
                None => seq![],
            },
            Selection::FragmentSpread(_) => seq![],
        }
    }
}

/// Reports about the selection set `sels` of `doc`: its duplicate fields,
/// then its fields that sibling spreads already select, at every depth.
pub open spec fn set_reports(entries: Seq<FragmentDefinition>, local: int, doc: ExecutableDocument, sels: Seq<Selection>) -> Seq<DiagnosticView>
    decreases sels, 1int,
{
    dup_reports(doc, sels, sels.len() as int) + redundancy_walk(entries, local, doc, sels, sels)
}

/// Every field within `sels`, at any depth, lies within the first `n` bytes.
pub open spec fn fields_fit(sels: Seq<Selection>, n: nat) -> bool
    decreases sels,
{
    if sels.len() == 0 {
        true
    } else {
        let k = sels.len() - 1;
        fields_fit(sels.subrange(0, k), n) && match sels[k] {
            Selection::Field(f) => f.range.start <= f.range.end <= n && match f.selection_set {
                Some(ss) => fields_fit(ss.selections@, n),
                None => true,
            },
            Selection::InlineFragment(i) => match i.selection_set {
                Some(ss) => fields_fit(ss.selections@, n),
                None => true,
            },
            Selection::FragmentSpread(_) => true,
        }
    }
}

/// The view of an optional alias.
pub open spec fn alias_view(a: Option<&str>) -> Option<Seq<char>> {
    match a {
        Some(x) => Some(x@),
        None => None,
    }
}

/// The key of `f` as borrowed strings.
fn key_parts(f: &FieldSelection) -> (r: Option<(&str, Option<&str>)>)
    ensures
        r matches Some((n, a)) ==> field_key(*f) == Some((n@, alias_view(a))),
        r is None ==> field_key(*f) is None,
{
    match &f.name {
        Some(n) => {
            let a: Option<&str> = match &f.alias {
                Some(x) => Some(x.value.as_str()),
                None => None,
            };
            Some((n.value.as_str(), a))
        },
        None => None,
    }
}

/// Whether selection `s` is a field with key `(name, alias)`.
fn has_key(s: &Selection, name: &str, alias: Option<&str>) -> (r: bool)
    ensures
        r == (match *s {
            Selection::Field(f) => field_key(f),
            _ => None,
        } == Some((name@, alias_view(alias)))),
{
    match s {
        Selection::Field(f) => match key_parts(f) {
            Some((n, a)) => str_eq(n, name) && match (a, alias) {
                (Some(x), Some(y)) => str_eq(x, y),
                (None, None) => true,
                _ => false,
            },
            None => false,
        },
        _ => false,
    }
}

/// The names of the fragments spread at the top level of `ss`, in order.
fn top_spread_names(ss: &SelectionSet) -> (r: Vec<String>)
    ensures
        strings_view(r@) == spread_names(ss.selections@),
{
    let mut out: Vec<String> = Vec::new();
    let mut k: usize = 0;
    assert(strings_view(out@) =~= spread_names(ss.selections@.take(0)));
    while k < ss.selections.len()
        invariant
            0 <= k <= ss.selections@.len(),
            strings_view(out@) == spread_names(ss.selections@.take(k as int)),
        decreases ss.selections@.len() - k,
    {
        assert(ss.selections@.take(k + 1).drop_last() =~= ss.selections@.take(k as int));
        let ghost prev = out@;
        if let Selection::FragmentSpread(sp) = &ss.selections[k] {
            if let Some(n) = &sp.name {
                out.push(n.value.clone());
                assert(strings_view(out@) =~= strings_view(prev).push(n.value@));
            }
        }
        assert(strings_view(out@) =~= spread_names(ss.selections@.take(k + 1)));
        k += 1;
    }
    assert(ss.selections@.take(k as int) =~= ss.selections@);
    out
}

/// Whether some entry marked in `reached` has a field with key `(name, alias)`.
fn reached_provides(reg: &Vec<&FragmentDefinition>, reached: &Vec<bool>, name: &str, alias: Option<&str>) -> (r: bool)
    requires
        reached@.len() == reg@.len(),
    ensures
        r == exists|x: int| 0 <= x < reg@.len() && reached@[x]
            && #[trigger] direct_key(frag_sels(deref_frags(reg@)[x]), (name@, alias_view(alias))),
{
    let ghost e = deref_frags(reg@);
    let ghost key = (name@, alias_view(alias));
    let mut x: usize = 0;
    while x < reg.len()
        invariant
            0 <= x <= reg@.len(),
            reached@.len() == reg@.len(),
            e == deref_frags(reg@),
            key == (name@, alias_view(alias)),
            forall|y: int| 0 <= y < x && reached@[y] ==> !#[trigger] direct_key(frag_sels(e[y]), key),
        decreases reg@.len() - x,
    {
        if reached[x] {
            let hit = match &reg[x].selection_set {
                Some(ss) => has_direct_key(ss, name, alias),
                None => false,
            };
            if hit {
                assert(direct_key(frag_sels(e[x as int]), key));
                return true;
            }
        }
        x += 1;
    }
    false
}

/// The entries reached from each of the names `names`.
fn closures_of(reg: &Vec<&FragmentDefinition>, local: usize, names: &Vec<String>) -> (r: Vec<Vec<bool>>)
    requires
        local <= reg@.len(),
    ensures
        r@.len() == names@.len(),
        forall|i: int| 0 <= i < names@.len() ==> (#[trigger] r@[i])@.len() == reg@.len(),
        forall|i: int, x: int| 0 <= i < names@.len() && 0 <= x < reg@.len()
            ==> ((#[trigger] r@[i]@[x]) <==> frag_reached(deref_frags(reg@), local as int, names@[i]@, x)),
{
    let mut out: Vec<Vec<bool>> = Vec::new();
    let mut i: usize = 0;
    while i < names.len()
        invariant
            0 <= i <= names@.len(),
            local <= reg@.len(),
            out@.len() == i,
            forall|j: int| 0 <= j < i ==> (#[trigger] out@[j])@.len() == reg@.len(),
            forall|j: int, x: int| 0 <= j < i && 0 <= x < reg@.len()
                ==> ((#[trigger] out@[j]@[x]) <==> frag_reached(deref_frags(reg@), local as int, names@[j]@, x)),
        decreases names@.len() - i,
    {
        let c = fragment_closure(reg, local, names[i].as_str());
        out.push(c);
        i += 1;
    }
    out
}

/// Whether some spread among `names` selects a field with key `(name, alias)`.
fn from_fragments_exec(
    reg: &Vec<&FragmentDefinition>,
    local: usize,
    names: &Vec<String>,
    closures: &Vec<Vec<bool>>,
    name: &str,
    alias: Option<&str>,
) -> (r: bool)
    requires
        local <= reg@.len(),
        closures@.len() == names@.len(),
        forall|i: int| 0 <= i < names@.len() ==> (#[trigger] closures@[i])@.len() == reg@.len(),
        forall|i: int, x: int| 0 <= i < names@.len() && 0 <= x < reg@.len()
            ==> ((#[trigger] closures@[i]@[x]) <==> frag_reached(deref_frags(reg@), local as int, names@[i]@, x)),
    ensures
        r == exists|i: int| 0 <= i < names@.len()
            && #[trigger] provides(deref_frags(reg@), local as int, strings_view(names@)[i], (name@, alias_view(alias))),
{
    let ghost e = deref_frags(reg@);
    let ghost key = (name@, alias_view(alias));
    let mut i: usize = 0;
    while i < names.len()
        invariant
            0 <= i <= names@.len(),
            local <= reg@.len(),
            e == deref_frags(reg@),
            key == (name@, alias_view(alias)),
            closures@.len() == names@.len(),
            forall|j: int| 0 <= j < names@.len() ==> (#[trigger] closures@[j])@.len() == reg@.len(),
            forall|j: int, x: int| 0 <= j < names@.len() && 0 <= x < reg@.len()
                ==> ((#[trigger] closures@[j]@[x]) <==> frag_reached(e, local as int, names@[j]@, x)),
            forall|j: int| 0 <= j < i ==> !#[trigger] provides(e, local as int, strings_view(names@)[j], key),
        decreases names@.len() - i,
    {
        let hit = reached_provides(reg, &closures[i], name, alias);
        assert(strings_view(names@)[i as int] == names@[i as int]@);
        if hit {
            proof {
                let x = choose|x: int| 0 <= x < reg@.len() && closures@[i as int]@[x]
                    && #[trigger] direct_key(frag_sels(e[x]), key);
                assert(provides(e, local as int, strings_view(names@)[i as int], key));
            }
            return true;
        }
        proof {
            assert forall|x: int| 0 <= x < e.len() && frag_reached(e, local as int, names@[i as int]@, x)
                implies !#[trigger] direct_key(frag_sels(e[x]), key) by {
                assert(closures@[i as int]@[x]);
            }
        }
        i += 1;
    }
    false
}

proof fn lemma_fields_fit_at(sels: Seq<Selection>, k: int, n: nat)
    requires
        fields_fit(sels, n),
        0 <= k < sels.len(),
    ensures
        match sels[k] {
            Selection::Field(f) => f.range.start <= f.range.end <= n && match f.selection_set {
                Some(ss) => fields_fit(ss.selections@, n),
                None => true,
            },
            Selection::InlineFragment(i) => match i.selection_set {
                Some(ss) => fields_fit(ss.selections@, n),
                None => true,
            },
            Selection::FragmentSpread(_) => true,
        },
    decreases sels.len(),
{
    let m = sels.len() - 1;
    if k < m {
        lemma_fields_fit_at(sels.subrange(0, m), k, n);
        assert(sels.subrange(0, m)[k] == sels[k]);
    }
}

fn describe_exec(name: &str, alias: Option<&str>) -> (r: String)
    ensures
        r@ == describe((name@, alias_view(alias))),
{
    let mut r = "'".to_owned();
    match alias {
        Some(a) => {
            r.append(a);
            r.append(": ");
        },
        None => {},
    }
    r.append(name);
    r.append("'");
    r
}

fn fragment_list_exec(names: &Vec<String>) -> (r: String)
    ensures
        r@ == fragment_list(strings_view(names@)),
{
    if names.len() == 1 {
        let mut r = "fragment '".to_owned();
        r.append(names[0].as_str());
        r.append("'");
        return r;
    }
    let mut quoted: Vec<String> = Vec::new();
    let mut k: usize = 0;
    while k < names.len()
        invariant
            0 <= k <= names@.len(),
            strings_view(quoted@) == Seq::new(k as nat, |i: int| "'"@ + names@[i]@ + "'"@),
        decreases names@.len() - k,
    {
        let mut q = "'".to_owned();
        q.append(names[k].as_str());
        q.append("'");
        let ghost prev = quoted@;
        quoted.push(q);
        assert(strings_view(quoted@) =~= strings_view(prev).push(q@));
        assert(strings_view(quoted@) =~= Seq::new((k + 1) as nat, |i: int| "'"@ + names@[i]@ + "'"@));
        k += 1;
    }
    let ghost sv = strings_view(names@);
    assert(strings_view(quoted@) =~= Seq::new(sv.len(), |i: int| "'"@ + sv[i] + "'"@));
    let mut r = "fragments ".to_owned();
    let joined = join_strings(&quoted, ", ");
    r.append(joined.as_str());
    r
}

fn push_field_report(doc: &ExecutableDocument, f: &FieldSelection, message: &str, label: &str, out: &mut Vec<LintDiagnostic>)
    requires
        f.name is Some,
        f.range.start <= f.range.end <= vstd::utf8::encode_utf8(doc.source@).len(),
    ensures
        diags_view(final(out)@) == diags_view(old(out)@).push(field_report(*doc, *f, message@, label@)),
{
    let (ds, de) = compute_line_deletion_range(doc.source.as_str(), f.range.start, f.range.end);
    let nm = f.name.as_ref().unwrap();
    let fix = CodeFix::delete(label, ds, de);
    assert(fix.view().1 =~= seq![(ds as int, de as int, Seq::<char>::empty())]);
    let d = LintDiagnostic::warning(doc.span(nm.range.start, nm.range.end), message, "redundant_fields").with_fix(fix);
    push_diag(out, d);
}

fn emit_key_members(doc: &ExecutableDocument, ss: &SelectionSet, i: usize, name: &str, alias: Option<&str>, out: &mut Vec<LintDiagnostic>)
    requires
        0 <= i < ss.selections@.len(),
        first_of_key(ss.selections@, i as int),
        key_at(ss.selections@, i as int) == Some((name@, alias_view(alias))),
        fields_fit(ss.selections@, vstd::utf8::encode_utf8(doc.source@).len()),
    ensures
        diags_view(final(out)@) == diags_view(old(out)@)
            + key_members(*doc, ss.selections@, (name@, alias_view(alias)), ss.selections@.len() as int),
{
    let ghost sels = ss.selections@;
    let ghost key = (name@, alias_view(alias));
    let ghost start = diags_view(out@);
    let desc = describe_exec(name, alias);
    let mut message = "Field ".to_owned();
    message.append(desc.as_str());
    message.append(" is selected multiple times in the same selection set");
    let mut label = "Remove duplicate field ".to_owned();
    label.append(desc.as_str());
    let mut t: usize = 0;
    while t < ss.selections.len()
        invariant
            0 <= t <= sels.len(),
            sels == ss.selections@,
            key == (name@, alias_view(alias)),
            0 <= i < sels.len(),
            first_of_key(sels, i as int),
            key_at(sels, i as int) == Some(key),
            fields_fit(sels, vstd::utf8::encode_utf8(doc.source@).len()),
            message@ == "Field "@ + describe(key) + " is selected multiple times in the same selection set"@,
            label@ == "Remove duplicate field "@ + describe(key),
            diags_view(out@) == start + key_members(*doc, sels, key, t as int),
        decreases sels.len() - t,
    {
        let s = &ss.selections[t];
        let same = has_key(s, name, alias);
        proof {
            if same && (t as int) < i {
                assert(key_at(sels, t as int) != key_at(sels, i as int));
            }
            if same && (t as int) > i {
                assert(key_at(sels, i as int) == key_at(sels, t as int));
                assert(!first_of_key(sels, t as int));
            }
        }
        if same && t != i {
            if let Selection::Field(f) = s {
                proof { lemma_fields_fit_at(sels, t as int, vstd::utf8::encode_utf8(doc.source@).len()); }
                push_field_report(doc, f, message.as_str(), label.as_str(), out);
            }
        }
        t += 1;
    }
}

fn emit_duplicates(doc: &ExecutableDocument, ss: &SelectionSet, out: &mut Vec<LintDiagnostic>)
    requires
        fields_fit(ss.selections@, vstd::utf8::encode_utf8(doc.source@).len()),
    ensures
        diags_view(final(out)@) == diags_view(old(out)@) + dup_reports(*doc, ss.selections@, ss.selections@.len() as int),
{
    let ghost sels = ss.selections@;
    let ghost start = diags_view(out@);
    let mut i: usize = 0;
    assert(diags_view(out@) =~= start + dup_reports(*doc, sels, 0));
    while i < ss.selections.len()
        invariant
            0 <= i <= sels.len(),
            sels == ss.selections@,
            fields_fit(sels, vstd::utf8::encode_utf8(doc.source@).len()),
            diags_view(out@) == start + dup_reports(*doc, sels, i as int),
        decreases sels.len() - i,
    {
        let ghost before = diags_view(out@);
        let parts = match &ss.selections[i] {
            Selection::Field(f) => key_parts(f),
            _ => None,
        };
        match parts {
            Some((name, alias)) => {
                let mut first = true;
                let mut j: usize = 0;
                while j < i
                    invariant
                        0 <= j <= i < sels.len(),
                        sels == ss.selections@,
                        key_at(sels, i as int) == Some((name@, alias_view(alias))),
                        first == forall|x: int| 0 <= x < j ==> #[trigger] key_at(sels, x) != key_at(sels, i as int),
                    decreases i - j,
                {
                    if has_key(&ss.selections[j], name, alias) {
                        first = false;
                    }
                    proof {
                        if !first {
                            if has_key_spec(sels[j as int], name@, alias_view(alias)) {
                                assert(key_at(sels, j as int) == key_at(sels, i as int));
                            }
                        }
                    }
                    j += 1;
                }
                if first {
                    emit_key_members(doc, ss, i, name, alias, out);
                }
                assert(first == first_of_key(sels, i as int));
            },
            None => {
                assert(!first_of_key(sels, i as int));
            },
        }
        assert(diags_view(out@) =~= start + dup_reports(*doc, sels, i + 1));
        i += 1;
    }
}

/// Selection `s` is a field with key `(n, a)`.
pub open spec fn has_key_spec(s: Selection, n: Seq<char>, a: Option<Seq<char>>) -> bool {
    match s {
        Selection::Field(f) => field_key(f) == Some((n, a)),
        _ => false,
    }
}

/// Reports the duplicate fields of `ss`, then each field that a sibling
/// spread of `ss` already selects, then does the same inside the nested
/// selection sets of its fields and inline fragments.
fn check_selection_set_for_redundancy(
    reg: &Vec<&FragmentDefinition>,
    local: usize,
    doc: &ExecutableDocument,
    ss: &SelectionSet,
    out: &mut Vec<LintDiagnostic>,
)
    requires
        local <= reg@.len(),
        fields_fit(ss.selections@, vstd::utf8::encode_utf8(doc.source@).len()),
    ensures
        diags_view(final(out)@) == diags_view(old(out)@) + set_reports(deref_frags(reg@), local as int, *doc, ss.selections@),
    decreases ss,
{
    let ghost e = deref_frags(reg@);
    let ghost sels = ss.selections@;
    let ghost nb = vstd::utf8::encode_utf8(doc.source@).len();
    let ghost start = diags_view(out@);
    let names = top_spread_names(ss);
    let closures = closures_of(reg, local, &names);
    let list = fragment_list_exec(&names);
    emit_duplicates(doc, ss, out);
    let ghost dups = diags_view(out@);
    let mut k: usize = 0;
    assert(sels.subrange(0, 0) =~= Seq::<Selection>::empty());
    assert(diags_view(out@) =~= dups + redundancy_walk(e, local as int, *doc, sels, sels.subrange(0, 0)));
    while k < ss.selections.len()
        invariant
            0 <= k <= sels.len(),
            sels == ss.selections@,
            e == deref_frags(reg@),
            nb == vstd::utf8::encode_utf8(doc.source@).len(),
            local <= reg@.len(),
            fields_fit(sels, nb),
            strings_view(names@) == spread_names(sels),
            list@ == fragment_list(spread_names(sels)),
            closures@.len() == names@.len(),
            forall|j: int| 0 <= j < names@.len() ==> (#[trigger] closures@[j])@.len() == reg@.len(),
            forall|j: int, x: int| 0 <= j < names@.len() && 0 <= x < reg@.len()
                ==> ((#[trigger] closures@[j]@[x]) <==> frag_reached(e, local as int, names@[j]@, x)),
            diags_view(out@) == dups + redundancy_walk(e, local as int, *doc, sels, sels.subrange(0, k as int)),
        decreases sels.len() - k,
    {
        assert(sels.subrange(0, k + 1).subrange(0, k as int) =~= sels.subrange(0, k as int));
        assert(sels.subrange(0, k + 1)[k as int] == sels[k as int]);
        proof { lemma_fields_fit_at(sels, k as int, nb); }
        let ghost before = diags_view(out@);
        match &ss.selections[k] {
            Selection::Field(f) => {
                match key_parts(f) {
                    Some((name, alias)) => {
                        if from_fragments_exec(reg, local, &names, &closures, name, alias) {
                            let desc = describe_exec(name, alias);
                            let mut message = "Field ".to_owned();
                            message.append(desc.as_str());
                            message.append(" is redundant - already included in ");
                            message.append(list.as_str());
                            let mut label = "Remove redundant field ".to_owned();
                            label.append(desc.as_str());
                            push_field_report(doc, f, message.as_str(), label.as_str(), out);
                        }
                    },
                    None => {},
                }
                let ghost mid = diags_view(out@);
                match &f.selection_set {
                    Some(nested) => check_selection_set_for_redundancy(reg, local, doc, nested, out),
                    None => {},
                }
                assert(diags_view(out@) =~= before + (mid.subrange(before.len() as int, mid.len() as int)
                    + diags_view(out@).subrange(mid.len() as int, diags_view(out@).len() as int)));
            },
            Selection::InlineFragment(i) => match &i.selection_set {
                Some(nested) => check_selection_set_for_redundancy(reg, local, doc, nested, out),
                None => {},
            },
            Selection::FragmentSpread(_) => {},
        }
        assert(diags_view(out@) =~= dups + redundancy_walk(e, local as int, *doc, sels, sels.subrange(0, k + 1)));
        k += 1;
    }
    assert(sels.subrange(0, sels.len() as int) =~= sels);
}

/// The field ranges of every operation and fragment of `doc` lie within
/// its source.
pub open spec fn doc_fields_fit(doc: ExecutableDocument) -> bool {
    forall|k: int| 0 <= k < doc.definitions@.len() ==> match #[trigger] doc.definitions@[k] {
        Definition::Operation(op) => match op.selection_set {
            Some(ss) => fields_fit(ss.selections@, vstd::utf8::encode_utf8(doc.source@).len()),
            None => true,
        },
        Definition::Fragment(fr) => match fr.selection_set {
            Some(ss) => fields_fit(ss.selections@, vstd::utf8::encode_utf8(doc.source@).len()),
            None => true,
        },
        Definition::TypeSystem { .. } => true,
    }
}

/// The reports about the definitions `defs` of `doc`.
pub open spec fn doc_redundancy_reports(entries: Seq<FragmentDefinition>, local: int, doc: ExecutableDocument, defs: Seq<Definition>) -> Seq<DiagnosticView>
    decreases defs.len(),
{
    if defs.len() == 0 {
        seq![]
    } else {
        doc_redundancy_reports(entries, local, doc, defs.drop_last()) + match defs.last() {
            Definition::Operation(op) => match op.selection_set {
                Some(ss) => set_reports(entries, local, doc, ss.selections@),
                None => seq![],
            },
            Definition::Fragment(fr) => match fr.selection_set {
                Some(ss) => set_reports(entries, local, doc, ss.selections@),
                None => seq![],
            },
            Definition::TypeSystem { .. } => seq![],
        }
    }
}

/// The reports about the blocks `docs`.
pub open spec fn redundancy_reports(entries: Seq<FragmentDefinition>, local: int, docs: Seq<ExecutableDocument>) -> Seq<DiagnosticView>
    decreases docs.len(),
{
    if docs.len() == 0 {
        seq![]
    } else {
        redundancy_reports(entries, local, docs.drop_last())
            + doc_redundancy_reports(entries, local, docs.last(), docs.last().definitions@)
    }
}

fn check_document_for_redundancy(reg: &Vec<&FragmentDefinition>, local: usize, doc: &ExecutableDocument, out: &mut Vec<LintDiagnostic>)
    requires
        local <= reg@.len(),
        doc_fields_fit(*doc),
    ensures
        diags_view(final(out)@) == diags_view(old(out)@)
            + doc_redundancy_reports(deref_frags(reg@), local as int, *doc, doc.definitions@),
{
    let ghost start = diags_view(out@);
    let mut k: usize = 0;
    assert(diags_view(out@) =~= start + doc_redundancy_reports(deref_frags(reg@), local as int, *doc, doc.definitions@.take(0)));
    while k < doc.definitions.len()
        invariant
            0 <= k <= doc.definitions@.len(),
            local <= reg@.len(),
            doc_fields_fit(*doc),
            diags_view(out@) == start + doc_redundancy_reports(deref_frags(reg@), local as int, *doc, doc.definitions@.take(k as int)),
        decreases doc.definitions@.len() - k,
    {
        assert(doc.definitions@.take(k + 1).drop_last() =~= doc.definitions@.take(k as int));
        let ghost before = diags_view(out@);
        match &doc.definitions[k] {
            Definition::Operation(op) => match &op.selection_set {
                Some(ss) => check_selection_set_for_redundancy(reg, local, doc, ss, out),
                None => {},
            },
            Definition::Fragment(fr) => match &fr.selection_set {
                Some(ss) => check_selection_set_for_redundancy(reg, local, doc, ss, out),
                None => {},
            },
            _ => {},
        }
        assert(diags_view(out@) =~= start + doc_redundancy_reports(deref_frags(reg@), local as int, *doc, doc.definitions@.take(k + 1)));
        k += 1;
    }
    assert(doc.definitions@.take(k as int) =~= doc.definitions@);
}

impl RedundantFieldsRuleImpl {
    /// Reports, in every operation and fragment of the blocks `docs` of a
    /// file, the fields selected twice in one selection set and the fields
    /// that a sibling fragment spread already selects. Spreads resolve to
    /// the file's own fragments (the last of a name), else to `others`
    /// (fragments of other files, the first of a name).
    pub fn check(&self, docs: &Vec<ExecutableDocument>, others: &Vec<FragmentDefinition>) -> (r: Vec<LintDiagnostic>)
        requires
            forall|k: int| 0 <= k < docs@.len() ==> doc_fields_fit(#[trigger] docs@[k]),
        ensures
            diags_view(r@) == redundancy_reports(local_fragments(docs@) + others@, local_fragments(docs@).len() as int, docs@),
    {
        let (reg, local) = build_registry(docs, others);
        let ghost e = deref_frags(reg@);
        assert(e.len() == reg@.len());
        assert(local as int == local_fragments(docs@).len());
        assert(e =~= local_fragments(docs@) + others@);
        let mut out: Vec<LintDiagnostic> = Vec::new();
        let mut k: usize = 0;
        assert(diags_view(out@) =~= redundancy_reports(e, local as int, docs@.take(0)));
        while k < docs.len()
            invariant
                0 <= k <= docs@.len(),
                e == deref_frags(reg@),
                local <= reg@.len(),
                forall|j: int| 0 <= j < docs@.len() ==> doc_fields_fit(#[trigger] docs@[j]),
                diags_view(out@) == redundancy_reports(e, local as int, docs@.take(k as int)),
            decreases docs@.len() - k,
        {
            assert(docs@.take(k + 1).drop_last() =~= docs@.take(k as int));
            assert(doc_fields_fit(docs@[k as int]));
            check_document_for_redundancy(&reg, local, &docs[k], &mut out);
            k += 1;
        }
        assert(docs@.take(k as int) =~= docs@);
        out
    }
}

/// The keys of the fields of `sels` are pairwise distinct.
pub open spec fn distinct_keys(sels: Seq<Selection>) -> bool {
    forall|i: int, j: int| 0 <= i < j < sels.len() && key_at(sels, i) is Some
        ==> #[trigger] key_at(sels, i) != #[trigger] key_at(sels, j)
}

proof fn lemma_key_members_empty(doc: ExecutableDocument, sels: Seq<Selection>, key: (Seq<char>, Option<Seq<char>>), t: int)
    requires
        distinct_keys(sels),
        t <= sels.len(),
    ensures
        key_members(doc, sels, key, t) == Seq::<DiagnosticView>::empty(),
    decreases t,
{
    if t > 0 {
        lemma_key_members_empty(doc, sels, key, t - 1);
        let k = t - 1;
        if key_at(sels, k) is Some {
            assert forall|j: int| 0 <= j < k implies #[trigger] key_at(sels, j) != key_at(sels, k) by {
                if key_at(sels, j) is Some {
                    assert(key_at(sels, j) != key_at(sels, k));
                }
            }
            assert(first_of_key(sels, k));
        }
    }
}

proof fn lemma_dup_reports_empty(doc: ExecutableDocument, sels: Seq<Selection>, t: int)
    requires
        distinct_keys(sels),
        t <= sels.len(),
    ensures
        dup_reports(doc, sels, t) == Seq::<DiagnosticView>::empty(),
    decreases t,
{
    if t > 0 {
        lemma_dup_reports_empty(doc, sels, t - 1);
        if first_of_key(sels, t - 1) {
            lemma_key_members_empty(doc, sels, key_at(sels, t - 1).unwrap(), sels.len() as int);
        }
    }
}

/// A selection set whose fields all differ in name or alias has no
/// duplicate-field report: fields with different aliases (or one aliased
/// and one not) are distinct selections.
pub proof fn law_distinct_keys_no_duplicates(doc: ExecutableDocument, sels: Seq<Selection>)
    requires
        distinct_keys(sels),
    ensures
        dup_reports(doc, sels, sels.len() as int) == Seq::<DiagnosticView>::empty(),
{
    lemma_dup_reports_empty(doc, sels, sels.len() as int);
}

} // verus!
