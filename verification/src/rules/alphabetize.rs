//! The `alphabetize` lint rule: names in a list (definitions, fields, input
//! values, enum values, selections, arguments, variables) must come in
//! alphabetical order, optionally by explicit groups first.
use vstd::prelude::*;
use std::cmp::Ordering;
use crate::diagnostics::{diags_view, CodeFix, LintDiagnostic, LintSeverity, SourceSpan, TextEdit};
use vstd::string::StringSliceAdditionalSpecFns;
use crate::text::{chars_eq, lemma_encode_concat, lex_lt, str_lt, str_slice, strings_view, to_chars};
use crate::unicode::{str_lowercase, to_lowercase};
use crate::document::{plain_view, push_diag, Argument, Definition, ExecutableDocument, Name, Selection, SelectionSet, VariableDefinition};
use crate::diagnostics::DiagnosticView;

verus! {

/// Selection-set owners that `alphabetize.selections` may restrict to.
#[derive(Debug, Clone, Copy, PartialEq, Eq, Structural)]
pub enum SelectionsOwner {
    OperationDefinition,
    FragmentDefinition,
}

/// `selections` accepts either a boolean (legacy) or an array of owner kinds.
/// `true` is treated as "both owner kinds enabled".
#[derive(Debug, Clone)]
pub enum SelectionsConfig {
    Bool(bool),
    Owners(Vec<SelectionsOwner>),
}

impl SelectionsConfig {
    /// Selections under `owner` are checked.
    pub open spec fn spec_includes(&self, owner: SelectionsOwner) -> bool {
        match self {
            SelectionsConfig::Bool(b) => *b,
            SelectionsConfig::Owners(list) => list@.contains(owner),
        }
    }

    /// Whether selections under `owner` are checked.
    pub fn includes(&self, owner: SelectionsOwner) -> (b: bool)
        ensures
            b == self.spec_includes(owner),
    {
        match self {
            SelectionsConfig::Bool(b) => *b,
            SelectionsConfig::Owners(list) => contains_owner(list, owner),
        }
    }
}

fn contains_owner(list: &Vec<SelectionsOwner>, owner: SelectionsOwner) -> (b: bool)
    ensures
        b == list@.contains(owner),
{
    let mut k: usize = 0;
    while k < list.len()
        invariant
            0 <= k <= list.len(),
            forall|j: int| 0 <= j < k ==> #[trigger] list@[j] != owner,
        decreases list.len() - k,
    {
        if owner_eq(list[k], owner) {
            assert(list@[k as int] == owner);
            return true;
        }
        k += 1;
    }
    false
}

fn owner_eq(a: SelectionsOwner, b: SelectionsOwner) -> (r: bool)
    ensures
        r == (a == b),
{
    match (a, b) {
        (SelectionsOwner::OperationDefinition, SelectionsOwner::OperationDefinition) => true,
        (SelectionsOwner::FragmentDefinition, SelectionsOwner::FragmentDefinition) => true,
        _ => false,
    }
}

impl Default for SelectionsConfig {
    fn default() -> (r: Self)
        ensures
            r matches SelectionsConfig::Bool(b) && b,
    {
        SelectionsConfig::Bool(true)
    }
}

/// An option that is either a boolean or a list of AST kind names:
/// `false` is disabled, `true` enables every kind, a list enables the kinds
/// it names.
#[derive(Debug, Clone, PartialEq)]
pub enum BoolOrKindList {
    Bool(bool),
    Kinds(Vec<String>),
}

impl Default for BoolOrKindList {
    fn default() -> (r: Self)
        ensures
            r matches BoolOrKindList::Bool(b) && !b,
    {
        BoolOrKindList::Bool(false)
    }
}

impl BoolOrKindList {
    /// The option is on: `true`, or a non-empty list.
    pub open spec fn spec_enabled(&self) -> bool {
        match self {
            BoolOrKindList::Bool(b) => *b,
            BoolOrKindList::Kinds(list) => list@.len() > 0,
        }
    }

    /// The option covers `kind`: `true`, or a list naming `kind`.
    pub open spec fn spec_includes_kind(&self, kind: Seq<char>) -> bool {
        match self {
            BoolOrKindList::Bool(b) => *b,
            BoolOrKindList::Kinds(list) => strings_view(list@).contains(kind),
        }
    }

    /// Whether the option is on.
    pub fn enabled(&self) -> (b: bool)
        ensures
            b == self.spec_enabled(),
    {
        match self {
            BoolOrKindList::Bool(b) => *b,
            BoolOrKindList::Kinds(list) => list.len() != 0,
        }
    }

    /// True when the option is enabled and the given AST kind name is included.
    /// `Bool(true)` matches every kind; `Kinds([...])` matches only listed kinds.
    pub fn includes_kind(&self, kind: &str) -> (b: bool)
        ensures
            b == self.spec_includes_kind(kind@),
    {
        match self {
            BoolOrKindList::Bool(b) => *b,
            BoolOrKindList::Kinds(list) => index_of(list, kind).is_some(),
        }
    }
}

/// Options for the `alphabetize` rule.
#[derive(Debug, Clone)]
pub struct AlphabetizeOptions {
    /// Check selection sets: a boolean or the owner kinds to check.
    pub selections: SelectionsConfig,
    /// Check arguments.
    pub arguments: BoolOrKindList,
    /// Check variable definitions.
    pub variables: bool,
    /// Check top-level definitions across the whole document (schema side).
    pub definitions: bool,
    /// Check field declarations in the listed type kinds.
    pub fields: BoolOrKindList,
    /// Check enum value declarations.
    pub values: bool,
    /// Explicit ordering groups (e.g. `["id", "*", "createdAt"]`). Items sort
    /// by group index first; `"*"` is the bucket for names not listed.
    pub groups: Vec<String>,
}

impl Default for AlphabetizeOptions {
    fn default() -> (r: Self)
        ensures
            r.selections matches SelectionsConfig::Bool(b) && b,
            r.arguments matches BoolOrKindList::Bool(b) && !b,
            !r.variables,
            !r.definitions,
            r.fields matches BoolOrKindList::Bool(b) && !b,
            !r.values,
            r.groups@.len() == 0,
    {
        AlphabetizeOptions {
            selections: SelectionsConfig::Bool(true),
            arguments: BoolOrKindList::Bool(false),
            variables: false,
            definitions: false,
            fields: BoolOrKindList::Bool(false),
            values: false,
            groups: Vec::new(),
        }
    }
}

impl AlphabetizeOptions {
    /// Whether selection sets owned by `owner` are checked.
    pub fn check_owner(&self, owner: SelectionsOwner) -> (b: bool)
        ensures
            b == self.selections.spec_includes(owner),
    {
        self.selections.includes(owner)
    }
}

/// The index of the first string in `v` equal to `x`.
pub open spec fn spec_index_of(v: Seq<Seq<char>>, x: Seq<char>) -> Option<int>
    decreases v.len(),
{
    if v.len() == 0 {
        None
    } else {
        match spec_index_of(v.drop_last(), x) {
            Some(i) => Some(i),
            None => if v.last() == x { Some(v.len() - 1) } else { None },
        }
    }
}

proof fn lemma_index_of(v: Seq<Seq<char>>, x: Seq<char>)
    ensures
        spec_index_of(v, x) matches Some(i) ==> 0 <= i < v.len() && v[i] == x && forall|j: int| 0 <= j < i ==> v[j] != x,
        spec_index_of(v, x) is None <==> !v.contains(x),
    decreases v.len(),
{
    if v.len() > 0 {
        let d = v.drop_last();
        lemma_index_of(d, x);
        assert forall|j: int| 0 <= j < d.len() implies v[j] == d[j] by {}
        if v.contains(x) && spec_index_of(v, x) is None {
            let j = choose|j: int| 0 <= j < v.len() && v[j] == x;
            assert(d[j] == x);
        }
        if spec_index_of(d, x) is None && v.last() == x {
            assert forall|j: int| 0 <= j < v.len() - 1 implies v[j] != x by {
                if v[j] == x {
                    assert(d[j] == x);
                    assert(d.contains(x));
                }
            }
        }
        if d.contains(x) {
            let j = choose|j: int| 0 <= j < d.len() && d[j] == x;
            assert(v[j] == x);
        }
    }
}

/// The index of the first string in `v` equal to `x`.
pub fn index_of(v: &Vec<String>, x: &str) -> (r: Option<usize>)
    ensures
        match (r, spec_index_of(strings_view(v@), x@)) {
            (Some(i), Some(j)) => i == j,
            (None, None) => true,
            _ => false,
        },
        r is Some <==> strings_view(v@).contains(x@),
{
    proof { lemma_index_of(strings_view(v@), x@); }
    let xv = to_chars(x);
    let mut k: usize = 0;
    while k < v.len()
        invariant
            0 <= k <= v.len(),
            xv@ == x@,
            spec_index_of(strings_view(v@).take(k as int), x@) is None,
        decreases v.len() - k,
    {
        let e = to_chars(v[k].as_str());
        assert(strings_view(v@).take(k + 1).drop_last() =~= strings_view(v@).take(k as int));
        if chars_eq(&e, &xv) {
            proof {
                lemma_index_of(strings_view(v@).take(k + 1), x@);
                lemma_index_of(strings_view(v@), x@);
                assert(strings_view(v@).take(k + 1)[k as int] == x@);
                let full = strings_view(v@);
                assert(full[k as int] == x@);
                lemma_index_of(strings_view(v@).take(k as int), x@);
                let i = spec_index_of(full, x@).unwrap();
                if i < k {
                    assert(strings_view(v@).take(k as int)[i] == x@);
                }
            }
            return Some(k);
        }
        k += 1;
    }
    assert(strings_view(v@).take(v@.len() as int) =~= strings_view(v@));
    None
}


/// Lint rule that enforces alphabetical ordering of selections, arguments, and variables
pub struct AlphabetizeRuleImpl;

impl AlphabetizeRuleImpl {
    /// The rule's identifier.
    pub fn name(&self) -> (s: &'static str)
        ensures
            s@ == "alphabetize"@,
    {
        "alphabetize"
    }

    /// What the rule checks.
    pub fn description(&self) -> (s: &'static str)
        ensures
            s@ == "Enforces alphabetical ordering of fields, arguments, and variables"@,
    {
        "Enforces alphabetical ordering of fields, arguments, and variables"
    }

    /// The severity the rule reports with unless configured otherwise.
    pub fn default_severity(&self) -> (s: LintSeverity)
        ensures
            s == LintSeverity::Warning,
    {
        LintSeverity::Warning
    }
}

/// Code-point order of two strings.
pub open spec fn lex_order_of(a: Seq<char>, b: Seq<char>) -> Ordering {
    if lex_lt(a, b) {
        Ordering::Less
    } else if lex_lt(b, a) {
        Ordering::Greater
    } else {
        Ordering::Equal
    }
}

/// The opposite ordering.
pub open spec fn reversed(o: Ordering) -> Ordering {
    match o {
        Ordering::Less => Ordering::Greater,
        Ordering::Greater => Ordering::Less,
        Ordering::Equal => Ordering::Equal,
    }
}

/// Locale-aware, case-insensitive order: compare the lower-case forms; when
/// those are equal, lower case sorts before upper case (`"bar"` before
/// `"Bar"`), which is the reverse of code-point order.
pub open spec fn locale_order(a: Seq<char>, b: Seq<char>) -> Ordering {
    match lex_order_of(str_lowercase(a), str_lowercase(b)) {
        Ordering::Equal => reversed(lex_order_of(a, b)),
        o => o,
    }
}

fn lex_order(a: &str, b: &str) -> (o: Ordering)
    ensures
        o == lex_order_of(a@, b@),
{
    if str_lt(a, b) {
        Ordering::Less
    } else if str_lt(b, a) {
        Ordering::Greater
    } else {
        Ordering::Equal
    }
}

/// Locale-aware case-insensitive compare matching JS `String.prototype.localeCompare`.
///
/// Primary comparison is case-insensitive (fold both to lowercase). When
/// names are equal case-insensitively, the tiebreaker puts lowercase before
/// uppercase, mirroring the en-US locale where `"bar" < "Bar"`.
pub fn locale_compare(a: &str, b: &str) -> (o: Ordering)
    ensures
        o == locale_order(a@, b@),
{
    let a_lower = to_lowercase(a);
    let b_lower = to_lowercase(b);
    match lex_order(a_lower.as_str(), b_lower.as_str()) {
        Ordering::Equal => match lex_order(a, b) {
            Ordering::Less => Ordering::Greater,
            Ordering::Greater => Ordering::Less,
            Ordering::Equal => Ordering::Equal,
        },
        other => other,
    }
}

/// The group index of `name`: its own entry in `groups`, else the `"*"` entry.
pub open spec fn spec_rank(name: Seq<char>, groups: Seq<Seq<char>>) -> Option<int> {
    match spec_index_of(groups, name) {
        Some(i) => Some(i),
        None => spec_index_of(groups, "*"@),
    }
}

/// Order of two group indices.
pub open spec fn index_order_of(x: int, y: int) -> Ordering {
    if x < y { Ordering::Less } else if x > y { Ordering::Greater } else { Ordering::Equal }
}

/// Names compared under `groups`: by group index when both have one and the
/// indices differ, otherwise locale-aware alphabetical.
pub open spec fn group_order(a: Seq<char>, b: Seq<char>, groups: Seq<Seq<char>>) -> Ordering {
    if groups.len() == 0 {
        locale_order(a, b)
    } else {
        match (spec_rank(a, groups), spec_rank(b, groups)) {
            (Some(x), Some(y)) => if x != y { index_order_of(x, y) } else { locale_order(a, b) },
            _ => locale_order(a, b),
        }
    }
}

fn rank(name: &str, groups: &Vec<String>) -> (r: Option<usize>)
    ensures
        match (r, spec_rank(name@, strings_view(groups@))) {
            (Some(i), Some(j)) => i == j,
            (None, None) => true,
            _ => false,
        },
{
    match index_of(groups, name) {
        Some(i) => Some(i),
        None => index_of(groups, "*"),
    }
}

fn index_order(x: usize, y: usize) -> (o: Ordering)
    ensures
        x < y ==> o == Ordering::Less,
        x > y ==> o == Ordering::Greater,
        x == y ==> o == Ordering::Equal,
{
    if x < y { Ordering::Less } else if x > y { Ordering::Greater } else { Ordering::Equal }
}

/// Compares two names under the `groups` rule: the explicit group index first
/// (`"*"` for names not listed), then locale-aware alphabetical order. With
/// no groups this is plain locale-aware alphabetical order.
pub fn group_compare(a: &str, b: &str, groups: &Vec<String>) -> (o: Ordering)
    ensures
        o == group_order(a@, b@, strings_view(groups@)),
{
    if groups.len() == 0 {
        return locale_compare(a, b);
    }
    match (rank(a, groups), rank(b, groups)) {
        (Some(ar), Some(br)) => if ar != br { index_order(ar, br) } else { locale_compare(a, b) },
        _ => locale_compare(a, b),
    }
}

/// `curr` is misordered relative to `prev`: it sorts strictly before it.
pub open spec fn spec_is_misordered(curr: Seq<char>, prev: Seq<char>, groups: Seq<Seq<char>>) -> bool {
    group_order(curr, prev, groups) == Ordering::Less
}

/// True when `curr` is misordered relative to `prev` under the configured
/// `groups`.
pub fn is_misordered(curr: &str, prev: &str, groups: &Vec<String>) -> (b: bool)
    ensures
        b == spec_is_misordered(curr@, prev@, strings_view(groups@)),
{
    match group_compare(curr, prev, groups) {
        Ordering::Less => true,
        _ => false,
    }
}

/// What a selection is.
#[derive(Debug, Clone, Copy, PartialEq, Eq, Structural)]
pub enum SelectionKind {
    Field,
    FragmentSpread,
    /// Inline fragments have no name; they take part in ordering as a
    /// sentinel labelled `"inline fragment"`.
    InlineFragment,
}

impl SelectionKind {
    /// The label used in messages.
    pub open spec fn spec_label(self) -> Seq<char> {
        match self {
            SelectionKind::Field => "field"@,
            SelectionKind::FragmentSpread => "fragment spread"@,
            SelectionKind::InlineFragment => "inline fragment"@,
        }
    }

    /// The label used in messages.
    pub fn label(self) -> (s: &'static str)
        ensures
            s@ == self.spec_label(),
    {
        match self {
            SelectionKind::Field => "field",
            SelectionKind::FragmentSpread => "fragment spread",
            SelectionKind::InlineFragment => "inline fragment",
        }
    }
}

/// One selection's ordering metadata.
#[derive(Debug)]
pub struct SelectionInfo {
    /// Response name; empty for inline fragments.
    pub name: String,
    pub kind: SelectionKind,
    /// The selection is a field with a sub-selection set (`{` group).
    pub has_selection_set: bool,
    /// Byte range of the whole selection.
    pub full_range: (usize, usize),
    /// Byte range of the name (the diagnostic anchor).
    pub name_range: (usize, usize),
}

/// The group index of a selection: its name's entry; else the `"{"` entry for
/// a field with a selection set; else the `"..."` entry for a fragment
/// spread; else the `"*"` entry. No groups, no index.
pub open spec fn spec_selection_rank(name: Seq<char>, kind: SelectionKind, has_set: bool, groups: Seq<Seq<char>>) -> Option<int> {
    if groups.len() == 0 {
        None
    } else if spec_index_of(groups, name) is Some {
        spec_index_of(groups, name)
    } else if has_set && spec_index_of(groups, "{"@) is Some {
        spec_index_of(groups, "{"@)
    } else if kind == SelectionKind::FragmentSpread && spec_index_of(groups, "..."@) is Some {
        spec_index_of(groups, "..."@)
    } else {
        spec_index_of(groups, "*"@)
    }
}

/// Computes the group rank for a selection.
pub fn selection_group_rank(info: &SelectionInfo, groups: &Vec<String>) -> (r: Option<usize>)
    ensures
        match (r, spec_selection_rank(info.name@, info.kind, info.has_selection_set, strings_view(groups@))) {
            (Some(i), Some(j)) => i == j,
            (None, None) => true,
            _ => false,
        },
{
    if groups.len() == 0 {
        return None;
    }
    if let Some(i) = index_of(groups, info.name.as_str()) {
        return Some(i);
    }
    if info.has_selection_set {
        if let Some(i) = index_of(groups, "{") {
            return Some(i);
        }
    }
    if matches!(info.kind, SelectionKind::FragmentSpread) {
        if let Some(i) = index_of(groups, "...") {
            return Some(i);
        }
    }
    index_of(groups, "*")
}

/// A selection's ordering metadata as plain values: name, kind, whether it
/// has a selection set, whole range, name range.
pub type InfoView = (Seq<char>, SelectionKind, bool, (usize, usize), (usize, usize));

impl SelectionInfo {
    pub open spec fn view(&self) -> InfoView {
        (self.name@, self.kind, self.has_selection_set, self.full_range, self.name_range)
    }
}

/// `curr` is misordered after `prev` as selections: by group index when both
/// have different ones, otherwise when `curr` sorts before `prev`.
pub open spec fn info_misordered(curr: InfoView, prev: InfoView, groups: Seq<Seq<char>>) -> bool {
    if groups.len() == 0 {
        locale_order(curr.0, prev.0) == Ordering::Less
    } else {
        match (spec_selection_rank(prev.0, prev.1, prev.2, groups), spec_selection_rank(curr.0, curr.1, curr.2, groups)) {
            (Some(pr), Some(cr)) => if pr != cr { pr > cr } else { locale_order(curr.0, prev.0) == Ordering::Less },
            _ => locale_order(curr.0, prev.0) == Ordering::Less,
        }
    }
}

/// True when `curr` selection is misordered relative to `prev` selection.
pub fn selection_is_misordered(curr: &SelectionInfo, prev: &SelectionInfo, groups: &Vec<String>) -> (b: bool)
    ensures
        b == info_misordered(curr.view(), prev.view(), strings_view(groups@)),
{
    if groups.len() == 0 {
        return is_less(locale_compare(curr.name.as_str(), prev.name.as_str()));
    }
    let curr_rank = selection_group_rank(curr, groups);
    let prev_rank = selection_group_rank(prev, groups);
    match (prev_rank, curr_rank) {
        (Some(pr), Some(cr)) => if pr != cr { pr > cr } else { is_less(locale_compare(curr.name.as_str(), prev.name.as_str())) },
        _ => is_less(locale_compare(curr.name.as_str(), prev.name.as_str())),
    }
}

fn is_less(o: Ordering) -> (b: bool)
    ensures
        b == (o == Ordering::Less),
{
    match o {
        Ordering::Less => true,
        _ => false,
    }
}

/// The byte text of `src[r.0..r.1)`.
pub open spec fn byte_slice(src: Seq<u8>, r: (usize, usize)) -> Seq<u8> {
    src.subrange(r.0 as int, r.1 as int)
}

/// Builds a swap fix: replaces `[prev.start, curr.end)` with the current
/// item's text, then the text between the two, then the previous item's text.
pub fn swap_fix(source: &str, prev: (usize, usize), curr: (usize, usize)) -> (f: CodeFix)
    requires
        prev.0 <= prev.1 <= curr.0 <= curr.1 <= source.spec_bytes().len(),
        vstd::utf8::is_char_boundary(source.spec_bytes(), prev.0 as int),
        vstd::utf8::is_char_boundary(source.spec_bytes(), prev.1 as int),
        vstd::utf8::is_char_boundary(source.spec_bytes(), curr.0 as int),
        vstd::utf8::is_char_boundary(source.spec_bytes(), curr.1 as int),
    ensures
        f.label@ == "Reorder alphabetically"@,
        f.edits@.len() == 1,
        f.edits@[0].offset_range.start == prev.0,
        f.edits@[0].offset_range.end == curr.1,
        vstd::utf8::encode_utf8(f.edits@[0].new_text@) == byte_slice(source.spec_bytes(), curr)
            + byte_slice(source.spec_bytes(), (prev.1, curr.0)) + byte_slice(source.spec_bytes(), prev),
        f.view() == ("Reorder alphabetically"@, seq![(prev.0 as int, curr.1 as int, swap_text(source.spec_bytes(), prev, curr))]),
{
    let prev_text = str_slice(source, prev.0, prev.1);
    let curr_text = str_slice(source, curr.0, curr.1);
    let between = str_slice(source, prev.1, curr.0);
    let mut new_text = String::new();
    new_text.append(curr_text);
    new_text.append(between);
    new_text.append(prev_text);
    proof {
        lemma_encode_concat(curr_text@, between@);
        lemma_encode_concat(curr_text@ + between@, prev_text@);
        assert(new_text@ == curr_text@ + between@ + prev_text@);
    }
    proof {
        vstd::utf8::encode_utf8_decode_utf8(new_text@);
    }
    let mut edits: Vec<TextEdit> = Vec::new();
    edits.push(TextEdit::new(prev.0, curr.1, new_text.as_str()));
    let f = CodeFix::new("Reorder alphabetically", edits);
    assert(f.view().1 =~= seq![(prev.0 as int, curr.1 as int, swap_text(source.spec_bytes(), prev, curr))]);
    f
}

/// The text that swaps two items: the current item's text, what lies
/// between the two, then the previous item's text.
pub open spec fn swap_text(src: Seq<u8>, prev: (usize, usize), curr: (usize, usize)) -> Seq<char> {
    vstd::utf8::decode_utf8(byte_slice(src, curr) + byte_slice(src, (prev.1, curr.0)) + byte_slice(src, prev))
}

/// The report for an item (its name at `name_range`, its whole text at
/// `curr`) that should come before the item at `prev`.
pub open spec fn order_report(
    name_range: (usize, usize),
    kind: Seq<char>,
    name: Seq<char>,
    prev_kind: Seq<char>,
    prev_name: Seq<char>,
    prev: (usize, usize),
    curr: (usize, usize),
    src: Seq<u8>,
) -> crate::diagnostics::DiagnosticView {
    (
        SourceSpan::new_spec(name_range.0, name_range.1),
        LintSeverity::Warning,
        order_message(kind, name, prev_kind, prev_name),
        "alphabetize"@,
        Some(("Reorder alphabetically"@, seq![(prev.0 as int, curr.1 as int, swap_text(src, prev, curr))])),
    )
}

/// The message for an item that should come before the one preceding it; a
/// previous item without a name is named by its kind alone.
pub open spec fn order_message(curr_kind: Seq<char>, curr_name: Seq<char>, prev_kind: Seq<char>, prev_name: Seq<char>) -> Seq<char> {
    if prev_name.len() == 0 {
        curr_kind + " \""@ + curr_name + "\" should be before "@ + prev_kind
    } else {
        curr_kind + " \""@ + curr_name + "\" should be before "@ + prev_kind + " \""@ + prev_name + "\""@
    }
}

fn order_message_string(curr_kind: &str, curr_name: &str, prev_kind: &str, prev_name: &str) -> (m: String)
    ensures
        m@ == order_message(curr_kind@, curr_name@, prev_kind@, prev_name@),
{
    let mut m = String::new();
    m.append(curr_kind);
    m.append(" \"");
    m.append(curr_name);
    m.append("\" should be before ");
    m.append(prev_kind);
    if !prev_name.is_empty() {
        m.append(" \"");
        m.append(prev_name);
        m.append("\"");
    }
    m
}

/// A named item in a list whose order is checked: its name, the byte range of
/// the whole item and the byte range of its name.
#[derive(Debug)]
pub struct OrderedItem {
    pub name: String,
    pub range: (usize, usize),
    pub name_range: (usize, usize),
}

/// The ranges of consecutive items are ordered and lie on character
/// boundaries of `src` (true of the items of one list in a parsed document).
pub open spec fn items_fit(items: Seq<OrderedItem>, src: Seq<u8>) -> bool {
    &&& forall|k: int| 0 <= k < items.len() ==> #[trigger] items[k].range.0 <= items[k].range.1 <= src.len()
        && vstd::utf8::is_char_boundary(src, items[k].range.0 as int)
        && vstd::utf8::is_char_boundary(src, items[k].range.1 as int)
    &&& forall|k: int| 0 < k < items.len() ==> #[trigger] items[k - 1].range.1 <= items[k].range.0
}

/// The reports for the first `n` items of a list: one for every item that
/// sorts before the item right before it.
pub open spec fn item_order_reports(items: Seq<OrderedItem>, n: int, label: Seq<char>, groups: Seq<Seq<char>>, src: Seq<u8>) -> Seq<crate::diagnostics::DiagnosticView>
    decreases n,
{
    if n <= 1 {
        seq![]
    } else {
        let rest = item_order_reports(items, n - 1, label, groups, src);
        let curr = items[n - 1];
        let prev = items[n - 2];
        if spec_is_misordered(curr.name@, prev.name@, groups) {
            rest.push(order_report(curr.name_range, label, curr.name@, label, prev.name@, prev.range, curr.range, src))
        } else {
            rest
        }
    }
}

/// Checks that the items of one list (fields of a type, input values, enum
/// values) come in order: one diagnostic, with a swap fix, for every item that
/// sorts before the item preceding it.
pub fn check_item_order(items: &Vec<OrderedItem>, label: &str, groups: &Vec<String>, source: &str) -> (r: Vec<LintDiagnostic>)
    requires
        items_fit(items@, source.spec_bytes()),
    ensures
        diags_view(r@) == item_order_reports(items@, items@.len() as int, label@, strings_view(groups@), source.spec_bytes()),
{
    let mut r: Vec<LintDiagnostic> = Vec::new();
    let mut k: usize = 1;
    if items.len() == 0 {
        assert(diags_view(r@) =~= Seq::<crate::diagnostics::DiagnosticView>::empty());
        return r;
    }
    assert(diags_view(r@) =~= Seq::<crate::diagnostics::DiagnosticView>::empty());
    while k < items.len()
        invariant
            1 <= k <= items.len(),
            items_fit(items@, source.spec_bytes()),
            diags_view(r@) == item_order_reports(items@, k as int, label@, strings_view(groups@), source.spec_bytes()),
        decreases items.len() - k,
    {
        let prev = &items[k - 1];
        let curr = &items[k];
        if is_misordered(curr.name.as_str(), prev.name.as_str(), groups) {
            assert(items@[k - 1].range.1 <= items@[k as int].range.0);
            let fix = swap_fix(source, prev.range, curr.range);
            let message = order_message_string(label, curr.name.as_str(), label, prev.name.as_str());
            let d = LintDiagnostic::new(
                SourceSpan::new(curr.name_range.0, curr.name_range.1),
                LintSeverity::Warning,
                message.as_str(),
                "alphabetize",
            ).with_fix(fix);
            let ghost before = diags_view(r@);
            r.push(d);
            assert(diags_view(r@) =~= before.push(d.view()));
        }
        k += 1;
    }
    r
}

/// How a top-level definition takes part in the ordering of definitions.
#[derive(Debug)]
pub enum DefinitionEntry {
    /// A named definition: its kind as messages name it (`type`, `query`,
    /// `fragment`, ...), its name and the byte range of the name.
    Named { kind: String, name: String, name_range: (usize, usize) },
    /// A definition without a name (an anonymous operation, a schema
    /// block): a named definition right after it is always reported.
    Unnamed { label: String },
}

/// The kinds of definitions whose members the rule orders.
#[derive(Debug, Clone, Copy, PartialEq, Eq, Structural)]
pub enum MemberListKind {
    /// Object type (or extension): fields.
    Object,
    /// Interface type (or extension): fields.
    Interface,
    /// Input object type (or extension): input values.
    InputObject,
    /// Enum type (or extension): values.
    Enum,
    /// Directive definition: arguments.
    Directive,
    /// Anything else.
    Other,
}

/// A top-level definition of a document, as the ordering checks read it.
#[derive(Debug)]
pub struct DocumentDefinition {
    /// `None` for a definition whose name could not be read.
    pub entry: Option<DefinitionEntry>,
    /// The byte range of the whole definition.
    pub range: (usize, usize),
    pub kind: MemberListKind,
    /// Its named members, in order: fields, input values, enum values or
    /// directive arguments.
    pub members: Vec<OrderedItem>,
    /// For object and interface types, the arguments of each field.
    pub member_arguments: Vec<Vec<OrderedItem>>,
}

/// The name a definition sorts by (empty for an unnamed one).
pub open spec fn entry_sort_name(e: DefinitionEntry) -> Seq<char> {
    match e {
        DefinitionEntry::Named { name, .. } => name@,
        DefinitionEntry::Unnamed { .. } => seq![],
    }
}

/// How messages name a definition's kind.
pub open spec fn entry_label(e: DefinitionEntry) -> Seq<char> {
    match e {
        DefinitionEntry::Named { kind, .. } => kind@,
        DefinitionEntry::Unnamed { label } => label@,
    }
}

/// The index of the last definition before `k` that takes part in the
/// ordering.
pub open spec fn previous_entry(defs: Seq<DocumentDefinition>, k: int) -> Option<int>
    decreases k,
{
    if k <= 0 {
        None
    } else if defs[k - 1].entry is Some {
        Some(k - 1)
    } else {
        previous_entry(defs, k - 1)
    }
}

/// The report, if any, for definition `k`: a named definition that follows
/// an unnamed one, or that sorts before the named one before it.
pub open spec fn definition_report(defs: Seq<DocumentDefinition>, k: int, groups: Seq<Seq<char>>, src: Seq<u8>) -> Seq<crate::diagnostics::DiagnosticView> {
    match defs[k].entry {
        Some(DefinitionEntry::Named { kind, name, name_range }) => match previous_entry(defs, k) {
            Some(p) => {
                let pe = defs[p].entry.unwrap();
                let pn = entry_sort_name(pe);
                if pn.len() == 0 || spec_is_misordered(name@, pn, groups) {
                    seq![order_report(name_range, kind@, name@, entry_label(pe), pn, defs[p].range, defs[k].range, src)]
                } else {
                    seq![]
                }
            },
            None => seq![],
        },
        _ => seq![],
    }
}

/// The reports about the order of the first `n` definitions.
pub open spec fn definitions_reports(defs: Seq<DocumentDefinition>, n: int, groups: Seq<Seq<char>>, src: Seq<u8>) -> Seq<crate::diagnostics::DiagnosticView>
    decreases n,
{
    if n <= 0 {
        seq![]
    } else {
        definitions_reports(defs, n - 1, groups, src) + definition_report(defs, n - 1, groups, src)
    }
}

/// The definitions lie in order inside `src`, on character boundaries, and
/// so do the members and arguments of each.
pub open spec fn definitions_fit(defs: Seq<DocumentDefinition>, src: Seq<u8>) -> bool {
    &&& forall|k: int| 0 <= k < defs.len() ==> definition_fits(#[trigger] defs[k], src)
    &&& forall|j: int, k: int| 0 <= j < k < defs.len() ==> #[trigger] defs[j].range.1 <= #[trigger] defs[k].range.0
}

/// One definition lies inside `src` on character boundaries, and so do its
/// members and its fields' arguments.
pub open spec fn definition_fits(d: DocumentDefinition, src: Seq<u8>) -> bool {
    &&& d.range.0 <= d.range.1 <= src.len()
    &&& vstd::utf8::is_char_boundary(src, d.range.0 as int)
    &&& vstd::utf8::is_char_boundary(src, d.range.1 as int)
    &&& items_fit(d.members@, src)
    &&& forall|j: int| 0 <= j < d.member_arguments@.len() ==> items_fit(#[trigger] d.member_arguments@[j]@, src)
}

/// The reports about the members of definition `d`.
pub open spec fn members_reports(o: AlphabetizeOptions, d: DocumentDefinition, src: Seq<u8>) -> Seq<crate::diagnostics::DiagnosticView> {
    let g = strings_view(o.groups@);
    let n = d.members@.len() as int;
    match d.kind {
        MemberListKind::Object => if o.fields.spec_includes_kind("ObjectTypeDefinition"@) { item_order_reports(d.members@, n, "field"@, g, src) } else { seq![] },
        MemberListKind::Interface => if o.fields.spec_includes_kind("InterfaceTypeDefinition"@) { item_order_reports(d.members@, n, "field"@, g, src) } else { seq![] },
        MemberListKind::InputObject => if o.fields.spec_includes_kind("InputObjectTypeDefinition"@) { item_order_reports(d.members@, n, "input value"@, g, src) } else { seq![] },
        MemberListKind::Enum => if o.values { item_order_reports(d.members@, n, "enum value"@, g, src) } else { seq![] },
        MemberListKind::Directive => if o.arguments.spec_includes_kind("DirectiveDefinition"@) { item_order_reports(d.members@, n, "input value"@, g, src) } else { seq![] },
        MemberListKind::Other => seq![],
    }
}

pub open spec fn all_members_reports(o: AlphabetizeOptions, defs: Seq<DocumentDefinition>, src: Seq<u8>) -> Seq<crate::diagnostics::DiagnosticView>
    decreases defs.len(),
{
    if defs.len() == 0 {
        seq![]
    } else {
        all_members_reports(o, defs.drop_last(), src) + members_reports(o, defs.last(), src)
    }
}

/// The reports about the arguments of each field in `args`.
pub open spec fn argument_lists_reports(args: Seq<Vec<OrderedItem>>, groups: Seq<Seq<char>>, src: Seq<u8>) -> Seq<crate::diagnostics::DiagnosticView>
    decreases args.len(),
{
    if args.len() == 0 {
        seq![]
    } else {
        argument_lists_reports(args.drop_last(), groups, src)
            + item_order_reports(args.last()@, args.last()@.len() as int, "input value"@, groups, src)
    }
}

pub open spec fn all_field_arguments_reports(defs: Seq<DocumentDefinition>, groups: Seq<Seq<char>>, src: Seq<u8>) -> Seq<crate::diagnostics::DiagnosticView>
    decreases defs.len(),
{
    if defs.len() == 0 {
        seq![]
    } else {
        let d = defs.last();
        all_field_arguments_reports(defs.drop_last(), groups, src)
            + if d.kind == MemberListKind::Object || d.kind == MemberListKind::Interface {
                argument_lists_reports(d.member_arguments@, groups, src)
            } else {
                seq![]
            }
    }
}

/// Everything the rule reports about a schema document: the order of its
/// definitions (with `definitions`), of the members of each definition (as
/// the options enable them), then of each field's arguments (when
/// `arguments` covers `FieldDefinition`).
pub open spec fn spec_schema_document_reports(o: AlphabetizeOptions, defs: Seq<DocumentDefinition>, src: Seq<u8>) -> Seq<crate::diagnostics::DiagnosticView> {
    let g = strings_view(o.groups@);
    (if o.definitions { definitions_reports(defs, defs.len() as int, g, src) } else { seq![] })
        + all_members_reports(o, defs, src)
        + (if o.arguments.spec_includes_kind("FieldDefinition"@) { all_field_arguments_reports(defs, g, src) } else { seq![] })
}

fn append_diags(out: &mut Vec<LintDiagnostic>, more: Vec<LintDiagnostic>)
    ensures
        diags_view(final(out)@) == diags_view(old(out)@) + diags_view(more@),
{
    let ghost before = out@;
    let ghost m = more@;
    let mut more = more;
    out.append(&mut more);
    assert(out@ =~= before + m);
    assert(diags_view(out@) =~= diags_view(before) + diags_view(m));
}

proof fn lemma_previous_entry_bounds(defs: Seq<DocumentDefinition>, k: int)
    requires
        0 <= k <= defs.len(),
    ensures
        previous_entry(defs, k) matches Some(p) ==> 0 <= p < k && defs[p].entry is Some,
    decreases k,
{
    if k > 0 && defs[k - 1].entry is None {
        lemma_previous_entry_bounds(defs, k - 1);
    }
}

fn entry_parts(e: &DefinitionEntry) -> (r: (&str, &str))
    ensures
        r.0@ == entry_label(*e),
        r.1@ == entry_sort_name(*e),
{
    proof {
        reveal_strlit("");
    }
    match e {
        DefinitionEntry::Named { kind, name, .. } => (kind.as_str(), name.as_str()),
        DefinitionEntry::Unnamed { label } => (label.as_str(), ""),
    }
}

/// Checks the order of a document's top-level definitions: a named
/// definition is reported when it follows an unnamed one, or sorts before
/// the named definition right before it.
pub fn check_definition_order(defs: &Vec<DocumentDefinition>, groups: &Vec<String>, source: &str) -> (r: Vec<LintDiagnostic>)
    requires
        definitions_fit(defs@, source.spec_bytes()),
    ensures
        diags_view(r@) == definitions_reports(defs@, defs@.len() as int, strings_view(groups@), source.spec_bytes()),
{
    let mut r: Vec<LintDiagnostic> = Vec::new();
    let mut prev: Option<usize> = None;
    let mut k: usize = 0;
    assert(diags_view(r@) =~= Seq::<crate::diagnostics::DiagnosticView>::empty());
    while k < defs.len()
        invariant
            0 <= k <= defs@.len(),
            definitions_fit(defs@, source.spec_bytes()),
            match (prev, previous_entry(defs@, k as int)) {
                (Some(p), Some(q)) => p == q,
                (None, None) => true,
                _ => false,
            },
            diags_view(r@) == definitions_reports(defs@, k as int, strings_view(groups@), source.spec_bytes()),
        decreases defs@.len() - k,
    {
        proof {
            lemma_previous_entry_bounds(defs@, k as int);
        }
        let d = &defs[k];
        let ghost before = diags_view(r@);
        match &d.entry {
            Some(DefinitionEntry::Named { kind, name, name_range }) => {
                if let Some(p) = prev {
                    let pd = &defs[p];
                    match &pd.entry {
                        Some(pe) => {
                            let (plabel, pname) = entry_parts(pe);
                            if pname.is_empty() || is_misordered(name.as_str(), pname, groups) {
                                assert(defs@[p as int].range.1 <= defs@[k as int].range.0);
                                assert(definition_fits(defs@[p as int], source.spec_bytes()));
                                assert(definition_fits(defs@[k as int], source.spec_bytes()));
                                let fix = swap_fix(source, pd.range, d.range);
                                let message = order_message_string(kind.as_str(), name.as_str(), plabel, pname);
                                let diag = LintDiagnostic::new(
                                    SourceSpan::new(name_range.0, name_range.1),
                                    LintSeverity::Warning,
                                    message.as_str(),
                                    "alphabetize",
                                ).with_fix(fix);
                                r.push(diag);
                                assert(diags_view(r@) =~= before.push(diag.view()));
                            } else {
                                assert(diags_view(r@) =~= before + seq![]);
                            }
                        },
                        None => {},
                    }
                } else {
                    assert(diags_view(r@) =~= before + seq![]);
                }
            },
            _ => {
                assert(diags_view(r@) =~= before + seq![]);
            },
        }
        if d.entry.is_some() {
            prev = Some(k);
        }
        k += 1;
    }
    r
}

fn members_order(o: &AlphabetizeOptions, d: &DocumentDefinition, source: &str) -> (r: Vec<LintDiagnostic>)
    requires
        items_fit(d.members@, source.spec_bytes()),
    ensures
        diags_view(r@) == members_reports(*o, *d, source.spec_bytes()),
{
    let on = match d.kind {
        MemberListKind::Object => o.fields.includes_kind("ObjectTypeDefinition"),
        MemberListKind::Interface => o.fields.includes_kind("InterfaceTypeDefinition"),
        MemberListKind::InputObject => o.fields.includes_kind("InputObjectTypeDefinition"),
        MemberListKind::Enum => o.values,
        MemberListKind::Directive => o.arguments.includes_kind("DirectiveDefinition"),
        MemberListKind::Other => false,
    };
    let label = match d.kind {
        MemberListKind::Object => "field",
        MemberListKind::Interface => "field",
        MemberListKind::Enum => "enum value",
        _ => "input value",
    };
    if on {
        check_item_order(&d.members, label, &o.groups, source)
    } else {
        let r: Vec<LintDiagnostic> = Vec::new();
        assert(diags_view(r@) =~= Seq::<crate::diagnostics::DiagnosticView>::empty());
        r
    }
}

impl AlphabetizeRuleImpl {
    /// Checks the order of a schema document's definitions, of the members
    /// of each definition, and of each field's arguments, as the options
    /// enable them.
    pub fn check_schema_document(&self, o: &AlphabetizeOptions, defs: &Vec<DocumentDefinition>, source: &str) -> (r: Vec<LintDiagnostic>)
        requires
            definitions_fit(defs@, source.spec_bytes()),
        ensures
            diags_view(r@) == spec_schema_document_reports(*o, defs@, source.spec_bytes()),
    {
        let mut out: Vec<LintDiagnostic> = Vec::new();
        assert(diags_view(out@) =~= Seq::<crate::diagnostics::DiagnosticView>::empty());
        if o.definitions {
            let r = check_definition_order(defs, &o.groups, source);
            append_diags(&mut out, r);
        }
        assert(diags_view(out@) =~= (if o.definitions { definitions_reports(defs@, defs@.len() as int, strings_view(o.groups@), source.spec_bytes()) } else { seq![] }));
        let ghost part1 = diags_view(out@);
        let mut k: usize = 0;
        while k < defs.len()
            invariant
                0 <= k <= defs@.len(),
                definitions_fit(defs@, source.spec_bytes()),
                diags_view(out@) == part1 + all_members_reports(*o, defs@.take(k as int), source.spec_bytes()),
            decreases defs@.len() - k,
        {
            assert(defs@.take(k + 1).drop_last() =~= defs@.take(k as int));
            assert(definition_fits(defs@[k as int], source.spec_bytes()));
            let r = members_order(o, &defs[k], source);
            append_diags(&mut out, r);
            k += 1;
        }
        assert(defs@.take(k as int) =~= defs@);
        let ghost part2 = diags_view(out@);
        if o.arguments.includes_kind("FieldDefinition") {
            let g = &o.groups;
            let mut k: usize = 0;
            while k < defs.len()
                invariant
                    0 <= k <= defs@.len(),
                    definitions_fit(defs@, source.spec_bytes()),
                    diags_view(out@) == part2 + all_field_arguments_reports(defs@.take(k as int), strings_view(g@), source.spec_bytes()),
                decreases defs@.len() - k,
            {
                let d = &defs[k];
                assert(defs@.take(k + 1).drop_last() =~= defs@.take(k as int));
                let ghost mid = diags_view(out@);
                assert(definition_fits(defs@[k as int], source.spec_bytes()));
                if d.kind == MemberListKind::Object || d.kind == MemberListKind::Interface {
                    let mut j: usize = 0;
                    while j < d.member_arguments.len()
                        invariant
                            0 <= j <= d.member_arguments@.len(),
                            k < defs@.len(),
                            *d == defs@[k as int],
                            definitions_fit(defs@, source.spec_bytes()),
                            definition_fits(*d, source.spec_bytes()),
                            diags_view(out@) == mid + argument_lists_reports(d.member_arguments@.take(j as int), strings_view(g@), source.spec_bytes()),
                        decreases d.member_arguments@.len() - j,
                    {
                        assert(d.member_arguments@.take(j + 1).drop_last() =~= d.member_arguments@.take(j as int));
                        assert(items_fit(d.member_arguments@[j as int]@, source.spec_bytes()));
                        let r = check_item_order(&d.member_arguments[j], "input value", g, source);
                        append_diags(&mut out, r);
                        j += 1;
                    }
                    assert(d.member_arguments@.take(j as int) =~= d.member_arguments@);
                } else {
                    assert(diags_view(out@) =~= mid + seq![]);
                }
                k += 1;
            }
            assert(defs@.take(k as int) =~= defs@);
        } else {
            assert(diags_view(out@) =~= part2 + seq![]);
        }
        out
    }
}

/// The last named argument among the first `k` of `args`.
pub open spec fn last_named_arg(args: Seq<Argument>, k: int) -> Option<Name>
    decreases k,
{
    if k <= 0 {
        None
    } else {
        match args[k - 1].name {
            Some(n) => Some(n),
            None => last_named_arg(args, k - 1),
        }
    }
}

/// The report when `n`, the name of a `what`, sorts (lowercased) before
/// the name `p` of the one before it.
pub open spec fn name_order_report(doc: ExecutableDocument, what: Seq<char>, n: Name, p: Name) -> Seq<DiagnosticView> {
    if lex_lt(str_lowercase(n.value@), str_lowercase(p.value@)) {
        seq![plain_view(
            doc.spec_span(n.range.start, n.range.end),
            LintSeverity::Warning,
            what + " \""@ + n.value@ + "\" should be before "@ + what + " \""@ + p.value@ + "\""@,
            "alphabetize"@,
        )]
    } else {
        seq![]
    }
}

/// Reports about the first `t` arguments of `args` out of order.
pub open spec fn arg_order_reports(doc: ExecutableDocument, args: Seq<Argument>, t: int) -> Seq<DiagnosticView>
    decreases t,
{
    if t <= 0 {
        seq![]
    } else {
        arg_order_reports(doc, args, t - 1) + match args[t - 1].name {
            Some(n) => match last_named_arg(args, t - 1) {
                Some(p) => name_order_report(doc, "argument"@, n, p),
                None => seq![],
            },
            None => seq![],
        }
    }
}

/// The last named variable among the first `k` of `vars`.
pub open spec fn last_named_var(vars: Seq<VariableDefinition>, k: int) -> Option<Name>
    decreases k,
{
    if k <= 0 {
        None
    } else {
        match vars[k - 1].name {
            Some(n) => Some(n),
            None => last_named_var(vars, k - 1),
        }
    }
}

/// Reports about the first `t` variables of `vars` out of order.
pub open spec fn var_order_reports(doc: ExecutableDocument, vars: Seq<VariableDefinition>, t: int) -> Seq<DiagnosticView>
    decreases t,
{
    if t <= 0 {
        seq![]
    } else {
        var_order_reports(doc, vars, t - 1) + match vars[t - 1].name {
            Some(n) => match last_named_var(vars, t - 1) {
                Some(p) => name_order_report(doc, "variable"@, n, p),
                None => seq![],
            },
            None => seq![],
        }
    }
}

fn report_name_order(doc: &ExecutableDocument, what: &str, n: &Name, p: &Name, out: &mut Vec<LintDiagnostic>)
    ensures
        diags_view(final(out)@) == diags_view(old(out)@) + name_order_report(*doc, what@, *n, *p),
{
    let a = to_lowercase(n.value.as_str());
    let b = to_lowercase(p.value.as_str());
    if str_lt(a.as_str(), b.as_str()) {
        let mut m = what.to_owned();
        m.append(" \"");
        m.append(n.value.as_str());
        m.append("\" should be before ");
        m.append(what);
        m.append(" \"");
        m.append(p.value.as_str());
        m.append("\"");
        let d = LintDiagnostic::new(doc.span(n.range.start, n.range.end), LintSeverity::Warning, m.as_str(), "alphabetize");
        push_diag(out, d);
    } else {
        assert(diags_view(out@) =~= diags_view(out@) + seq![]);
    }
}

/// Reports every named argument whose lowercased name sorts before that
/// of the named argument before it.
fn check_argument_order(doc: &ExecutableDocument, args: &Vec<Argument>, out: &mut Vec<LintDiagnostic>)
    ensures
        diags_view(final(out)@) == diags_view(old(out)@) + arg_order_reports(*doc, args@, args@.len() as int),
{
    let ghost start = diags_view(out@);
    let mut last: Option<&Name> = None;
    let mut k: usize = 0;
    while k < args.len()
        invariant
            0 <= k <= args@.len(),
            match last {
                Some(l) => last_named_arg(args@, k as int) == Some(*l),
                None => last_named_arg(args@, k as int) is None,
            },
            diags_view(out@) == start + arg_order_reports(*doc, args@, k as int),
        decreases args@.len() - k,
    {
        match &args[k].name {
            Some(n) => {
                match last {
                    Some(p) => report_name_order(doc, "argument", n, p, out),
                    None => assert(diags_view(out@) =~= diags_view(out@) + seq![]),
                }
                last = Some(n);
            },
            None => assert(diags_view(out@) =~= diags_view(out@) + seq![]),
        }
        k += 1;
    }
}

/// Reports every named variable whose lowercased name sorts before that
/// of the named variable before it.
fn check_variable_order(doc: &ExecutableDocument, vars: &Vec<VariableDefinition>, out: &mut Vec<LintDiagnostic>)
    ensures
        diags_view(final(out)@) == diags_view(old(out)@) + var_order_reports(*doc, vars@, vars@.len() as int),
{
    let ghost start = diags_view(out@);
    let mut last: Option<&Name> = None;
    let mut k: usize = 0;
    while k < vars.len()
        invariant
            0 <= k <= vars@.len(),
            match last {
                Some(l) => last_named_var(vars@, k as int) == Some(*l),
                None => last_named_var(vars@, k as int) is None,
            },
            diags_view(out@) == start + var_order_reports(*doc, vars@, k as int),
        decreases vars@.len() - k,
    {
        match &vars[k].name {
            Some(n) => {
                match last {
                    Some(p) => report_name_order(doc, "variable", n, p, out),
                    None => assert(diags_view(out@) =~= diags_view(out@) + seq![]),
                }
                last = Some(n);
            },
            None => assert(diags_view(out@) =~= diags_view(out@) + seq![]),
        }
        k += 1;
    }
}

/// The byte range a selection covers.
pub open spec fn sel_range(s: Selection) -> (usize, usize) {
    match s {
        Selection::Field(f) => (f.range.start, f.range.end),
        Selection::FragmentSpread(sp) => (sp.range.start, sp.range.end),
        Selection::InlineFragment(i) => (i.range.start, i.range.end),
    }
}

/// `r` is an ordered range of `src` on character boundaries.
pub open spec fn range_ok(r: (usize, usize), src: Seq<u8>) -> bool {
    &&& r.0 <= r.1 <= src.len()
    &&& vstd::utf8::is_char_boundary(src, r.0 as int)
    &&& vstd::utf8::is_char_boundary(src, r.1 as int)
}

/// The ranges of the selections of `sels`, at any depth, lie in `src` on
/// character boundaries, each after those before it in its set.
pub open spec fn sels_wf(sels: Seq<Selection>, src: Seq<u8>) -> bool
    decreases sels,
{
    if sels.len() == 0 {
        true
    } else {
        let k = sels.len() - 1;
        &&& sels_wf(sels.subrange(0, k), src)
        &&& range_ok(sel_range(sels[k]), src)
        &&& forall|j: int| 0 <= j < k ==> (#[trigger] sel_range(sels[j])).1 <= sel_range(sels[k]).0
        &&& match sels[k] {
            Selection::Field(f) => match f.selection_set {
                Some(ss) => sels_wf(ss.selections@, src),
                None => true,
            },
            Selection::InlineFragment(i) => match i.selection_set {
                Some(ss) => sels_wf(ss.selections@, src),
                None => true,
            },
            Selection::FragmentSpread(_) => true,
        }
    }
}

proof fn lemma_sels_wf_at(sels: Seq<Selection>, k: int, src: Seq<u8>)
    requires
        sels_wf(sels, src),
        0 <= k < sels.len(),
    ensures
        range_ok(sel_range(sels[k]), src),
        forall|j: int| 0 <= j < k ==> (#[trigger] sel_range(sels[j])).1 <= sel_range(sels[k]).0,
        match sels[k] {
            Selection::Field(f) => match f.selection_set {
                Some(ss) => sels_wf(ss.selections@, src),
                None => true,
            },
            Selection::InlineFragment(i) => match i.selection_set {
                Some(ss) => sels_wf(ss.selections@, src),
                None => true,
            },
            Selection::FragmentSpread(_) => true,
        },
    decreases sels.len(),
{
    let m = sels.len() - 1;
    if k < m {
        lemma_sels_wf_at(sels.subrange(0, m), k, src);
        assert(sels.subrange(0, m)[k] == sels[k]);
        assert forall|j: int| 0 <= j < k implies (#[trigger] sel_range(sels[j])).1 <= sel_range(sels[k]).0 by {
            assert(sels.subrange(0, m)[j] == sels[j]);
        }
    }
}

/// The ordering metadata of a named field or fragment spread.
pub open spec fn named_info(s: Selection) -> Option<InfoView> {
    match s {
        Selection::Field(f) => match (match f.alias {
            Some(a) => Some(a),
            None => f.name,
        }) {
            Some(n) => Some((n.value@, SelectionKind::Field, f.selection_set is Some,
                (f.range.start, f.range.end), (n.range.start, n.range.end))),
            None => None,
        },
        Selection::FragmentSpread(sp) => match sp.name {
            Some(n) => Some((n.value@, SelectionKind::FragmentSpread, false,
                (sp.range.start, sp.range.end), (n.range.start, n.range.end))),
            None => None,
        },
        Selection::InlineFragment(_) => None,
    }
}

/// The ordering metadata a selection leaves as the previous one: a named
/// field or spread; an inline fragment, as a nameless sentinel, while
/// scanning.
pub open spec fn sel_info(s: Selection, scan: bool) -> Option<InfoView> {
    match s {
        Selection::InlineFragment(i) => if scan {
            Some((seq![], SelectionKind::InlineFragment, true, (i.range.start, i.range.end), (i.range.start, i.range.start)))
        } else {
            None
        },
        _ => named_info(s),
    }
}

/// The selection the `k`-th of `sels` is compared with: the last before it
/// that leaves ordering metadata.
pub open spec fn last_info(sels: Seq<Selection>, k: int, scan: bool) -> Option<InfoView>
    decreases k,
{
    if k <= 0 {
        None
    } else {
        match sel_info(sels[k - 1], scan) {
            Some(i) => Some(i),
            None => last_info(sels, k - 1, scan),
        }
    }
}

proof fn lemma_last_info_from(sels: Seq<Selection>, k: int, scan: bool)
    requires
        0 <= k <= sels.len(),
    ensures
        last_info(sels, k, scan) matches Some(p) ==> exists|j: int| 0 <= j < k && p.3 == #[trigger] sel_range(sels[j]),
    decreases k,
{
    if k > 0 {
        lemma_last_info_from(sels, k - 1, scan);
        if sel_info(sels[k - 1], scan) is Some {
            assert(sel_range(sels[k - 1]) == sel_info(sels[k - 1], scan).unwrap().3);
        }
    }
}

/// The report about selection `curr`, which should come before `prev`.
pub open spec fn sel_order_report(doc: ExecutableDocument, curr: InfoView, prev: InfoView) -> DiagnosticView {
    (
        doc.spec_span(curr.4.0, curr.4.1),
        LintSeverity::Warning,
        order_message(curr.1.spec_label(), curr.0, prev.1.spec_label(), prev.0),
        "alphabetize"@,
        Some(("Reorder alphabetically"@, seq![(prev.3.0 as int, curr.3.1 as int,
            swap_text(vstd::utf8::encode_utf8(doc.source@), prev.3, curr.3))])),
    )
}

/// The report, while scanning, about selection `s`, the `k`-th of `ctx`,
/// when it is misordered after the selection before it (always after an
/// inline fragment).
pub open spec fn sel_report(o: AlphabetizeOptions, scan: bool, doc: ExecutableDocument, ctx: Seq<Selection>, k: int, s: Selection) -> Seq<DiagnosticView> {
    match (named_info(s), last_info(ctx, k, scan)) {
        (Some(curr), Some(prev)) => if scan && (prev.0.len() == 0 || info_misordered(curr, prev, strings_view(o.groups@))) {
            seq![sel_order_report(doc, curr, prev)]
        } else {
            seq![]
        },
        _ => seq![],
    }
}

/// Reports about selection `s`, the `k`-th of the set `ctx`: a misordered
/// named selection, then a field's arguments and nested set, or an inline
/// fragment's nested set.
pub open spec fn order_item(o: AlphabetizeOptions, scan: bool, doc: ExecutableDocument, ctx: Seq<Selection>, k: int, s: Selection) -> Seq<DiagnosticView>
    decreases s, 0int,
{
    match s {
        Selection::Field(f) => if named_info(s) is Some {
            sel_report(o, scan, doc, ctx, k, s)
                + (if o.arguments.spec_enabled() { arg_order_reports(doc, f.arguments@, f.arguments@.len() as int) } else { seq![] })
                + match f.selection_set {
                    Some(ss) => set_order_reports(o, scan, doc, ss.selections@),
                    None => seq![],
                }
        } else {
            seq![]
        },
        Selection::FragmentSpread(_) => sel_report(o, scan, doc, ctx, k, s),
        Selection::InlineFragment(i) => match i.selection_set {
            Some(ss) => set_order_reports(o, scan, doc, ss.selections@),
            None => seq![],
        },
    }
}

/// Reports about the selections `sels` of the set `ctx`, in document
/// order, descending into each nested set where it stands.
pub open spec fn order_walk(o: AlphabetizeOptions, scan: bool, doc: ExecutableDocument, ctx: Seq<Selection>, sels: Seq<Selection>) -> Seq<DiagnosticView>
    decreases sels, 1int,
{
    if sels.len() == 0 {
        seq![]
    } else {
        let k = sels.len() - 1;
        order_walk(o, scan, doc, ctx, sels.subrange(0, k)) + order_item(o, scan, doc, ctx, k, sels[k])
    }
}

/// Reports about the selection set `sels` and those nested in it.
pub open spec fn set_order_reports(o: AlphabetizeOptions, scan: bool, doc: ExecutableDocument, sels: Seq<Selection>) -> Seq<DiagnosticView>
    decreases sels, 2int,
{
    order_walk(o, scan, doc, sels, sels)
}

/// The optional metadata as plain values.
pub open spec fn opt_info_view(o: Option<SelectionInfo>) -> Option<InfoView> {
    match o {
        Some(i) => Some(i.view()),
        None => None,
    }
}

fn report_if_misordered(o: &AlphabetizeOptions, doc: &ExecutableDocument, curr: &SelectionInfo, prev: &SelectionInfo, out: &mut Vec<LintDiagnostic>)
    requires
        range_ok(prev.full_range, vstd::utf8::encode_utf8(doc.source@)),
        range_ok(curr.full_range, vstd::utf8::encode_utf8(doc.source@)),
        prev.full_range.1 <= curr.full_range.0,
    ensures
        diags_view(final(out)@) == diags_view(old(out)@) + if prev.name@.len() == 0
            || info_misordered(curr.view(), prev.view(), strings_view(o.groups@)) {
            seq![sel_order_report(*doc, curr.view(), prev.view())]
        } else {
            seq![]
        },
{
    let report = prev.name.as_str().is_empty() || selection_is_misordered(curr, prev, &o.groups);
    if !report {
        assert(diags_view(out@) =~= diags_view(out@) + seq![]);
        return;
    }
    let fix = swap_fix(doc.source.as_str(), prev.full_range, curr.full_range);
    let message = order_message_string(curr.kind.label(), curr.name.as_str(), prev.kind.label(), prev.name.as_str());
    let d = LintDiagnostic::new(doc.span(curr.name_range.0, curr.name_range.1), LintSeverity::Warning, message.as_str(), "alphabetize")
        .with_fix(fix);
    push_diag(out, d);
}

/// Handles the `k`-th selection of `ss`: reports it when misordered after
/// `last`, checks a field's arguments, descends into its nested set, and
/// leaves it in `last` as the selection the next one is compared with.
#[verifier::spinoff_prover]
#[verifier::rlimit(40)]
fn order_step(o: &AlphabetizeOptions, scan: bool, doc: &ExecutableDocument, ss: &SelectionSet, k: usize, last: &mut Option<SelectionInfo>, out: &mut Vec<LintDiagnostic>)
    requires
        k < ss.selections@.len(),
        sels_wf(ss.selections@, vstd::utf8::encode_utf8(doc.source@)),
        opt_info_view(*old(last)) == last_info(ss.selections@, k as int, scan),
    ensures
        opt_info_view(*final(last)) == last_info(ss.selections@, k + 1, scan),
        diags_view(final(out)@) == diags_view(old(out)@) + order_item(*o, scan, *doc, ss.selections@, k as int, ss.selections@[k as int]),
    decreases ss, 0int,
{
    let ghost sels = ss.selections@;
    let ghost src = vstd::utf8::encode_utf8(doc.source@);
    proof {
        lemma_sels_wf_at(sels, k as int, src);
        lemma_last_info_from(sels, k as int, scan);
    }
    let ghost before = diags_view(out@);
    match &ss.selections[k] {
        Selection::Field(f) => {
            let nn: Option<&Name> = match &f.alias {
                Some(a) => Some(a),
                None => match &f.name {
                    Some(n) => Some(n),
                    None => None,
                },
            };
            match nn {
                Some(n) => {
                    let curr = SelectionInfo {
                        name: n.value.clone(),
                        kind: SelectionKind::Field,
                        has_selection_set: f.selection_set.is_some(),
                        full_range: (f.range.start, f.range.end),
                        name_range: (n.range.start, n.range.end),
                    };
                    assert(named_info(sels[k as int]) == Some(curr.view()));
                    if scan {
                        match &*last {
                            Some(prev) => {
                                proof {
                                    let j = choose|j: int| 0 <= j < k && prev.view().3 == #[trigger] sel_range(sels[j]);
                                    lemma_sels_wf_at(sels, j, src);
                                }
                                report_if_misordered(o, doc, &curr, prev, out);
                            },
                            None => {},
                        }
                    }
                    *last = Some(curr);
                    let ghost m1 = diags_view(out@);
                    if o.arguments.enabled() {
                        check_argument_order(doc, &f.arguments, out);
                    }
                    let ghost m2 = diags_view(out@);
                    match &f.selection_set {
                        Some(nested) => check_selection_set_order(o, scan, doc, nested, out),
                        None => {},
                    }
                    assert(diags_view(out@) =~= before + (m1.subrange(before.len() as int, m1.len() as int)
                        + m2.subrange(m1.len() as int, m2.len() as int)
                        + diags_view(out@).subrange(m2.len() as int, diags_view(out@).len() as int)));
                },
                None => {},
            }
        },
        Selection::FragmentSpread(sp) => {
            match &sp.name {
                Some(n) => {
                    let curr = SelectionInfo {
                        name: n.value.clone(),
                        kind: SelectionKind::FragmentSpread,
                        has_selection_set: false,
                        full_range: (sp.range.start, sp.range.end),
                        name_range: (n.range.start, n.range.end),
                    };
                    assert(named_info(sels[k as int]) == Some(curr.view()));
                    if scan {
                        match &*last {
                            Some(prev) => {
                                proof {
                                    let j = choose|j: int| 0 <= j < k && prev.view().3 == #[trigger] sel_range(sels[j]);
                                    lemma_sels_wf_at(sels, j, src);
                                }
                                report_if_misordered(o, doc, &curr, prev, out);
                            },
                            None => {},
                        }
                    }
                    *last = Some(curr);
                },
                None => {},
            }
        },
        Selection::InlineFragment(i) => {
            match &i.selection_set {
                Some(nested) => check_selection_set_order(o, scan, doc, nested, out),
                None => {},
            }
            if scan {
                *last = Some(SelectionInfo {
                    name: String::new(),
                    kind: SelectionKind::InlineFragment,
                    has_selection_set: true,
                    full_range: (i.range.start, i.range.end),
                    name_range: (i.range.start, i.range.start),
                });
            }
        },
    }
    assert(diags_view(out@) =~= before + order_item(*o, scan, *doc, sels, k as int, sels[k as int]));
}

/// Checks the order of the selections of `ss` (when `scan`), the order of
/// each field's arguments (when arguments are checked), and, depth first,
/// the selection sets nested in it.
fn check_selection_set_order(o: &AlphabetizeOptions, scan: bool, doc: &ExecutableDocument, ss: &SelectionSet, out: &mut Vec<LintDiagnostic>)
    requires
        sels_wf(ss.selections@, vstd::utf8::encode_utf8(doc.source@)),
    ensures
        diags_view(final(out)@) == diags_view(old(out)@) + set_order_reports(*o, scan, *doc, ss.selections@),
    decreases ss, 1int,
{
    let ghost sels = ss.selections@;
    let ghost src = vstd::utf8::encode_utf8(doc.source@);
    let ghost start = diags_view(out@);
    let mut last: Option<SelectionInfo> = None;
    let mut k: usize = 0;
    assert(diags_view(out@) =~= start + order_walk(*o, scan, *doc, sels, sels.subrange(0, 0)));
    while k < ss.selections.len()
        invariant
            0 <= k <= sels.len(),
            sels == ss.selections@,
            src == vstd::utf8::encode_utf8(doc.source@),
            sels_wf(sels, src),
            opt_info_view(last) == last_info(sels, k as int, scan),
            diags_view(out@) == start + order_walk(*o, scan, *doc, sels, sels.subrange(0, k as int)),
        decreases sels.len() - k,
    {
        assert(sels.subrange(0, k + 1).subrange(0, k as int) =~= sels.subrange(0, k as int));
        assert(sels.subrange(0, k + 1)[k as int] == sels[k as int]);
        proof {
            lemma_sels_wf_at(sels, k as int, src);
            lemma_last_info_from(sels, k as int, scan);
        }
        order_step(o, scan, doc, ss, k, &mut last, out);
        assert(diags_view(out@) =~= start + order_walk(*o, scan, *doc, sels, sels.subrange(0, k + 1)));
        k += 1;
    }
    assert(sels.subrange(0, sels.len() as int) =~= sels);
}

/// The selection sets of the operations and fragments of `doc` are well formed.
pub open spec fn doc_sels_wf(doc: ExecutableDocument) -> bool {
    forall|k: int| 0 <= k < doc.definitions@.len() ==> match #[trigger] doc.definitions@[k] {
        Definition::Operation(op) => match op.selection_set {
            Some(ss) => sels_wf(ss.selections@, vstd::utf8::encode_utf8(doc.source@)),
            None => true,
        },
        Definition::Fragment(fr) => match fr.selection_set {
            Some(ss) => sels_wf(ss.selections@, vstd::utf8::encode_utf8(doc.source@)),
            None => true,
        },
        Definition::TypeSystem { .. } => true,
    }
}

/// Reports about the definitions `defs` of `doc`: an operation's
/// variables (when checked), then the selection sets of operations and
/// fragments (scanned as `selections` asks for their owner).
pub open spec fn doc_order_reports(o: AlphabetizeOptions, doc: ExecutableDocument, defs: Seq<Definition>) -> Seq<DiagnosticView>
    decreases defs.len(),
{
    if defs.len() == 0 {
        seq![]
    } else {
        doc_order_reports(o, doc, defs.drop_last()) + match defs.last() {
            Definition::Operation(op) => (if o.variables {
                var_order_reports(doc, op.variables@, op.variables@.len() as int)
            } else {
                seq![]
            }) + match op.selection_set {
                Some(ss) => set_order_reports(o, o.selections.spec_includes(SelectionsOwner::OperationDefinition), doc, ss.selections@),
                None => seq![],
            },
            Definition::Fragment(fr) => match fr.selection_set {
                Some(ss) => set_order_reports(o, o.selections.spec_includes(SelectionsOwner::FragmentDefinition), doc, ss.selections@),
                None => seq![],
            },
            Definition::TypeSystem { .. } => seq![],
        }
    }
}

impl AlphabetizeRuleImpl {
    /// Checks the order of the variables, selections and arguments of the
    /// operations and fragments of `doc`, as the options enable them.
    pub fn check(&self, o: &AlphabetizeOptions, doc: &ExecutableDocument) -> (r: Vec<LintDiagnostic>)
        requires
            doc_sels_wf(*doc),
        ensures
            diags_view(r@) == doc_order_reports(*o, *doc, doc.definitions@),
    {
        let mut out: Vec<LintDiagnostic> = Vec::new();
        let mut k: usize = 0;
        assert(diags_view(out@) =~= Seq::<DiagnosticView>::empty());
        while k < doc.definitions.len()
            invariant
                0 <= k <= doc.definitions@.len(),
                doc_sels_wf(*doc),
                diags_view(out@) == doc_order_reports(*o, *doc, doc.definitions@.take(k as int)),
            decreases doc.definitions@.len() - k,
        {
            assert(doc.definitions@.take(k + 1).drop_last() =~= doc.definitions@.take(k as int));
            let ghost before = diags_view(out@);
            let d = &doc.definitions[k];
            assert(doc_sels_wf(*doc));
            match d {
                Definition::Operation(op) => {
                    if o.variables {
                        check_variable_order(doc, &op.variables, &mut out);
                    }
                    let ghost mid = diags_view(out@);
                    let scan = o.check_owner(SelectionsOwner::OperationDefinition);
                    match &op.selection_set {
                        Some(ss) => check_selection_set_order(o, scan, doc, ss, &mut out),
                        None => {},
                    }
                    assert(diags_view(out@) =~= before + (mid.subrange(before.len() as int, mid.len() as int)
                        + diags_view(out@).subrange(mid.len() as int, diags_view(out@).len() as int)));
                },
                Definition::Fragment(fr) => {
                    let scan = o.check_owner(SelectionsOwner::FragmentDefinition);
                    match &fr.selection_set {
                        Some(ss) => check_selection_set_order(o, scan, doc, ss, &mut out),
                        None => {},
                    }
                },
                _ => {},
            }
            assert(diags_view(out@) =~= doc_order_reports(*o, *doc, doc.definitions@.take(k + 1)));
            k += 1;
        }
        assert(doc.definitions@.take(k as int) =~= doc.definitions@);
        out
    }
}

/// A list whose every item sorts no earlier than the one before it gets
/// no report.
pub proof fn law_ordered_items_not_reported(items: Seq<OrderedItem>, n: int, label: Seq<char>, groups: Seq<Seq<char>>, src: Seq<u8>)
    requires
        n <= items.len(),
        forall|k: int| 0 < k < n ==> !#[trigger] spec_is_misordered(items[k].name@, items[k - 1].name@, groups),
    ensures
        item_order_reports(items, n, label, groups, src) == Seq::<DiagnosticView>::empty(),
    decreases n,
{
    if n > 1 {
        law_ordered_items_not_reported(items, n - 1, label, groups, src);
        let k = n - 1;
        assert(!spec_is_misordered(items[k].name@, items[k - 1].name@, groups));
    }
}


/// `x` first occurs in `v` at `i`.
proof fn lemma_index_of_first(v: Seq<Seq<char>>, x: Seq<char>, i: int)
    requires
        0 <= i < v.len(),
        v[i] == x,
        forall|k: int| 0 <= k < i ==> v[k] != x,
    ensures
        spec_index_of(v, x) == Some(i),
    decreases v.len(),
{
    if v.len() - 1 > i {
        assert(v.drop_last()[i] == x);
        assert forall|k: int| 0 <= k < i implies v.drop_last()[k] != x by {
            assert(v.drop_last()[k] == v[k]);
        }
        lemma_index_of_first(v.drop_last(), x, i);
    } else {
        lemma_index_of_absent(v.drop_last(), x);
    }
}

/// `x` does not occur in `v`.
proof fn lemma_index_of_absent(v: Seq<Seq<char>>, x: Seq<char>)
    requires
        forall|k: int| 0 <= k < v.len() ==> v[k] != x,
    ensures
        spec_index_of(v, x) is None,
    decreases v.len(),
{
    if v.len() > 0 {
        assert forall|k: int| 0 <= k < v.len() - 1 implies v.drop_last()[k] != x by {
            assert(v.drop_last()[k] == v[k]);
        }
        lemma_index_of_absent(v.drop_last(), x);
    }
}

/// With groups configured, two names listed in them (first at `i` and `j`,
/// `i != j`) are in order exactly when the earlier group comes first: the
/// current name is misordered after the previous one if and only if its
/// group comes before the previous one's.
pub proof fn law_listed_names_follow_group_order(curr: Seq<char>, prev: Seq<char>, groups: Seq<Seq<char>>, i: int, j: int)
    requires
        0 <= i < groups.len(),
        0 <= j < groups.len(),
        i != j,
        groups[i] == prev,
        groups[j] == curr,
        forall|k: int| 0 <= k < i ==> groups[k] != prev,
        forall|k: int| 0 <= k < j ==> groups[k] != curr,
    ensures
        spec_is_misordered(curr, prev, groups) <==> j < i,
{
    lemma_index_of_first(groups, prev, i);
    lemma_index_of_first(groups, curr, j);
}

/// With groups configured, a selection whose name is listed (first at `j`)
/// after the previous selection's (first at `i`) is in order, and one listed
/// before it is misordered.
pub proof fn law_listed_selections_follow_group_order(curr: InfoView, prev: InfoView, groups: Seq<Seq<char>>, i: int, j: int)
    requires
        0 <= i < groups.len(),
        0 <= j < groups.len(),
        i != j,
        groups[i] == prev.0,
        groups[j] == curr.0,
        forall|k: int| 0 <= k < i ==> groups[k] != prev.0,
        forall|k: int| 0 <= k < j ==> groups[k] != curr.0,
    ensures
        info_misordered(curr, prev, groups) <==> j < i,
{
    lemma_index_of_first(groups, prev.0, i);
    lemma_index_of_first(groups, curr.0, j);
}

/// With groups configured, a field without a selection set whose name is
/// not listed falls in the `"*"` group (first at `j`): after a selection
/// listed at `i < j` it is in order, and before one listed at `i > j` it is
/// misordered.
pub proof fn law_wildcard_selection_follows_group_order(curr: InfoView, prev: InfoView, groups: Seq<Seq<char>>, i: int, j: int)
    requires
        0 <= i < groups.len(),
        0 <= j < groups.len(),
        i != j,
        groups[i] == prev.0,
        forall|k: int| 0 <= k < i ==> groups[k] != prev.0,
        groups[j] == "*"@,
        forall|k: int| 0 <= k < j ==> groups[k] != "*"@,
        curr.1 == SelectionKind::Field,
        !curr.2,
        forall|k: int| 0 <= k < groups.len() ==> groups[k] != curr.0,
    ensures
        info_misordered(curr, prev, groups) <==> j < i,
{
    lemma_index_of_first(groups, prev.0, i);
    lemma_index_of_first(groups, "*"@, j);
    lemma_index_of_absent(groups, curr.0);
}

} // verus!
