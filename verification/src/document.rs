//! A plain model of an executable GraphQL document as the document-side
//! rules read it: operations and fragments with their selection sets, each
//! node with the byte range it covers.
use vstd::prelude::*;
use crate::diagnostics::{DiagnosticView, LintDiagnostic, LintSeverity, OffsetRange, SourceSpan};
use crate::rules::OperationKind;

verus! {

/// A name as written, with its byte range.
#[derive(Debug, Clone)]
pub struct Name {
    pub value: String,
    pub range: OffsetRange,
}

/// A value given to an argument, as far as the rules look into it.
#[derive(Debug)]
pub enum ArgValue {
    /// An enum value: `ACTIVE`.
    Enum(Option<Name>),
    /// A list: `[a, b]`.
    List(Vec<ArgValue>),
    /// An object: `{ a: 1 }`, by the values of its fields.
    Object(Vec<Option<ArgValue>>),
    /// Any other value (variable, string, number, boolean, null).
    Other,
}

/// An argument of a field selection: `name: value`.
#[derive(Debug)]
pub struct Argument {
    pub name: Option<Name>,
    pub value: Option<ArgValue>,
}

/// A field selection: `alias: name(arguments) @directives { ... }`.
#[derive(Debug)]
pub struct FieldSelection {
    pub alias: Option<Name>,
    pub name: Option<Name>,
    /// Its arguments, in order.
    pub arguments: Vec<Argument>,
    pub selection_set: Option<SelectionSet>,
    pub range: OffsetRange,
}

/// A fragment spread: `...Name`.
#[derive(Debug, Clone)]
pub struct FragmentSpread {
    pub name: Option<Name>,
    pub range: OffsetRange,
}

/// An inline fragment: `... on Type { ... }`.
#[derive(Debug)]
pub struct InlineFragment {
    pub type_condition: Option<Name>,
    pub selection_set: Option<SelectionSet>,
    pub range: OffsetRange,
}

/// One selection of a selection set.
#[derive(Debug)]
pub enum Selection {
    Field(FieldSelection),
    FragmentSpread(FragmentSpread),
    InlineFragment(InlineFragment),
}

/// A selection set: `{ ... }`.
#[derive(Debug)]
pub struct SelectionSet {
    pub selections: Vec<Selection>,
    pub range: OffsetRange,
}

/// A variable definition of an operation: `$name: Type`.
#[derive(Debug, Clone)]
pub struct VariableDefinition {
    pub name: Option<Name>,
    pub range: OffsetRange,
}

/// An operation definition.
#[derive(Debug)]
pub struct OperationDefinition {
    pub kind: OperationKind,
    /// The range of the `query`/`mutation`/`subscription` keyword; `None`
    /// for the `{ ... }` shorthand.
    pub keyword_range: Option<OffsetRange>,
    pub name: Option<Name>,
    pub variables: Vec<VariableDefinition>,
    pub selection_set: Option<SelectionSet>,
    pub range: OffsetRange,
}

/// A fragment definition: `fragment Name on Type { ... }`.
#[derive(Debug)]
pub struct FragmentDefinition {
    pub name: Option<Name>,
    pub type_condition: Option<Name>,
    pub selection_set: Option<SelectionSet>,
    pub range: OffsetRange,
}

/// A top-level definition of a document.
#[derive(Debug)]
pub enum Definition {
    Operation(OperationDefinition),
    Fragment(FragmentDefinition),
    /// A type-system definition or extension.
    TypeSystem { range: OffsetRange },
}

/// A GraphQL document (a file, or one block embedded in a host file).
#[derive(Debug)]
pub struct ExecutableDocument {
    pub definitions: Vec<Definition>,
    /// The line of the host file on which the block starts.
    pub line_offset: usize,
    /// The byte offset of the block in the host file.
    pub byte_offset: usize,
    /// The text of the block.
    pub source: String,
    /// The file-level byte range of the declaration that holds the block
    /// (a `const X = gql`...`` in a host file), if any.
    pub declaration_range: Option<(usize, usize)>,
}

/// A document file of the project: its id, its path as shown to users,
/// and the GraphQL documents it holds.
pub struct DocumentFile {
    pub file_id: u64,
    pub path: String,
    pub documents: Vec<ExecutableDocument>,
}

impl ExecutableDocument {
    /// The span over `[start, end)` of this document.
    pub open spec fn spec_span(&self, start: usize, end: usize) -> SourceSpan {
        SourceSpan { start, end, line_offset: self.line_offset, byte_offset: self.byte_offset }
    }

    /// The span over `[start, end)` of this document.
    pub fn span(&self, start: usize, end: usize) -> (r: SourceSpan)
        ensures
            r == self.spec_span(start, end),
    {
        SourceSpan { start, end, line_offset: self.line_offset, byte_offset: self.byte_offset }
    }
}

/// Appends `d` to `out`.
pub fn push_diag(out: &mut Vec<LintDiagnostic>, d: LintDiagnostic)
    ensures
        crate::diagnostics::diags_view(final(out)@) == crate::diagnostics::diags_view(old(out)@).push(d.view()),
{
    let ghost before = crate::diagnostics::diags_view(out@);
    let ghost dv = d.view();
    out.push(d);
    assert(crate::diagnostics::diags_view(out@) =~= before.push(dv));
}

/// A diagnostic without a fix, as plain values.
pub open spec fn plain_view(span: SourceSpan, severity: LintSeverity, message: Seq<char>, rule: Seq<char>) -> DiagnosticView {
    (span, severity, message, rule, None)
}

/// The selection set of every operation of `defs` covers at least its
/// opening brace.
pub open spec fn braces_fit(defs: Seq<Definition>) -> bool {
    forall|k: int| 0 <= k < defs.len() ==> match #[trigger] defs[k] {
        Definition::Operation(op) => match op.selection_set {
            Some(ss) => ss.range.start < ss.range.end,
            None => true,
        },
        _ => true,
    }
}

/// Some selection of `sels`, at any depth, spreads the fragment `n`.
pub open spec fn spreads_in(sels: Seq<Selection>, n: Seq<char>) -> bool
    decreases sels,
{
    if sels.len() == 0 {
        false
    } else {
        let k = sels.len() - 1;
        spreads_in(sels.subrange(0, k), n) || match sels[k] {
            Selection::Field(f) => match f.selection_set {
                Some(ss) => spreads_in(ss.selections@, n),
                None => false,
            },
            Selection::InlineFragment(i) => match i.selection_set {
                Some(ss) => spreads_in(ss.selections@, n),
                None => false,
            },
            Selection::FragmentSpread(sp) => match sp.name {
                Some(m) => m.value@ == n,
                None => false,
            },
        }
    }
}

/// The selection set of definition `d`, at any depth, spreads the fragment `n`.
pub open spec fn def_spreads(d: Definition, n: Seq<char>) -> bool {
    match d {
        Definition::Operation(op) => match op.selection_set {
            Some(ss) => spreads_in(ss.selections@, n),
            None => false,
        },
        Definition::Fragment(fr) => match fr.selection_set {
            Some(ss) => spreads_in(ss.selections@, n),
            None => false,
        },
        Definition::TypeSystem { .. } => false,
    }
}

/// Whether some selection of `ss`, at any depth, spreads the fragment `n`.
pub fn selection_set_spreads(ss: &SelectionSet, n: &str) -> (r: bool)
    ensures
        r == spreads_in(ss.selections@, n@),
    decreases ss,
{
    let ghost sels = ss.selections@;
    let mut k: usize = 0;
    while k < ss.selections.len()
        invariant
            0 <= k <= sels.len(),
            sels == ss.selections@,
            !spreads_in(sels.subrange(0, k as int), n@),
        decreases sels.len() - k,
    {
        assert(sels.subrange(0, k + 1).subrange(0, k as int) =~= sels.subrange(0, k as int));
        assert(sels.subrange(0, k + 1)[k as int] == sels[k as int]);
        let hit = match &ss.selections[k] {
            Selection::Field(f) => match &f.selection_set {
                Some(nested) => selection_set_spreads(nested, n),
                None => false,
            },
            Selection::InlineFragment(i) => match &i.selection_set {
                Some(nested) => selection_set_spreads(nested, n),
                None => false,
            },
            Selection::FragmentSpread(sp) => match &sp.name {
                Some(m) => crate::text::str_eq(m.value.as_str(), n),
                None => false,
            },
        };
        if hit {
            assert(spreads_in(sels.subrange(0, k + 1), n@));
            proof { lemma_spreads_in_prefix(sels, k + 1, n@); }
            return true;
        }
        k += 1;
    }
    assert(sels.subrange(0, sels.len() as int) =~= sels);
    false
}

/// A spread within a prefix of `sels` is a spread within `sels`.
pub proof fn lemma_spreads_in_prefix(sels: Seq<Selection>, k: int, n: Seq<char>)
    requires
        0 <= k <= sels.len(),
        spreads_in(sels.subrange(0, k), n),
    ensures
        spreads_in(sels, n),
    decreases sels.len() - k,
{
    if k < sels.len() {
        let m = sels.len() - 1;
        assert(sels.subrange(0, m).subrange(0, k) =~= sels.subrange(0, k));
        lemma_spreads_in_prefix(sels.subrange(0, m), k, n);
    } else {
        assert(sels.subrange(0, k) =~= sels);
    }
}

/// Whether the selection set of `d`, at any depth, spreads the fragment `n`.
pub fn definition_spreads(d: &Definition, n: &str) -> (r: bool)
    ensures
        r == def_spreads(*d, n@),
{
    match d {
        Definition::Operation(op) => match &op.selection_set {
            Some(ss) => selection_set_spreads(ss, n),
            None => false,
        },
        Definition::Fragment(fr) => match &fr.selection_set {
            Some(ss) => selection_set_spreads(ss, n),
            None => false,
        },
        Definition::TypeSystem { .. } => false,
    }
}

} // verus!
