//! The `descriptionStyle` lint rule.
use vstd::prelude::*;
use vstd::string::StringSliceAdditionalSpecFns;
use crate::diagnostics::{diags_view, CodeFix, DiagnosticView, LintDiagnostic, LintSeverity, SourceSpan, TextEdit};
use crate::document::{push_diag, ExecutableDocument};
use crate::text::{
    char_is_ws, chars_to_string, copy_range, ends_with, is_ws, push_char, starts_with,
    lemma_encode_len, str_byte_len, str_ends_with, str_slice, str_starts_with, to_chars,
};

verus! {

/// Lint rule that enforces consistent description style in schema
pub struct DescriptionStyleRuleImpl;

impl DescriptionStyleRuleImpl {
    /// The rule's identifier.
    pub fn name(&self) -> (s: &'static str)
        ensures
            s@ == "descriptionStyle"@,
    {
        "descriptionStyle"
    }

    /// What the rule checks.
    pub fn description(&self) -> (s: &'static str)
        ensures
            s@ == "Enforces consistent description style (block vs inline)"@,
    {
        "Enforces consistent description style (block vs inline)"
    }

    /// The severity the rule reports with unless configured otherwise.
    pub fn default_severity(&self) -> (s: LintSeverity)
        ensures
            s == LintSeverity::Warning,
    {
        LintSeverity::Warning
    }
}

/// The expected description style.
#[derive(Debug, Clone, Copy, PartialEq, Eq, Structural)]
pub enum DescriptionStyleKind {
    /// Inline string: `"description"`
    Inline,
    /// Block string: `"""description"""`
    Block,
}

/// Options for the `descriptionStyle` rule.
#[derive(Debug, Clone, Copy)]
pub struct DescriptionStyleOptions {
    /// The expected style for descriptions.
    pub style: DescriptionStyleKind,
}

impl Default for DescriptionStyleOptions {
    fn default() -> (r: Self)
        ensures
            r.style == DescriptionStyleKind::Block,
    {
        DescriptionStyleOptions { style: DescriptionStyleKind::Block }
    }
}

/// `s[i..]` with every run of whitespace replaced by one space; `in_ws`
/// tells whether the character before `i` was whitespace already replaced.
pub open spec fn collapse_from(s: Seq<char>, i: int, in_ws: bool) -> Seq<char>
    decreases s.len() - i,
{
    if i >= s.len() {
        seq![]
    } else if is_ws(s[i]) {
        if in_ws {
            collapse_from(s, i + 1, true)
        } else {
            seq![' '] + collapse_from(s, i + 1, true)
        }
    } else {
        seq![s[i]] + collapse_from(s, i + 1, false)
    }
}

/// `s` with every run of whitespace replaced by one space.
pub open spec fn spec_collapse_whitespace(s: Seq<char>) -> Seq<char> {
    collapse_from(s, 0, false)
}

/// Collapses runs of whitespace (spaces, tabs, newlines) into a single space.
pub fn collapse_whitespace(s: &str) -> (r: String)
    ensures
        r@ == spec_collapse_whitespace(s@),
{
    let v = to_chars(s);
    let mut out = String::new();
    let mut in_ws = false;
    let mut i: usize = 0;
    while i < v.len()
        invariant
            0 <= i <= v.len(),
            v@ == s@,
            out@ + collapse_from(v@, i as int, in_ws) == collapse_from(v@, 0, false),
        decreases v.len() - i,
    {
        let c = v[i];
        let ghost old_out = out@;
        if char_is_ws(c) {
            if !in_ws {
                push_char(&mut out, ' ');
                assert(old_out + collapse_from(v@, i as int, false) == out@ + collapse_from(v@, i + 1, true));
                in_ws = true;
            }
        } else {
            push_char(&mut out, c);
            assert(old_out + collapse_from(v@, i as int, in_ws) == out@ + collapse_from(v@, i + 1, false));
            in_ws = false;
        }
        i += 1;
    }
    assert(out@ + collapse_from(v@, i as int, in_ws) == out@);
    out
}

/// The text of a description written in the other style: an inline string
/// becomes a block string, a block string becomes an inline string with its
/// whitespace runs collapsed.
pub open spec fn spec_restyle(raw: Seq<char>, target: DescriptionStyleKind) -> Seq<char> {
    match target {
        DescriptionStyleKind::Block => {
            let s1 = if raw.len() > 0 && raw[0] == '"' { "\"\"\""@ + raw.drop_first() } else { raw };
            if s1.len() > 0 && s1.last() == '"' { s1.drop_last() + "\"\"\""@ } else { s1 }
        },
        DescriptionStyleKind::Inline => {
            let s1 = if starts_with(raw, "\"\"\""@) { "\""@ + raw.skip(3) } else { raw };
            let s2 = if ends_with(s1, "\"\"\""@) { s1.take(s1.len() - 3) + "\""@ } else { s1 };
            spec_collapse_whitespace(s2)
        },
    }
}

/// Rewrites the description text `raw` into the style `target`.
pub fn restyle(raw: &str, target: DescriptionStyleKind) -> (r: String)
    ensures
        r@ == spec_restyle(raw@, target),
{
    let v = to_chars(raw);
    proof {
        reveal_strlit("\"\"\"");
        reveal_strlit("\"");
    }
    match target {
        DescriptionStyleKind::Block => {
            let mut s1: Vec<char> = Vec::new();
            if v.len() > 0 && v[0] == '"' {
                s1.push('"');
                s1.push('"');
                s1.push('"');
                let rest = copy_range(&v, 1, v.len());
                s1.append(&mut rest.clone());
                assert(s1@ =~= "\"\"\""@ + v@.drop_first());
            } else {
                s1 = v.clone();
                assert(s1@ =~= v@);
            }
            let ghost g1 = s1@;
            if s1.len() > 0 && s1[s1.len() - 1] == '"' {
                s1.pop();
                s1.push('"');
                s1.push('"');
                s1.push('"');
                assert(s1@ =~= g1.drop_last() + "\"\"\""@);
            }
            chars_to_string(&s1)
        },
        DescriptionStyleKind::Inline => {
            let s = chars_to_string(&v);
            let three = "\"\"\"";
            let mut s1: Vec<char> = if str_starts_with(s.as_str(), three) {
                let mut t: Vec<char> = Vec::new();
                t.push('"');
                let rest = copy_range(&v, 3, v.len());
                t.append(&mut rest.clone());
                assert(t@ =~= "\""@ + v@.skip(3));
                t
            } else {
                v.clone()
            };
            let ghost g1 = s1@;
            let s1_str = chars_to_string(&s1);
            if str_ends_with(s1_str.as_str(), three) {
                let n = s1.len();
                s1.truncate(n - 3);
                s1.push('"');
                assert(s1@ =~= g1.take(g1.len() - 3) + "\""@);
            }
            let s2 = chars_to_string(&s1);
            collapse_whitespace(s2.as_str())
        },
    }
}

/// The style a description is not written in, as the message names it.
pub open spec fn style_word(style: DescriptionStyleKind) -> Seq<char> {
    match style {
        DescriptionStyleKind::Block => "block"@,
        DescriptionStyleKind::Inline => "inline"@,
    }
}

/// The other style.
pub open spec fn other_style(style: DescriptionStyleKind) -> DescriptionStyleKind {
    match style {
        DescriptionStyleKind::Block => DescriptionStyleKind::Inline,
        DescriptionStyleKind::Inline => DescriptionStyleKind::Block,
    }
}

/// What the rule reports for a description whose string literal spans the
/// bytes `start..end` of a source with bytes `b` and whose value has
/// `desc_len` bytes, under `parent`'s label: nothing when the literal lies
/// outside the source or already has the expected style; else a warning over
/// at most the first `desc_len` (capped at 30) plus six bytes of the
/// literal, with a fix that rewrites it in the expected style.
pub open spec fn spec_description_report(
    doc: ExecutableDocument,
    start: int,
    end: int,
    desc_len: int,
    style: DescriptionStyleKind,
    parent: Seq<char>,
) -> Option<DiagnosticView> {
    let b = vstd::utf8::encode_utf8(doc.source@);
    if start >= b.len() || end > b.len() {
        None
    } else {
        let raw = vstd::utf8::decode_utf8(b.subrange(start, end));
        let is_block = starts_with(raw, "\"\"\""@);
        let wrong = match style {
            DescriptionStyleKind::Block => !is_block,
            DescriptionStyleKind::Inline => is_block,
        };
        if !wrong {
            None
        } else {
            let cap = if desc_len < 30 { desc_len } else { 30 };
            let span_end = if end < start + cap + 6 { end } else { start + cap + 6 };
            let label = "Change to "@ + style_word(style) + " style description"@;
            Some((
                doc.spec_span(start as usize, span_end as usize),
                LintSeverity::Warning,
                "Unexpected "@ + style_word(other_style(style)) + " description for "@ + parent,
                "descriptionStyle"@,
                Some((label, seq![(start, end, spec_restyle(raw, style))])),
            ))
        }
    }
}

/// Checks one description string literal (bytes `start..end` of `source`,
/// its value `desc_len` bytes long) against the expected `style`.
pub fn check_description(
    doc: &ExecutableDocument,
    start: usize,
    end: usize,
    desc_len: usize,
    style: DescriptionStyleKind,
    parent_label: &str,
) -> (r: Option<LintDiagnostic>)
    requires
        start <= end,
        end <= vstd::utf8::encode_utf8(doc.source@).len()
            ==> vstd::utf8::is_char_boundary(vstd::utf8::encode_utf8(doc.source@), start as int)
            && vstd::utf8::is_char_boundary(vstd::utf8::encode_utf8(doc.source@), end as int),
    ensures
        match (r, spec_description_report(*doc, start as int, end as int, desc_len as int, style, parent_label@)) {
            (Some(d), Some(v)) => d.view() == v,
            (None, None) => true,
            _ => false,
        },
{
    let source = doc.source.as_str();
    let n = str_byte_len(source);
    proof {
        lemma_encode_len(source@);
    }
    if start >= n || end > n {
        return None;
    }
    let raw = str_slice(source, start, end);
    proof {
        vstd::utf8::encode_utf8_decode_utf8(raw@);
        reveal_strlit("\"\"\"");
    }
    let is_block = str_starts_with(raw, "\"\"\"");
    let wrong = match style {
        DescriptionStyleKind::Block => !is_block,
        DescriptionStyleKind::Inline => is_block,
    };
    if !wrong {
        return None;
    }
    let (unexpected, suggested) = match style {
        DescriptionStyleKind::Block => ("inline", "block"),
        DescriptionStyleKind::Inline => ("block", "inline"),
    };
    let cap = if desc_len < 30 { desc_len } else { 30 };
    let span_end = if end - start < cap + 6 { end } else { start + cap + 6 };
    let mut label = "Change to ".to_owned();
    label.append(suggested);
    label.append(" style description");
    let mut message = "Unexpected ".to_owned();
    message.append(unexpected);
    message.append(" description for ");
    message.append(parent_label);
    let new_text = restyle(raw, style);
    let mut edits: Vec<TextEdit> = Vec::new();
    edits.push(TextEdit::new(start, end, new_text.as_str()));
    let fix = CodeFix::new(label.as_str(), edits);
    let d = LintDiagnostic::new(doc.span(start, span_end), LintSeverity::Warning, message.as_str(), "descriptionStyle");
    let d = d.with_fix(fix);
    assert(d.view().4 == Some((label@, seq![(start as int, end as int, spec_restyle(raw@, style))])));
    Some(d)
}

/// A description string literal: the byte range of the literal and the
/// byte length of its value.
#[derive(Debug, Clone, Copy)]
pub struct DescriptionLiteral {
    pub start: usize,
    pub end: usize,
    pub value_len: usize,
}

/// A named schema element that may carry a description.
#[derive(Debug, Clone)]
pub struct Described {
    pub name: String,
    pub description: Option<DescriptionLiteral>,
}

/// A field definition with its arguments.
#[derive(Debug, Clone)]
pub struct DescribedField {
    pub name: String,
    pub description: Option<DescriptionLiteral>,
    pub arguments: Vec<Described>,
}

/// The kinds of schema definitions, as far as descriptions go.
#[derive(Debug, Clone, Copy, PartialEq, Eq, Structural)]
pub enum DescribedKind {
    Object,
    Interface,
    Union,
    Enum,
    Scalar,
    InputObject,
    Directive,
    /// An extension or a schema definition: nothing to check.
    Other,
}

/// A schema definition with its descriptions: `fields` for object and
/// interface types; `items` for enum values, input fields and directive
/// arguments.
#[derive(Debug, Clone)]
pub struct DescribedDefinition {
    pub kind: DescribedKind,
    pub name: String,
    pub description: Option<DescriptionLiteral>,
    pub fields: Vec<DescribedField>,
    pub items: Vec<Described>,
}

/// The report, if any, about the description `lit` of the element named
/// `label` in `doc`.
pub open spec fn literal_reports(doc: ExecutableDocument, style: DescriptionStyleKind, lit: Option<DescriptionLiteral>, label: Seq<char>) -> Seq<DiagnosticView> {
    match lit {
        Some(l) => match spec_description_report(doc, l.start as int, l.end as int, l.value_len as int, style, label) {
            Some(v) => seq![v],
            None => seq![],
        },
        None => seq![],
    }
}

/// A description literal whose range is ordered and, when within the
/// source of `doc`, on character boundaries.
pub open spec fn literal_ok(doc: ExecutableDocument, lit: Option<DescriptionLiteral>) -> bool {
    match lit {
        Some(l) => l.start <= l.end && (l.end <= vstd::utf8::encode_utf8(doc.source@).len()
            ==> vstd::utf8::is_char_boundary(vstd::utf8::encode_utf8(doc.source@), l.start as int)
            && vstd::utf8::is_char_boundary(vstd::utf8::encode_utf8(doc.source@), l.end as int)),
        None => true,
    }
}

/// Every description literal of `d` is well placed in `doc`.
pub open spec fn definition_literals_ok(doc: ExecutableDocument, d: DescribedDefinition) -> bool {
    &&& literal_ok(doc, d.description)
    &&& forall|k: int| 0 <= k < d.fields@.len() ==> literal_ok(doc, (#[trigger] d.fields@[k]).description)
    &&& forall|k: int, j: int| 0 <= k < d.fields@.len() && 0 <= j < d.fields@[k].arguments@.len()
        ==> literal_ok(doc, (#[trigger] d.fields@[k].arguments@[j]).description)
    &&& forall|k: int| 0 <= k < d.items@.len() ==> literal_ok(doc, (#[trigger] d.items@[k]).description)
}

/// `<kind> "<name>"`.
pub open spec fn quoted_label(kind: Seq<char>, name: Seq<char>) -> Seq<char> {
    kind + " \""@ + name + "\""@
}

/// Reports about the arguments `args` of the element labelled `parent`.
pub open spec fn args_style_reports(doc: ExecutableDocument, style: DescriptionStyleKind, args: Seq<Described>, parent: Seq<char>) -> Seq<DiagnosticView>
    decreases args.len(),
{
    if args.len() == 0 {
        seq![]
    } else {
        args_style_reports(doc, style, args.drop_last(), parent)
            + literal_reports(doc, style, args.last().description, quoted_label("input value"@, args.last().name@) + " in "@ + parent)
    }
}

/// Reports about the fields `fs` of the type labelled `parent`, each
/// followed by its arguments'.
pub open spec fn fields_style_reports(doc: ExecutableDocument, style: DescriptionStyleKind, fs: Seq<DescribedField>, parent: Seq<char>) -> Seq<DiagnosticView>
    decreases fs.len(),
{
    if fs.len() == 0 {
        seq![]
    } else {
        let f = fs.last();
        let label = quoted_label("field"@, f.name@) + " in "@ + parent;
        fields_style_reports(doc, style, fs.drop_last(), parent)
            + literal_reports(doc, style, f.description, label)
            + args_style_reports(doc, style, f.arguments@, label)
    }
}

/// Reports about the items `items` (enum values labelled `item`, or input
/// values) of the definition labelled `parent`.
pub open spec fn items_style_reports(doc: ExecutableDocument, style: DescriptionStyleKind, items: Seq<Described>, item: Seq<char>, parent: Seq<char>) -> Seq<DiagnosticView>
    decreases items.len(),
{
    if items.len() == 0 {
        seq![]
    } else {
        items_style_reports(doc, style, items.drop_last(), item, parent)
            + literal_reports(doc, style, items.last().description, quoted_label(item, items.last().name@) + " in "@ + parent)
    }
}

/// Reports about definition `d`: its own description, then its fields (and
/// their arguments), enum values, input fields or arguments.
pub open spec fn definition_style_reports(doc: ExecutableDocument, style: DescriptionStyleKind, d: DescribedDefinition) -> Seq<DiagnosticView> {
    match d.kind {
        DescribedKind::Object => {
            let p = quoted_label("type"@, d.name@);
            literal_reports(doc, style, d.description, p) + fields_style_reports(doc, style, d.fields@, p)
        },
        DescribedKind::Interface => {
            let p = quoted_label("interface"@, d.name@);
            literal_reports(doc, style, d.description, p) + fields_style_reports(doc, style, d.fields@, p)
        },
        DescribedKind::Union => literal_reports(doc, style, d.description, quoted_label("union"@, d.name@)),
        DescribedKind::Enum => {
            let p = quoted_label("enum"@, d.name@);
            literal_reports(doc, style, d.description, p) + items_style_reports(doc, style, d.items@, "enum value"@, p)
        },
        DescribedKind::Scalar => literal_reports(doc, style, d.description, quoted_label("scalar"@, d.name@)),
        DescribedKind::InputObject => {
            let p = quoted_label("input"@, d.name@);
            literal_reports(doc, style, d.description, p) + items_style_reports(doc, style, d.items@, "input value"@, p)
        },
        DescribedKind::Directive => {
            let p = quoted_label("directive"@, d.name@);
            literal_reports(doc, style, d.description, p) + items_style_reports(doc, style, d.items@, "input value"@, p)
        },
        DescribedKind::Other => seq![],
    }
}

/// Reports about the definitions `defs`.
pub open spec fn style_reports(doc: ExecutableDocument, style: DescriptionStyleKind, defs: Seq<DescribedDefinition>) -> Seq<DiagnosticView>
    decreases defs.len(),
{
    if defs.len() == 0 {
        seq![]
    } else {
        style_reports(doc, style, defs.drop_last()) + definition_style_reports(doc, style, defs.last())
    }
}

fn quoted_label_exec(kind: &str, name: &str) -> (r: String)
    ensures
        r@ == quoted_label(kind@, name@),
{
    let mut r = kind.to_owned();
    r.append(" \"");
    r.append(name);
    r.append("\"");
    r
}

fn check_literal(doc: &ExecutableDocument, style: DescriptionStyleKind, lit: &Option<DescriptionLiteral>, label: &str, out: &mut Vec<LintDiagnostic>)
    requires
        literal_ok(*doc, *lit),
    ensures
        diags_view(final(out)@) == diags_view(old(out)@) + literal_reports(*doc, style, *lit, label@),
{
    match lit {
        Some(l) => match check_description(doc, l.start, l.end, l.value_len, style, label) {
            Some(d) => push_diag(out, d),
            None => assert(diags_view(out@) =~= diags_view(out@) + seq![]),
        },
        None => assert(diags_view(out@) =~= diags_view(out@) + seq![]),
    }
}

fn check_items(doc: &ExecutableDocument, style: DescriptionStyleKind, items: &Vec<Described>, item: &str, parent: &str, out: &mut Vec<LintDiagnostic>)
    requires
        forall|k: int| 0 <= k < items@.len() ==> literal_ok(*doc, (#[trigger] items@[k]).description),
    ensures
        diags_view(final(out)@) == diags_view(old(out)@) + items_style_reports(*doc, style, items@, item@, parent@),
{
    let ghost start = diags_view(out@);
    let mut k: usize = 0;
    assert(diags_view(out@) =~= start + items_style_reports(*doc, style, items@.take(0), item@, parent@));
    while k < items.len()
        invariant
            0 <= k <= items@.len(),
            forall|j: int| 0 <= j < items@.len() ==> literal_ok(*doc, (#[trigger] items@[j]).description),
            diags_view(out@) == start + items_style_reports(*doc, style, items@.take(k as int), item@, parent@),
        decreases items@.len() - k,
    {
        assert(items@.take(k + 1).drop_last() =~= items@.take(k as int));
        let it = &items[k];
        let mut label = quoted_label_exec(item, it.name.as_str());
        label.append(" in ");
        label.append(parent);
        assert(literal_ok(*doc, items@[k as int].description));
        check_literal(doc, style, &it.description, label.as_str(), out);
        k += 1;
    }
    assert(items@.take(k as int) =~= items@);
}

fn check_fields(doc: &ExecutableDocument, style: DescriptionStyleKind, fs: &Vec<DescribedField>, parent: &str, out: &mut Vec<LintDiagnostic>)
    requires
        forall|k: int| 0 <= k < fs@.len() ==> literal_ok(*doc, (#[trigger] fs@[k]).description),
        forall|k: int, j: int| 0 <= k < fs@.len() && 0 <= j < fs@[k].arguments@.len()
            ==> literal_ok(*doc, (#[trigger] fs@[k].arguments@[j]).description),
    ensures
        diags_view(final(out)@) == diags_view(old(out)@) + fields_style_reports(*doc, style, fs@, parent@),
{
    let ghost start = diags_view(out@);
    let mut k: usize = 0;
    assert(diags_view(out@) =~= start + fields_style_reports(*doc, style, fs@.take(0), parent@));
    while k < fs.len()
        invariant
            0 <= k <= fs@.len(),
            forall|a: int| 0 <= a < fs@.len() ==> literal_ok(*doc, (#[trigger] fs@[a]).description),
            forall|a: int, j: int| 0 <= a < fs@.len() && 0 <= j < fs@[a].arguments@.len()
                ==> literal_ok(*doc, (#[trigger] fs@[a].arguments@[j]).description),
            diags_view(out@) == start + fields_style_reports(*doc, style, fs@.take(k as int), parent@),
        decreases fs@.len() - k,
    {
        assert(fs@.take(k + 1).drop_last() =~= fs@.take(k as int));
        let f = &fs[k];
        let mut label = quoted_label_exec("field", f.name.as_str());
        label.append(" in ");
        label.append(parent);
        assert(literal_ok(*doc, fs@[k as int].description));
        let ghost before = diags_view(out@);
        check_literal(doc, style, &f.description, label.as_str(), out);
        let ghost mid = diags_view(out@);
        assert(forall|j: int| 0 <= j < f.arguments@.len() ==> literal_ok(*doc, (#[trigger] f.arguments@[j]).description)) by {
            assert(forall|j: int| 0 <= j < fs@[k as int].arguments@.len() ==> literal_ok(*doc, (#[trigger] fs@[k as int].arguments@[j]).description));
        }
        check_items(doc, style, &f.arguments, "input value", label.as_str(), out);
        assert(args_style_reports(*doc, style, f.arguments@, label@) == items_style_reports(*doc, style, f.arguments@, "input value"@, label@)) by {
            lemma_args_items(*doc, style, f.arguments@, label@);
        }
        assert(diags_view(out@) =~= start + fields_style_reports(*doc, style, fs@.take(k + 1), parent@));
        k += 1;
    }
    assert(fs@.take(k as int) =~= fs@);
}

proof fn lemma_args_items(doc: ExecutableDocument, style: DescriptionStyleKind, args: Seq<Described>, parent: Seq<char>)
    ensures
        args_style_reports(doc, style, args, parent) == items_style_reports(doc, style, args, "input value"@, parent),
    decreases args.len(),
{
    if args.len() > 0 {
        lemma_args_items(doc, style, args.drop_last(), parent);
    }
}

fn kind_label(k: DescribedKind) -> (r: &'static str)
    ensures
        r@ == match k {
            DescribedKind::Object => "type"@,
            DescribedKind::Interface => "interface"@,
            DescribedKind::Union => "union"@,
            DescribedKind::Enum => "enum"@,
            DescribedKind::Scalar => "scalar"@,
            DescribedKind::InputObject => "input"@,
            DescribedKind::Directive => "directive"@,
            DescribedKind::Other => ""@,
        },
{
    match k {
        DescribedKind::Object => "type",
        DescribedKind::Interface => "interface",
        DescribedKind::Union => "union",
        DescribedKind::Enum => "enum",
        DescribedKind::Scalar => "scalar",
        DescribedKind::InputObject => "input",
        DescribedKind::Directive => "directive",
        DescribedKind::Other => "",
    }
}

fn walk_definition(doc: &ExecutableDocument, style: DescriptionStyleKind, d: &DescribedDefinition, out: &mut Vec<LintDiagnostic>)
    requires
        definition_literals_ok(*doc, *d),
    ensures
        diags_view(final(out)@) == diags_view(old(out)@) + definition_style_reports(*doc, style, *d),
{
    let ghost start = diags_view(out@);
    if d.kind == DescribedKind::Other {
        assert(diags_view(out@) =~= start + seq![]);
        return;
    }
    let parent = quoted_label_exec(kind_label(d.kind), d.name.as_str());
    check_literal(doc, style, &d.description, parent.as_str(), out);
    match d.kind {
        DescribedKind::Object | DescribedKind::Interface => {
            check_fields(doc, style, &d.fields, parent.as_str(), out);
        },
        DescribedKind::Enum => {
            check_items(doc, style, &d.items, "enum value", parent.as_str(), out);
        },
        DescribedKind::InputObject | DescribedKind::Directive => {
            check_items(doc, style, &d.items, "input value", parent.as_str(), out);
        },
        _ => {
            assert(diags_view(out@) =~= diags_view(out@) + seq![]);
        },
    }
    assert(diags_view(out@) =~= start + definition_style_reports(*doc, style, *d));
}

impl DescriptionStyleRuleImpl {
    /// Reports every description among the schema definitions `defs` of
    /// `doc` that is not written in the configured style (block `\"\"\"` or
    /// inline `"`), with a fix that rewrites it.
    pub fn check(&self, opts: &DescriptionStyleOptions, doc: &ExecutableDocument, defs: &Vec<DescribedDefinition>) -> (r: Vec<LintDiagnostic>)
        requires
            forall|k: int| 0 <= k < defs@.len() ==> definition_literals_ok(*doc, #[trigger] defs@[k]),
        ensures
            diags_view(r@) == style_reports(*doc, opts.style, defs@),
    {
        let mut out: Vec<LintDiagnostic> = Vec::new();
        let mut k: usize = 0;
        assert(diags_view(out@) =~= Seq::<DiagnosticView>::empty());
        while k < defs.len()
            invariant
                0 <= k <= defs@.len(),
                forall|j: int| 0 <= j < defs@.len() ==> definition_literals_ok(*doc, #[trigger] defs@[j]),
                diags_view(out@) == style_reports(*doc, opts.style, defs@.take(k as int)),
            decreases defs@.len() - k,
        {
            assert(defs@.take(k + 1).drop_last() =~= defs@.take(k as int));
            assert(definition_literals_ok(*doc, defs@[k as int]));
            walk_definition(doc, opts.style, &defs[k], &mut out);
            k += 1;
        }
        assert(defs@.take(k as int) =~= defs@);
        out
    }
}

} // verus!
