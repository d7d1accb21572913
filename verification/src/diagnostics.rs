//! Diagnostics produced by lint rules: byte ranges, text edits, code fixes.
use vstd::prelude::*;

verus! {

/// Byte offset range in a file.
#[derive(Debug, Clone, Copy, PartialEq, Eq, Hash, Default)]
pub struct OffsetRange {
    pub start: usize,
    pub end: usize,
}

impl OffsetRange {
    /// Creates a new offset range.
    pub fn new(start: usize, end: usize) -> (r: Self)
        ensures
            r.start == start,
            r.end == end,
    {
        OffsetRange { start, end }
    }

    /// Creates a zero-width range at an offset.
    pub fn at(offset: usize) -> (r: Self)
        ensures
            r.start == offset,
            r.end == offset,
    {
        OffsetRange { start: offset, end: offset }
    }

    /// The range rendered as `start..end`.
    pub fn to_display_string(&self) -> (s: String)
        ensures
            s@ == crate::text::decimal(self.start as nat) + seq!['.', '.'] + crate::text::decimal(self.end as nat),
    {
        let mut s = crate::text::usize_to_string(self.start);
        crate::text::push_char(&mut s, '.');
        crate::text::push_char(&mut s, '.');
        let e = crate::text::usize_to_string(self.end);
        s.append(e.as_str());
        s
    }
}

/// A text edit representing a change to apply to fix a lint issue.
#[derive(Debug, Clone, PartialEq, Eq)]
pub struct TextEdit {
    /// Byte offset range in the file (or block for TS/JS files)
    pub offset_range: OffsetRange,
    /// The text to replace the range with (empty string means deletion)
    pub new_text: String,
}

impl TextEdit {
    /// Creates a new text edit.
    pub fn new(start: usize, end: usize, new_text: &str) -> (r: Self)
        ensures
            r.offset_range.start == start,
            r.offset_range.end == end,
            r.new_text@ == new_text@,
    {
        TextEdit { offset_range: OffsetRange::new(start, end), new_text: new_text.to_owned() }
    }

    /// Creates a deletion edit (replace range with empty string).
    pub fn delete(start: usize, end: usize) -> (r: Self)
        ensures
            r.offset_range.start == start,
            r.offset_range.end == end,
            r.new_text@ == Seq::<char>::empty(),
    {
        TextEdit { offset_range: OffsetRange::new(start, end), new_text: String::new() }
    }

    /// Creates an insertion edit (insert text at position).
    pub fn insert(position: usize, text: &str) -> (r: Self)
        ensures
            r.offset_range.start == position,
            r.offset_range.end == position,
            r.new_text@ == text@,
    {
        TextEdit { offset_range: OffsetRange::at(position), new_text: text.to_owned() }
    }
}

/// A code fix that can be applied to resolve a lint diagnostic.
#[derive(Debug, Clone, PartialEq, Eq)]
pub struct CodeFix {
    /// Human-readable description of what the fix does
    pub label: String,
    /// The text edits to apply (in order)
    pub edits: Vec<TextEdit>,
}

impl CodeFix {
    /// Creates a new code fix.
    pub fn new(label: &str, edits: Vec<TextEdit>) -> (r: Self)
        ensures
            r.label@ == label@,
            r.edits == edits,
    {
        CodeFix { label: label.to_owned(), edits }
    }

    /// Creates a simple deletion fix.
    pub fn delete(label: &str, start: usize, end: usize) -> (r: Self)
        ensures
            r.label@ == label@,
            r.edits@.len() == 1,
            r.edits@[0].offset_range.start == start,
            r.edits@[0].offset_range.end == end,
            r.edits@[0].new_text@ == Seq::<char>::empty(),
    {
        let mut edits: Vec<TextEdit> = Vec::new();
        edits.push(TextEdit::delete(start, end));
        CodeFix { label: label.to_owned(), edits }
    }
}

/// Lint severity level.
#[derive(Debug, Clone, Copy, PartialEq, Eq, Hash)]
pub enum LintSeverity {
    Error,
    Warning,
    Info,
}

impl LintSeverity {
    /// The severity's lowercase name.
    pub open spec fn spec_label(self) -> Seq<char> {
        match self {
            LintSeverity::Error => "error"@,
            LintSeverity::Warning => "warning"@,
            LintSeverity::Info => "info"@,
        }
    }

    /// The severity's lowercase name (`"error"`, `"warning"`, `"info"`).
    pub fn to_display_string(&self) -> (s: String)
        ensures
            s@ == self.spec_label(),
    {
        match self {
            LintSeverity::Error => "error".to_owned(),
            LintSeverity::Warning => "warning".to_owned(),
            LintSeverity::Info => "info".to_owned(),
        }
    }
}

/// Source location of a diagnostic: a byte range, plus the position of the
/// GraphQL block inside its host file (both zero for plain `.graphql` files).
#[derive(Debug, Clone, Copy, PartialEq, Eq, Default)]
pub struct SourceSpan {
    /// Start byte offset (relative to the GraphQL block)
    pub start: usize,
    /// End byte offset (relative to the GraphQL block)
    pub end: usize,
    /// Line of the host file on which the block starts
    pub line_offset: usize,
    /// Byte offset of the block in the host file
    pub byte_offset: usize,
}

impl SourceSpan {
    /// A span over `[start, end)` of a plain GraphQL file.
    pub open spec fn new_spec(start: usize, end: usize) -> Self {
        SourceSpan { start, end, line_offset: 0, byte_offset: 0 }
    }

    /// A span over `[start, end)` of a plain GraphQL file.
    pub fn new(start: usize, end: usize) -> (r: Self)
        ensures
            r == Self::new_spec(start, end),
    {
        SourceSpan { start, end, line_offset: 0, byte_offset: 0 }
    }
}

/// Lint-specific diagnostic with byte offsets (not line/column).
#[derive(Debug, Clone, PartialEq, Eq)]
pub struct LintDiagnostic {
    /// Source span with byte offsets and block context for position mapping
    pub span: SourceSpan,
    /// Severity (from rule default or config override)
    pub severity: LintSeverity,
    /// Human-readable message
    pub message: String,
    /// Rule identifier (e.g., `"deprecated_field"`)
    pub rule: String,
    /// Optional auto-fix for this diagnostic
    pub fix: Option<CodeFix>,
}

impl LintDiagnostic {
    /// Creates a new lint diagnostic.
    pub fn new(span: SourceSpan, severity: LintSeverity, message: &str, rule: &str) -> (r: Self)
        ensures
            r.span == span,
            r.severity == severity,
            r.message@ == message@,
            r.rule@ == rule@,
            r.fix is None,
    {
        LintDiagnostic {
            span,
            severity,
            message: message.to_owned(),
            rule: rule.to_owned(),
            fix: None,
        }
    }

    /// Creates a warning diagnostic.
    pub fn warning(span: SourceSpan, message: &str, rule: &str) -> (r: Self)
        ensures
            r.span == span,
            r.severity == LintSeverity::Warning,
            r.message@ == message@,
            r.rule@ == rule@,
            r.fix is None,
    {
        Self::new(span, LintSeverity::Warning, message, rule)
    }

    /// Creates an error diagnostic.
    pub fn error(span: SourceSpan, message: &str, rule: &str) -> (r: Self)
        ensures
            r.span == span,
            r.severity == LintSeverity::Error,
            r.message@ == message@,
            r.rule@ == rule@,
            r.fix is None,
    {
        Self::new(span, LintSeverity::Error, message, rule)
    }

    /// Creates an info diagnostic.
    pub fn info(span: SourceSpan, message: &str, rule: &str) -> (r: Self)
        ensures
            r.span == span,
            r.severity == LintSeverity::Info,
            r.message@ == message@,
            r.rule@ == rule@,
            r.fix is None,
    {
        Self::new(span, LintSeverity::Info, message, rule)
    }

    /// Adds an auto-fix to this diagnostic.
    pub fn with_fix(self, fix: CodeFix) -> (r: Self)
        ensures
            r.span == self.span,
            r.severity == self.severity,
            r.message == self.message,
            r.rule == self.rule,
            r.fix == Some(fix),
    {
        let mut d = self;
        d.fix = Some(fix);
        d
    }

    /// Returns true if this diagnostic has an auto-fix available.
    pub fn has_fix(&self) -> (b: bool)
        ensures
            b == self.fix is Some,
    {
        self.fix.is_some()
    }
}

/// A text edit as plain values: start, end, replacement.
pub type TextEditView = (int, int, Seq<char>);

/// A code fix as plain values: label and edits.
pub type CodeFixView = (Seq<char>, Seq<TextEditView>);

/// A diagnostic as plain values: span, severity, message, rule, fix.
pub type DiagnosticView = (SourceSpan, LintSeverity, Seq<char>, Seq<char>, Option<CodeFixView>);

impl TextEdit {
    pub open spec fn view(&self) -> TextEditView {
        (self.offset_range.start as int, self.offset_range.end as int, self.new_text@)
    }
}

impl CodeFix {
    pub open spec fn view(&self) -> CodeFixView {
        (self.label@, Seq::new(self.edits@.len(), |k: int| self.edits@[k].view()))
    }
}

impl LintDiagnostic {
    pub open spec fn view(&self) -> DiagnosticView {
        (self.span, self.severity, self.message@, self.rule@, match self.fix {
            Some(f) => Some(f.view()),
            None => None,
        })
    }
}

/// The views of a sequence of diagnostics.
pub open spec fn diags_view(ds: Seq<LintDiagnostic>) -> Seq<DiagnosticView> {
    Seq::new(ds.len(), |k: int| ds[k].view())
}

} // verus!
