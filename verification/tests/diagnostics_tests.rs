use graphql_linter::diagnostics::{CodeFix, LintDiagnostic, LintSeverity, OffsetRange, SourceSpan, TextEdit};

#[test]
fn test_offset_range_creation() {
    let range = OffsetRange::new(10, 20);
    assert_eq!(range.start, 10);
    assert_eq!(range.end, 20);
}

#[test]
fn test_offset_range_at() {
    let range = OffsetRange::at(15);
    assert_eq!(range.start, 15);
    assert_eq!(range.end, 15);
}

#[test]
fn test_lint_diagnostic_warning() {
    let diag = LintDiagnostic::warning(SourceSpan::new(5, 10), "Test warning", "test_rule");
    assert_eq!(diag.severity, LintSeverity::Warning);
    assert_eq!(diag.message, "Test warning");
    assert_eq!(diag.rule, "test_rule");
    assert_eq!(diag.span.start, 5);
    assert_eq!(diag.span.end, 10);
    assert!(!diag.has_fix());
}

#[test]
fn test_text_edit_creation() {
    let edit = TextEdit::new(10, 20, "replacement");
    assert_eq!(edit.offset_range.start, 10);
    assert_eq!(edit.offset_range.end, 20);
    assert_eq!(edit.new_text, "replacement");
}

#[test]
fn test_text_edit_delete() {
    let edit = TextEdit::delete(5, 15);
    assert_eq!(edit.offset_range.start, 5);
    assert_eq!(edit.offset_range.end, 15);
    assert_eq!(edit.new_text, "");
}

#[test]
fn test_text_edit_insert() {
    let edit = TextEdit::insert(10, "inserted text");
    assert_eq!(edit.offset_range.start, 10);
    assert_eq!(edit.offset_range.end, 10);
    assert_eq!(edit.new_text, "inserted text");
}

#[test]
fn test_code_fix_creation() {
    let fix = CodeFix::new("Remove unused variable", vec![TextEdit::delete(10, 20)]);
    assert_eq!(fix.label, "Remove unused variable");
    assert_eq!(fix.edits.len(), 1);
}

#[test]
fn test_code_fix_delete() {
    let fix = CodeFix::delete("Remove variable", 10, 20);
    assert_eq!(fix.label, "Remove variable");
    assert_eq!(fix.edits.len(), 1);
    assert_eq!(fix.edits[0].new_text, "");
}

#[test]
fn test_diagnostic_with_fix() {
    let diag = LintDiagnostic::warning(SourceSpan::new(5, 10), "Test warning", "test_rule")
        .with_fix(CodeFix::delete("Fix it", 5, 10));
    assert!(diag.has_fix());
    assert_eq!(diag.fix.unwrap().label, "Fix it");
}

#[test]
fn offset_range_display_string() {
    assert_eq!(OffsetRange::new(3, 17).to_display_string(), "3..17");
}

#[test]
fn severity_display_strings() {
    assert_eq!(LintSeverity::Error.to_display_string(), "error");
    assert_eq!(LintSeverity::Warning.to_display_string(), "warning");
    assert_eq!(LintSeverity::Info.to_display_string(), "info");
}
