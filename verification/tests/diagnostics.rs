use std::sync::Arc;

use lib::diagnostics::{diagnostics_to_string, Diagnostic, Diagnostics, Severity};
use lib::source::{FileId, SourceFile, SourceManager, Span};

fn make_diag_source_manager() -> Arc<SourceManager> {
    let mut sm = SourceManager::new();
    let sf = SourceFile::new(
        FileId(0),
        "test.c".to_string(),
        "int main() {\n    return 42;\n}\n".into(),
    );
    sm.add(sf);
    Arc::new(sm)
}

#[test]
fn error_diagnostic_sets_abort_flag() {
    let sm = make_diag_source_manager();
    let mut diags = Diagnostics::new(sm);
    diags.emit(Diagnostic::error("something went wrong"));
    assert!(diags.has_errors());
    assert!(diags.abort_on_error());
}

#[test]
fn warning_does_not_set_abort_flag() {
    let sm = make_diag_source_manager();
    let mut diags = Diagnostics::new(sm);
    diags.emit(Diagnostic::warning("this is a warning"));
    assert!(!diags.has_errors());
    assert!(!diags.abort_on_error());
}

#[test]
fn report_all_produces_location_prefix() {
    let sm = make_diag_source_manager();
    let mut diags = Diagnostics::new(Arc::clone(&sm));
    let file = sm.get(FileId(0)).unwrap();
    let span = Span::new(file.id(), 0, 3); // "int"
    diags.emit(Diagnostic::error("test message").with_primary(span));

    let output = diagnostics_to_string(&diags);
    assert!(output.contains("test.c:1:0: error: test message"));
    assert!(output.contains("| int"));
}

#[test]
fn reset_clears_all_state() {
    let sm = make_diag_source_manager();
    let mut diags = Diagnostics::new(sm);
    diags.emit(Diagnostic::error("err"));
    assert!(diags.has_errors());
    diags.reset();
    assert!(!diags.has_errors());
    assert!(!diags.abort_on_error());
}

#[test]
fn severity_names() {
    assert_eq!(Severity::Note.as_str(), "note");
    assert_eq!(Severity::Warning.as_str(), "warning");
    assert_eq!(Severity::Error.as_str(), "error");
    assert_eq!(Severity::Bug.as_str(), "bug");
    assert!(Severity::Note < Severity::Warning);
    assert!(Severity::Warning < Severity::Error);
    assert!(Severity::Error < Severity::Bug);
}

#[test]
fn bug_sets_abort_flag_and_note_does_not() {
    let mut diags = Diagnostics::new(make_diag_source_manager());
    diags.emit(Diagnostic::note("fyi"));
    assert!(!diags.has_errors());
    assert!(!diags.abort_on_error());
    diags.emit(Diagnostic {
        severity: Severity::Bug,
        message: "internal".to_string(),
        primary_span: None,
        secondary_spans: Vec::new(),
        fix_its: Vec::new(),
    });
    assert!(diags.has_errors());
    assert!(diags.abort_on_error());
    assert_eq!(diags.emitted().len(), 2);
    assert_eq!(diags.emitted()[0].severity, Severity::Note);
}

#[test]
fn builders_attach_spans() {
    let span = Span::new(FileId(0), 1, 2);
    let d = Diagnostic::warning("w")
        .with_primary(span)
        .with_note(span, "first")
        .with_note(span, "second")
        .with_fix_it(span, "fix");
    assert_eq!(d.severity, Severity::Warning);
    assert_eq!(d.message, "w");
    assert_eq!(d.primary_span, Some(span));
    assert_eq!(d.secondary_spans.len(), 2);
    assert_eq!(d.secondary_spans[1].1, "second");
    assert_eq!(d.fix_its.len(), 1);
    assert_eq!(d.fix_its[0].0, span);
    assert_eq!(d.fix_its[0].1, "fix");
}

#[test]
fn full_rendering_of_one_diagnostic() {
    let sm = make_diag_source_manager();
    let mut diags = Diagnostics::new(sm);
    let d = Diagnostic::error("test message")
        .with_primary(Span::new(FileId(0), 0, 3))
        .with_note(Span::new(FileId(0), 18, 24), "here")
        .with_fix_it(Span::new(FileId(0), 0, 3), "long");
    diags.emit(d);
    assert_eq!(
        diagnostics_to_string(&diags),
        "test.c:1:0: error: test message\n 1 | int main() {\n   | ^^^\n  = note: test.c:2: here\n  = help: replace 0..3 with \"long\"\n"
    );
    assert_eq!(diags.report_all(), diagnostics_to_string(&diags));
}

#[test]
fn empty_span_gets_one_caret_at_its_column() {
    let mut diags = Diagnostics::new(make_diag_source_manager());
    diags.emit(Diagnostic::warning("w").with_primary(Span::new(FileId(0), 22, 22)));
    assert_eq!(
        diagnostics_to_string(&diags),
        "test.c:2:9: warning: w\n 2 |     return 42;\n   |          ^\n"
    );
}

#[test]
fn offset_past_end_renders_question_marks() {
    let mut diags = Diagnostics::new(make_diag_source_manager());
    diags.emit(Diagnostic::error("far").with_primary(Span::new(FileId(0), 100, 101)));
    diags.emit(Diagnostic::note("n").with_note(Span::new(FileId(0), 100, 101), "gone"));
    assert_eq!(diagnostics_to_string(&diags), "test.c:?:?: error: far\nnote: n\n");
}

#[test]
fn unknown_file_renders_message_only() {
    let mut diags = Diagnostics::new(make_diag_source_manager());
    let elsewhere = Span::new(FileId(9), 0, 1);
    diags.emit(
        Diagnostic::error("lost")
            .with_primary(elsewhere)
            .with_note(elsewhere, "x")
            .with_fix_it(elsewhere, "y"),
    );
    assert_eq!(diagnostics_to_string(&diags), "error: lost\n");
}

#[test]
fn caret_column_is_clamped_to_line_length() {
    let mut diags = Diagnostics::new(make_diag_source_manager());
    // Offset 12 is the newline ending line 1; the line shown is 12 bytes long.
    diags.emit(Diagnostic::note("eol").with_primary(Span::new(FileId(0), 12, 14)));
    assert_eq!(
        diagnostics_to_string(&diags),
        "test.c:1:12: note: eol\n 1 | int main() {\n   |             ^^\n"
    );
}

#[test]
fn long_lines_are_not_shown() {
    let mut sm = SourceManager::new();
    let long_line = "x".repeat(300);
    sm.add(SourceFile::new(FileId(0), "long.c".to_string(), long_line));
    let mut diags = Diagnostics::new(Arc::new(sm));
    diags.emit(Diagnostic::error("too long").with_primary(Span::new(FileId(0), 5, 6)));
    assert_eq!(diagnostics_to_string(&diags), "long.c:1:5: error: too long\n");
}

#[test]
fn multiple_diagnostics_render_in_order() {
    let mut diags = Diagnostics::new(make_diag_source_manager());
    diags.emit(Diagnostic::warning("one"));
    diags.emit(Diagnostic::error("two"));
    assert_eq!(diagnostics_to_string(&diags), "warning: one\nerror: two\n");
    assert_eq!(diags.source_manager().len(), 1);
}

#[test]
fn render_diagnostic_appends_one_rendering() {
    let diags = Diagnostics::new(make_diag_source_manager());
    let d = Diagnostic::note("n")
        .with_note(Span::new(FileId(0), 0, 1), "a")
        .with_note(Span::new(FileId(5), 0, 1), "skipped")
        .with_note(Span::new(FileId(0), 13, 14), "b")
        .with_fix_it(Span::new(FileId(5), 1, 2), "skipped")
        .with_fix_it(Span::new(FileId(0), 4, 8), "x");
    let mut out = "before\n".to_string();
    diags.render_diagnostic(&mut out, &d);
    assert_eq!(
        out,
        "before\nnote: n\n  = note: test.c:1: a\n  = note: test.c:2: b\n  = help: replace 4..8 with \"x\"\n"
    );
}

#[test]
fn abort_flag_always_matches_has_errors() {
    let mut diags = Diagnostics::new(make_diag_source_manager());
    assert_eq!(diags.abort_on_error(), diags.has_errors());
    diags.emit(Diagnostic::warning("w"));
    assert_eq!(diags.abort_on_error(), diags.has_errors());
    diags.emit(Diagnostic::error("e"));
    assert_eq!(diags.abort_on_error(), diags.has_errors());
    diags.emit(Diagnostic::note("n"));
    assert!(diags.abort_on_error() && diags.has_errors());
    diags.reset();
    assert_eq!(diags.abort_on_error(), diags.has_errors());
    assert!(diags.emitted().is_empty());
}
