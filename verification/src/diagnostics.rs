//! Diagnostic infrastructure for structured error reporting.
//!
//! Diagnostics are rendered GCC-style:
//! ```text
//! file.c:line:col: severity: message
//!  line | source text
//!    |     ^^^
//! ```

use std::sync::Arc;

use vstd::prelude::*;
use vstd::utf8::*;
use vstd::string::*;

use crate::source::{
    column_of, count_newlines, file_of, has_line, lemma_line_col_counts, line_bytes_of,
    line_col_of, line_number, SourceFile, SourceManager, Span,
};
use crate::text::{
    decimal, lemma_boundary_at_newline, newline_byte, push_decimal, push_repeat, repeat_char,
};

verus! {

broadcast use vstd::utf8::encode_utf8_valid_utf8, vstd::utf8::encode_utf8_decode_utf8;

/// The severity of a diagnostic message.
#[derive(Debug, Clone, Copy, PartialEq, Eq, Structural, PartialOrd, Ord)]
pub enum Severity {
    /// Additional context or information (not an error or warning).
    Note,
    /// A potential problem that does not prevent compilation.
    Warning,
    /// A definite problem that prevents successful compilation.
    Error,
    /// An internal compiler error (ICE) — something is wrong with rcc itself.
    Bug,
}

impl Severity {
    /// The position of this severity in the order Note < Warning < Error < Bug.
    pub open spec fn rank(self) -> nat {
        match self {
            Severity::Note => 0,
            Severity::Warning => 1,
            Severity::Error => 2,
            Severity::Bug => 3,
        }
    }

    /// Whether this severity is at least `Error`.
    pub open spec fn is_error(self) -> bool {
        self.rank() >= Severity::Error.rank()
    }

    /// The lower-case name of this severity.
    pub open spec fn spec_str(self) -> Seq<char> {
        match self {
            Severity::Note => "note"@,
            Severity::Warning => "warning"@,
            Severity::Error => "error"@,
            Severity::Bug => "bug"@,
        }
    }

    pub fn as_str(&self) -> (r: &'static str)
        ensures
            r@ == self.spec_str(),
    {
        match self {
            Severity::Note => "note",
            Severity::Warning => "warning",
            Severity::Error => "error",
            Severity::Bug => "bug",
        }
    }

    fn at_least_error(&self) -> (r: bool)
        ensures
            r == self.is_error(),
    {
        match self {
            Severity::Error | Severity::Bug => true,
            _ => false,
        }
    }
}

/// A single diagnostic message.
#[derive(Debug, Clone)]
pub struct Diagnostic {
    pub severity: Severity,
    pub message: String,
    pub primary_span: Option<Span>,
    pub secondary_spans: Vec<(Span, String)>,
    pub fix_its: Vec<(Span, String)>,
}

impl Diagnostic {
    /// A diagnostic of severity `severity` with message `msg` and nothing
    /// else attached.
    pub open spec fn is_bare(self, severity: Severity, msg: Seq<char>) -> bool {
        &&& self.severity == severity
        &&& self.message@ == msg
        &&& self.primary_span is None
        &&& self.secondary_spans@.len() == 0
        &&& self.fix_its@.len() == 0
    }

    fn bare(severity: Severity, msg: &str) -> (r: Self)
        ensures
            r.is_bare(severity, msg@),
    {
        Diagnostic {
            severity,
            message: String::from_str(msg),
            primary_span: None,
            secondary_spans: Vec::new(),
            fix_its: Vec::new(),
        }
    }

    pub fn error(msg: &str) -> (r: Self)
        ensures
            r.is_bare(Severity::Error, msg@),
    {
        Self::bare(Severity::Error, msg)
    }

    pub fn warning(msg: &str) -> (r: Self)
        ensures
            r.is_bare(Severity::Warning, msg@),
    {
        Self::bare(Severity::Warning, msg)
    }

    pub fn note(msg: &str) -> (r: Self)
        ensures
            r.is_bare(Severity::Note, msg@),
    {
        Self::bare(Severity::Note, msg)
    }

    pub fn with_primary(self, span: Span) -> (r: Self)
        ensures
            r.severity == self.severity,
            r.message == self.message,
            r.primary_span == Some(span),
            r.secondary_spans == self.secondary_spans,
            r.fix_its == self.fix_its,
    {
        let mut d = self;
        d.primary_span = Some(span);
        d
    }

    pub fn with_note(self, span: Span, msg: &str) -> (r: Self)
        ensures
            r.severity == self.severity,
            r.message == self.message,
            r.primary_span == self.primary_span,
            r.secondary_spans@.len() == self.secondary_spans@.len() + 1,
            r.secondary_spans@.drop_last() == self.secondary_spans@,
            r.secondary_spans@.last().0 == span,
            r.secondary_spans@.last().1@ == msg@,
            r.fix_its == self.fix_its,
    {
        let mut d = self;
        d.secondary_spans.push((span, String::from_str(msg)));
        proof {
            assert(d.secondary_spans@.drop_last() =~= self.secondary_spans@);
        }
        d
    }

    pub fn with_fix_it(self, span: Span, replacement: &str) -> (r: Self)
        ensures
            r.severity == self.severity,
            r.message == self.message,
            r.primary_span == self.primary_span,
            r.secondary_spans == self.secondary_spans,
            r.fix_its@.len() == self.fix_its@.len() + 1,
            r.fix_its@.drop_last() == self.fix_its@,
            r.fix_its@.last().0 == span,
            r.fix_its@.last().1@ == replacement@,
    {
        let mut d = self;
        d.fix_its.push((span, String::from_str(replacement)));
        proof {
            assert(d.fix_its@.drop_last() =~= self.fix_its@);
        }
        d
    }
}

// ---------------------------------------------------------------------------
// Rendering model
// ---------------------------------------------------------------------------

/// Whether some diagnostic in `ds` is an error (or a bug).
pub open spec fn any_error(ds: Seq<Diagnostic>) -> bool {
    exists|i: int| 0 <= i < ds.len() && (#[trigger] ds[i]).severity.is_error()
}

/// `b` without its trailing newline bytes.
pub open spec fn trim_newline_bytes(b: Seq<u8>) -> Seq<u8>
    decreases b.len(),
{
    if b.len() > 0 && b.last() == newline_byte() {
        trim_newline_bytes(b.drop_last())
    } else {
        b
    }
}

/// The longest source line (in bytes, without its newline) that is shown
/// under a diagnostic.
pub open spec fn max_context_len() -> int {
    256
}

/// The location prefix `file:line:col: ` of a diagnostic (`file:?:?: ` when
/// the offset lies past the end of the file; nothing when the diagnostic has
/// no primary span or its file is unknown).
pub open spec fn location_prefix(files: Seq<SourceFile>, d: Diagnostic) -> Seq<char> {
    match d.primary_span {
        None => Seq::empty(),
        Some(span) => match file_of(files, span.file_id) {
            None => Seq::empty(),
            Some(f) => match line_col_of(f.bytes(), span.start as int) {
                Some((l, c)) => f.path_view() + ":"@ + decimal(l as nat) + ":"@ + decimal(
                    c as nat,
                ) + ": "@,
                None => f.path_view() + ":"@ + "?"@ + ":"@ + "?"@ + ": "@,
            },
        },
    }
}

/// The line `severity: message`.
pub open spec fn headline(d: Diagnostic) -> Seq<char> {
    d.severity.spec_str() + ": "@ + d.message@ + "\n"@
}

/// The source line that the primary span of `d` starts on, when it is shown:
/// the file is known, the line exists, and the line (without its newline)
/// is at most `max_context_len()` bytes long. Gives the span, the file, the
/// line number and the line's bytes without the newline.
pub open spec fn shown_context(files: Seq<SourceFile>, d: Diagnostic) -> Option<
    (Span, SourceFile, u32, Seq<u8>),
> {
    match d.primary_span {
        None => None,
        Some(span) => match file_of(files, span.file_id) {
            None => None,
            Some(f) => match line_col_of(f.bytes(), span.start as int) {
                None => None,
                Some((l, _c)) => if has_line(f.bytes(), l as int) {
                    let text = trim_newline_bytes(line_bytes_of(f.bytes(), l as int));
                    if text.len() <= max_context_len() {
                        Some((span, f, l, text))
                    } else {
                        None
                    }
                } else {
                    None
                },
            },
        },
    }
}

/// Whether `d` can be rendered: where its source line is shown, its primary
/// span does not end before it starts.
pub open spec fn renderable(files: Seq<SourceFile>, d: Diagnostic) -> bool {
    match shown_context(files, d) {
        None => true,
        Some((span, _f, _l, _text)) => span.start <= span.end,
    }
}

/// The two lines showing source line `l` of `f` (whose bytes without the
/// newline are `text`) and a caret line that marks `span` from its column
/// (at most the line's length) with at least one caret.
pub open spec fn context_lines(span: Span, f: SourceFile, l: u32, text: Seq<u8>) -> Seq<char> {
    let col = span.start - f.starts()[l - 1];
    let shown = if col < text.len() {
        col
    } else {
        text.len() as int
    };
    let carets = if span.end - span.start > 1 {
        span.end - span.start
    } else {
        1
    };
    " "@ + decimal(l as nat) + " | "@ + decode_utf8(text) + "\n"@ + "   | "@ + repeat_char(
        ' ',
        shown as nat,
    ) + repeat_char('^', carets as nat) + "\n"@
}

/// The source context of `d`, when its line is shown.
pub open spec fn source_context(files: Seq<SourceFile>, d: Diagnostic) -> Seq<char> {
    match shown_context(files, d) {
        None => Seq::empty(),
        Some((span, f, l, text)) => context_lines(span, f, l, text),
    }
}

/// The line rendered for one secondary span: `  = note: file:line: msg`,
/// or nothing when its file is unknown or its offset is past the end.
pub open spec fn secondary_line(files: Seq<SourceFile>, note: (Span, String)) -> Seq<char> {
    match file_of(files, note.0.file_id) {
        None => Seq::empty(),
        Some(f) => match line_col_of(f.bytes(), note.0.start as int) {
            None => Seq::empty(),
            Some((l, _c)) => "  = "@ + Severity::Note.spec_str() + ": "@ + f.path_view() + ":"@
                + decimal(l as nat) + ": "@ + note.1@ + "\n"@,
        },
    }
}

/// The lines rendered for a list of secondary spans.
pub open spec fn secondary_lines(files: Seq<SourceFile>, notes: Seq<(Span, String)>) -> Seq<
    char,
>
    decreases notes.len(),
{
    if notes.len() == 0 {
        Seq::empty()
    } else {
        secondary_lines(files, notes.drop_last()) + secondary_line(files, notes.last())
    }
}

/// The line rendered for one fix-it hint:
/// `  = help: replace start..end with "replacement"`, or nothing when its
/// file is unknown.
pub open spec fn fix_it_line(files: Seq<SourceFile>, fix: (Span, String)) -> Seq<char> {
    match file_of(files, fix.0.file_id) {
        None => Seq::empty(),
        Some(_f) => "  = help: replace "@ + decimal(fix.0.start as nat) + ".."@ + decimal(
            fix.0.end as nat,
        ) + " with \""@ + fix.1@ + "\""@ + "\n"@,
    }
}

/// The lines rendered for a list of fix-it hints.
pub open spec fn fix_it_lines(files: Seq<SourceFile>, fixes: Seq<(Span, String)>) -> Seq<char>
    decreases fixes.len(),
{
    if fixes.len() == 0 {
        Seq::empty()
    } else {
        fix_it_lines(files, fixes.drop_last()) + fix_it_line(files, fixes.last())
    }
}

/// The full rendering of one diagnostic.
pub open spec fn render(files: Seq<SourceFile>, d: Diagnostic) -> Seq<char> {
    location_prefix(files, d) + headline(d) + source_context(files, d) + secondary_lines(
        files,
        d.secondary_spans@,
    ) + fix_it_lines(files, d.fix_its@)
}

/// The renderings of all diagnostics in `ds`, in order.
pub open spec fn render_all(files: Seq<SourceFile>, ds: Seq<Diagnostic>) -> Seq<char>
    decreases ds.len(),
{
    if ds.len() == 0 {
        Seq::empty()
    } else {
        render_all(files, ds.drop_last()) + render(files, ds.last())
    }
}

// ---------------------------------------------------------------------------
// Diagnostics
// ---------------------------------------------------------------------------

/// The emitted diagnostics and the abort flag, kept together so that they
/// are replaced at once.
struct Emitted {
    list: Vec<Diagnostic>,
    /// Whether compilation should abort after the current pass.
    abort: bool,
}

/// Collects and renders diagnostics.
pub struct Diagnostics {
    source_manager: Arc<SourceManager>,
    emitted: Emitted,
}

impl Diagnostics {
    /// The abort flag is raised exactly when an error has been emitted.
    #[verifier::type_invariant]
    spec fn inv(self) -> bool {
        self.emitted.abort == any_error(self.emitted.list@)
    }

    /// The files of the associated source manager.
    pub closed spec fn files(&self) -> Seq<SourceFile> {
        self.source_manager@
    }

    /// The diagnostics emitted so far, in order.
    pub closed spec fn diags(&self) -> Seq<Diagnostic> {
        self.emitted.list@
    }

    /// Whether compilation should abort.
    pub closed spec fn abort_flag(&self) -> bool {
        self.emitted.abort
    }

    pub fn new(source_manager: Arc<SourceManager>) -> (r: Self)
        ensures
            r.files() == source_manager@,
            r.diags() == Seq::<Diagnostic>::empty(),
            !r.abort_flag(),
    {
        Diagnostics { source_manager, emitted: Emitted { list: Vec::new(), abort: false } }
    }

    /// Record a diagnostic; an error (or bug) raises the abort flag.
    pub fn emit(&mut self, diag: Diagnostic)
        ensures
            final(self).files() == old(self).files(),
            final(self).diags() == old(self).diags().push(diag),
            final(self).abort_flag() == (old(self).abort_flag() || diag.severity.is_error()),
    {
        proof {
            use_type_invariant(&*self);
        }
        let mut state = Emitted { list: Vec::new(), abort: false };
        std::mem::swap(&mut state, &mut self.emitted);
        if diag.severity.at_least_error() {
            state.abort = true;
        }
        let ghost d = diag;
        state.list.push(diag);
        proof {
            lemma_emit_errors(old(self).emitted.list@, d);
            assert(state.list@ == old(self).emitted.list@.push(d));
        }
        self.emitted = state;
    }

    /// Whether any errors (or bugs) have been emitted.
    pub fn has_errors(&self) -> (r: bool)
        ensures
            r == any_error(self.diags()),
    {
        let list = &self.emitted.list;
        let n = list.len();
        let mut i: usize = 0;
        while i < n
            invariant
                n == list@.len(),
                list@ == self.diags(),
                0 <= i <= n,
                forall|j: int| 0 <= j < i ==> !(#[trigger] list@[j]).severity.is_error(),
            decreases n - i,
        {
            if list[i].severity.at_least_error() {
                assert(self.diags()[i as int] == list@[i as int]);
                return true;
            }
            i = i + 1;
        }
        false
    }

    /// Whether compilation should abort: exactly when an error (or bug) has
    /// been emitted since the session began or was last reset.
    pub fn abort_on_error(&self) -> (r: bool)
        ensures
            r == self.abort_flag(),
            r == any_error(self.diags()),
    {
        proof {
            use_type_invariant(self);
        }
        self.emitted.abort
    }

    /// Return all emitted diagnostics.
    pub fn emitted(&self) -> (r: &[Diagnostic])
        ensures
            r@ == self.diags(),
    {
        self.emitted.list.as_slice()
    }

    /// Access the source manager associated with this diagnostics session.
    pub fn source_manager(&self) -> (r: &SourceManager)
        ensures
            r@ == self.files(),
    {
        &*self.source_manager
    }

    /// Clear all emitted diagnostics and reset the abort flag.
    pub fn reset(&mut self)
        ensures
            final(self).files() == old(self).files(),
            final(self).diags() == Seq::<Diagnostic>::empty(),
            !final(self).abort_flag(),
    {
        self.emitted = Emitted { list: Vec::new(), abort: false };
    }

    /// Whether every emitted diagnostic can be rendered (see `renderable`):
    /// the condition under which `report_all` may be called.
    pub fn can_render(&self) -> (r: bool)
        ensures
            r == (forall|i: int|
                0 <= i < self.diags().len() ==> renderable(self.files(), #[trigger] self.diags()[i])),
    {
        let sm: &SourceManager = &*self.source_manager;
        let n = self.emitted.list.len();
        let mut i: usize = 0;
        while i < n
            invariant
                n == self.emitted.list@.len(),
                sm@ == self.files(),
                0 <= i <= n,
                forall|j: int|
                    0 <= j < i ==> renderable(self.files(), #[trigger] self.diags()[j]),
            decreases n - i,
        {
            if !diagnostic_renderable(sm, &self.emitted.list[i]) {
                assert(self.diags()[i as int] == self.emitted.list@[i as int]);
                return false;
            }
            i = i + 1;
        }
        true
    }

    /// Render all diagnostics, GCC-style, one after the other.
    pub fn report_all(&self) -> (r: String)
        requires
            forall|i: int|
                0 <= i < self.diags().len() ==> renderable(self.files(), #[trigger] self.diags()[i]),
        ensures
            r@ == render_all(self.files(), self.diags()),
    {
        let mut out = String::new();
        let n = self.emitted.list.len();
        let mut i: usize = 0;
        while i < n
            invariant
                n == self.emitted.list@.len(),
                0 <= i <= n,
                forall|j: int|
                    0 <= j < self.diags().len() ==> renderable(
                        self.files(),
                        #[trigger] self.diags()[j],
                    ),
                out@ == render_all(self.files(), self.emitted.list@.subrange(0, i as int)),
            decreases n - i,
        {
            assert(self.diags()[i as int] == self.emitted.list@[i as int]);
            self.render_diagnostic(&mut out, &self.emitted.list[i]);
            proof {
                let ds = self.emitted.list@.subrange(0, i + 1);
                assert(ds.drop_last() =~= self.emitted.list@.subrange(0, i as int));
                assert(ds.last() == self.emitted.list@[i as int]);
            }
            i = i + 1;
        }
        proof {
            assert(self.emitted.list@.subrange(0, n as int) =~= self.emitted.list@);
        }
        out
    }

    /// Appends the rendering of `diag` to `out`.
    pub fn render_diagnostic(&self, out: &mut String, diag: &Diagnostic)
        requires
            renderable(self.files(), *diag),
        ensures
            final(out)@ == old(out)@ + render(self.files(), *diag),
    {
        let sm: &SourceManager = &*self.source_manager;
        let ghost files = self.files();
        let ghost start = out@;
        // Location prefix
        write_location_prefix(sm, out, diag);
        let ghost after_prefix = out@;
        // Severity and message
        out.append(diag.severity.as_str());
        out.append(": ");
        out.append(diag.message.as_str());
        out.append("\n");
        proof {
            assert(out@ =~= after_prefix + headline(*diag));
        }
        let ghost after_head = out@;
        // Source context
        write_source_context(sm, out, diag);
        let ghost after_context = out@;
        // Secondary spans
        let notes = &diag.secondary_spans;
        let mut i: usize = 0;
        assert(notes@.subrange(0, 0) =~= Seq::<(Span, String)>::empty());
        while i < notes.len()
            invariant
                sm@ == files,
                0 <= i <= notes@.len(),
                out@ == after_context + secondary_lines(files, notes@.subrange(0, i as int)),
            decreases notes@.len() - i,
        {
            write_secondary_line(sm, out, &notes[i]);
            proof {
                let ns = notes@.subrange(0, i + 1);
                assert(ns.drop_last() =~= notes@.subrange(0, i as int));
                assert(ns.last() == notes@[i as int]);
                assert(out@ =~= after_context + secondary_lines(files, ns));
            }
            i = i + 1;
        }
        assert(notes@.subrange(0, notes@.len() as int) =~= notes@);
        let ghost after_notes = out@;
        // Fix-it hints
        let fixes = &diag.fix_its;
        let mut k: usize = 0;
        assert(fixes@.subrange(0, 0) =~= Seq::<(Span, String)>::empty());
        while k < fixes.len()
            invariant
                sm@ == files,
                0 <= k <= fixes@.len(),
                out@ == after_notes + fix_it_lines(files, fixes@.subrange(0, k as int)),
            decreases fixes@.len() - k,
        {
            write_fix_it_line(sm, out, &fixes[k]);
            proof {
                let fs = fixes@.subrange(0, k + 1);
                assert(fs.drop_last() =~= fixes@.subrange(0, k as int));
                assert(fs.last() == fixes@[k as int]);
                assert(out@ =~= after_notes + fix_it_lines(files, fs));
            }
            k = k + 1;
        }
        assert(fixes@.subrange(0, fixes@.len() as int) =~= fixes@);
        proof {
            assert(out@ =~= start + render(files, *diag));
        }
    }
}

fn write_location_prefix(sm: &SourceManager, out: &mut String, diag: &Diagnostic)
    ensures
        final(out)@ == old(out)@ + location_prefix(sm@, *diag),
{
    if let Some(span) = diag.primary_span {
        if let Some(file) = sm.get(span.file_id) {
            if let Some((line, col)) = file.line_col(span.start) {
                out.append(file.path());
                out.append(":");
                push_decimal(out, line);
                out.append(":");
                push_decimal(out, col);
                out.append(": ");
                proof {
                    assert(final(out)@ =~= old(out)@ + location_prefix(sm@, *diag));
                }
            } else {
                out.append(file.path());
                out.append(":");
                out.append("?");
                out.append(":");
                out.append("?");
                out.append(": ");
                proof {
                    assert(final(out)@ =~= old(out)@ + location_prefix(sm@, *diag));
                }
            }
        } else {
            assert(old(out)@ + location_prefix(sm@, *diag) =~= old(out)@);
        }
    } else {
        assert(old(out)@ + location_prefix(sm@, *diag) =~= old(out)@);
    }
}

/// `t` without its trailing newlines.
fn trim_trailing_newlines(t: &str) -> (r: &str)
    ensures
        r.spec_bytes() == trim_newline_bytes(t.spec_bytes()),
        r.spec_bytes().len() <= t.spec_bytes().len(),
        t.spec_bytes().len() <= usize::MAX,
{
    let b = t.as_bytes();
    let mut k: usize = b.len();
    assert(b@.subrange(0, k as int) =~= b@);
    while k > 0 && b[k - 1] == 10u8
        invariant
            b@ == t.spec_bytes(),
            0 <= k <= b@.len(),
            trim_newline_bytes(b@) == trim_newline_bytes(b@.subrange(0, k as int)),
            k == b@.len() || b@[k as int] == newline_byte(),
        decreases k,
    {
        assert(b@.subrange(0, k as int).drop_last() =~= b@.subrange(0, k - 1));
        k = k - 1;
    }
    proof {
        is_char_boundary_start_end_of_seq(b@);
        if k < b@.len() {
            lemma_boundary_at_newline(b@, k as int);
        }
    }
    let (r, _rest) = t.split_at(k);
    r
}

/// The source line shown under `diag`, if any: its primary span, its file,
/// the line number and the line's text without trailing newlines.
fn shown_line<'a>(sm: &'a SourceManager, diag: &Diagnostic) -> (r: Option<
    (Span, &'a SourceFile, u32, &'a str),
>)
    ensures
        match r {
            Some((span, file, line, text)) => {
                &&& shown_context(sm@, *diag) == Some((span, *file, line, text.spec_bytes()))
                &&& 1 <= line <= file.starts().len()
                &&& file.starts()[line - 1] <= span.start
            },
            None => shown_context(sm@, *diag) is None,
        },
{
    if let Some(span) = diag.primary_span {
        if let Some(file) = sm.get(span.file_id) {
            if let Some((line, col)) = file.line_col(span.start) {
                if let Some(line_text) = file.line(line) {
                    let text = trim_trailing_newlines(line_text);
                    if text.len() <= 256 {
                        proof {
                            assert(file_of(sm@, span.file_id) == Some(*file));
                            assert(line_col_of(file.bytes(), span.start as int) == Some(
                                (line, col),
                            ));
                        }
                        return Some((span, file, line, text));
                    }
                }
            }
        }
    }
    None
}

fn write_source_context(sm: &SourceManager, out: &mut String, diag: &Diagnostic)
    requires
        renderable(sm@, *diag),
    ensures
        final(out)@ == old(out)@ + source_context(sm@, *diag),
{
    match shown_line(sm, diag) {
        Some((span, file, line, text)) => {
            write_context_lines(out, span, file, line, text);
        },
        None => {
            assert(old(out)@ + source_context(sm@, *diag) =~= old(out)@);
        },
    }
}

/// Whether `diag` can be rendered against the files of `sm`.
fn diagnostic_renderable(sm: &SourceManager, diag: &Diagnostic) -> (r: bool)
    ensures
        r == renderable(sm@, *diag),
{
    match shown_line(sm, diag) {
        Some((span, _file, _line, _text)) => span.start <= span.end,
        None => true,
    }
}

fn write_context_lines(out: &mut String, span: Span, file: &SourceFile, line: u32, text: &str)
    requires
        span.start <= span.end,
        1 <= line <= file.starts().len(),
        file.starts()[line - 1] <= span.start,
        text.spec_bytes().len() <= max_context_len(),
    ensures
        final(out)@ == old(out)@ + context_lines(span, *file, line, text.spec_bytes()),
{
    proof {
        assert(decode_utf8(encode_utf8(text@)) == text@);
    }
    let text_len = text.len();
    out.append(" ");
    push_decimal(out, line);
    out.append(" | ");
    out.append(text);
    out.append("\n");
    // Caret line
    let starts = file.line_starts();
    let col = (span.start - starts[(line - 1) as usize]) as usize;
    let carets = if span.end - span.start > 1 {
        (span.end - span.start) as usize
    } else {
        1
    };
    let col = if col < text_len {
        col
    } else {
        text_len
    };
    out.append("   | ");
    proof {
        reveal_strlit(" ");
        reveal_strlit("^");
    }
    push_repeat(out, " ", col);
    push_repeat(out, "^", carets);
    out.append("\n");
    proof {
        assert(text_len == text.spec_bytes().len());
        assert(starts@ == file.starts());
        assert(" "@[0] == ' ');
        assert("^"@[0] == '^');
        assert(final(out)@ =~= old(out)@ + context_lines(span, *file, line, text.spec_bytes()));
    }
}

fn write_secondary_line(sm: &SourceManager, out: &mut String, note: &(Span, String))
    ensures
        final(out)@ == old(out)@ + secondary_line(sm@, *note),
{
    let span = note.0;
    if let Some(file) = sm.get(span.file_id) {
        if let Some((line, _col)) = file.line_col(span.start) {
            out.append("  = ");
            out.append(Severity::Note.as_str());
            out.append(": ");
            out.append(file.path());
            out.append(":");
            push_decimal(out, line);
            out.append(": ");
            out.append(note.1.as_str());
            out.append("\n");
            proof {
                assert(final(out)@ =~= old(out)@ + secondary_line(sm@, *note));
            }
            return;
        }
    }
    assert(old(out)@ + secondary_line(sm@, *note) =~= old(out)@);
}

fn write_fix_it_line(sm: &SourceManager, out: &mut String, fix: &(Span, String))
    ensures
        final(out)@ == old(out)@ + fix_it_line(sm@, *fix),
{
    let span = fix.0;
    if let Some(_file) = sm.get(span.file_id) {
        out.append("  = help: replace ");
        push_decimal(out, span.start);
        out.append("..");
        push_decimal(out, span.end);
        out.append(" with \"");
        out.append(fix.1.as_str());
        out.append("\"");
        out.append("\n");
        proof {
            assert(final(out)@ =~= old(out)@ + fix_it_line(sm@, *fix));
        }
    } else {
        assert(old(out)@ + fix_it_line(sm@, *fix) =~= old(out)@);
    }
}

/// Emitting an error (or bug) makes the session have errors; emitting a note
/// or a warning leaves that unchanged.
pub proof fn lemma_emit_errors(ds: Seq<Diagnostic>, d: Diagnostic)
    ensures
        any_error(ds.push(d)) == (any_error(ds) || d.severity.is_error()),
{
    let ds2 = ds.push(d);
    if any_error(ds) {
        let i = choose|i: int| 0 <= i < ds.len() && (#[trigger] ds[i]).severity.is_error();
        assert(ds2[i] == ds[i]);
    }
    if d.severity.is_error() {
        assert(ds2[ds.len() as int] == d);
    }
    if any_error(ds2) {
        let i = choose|i: int| 0 <= i < ds2.len() && (#[trigger] ds2[i]).severity.is_error();
        if i < ds.len() {
            assert(ds2[i] == ds[i]);
        }
    }
}

/// The rendering of several diagnostics is the renderings of each, one
/// after the other.
#[verifier::rlimit(30)]
pub proof fn lemma_render_all_concat(files: Seq<SourceFile>, a: Seq<Diagnostic>, b: Seq<Diagnostic>)
    ensures
        render_all(files, a + b) == render_all(files, a) + render_all(files, b),
    decreases b.len(),
{
    if b.len() == 0 {
        assert(a + b =~= a);
        assert(render_all(files, a) + render_all(files, b) =~= render_all(files, a));
    } else {
        lemma_render_all_concat(files, a, b.drop_last());
        assert((a + b).drop_last() =~= a + b.drop_last());
        assert((a + b).last() == b.last());
        assert(render_all(files, a + b) =~= render_all(files, a) + render_all(files, b));
    }
}

/// The line of a secondary span names the line its start offset lies on:
/// for a span in a known file whose start lies within the file, the line is
/// `  = note: path:line: message` where `line` is one more than the number
/// of newline bytes before the start; the end of the span plays no part.
/// A span in an unknown file, or starting past the end, renders nothing.
pub proof fn lemma_secondary_line_names_start_line(
    files: Seq<SourceFile>,
    span: Span,
    msg: String,
    end: u32,
)
    ensures
        match file_of(files, span.file_id) {
            Some(f) => (f.bytes().len() <= u32::MAX && span.start <= f.bytes().len())
                ==> secondary_line(files, (span, msg)) == "  = "@ + "note"@ + ": "@
                + f.path_view() + ":"@ + decimal(
                line_number(1 + count_newlines(f.bytes().subrange(0, span.start as int)) as int)
                    as nat,
            ) + ": "@ + msg@ + "\n"@,
            None => secondary_line(files, (span, msg)) == Seq::<char>::empty(),
        },
        match file_of(files, span.file_id) {
            Some(f) => span.start > f.bytes().len() ==> secondary_line(files, (span, msg))
                == Seq::<char>::empty(),
            None => true,
        },
        secondary_line(files, (Span { end, ..span }, msg)) == secondary_line(files, (span, msg)),
{
    reveal_strlit("note");
    if let Some(f) = file_of(files, span.file_id) {
        if f.bytes().len() <= u32::MAX && span.start <= f.bytes().len() {
            lemma_line_col_counts(f.bytes(), span.start as int);
        }
    }
}

/// The location prefix of a diagnostic names the line and column its primary
/// span starts at: for a span in a known file whose start lies within the
/// file, it is `path:line:col: ` where `line` is one more than the number of
/// newline bytes before the start and `col` the number of bytes back from
/// the start to the newline before it (or the start of the file); past the
/// end it is `path:?:?: `. The end of the span plays no part.
pub proof fn lemma_location_prefix_names_start(files: Seq<SourceFile>, d: Diagnostic, span: Span)
    requires
        d.primary_span == Some(span),
    ensures
        match file_of(files, span.file_id) {
            Some(f) => {
                &&& (f.bytes().len() <= u32::MAX && span.start <= f.bytes().len())
                    ==> location_prefix(files, d) == f.path_view() + ":"@ + decimal(
                    line_number(1 + count_newlines(f.bytes().subrange(0, span.start as int)) as int)
                        as nat,
                ) + ":"@ + decimal(column_of(f.bytes(), span.start as int) as nat) + ": "@
                &&& span.start > f.bytes().len() ==> location_prefix(files, d) == f.path_view()
                    + ":?:?: "@
            },
            None => location_prefix(files, d) == Seq::<char>::empty(),
        },
{
    reveal_strlit(":?:?: ");
    reveal_strlit(":");
    reveal_strlit("?");
    reveal_strlit(": ");
    if let Some(f) = file_of(files, span.file_id) {
        if f.bytes().len() <= u32::MAX && span.start <= f.bytes().len() {
            lemma_line_col_counts(f.bytes(), span.start as int);
        }
        if span.start > f.bytes().len() {
            assert(f.path_view() + ":"@ + "?"@ + ":"@ + "?"@ + ": "@ =~= f.path_view() + ":?:?: "@);
        }
    }
}

/// The source context of a diagnostic shows the line its primary span starts
/// on and marks the span under it: for a span in a known file whose start
/// lies within the file, take the line one more than the number of newline
/// bytes before the start; when that line exists and, without its trailing
/// newlines, is at most 256 bytes long, the context is ` line | text`
/// followed by a caret line `   | ` with one space per byte between the
/// start and the newline before it (but no more than the line is long) and
/// one caret per byte of the span (at least one). Otherwise nothing is
/// shown.
pub proof fn lemma_source_context_marks_span(
    files: Seq<SourceFile>,
    d: Diagnostic,
    span: Span,
    f: SourceFile,
)
    requires
        d.primary_span == Some(span),
        file_of(files, span.file_id) == Some(f),
        f.bytes().len() <= u32::MAX,
        span.start <= f.bytes().len(),
    ensures
        ({
            let b = f.bytes();
            let l = line_number(1 + count_newlines(b.subrange(0, span.start as int)) as int);
            let text = trim_newline_bytes(line_bytes_of(b, l as int));
            let col = column_of(b, span.start as int);
            let indent = if col <= text.len() {
                col
            } else {
                text.len() as int
            };
            let carets = if span.end <= span.start {
                1
            } else {
                span.end - span.start
            };
            &&& (has_line(b, l as int) && text.len() <= 256) ==> source_context(files, d) == " "@
                + decimal(l as nat) + " | "@ + decode_utf8(text) + "\n"@ + "   | "@ + repeat_char(
                ' ',
                indent as nat,
            ) + repeat_char('^', carets as nat) + "\n"@
            &&& !(has_line(b, l as int) && text.len() <= 256) ==> source_context(files, d)
                == Seq::<char>::empty()
        }),
{
    lemma_line_col_counts(f.bytes(), span.start as int);
}

/// Severities are named `note`, `warning`, `error` and `bug`, are ordered in
/// that way, and only errors and bugs count as errors.
pub proof fn lemma_severity_names(s: Severity)
    ensures
        Severity::Note.spec_str() == seq!['n', 'o', 't', 'e'],
        Severity::Warning.spec_str() == seq!['w', 'a', 'r', 'n', 'i', 'n', 'g'],
        Severity::Error.spec_str() == seq!['e', 'r', 'r', 'o', 'r'],
        Severity::Bug.spec_str() == seq!['b', 'u', 'g'],
        Severity::Note.rank() < Severity::Warning.rank() < Severity::Error.rank()
            < Severity::Bug.rank(),
        s.is_error() <==> (s == Severity::Error || s == Severity::Bug),
{
    reveal_strlit("note");
    reveal_strlit("warning");
    reveal_strlit("error");
    reveal_strlit("bug");
    assert(Severity::Note.spec_str() =~= seq!['n', 'o', 't', 'e']);
    assert(Severity::Warning.spec_str() =~= seq!['w', 'a', 'r', 'n', 'i', 'n', 'g']);
    assert(Severity::Error.spec_str() =~= seq!['e', 'r', 'r', 'o', 'r']);
    assert(Severity::Bug.spec_str() =~= seq!['b', 'u', 'g']);
}

/// A fix-it hint in a known file renders as one line that names the
/// replaced byte range from its start to its end and the replacement in
/// double quotes, whatever the file holds; in an unknown file it renders
/// nothing.
pub proof fn lemma_fix_it_line_names_range(
    files: Seq<SourceFile>,
    other: Seq<SourceFile>,
    span: Span,
    replacement: String,
)
    ensures
        file_of(files, span.file_id) is Some ==> fix_it_line(files, (span, replacement))
            == "  = help: replace "@ + decimal(span.start as nat) + ".."@ + decimal(
            span.end as nat,
        ) + " with \""@ + replacement@ + "\"\n"@,
        file_of(files, span.file_id) is None ==> fix_it_line(files, (span, replacement))
            == Seq::<char>::empty(),
        (file_of(files, span.file_id) is Some && file_of(other, span.file_id) is Some)
            ==> fix_it_line(other, (span, replacement)) == fix_it_line(files, (span, replacement)),
{
    reveal_strlit("\"");
    reveal_strlit("\n");
    reveal_strlit("\"\n");
    assert("\""@ + "\n"@ =~= "\"\n"@);
    if file_of(files, span.file_id) is Some {
        let head = "  = help: replace "@ + decimal(span.start as nat) + ".."@ + decimal(
            span.end as nat,
        ) + " with \""@ + replacement@;
        assert(head + "\""@ + "\n"@ =~= head + "\"\n"@);
    }
}

/// A diagnostic without a primary span has no location and no source line:
/// it renders as the line `severity: message`, followed by the lines of its
/// secondary spans and then those of its fix-its.
pub proof fn lemma_render_without_primary_span(files: Seq<SourceFile>, d: Diagnostic)
    requires
        d.primary_span is None,
    ensures
        render(files, d) == d.severity.spec_str() + ": "@ + d.message@ + "\n"@ + secondary_lines(
            files,
            d.secondary_spans@,
        ) + fix_it_lines(files, d.fix_its@),
{
    assert(render(files, d) =~= d.severity.spec_str() + ": "@ + d.message@ + "\n"@
        + secondary_lines(files, d.secondary_spans@) + fix_it_lines(files, d.fix_its@));
}

/// A diagnostic renders as the same diagnostic without secondary spans and
/// fix-its (its location, headline and source context), followed by the
/// lines of its secondary spans and then those of its fix-its.
pub proof fn lemma_render_attachments(files: Seq<SourceFile>, d: Diagnostic, bare: Diagnostic)
    requires
        bare.severity == d.severity,
        bare.message@ == d.message@,
        bare.primary_span == d.primary_span,
        bare.secondary_spans@.len() == 0,
        bare.fix_its@.len() == 0,
    ensures
        render(files, d) == render(files, bare) + secondary_lines(files, d.secondary_spans@)
            + fix_it_lines(files, d.fix_its@),
{
    assert(secondary_lines(files, bare.secondary_spans@) =~= Seq::<char>::empty());
    assert(fix_it_lines(files, bare.fix_its@) =~= Seq::<char>::empty());
    assert(render(files, d) =~= render(files, bare) + secondary_lines(files, d.secondary_spans@)
        + fix_it_lines(files, d.fix_its@));
}

/// Secondary spans render one after the other, in order: the lines of a
/// list are those of its parts, and a single span renders as its own line.
pub proof fn lemma_secondary_lines_in_order(
    files: Seq<SourceFile>,
    a: Seq<(Span, String)>,
    b: Seq<(Span, String)>,
)
    ensures
        secondary_lines(files, a + b) == secondary_lines(files, a) + secondary_lines(files, b),
        forall|x: (Span, String)| #[trigger] secondary_lines(files, seq![x]) == secondary_line(files, x),
    decreases b.len(),
{
    assert forall|x: (Span, String)| #[trigger] secondary_lines(files, seq![x]) == secondary_line(
        files,
        x,
    ) by {
        assert(seq![x].drop_last() =~= Seq::<(Span, String)>::empty());
        assert(seq![x].last() == x);
        assert(secondary_lines(files, Seq::<(Span, String)>::empty()) == Seq::<char>::empty());
        assert(secondary_lines(files, seq![x]) =~= secondary_line(files, x));
    }
    if b.len() == 0 {
        assert(a + b =~= a);
        assert(secondary_lines(files, a) + secondary_lines(files, b) =~= secondary_lines(files, a));
    } else {
        lemma_secondary_lines_in_order(files, a, b.drop_last());
        assert((a + b).drop_last() =~= a + b.drop_last());
        assert((a + b).last() == b.last());
        assert(secondary_lines(files, a + b) =~= secondary_lines(files, a) + secondary_lines(
            files,
            b,
        ));
    }
}

/// Fix-it hints render one after the other, in order: the lines of a list
/// are those of its parts, and a single hint renders as its own line.
pub proof fn lemma_fix_it_lines_in_order(
    files: Seq<SourceFile>,
    a: Seq<(Span, String)>,
    b: Seq<(Span, String)>,
)
    ensures
        fix_it_lines(files, a + b) == fix_it_lines(files, a) + fix_it_lines(files, b),
        forall|x: (Span, String)| #[trigger] fix_it_lines(files, seq![x]) == fix_it_line(files, x),
    decreases b.len(),
{
    assert forall|x: (Span, String)| #[trigger] fix_it_lines(files, seq![x]) == fix_it_line(
        files,
        x,
    ) by {
        assert(seq![x].drop_last() =~= Seq::<(Span, String)>::empty());
        assert(seq![x].last() == x);
        assert(fix_it_lines(files, Seq::<(Span, String)>::empty()) == Seq::<char>::empty());
        assert(fix_it_lines(files, seq![x]) =~= fix_it_line(files, x));
    }
    if b.len() == 0 {
        assert(a + b =~= a);
        assert(fix_it_lines(files, a) + fix_it_lines(files, b) =~= fix_it_lines(files, a));
    } else {
        lemma_fix_it_lines_in_order(files, a, b.drop_last());
        assert((a + b).drop_last() =~= a + b.drop_last());
        assert((a + b).last() == b.last());
        assert(fix_it_lines(files, a + b) =~= fix_it_lines(files, a) + fix_it_lines(files, b));
    }
}

/// Render diagnostics to a string.
pub fn diagnostics_to_string(diags: &Diagnostics) -> (r: String)
    requires
        forall|i: int|
            0 <= i < diags.diags().len() ==> renderable(diags.files(), #[trigger] diags.diags()[i]),
    ensures
        r@ == render_all(diags.files(), diags.diags()),
{
    diags.report_all()
}

} // verus!
