//! Reports: a headline, labelled places in the source, and notes.

use vstd::prelude::*;
use crate::com::loc::{Loc, Span};
use crate::com::reporting::header::{Header, header_name, header_msg};
use crate::com::reporting::label::{Label, label_msg};
use crate::com::reporting::note::{Note, note_msg};

verus! {

/// How serious a report is, from advice up to a fault of the compiler itself.
#[derive(Debug, Clone, Copy, PartialEq, Eq, Structural)]
pub enum Severity {
    Help,
    Note,
    Warning,
    Error,
    Bug,
}

/// Whether a labelled place is the cause of a report or gives context to it.
#[derive(Debug, Clone, Copy, PartialEq, Eq, Structural)]
pub enum LabelStyle {
    Primary,
    Secondary,
}

/// A report on a program, as the compiler collects them.
pub struct Report {
    pub header: Header,
    pub severity: Severity,
    pub labels: Vec<(Label, Loc, LabelStyle)>,
    pub notes: Vec<Note>,
}

/// One labelled place of a diagnostic, with its message written out.
pub struct DiagnosticLabel {
    pub style: LabelStyle,
    pub file: usize,
    pub span: Span,
    pub message: String,
}

/// A report with all its text written out, ready to be shown.
pub struct Diagnostic {
    pub severity: Severity,
    pub code: String,
    pub message: String,
    pub labels: Vec<DiagnosticLabel>,
    pub notes: Vec<String>,
}

impl Report {
    /// A report of an error, with no labels and no notes yet.
    pub fn error(header: Header) -> (r: Self)
        ensures
            r.header == header,
            r.severity == Severity::Error,
            r.labels@.len() == 0,
            r.notes@.len() == 0,
    {
        Self { header, severity: Severity::Error, labels: Vec::new(), notes: Vec::new() }
    }

    /// A report of a warning, with no labels and no notes yet.
    pub fn warning(header: Header) -> (r: Self)
        ensures
            r.header == header,
            r.severity == Severity::Warning,
            r.labels@.len() == 0,
            r.notes@.len() == 0,
    {
        Self { header, severity: Severity::Warning, labels: Vec::new(), notes: Vec::new() }
    }

    /// This report with one more label, on the place that causes it.
    pub fn with_primary_label(self, label: Label, loc: Loc) -> (r: Self)
        ensures
            r.header == self.header,
            r.severity == self.severity,
            r.labels@ == self.labels@.push((label, loc, LabelStyle::Primary)),
            r.notes@ == self.notes@,
    {
        let mut r = self;
        r.labels.push((label, loc, LabelStyle::Primary));
        r
    }

    /// This report with one more label, on a place that gives context.
    pub fn with_secondary_label(self, label: Label, loc: Loc) -> (r: Self)
        ensures
            r.header == self.header,
            r.severity == self.severity,
            r.labels@ == self.labels@.push((label, loc, LabelStyle::Secondary)),
            r.notes@ == self.notes@,
    {
        let mut r = self;
        r.labels.push((label, loc, LabelStyle::Secondary));
        r
    }

    /// This report with one more note.
    pub fn with_note(self, note: Note) -> (r: Self)
        ensures
            r.header == self.header,
            r.severity == self.severity,
            r.labels@ == self.labels@,
            r.notes@ == self.notes@.push(note),
    {
        let mut r = self;
        r.notes.push(note);
        r
    }

    /// Whether this report stops the compilation: it does when it is an error.
    pub fn is_fatal(&self) -> (b: bool)
        ensures
            b == (self.severity == Severity::Error),
    {
        matches!(self.severity, Severity::Error)
    }

    /// This report with all its text written out: its kind's code name, its
    /// message, each label's place and message, and each note's text.
    pub fn to_diagnostic(&self) -> (d: Diagnostic)
        ensures
            d.severity == self.severity,
            d.code@ == header_name(self.header),
            d.message@ == header_msg(self.header),
            d.labels@.len() == self.labels@.len(),
            forall|i: int| 0 <= i < self.labels@.len() ==> {
                let (label, loc, style) = #[trigger] self.labels@[i];
                &&& d.labels@[i].style == style
                &&& d.labels@[i].file == loc.file
                &&& d.labels@[i].span == loc.span
                &&& d.labels@[i].message@ == label_msg(label)
            },
            d.notes@.len() == self.notes@.len(),
            forall|i: int| 0 <= i < self.notes@.len() ==> #[trigger] d.notes@[i]@ == note_msg(self.notes@[i]),
    {
        let mut labels: Vec<DiagnosticLabel> = Vec::new();
        let mut i: usize = 0;
        while i < self.labels.len()
            invariant
                0 <= i <= self.labels@.len(),
                labels@.len() == i,
                forall|j: int| 0 <= j < i ==> {
                    let (label, loc, style) = #[trigger] self.labels@[j];
                    &&& labels@[j].style == style
                    &&& labels@[j].file == loc.file
                    &&& labels@[j].span == loc.span
                    &&& labels@[j].message@ == label_msg(label)
                },
            decreases self.labels.len() - i,
        {
            let entry = &self.labels[i];
            labels.push(DiagnosticLabel {
                style: entry.2,
                file: entry.1.file,
                span: entry.1.span,
                message: entry.0.msg(),
            });
            i = i + 1;
        }
        let mut notes: Vec<String> = Vec::new();
        let mut k: usize = 0;
        while k < self.notes.len()
            invariant
                0 <= k <= self.notes@.len(),
                notes@.len() == k,
                forall|j: int| 0 <= j < k ==> #[trigger] notes@[j]@ == note_msg(self.notes@[j]),
            decreases self.notes.len() - k,
        {
            notes.push(self.notes[k].msg());
            k = k + 1;
        }
        Diagnostic {
            severity: self.severity,
            code: String::from_str(self.header.name()),
            message: self.header.msg(),
            labels,
            notes,
        }
    }
}

} // verus!
