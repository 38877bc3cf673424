//! Diagnostic severities and message formatting.

use vstd::prelude::*;
use vstd::string::StringExecFns;

use crate::color::{Style, StyleFlag};
use crate::sourcepos::Span;

verus! {

/// An object that handles errors during parsing or evaluation. Every
/// handler keeps the diagnostics it was handed, in order, as its ghost
/// view; `handle` appends one.
pub trait ErrorHandler {
    /// The diagnostics handled so far, in order.
    spec fn diags(&self) -> Seq<(Span, Seq<char>)>;

    /// Handle one diagnostic.
    fn handle(&mut self, pos: Span, message: &str)
        ensures
            final(self).diags() == old(self).diags().push((pos, message@));
}

/// Severity level for diagnostic messages.
#[derive(Debug, Clone, Copy, PartialEq, Eq, Structural)]
pub enum Severity {
    Error,
    Warning,
}

impl Severity {
    /// The name of the severity.
    pub fn name(&self) -> (r: &'static str)
        ensures
            *self == Severity::Error ==> r@ == "error"@,
            *self == Severity::Warning ==> r@ == "warning"@,
    {
        match self {
            Severity::Error => "error",
            Severity::Warning => "warning",
        }
    }
}

/// A diagnostic that has been collected: its span and its message.
pub struct Diagnostic {
    pub pos: Span,
    pub message: String,
}

/// An error handler that collects every diagnostic it is handed, in order.
pub struct DiagnosticList {
    pub entries: Vec<Diagnostic>,
}

impl DiagnosticList {
    /// Create an empty list.
    pub fn new() -> (r: Self)
        ensures
            r.entries@.len() == 0,
    {
        DiagnosticList { entries: Vec::new() }
    }

    /// The number of diagnostics collected so far.
    pub fn len(&self) -> (r: usize)
        ensures
            r == self.entries@.len(),
    {
        self.entries.len()
    }
}

impl ErrorHandler for DiagnosticList {
    open spec fn diags(&self) -> Seq<(Span, Seq<char>)> {
        Seq::new(self.entries@.len(), |i: int| (self.entries@[i].pos, self.entries@[i].message@))
    }

    fn handle(&mut self, pos: Span, message: &str) {
        self.entries.push(Diagnostic { pos, message: message.to_owned() });
        proof {
            assert(self.diags() =~= old(self).diags().push((pos, message@)));
        }
    }
}

/// Get the color style to use for a given severity level.
pub fn severity_color(severity: Severity) -> (r: Style<'static>)
    ensures
        severity == Severity::Warning ==> r.0@ == seq![StyleFlag::FgYellow, StyleFlag::Bold],
        severity == Severity::Error ==> r.0@ == seq![StyleFlag::FgRed, StyleFlag::Bold],
{
    let warning_flags: &'static [StyleFlag] = &[StyleFlag::FgYellow, StyleFlag::Bold];
    let error_flags: &'static [StyleFlag] = &[StyleFlag::FgRed, StyleFlag::Bold];
    let r = match severity {
        Severity::Warning => Style(warning_flags),
        Severity::Error => Style(error_flags),
    };
    proof {
        assert(warning_flags@ =~= seq![StyleFlag::FgYellow, StyleFlag::Bold]);
        assert(error_flags@ =~= seq![StyleFlag::FgRed, StyleFlag::Bold]);
    }
    r
}

/// Format a diagnostic message line: the severity in its color, the message
/// in bright white, and a style reset, ending with a line break.
pub fn write_diagnostic(severity: Severity, msg: &str) -> (r: String)
    ensures
        r@ == crate::color::spec_style_text_chars(severity_flags(severity)) + (match severity {
            Severity::Error => "error"@,
            Severity::Warning => "warning"@,
        }) + crate::color::spec_style_text_chars(seq![StyleFlag::FgBrightWhite]) + ": "@ + msg@
            + crate::color::spec_style_text_chars(seq![StyleFlag::Reset]) + "\n"@,
{
    let message_flags: &[StyleFlag] = &[StyleFlag::FgBrightWhite];
    let reset_flags: &[StyleFlag] = &[StyleFlag::Reset];
    let mut out = severity_color(severity).to_string();
    out.append(severity.name());
    let mstyle = Style(message_flags).to_string();
    out.append(mstyle.as_str());
    out.append(": ");
    out.append(msg);
    let rstyle = Style(reset_flags).to_string();
    out.append(rstyle.as_str());
    out.append("\n");
    proof {
        assert(message_flags@ =~= seq![StyleFlag::FgBrightWhite]);
        assert(reset_flags@ =~= seq![StyleFlag::Reset]);
    }
    out
}

/// The flags of the style that colors the given severity.
pub open spec fn severity_flags(severity: Severity) -> Seq<StyleFlag> {
    match severity {
        Severity::Error => seq![StyleFlag::FgRed, StyleFlag::Bold],
        Severity::Warning => seq![StyleFlag::FgYellow, StyleFlag::Bold],
    }
}

} // verus!
