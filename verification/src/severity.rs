//! The closed severity set and the producer-side line formatter.

use vstd::prelude::*;

verus! {

/// The closed set of severity tags that the wire format and the filter
/// gates know about.
#[derive(Clone, Copy, PartialEq, Eq, Structural)]
pub enum Severity {
    Log,
    Warning,
    Error,
}

impl Severity {
    /// The tag text written between the first pair of brackets.
    pub open spec fn spec_text(self) -> Seq<char> {
        match self {
            Severity::Log => "Log"@,
            Severity::Warning => "Warning"@,
            Severity::Error => "Error"@,
        }
    }

    /// The tag text, as a string slice.
    pub fn text(&self) -> (r: &'static str)
        ensures
            r@ == self.spec_text(),
    {
        match self {
            Severity::Log => "Log",
            Severity::Warning => "Warning",
            Severity::Error => "Error",
        }
    }
}

/// The exact text of one wire-format line before its terminating newline:
/// `[` severity `][` category `]: ` message.
pub open spec fn wire_line(severity: Seq<char>, category: Seq<char>, message: Seq<char>) -> Seq<char> {
    seq!['['] + severity + seq![']', '['] + category + seq![']', ':', ' '] + message
}

/// Renders one record as a newline-terminated wire-format line, exactly as
/// the append-only producer writes it.
pub fn format_log_line(severity: Severity, category: &str, message: &str) -> (r: String)
    ensures
        r@ == wire_line(severity.spec_text(), category@, message@).push('\n'),
{
    let mut out = String::new();
    out.append("[");
    out.append(severity.text());
    out.append("][");
    out.append(category);
    out.append("]: ");
    out.append(message);
    out.append("\n");
    proof {
        reveal_strlit("[");
        reveal_strlit("][");
        reveal_strlit("]: ");
        reveal_strlit("\n");
        assert(out@ =~= wire_line(severity.spec_text(), category@, message@).push('\n'));
    }
    out
}

} // verus!
