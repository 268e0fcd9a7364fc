//! Lines for the console.

use crate::text::{append, chars_of, string_of};
use vstd::prelude::*;

verus! {

/// The kind of a console message.
#[derive(Clone, Copy, Debug, PartialEq, Eq, Structural)]
pub enum ConsoleType {
    /// Information.
    Info,
    /// Success.
    Success,
    /// Warning.
    Warning,
    /// Error.
    Error,
    /// Debugging output.
    Debug,
}

impl ConsoleType {
    /// The title that a message of this kind is printed under. Every title
    /// is seven characters wide.
    pub open spec fn title(self) -> Seq<char> {
        match self {
            ConsoleType::Info => "Info   "@,
            ConsoleType::Success => "Success"@,
            ConsoleType::Warning => "Warning"@,
            ConsoleType::Error => "Err    "@,
            ConsoleType::Debug => "Debug  "@,
        }
    }

    /// The title that a message of this kind is printed under.
    pub fn label(&self) -> (r: &'static str)
        ensures
            r@ == self.title(),
    {
        match self {
            ConsoleType::Info => "Info   ",
            ConsoleType::Success => "Success",
            ConsoleType::Warning => "Warning",
            ConsoleType::Error => "Err    ",
            ConsoleType::Debug => "Debug  ",
        }
    }
}

/// The line printed for a message: two spaces, the title, six spaces, the
/// message.
pub open spec fn console_line_of(console_type: ConsoleType, message: Seq<char>) -> Seq<char> {
    "  "@ + console_type.title() + "      "@ + message
}

/// The line to print for `message`.
pub fn console_line(console_type: ConsoleType, message: &str) -> (line: String)
    ensures
        line@ == console_line_of(console_type, message@),
{
    let mut out: Vec<char> = Vec::new();
    let lead = chars_of("  ");
    let title = chars_of(console_type.label());
    let gap = chars_of("      ");
    let text = chars_of(message);
    append(&mut out, lead.as_slice());
    append(&mut out, title.as_slice());
    append(&mut out, gap.as_slice());
    append(&mut out, text.as_slice());
    assert(out@ =~= console_line_of(console_type, message@));
    string_of(out.as_slice())
}

} // verus!
