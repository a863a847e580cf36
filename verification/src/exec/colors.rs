//! The colours of the display.
use vstd::prelude::*;
use crate::text::chars_of;

verus! {

broadcast use vstd::string::group_string_axioms;

/// Ends all formatting.
pub const RESET: &'static str = "\x1b[0m";

/// Green, for success.
pub const OK_ANSI: &'static str = "\x1b[92m";

/// Red, for failure.
pub const FAILED_ANSI: &'static str = "\x1b[91m";

/// Bright yellow, for what is running.
pub const BRIGHT_YELLOW_ANSI: &'static str = "\x1b[93m";

/// Gray, for what is muted or pending.
pub const GRAY_ANSI: &'static str = "\x1b[90m";

/// Bold.
pub const BOLD: &'static str = "\x1b[1m";

/// Yellow.
pub const YELLOW: &'static str = "\x1b[33m";

/// Cyan.
pub const CYAN: &'static str = "\x1b[36m";

/// Bold cyan.
pub const BOLD_CYAN: &'static str = "\x1b[1;36m";

/// Bright white, for text.
pub const TEXT_ANSI: &'static str = "\x1b[97m";

/// White, for what was cancelled.
pub const CANCELLED_ANSI: &'static str = "\x1b[97m";

/// The start of a line that announces an update.
pub const SYNC_UPDATE_PREFIX: &'static str = "update  ";

/// The start of a line that announces a clone.
pub const SYNC_CLONE_PREFIX: &'static str = "clone  ";

/// A colour of the live view.
#[derive(Debug, Clone, Copy, PartialEq, Eq, Structural)]
pub enum Color {
    /// A colour of the terminal's palette.
    Indexed(u8),
    /// White.
    White,
}

/// Green, for success, in the palette.
pub const OK: u8 = 10;

/// Yellow, for what is running, in the palette.
pub const RUNNING: u8 = 11;

/// Red, for failure, in the palette.
pub const FAILED: u8 = 9;

/// Gray, for what is pending, in the palette.
pub const PENDING: u8 = 8;

/// White, for what was cancelled: the eye goes to the task that failed.
pub const CANCELLED: Color = Color::White;

/// Whether a line holds a formatting sequence of its own.
pub open spec fn is_formatted(line: Seq<char>) -> bool {
    exists|i: int| 0 <= i < line.len() - 1 && #[trigger] line[i] == '\x1b' && line[i + 1] == '['
}

/// A line of output as it is shown: as it is where it is formatted, and
/// otherwise as plain text.
pub open spec fn colored_line(line: Seq<char>) -> Seq<char> {
    if is_formatted(line) {
        line
    } else {
        TEXT_ANSI@ + line + RESET@
    }
}

/// A line that is shown is formatted, and showing it again changes nothing.
pub proof fn law_coloring_is_idempotent(line: Seq<char>)
    ensures
        is_formatted(colored_line(line)),
        colored_line(colored_line(line)) == colored_line(line),
{
    reveal_strlit("\x1b[97m");
    if !is_formatted(line) {
        let shown = colored_line(line);
        assert(shown[0] == '\x1b' && shown[1] == '[');
    }
}

/// A line of output as it is shown.
pub fn colored_line_string(line: &str) -> (r: String)
    ensures
        r@ == colored_line(line@),
{
    let chars = chars_of(line);
    let mut i: usize = 0;
    while i < chars.len()
        invariant
            i <= chars@.len(),
            chars@ == line@,
            forall|j: int|
                0 <= j < i && j < line@.len() - 1 ==> !(#[trigger] line@[j] == '\x1b' && line@[j
                    + 1] == '['),
        decreases chars@.len() - i,
    {
        if chars[i] == '\x1b' && chars.len() - i > 1 && chars[i + 1] == '[' {
            assert(line@[i as int] == '\x1b');
            return line.to_owned();
        }
        i += 1;
    }
    let mut out = TEXT_ANSI.to_owned();
    out.push_str(line);
    out.push_str(RESET);
    out
}

} // verus!
