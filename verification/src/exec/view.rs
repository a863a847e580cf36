//! The live view: how large it is, when it is redrawn and when it ends.
use vstd::prelude::*;

verus! {

/// The status with which the program exits when the run was cancelled.
pub const CANCELLED_STATUS: i32 = 130;

/// How many milliseconds a frame stays up.
pub const REDRAW_MILLIS: u64 = 50;

/// How many seconds a process group has to end before it is killed.
pub const GRACE_SECONDS: u64 = 2;

/// What is done next about the view.
#[derive(Debug, Clone, Copy, PartialEq, Eq, Structural)]
pub enum Frame {
    /// The run was cancelled.
    Cancel,
    /// The run has ended.
    End,
    /// The view is drawn again.
    Draw,
}

/// How many lines of the terminal the rows take.
pub fn view_height(rows: usize) -> (r: u16)
    ensures
        r as int == if rows <= u16::MAX {
            rows as int
        } else {
            u16::MAX as int
        },
{
    if rows <= 65535 {
        rows as u16
    } else {
        65535
    }
}

/// Whether a key cancels the run: `q`, or `c` together with the control key.
pub fn is_cancel_key(key: char, control: bool) -> (r: bool)
    ensures
        r == (key == 'q' || (key == 'c' && control)),
{
    key == 'q' || (key == 'c' && control)
}

/// What is done next: a signal to stop comes before the end of the run, and
/// that before a key.
pub fn next_frame(signalled: bool, finished: bool, key_pressed: bool) -> (r: Frame)
    ensures
        r == if signalled {
            Frame::Cancel
        } else if finished {
            Frame::End
        } else if key_pressed {
            Frame::Cancel
        } else {
            Frame::Draw
        },
{
    if signalled {
        Frame::Cancel
    } else if finished {
        Frame::End
    } else if key_pressed {
        Frame::Cancel
    } else {
        Frame::Draw
    }
}

/// The picture of the spinner after another.
pub fn next_spinner(spinner_idx: usize) -> (r: usize)
    requires
        spinner_idx < usize::MAX,
    ensures
        r == (spinner_idx + 1) % 10,
        r < 10,
{
    (spinner_idx + 1) % 10
}

} // verus!
