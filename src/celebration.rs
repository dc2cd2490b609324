//! The timing and placement of the celebration shown when a list is done.

use vstd::prelude::*;

verus! {

/// Rounds of the animation.
pub const ROUNDS: usize = 3;

/// Pause between two frames, in milliseconds.
pub const FRAME_DELAY_MS: u64 = 150;

/// Width of the screen the messages are centred on.
pub const SCREEN_WIDTH: u16 = 80;

/// Whether, in `round`, the firework at `position` (of `positions`) is drawn
/// in frame `frame`: fireworks start two at a time.
pub fn firework_visible(round: usize, positions: usize, position: usize, frame: usize) -> (r: bool)
    requires
        round * positions + position <= usize::MAX,
    ensures
        r == ((round * positions + position) / 2 <= frame),
{
    proof {
        assert(0 <= round * positions) by (nonlinear_arith);
    }
    let step = round * positions;
    (step + position) / 2 <= frame
}

/// The column at which text of `len` columns starts so as to be centred on
/// `width` columns; text wider than that starts at 0.
pub fn centered_column(width: u16, len: u16) -> (r: u16)
    ensures
        r == (if len >= width {
            0
        } else {
            (width - len) / 2
        }),
{
    if len >= width {
        0
    } else {
        (width - len) / 2
    }
}

} // verus!
