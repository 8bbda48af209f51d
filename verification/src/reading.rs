//! What it is for a minute to have been read off the clock.
use vstd::prelude::*;

use crate::clock::Moment;

verus! {

/// The clock of the system showed this minute, `subsec` milliseconds into a second,
/// when it was read. All that is known of such a minute is that it is one of the
/// calendar; but that a minute is one of the calendar does not show, outside this
/// module, that the clock showed it.
pub closed spec fn clock_showed(moment: Moment, subsec: u32) -> bool {
    moment.wf() && subsec < 2000
}

} // verus!
