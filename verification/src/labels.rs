//! Texts that the panel shows or falls back to.

use vstd::prelude::*;

verus! {

/// What the elapsed time reads before the first second of a recording.
pub const REC_STARTING_ELAPSED: &'static str = "00:00:00";

/// The session name where the one entered has no usable character.
pub const REC_FALLBACK_SESSION: &'static str = "session";

/// The names of the mute groups.
pub const MUTE_GROUP_NAMES: [&'static str; 3] = ["BEATS", "LEADS", "AMBIENTS"];

} // verus!
