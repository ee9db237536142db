//! The kinds of timeline events.

use vstd::prelude::*;

verus! {

pub const SESSION_START: &'static str = "session_start";

pub const SESSION_END: &'static str = "session_end";

pub const COMMAND: &'static str = "command";

pub const TEST: &'static str = "test";

pub const SNAPSHOT: &'static str = "snapshot";

pub const CHECKPOINT: &'static str = "checkpoint";

pub const RESTORE: &'static str = "restore";

pub const INVESTIGATION: &'static str = "investigation";

} // verus!
