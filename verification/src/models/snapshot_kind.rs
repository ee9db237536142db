//! The occasions on which snapshots are taken.

use vstd::prelude::*;

verus! {

pub const SESSION_START: &'static str = "session_start";

pub const PRE_COMMAND: &'static str = "pre_command";

pub const POST_COMMAND: &'static str = "post_command";

pub const PRE_TEST: &'static str = "pre_test";

pub const POST_TEST: &'static str = "post_test";

pub const CHECKPOINT: &'static str = "checkpoint";

pub const PRE_RESTORE: &'static str = "pre_restore";

pub const SAFETY: &'static str = "safety";

pub const MANUAL: &'static str = "manual";

} // verus!
