//! What each signal adds to the relevance score of a changed file.

use vstd::prelude::*;

verus! {

pub const STACK_TRACE: i32 = 5;

pub const DEPENDENCY: i32 = 4;

pub const CHANGED_PASS_TO_FAIL: i32 = 3;

pub const IN_OUTPUT: i32 = 3;

pub const CHANGED_BEFORE: i32 = 2;

pub const GENERATED: i32 = -3;

} // verus!
