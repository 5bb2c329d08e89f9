//! Names under which events are sent to the user interface.

use vstd::prelude::*;

verus! {

pub const SEGMENT: &'static str = "asr:segment";

pub const PARTIAL: &'static str = "asr:partial";

pub const STATE: &'static str = "asr:state";

pub const LEVEL: &'static str = "asr:level";

pub const AI_STATUS: &'static str = "ai:status";

pub const SUMMARY: &'static str = "ai:summary";

pub const SESSION_UPDATED: &'static str = "session:updated";

pub const ERROR: &'static str = "app:error";

} // verus!
