//! Per-peer session machinery: send priorities, split reassembly and tunables.
pub mod split_assembler;
pub mod tunables;

use vstd::prelude::*;

verus! {

/// How urgently a frame is sent: immediate frames skip the send queue, the
/// others are drained from highest to lowest.
#[derive(Debug, Clone, Copy, PartialEq, Eq, Structural)]
pub enum RakPriority {
    Immediate,
    High,
    Medium,
    Low,
}

} // verus!
