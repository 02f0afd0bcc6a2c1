//! The GPU's side of picking: a raw pick id becomes a pick proposal.
//!
//! The GPU consumes visualisation IR and returns pick proposals. It does not own
//! canonical semantic state or mutate the world directly.
use vstd::prelude::*;

use super::command::{GpuPickInput, VisualObjectId};

verus! {

pub open spec fn pick_input(raw_pick_id: Option<u64>) -> GpuPickInput {
    match raw_pick_id {
        Some(id) => GpuPickInput::Hit(VisualObjectId(id)),
        None => GpuPickInput::Miss,
    }
}

/// A pick id read back from the pick target is a proposal to select that object;
/// no id read back is a miss.
pub fn decode_pick_id(raw_pick_id: Option<u64>) -> (p: GpuPickInput)
    ensures
        p == pick_input(raw_pick_id),
{
    match raw_pick_id {
        Some(id) => GpuPickInput::Hit(VisualObjectId(id)),
        None => GpuPickInput::Miss,
    }
}

} // verus!
