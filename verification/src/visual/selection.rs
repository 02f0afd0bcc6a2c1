//! The pure selection reducer that shell and GPU input share.
use vstd::prelude::*;

use super::command::{
    gpu_command, gpu_counterpart, shell_command, DomainCommand, ShellInput, VisualObjectId,
};
use super::gpu::pick_input;

verus! {

#[derive(Debug, Clone, Copy, PartialEq, Eq, Structural)]
pub struct SelectionState {
    pub selected: Option<VisualObjectId>,
    pub provenance_focus: Option<VisualObjectId>,
    pub follow_target: Option<VisualObjectId>,
    pub open_source: Option<VisualObjectId>,
}

/// Nothing selected, focused, followed or opened.
pub open spec fn empty_selection() -> SelectionState {
    SelectionState {
        selected: None,
        provenance_focus: None,
        follow_target: None,
        open_source: None,
    }
}

impl Default for SelectionState {
    fn default() -> (s: Self)
        ensures
            s == empty_selection(),
    {
        SelectionState {
            selected: None,
            provenance_focus: None,
            follow_target: None,
            open_source: None,
        }
    }
}

pub open spec fn reduced(command: DomainCommand, state: SelectionState) -> SelectionState {
    match command {
        DomainCommand::SelectObject(id) => SelectionState { selected: Some(id), ..state },
        DomainCommand::FocusProvenance(id) => SelectionState { provenance_focus: Some(id), ..state },
        DomainCommand::FollowTarget(id) => SelectionState { follow_target: Some(id), ..state },
        DomainCommand::OpenSource(id) => SelectionState { open_source: Some(id), ..state },
        DomainCommand::ClearSelection => empty_selection(),
    }
}

/// Applies one command: it sets the one slot it names and keeps the others;
/// clearing empties every slot.
pub fn reduce_selection(command: DomainCommand, state: SelectionState) -> (s: SelectionState)
    ensures
        s == reduced(command, state),
{
    match command {
        DomainCommand::SelectObject(id) => SelectionState { selected: Some(id), ..state },
        DomainCommand::FocusProvenance(id) => SelectionState { provenance_focus: Some(id), ..state },
        DomainCommand::FollowTarget(id) => SelectionState { follow_target: Some(id), ..state },
        DomainCommand::OpenSource(id) => SelectionState { open_source: Some(id), ..state },
        DomainCommand::ClearSelection => SelectionState::default(),
    }
}

/// A shell input and its GPU counterpart leave any selection state in the same
/// new state, and a raw GPU pick of an object selects it as the shell's Select does.
pub proof fn lemma_shell_gpu_selection_parity(input: ShellInput, state: SelectionState, raw: u64)
    ensures
        reduced(shell_command(input), state) == reduced(gpu_command(gpu_counterpart(input)), state),
        reduced(gpu_command(pick_input(Some(raw))), state)
            == reduced(shell_command(ShellInput::Select(VisualObjectId(raw))), state),
        reduced(gpu_command(pick_input(None)), state) == reduced(shell_command(ShellInput::Clear), state),
{
}

/// Repeating a command changes nothing more, and clearing forgets everything.
pub proof fn lemma_reduce_idempotent(command: DomainCommand, state: SelectionState)
    ensures
        reduced(command, reduced(command, state)) == reduced(command, state),
        reduced(DomainCommand::ClearSelection, state) == empty_selection(),
{
}

/// Commands on different slots commute: the order of a select and a focus,
/// a follow or an open does not matter.
pub proof fn lemma_reduce_slots_independent(a: DomainCommand, b: DomainCommand, state: SelectionState)
    requires
        a != DomainCommand::ClearSelection,
        b != DomainCommand::ClearSelection,
        !(a is SelectObject && b is SelectObject),
        !(a is FocusProvenance && b is FocusProvenance),
        !(a is FollowTarget && b is FollowTarget),
        !(a is OpenSource && b is OpenSource),
    ensures
        reduced(a, reduced(b, state)) == reduced(b, reduced(a, state)),
{
}

} // verus!
