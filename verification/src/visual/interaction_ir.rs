//! Intent-level interaction IR.
//!
//! This module is deliberately above physical gestures and below semantic
//! reducers. DOM selectors, pointer coordinates and GPU hit mechanics are not
//! canonical interaction identity.
use vstd::prelude::*;

use super::command::{DomainCommand, VisualObjectId};

verus! {

#[derive(Debug, Clone, Copy, PartialEq, Eq, Structural)]
pub enum TargetKind {
    Semantic,
    Source,
}

#[derive(Debug, Clone, Copy, PartialEq, Eq, Structural)]
pub enum ActionKind {
    Activate,
    Focus,
    Select,
    Expand,
    Collapse,
    Follow,
    OpenSource,
    Zoom,
}

#[derive(Debug, Clone, Copy, PartialEq, Eq, Structural)]
pub enum ObservationKind {
    Visible,
    Hidden,
    Focused,
    Selected,
    Expanded,
    Collapsed,
}

#[derive(Debug, Clone, Copy, PartialEq, Eq, Structural)]
pub enum ZoomLevel {
    In,
    Out,
    Fit,
}

#[derive(Debug, Clone, PartialEq, Eq)]
pub struct InteractionTarget {
    pub object_id: VisualObjectId,
    pub target_kind: TargetKind,
    pub semantic_ref: String,
    pub source_ref: Option<String>,
}

#[derive(Debug, Clone, PartialEq, Eq)]
pub struct InteractionIntent {
    pub action: ActionKind,
    pub target: InteractionTarget,
    pub zoom: Option<ZoomLevel>,
}

/// The command an action on an object asks for; presentation-only actions ask for none.
pub open spec fn intent_command(action: ActionKind, id: VisualObjectId) -> Option<DomainCommand> {
    match action {
        ActionKind::Activate | ActionKind::Select => Some(DomainCommand::SelectObject(id)),
        ActionKind::Focus => Some(DomainCommand::FocusProvenance(id)),
        ActionKind::Follow => Some(DomainCommand::FollowTarget(id)),
        ActionKind::OpenSource => Some(DomainCommand::OpenSource(id)),
        ActionKind::Expand | ActionKind::Collapse | ActionKind::Zoom => None,
    }
}

/// Lowers an intent to a domain command. Only the action and the target's visual
/// identity decide the result: target kind, references and zoom do not.
pub fn intent_to_domain_command(intent: &InteractionIntent) -> (c: Option<DomainCommand>)
    ensures
        c == intent_command(intent.action, intent.target.object_id),
{
    let id = intent.target.object_id;
    match intent.action {
        ActionKind::Activate | ActionKind::Select => Some(DomainCommand::SelectObject(id)),
        ActionKind::Focus => Some(DomainCommand::FocusProvenance(id)),
        ActionKind::Follow => Some(DomainCommand::FollowTarget(id)),
        ActionKind::OpenSource => Some(DomainCommand::OpenSource(id)),
        ActionKind::Expand | ActionKind::Collapse | ActionKind::Zoom => None,
    }
}

} // verus!
