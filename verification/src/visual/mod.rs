//! Framework-neutral visual identity, interaction commands and projections.
pub mod command;
pub mod comparative;
pub mod gpu;
pub mod interaction_ir;
pub mod ir;
pub mod selection;
