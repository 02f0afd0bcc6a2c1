//! Read models, interaction commands and visual projections of the ITIR unified workbench.
pub mod json;
pub mod refs;
pub mod visual;
pub mod workbench;
