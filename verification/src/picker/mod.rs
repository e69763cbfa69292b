//! The picker: builds the hinted view of a captured pane and turns key
//! presses into a copy decision.

pub mod render;
pub mod session;
