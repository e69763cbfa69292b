//! Herdr adapter: the pure parts of talking to Herdr (command arguments,
//! context lookup, layout geometry and the split tree of a tab, the picker
//! tab's launch decisions and snapshot, the checks on Herdr's replies, and
//! the snapshot transport choice).

pub mod commands;
pub mod context;
pub mod transport;
pub mod layout;
pub mod apply;
pub mod snapshot;
pub mod launch;
pub mod depth;
