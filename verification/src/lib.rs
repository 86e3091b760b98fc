//! A verified core for a photo-archiving tool: it discovers camera image
//! assets under an input tree, collapsing sidecar directories into single
//! assets, and derives date-bucketed destination paths whose copies are
//! accepted only when the size read back equals the size recorded at
//! discovery.

pub mod archive;
pub mod date;
pub mod discovery;
pub mod disk;
pub mod paths;
