//! Resolution of user-account records from colon-delimited shard files.
//!
//! The library parses `passwd`-style lines, selects the shard files a caller
//! may search based on its privilege level, scans them for a record matching
//! an id or a name, and serializes the match into a caller-bounded output
//! arena, reporting exhaustion instead of overrunning the region.

pub mod arena;
pub mod lookup;
pub mod parse;
pub mod select;
pub mod status;
pub mod writer;
