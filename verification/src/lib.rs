//! Directory-scoped shell environment shadowing: the activation engine that
//! decides, from an opaque previous-state string and a freshly discovered
//! configuration source, whether the shadow environment must be recomputed,
//! replays the undo ledger, and renders the resulting variable delta in one
//! of three shell wire formats.

pub mod chars;
pub mod escape;
pub mod hash;
pub mod hook;
pub mod output;
pub mod shadowenv;
pub mod strutil;
pub mod undo;
