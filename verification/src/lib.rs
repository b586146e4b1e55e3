//! Intel sonar for EVE Online chat and game logs: the log file formats, the
//! keyword and system analysis of chat lines, the indices of configured modes,
//! characters and channels, and the star map navigation that decides which
//! reports are in range.

use vstd::prelude::*;

pub mod analysis;
pub mod ansi;
pub mod assets;
pub mod config;
pub mod error;
pub mod event_log;
pub mod indices;
pub mod log_kind;
pub mod logs;
pub mod mode;
pub mod paths;
pub mod replay;
pub mod run;
pub mod star_map;
pub mod store;
pub mod text;
pub mod time;
pub mod tls;
pub mod voice;

verus! {

/// An EVE character id.
pub type CharacterId = u32;

/// An EVE solar system id.
pub type StarId = u32;

/// An EVE solar system id, under its older name.
pub type SolarId = u32;

/// The id that an index gives a key.
pub type IndexId = u64;

/// The id of a mode in the mode index.
pub type ModeId = u64;

/// The id of a chat channel.
pub type ChannelId = u64;

} // verus!
