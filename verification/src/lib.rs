//! Runway: a verified core for syncing a tree of local asset files to a
//! local content cache or a remote cloud asset host, with persistent state
//! for change detection, a watch-mode scheduler, and codegen of the final
//! ident-to-id mapping.

pub mod api;
pub mod asset_ident;
pub mod codegen;
pub mod config;
pub mod remote;
pub mod state;
pub mod strutil;
pub mod sync;
pub mod watch;
