//! Core of a download manager: the multi-connection HTTP transfer engine's
//! planning and accounting, the download registry with its lifecycle state
//! machine and queue discipline, the token-bucket rate limiter, and the
//! parsing helpers that the surrounding application drives.

pub mod bins;
pub mod chunks;
pub mod clip;
pub mod engine;
pub mod filename;
pub mod hash;
pub mod limiter;
pub mod magnet;
pub mod manager;
pub mod media;
pub mod model;
pub mod path;
pub mod registry;
pub mod sched;
pub mod stamp;
pub mod status;
pub mod store;
pub mod torrent;
pub mod strutil;

