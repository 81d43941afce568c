//! Decision logic for mirroring an adaptive-streaming manifest tree (HLS or
//! DASH) to local storage: where each remote resource is stored, which
//! resources are fetched and in which order, and how playlists are rewritten
//! to point at the local copies.

pub mod dash;
pub mod duration;
pub mod error;
pub mod hls;
pub mod ledger;
pub mod local_path;
pub mod mirror;
pub mod resource;
pub mod storing;
pub mod text;
pub mod xml;
