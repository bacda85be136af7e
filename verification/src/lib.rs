//! Data-virtualization core of a timeline profile viewer: interval
//! arithmetic, entry addressing, tile requests and caching, row layout with
//! viewport culling, and the controller of the visible time window.

pub mod cache;
pub mod data;
pub mod entry_id;
pub mod fraction;
pub mod layout;
pub mod random;
pub mod session;
pub mod source;
pub mod text;
pub mod tiles;
pub mod timestamp;
pub mod view;
pub mod walk;
pub mod window;
