//! A small record manager for a file-backed store of vehicle records: the
//! store's on-disk codec, the whole-store load/append/remove operations, the
//! wraparound selection cursor, and the view controller's key dispatch, each
//! with a proved contract. Terminal drawing, keyboard polling and file I/O
//! live with the caller.

pub mod codec;
pub mod cursor;
pub mod record;
pub mod store;
pub mod view;
