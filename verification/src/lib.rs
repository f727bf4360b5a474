//! Core logic of a desktop image viewer's native backend: resolving curated
//! "open with" applications to labels and icons, and decoding and ranking the
//! frames of multi-frame icon containers.

pub mod text;
pub mod frames;
pub mod codec;
pub mod container;
pub mod apps;
pub mod info;
