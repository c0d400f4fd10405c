//! A small file-sharing server: sandboxed path resolution, multipart upload
//! decoding, archive planning, directory listing and request routing, each
//! stated and proved with Verus.

pub mod text;
pub mod percent;
pub mod sandbox;
pub mod multipart;
pub mod upload;
pub mod router;
pub mod listing;
pub mod archive;
pub mod json;
pub mod media;
pub mod page;
pub mod cli;
pub mod style;
