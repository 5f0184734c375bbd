//! Materialises a container root filesystem from an ordered stack of
//! gzip-compressed tar layers, honouring whiteout markers.
//!
//! The library decides everything that can be decided from the layer bytes
//! and the target directory's description: it validates the target, decodes
//! each layer, reads its entry names and resolves whiteouts into removals.
//! The result is a [`render::Plan`], an ordered list of filesystem steps that a
//! host carries out against the target directory.
mod archive;
pub mod error;
pub mod options;
pub mod paths;
pub mod render;
pub mod whiteout;

pub use error::RenderError;
pub use options::UnpackOptions;
pub use render::{unpack, unpack_with_options, Plan, Step};
