//! Reader for the Windows Imaging (WIM) container: the fixed archive header,
//! its resource descriptors, and the UTF-16 XML metadata describing the images.
use vstd::prelude::*;

pub mod classify;
pub mod error;
pub mod header;
pub mod image;
pub mod parser;
pub mod summary;
pub mod text;
pub mod utf16;

pub use classify::extract_version_and_arch;
pub use error::{FormatFailure, IoFailure, WimError};
pub use header::{FileFlags, FileResourceEntry, ResourceFlags, WimHeader};
pub use image::ImageInfo;
pub use parser::WimParser;
pub use summary::WindowsInfo;

verus! {

} // verus!
