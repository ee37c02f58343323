//! Directory-wide content digests: the algorithm registry, the ordered
//! path-to-digest mapping, the manifest text format, the decisions around a
//! directory scan, and the comparison of two mappings.

pub mod algorithms;
pub mod compare;
pub mod manifest;
pub mod mapping;
pub mod options;
pub mod scan;
pub mod text;

pub use algorithms::Algorithm;
pub use compare::{compare_hashes, CompareError, CompareFileResult, CompareResult};
pub use manifest::{filepath_parser, parse_manifest, render_lines, try_contains, ManifestError};
pub use mapping::DigestMapping;
pub use options::{Commands, Mode};
pub use scan::{optimize_file_order, ScanEntry};
