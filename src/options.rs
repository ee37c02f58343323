//! The settings of one run, and the decisions a run makes from them.

use vstd::prelude::*;

use crate::algorithms::Algorithm;
use crate::compare::{CompareError, CompareFileResult, CompareResult};
use crate::mapping::DigestMapping;
use crate::scan::{detect_algorithm, placeholder_like};

verus! {

/// The settings of one run.
pub struct Commands {
    /// Hashing algorithm to use; `UNSPECIFIED` asks for autodetection.
    pub algorithm: Algorithm,
    /// Max recursion depth below the root; unbounded if none.
    pub depth: Option<usize>,
    /// Whether to follow symlinks.
    pub follow_symlinks: bool,
    /// Relative paths of files and directories to ignore.
    pub ignored_files: Vec<String>,
    /// Number of hashing workers; 0 uses all available parallelism.
    pub jobs: usize,
    /// What to do.
    pub command: Mode,
}

/// What a run does.
pub enum Mode {
    /// Create a manifest for a directory.
    Create { path: String, file: Option<String>, force: bool },
    /// Hash a directory again and compare it with its manifest.
    Verify { path: String, file: Option<String> },
    /// Hash the files a manifest names and compare them with it.
    Check { path: String, file: Option<String> },
}

/// Whether a manifest may be written: always when forced, else only where
/// none exists yet.
pub fn may_create(force: bool, exists: bool) -> (r: bool)
    ensures
        r == (force || !exists),
{
    force || !exists
}

/// The algorithm for checking against a loaded mapping: the one asked for,
/// or, when none was, the one its first real digest suggests. None when
/// none was asked for and every digest is a placeholder.
pub fn resolve_algorithm(requested: Algorithm, loaded: &DigestMapping) -> (r: Option<Algorithm>)
    ensures
        requested != Algorithm::UNSPECIFIED ==> r == Some(requested),
        requested == Algorithm::UNSPECIFIED ==> (r is None <==> (forall|j: int|
            0 <= j < loaded@.len() ==> placeholder_like(#[trigger] loaded@[j].1))),
        requested == Algorithm::UNSPECIFIED && r is Some ==> exists|i: int|
            crate::scan::first_real_digest(loaded@, i) && r == Some(
                crate::algorithms::detected_algorithm(loaded@[i].1),
            ),
{
    if requested != Algorithm::UNSPECIFIED {
        Some(requested)
    } else {
        detect_algorithm(loaded)
    }
}

/// Whether a comparison found nothing to report: no length mismatch, no
/// added or removed path, and no changed digest.
pub open spec fn clean_comparison(
    r: Result<(Vec<CompareResult>, Vec<CompareFileResult>), CompareError>,
) -> bool {
    match r {
        Ok(p) => p.0@.len() == 0 && forall|i: int|
            0 <= i < p.1@.len() ==> #[trigger] p.1@[i] is FileMatches,
        Err(_) => false,
    }
}

/// The process exit status for a comparison: 0 when it found nothing to
/// report, else 1.
pub fn comparison_exit_status(
    r: &Result<(Vec<CompareResult>, Vec<CompareFileResult>), CompareError>,
) -> (status: i32)
    ensures
        status == 0 || status == 1,
        status == 0 <==> clean_comparison(*r),
{
    match r {
        Ok(p) => {
            if p.0.len() != 0 {
                return 1;
            }
            let files = &p.1;
            let mut all_match = true;
            let mut i: usize = 0;
            while i < files.len()
                invariant
                    i <= files@.len(),
                    all_match == (forall|j: int| 0 <= j < i ==> #[trigger] files@[j] is FileMatches),
                decreases files@.len() - i,
            {
                match &files[i] {
                    CompareFileResult::FileMatches(_) => {},
                    CompareFileResult::FileDiffers { .. } => {
                        all_match = false;
                    },
                }
                i += 1;
            }
            if all_match {
                0
            } else {
                1
            }
        },
        Err(_) => 1,
    }
}

} // verus!
