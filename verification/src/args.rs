//! The command line of a run, as plain values.

use vstd::prelude::*;
use crate::format::Dump;
use crate::format::Format;

verus! {

/// Where and how the archive is written.
#[derive(Debug, Clone)]
pub struct Output {
    /// Path of the archive to write.
    pub dir: Option<String>,
    /// Container format of the archive.
    pub format: Format,
    /// Log the planned actions without performing them.
    pub dry_run: bool,
}

/// Everything the command line can say.
#[derive(Debug, Clone)]
pub struct Arguments {
    /// Path of the staging specification.
    pub input_stage: Option<String>,
    /// Data roots, in the order given.
    pub data_dir: Vec<String>,
    /// Path of the project manifest.
    pub manifest_path: Option<String>,
    /// Target triple of the build to package.
    pub target: Option<String>,
    /// Where and how the archive is written.
    pub output: Output,
    /// Print this instead of packaging.
    pub dump: Option<Dump>,
    /// How often the verbosity flag was given.
    pub verbosity: u8,
}

} // verus!
