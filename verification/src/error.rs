//! What can go wrong in a run.

use vstd::prelude::*;
use crate::namespace::Collision;

verus! {

/// The parser's own account of a document it refused.
#[derive(Debug)]
pub enum ParseFailure {
    Json(serde_json::Error),
    Yaml(serde_yaml::Error),
    Toml(toml::de::Error),
}

/// The writer's own account of an archive it could not finish.
#[derive(Debug)]
pub enum ArchiveFailure {
    Zip(zip::result::ZipError),
    Io(std::io::Error),
}

/// A failure of the library.
#[derive(Debug)]
pub enum Failure {
    /// The extension is not a recognized one, or the codec for it is not
    /// available. `name` is the file or format that was asked for.
    UnsupportedFormat { name: String },
    /// The document at `path` is malformed.
    Parse { path: String, cause: ParseFailure },
    /// The namespace already holds something where a document would go.
    /// `keys` is the full key path of the document that was refused.
    DuplicateKey { keys: Vec<String>, collision: Collision },
    /// The path of file `index` cannot be written as text.
    InvalidPath { index: usize },
    /// An entry could not be written, or the archive not finished.
    Archive { reason: ArchiveFailure },
}

} // verus!
