//! Release packaging: merge structured data files into one collision-checked
//! namespace, plan the staging run, and lay out the entries of the archive.

pub mod format;

pub mod args;

pub mod document;

pub mod namespace;

pub mod error;

pub mod path;

pub mod data;

pub mod merge;

pub mod laws;

pub mod archive;

pub mod run;
