//! Structured data files: which formats exist, which are available, and how
//! a file's name selects the parser for its content.

use vstd::prelude::*;
use vstd::string::StringExecFns;
use crate::document::Document;
use crate::document::json_document;
use crate::document::parse_json;
use crate::document::parse_toml;
use crate::document::parse_yaml;
use crate::document::toml_document;
use crate::document::yaml_document;
use crate::error::Failure;
use crate::error::ParseFailure;
use crate::format::Format;
use crate::path::extension;
use crate::path::extension_of;
use crate::path::same_text;

verus! {

/// A format of structured data files.
#[derive(Debug, Clone, Copy, PartialEq, Eq, Structural)]
pub enum DataFormat {
    Yaml,
    Json,
    Toml,
}

/// Which codecs are available to a run. A format that is switched off is
/// treated like one that does not exist.
#[derive(Debug, Clone, Copy, PartialEq, Eq, Structural)]
pub struct Capabilities {
    pub yaml: bool,
    pub json: bool,
    pub toml: bool,
    pub tar: bool,
    pub tgz: bool,
    pub zip: bool,
}

impl Capabilities {
    /// The data format can be parsed.
    pub open spec fn reads(self, format: DataFormat) -> bool {
        match format {
            DataFormat::Yaml => self.yaml,
            DataFormat::Json => self.json,
            DataFormat::Toml => self.toml,
        }
    }

    /// The archive format can be written.
    pub open spec fn writes(self, format: Format) -> bool {
        match format {
            Format::Tar => self.tar,
            Format::Tgz => self.tgz,
            Format::Zip => self.zip,
        }
    }

    /// Every codec available.
    pub fn all() -> (r: Capabilities)
        ensures
            r == (Capabilities { yaml: true, json: true, toml: true, tar: true, tgz: true, zip: true }),
    {
        Capabilities { yaml: true, json: true, toml: true, tar: true, tgz: true, zip: true }
    }

    /// Whether the data format can be parsed.
    pub fn can_read(&self, format: DataFormat) -> (r: bool)
        ensures
            r == self.reads(format),
    {
        match format {
            DataFormat::Yaml => self.yaml,
            DataFormat::Json => self.json,
            DataFormat::Toml => self.toml,
        }
    }

    /// Whether the archive format can be written.
    pub fn can_write(&self, format: Format) -> (r: bool)
        ensures
            r == self.writes(format),
    {
        match format {
            Format::Tar => self.tar,
            Format::Tgz => self.tgz,
            Format::Zip => self.zip,
        }
    }
}

impl ParseFailure {
    /// The format whose parser refused the text.
    pub open spec fn spec_format(self) -> DataFormat {
        match self {
            ParseFailure::Json(_) => DataFormat::Json,
            ParseFailure::Yaml(_) => DataFormat::Yaml,
            ParseFailure::Toml(_) => DataFormat::Toml,
        }
    }

    /// The format whose parser refused the text.
    pub fn format(&self) -> (r: DataFormat)
        ensures
            r == self.spec_format(),
    {
        match self {
            ParseFailure::Json(_) => DataFormat::Json,
            ParseFailure::Yaml(_) => DataFormat::Yaml,
            ParseFailure::Toml(_) => DataFormat::Toml,
        }
    }
}

/// The format that an extension stands for: `yaml` and `yml`, `toml`, `json`.
pub open spec fn format_named(ext: Seq<char>) -> Option<DataFormat> {
    if ext == "yaml"@ || ext == "yml"@ {
        Some(DataFormat::Yaml)
    } else if ext == "toml"@ {
        Some(DataFormat::Toml)
    } else if ext == "json"@ {
        Some(DataFormat::Json)
    } else {
        None
    }
}

/// The format of a file, by the extension of its name alone.
pub open spec fn format_of(name: Seq<char>) -> Option<DataFormat> {
    match extension_of(name) {
        Some(ext) => format_named(ext),
        None => None,
    }
}

/// The document that the parser of a format reads from the bytes of a file.
pub open spec fn document_of(format: DataFormat, content: Seq<u8>) -> Option<Document> {
    match format {
        DataFormat::Yaml => yaml_document(content),
        DataFormat::Json => json_document(content),
        DataFormat::Toml => toml_document(content),
    }
}

/// What loading a file comes to.
pub enum Loaded {
    /// No available format goes with the file's name.
    Unsupported,
    /// The parser of the format refused the content.
    Malformed(DataFormat),
    /// The parser read this document.
    Parsed(Document),
}

/// What parsing `content` in a given format comes to under `caps`.
pub open spec fn parsed_as(format: DataFormat, content: Seq<u8>, caps: Capabilities) -> Loaded {
    if !caps.reads(format) {
        Loaded::Unsupported
    } else {
        match document_of(format, content) {
            Some(d) => Loaded::Parsed(d),
            None => Loaded::Malformed(format),
        }
    }
}

/// What loading the file called `name` with the given content comes to.
pub open spec fn loaded(name: Seq<char>, content: Seq<u8>, caps: Capabilities) -> Loaded {
    match format_of(name) {
        Some(format) => parsed_as(format, content, caps),
        None => Loaded::Unsupported,
    }
}

/// The result `r` reports the outcome `outcome` for the file at `path`.
pub open spec fn reports(r: Result<Document, Failure>, outcome: Loaded, path: Seq<char>) -> bool {
    match outcome {
        Loaded::Unsupported => r matches Err(Failure::UnsupportedFormat { name }) && name@ == path,
        Loaded::Malformed(format) => r matches Err(Failure::Parse { path: at, cause }) && at@
            == path && cause.spec_format() == format,
        Loaded::Parsed(d) => r matches Ok(x) && x == d,
    }
}

/// The format that an extension stands for.
pub fn format_for(ext: &str) -> (r: Option<DataFormat>)
    ensures
        r == format_named(ext@),
{
    if same_text(ext, "yaml") || same_text(ext, "yml") {
        Some(DataFormat::Yaml)
    } else if same_text(ext, "toml") {
        Some(DataFormat::Toml)
    } else if same_text(ext, "json") {
        Some(DataFormat::Json)
    } else {
        None
    }
}

/// The format of the file called `name`, by its extension alone.
pub fn detect(name: &str) -> (r: Option<DataFormat>)
    ensures
        r == format_of(name@),
{
    match extension(name) {
        Some(ext) => format_for(ext.as_str()),
        None => None,
    }
}

/// The glob patterns under which data files are looked for: those of the
/// formats that are available, YAML first, then JSON, then TOML.
pub open spec fn patterns_of(caps: Capabilities) -> Seq<Seq<char>> {
    (if caps.yaml {
        seq!["*.yaml"@, "*.yml"@]
    } else {
        Seq::empty()
    }) + (if caps.json {
        seq!["*.json"@]
    } else {
        Seq::empty()
    }) + (if caps.toml {
        seq!["*.toml"@]
    } else {
        Seq::empty()
    })
}

/// The texts of a list of string slices.
pub open spec fn slice_texts(s: Seq<&'static str>) -> Seq<Seq<char>> {
    Seq::new(s.len(), |i: int| s[i]@)
}

/// The glob patterns of the available data formats.
pub fn data_patterns(caps: &Capabilities) -> (r: Vec<&'static str>)
    ensures
        slice_texts(r@) == patterns_of(*caps),
{
    let mut r: Vec<&'static str> = Vec::new();
    if caps.yaml {
        r.push("*.yaml");
        r.push("*.yml");
    }
    if caps.json {
        r.push("*.json");
    }
    if caps.toml {
        r.push("*.toml");
    }
    assert(slice_texts(r@) =~= patterns_of(*caps));
    r
}

/// Parses the content of a YAML file. `path` names the file in the error.
pub fn load_yaml(path: &str, content: &[u8], caps: &Capabilities) -> (r: Result<Document, Failure>)
    ensures
        reports(r, parsed_as(DataFormat::Yaml, content@, *caps), path@),
{
    if !caps.yaml {
        return Err(Failure::UnsupportedFormat { name: String::from_str(path) });
    }
    let answer = match parse_yaml(content) {
        Ok(d) => Ok(d),
        Err(e) => Err(ParseFailure::Yaml(e)),
    };
    settle(path, answer)
}

/// Parses the content of a JSON file. `path` names the file in the error.
pub fn load_json(path: &str, content: &[u8], caps: &Capabilities) -> (r: Result<Document, Failure>)
    ensures
        reports(r, parsed_as(DataFormat::Json, content@, *caps), path@),
{
    if !caps.json {
        return Err(Failure::UnsupportedFormat { name: String::from_str(path) });
    }
    let answer = match parse_json(content) {
        Ok(d) => Ok(d),
        Err(e) => Err(ParseFailure::Json(e)),
    };
    settle(path, answer)
}

/// Parses the content of a TOML file. `path` names the file in the error.
pub fn load_toml(path: &str, content: &[u8], caps: &Capabilities) -> (r: Result<Document, Failure>)
    ensures
        reports(r, parsed_as(DataFormat::Toml, content@, *caps), path@),
{
    if !caps.toml {
        return Err(Failure::UnsupportedFormat { name: String::from_str(path) });
    }
    let answer = match parse_toml(content) {
        Ok(d) => Ok(d),
        Err(e) => Err(ParseFailure::Toml(e)),
    };
    settle(path, answer)
}

/// Settles what a parser's answer means for the file at `path`: the
/// document, or a parse failure that carries the path.
pub fn settle(path: &str, answer: Result<Document, ParseFailure>) -> (r: Result<Document, Failure>)
    ensures
        match answer {
            Ok(d) => r matches Ok(x) && x == d,
            Err(e) => r matches Err(Failure::Parse { path: at, cause }) && at@ == path@ && cause
                == e,
        },
{
    match answer {
        Ok(d) => Ok(d),
        Err(cause) => Err(Failure::Parse { path: String::from_str(path), cause }),
    }
}

/// The available format of the file called `name`, if it has one.
pub open spec fn recognized(name: Seq<char>, caps: Capabilities) -> Option<DataFormat> {
    match format_of(name) {
        Some(format) => if caps.reads(format) {
            Some(format)
        } else {
            None
        },
        None => None,
    }
}

/// Tells, from the name alone and before the file is opened, whether the
/// file can be loaded: its format, or the failure for a name that no
/// available format goes with.
pub fn supported(name: &str, caps: &Capabilities) -> (r: Result<DataFormat, Failure>)
    ensures
        match recognized(name@, *caps) {
            Some(format) => r matches Ok(f) && f == format,
            None => r matches Err(Failure::UnsupportedFormat { name: n }) && n@ == name@,
        },
        recognized(name@, *caps) is None <==> forall|content: Seq<u8>|
            (#[trigger] loaded(name@, content, *caps)) is Unsupported,
{
    proof {
        if recognized(name@, *caps) is None {
            assert forall|content: Seq<u8>| (#[trigger] loaded(name@, content, *caps)) is Unsupported by {}
        } else {
            assert(!(loaded(name@, Seq::<u8>::empty(), *caps) is Unsupported));
        }
    }
    match detect(name) {
        Some(format) => if caps.can_read(format) {
            Ok(format)
        } else {
            Err(Failure::UnsupportedFormat { name: String::from_str(name) })
        },
        None => Err(Failure::UnsupportedFormat { name: String::from_str(name) }),
    }
}

/// Loads one data file: the extension of `name` selects the parser, the
/// parser reads `content`.
pub fn load_data(name: &str, content: &[u8], caps: &Capabilities) -> (r: Result<Document, Failure>)
    ensures
        reports(r, loaded(name@, content@, *caps), name@),
{
    match detect(name) {
        Some(DataFormat::Yaml) => load_yaml(name, content, caps),
        Some(DataFormat::Toml) => load_toml(name, content, caps),
        Some(DataFormat::Json) => load_json(name, content, caps),
        None => Err(Failure::UnsupportedFormat { name: String::from_str(name) }),
    }
}

/// Loads the staging specification: one document, its format chosen by the
/// extension of `name` alone. The document is handed on as it was parsed.
pub fn load_stage(name: &str, content: &[u8], caps: &Capabilities) -> (r: Result<Document, Failure>)
    ensures
        reports(r, loaded(name@, content@, *caps), name@),
{
    load_data(name, content, caps)
}

} // verus!
