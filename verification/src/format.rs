//! Archive container formats and the diagnostic dump selector, with the
//! names under which the command line knows them.

use vstd::prelude::*;
use vstd::string::StrSliceExecFns;
use vstd::string::StringExecFns;

verus! {

/// Lower-case form of an ASCII letter; every other character is itself.
pub open spec fn fold_ascii(c: char) -> char {
    if 'A' <= c && c <= 'Z' {
        ((c as u8) + 32) as char
    } else {
        c
    }
}

/// Two texts are equal up to the case of their ASCII letters.
pub open spec fn same_ignoring_case(a: Seq<char>, b: Seq<char>) -> bool {
    &&& a.len() == b.len()
    &&& forall|i: int| 0 <= i < a.len() ==> fold_ascii(#[trigger] a[i]) == fold_ascii(b[i])
}

/// Lower-case form of an ASCII letter.
pub fn to_lower(c: char) -> (r: char)
    ensures
        r == fold_ascii(c),
{
    if 'A' <= c && c <= 'Z' {
        let b: u8 = c as u8;
        (b + 32) as char
    } else {
        c
    }
}

/// Compares two texts without regard to the case of ASCII letters.
pub fn eq_ignoring_case(a: &str, b: &str) -> (r: bool)
    ensures
        r == same_ignoring_case(a@, b@),
{
    let n: usize = a.unicode_len();
    if b.unicode_len() != n {
        return false;
    }
    let mut i: usize = 0;
    while i < n
        invariant
            i <= n,
            n == a@.len(),
            n == b@.len(),
            forall|j: int| 0 <= j < i ==> fold_ascii(#[trigger] a@[j]) == fold_ascii(b@[j]),
        decreases n - i,
    {
        if to_lower(a.get_char(i)) != to_lower(b.get_char(i)) {
            return false;
        }
        i = i + 1;
    }
    true
}

/// The container format of the archive that a run writes.
#[derive(Debug, Clone, Copy, PartialEq, Eq, Structural)]
pub enum Format {
    /// Plain tar.
    Tar,
    /// Tar wrapped in gzip.
    Tgz,
    /// Zip with deflated entries.
    Zip,
}

impl Format {
    /// The file extension of the format, with its leading dot.
    pub open spec fn spec_ext(self) -> Seq<char> {
        match self {
            Format::Tar => ".tar"@,
            Format::Tgz => ".tar.gz"@,
            Format::Zip => ".zip"@,
        }
    }

    /// The name of the format as the command line spells it.
    pub open spec fn spec_name(self) -> Seq<char> {
        match self {
            Format::Tar => "Tar"@,
            Format::Tgz => "Tgz"@,
            Format::Zip => "Zip"@,
        }
    }

    /// The format that a name denotes, case of letters ignored.
    pub open spec fn spec_parse(name: Seq<char>) -> Option<Format> {
        if same_ignoring_case(name, Format::Tar.spec_name()) {
            Some(Format::Tar)
        } else if same_ignoring_case(name, Format::Tgz.spec_name()) {
            Some(Format::Tgz)
        } else if same_ignoring_case(name, Format::Zip.spec_name()) {
            Some(Format::Zip)
        } else {
            None
        }
    }

    /// The canonical file extension: `.tar`, `.tar.gz` or `.zip`.
    pub fn ext(self) -> (r: &'static str)
        ensures
            r@ == self.spec_ext(),
    {
        match self {
            Format::Tar => ".tar",
            Format::Tgz => ".tar.gz",
            Format::Zip => ".zip",
        }
    }

    /// The name of the format: `Tar`, `Tgz` or `Zip`.
    pub fn name(self) -> (r: &'static str)
        ensures
            r@ == self.spec_name(),
    {
        match self {
            Format::Tar => "Tar",
            Format::Tgz => "Tgz",
            Format::Zip => "Zip",
        }
    }

    /// The format that is written where none is asked for: zip on
    /// Windows, plain tar elsewhere.
    pub fn default_for(windows: bool) -> (r: Format)
        ensures
            r == (if windows {
                Format::Zip
            } else {
                Format::Tar
            }),
    {
        if windows {
            Format::Zip
        } else {
            Format::Tar
        }
    }

    /// The names of all formats, in declaration order.
    pub fn variants() -> (r: [&'static str; 3])
        ensures
            r[0]@ == Format::Tar.spec_name(),
            r[1]@ == Format::Tgz.spec_name(),
            r[2]@ == Format::Zip.spec_name(),
    {
        ["Tar", "Tgz", "Zip"]
    }

    /// Reads a format from its name, ignoring the case of letters. Any
    /// other text is refused with the list of valid names.
    pub fn parse(name: &str) -> (r: Result<Format, String>)
        ensures
            match Format::spec_parse(name@) {
                Some(f) => r == Ok::<Format, String>(f),
                None => r is Err && r->Err_0@ == "valid values: Tar, Tgz, Zip"@,
            },
    {
        if eq_ignoring_case(name, Format::Tar.name()) {
            Ok(Format::Tar)
        } else if eq_ignoring_case(name, Format::Tgz.name()) {
            Ok(Format::Tgz)
        } else if eq_ignoring_case(name, Format::Zip.name()) {
            Ok(Format::Zip)
        } else {
            Err(String::from_str("valid values: Tar, Tgz, Zip"))
        }
    }
}

/// What a diagnostic run prints instead of packaging.
#[derive(Debug, Clone, Copy, PartialEq, Eq, Structural)]
pub enum Dump {
    /// The resolved configuration.
    Config,
    /// The merged namespace.
    Data,
}

impl Dump {
    /// The name of the selector as the command line spells it.
    pub open spec fn spec_name(self) -> Seq<char> {
        match self {
            Dump::Config => "Config"@,
            Dump::Data => "Data"@,
        }
    }

    /// The selector that a name denotes, case of letters ignored.
    pub open spec fn spec_parse(name: Seq<char>) -> Option<Dump> {
        if same_ignoring_case(name, Dump::Config.spec_name()) {
            Some(Dump::Config)
        } else if same_ignoring_case(name, Dump::Data.spec_name()) {
            Some(Dump::Data)
        } else {
            None
        }
    }

    /// The name of the selector: `Config` or `Data`.
    pub fn name(self) -> (r: &'static str)
        ensures
            r@ == self.spec_name(),
    {
        match self {
            Dump::Config => "Config",
            Dump::Data => "Data",
        }
    }

    /// The names of all selectors, in declaration order.
    pub fn variants() -> (r: [&'static str; 2])
        ensures
            r[0]@ == Dump::Config.spec_name(),
            r[1]@ == Dump::Data.spec_name(),
    {
        ["Config", "Data"]
    }

    /// Reads a selector from its name, ignoring the case of letters. Any
    /// other text is refused with the list of valid names.
    pub fn parse(name: &str) -> (r: Result<Dump, String>)
        ensures
            match Dump::spec_parse(name@) {
                Some(d) => r == Ok::<Dump, String>(d),
                None => r is Err && r->Err_0@ == "valid values: Config, Data"@,
            },
    {
        if eq_ignoring_case(name, Dump::Config.name()) {
            Ok(Dump::Config)
        } else if eq_ignoring_case(name, Dump::Data.name()) {
            Ok(Dump::Data)
        } else {
            Err(String::from_str("valid values: Config, Data"))
        }
    }
}

} // verus!
