//! Merging data files into one namespace.
//!
//! Each file goes under the directories of its path relative to its data
//! root, with its full file name as the final key. Files are taken in the
//! order given; the first failure ends the merge.
//!
//! A file is parsed before its place is looked for, so a malformed file
//! ends the merge wherever it lies. A file whose name is not text is
//! passed over unread, for no format can be told from such a name; a file
//! under a directory whose name is not text is parsed and then passed over.

use vstd::prelude::*;
use crate::data::load_data;
use crate::data::loaded;
use crate::data::Capabilities;
use crate::data::DataFormat;
use crate::data::Loaded;
use crate::document::Document;
use crate::error::Failure;
use crate::namespace::collision_of;
use crate::namespace::insert;
use crate::namespace::texts;
use crate::namespace::Collision;
use crate::namespace::Namespace;
use crate::path::all_text;
use crate::path::component_texts;
use crate::path::show;
use crate::path::shown;
use crate::path::to_texts;

verus! {

/// A data file as it was found under a data root.
#[derive(Debug)]
pub struct DataFile {
    /// The components of the file's path relative to its data root, the
    /// file name last; `None` for a component that is not valid text.
    pub components: Vec<Option<String>>,
    /// The content of the file.
    pub content: Vec<u8>,
}

/// The key path of a file: its components, where there is at least one and
/// all of them are text.
pub open spec fn key_path(components: Seq<Option<String>>) -> Option<Seq<Seq<char>>> {
    if components.len() > 0 && all_text(components) {
        Some(component_texts(components))
    } else {
        None
    }
}

/// The name of a file: its last component, where that is text.
pub open spec fn file_name(components: Seq<Option<String>>) -> Option<Seq<char>> {
    if components.len() > 0 && components.last() is Some {
        Some(components.last()->Some_0@)
    } else {
        None
    }
}

/// Why a merge ended.
pub enum Why {
    /// No available format goes with the file's name.
    Unsupported,
    /// The parser of the format refused the file's content.
    Malformed(DataFormat),
    /// The file's place in the namespace is taken.
    Duplicate(Collision),
}

/// What one file does to the leaves gathered before it.
pub enum Step {
    /// The path is not text: the file is passed over.
    Skip,
    /// The file's document goes under this key path.
    Add(Seq<Seq<char>>, Document),
    /// The merge ends here.
    Stop(Why),
}

/// What `file` does to the leaves `m`. Its name selects the parser and
/// its content is parsed; only then is its path read and its place looked
/// for.
pub open spec fn step_of(m: Map<Seq<Seq<char>>, Document>, file: DataFile, caps: Capabilities) -> Step {
    match file_name(file.components@) {
        None => Step::Skip,
        Some(name) => match loaded(name, file.content@, caps) {
            Loaded::Unsupported => Step::Stop(Why::Unsupported),
            Loaded::Malformed(format) => Step::Stop(Why::Malformed(format)),
            Loaded::Parsed(d) => match key_path(file.components@) {
                None => Step::Skip,
                Some(p) => match collision_of(m, p) {
                    Some(c) => Step::Stop(Why::Duplicate(c)),
                    None => Step::Add(p, d),
                },
            },
        },
    }
}

/// The failure `f` tells why the file with the given path ended the merge.
pub open spec fn tells(f: Failure, why: Why, components: Seq<Option<String>>) -> bool {
    match why {
        Why::Unsupported => f matches Failure::UnsupportedFormat { name } && name@ == shown(
            components,
        ),
        Why::Malformed(format) => f matches Failure::Parse { path, cause } && path@ == shown(
            components,
        ) && cause.spec_format() == format,
        Why::Duplicate(c) => f matches Failure::DuplicateKey { keys, collision } && collision == c
            && Some(texts(keys@)) == key_path(components),
    }
}

/// The leaves gathered from a list of files, and the positions of the
/// files that were passed over.
pub struct Gathered {
    pub leaves: Map<Seq<Seq<char>>, Document>,
    pub skipped: Seq<int>,
}

/// The merge of a list of files, taken in order: what was gathered, or the
/// position of the file that ended the merge and why.
pub open spec fn gather(files: Seq<DataFile>, caps: Capabilities) -> Result<Gathered, (int, Why)>
    decreases files.len(),
{
    if files.len() == 0 {
        Ok(Gathered { leaves: Map::empty(), skipped: Seq::empty() })
    } else {
        match gather(files.drop_last(), caps) {
            Err(stop) => Err(stop),
            Ok(g) => match step_of(g.leaves, files.last(), caps) {
                Step::Skip => Ok(
                    Gathered { leaves: g.leaves, skipped: g.skipped.push(files.len() - 1) },
                ),
                Step::Add(p, d) => Ok(Gathered { leaves: g.leaves.insert(p, d), skipped: g.skipped }),
                Step::Stop(why) => Err((files.len() - 1, why)),
            },
        }
    }
}

/// Merges one file into the namespace. `Ok(true)`: its document was added.
/// `Ok(false)`: its path is not text and the file was passed over. On a
/// failure the namespace is as it was. A failure names the file by its
/// path, a component that is not text shown as `?`.
pub fn merge_file(object: &mut Namespace, file: &DataFile, caps: &Capabilities) -> (r: Result<
    bool,
    Failure,
>)
    requires
        old(object).wf(),
    ensures
        final(object).wf(),
        match step_of(old(object)@, *file, *caps) {
            Step::Skip => r matches Ok(added) && !added && *final(object) == *old(object),
            Step::Add(p, d) => r matches Ok(added) && added && final(object)@ == old(object)@.insert(
                p,
                d,
            ),
            Step::Stop(why) => r matches Err(f) && tells(f, why, file.components@) && *final(object)
                == *old(object),
        },
{
    let n = file.components.len();
    if n == 0 {
        return Ok(false);
    }
    let name = match &file.components[n - 1] {
        Some(name) => name,
        None => {
            return Ok(false);
        },
    };
    let document = match load_data(name.as_str(), file.content.as_slice(), caps) {
        Ok(document) => document,
        Err(Failure::UnsupportedFormat { name: _ }) => {
            return Err(Failure::UnsupportedFormat { name: show(file.components.as_slice()) });
        },
        Err(Failure::Parse { path: _, cause }) => {
            return Err(Failure::Parse { path: show(file.components.as_slice()), cause });
        },
        Err(other) => {
            return Err(other);
        },
    };
    let mut keys = match to_texts(file.components.as_slice()) {
        Some(keys) => keys,
        None => {
            return Ok(false);
        },
    };
    let ghost p = texts(keys@);
    assert(keys@.len() == n) by {
        assert(texts(keys@).len() == file.components@.len());
    }
    let key = keys.pop().unwrap();
    assert(texts(keys@).push(key@) =~= p);
    match insert(object, keys.as_slice(), key, document) {
        Ok(()) => Ok(true),
        Err(f) => Err(f),
    }
}

/// A merged namespace, with the positions of the files passed over
/// because their paths are not text.
#[derive(Debug)]
pub struct Merged {
    pub namespace: Namespace,
    pub skipped: Vec<usize>,
}

/// Merges the data files of all roots, given in root order and within a
/// root in discovery order, into one namespace. The first file that is
/// unsupported, malformed or in collision ends the merge, and no namespace
/// comes back.
pub fn merge(files: &[DataFile], caps: &Capabilities) -> (r: Result<Merged, Failure>)
    ensures
        match gather(files@, *caps) {
            Ok(g) => r matches Ok(m) && m.namespace.wf() && m.namespace@ == g.leaves
                && m.skipped@.len() == g.skipped.len() && forall|i: int|
                0 <= i < g.skipped.len() ==> m.skipped@[i] == g.skipped[i],
            Err((at, why)) => r matches Err(f) && 0 <= at < files@.len() && tells(
                f,
                why,
                files@[at].components@,
            ),
        },
{
    let mut namespace = Namespace::new();
    let mut skipped: Vec<usize> = Vec::new();
    let mut i: usize = 0;
    assert(files@.take(0) =~= Seq::<DataFile>::empty());
    while i < files.len()
        invariant
            i <= files@.len(),
            namespace.wf(),
            gather(files@.take(i as int), *caps) matches Ok(g) && namespace@ == g.leaves
                && skipped@.len() == g.skipped.len() && forall|j: int|
                0 <= j < g.skipped.len() ==> skipped@[j] == g.skipped[j],
        decreases files@.len() - i,
    {
        proof {
            assert(files@.take(i + 1).drop_last() =~= files@.take(i as int));
            assert(files@.take(i + 1).last() == files@[i as int]);
            lemma_gather_stops(files@, i + 1, *caps);
        }
        match merge_file(&mut namespace, &files[i], caps) {
            Ok(true) => {},
            Ok(false) => {
                skipped.push(i);
            },
            Err(f) => {
                return Err(f);
            },
        }
        i = i + 1;
    }
    assert(files@.take(files@.len() as int) =~= files@);
    Ok(Merged { namespace, skipped })
}

/// A merge that has ended stays ended: what ends the merge of the first
/// `n` files ends the merge of all of them.
pub proof fn lemma_gather_stops(files: Seq<DataFile>, n: int, caps: Capabilities)
    requires
        0 <= n <= files.len(),
    ensures
        gather(files.take(n), caps) is Err ==> gather(files, caps) == gather(files.take(n), caps),
        gather(files.take(n), caps) matches Err((at, why)) ==> 0 <= at < n,
    decreases files.len(),
{
    if n == files.len() {
        assert(files.take(n) =~= files);
        if files.len() > 0 {
            assert(files.drop_last() =~= files.take(n - 1));
            lemma_gather_stops(files.drop_last(), n - 1, caps);
            assert(files.drop_last().take(n - 1) =~= files.drop_last());
        }
    } else {
        assert(files.drop_last().take(n) =~= files.take(n));
        lemma_gather_stops(files.drop_last(), n, caps);
    }
}

} // verus!
