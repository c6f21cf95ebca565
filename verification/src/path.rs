//! Relative paths as lists of components, and the texts derived from them.

use vstd::prelude::*;
use vstd::string::StrSliceExecFns;
use vstd::string::StringExecFns;
use crate::namespace::texts;

verus! {

/// The components joined by `/`, in order.
pub open spec fn joined(parts: Seq<Seq<char>>) -> Seq<char>
    decreases parts.len(),
{
    if parts.len() == 0 {
        Seq::empty()
    } else if parts.len() == 1 {
        parts[0]
    } else {
        joined(parts.drop_last()) + seq!['/'] + parts.last()
    }
}

/// Every component is text.
pub open spec fn all_text(components: Seq<Option<String>>) -> bool {
    forall|i: int| 0 <= i < components.len() ==> (#[trigger] components[i]) is Some
}

/// The texts of the components, where every component is text.
pub open spec fn component_texts(components: Seq<Option<String>>) -> Seq<Seq<char>> {
    Seq::new(components.len(), |i: int| components[i]->Some_0@)
}

/// The components as they are shown in a message: a component that is not
/// text is shown as `?`.
pub open spec fn shown_texts(components: Seq<Option<String>>) -> Seq<Seq<char>> {
    Seq::new(
        components.len(),
        |i: int|
            match components[i] {
                Some(s) => s@,
                None => seq!['?'],
            },
    )
}

/// The path as it is shown in a message: its components joined by `/`.
pub open spec fn shown(components: Seq<Option<String>>) -> Seq<char> {
    joined(shown_texts(components))
}

/// The position of the last `.` in a text, or -1 where it has none.
pub open spec fn last_dot(s: Seq<char>) -> int
    decreases s.len(),
{
    if s.len() == 0 {
        -1
    } else if s.last() == '.' {
        s.len() - 1
    } else {
        last_dot(s.drop_last())
    }
}

/// The extension of a file name: what follows its last `.`, unless the
/// name has no `.`, starts with its only `.`, or is `..`.
pub open spec fn extension_of(name: Seq<char>) -> Option<Seq<char>> {
    if last_dot(name) <= 0 || name == seq!['.', '.'] {
        None
    } else {
        Some(name.skip(last_dot(name) + 1))
    }
}

/// Compares two texts.
pub fn same_text(a: &str, b: &str) -> (r: bool)
    ensures
        r == (a@ == b@),
{
    let n: usize = a.unicode_len();
    if b.unicode_len() != n {
        return false;
    }
    let mut i: usize = 0;
    while i < n
        invariant
            i <= n,
            n == a@.len(),
            n == b@.len(),
            forall|j: int| 0 <= j < i ==> a@[j] == b@[j],
        decreases n - i,
    {
        if a.get_char(i) != b.get_char(i) {
            return false;
        }
        i = i + 1;
    }
    assert(a@ =~= b@);
    true
}

/// The extension of a file name, as `extension_of` defines it.
pub fn extension(name: &str) -> (r: Option<String>)
    ensures
        match extension_of(name@) {
            Some(e) => r is Some && r->Some_0@ == e,
            None => r is None,
        },
{
    let n: usize = name.unicode_len();
    let mut i: usize = n;
    assert(name@.take(n as int) =~= name@);
    while i > 0
        invariant
            i <= n,
            n == name@.len(),
            last_dot(name@) == last_dot(name@.take(i as int)),
        decreases i,
    {
        let ghost head = name@.take(i as int);
        assert(head.drop_last() =~= name@.take(i - 1));
        if name.get_char(i - 1) == '.' {
            assert(last_dot(name@) == i - 1);
            if i == 1 {
                return None;
            }
            if n == 2 && name.get_char(0) == '.' {
                assert(name@ =~= seq!['.', '.']);
                return None;
            }
            assert(name@ != seq!['.', '.']) by {
                if name@ == seq!['.', '.'] {
                    assert(seq!['.', '.'].len() == 2);
                    assert(seq!['.', '.'][0] == '.');
                }
            }
            let rest = name.substring_char(i, n);
            assert(name@.subrange(i as int, n as int) =~= name@.skip(i as int));
            return Some(String::from_str(rest));
        }
        i = i - 1;
    }
    assert(name@.take(0).len() == 0);
    None
}

/// Joins the components by `/`.
pub fn join(parts: &[String]) -> (r: String)
    ensures
        r@ == joined(texts(parts@)),
{
    let mut r = String::new();
    let mut i: usize = 0;
    while i < parts.len()
        invariant
            i <= parts@.len(),
            r@ == joined(texts(parts@).take(i as int)),
        decreases parts@.len() - i,
    {
        let ghost done = texts(parts@).take(i as int);
        let ghost next = texts(parts@).take(i + 1);
        proof {
            assert(next.drop_last() =~= done);
            assert(next.last() == parts@[i as int]@);
        }
        if i > 0 {
            r.append("/");
            proof {
                reveal_strlit("/");
                assert("/"@ =~= seq!['/']);
            }
        }
        r.append(parts[i].as_str());
        proof {
            if i == 0 {
                assert(done.len() == 0);
                assert(r@ =~= next[0]);
            }
        }
        i = i + 1;
    }
    assert(texts(parts@).take(parts@.len() as int) =~= texts(parts@));
    r
}

/// The path as it is shown in a message: the components joined by `/`, a
/// component that is not text shown as `?`.
pub fn show(components: &[Option<String>]) -> (r: String)
    ensures
        r@ == shown(components@),
        all_text(components@) ==> r@ == joined(component_texts(components@)),
{
    let mut parts: Vec<String> = Vec::new();
    let mut i: usize = 0;
    while i < components.len()
        invariant
            i <= components@.len(),
            parts@.len() == i,
            forall|j: int| 0 <= j < i ==> parts@[j]@ == shown_texts(components@)[j],
        decreases components@.len() - i,
    {
        match &components[i] {
            Some(s) => {
                parts.push(s.clone());
            },
            None => {
                proof {
                    reveal_strlit("?");
                    assert("?"@ =~= seq!['?']);
                }
                parts.push(String::from_str("?"));
            },
        }
        i = i + 1;
    }
    proof {
        assert(texts(parts@) =~= shown_texts(components@));
        if all_text(components@) {
            assert(shown_texts(components@) =~= component_texts(components@));
        }
    }
    join(parts.as_slice())
}

/// The components as texts, or `None` where one of them is not text.
pub fn to_texts(components: &[Option<String>]) -> (r: Option<Vec<String>>)
    ensures
        match r {
            Some(v) => all_text(components@) && texts(v@) == component_texts(components@),
            None => !all_text(components@),
        },
{
    let mut v: Vec<String> = Vec::new();
    let mut i: usize = 0;
    while i < components.len()
        invariant
            i <= components@.len(),
            v@.len() == i,
            forall|j: int| 0 <= j < i ==> (#[trigger] components@[j]) is Some,
            forall|j: int| 0 <= j < i ==> v@[j]@ == components@[j]->Some_0@,
        decreases components@.len() - i,
    {
        match &components[i] {
            Some(s) => {
                v.push(s.clone());
            },
            None => {
                return None;
            },
        }
        i = i + 1;
    }
    assert(texts(v@) =~= component_texts(components@));
    Some(v)
}

} // verus!
