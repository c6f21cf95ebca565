//! What holds of every merge.

use vstd::prelude::*;
use crate::data::Capabilities;
use crate::document::Document;
use crate::merge::file_name;
use crate::merge::gather;
use crate::merge::key_path;
use crate::merge::step_of;
use crate::merge::DataFile;
use crate::merge::Step;
use crate::namespace::collision_of;
use crate::namespace::occupied;
use crate::namespace::shadowed;
use crate::namespace::taken;
use crate::namespace::Collision;

verus! {

/// Two files with the same relative path and the same content.
pub open spec fn same_content(a: DataFile, b: DataFile) -> bool {
    &&& file_name(a.components@) == file_name(b.components@)
    &&& key_path(a.components@) == key_path(b.components@)
    &&& a.content@ == b.content@
}

/// Merge is a function of what it is given: two lists of files that agree,
/// position by position, in path and content merge to the same leaves, pass
/// over the same positions and end at the same file for the same reason.
pub proof fn lemma_merge_deterministic(a: Seq<DataFile>, b: Seq<DataFile>, caps: Capabilities)
    requires
        a.len() == b.len(),
        forall|i: int| 0 <= i < a.len() ==> same_content(#[trigger] a[i], b[i]),
    ensures
        gather(a, caps) == gather(b, caps),
    decreases a.len(),
{
    if a.len() > 0 {
        lemma_merge_deterministic(a.drop_last(), b.drop_last(), caps);
        assert(same_content(a[a.len() - 1], b[a.len() - 1]));
    }
}

/// Two key paths of which neither leads through the other.
pub open spec fn apart(p: Seq<Seq<char>>, q: Seq<Seq<char>>) -> bool {
    !p.is_prefix_of(q) && !q.is_prefix_of(p)
}

/// No leaf of `a` lies at, above or below a leaf of `b`.
pub open spec fn disjoint(a: Map<Seq<Seq<char>>, Document>, b: Map<Seq<Seq<char>>, Document>) -> bool {
    forall|p: Seq<Seq<char>>, q: Seq<Seq<char>>|
        #![trigger a.dom().contains(p), b.dom().contains(q)]
        a.dom().contains(p) && b.dom().contains(q) ==> apart(p, q)
}

/// A place is free in a namespace exactly when it is apart from every leaf.
pub proof fn lemma_free_place(m: Map<Seq<Seq<char>>, Document>, p: Seq<Seq<char>>)
    ensures
        collision_of(m, p) is None <==> forall|q: Seq<Seq<char>>| #[trigger]
            m.dom().contains(q) ==> apart(q, p),
{
    if collision_of(m, p) is None {
        assert forall|q: Seq<Seq<char>>| #[trigger] m.dom().contains(q) implies apart(q, p) by {
            if q.is_prefix_of(p) {
                if q.len() < p.len() {
                    assert(shadowed(m, p));
                } else {
                    assert(q =~= p);
                    assert(occupied(m, p));
                }
            }
            if p.is_prefix_of(q) {
                assert(occupied(m, p));
            }
        }
    }
}

/// Collision detection: a document is refused exactly where its place is
/// taken, and a second document for a key path that holds one is always
/// refused, whatever else the namespace holds.
pub proof fn lemma_second_is_refused(
    m: Map<Seq<Seq<char>>, Document>,
    p: Seq<Seq<char>>,
    first: Document,
)
    ensures
        collision_of(m, p) is Some <==> taken(m, p),
        collision_of(m.insert(p, first), p) is Some,
{
    assert(m.insert(p, first).dom().contains(p));
    assert(p.is_prefix_of(p));
    assert(occupied(m.insert(p, first), p));
}

/// Leaf and branch in conflict: where one key path leads through another,
/// the namespace cannot hold a document at both. Whichever comes second is
/// refused: the longer one because a document lies on its way, the shorter
/// one because its key is in use.
pub proof fn lemma_leaf_branch_conflict(
    m: Map<Seq<Seq<char>>, Document>,
    short: Seq<Seq<char>>,
    long: Seq<Seq<char>>,
    d: Document,
)
    requires
        short.is_prefix_of(long),
        short.len() < long.len(),
    ensures
        collision_of(m.insert(short, d), long) == Some(Collision::Shadowed),
        collision_of(m.insert(long, d), short) is Some,
{
    assert(m.insert(short, d).dom().contains(short));
    assert(shadowed(m.insert(short, d), long));
    assert(m.insert(long, d).dom().contains(long));
    assert(occupied(m.insert(long, d), short));
}

/// The same conflict, in a merge: two files of which one's key path leads
/// through the other's end the merge in either order, after any files
/// that went before.
pub proof fn lemma_conflict_ends_merge(
    before: Seq<DataFile>,
    a: DataFile,
    b: DataFile,
    caps: Capabilities,
)
    requires
        key_path(a.components@) matches Some(p) && key_path(b.components@) matches Some(q)
            && p.is_prefix_of(q),
    ensures
        gather(before.push(a).push(b), caps) is Err,
        gather(before.push(b).push(a), caps) is Err,
{
    let p = key_path(a.components@)->Some_0;
    let q = key_path(b.components@)->Some_0;
    assert(before.push(a).push(b).drop_last() =~= before.push(a));
    assert(before.push(a).drop_last() =~= before);
    assert(before.push(b).push(a).drop_last() =~= before.push(b));
    assert(before.push(b).drop_last() =~= before);
    if let Ok(g) = gather(before.push(a), caps) {
        let g0 = gather(before, caps)->Ok_0;
        if let Step::Add(_, d) = step_of(g0.leaves, a, caps) {
            assert(g.leaves.dom().contains(p));
            if p.len() < q.len() {
                assert(shadowed(g.leaves, q));
            } else {
                assert(p =~= q);
                assert(q.is_prefix_of(p));
                assert(occupied(g.leaves, q));
            }
        }
    }
    if let Ok(g) = gather(before.push(b), caps) {
        let g0 = gather(before, caps)->Ok_0;
        if let Step::Add(_, d) = step_of(g0.leaves, b, caps) {
            assert(g.leaves.dom().contains(q));
            assert(occupied(g.leaves, p));
        }
    }
}

/// The leaves of a merge that came through are apart from one another.
pub proof fn lemma_leaves_apart(files: Seq<DataFile>, caps: Capabilities)
    requires
        gather(files, caps) is Ok,
    ensures
        forall|p: Seq<Seq<char>>, q: Seq<Seq<char>>|
            #![trigger gather(files, caps)->Ok_0.leaves.dom().contains(p), gather(files, caps)->Ok_0.leaves.dom().contains(q)]
            gather(files, caps)->Ok_0.leaves.dom().contains(p) && gather(
                files,
                caps,
            )->Ok_0.leaves.dom().contains(q) && p != q ==> apart(p, q),
    decreases files.len(),
{
    if files.len() > 0 {
        lemma_leaves_apart(files.drop_last(), caps);
        let g0 = gather(files.drop_last(), caps)->Ok_0;
        let g = gather(files, caps)->Ok_0;
        if let Step::Add(n, d) = step_of(g0.leaves, files.last(), caps) {
            lemma_free_place(g0.leaves, n);
            assert forall|p: Seq<Seq<char>>, q: Seq<Seq<char>>|
                g.leaves.dom().contains(p) && g.leaves.dom().contains(q) && p != q implies apart(
                p,
                q,
            ) by {
                if p == n {
                    assert(g0.leaves.dom().contains(q));
                } else if q == n {
                    assert(g0.leaves.dom().contains(p));
                } else {
                    assert(g0.leaves.dom().contains(p) && g0.leaves.dom().contains(q));
                }
            }
        }
    }
}

/// Merging `b` after `a`, where both merge alone and their leaves are
/// disjoint, gives the leaves of both.
pub proof fn lemma_merge_appends(a: Seq<DataFile>, b: Seq<DataFile>, caps: Capabilities)
    requires
        gather(a, caps) is Ok,
        gather(b, caps) is Ok,
        disjoint(gather(a, caps)->Ok_0.leaves, gather(b, caps)->Ok_0.leaves),
    ensures
        gather(a + b, caps) is Ok,
        gather(a + b, caps)->Ok_0.leaves == gather(a, caps)->Ok_0.leaves.union_prefer_right(
            gather(b, caps)->Ok_0.leaves,
        ),
    decreases b.len(),
{
    let ga = gather(a, caps)->Ok_0;
    let gb = gather(b, caps)->Ok_0;
    if b.len() == 0 {
        assert(a + b =~= a);
        assert(ga.leaves.union_prefer_right(gb.leaves) =~= ga.leaves);
    } else {
        let rest = b.drop_last();
        let f = b.last();
        let gr = gather(rest, caps)->Ok_0;
        assert((a + b).drop_last() =~= a + rest);
        assert((a + b).last() == f);
        assert forall|p: Seq<Seq<char>>| gr.leaves.dom().contains(p) implies gb.leaves.dom().contains(
            p,
        ) by {}
        assert(disjoint(ga.leaves, gr.leaves)) by {
            assert forall|p: Seq<Seq<char>>, q: Seq<Seq<char>>|
                ga.leaves.dom().contains(p) && gr.leaves.dom().contains(q) implies apart(p, q) by {
                assert(gb.leaves.dom().contains(q));
            }
        }
        lemma_merge_appends(a, rest, caps);
        let both = ga.leaves.union_prefer_right(gr.leaves);
        match step_of(gr.leaves, f, caps) {
            Step::Skip => {
                assert(step_of(both, f, caps) == Step::Skip);
            },
            Step::Add(n, d) => {
                assert(gb.leaves.dom().contains(n));
                lemma_free_place(gr.leaves, n);
                assert forall|q: Seq<Seq<char>>| #[trigger] both.dom().contains(q) implies apart(
                    q,
                    n,
                ) by {
                    if !gr.leaves.dom().contains(q) {
                        assert(ga.leaves.dom().contains(q));
                    }
                }
                lemma_free_place(both, n);
                assert(step_of(both, f, caps) == Step::Add(n, d));
                assert(both.insert(n, d) =~= ga.leaves.union_prefer_right(gb.leaves));
            },
            Step::Stop(_) => {},
        }
    }
}

/// Round trip of merges without conflict: two lists of files that merge
/// alone, with disjoint leaves, merge together in either order, and both
/// orders give exactly the leaves of the one and of the other, each at its
/// own key path.
pub proof fn lemma_merge_order(a: Seq<DataFile>, b: Seq<DataFile>, caps: Capabilities)
    requires
        gather(a, caps) is Ok,
        gather(b, caps) is Ok,
        disjoint(gather(a, caps)->Ok_0.leaves, gather(b, caps)->Ok_0.leaves),
    ensures
        gather(a + b, caps) is Ok,
        gather(b + a, caps) is Ok,
        gather(a + b, caps)->Ok_0.leaves == gather(b + a, caps)->Ok_0.leaves,
        forall|p: Seq<Seq<char>>| #[trigger]
            gather(a + b, caps)->Ok_0.leaves.dom().contains(p) <==> gather(
                a,
                caps,
            )->Ok_0.leaves.dom().contains(p) || gather(b, caps)->Ok_0.leaves.dom().contains(p),
        forall|p: Seq<Seq<char>>| #[trigger]
            gather(a, caps)->Ok_0.leaves.dom().contains(p) ==> gather(a + b, caps)->Ok_0.leaves[p]
                == gather(a, caps)->Ok_0.leaves[p],
        forall|p: Seq<Seq<char>>| #[trigger]
            gather(b, caps)->Ok_0.leaves.dom().contains(p) ==> gather(a + b, caps)->Ok_0.leaves[p]
                == gather(b, caps)->Ok_0.leaves[p],
{
    let ga = gather(a, caps)->Ok_0.leaves;
    let gb = gather(b, caps)->Ok_0.leaves;
    lemma_merge_appends(a, b, caps);
    assert(disjoint(gb, ga)) by {
        assert forall|p: Seq<Seq<char>>, q: Seq<Seq<char>>|
            gb.dom().contains(p) && ga.dom().contains(q) implies apart(p, q) by {
            assert(apart(q, p));
        }
    }
    lemma_merge_appends(b, a, caps);
    assert forall|p: Seq<Seq<char>>| !(ga.dom().contains(p) && gb.dom().contains(p)) by {
        if ga.dom().contains(p) && gb.dom().contains(p) {
            assert(apart(p, p));
            assert(p.is_prefix_of(p));
        }
    }
    assert(ga.union_prefer_right(gb) =~= gb.union_prefer_right(ga));
}

} // verus!
