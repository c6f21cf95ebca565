//! The namespace: a tree of mappings whose leaves are parsed documents,
//! addressed by key path and closed to overwriting.

use vstd::prelude::*;
use crate::document::Document;
use crate::error::Failure;

verus! {

/// The texts of a list of strings.
pub open spec fn texts(s: Seq<String>) -> Seq<Seq<char>> {
    Seq::new(s.len(), |i: int| s[i]@)
}

/// Some leaf of `m` lies on the way to `p`: its path is a proper prefix of `p`.
pub open spec fn shadowed(m: Map<Seq<Seq<char>>, Document>, p: Seq<Seq<char>>) -> bool {
    exists|q: Seq<Seq<char>>| #[trigger] m.dom().contains(q) && q.len() < p.len() && q.is_prefix_of(p)
}

/// The place `p` is in use in `m`: a leaf sits at `p` or below it.
pub open spec fn occupied(m: Map<Seq<Seq<char>>, Document>, p: Seq<Seq<char>>) -> bool {
    exists|q: Seq<Seq<char>>| #[trigger] m.dom().contains(q) && p.is_prefix_of(q)
}

/// A new leaf at `p` would collide with a leaf of `m`.
pub open spec fn taken(m: Map<Seq<Seq<char>>, Document>, p: Seq<Seq<char>>) -> bool {
    shadowed(m, p) || occupied(m, p)
}

/// How a new leaf collides with what the namespace holds.
#[derive(Debug, Clone, Copy, PartialEq, Eq, Structural)]
pub enum Collision {
    /// A component of the path is a document, not a mapping.
    Shadowed,
    /// The key is in use where the document would go.
    Occupied,
}

/// A node of the tree.
#[derive(Debug)]
pub enum Node {
    /// One parsed document.
    Leaf(Document),
    /// A mapping from keys to nodes.
    Branch(Namespace),
}

/// A key of a mapping with the node it leads to.
#[derive(Debug)]
pub struct Entry {
    pub key: String,
    pub node: Node,
}

/// A mapping from keys to nodes; the root of the tree is one.
#[derive(Debug)]
pub struct Namespace {
    entries: Vec<Entry>,
}

impl View for Namespace {
    type V = Map<Seq<Seq<char>>, Document>;

    /// The leaves of the tree, each under its full key path.
    closed spec fn view(&self) -> Map<Seq<Seq<char>>, Document> {
        Map::new(
            |p: Seq<Seq<char>>| self.at(p) matches Some(Node::Leaf(_)),
            |p: Seq<Seq<char>>| self.at(p)->Some_0->Leaf_0,
        )
    }
}

impl Namespace {
    /// The entries of this mapping, in the order they were added.
    pub closed spec fn items(self) -> Seq<Entry> {
        self.entries@
    }

    /// Entry `i` has the key `key`.
    spec fn keyed(self, i: int, key: Seq<char>) -> bool {
        0 <= i < self.entries@.len() && self.entries@[i].key@ == key
    }

    /// The node directly under `key`, if the mapping has that key.
    spec fn child(self, key: Seq<char>) -> Option<Node> {
        if exists|i: int| self.keyed(i, key) {
            Some(self.entries@[choose|i: int| self.keyed(i, key)].node)
        } else {
            None
        }
    }

    /// The node at the end of a key path, if the path leads to one.
    pub closed spec fn at(self, p: Seq<Seq<char>>) -> Option<Node>
        decreases p.len(),
    {
        if p.len() == 0 {
            None
        } else {
            match self.child(p[0]) {
                None => None,
                Some(node) => if p.len() == 1 {
                    Some(node)
                } else {
                    match node {
                        Node::Leaf(_) => None,
                        Node::Branch(sub) => sub.at(p.drop_first()),
                    }
                },
            }
        }
    }

    /// No key occurs twice in a mapping, and every mapping below the root
    /// holds at least one entry.
    pub closed spec fn wf(self) -> bool
        decreases self,
    {
        &&& forall|i: int, j: int|
            0 <= i < j < self.entries@.len() ==> self.entries@[i].key@ != self.entries@[j].key@
        &&& forall|i: int|
            0 <= i < self.entries@.len() ==> (#[trigger] self.entries@[i].node matches Node::Branch(sub)
                ==> sub.entries@.len() > 0 && sub.wf())
    }

    /// How a new leaf at `p` collides with the tree, read off the tree itself.
    spec fn clash(self, p: Seq<Seq<char>>) -> Option<Collision>
        decreases p.len(),
    {
        if p.len() == 0 {
            None
        } else {
            match self.child(p[0]) {
                None => None,
                Some(Node::Leaf(_)) => if p.len() == 1 {
                    Some(Collision::Occupied)
                } else {
                    Some(Collision::Shadowed)
                },
                Some(Node::Branch(sub)) => if p.len() == 1 {
                    Some(Collision::Occupied)
                } else {
                    sub.clash(p.drop_first())
                },
            }
        }
    }

    /// An empty namespace.
    pub fn new() -> (r: Namespace)
        ensures
            r.wf(),
            r.items().len() == 0,
            r@ == Map::<Seq<Seq<char>>, Document>::empty(),
    {
        let r = Namespace { entries: Vec::new() };
        proof {
            assert forall|p: Seq<Seq<char>>| !(#[trigger] r@.dom().contains(p)) by {
                assert(forall|i: int| !r.keyed(i, p[0]));
                r.lemma_child_none(p[0]);
            }
            assert(r@ =~= Map::<Seq<Seq<char>>, Document>::empty());
        }
        r
    }

    /// A key that no entry has leads nowhere.
    proof fn lemma_child_none(self, key: Seq<char>)
        requires
            forall|i: int| !self.keyed(i, key),
        ensures
            self.child(key) is None,
    {
    }

    /// Where keys are distinct, the key of entry `i` leads to its node.
    proof fn lemma_child_some(self, i: int)
        requires
            self.wf(),
            0 <= i < self.entries@.len(),
        ensures
            self.child(self.entries@[i].key@) == Some(self.entries@[i].node),
    {
        let key = self.entries@[i].key@;
        assert(self.keyed(i, key));
        let j = choose|j: int| self.keyed(j, key);
        assert(self.keyed(j, key));
        assert(i == j);
    }

    /// Membership in the view, one level down.
    proof fn lemma_view_step(self, q: Seq<Seq<char>>)
        ensures
            self@.dom().contains(q) <==> q.len() > 0 && match self.child(q[0]) {
                None => false,
                Some(Node::Leaf(_)) => q.len() == 1,
                Some(Node::Branch(sub)) => q.len() > 1 && sub@.dom().contains(q.drop_first()),
            },
            self@.dom().contains(q) ==> self@[q] == match self.child(q[0]) {
                Some(Node::Branch(sub)) => sub@[q.drop_first()],
                Some(Node::Leaf(d)) => d,
                None => self@[q],
            },
    {
    }

    /// The path of the first leaf in entry order.
    spec fn some_leaf(self) -> Seq<Seq<char>>
        decreases self,
    {
        if self.entries@.len() == 0 {
            Seq::empty()
        } else {
            match self.entries@[0].node {
                Node::Leaf(_) => seq![self.entries@[0].key@],
                Node::Branch(sub) => seq![self.entries@[0].key@] + sub.some_leaf(),
            }
        }
    }

    /// A well-formed mapping with an entry holds a leaf.
    proof fn lemma_has_leaf(self)
        requires
            self.wf(),
            self.entries@.len() > 0,
        ensures
            self@.dom().contains(self.some_leaf()),
        decreases self,
    {
        let q = self.some_leaf();
        self.lemma_child_some(0);
        self.lemma_view_step(q);
        match self.entries@[0].node {
            Node::Leaf(_) => {},
            Node::Branch(sub) => {
                sub.lemma_has_leaf();
                assert(q.drop_first() =~= sub.some_leaf());
            },
        }
    }

    /// Below a mapping under `p[0]`, collisions with `p` are those of the
    /// mapping with the rest of `p`.
    proof fn lemma_descend(self, sub: Namespace, p: Seq<Seq<char>>)
        requires
            p.len() > 1,
            self.child(p[0]) == Some(Node::Branch(sub)),
        ensures
            shadowed(self@, p) <==> shadowed(sub@, p.drop_first()),
            occupied(self@, p) <==> occupied(sub@, p.drop_first()),
    {
        let rest = p.drop_first();
        if shadowed(self@, p) {
            let q = choose|q: Seq<Seq<char>>| #[trigger]
                self@.dom().contains(q) && q.len() < p.len() && q.is_prefix_of(p);
            self.lemma_view_step(q);
            assert(q[0] == p[0]);
            assert(q.drop_first().is_prefix_of(rest));
            assert(sub@.dom().contains(q.drop_first()));
        }
        if occupied(self@, p) {
            let q = choose|q: Seq<Seq<char>>| #[trigger] self@.dom().contains(q) && p.is_prefix_of(q);
            self.lemma_view_step(q);
            assert(q[0] == p[0]);
            assert(rest.is_prefix_of(q.drop_first()));
            assert(sub@.dom().contains(q.drop_first()));
        }
        if shadowed(sub@, rest) {
            let r = choose|r: Seq<Seq<char>>| #[trigger]
                sub@.dom().contains(r) && r.len() < rest.len() && r.is_prefix_of(rest);
            let q = seq![p[0]] + r;
            assert(q.drop_first() =~= r);
            self.lemma_view_step(q);
            assert(q.is_prefix_of(p));
            assert(self@.dom().contains(q));
        }
        if occupied(sub@, rest) {
            let r = choose|r: Seq<Seq<char>>| #[trigger] sub@.dom().contains(r) && rest.is_prefix_of(r);
            let q = seq![p[0]] + r;
            assert(q.drop_first() =~= r);
            self.lemma_view_step(q);
            assert forall|i: int| 0 <= i < p.len() implies p[i] == q[i] by {
                if i > 0 {
                    assert(rest[i - 1] == r.subrange(0, rest.len() as int)[i - 1]);
                }
            }
            assert(p =~= q.subrange(0, p.len() as int));
            assert(p.is_prefix_of(q));
            assert(self@.dom().contains(q));
        }
    }

    /// What the tree says of a collision is what its leaves say.
    proof fn lemma_clash(self, p: Seq<Seq<char>>)
        requires
            self.wf(),
            p.len() > 0,
        ensures
            self.clash(p) == collision_of(self@, p),
        decreases p.len(),
    {
        let k = p[0];
        assert forall|q: Seq<Seq<char>>| #[trigger] self@.dom().contains(q) implies q.len() > 0
            && self.child(q[0]) is Some by {
            self.lemma_view_step(q);
        }
        match self.child(k) {
            None => {
                assert(!shadowed(self@, p));
                assert(!occupied(self@, p));
            },
            Some(Node::Leaf(_)) => {
                let q = seq![k];
                self.lemma_view_step(q);
                assert(self@.dom().contains(q));
                if p.len() == 1 {
                    assert(p.is_prefix_of(q));
                    assert(!shadowed(self@, p));
                } else {
                    assert(q.is_prefix_of(p));
                }
            },
            Some(Node::Branch(sub)) => {
                let i = choose|i: int| self.keyed(i, k);
                assert(self.keyed(i, k));
                assert(self.entries@[i].node == Node::Branch(sub));
                assert(sub.wf() && sub.entries@.len() > 0);
                if p.len() == 1 {
                    sub.lemma_has_leaf();
                    let q = seq![k] + sub.some_leaf();
                    assert(q.drop_first() =~= sub.some_leaf());
                    self.lemma_view_step(q);
                    assert(p.is_prefix_of(q));
                    assert(self@.dom().contains(q));
                    assert(!shadowed(self@, p));
                } else {
                    sub.lemma_clash(p.drop_first());
                    self.lemma_descend(sub, p);
                }
            },
        }
    }

    /// The index of the entry with the given key.
    fn position(&self, key: &String) -> (r: Option<usize>)
        ensures
            match r {
                Some(i) => self.keyed(i as int, key@),
                None => forall|j: int| !self.keyed(j, key@),
            },
    {
        let mut i: usize = 0;
        while i < self.entries.len()
            invariant
                i <= self.entries@.len(),
                forall|j: int| 0 <= j < i ==> self.entries@[j].key@ != key@,
            decreases self.entries@.len() - i,
        {
            if self.entries[i].key == *key {
                return Some(i);
            }
            i = i + 1;
        }
        None
    }

    /// How a new leaf under `path[from..]` and `key` would collide.
    fn collision(&self, path: &[String], from: usize, key: &String) -> (r: Option<Collision>)
        requires
            self.wf(),
            from <= path@.len(),
        ensures
            r == self.clash(tail(path@, from as int, key@)),
        decreases path@.len() - from,
    {
        let ghost p = tail(path@, from as int, key@);
        if from == path.len() {
            match self.position(key) {
                None => {
                    proof {
                        self.lemma_child_none(key@);
                    }
                    None
                },
                Some(i) => {
                    proof {
                        self.lemma_child_some(i as int);
                    }
                    Some(Collision::Occupied)
                },
            }
        } else {
            proof {
                lemma_tail_step(path@, from as int, key@);
            }
            match self.position(&path[from]) {
                None => {
                    proof {
                        self.lemma_child_none(path@[from as int]@);
                    }
                    None
                },
                Some(i) => {
                    proof {
                        self.lemma_child_some(i as int);
                    }
                    match &self.entries[i].node {
                        Node::Leaf(_) => Some(Collision::Shadowed),
                        Node::Branch(sub) => sub.collision(path, from + 1, key),
                    }
                },
            }
        }
    }
    /// `new` is `old` with `node` under `k` and every other key as before.
    spec fn grafted(old: Namespace, new: Namespace, k: Seq<char>, node: Node) -> bool {
        &&& new.child(k) == Some(node)
        &&& forall|k2: Seq<char>| k2 != k ==> #[trigger] new.child(k2) == old.child(k2)
    }

    /// The leaves below the mapping under `k`; none where `k` leads to no mapping.
    spec fn below(self, k: Seq<char>) -> Map<Seq<Seq<char>>, Document> {
        match self.child(k) {
            Some(Node::Branch(sub)) => sub@,
            _ => Map::empty(),
        }
    }

    /// Two non-empty paths with the same first key are equal where their
    /// rests are.
    proof fn lemma_same_rest(p: Seq<Seq<char>>, q: Seq<Seq<char>>)
        requires
            p.len() > 0,
            q.len() > 0,
            p[0] == q[0],
            p.drop_first() == q.drop_first(),
        ensures
            p == q,
    {
        assert(p.len() == q.len()) by {
            assert(p.drop_first().len() == p.len() - 1);
            assert(q.drop_first().len() == q.len() - 1);
        }
        assert forall|i: int| 0 <= i < p.len() implies p[i] == q[i] by {
            if i > 0 {
                assert(p[i] == p.drop_first()[i - 1]);
                assert(q[i] == q.drop_first()[i - 1]);
            }
        }
        assert(p =~= q);
    }

    /// What grafting does to the view at one path `q`.
    proof fn lemma_graft_at(
        old: Namespace,
        new: Namespace,
        node: Node,
        p: Seq<Seq<char>>,
        value: Document,
        q: Seq<Seq<char>>,
    )
        requires
            p.len() > 0,
            Self::grafted(old, new, p[0], node),
            p.len() == 1 ==> old.child(p[0]) is None && node == Node::Leaf(value),
            p.len() > 1 ==> !(old.child(p[0]) matches Some(Node::Leaf(_))) && (node matches Node::Branch(
                sub,
            ) && sub@ == old.below(p[0]).insert(p.drop_first(), value)),
        ensures
            new@.dom().contains(q) == old@.insert(p, value).dom().contains(q),
            new@.dom().contains(q) ==> new@[q] == old@.insert(p, value)[q],
    {
        new.lemma_view_step(q);
        old.lemma_view_step(q);
        if q.len() == 0 {
            assert(q != p);
        } else if q[0] != p[0] {
            assert(q != p);
            assert(new.child(q[0]) == old.child(q[0]));
        } else {
            assert(new.child(q[0]) == Some(node));
            if p.len() == 1 {
                if q.len() == 1 {
                    assert(q =~= p);
                } else {
                    assert(q != p);
                }
            } else {
                if q.len() > 1 {
                    if q.drop_first() == p.drop_first() {
                        Self::lemma_same_rest(p, q);
                    } else {
                        assert(q != p);
                    }
                } else {
                    assert(q != p);
                }
            }
        }
    }

    /// Grafting a leaf, or a mapping that gained one leaf, adds that leaf
    /// to the view and changes nothing else.
    proof fn lemma_graft_view(
        old: Namespace,
        new: Namespace,
        node: Node,
        p: Seq<Seq<char>>,
        value: Document,
    )
        requires
            p.len() > 0,
            Self::grafted(old, new, p[0], node),
            p.len() == 1 ==> old.child(p[0]) is None && node == Node::Leaf(value),
            p.len() > 1 ==> !(old.child(p[0]) matches Some(Node::Leaf(_))) && (node matches Node::Branch(
                sub,
            ) && sub@ == old.below(p[0]).insert(p.drop_first(), value)),
        ensures
            new@ == old@.insert(p, value),
    {
        let goal = old@.insert(p, value);
        assert forall|q: Seq<Seq<char>>| new@.dom().contains(q) == goal.dom().contains(q) by {
            Self::lemma_graft_at(old, new, node, p, value, q);
        }
        assert forall|q: Seq<Seq<char>>| #[trigger] new@.dom().contains(q) implies new@[q]
            == goal[q] by {
            Self::lemma_graft_at(old, new, node, p, value, q);
        }
        assert(new@ =~= goal);
    }

    /// Adding an entry under a new key grafts its node and keeps the tree
    /// well formed.
    proof fn lemma_pushed(old: Namespace, new: Namespace, e: Entry)
        requires
            old.wf(),
            new.entries@ == old.entries@.push(e),
            forall|i: int| !old.keyed(i, e.key@),
            e.node matches Node::Branch(sub) ==> sub.entries@.len() > 0 && sub.wf(),
        ensures
            new.wf(),
            Self::grafted(old, new, e.key@, e.node),
    {
        let n = old.entries@.len() as int;
        assert forall|i: int, j: int| 0 <= i < j < new.entries@.len() implies new.entries@[i].key@
            != new.entries@[j].key@ by {
            assert(!old.keyed(i, e.key@));
        }
        assert(new.wf());
        new.lemma_child_some(n);
        assert forall|k2: Seq<char>| k2 != e.key@ implies #[trigger] new.child(k2) == old.child(
            k2,
        ) by {
            if exists|i: int| old.keyed(i, k2) {
                let i = choose|i: int| old.keyed(i, k2);
                old.lemma_child_some(i);
                new.lemma_child_some(i);
            } else {
                assert forall|j: int| !new.keyed(j, k2) by {
                    if new.keyed(j, k2) {
                        assert(old.keyed(j, k2));
                    }
                }
                new.lemma_child_none(k2);
                old.lemma_child_none(k2);
            }
        }
    }

    /// Putting another node under the key of entry `i` grafts that node
    /// and keeps the tree well formed.
    proof fn lemma_replaced(old: Namespace, new: Namespace, i: int, e: Entry)
        requires
            old.wf(),
            0 <= i < old.entries@.len(),
            new.entries@ == old.entries@.update(i, e),
            e.key@ == old.entries@[i].key@,
            e.node matches Node::Branch(sub) ==> sub.entries@.len() > 0 && sub.wf(),
        ensures
            new.wf(),
            Self::grafted(old, new, e.key@, e.node),
    {
        assert forall|a: int, b: int| 0 <= a < b < new.entries@.len() implies new.entries@[a].key@
            != new.entries@[b].key@ by {
            assert(new.entries@[a].key@ == old.entries@[a].key@);
            assert(new.entries@[b].key@ == old.entries@[b].key@);
        }
        assert forall|a: int| 0 <= a < new.entries@.len() implies (
        #[trigger] new.entries@[a].node matches Node::Branch(sub) ==> sub.entries@.len() > 0
            && sub.wf()) by {
            if a != i {
                assert(new.entries@[a].node == old.entries@[a].node);
            }
        }
        assert(new.wf());
        new.lemma_child_some(i);
        assert forall|k2: Seq<char>| k2 != e.key@ implies #[trigger] new.child(k2) == old.child(
            k2,
        ) by {
            if exists|j: int| old.keyed(j, k2) {
                let j = choose|j: int| old.keyed(j, k2);
                old.lemma_child_some(j);
                new.lemma_child_some(j);
            } else {
                assert forall|j: int| !new.keyed(j, k2) by {
                    if new.keyed(j, k2) {
                        assert(old.keyed(j, k2));
                    }
                }
                new.lemma_child_none(k2);
                old.lemma_child_none(k2);
            }
        }
    }

    /// Adds a leaf under `path[from..]` and `key` where nothing is in its way.
    fn put(&mut self, path: &[String], from: usize, key: String, value: Document)
        requires
            old(self).wf(),
            from <= path@.len(),
            old(self).clash(tail(path@, from as int, key@)) is None,
        ensures
            final(self).wf(),
            final(self).entries@.len() > 0,
            final(self)@ == old(self)@.insert(tail(path@, from as int, key@), value),
        decreases path@.len() - from,
    {
        let ghost before = *self;
        let ghost p = tail(path@, from as int, key@);
        if from == path.len() {
            let entry = Entry { key, node: Node::Leaf(value) };
            let ghost e = entry;
            self.entries.push(entry);
            proof {
                assert(p =~= seq![e.key@]);
                Self::lemma_pushed(before, *self, e);
                Self::lemma_graft_view(before, *self, e.node, p, value);
            }
        } else {
            proof {
                lemma_tail_step(path@, from as int, key@);
            }
            let c = path[from].clone();
            match self.position(&c) {
                None => {
                    let mut sub = Namespace::new();
                    proof {
                        sub.lemma_child_none(p.drop_first()[0]);
                        before.lemma_child_none(c@);
                    }
                    sub.put(path, from + 1, key, value);
                    let entry = Entry { key: c, node: Node::Branch(sub) };
                    let ghost e = entry;
                    self.entries.push(entry);
                    proof {
                        Self::lemma_pushed(before, *self, e);
                        Self::lemma_graft_view(before, *self, e.node, p, value);
                    }
                },
                Some(i) => {
                    proof {
                        before.lemma_child_some(i as int);
                    }
                    let found = self.entries.remove(i);
                    match found.node {
                        Node::Branch(mut sub) => {
                            sub.put(path, from + 1, key, value);
                            let entry = Entry { key: found.key, node: Node::Branch(sub) };
                            let ghost e = entry;
                            self.entries.insert(i, entry);
                            proof {
                                assert(self.entries@ =~= before.entries@.update(i as int, e));
                                Self::lemma_replaced(before, *self, i as int, e);
                                Self::lemma_graft_view(before, *self, e.node, p, value);
                            }
                        },
                        Node::Leaf(document) => {
                            // Ruled out by the precondition: the entry goes back as it was.
                            self.entries.insert(i, Entry { key: found.key, node: Node::Leaf(document) });
                        },
                    }
                },
            }
        }
    }

    /// Adds `value` as a leaf under the directory keys `path` and the final
    /// key `key`, creating the mappings on the way. Nothing is overwritten
    /// and nothing merged: where a document lies on the way, or the key is in
    /// use, the namespace stays as it was and the full key path is reported.
    pub fn insert(&mut self, path: &[String], key: String, value: Document) -> (r: Result<
        (),
        Failure,
    >)
        requires
            old(self).wf(),
        ensures
            final(self).wf(),
            match collision_of(old(self)@, texts(path@).push(key@)) {
                None => r is Ok && final(self)@ == old(self)@.insert(
                    texts(path@).push(key@),
                    value,
                ),
                Some(c) => *final(self) == *old(self) && (r matches Err(
                    Failure::DuplicateKey { keys: full, collision },
                ) && collision == c && texts(full@) == texts(path@).push(key@)),
            },
    {
        proof {
            assert(texts(path@).skip(0) =~= texts(path@));
            self.lemma_clash(tail(path@, 0, key@));
        }
        match self.collision(path, 0, &key) {
            Some(collision) => Err(Failure::DuplicateKey { keys: full_path(path, key), collision }),
            None => {
                self.put(path, 0, key, value);
                Ok(())
            },
        }
    }

    /// The entries of this mapping, in the order they were added. Each
    /// key leads to the node of its entry.
    pub fn entries(&self) -> (r: &Vec<Entry>)
        requires
            self.wf(),
        ensures
            r@ == self.items(),
            forall|i: int|
                0 <= i < r@.len() ==> self.at(seq![(#[trigger] r@[i]).key@]) == Some(r@[i].node),
    {
        proof {
            assert forall|i: int| 0 <= i < self.entries@.len() implies self.at(
                seq![(#[trigger] self.entries@[i]).key@],
            ) == Some(self.entries@[i].node) by {
                self.lemma_child_some(i);
            }
        }
        &self.entries
    }

    /// The number of entries of this mapping.
    pub fn len(&self) -> (r: usize)
        ensures
            r == self.items().len(),
    {
        self.entries.len()
    }

    /// The document at a full key path, if a leaf is there.
    pub fn get(&self, path: &[String]) -> (r: Option<&Document>)
        requires
            self.wf(),
        ensures
            match r {
                Some(d) => self@.dom().contains(texts(path@)) && self@[texts(path@)] == *d,
                None => !self@.dom().contains(texts(path@)),
            },
    {
        proof {
            assert(texts(path@).skip(0) =~= texts(path@));
        }
        self.find(path, 0)
    }

    /// The document at `path[from..]`, if a leaf is there.
    fn find(&self, path: &[String], from: usize) -> (r: Option<&Document>)
        requires
            self.wf(),
            from <= path@.len(),
        ensures
            match r {
                Some(d) => self@.dom().contains(texts(path@).skip(from as int)) && self@[texts(
                    path@,
                ).skip(from as int)] == *d,
                None => !self@.dom().contains(texts(path@).skip(from as int)),
            },
        decreases path@.len() - from,
    {
        let ghost q = texts(path@).skip(from as int);
        proof {
            self.lemma_view_step(q);
        }
        if from == path.len() {
            return None;
        }
        proof {
            assert(q.drop_first() =~= texts(path@).skip(from + 1));
        }
        match self.position(&path[from]) {
            None => {
                proof {
                    self.lemma_child_none(q[0]);
                }
                None
            },
            Some(i) => {
                proof {
                    self.lemma_child_some(i as int);
                }
                match &self.entries[i].node {
                    Node::Leaf(d) => if from + 1 == path.len() {
                        Some(d)
                    } else {
                        None
                    },
                    Node::Branch(sub) => if from + 1 == path.len() {
                        None
                    } else {
                        sub.find(path, from + 1)
                    },
                }
            },
        }
    }
}

/// Adds `value` to `object` under the directory keys `path` and the final
/// key `key`. See [`Namespace::insert`].
pub fn insert(object: &mut Namespace, path: &[String], key: String, value: Document) -> (r: Result<
    (),
    Failure,
>)
    requires
        old(object).wf(),
    ensures
        final(object).wf(),
        match collision_of(old(object)@, texts(path@).push(key@)) {
            None => r is Ok && final(object)@ == old(object)@.insert(texts(path@).push(key@), value),
            Some(c) => *final(object) == *old(object) && (r matches Err(
                Failure::DuplicateKey { keys: full, collision },
            ) && collision == c && texts(full@) == texts(path@).push(key@)),
        },
{
    object.insert(path, key, value)
}

/// The directory keys followed by the final key, as one list.
pub fn full_path(path: &[String], key: String) -> (r: Vec<String>)
    ensures
        texts(r@) == texts(path@).push(key@),
{
    let mut r: Vec<String> = Vec::new();
    let mut i: usize = 0;
    while i < path.len()
        invariant
            i <= path@.len(),
            r@.len() == i,
            forall|j: int| 0 <= j < i ==> r@[j]@ == path@[j]@,
        decreases path@.len() - i,
    {
        r.push(path[i].clone());
        i = i + 1;
    }
    r.push(key);
    assert(texts(r@) =~= texts(path@).push(key@));
    r
}

/// The key path that `path[from..]` and `key` spell.
pub open spec fn tail(path: Seq<String>, from: int, key: Seq<char>) -> Seq<Seq<char>> {
    texts(path).skip(from).push(key)
}

/// The collision of a new leaf at `p` with the leaves of `m`, if any: a leaf
/// on the way counts before a key in use.
pub open spec fn collision_of(m: Map<Seq<Seq<char>>, Document>, p: Seq<Seq<char>>) -> Option<
    Collision,
> {
    if shadowed(m, p) {
        Some(Collision::Shadowed)
    } else if occupied(m, p) {
        Some(Collision::Occupied)
    } else {
        None
    }
}

/// The first key of a tail and what follows it.
proof fn lemma_tail_step(path: Seq<String>, from: int, key: Seq<char>)
    requires
        0 <= from < path.len(),
    ensures
        tail(path, from, key).len() == path.len() - from + 1,
        tail(path, from, key)[0] == path[from]@,
        tail(path, from, key).drop_first() == tail(path, from + 1, key),
{
    assert(tail(path, from, key).drop_first() =~= tail(path, from + 1, key));
}

} // verus!
