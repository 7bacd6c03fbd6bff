//! The embedding state's node store: a mapping from vertex id to
//! [`PhysicsNode`] with unique keys and no ordering guarantee.
//!
//! The store is viewed as a mathematical `Map<ClusterID, PhysicsNode>`; the
//! entry sequence is also exposed so callers can walk the nodes by index.

use vstd::prelude::*;
use crate::cluster_id::ClusterID;
use crate::physics_node::PhysicsNode;

verus! {

/// The map denoted by an association list (later entries win, though the
/// store keeps its keys unique so order never matters).
pub open spec fn map_of(s: Seq<(ClusterID, PhysicsNode)>) -> Map<ClusterID, PhysicsNode>
    decreases s.len(),
{
    if s.len() == 0 {
        Map::empty()
    } else {
        map_of(s.drop_last()).insert(s.last().0, s.last().1)
    }
}

/// Some entry carries key `k`.
pub open spec fn has_key(s: Seq<(ClusterID, PhysicsNode)>, k: ClusterID) -> bool {
    exists|i: int| 0 <= i < s.len() && (#[trigger] s[i]).0 == k
}

/// No key occurs twice.
pub open spec fn keys_unique(s: Seq<(ClusterID, PhysicsNode)>) -> bool {
    forall|i: int, j: int| 0 <= i < j < s.len() ==> (#[trigger] s[i]).0 != (#[trigger] s[j]).0
}

/// A key is in the denoted map exactly when some entry carries it.
pub proof fn lemma_map_of_contains(s: Seq<(ClusterID, PhysicsNode)>, k: ClusterID)
    ensures
        map_of(s).contains_key(k) <==> has_key(s, k),
    decreases s.len(),
{
    if s.len() > 0 {
        lemma_map_of_contains(s.drop_last(), k);
        if s.last().0 == k {
            assert(s[s.len() - 1].0 == k);
        } else if map_of(s).contains_key(k) {
            let i = choose|i: int| 0 <= i < s.drop_last().len() && (#[trigger] s.drop_last()[i]).0
                == k;
            assert(s[i].0 == k);
        } else {
            assert(forall|i: int| 0 <= i < s.len() - 1 ==> s.drop_last()[i] == (#[trigger] s[i]));
            if has_key(s, k) {
                let i = choose|i: int| 0 <= i < s.len() && (#[trigger] s[i]).0 == k;
                assert(i < s.len() - 1);
                assert(s.drop_last()[i].0 == k);
                assert(has_key(s.drop_last(), k));
            }
        }
    }
}

/// With unique keys, the entry at index `i` gives the map's value at its key.
pub proof fn lemma_map_of_get(s: Seq<(ClusterID, PhysicsNode)>, i: int)
    requires
        keys_unique(s),
        0 <= i < s.len(),
    ensures
        map_of(s).contains_key(s[i].0),
        map_of(s)[s[i].0] == s[i].1,
    decreases s.len(),
{
    if i == s.len() - 1 {
        assert(s.last() == s[i]);
    } else {
        assert(keys_unique(s.drop_last())) by {
            assert(forall|a: int, b: int|
                0 <= a < b < s.len() - 1 ==> (#[trigger] s.drop_last()[a]).0 != (
                #[trigger] s.drop_last()[b]).0);
        }
        lemma_map_of_get(s.drop_last(), i);
        assert(s.drop_last()[i] == s[i]);
        assert(s[i].0 != s.last().0);
    }
}

/// With unique keys, every entry gives the map's value at its key.
pub proof fn lemma_map_of_get_all(s: Seq<(ClusterID, PhysicsNode)>)
    requires
        keys_unique(s),
    ensures
        forall|j: int|
            0 <= j < s.len() ==> map_of(s).contains_key((#[trigger] s[j]).0) && map_of(s)[s[j].0]
                == s[j].1,
{
    assert forall|j: int|
        0 <= j < s.len() implies map_of(s).contains_key((#[trigger] s[j]).0) && map_of(s)[s[j].0]
        == s[j].1 by {
        lemma_map_of_get(s, j);
    }
}

/// Keys of the denoted map are exactly the keys carried by entries.
pub proof fn lemma_map_of_contains_all(s: Seq<(ClusterID, PhysicsNode)>)
    ensures
        forall|k: ClusterID| #[trigger] map_of(s).contains_key(k) <==> has_key(s, k),
{
    assert forall|k: ClusterID| #[trigger] map_of(s).contains_key(k) <==> has_key(s, k) by {
        lemma_map_of_contains(s, k);
    }
}

/// Replacing the node of the entry at `i` is a point update of the map.
pub proof fn lemma_map_of_update(s: Seq<(ClusterID, PhysicsNode)>, i: int, v: PhysicsNode)
    requires
        keys_unique(s),
        0 <= i < s.len(),
    ensures
        map_of(s.update(i, (s[i].0, v))) =~= map_of(s).insert(s[i].0, v),
        keys_unique(s.update(i, (s[i].0, v))),
    decreases s.len(),
{
    let t = s.update(i, (s[i].0, v));
    assert(forall|a: int| 0 <= a < s.len() && a != i ==> (#[trigger] t[a]) == s[a]);
    if i == s.len() - 1 {
        assert(t.drop_last() =~= s.drop_last());
        assert(t.last() == (s[i].0, v));
    } else {
        assert(keys_unique(s.drop_last())) by {
            assert(forall|a: int, b: int|
                0 <= a < b < s.len() - 1 ==> (#[trigger] s.drop_last()[a]).0 != (
                #[trigger] s.drop_last()[b]).0);
        }
        lemma_map_of_update(s.drop_last(), i, v);
        assert(t.drop_last() =~= s.drop_last().update(i, (s[i].0, v)));
        assert(s.drop_last()[i] == s[i]);
        assert(t.last() == s.last());
        assert(s[i].0 != s.last().0);
    }
}

/// Removing the entry at `i` removes exactly its key from the map.
pub proof fn lemma_map_of_remove(s: Seq<(ClusterID, PhysicsNode)>, i: int)
    requires
        keys_unique(s),
        0 <= i < s.len(),
    ensures
        map_of(s.remove(i)) =~= map_of(s).remove(s[i].0),
        keys_unique(s.remove(i)),
    decreases s.len(),
{
    let t = s.remove(i);
    assert(forall|a: int| 0 <= a < i ==> (#[trigger] t[a]) == s[a]);
    assert(forall|a: int| i <= a < t.len() ==> (#[trigger] t[a]) == s[a + 1]);
    if i == s.len() - 1 {
        assert(t =~= s.drop_last());
        lemma_map_of_contains(s.drop_last(), s[i].0);
        assert(!map_of(s.drop_last()).contains_key(s[i].0)) by {
            assert(forall|a: int|
                0 <= a < s.len() - 1 ==> (#[trigger] s.drop_last()[a]) == s[a]);
        }
        assert(map_of(s.drop_last()).remove(s[i].0) =~= map_of(s.drop_last()));
        assert(map_of(s).remove(s[i].0) =~= map_of(s.drop_last()).insert(s[i].0, s[i].1).remove(
            s[i].0,
        ));
    } else {
        assert(keys_unique(s.drop_last())) by {
            assert(forall|a: int, b: int|
                0 <= a < b < s.len() - 1 ==> (#[trigger] s.drop_last()[a]).0 != (
                #[trigger] s.drop_last()[b]).0);
        }
        lemma_map_of_remove(s.drop_last(), i);
        assert(t.drop_last() =~= s.drop_last().remove(i));
        assert(t.last() == s.last());
        assert(s.drop_last()[i] == s[i]);
        assert(s[i].0 != s.last().0);
    }
}

/// The store: an association list with unique keys.
pub struct NodeMap {
    pub entries: Vec<(ClusterID, PhysicsNode)>,
}

impl View for NodeMap {
    type V = Map<ClusterID, PhysicsNode>;

    /// The mathematical map this store denotes.
    open spec fn view(&self) -> Map<ClusterID, PhysicsNode> {
        map_of(self.entries@)
    }
}

impl NodeMap {
    /// The raw entry sequence, for index-based walks.
    pub open spec fn entry_seq(self) -> Seq<(ClusterID, PhysicsNode)> {
        self.entries@
    }

    pub open spec fn spec_len(self) -> nat {
        self.entries@.len()
    }

    /// Keys are unique, so the sequence and the map agree entry by entry.
    pub open spec fn wf(self) -> bool {
        keys_unique(self.entries@)
    }

    pub fn new() -> (r: NodeMap)
        ensures
            r.wf(),
            r@ =~= Map::<ClusterID, PhysicsNode>::empty(),
            r.spec_len() == 0,
    {
        NodeMap { entries: Vec::new() }
    }

    pub fn len(&self) -> (r: usize)
        ensures
            r == self.spec_len(),
    {
        self.entries.len()
    }

    /// The index of the entry holding `id`, if any.
    fn find(&self, id: ClusterID) -> (r: Option<usize>)
        ensures
            match r {
                Some(i) => i < self.entry_seq().len() && self.entry_seq()[i as int].0 == id
                    && has_key(self.entry_seq(), id),
                None => !has_key(self.entry_seq(), id),
            },
    {
        let n = self.entries.len();
        let mut i: usize = 0;
        while i < n
            invariant
                i <= n,
                n == self.entry_seq().len(),
                forall|j: int| 0 <= j < i ==> (#[trigger] self.entry_seq()[j]).0 != id,
            decreases n - i,
        {
            if self.entries[i].0 == id {
                return Some(i);
            }
            i = i + 1;
        }
        proof {
            if has_key(self.entry_seq(), id) {
                let w = choose|j: int|
                    0 <= j < self.entry_seq().len() && (#[trigger] self.entry_seq()[j]).0 == id;
                assert(self.entry_seq()[w].0 != id);
            }
        }
        None
    }

    pub fn contains(&self, id: ClusterID) -> (r: bool)
        ensures
            r == self@.contains_key(id),
    {
        proof {
            lemma_map_of_contains(self.entries@, id);
        }
        let f = self.find(id);
        f.is_some()
    }

    /// The node stored under `id`, or `None` when the id is absent.
    pub fn get(&self, id: ClusterID) -> (r: Option<PhysicsNode>)
        requires
            self.wf(),
        ensures
            r == if self@.contains_key(id) {
                Some(self@[id])
            } else {
                None::<PhysicsNode>
            },
    {
        proof {
            lemma_map_of_contains(self.entries@, id);
        }
        let f = self.find(id);
        match f {
            Some(i) => {
                proof {
                    lemma_map_of_get(self.entries@, i as int);
                }
                Some(self.entries[i].1)
            },
            None => None,
        }
    }

    /// Store `node` under `id`, replacing any previous node with that id.
    pub fn insert(&mut self, id: ClusterID, node: PhysicsNode)
        requires
            old(self).wf(),
        ensures
            final(self).wf(),
            final(self)@ =~= old(self)@.insert(id, node),
            final(self).spec_len() == old(self).spec_len() + (
            if old(self)@.contains_key(id) {
                0int
            } else {
                1int
            }),
    {
        proof {
            lemma_map_of_contains(self.entries@, id);
        }
        let f = self.find(id);
        match f {
            Some(i) => {
                proof {
                    lemma_map_of_update(self.entries@, i as int, node);
                }
                self.entries.set(i, (id, node));
            },
            None => {
                self.entries.push((id, node));
                proof {
                    assert(self.entries@.drop_last() =~= old(self).entries@);
                    let t = self.entries@;
                    let olds = old(self).entries@;
                    assert(forall|a: int| 0 <= a < olds.len() ==> (#[trigger] t[a]) == olds[a]);
                    assert forall|a: int, b: int|
                        0 <= a < b < t.len() implies (#[trigger] t[a]).0 != (
                    #[trigger] t[b]).0 by {
                        if b == t.len() - 1 {
                            assert(t[b].0 == id);
                            assert(!has_key(olds, id));
                            assert(olds[a].0 != id);
                        }
                    }
                }
            },
        }
    }

    /// Remove the node stored under `id`, if any.
    pub fn remove(&mut self, id: ClusterID)
        requires
            old(self).wf(),
        ensures
            final(self).wf(),
            final(self)@ =~= old(self)@.remove(id),
            final(self).spec_len() == old(self).spec_len() - (
            if old(self)@.contains_key(id) {
                1int
            } else {
                0int
            }),
    {
        proof {
            lemma_map_of_contains(self.entries@, id);
        }
        let f = self.find(id);
        match f {
            Some(i) => {
                proof {
                    lemma_map_of_remove(self.entries@, i as int);
                }
                self.entries.remove(i);
            },
            None => {
                proof {
                    assert(self@ =~= self@.remove(id));
                }
            },
        }
    }

    /// The id of the entry at position `i`.
    pub fn id_at(&self, i: usize) -> (r: ClusterID)
        requires
            i < self.spec_len(),
        ensures
            r == self.entry_seq()[i as int].0,
    {
        self.entries[i].0
    }

    /// The node of the entry at position `i`.
    pub fn node_at(&self, i: usize) -> (r: PhysicsNode)
        requires
            i < self.spec_len(),
        ensures
            r == self.entry_seq()[i as int].1,
    {
        self.entries[i].1
    }

    /// Replace the node at position `i`, keeping its id.
    pub fn set_at(&mut self, i: usize, node: PhysicsNode)
        requires
            old(self).wf(),
            i < old(self).spec_len(),
        ensures
            final(self).wf(),
            final(self).entry_seq() =~= old(self).entry_seq().update(
                i as int,
                (old(self).entry_seq()[i as int].0, node),
            ),
            final(self)@ =~= old(self)@.insert(old(self).entry_seq()[i as int].0, node),
            final(self).spec_len() == old(self).spec_len(),
    {
        proof {
            lemma_map_of_update(self.entries@, i as int, node);
        }
        let id = self.entries[i].0;
        self.entries.set(i, (id, node));
    }

    /// Every currently stored id, in entry order.
    pub fn ids(&self) -> (r: Vec<ClusterID>)
        ensures
            r@.len() == self.spec_len(),
            forall|i: int| 0 <= i < r@.len() ==> r@[i] == (#[trigger] self.entry_seq()[i]).0,
    {
        let n = self.entries.len();
        let mut out: Vec<ClusterID> = Vec::new();
        let mut i: usize = 0;
        while i < n
            invariant
                i <= n,
                n == self.entry_seq().len(),
                out@.len() == i,
                forall|j: int| 0 <= j < i ==> out@[j] == (#[trigger] self.entry_seq()[j]).0,
            decreases n - i,
        {
            out.push(self.entries[i].0);
            i = i + 1;
        }
        out
    }
}

} // verus!
