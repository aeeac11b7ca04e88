//! The data model of synchronised files: vector clocks and file states.

use vstd::prelude::*;

use std::collections::HashMap;

use crate::text::text_eq;

verus! {

/// The map from node id to counter that a sequence of entries stands for;
/// a later entry for the same node replaces an earlier one.
pub open spec fn clock_map(s: Seq<(String, u32)>) -> Map<Seq<char>, u32>
    decreases s.len(),
{
    if s.len() == 0 {
        Map::empty()
    } else {
        clock_map(s.drop_last()).insert(s.last().0@, s.last().1)
    }
}

/// No two entries name the same node.
pub open spec fn unique_nodes(s: Seq<(String, u32)>) -> bool {
    forall|i: int, j: int| 0 <= i < j < s.len() ==> s[i].0@ != s[j].0@
}

/// A node is in the map exactly when some entry names it.
proof fn lemma_clock_map_dom(s: Seq<(String, u32)>, k: Seq<char>)
    ensures
        clock_map(s).contains_key(k) <==> exists|i: int| 0 <= i < s.len() && s[i].0@ == k,
    decreases s.len(),
{
    if s.len() > 0 {
        lemma_clock_map_dom(s.drop_last(), k);
        if clock_map(s.drop_last()).contains_key(k) {
            let i = choose|i: int| 0 <= i < s.len() - 1 && s.drop_last()[i].0@ == k;
            assert(s[i].0@ == k);
        }
        if exists|i: int| 0 <= i < s.len() && s[i].0@ == k {
            let i = choose|i: int| 0 <= i < s.len() && s[i].0@ == k;
            if i < s.len() - 1 {
                assert(s.drop_last()[i].0@ == k);
            }
        }
    }
}

/// With unique nodes, the map gives each entry's counter under its node.
proof fn lemma_clock_map_value(s: Seq<(String, u32)>, i: int)
    requires
        unique_nodes(s),
        0 <= i < s.len(),
    ensures
        clock_map(s).contains_key(s[i].0@),
        clock_map(s)[s[i].0@] == s[i].1,
    decreases s.len(),
{
    if i < s.len() - 1 {
        let t = s.drop_last();
        assert(unique_nodes(t));
        assert(t[i] == s[i]);
        lemma_clock_map_value(t, i);
    }
}

/// With unique nodes, the map has as many nodes as there are entries.
proof fn lemma_clock_map_len(s: Seq<(String, u32)>)
    requires
        unique_nodes(s),
    ensures
        clock_map(s).dom().finite(),
        clock_map(s).len() == s.len(),
    decreases s.len(),
{
    if s.len() > 0 {
        let t = s.drop_last();
        assert(unique_nodes(t));
        lemma_clock_map_len(t);
        lemma_clock_map_dom(t, s.last().0@);
        if clock_map(t).contains_key(s.last().0@) {
            let i = choose|i: int| 0 <= i < t.len() && t[i].0@ == s.last().0@;
            assert(s[i] == t[i]);
        }
    }
}

/// A version vector: one counter per node that changed a file.
#[derive(Debug, Clone)]
pub struct VectorClock {
    versions: Vec<(String, u32)>,
}

impl View for VectorClock {
    type V = Map<Seq<char>, u32>;

    open spec fn view(&self) -> Map<Seq<char>, u32> {
        clock_map(self.entries())
    }
}

impl VectorClock {
    /// The entries of the clock in their order.
    pub closed spec fn entries(&self) -> Seq<(String, u32)> {
        self.versions@
    }

    /// The clock's invariant: no node has two entries.
    pub open spec fn wf(&self) -> bool {
        unique_nodes(self.entries())
    }

    /// A clock with no counters.
    pub fn new() -> (c: VectorClock)
        ensures
            c.wf(),
            c@ == Map::<Seq<char>, u32>::empty(),
    {
        let c = VectorClock { versions: Vec::new() };
        assert(c@ =~= Map::<Seq<char>, u32>::empty());
        c
    }

    /// The position of the entry for `node_id`, if there is one.
    fn find(&self, node_id: &str) -> (r: Option<usize>)
        requires
            self.wf(),
        ensures
            match r {
                Some(i) => i < self.entries().len() && self.entries()[i as int].0@ == node_id@,
                None => forall|i: int|
                    0 <= i < self.entries().len() ==> self.entries()[i].0@ != node_id@,
            },
    {
        let mut i: usize = 0;
        while i < self.versions.len()
            invariant
                i <= self.versions@.len(),
                forall|j: int| 0 <= j < i ==> self.versions@[j].0@ != node_id@,
            decreases self.versions@.len() - i,
        {
            if text_eq(self.versions[i].0.as_str(), node_id) {
                return Some(i);
            }
            i = i + 1;
        }
        None
    }

    /// The counter of `node_id`: 0 when the node has none.
    pub fn version(&self, node_id: &str) -> (v: u32)
        requires
            self.wf(),
        ensures
            v == (if self@.contains_key(node_id@) {
                self@[node_id@]
            } else {
                0
            }),
    {
        proof {
            lemma_clock_map_dom(self.versions@, node_id@);
        }
        match self.find(node_id) {
            Some(i) => {
                proof {
                    lemma_clock_map_value(self.versions@, i as int);
                }
                self.versions[i].1
            },
            None => 0,
        }
    }

    /// Counts one more change by `node_id`: its counter goes up by one, from
    /// 0 when it had none; the other counters stay as they were.
    pub fn tick(&mut self, node_id: &str)
        requires
            old(self).wf(),
            old(self)@.contains_key(node_id@) ==> old(self)@[node_id@] < u32::MAX,
        ensures
            final(self).wf(),
            final(self)@ == old(self)@.insert(
                node_id@,
                (if old(self)@.contains_key(node_id@) {
                    old(self)@[node_id@] + 1
                } else {
                    1
                }) as u32,
            ),
    {
        let ghost s = self.versions@;
        proof {
            lemma_clock_map_dom(s, node_id@);
        }
        match self.find(node_id) {
            Some(i) => {
                proof {
                    lemma_clock_map_value(s, i as int);
                }
                let count = self.versions[i].1;
                let key = self.versions[i].0.clone();
                self.versions.set(i, (key, count + 1));
                proof {
                    let s2 = self.versions@;
                    let m = clock_map(s).insert(node_id@, (count + 1) as u32);
                    assert(s2 == s.update(i as int, s2[i as int]));
                    assert(unique_nodes(s2)) by {
                        assert forall|a: int, b: int| 0 <= a < b < s2.len() implies s2[a].0@
                            != s2[b].0@ by {
                            if a != i && b != i {
                                assert(s2[a] == s[a] && s2[b] == s[b]);
                            }
                        }
                    }
                    assert forall|k: Seq<char>| #[trigger] clock_map(s2).contains_key(k)
                        <==> m.contains_key(k) by {
                        lemma_clock_map_dom(s2, k);
                        lemma_clock_map_dom(s, k);
                        if clock_map(s2).contains_key(k) {
                            let j = choose|j: int| 0 <= j < s2.len() && s2[j].0@ == k;
                            assert(s2[j].0@ == s[j].0@);
                        }
                        if m.contains_key(k) && k != node_id@ {
                            let j = choose|j: int| 0 <= j < s.len() && s[j].0@ == k;
                            assert(s2[j].0@ == s[j].0@);
                        }
                    }
                    assert forall|k: Seq<char>| #[trigger] clock_map(s2).contains_key(k)
                        implies clock_map(s2)[k] == m[k] by {
                        lemma_clock_map_dom(s2, k);
                        let j = choose|j: int| 0 <= j < s2.len() && s2[j].0@ == k;
                        lemma_clock_map_value(s2, j);
                        if j != i {
                            assert(s2[j] == s[j]);
                            lemma_clock_map_value(s, j);
                        }
                    }
                    assert(clock_map(s2) =~= m);
                }
            },
            None => {
                self.versions.push((node_id.to_owned(), 1));
                proof {
                    let s2 = self.versions@;
                    assert(s2.drop_last() =~= s);
                    assert(unique_nodes(s2));
                }
            },
        }
    }

    /// Whether two clocks hold the same counters.
    pub fn same_versions(&self, other: &VectorClock) -> (b: bool)
        requires
            self.wf(),
            other.wf(),
        ensures
            b == (self@ == other@),
    {
        proof {
            lemma_clock_map_len(self.versions@);
            lemma_clock_map_len(other.versions@);
        }
        if self.versions.len() != other.versions.len() {
            return false;
        }
        let mut i: usize = 0;
        while i < self.versions.len()
            invariant
                self.wf(),
                other.wf(),
                self.versions@.len() == other.versions@.len(),
                i <= self.versions@.len(),
                forall|j: int|
                    0 <= j < i ==> #[trigger] other@.contains_key(self.versions@[j].0@)
                        && other@[self.versions@[j].0@] == self.versions@[j].1,
            decreases self.versions@.len() - i,
        {
            let key = self.versions[i].0.as_str();
            proof {
                lemma_clock_map_dom(other.versions@, key@);
            }
            match other.find(key) {
                Some(j) => {
                    proof {
                        lemma_clock_map_value(other.versions@, j as int);
                    }
                    if other.versions[j].1 != self.versions[i].1 {
                        proof {
                            lemma_clock_map_value(self.versions@, i as int);
                        }
                        return false;
                    }
                },
                None => {
                    proof {
                        lemma_clock_map_value(self.versions@, i as int);
                    }
                    return false;
                },
            }
            i = i + 1;
        }
        proof {
            let s = self.versions@;
            assert forall|k: Seq<char>| self@.contains_key(k) implies #[trigger] other@.contains_key(k)
                && other@[k] == self@[k] by {
                lemma_clock_map_dom(s, k);
                let j = choose|j: int| 0 <= j < s.len() && s[j].0@ == k;
                lemma_clock_map_value(s, j);
            }
            assert(self@.dom().subset_of(other@.dom()));
            vstd::set_lib::lemma_subset_equality(self@.dom(), other@.dom());
            assert(self@ =~= other@);
        }
        true
    }
}

/// The recorded state of one synchronised file.
#[derive(Debug, Clone)]
pub struct FileState {
    pub path: String,
    pub version: VectorClock,
    pub hash: String,
    pub last_modified: u64,
}

impl FileState {
    /// A file state with the given path, hash and modification time. Its
    /// clock starts empty: the clock passed in is not used.
    pub fn new(path: String, hash: String, last_modified: u64, version: VectorClock) -> (f: FileState)
        ensures
            f.path == path,
            f.hash == hash,
            f.last_modified == last_modified,
            f.version.wf(),
            f.version@ == Map::<Seq<char>, u32>::empty(),
    {
        FileState { path, hash, version: VectorClock::new(), last_modified }
    }
}

/// The synchronised files, keyed by path.
#[derive(Debug)]
pub struct Manifest {
    pub files: HashMap<String, FileState>,
}

} // verus!
