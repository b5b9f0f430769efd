use vstd::prelude::*;

verus! {

/// The ids filed under one key of a secondary index, oldest first.
pub struct IndexGroup {
    pub key: String,
    pub ids: Vec<u64>,
}

/// A multi-valued secondary index from a text key to the ids of the records carrying it.
pub struct MultiIndex {
    pub groups: Vec<IndexGroup>,
}

impl MultiIndex {
    /// No two groups share a key.
    pub open spec fn wf(self) -> bool {
        forall|i: int, j: int|
            0 <= i < self.groups@.len() && 0 <= j < self.groups@.len() && i != j
                ==> self.groups@[i].key@ != self.groups@[j].key@
    }

    /// Whether group `i` is filed under key `k`.
    pub open spec fn group_for(self, i: int, k: Seq<char>) -> bool {
        0 <= i < self.groups@.len() && self.groups@[i].key@ == k
    }

    /// The ids filed under key `k` (none when no group has that key).
    pub open spec fn ids_of(self, k: Seq<char>) -> Seq<u64> {
        if exists|i: int| self.group_for(i, k) {
            self.groups@[choose|i: int| self.group_for(i, k)].ids@
        } else {
            Seq::empty()
        }
    }

    /// An index with no entries.
    pub fn new() -> (r: Self)
        ensures
            r.wf(),
            forall|k: Seq<char>| #[trigger] r.ids_of(k) == Seq::<u64>::empty(),
    {
        MultiIndex { groups: Vec::new() }
    }

    /// The position of the group filed under `key`, if there is one.
    fn find(&self, key: &String) -> (r: Option<usize>)
        ensures
            match r {
                Some(i) => self.group_for(i as int, key@),
                None => forall|i: int| !self.group_for(i, key@),
            },
    {
        let mut i: usize = 0;
        while i < self.groups.len()
            invariant
                i <= self.groups@.len(),
                forall|j: int| 0 <= j < i ==> !self.group_for(j, key@),
            decreases self.groups@.len() - i,
        {
            if self.groups[i].key == *key {
                return Some(i);
            }
            i = i + 1;
        }
        None
    }

    /// Files `id` under `key`, after every id already filed there.
    pub fn insert(&mut self, key: &String, id: u64)
        requires
            old(self).wf(),
        ensures
            final(self).wf(),
            forall|k: Seq<char>|
                #[trigger] final(self).ids_of(k) == if k == key@ {
                    old(self).ids_of(k).push(id)
                } else {
                    old(self).ids_of(k)
                },
    {
        match self.find(key) {
            Some(i) => {
                let ghost prev = self.groups@;
                self.groups[i].ids.push(id);
                assert(self.groups@.len() == prev.len());
                assert(self.groups@[i as int].key == prev[i as int].key);
                assert(self.groups@[i as int].ids@ == prev[i as int].ids@.push(id));
                assert(forall|j: int| 0 <= j < prev.len() && j != i ==> self.groups@[j] == prev[j]);
                assert(self.wf());
                assert forall|k: Seq<char>|
                    #[trigger] self.ids_of(k) == if k == key@ {
                        old(self).ids_of(k).push(id)
                    } else {
                        old(self).ids_of(k)
                    } by {
                    if k == key@ {
                        assert(self.group_for(i as int, k));
                        assert(old(self).group_for(i as int, k));
                        let a = choose|j: int| self.group_for(j, k);
                        let b = choose|j: int| old(self).group_for(j, k);
                        assert(a == i && b == i);
                    } else if exists|j: int| old(self).group_for(j, k) {
                        let j = choose|j: int| old(self).group_for(j, k);
                        assert(self.group_for(j, k));
                        let a = choose|j: int| self.group_for(j, k);
                        assert(a == j);
                    } else {
                        assert forall|j: int| !self.group_for(j, k) by {
                            if self.group_for(j, k) {
                                assert(old(self).group_for(j, k));
                            }
                        }
                    }
                }
            },
            None => {
                let mut ids: Vec<u64> = Vec::new();
                ids.push(id);
                self.groups.push(IndexGroup { key: key.clone(), ids });
                let last = self.groups.len() - 1;
                assert(self.groups@[last as int].key@ == key@);
                assert(forall|j: int| 0 <= j < last ==> self.groups@[j] == old(self).groups@[j]);
                assert(forall|j: int| 0 <= j < last ==> !old(self).group_for(j, key@));
                assert forall|a: int, b: int|
                    0 <= a < self.groups@.len() && 0 <= b < self.groups@.len() && a != b
                        implies self.groups@[a].key@ != self.groups@[b].key@ by {
                    if a < last && b < last {
                        assert(old(self).groups@[a] == self.groups@[a]);
                        assert(old(self).groups@[b] == self.groups@[b]);
                    } else if a == last {
                        assert(!old(self).group_for(b, key@));
                    } else {
                        assert(!old(self).group_for(a, key@));
                    }
                }
                assert forall|k: Seq<char>|
                    #[trigger] self.ids_of(k) == if k == key@ {
                        old(self).ids_of(k).push(id)
                    } else {
                        old(self).ids_of(k)
                    } by {
                    if k == key@ {
                        assert(self.group_for(last as int, k));
                        let a = choose|j: int| self.group_for(j, k);
                        assert(a == last);
                        assert(old(self).ids_of(k) =~= Seq::<u64>::empty());
                        assert(self.groups@[last as int].ids@ =~= seq![id]);
                    } else if exists|j: int| old(self).group_for(j, k) {
                        let j = choose|j: int| old(self).group_for(j, k);
                        assert(self.group_for(j, k));
                        let a = choose|j: int| self.group_for(j, k);
                        assert(a == j);
                    } else {
                        assert forall|j: int| !self.group_for(j, k) by {
                            if self.group_for(j, k) {
                                assert(old(self).group_for(j, k));
                            }
                        }
                    }
                }
            },
        }
    }

    /// The ids filed under `key`, oldest first.
    pub fn lookup(&self, key: &String) -> (r: Vec<u64>)
        requires
            self.wf(),
        ensures
            r@ == self.ids_of(key@),
    {
        match self.find(key) {
            Some(i) => {
                assert(self.group_for(i as int, key@));
                self.groups[i].ids.clone()
            },
            None => Vec::new(),
        }
    }
}

} // verus!
