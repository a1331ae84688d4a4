//! The help texts already fetched, keyed by the path of the command.
use vstd::prelude::*;
use crate::paths::{path_components, same_path};

verus! {

/// A map from command paths to their help text. Paths are compared by their
/// components, and no path is stored twice.
pub struct HelpCache {
    entries: Vec<(String, String)>,
}

/// The key an entry is stored under: the components of its path.
pub open spec fn key_of(entry: (String, String)) -> Seq<Seq<char>> {
    path_components(entry.0@)
}

impl View for HelpCache {
    type V = Map<Seq<Seq<char>>, Seq<char>>;

    closed spec fn view(&self) -> Map<Seq<Seq<char>>, Seq<char>> {
        Map::new(
            |k: Seq<Seq<char>>| exists|i: int| 0 <= i < self.entries@.len() && #[trigger] key_of(self.entries@[i]) == k,
            |k: Seq<Seq<char>>|
                self.entries@[choose|i: int|
                    0 <= i < self.entries@.len() && #[trigger] key_of(self.entries@[i]) == k].1@,
        )
    }
}

impl HelpCache {
    /// No path is stored twice.
    pub closed spec fn wf(&self) -> bool {
        forall|i: int, j: int|
            0 <= i < j < self.entries@.len() ==> #[trigger] key_of(self.entries@[i])
                != #[trigger] key_of(self.entries@[j])
    }

    proof fn lemma_entry(&self, i: int)
        requires
            self.wf(),
            0 <= i < self.entries@.len(),
        ensures
            self@.contains_key(key_of(self.entries@[i])),
            self@[key_of(self.entries@[i])] == self.entries@[i].1@,
    {
        let k = key_of(self.entries@[i]);
        assert(self@.dom().contains(k));
        let j = choose|j: int| 0 <= j < self.entries@.len() && #[trigger] key_of(self.entries@[j]) == k;
        if j < i {
            assert(key_of(self.entries@[j]) != key_of(self.entries@[i]));
        } else if j > i {
            assert(key_of(self.entries@[i]) != key_of(self.entries@[j]));
        }
    }

    /// An empty cache.
    pub fn new() -> (r: Self)
        ensures
            r.wf(),
            r@ == Map::<Seq<Seq<char>>, Seq<char>>::empty(),
    {
        let r = HelpCache { entries: Vec::new() };
        assert(r@ =~= Map::<Seq<Seq<char>>, Seq<char>>::empty());
        r
    }

    /// The position of `key` among the entries, if it is stored.
    fn find(&self, key: &String) -> (r: Option<usize>)
        requires
            self.wf(),
        ensures
            match r {
                Some(i) => i < self.entries@.len() && key_of(self.entries@[i as int]) == path_components(key@),
                None => !self@.contains_key(path_components(key@)),
            },
    {
        let mut i: usize = 0;
        while i < self.entries.len()
            invariant
                i <= self.entries@.len(),
                forall|j: int| 0 <= j < i ==> #[trigger] key_of(self.entries@[j]) != path_components(key@),
            decreases self.entries@.len() - i,
        {
            if same_path(self.entries[i].0.as_str(), key.as_str()) {
                return Some(i);
            }
            i += 1;
        }
        None
    }

    /// Whether a help text is stored for `key`.
    pub fn contains_key(&self, key: &String) -> (r: bool)
        requires
            self.wf(),
        ensures
            r == self@.contains_key(path_components(key@)),
    {
        match self.find(key) {
            Some(i) => {
                proof {
                    self.lemma_entry(i as int);
                }
                true
            },
            None => false,
        }
    }

    /// The help text stored for `key`, if any.
    pub fn get(&self, key: &String) -> (r: Option<&String>)
        requires
            self.wf(),
        ensures
            match r {
                Some(v) => self@.contains_key(path_components(key@)) && self@[path_components(key@)] == v@,
                None => !self@.contains_key(path_components(key@)),
            },
    {
        match self.find(key) {
            Some(i) => {
                proof {
                    self.lemma_entry(i as int);
                }
                Some(&self.entries[i].1)
            },
            None => None,
        }
    }

    /// Stores `value` for `key`, replacing what was stored for a path with
    /// the same components.
    pub fn insert(&mut self, key: String, value: String)
        requires
            old(self).wf(),
        ensures
            final(self).wf(),
            final(self)@ == old(self)@.insert(path_components(key@), value@),
    {
        let ghost pre = *self;
        match self.find(&key) {
            Some(i) => {
                let ghost k = path_components(key@);
                self.entries.set(i, (key, value));
                proof {
                    assert forall|a: int, b: int|
                        0 <= a < b < self.entries@.len() implies #[trigger] key_of(self.entries@[a])
                        != #[trigger] key_of(self.entries@[b]) by {
                        assert(key_of(pre.entries@[a]) != key_of(pre.entries@[b]));
                    }
                    assert forall|kk: Seq<Seq<char>>| #[trigger] self@.contains_key(kk) == pre@.insert(k, value@).contains_key(kk) by {
                        if kk != k {
                            if self@.contains_key(kk) {
                                let j = choose|j: int| 0 <= j < self.entries@.len() && #[trigger] key_of(self.entries@[j]) == kk;
                                assert(key_of(pre.entries@[j]) == kk);
                            }
                            if pre@.contains_key(kk) {
                                let j = choose|j: int| 0 <= j < pre.entries@.len() && #[trigger] key_of(pre.entries@[j]) == kk;
                                assert(key_of(self.entries@[j]) == kk);
                            }
                        } else {
                            assert(key_of(self.entries@[i as int]) == kk);
                        }
                    }
                    assert forall|kk: Seq<Seq<char>>| #[trigger] self@.contains_key(kk) implies self@[kk] == pre@.insert(k, value@)[kk] by {
                        let j = choose|j: int| 0 <= j < self.entries@.len() && #[trigger] key_of(self.entries@[j]) == kk;
                        self.lemma_entry(j);
                        if kk != k {
                            pre.lemma_entry(j);
                        }
                    }
                    assert(self@ =~= pre@.insert(k, value@));
                }
            },
            None => {
                let ghost k = path_components(key@);
                let ghost v = value@;
                self.entries.push((key, value));
                proof {
                    let n = pre.entries@.len() as int;
                    assert forall|a: int, b: int|
                        0 <= a < b < self.entries@.len() implies #[trigger] key_of(self.entries@[a])
                        != #[trigger] key_of(self.entries@[b]) by {
                        if b < n {
                            assert(key_of(pre.entries@[a]) != key_of(pre.entries@[b]));
                        } else {
                            assert(key_of(pre.entries@[a]) == key_of(self.entries@[a]));
                            if key_of(pre.entries@[a]) == k {
                                assert(pre@.contains_key(k));
                            }
                        }
                    }
                    assert forall|kk: Seq<Seq<char>>| #[trigger] self@.contains_key(kk) == pre@.insert(k, v).contains_key(kk) by {
                        if kk != k {
                            if self@.contains_key(kk) {
                                let j = choose|j: int| 0 <= j < self.entries@.len() && #[trigger] key_of(self.entries@[j]) == kk;
                                assert(key_of(pre.entries@[j]) == kk);
                            }
                            if pre@.contains_key(kk) {
                                let j = choose|j: int| 0 <= j < pre.entries@.len() && #[trigger] key_of(pre.entries@[j]) == kk;
                                assert(key_of(self.entries@[j]) == kk);
                            }
                        } else {
                            assert(key_of(self.entries@[n]) == kk);
                        }
                    }
                    assert forall|kk: Seq<Seq<char>>| #[trigger] self@.contains_key(kk) implies self@[kk] == pre@.insert(k, v)[kk] by {
                        let j = choose|j: int| 0 <= j < self.entries@.len() && #[trigger] key_of(self.entries@[j]) == kk;
                        self.lemma_entry(j);
                        if kk != k {
                            pre.lemma_entry(j);
                        }
                    }
                    assert(self@ =~= pre@.insert(k, v));
                }
            },
        }
    }
}

} // verus!
