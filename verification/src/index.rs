use crate::group::Key;
use vstd::hash_map::StringHashMap;
use vstd::prelude::*;

verus! {

/// Whether `index` holds the position of each key of `keys`, and nothing
/// else.
pub open spec fn indexes(index: Map<Key, usize>, keys: Seq<Key>) -> bool {
    &&& forall|position: int|
        0 <= position < keys.len() ==> {
            &&& index.contains_key(#[trigger] keys[position])
            &&& index[keys[position]] == position
        }
    &&& forall|key: Key| #[trigger]
        index.contains_key(key) ==> {
            &&& (index[key] as int) < keys.len()
            &&& keys[index[key] as int] == key
        }
}

/// Where the summary of each group stands: a map from a group's key to a
/// position, looked up by hashing.
pub struct GroupIndex {
    /// For each method, the place in `by_method` of the map of its URIs.
    slots: StringHashMap<usize>,
    /// For each method, the position of each of its URIs.
    by_method: Vec<StringHashMap<usize>>,
    /// The method of each place in `by_method`.
    methods: Ghost<Seq<Seq<char>>>,
}

impl View for GroupIndex {
    type V = Map<Key, usize>;

    closed spec fn view(&self) -> Map<Key, usize> {
        Map::new(
            |key: Key|
                self.slots@.contains_key(key.0) && self.by_method@[self.slots@[key.0] as int]@.contains_key(
                    key.1,
                ),
            |key: Key| self.by_method@[self.slots@[key.0] as int]@[key.1],
        )
    }
}

impl GroupIndex {
    /// Whether each method has a place of its own in `by_method`.
    pub closed spec fn wf(&self) -> bool {
        &&& self.methods@.len() == self.by_method@.len()
        &&& forall|method: Seq<char>| #[trigger]
            self.slots@.contains_key(method) ==> {
                &&& (self.slots@[method] as int) < self.methods@.len()
                &&& self.methods@[self.slots@[method] as int] == method
            }
        &&& forall|slot: int|
            0 <= slot < self.methods@.len() ==> {
                &&& self.slots@.contains_key(#[trigger] self.methods@[slot])
                &&& self.slots@[self.methods@[slot]] == slot
            }
    }

    /// The index of no groups.
    pub fn new() -> (r: Self)
        ensures
            r.wf(),
            r@ == Map::<Key, usize>::empty(),
    {
        GroupIndex {
            slots: StringHashMap::new(),
            by_method: Vec::new(),
            methods: Ghost(Seq::empty()),
        }
    }

    /// The position held for the group `(method, uri)`.
    pub fn get(&self, method: &str, uri: &str) -> (r: Option<usize>)
        requires
            self.wf(),
        ensures
            r == if self@.contains_key((method@, uri@)) {
                Some(self@[(method@, uri@)])
            } else {
                None
            },
    {
        match self.slots.get(method) {
            Some(slot) => match self.by_method[*slot].get(uri) {
                Some(position) => Some(*position),
                None => None,
            },
            None => None,
        }
    }

    /// Holds `position` for the group `(method, uri)`, whatever was held for
    /// it before.
    pub fn insert(&mut self, method: &str, uri: String, position: usize)
        requires
            old(self).wf(),
        ensures
            final(self).wf(),
            final(self)@ == old(self)@.insert((method@, uri@), position),
    {
        let slot: usize = match self.slots.get(method) {
            Some(slot) => *slot,
            None => {
                let slot: usize = self.by_method.len();
                self.slots.insert(method.to_owned(), slot);
                self.by_method.push(StringHashMap::new());
                proof {
                    self.methods@ = self.methods@.push(method@);
                }
                slot
            },
        };
        self.by_method[slot].insert(uri, position);
    }
}

} // verus!
