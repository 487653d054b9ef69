//! A map from paths to values that remembers the order of insertion.
//!
//! The entries live in a vector, in the order in which their paths first
//! arrived. A hash index from path to position makes lookups cheap; the
//! vector makes walking the map deterministic.

use fxhash::FxHashMap;
use fxhash::FxHasher;
use std::hash::BuildHasherDefault;
use vstd::prelude::*;

verus! {

/// The hasher of the fxhash crate. It hashes without a seed.
#[verifier::external_type_specification]
#[verifier::external_body]
pub struct ExFxHasher(FxHasher);

/// The builder of std that makes a hasher by its `Default`. With the hasher
/// above it is the third parameter of an `FxHashMap`.
#[verifier::external_type_specification]
#[verifier::external_body]
#[verifier::reject_recursive_types(H)]
pub struct ExBuildHasherDefault<H>(BuildHasherDefault<H>);

/// The position that an index records for each path it knows. A path is
/// known by its characters: two strings of the same characters are one key.
pub uninterp spec fn index_entries(index: FxHashMap<String, usize>) -> Map<Seq<char>, usize>;

/// `FxHashMap::default`: an index without entries.
#[verifier::external_body]
fn index_new() -> (fresh: FxHashMap<String, usize>)
    ensures
        index_entries(fresh) =~= Map::empty(),
{
    FxHashMap::default()
}

/// `HashMap::insert` on an index: afterwards `path` is recorded with `slot`,
/// and every other path is recorded as before.
#[verifier::external_body]
fn index_insert(index: &mut FxHashMap<String, usize>, path: String, slot: usize)
    ensures
        index_entries(*final(index)) == index_entries(*old(index)).insert(path@, slot),
{
    index.insert(path, slot);
}

/// `HashMap::get` on an index: the position recorded for `path`, if there is
/// one.
#[verifier::external_body]
fn index_get<'a>(index: &'a FxHashMap<String, usize>, path: &str) -> (slot: Option<&'a usize>)
    ensures
        slot is Some <==> index_entries(*index).contains_key(path@),
        slot matches Some(found) ==> *found == index_entries(*index)[path@],
{
    index.get(path)
}

/// The paths of `slots`, in order.
spec fn slot_paths<V>(slots: Seq<(String, V)>) -> Seq<Seq<char>> {
    slots.map_values(|slot: (String, V)| slot.0@)
}

/// Whether `index` records exactly the position of each path in `slots`.
spec fn indexes<V>(index: Map<Seq<char>, usize>, slots: Seq<(String, V)>) -> bool {
    &&& forall|i: int|
        0 <= i < slots.len() ==> index.contains_key(#[trigger] slots[i].0@) && index[slots[i].0@]
            == i
    &&& forall|path: Seq<char>| #[trigger]
        index.contains_key(path) ==> index[path] < slots.len() && slots[index[path] as int].0@
            == path
}

/// A map from paths to values of type `V`.
pub struct PathMap<V> {
    parts: (Vec<(String, V)>, FxHashMap<String, usize>),
}

impl<V> View for PathMap<V> {
    type V = Map<Seq<char>, V>;

    closed spec fn view(&self) -> Map<Seq<char>, V> {
        Map::new(
            |path: Seq<char>| index_entries(self.parts.1).contains_key(path),
            |path: Seq<char>| self.parts.0@[index_entries(self.parts.1)[path] as int].1,
        )
    }
}

impl<V> PathMap<V> {
    #[verifier::type_invariant]
    closed spec fn consistent(&self) -> bool {
        indexes(index_entries(self.parts.1), self.parts.0@)
    }

    /// The paths of the map, in the order in which they first arrived.
    pub closed spec fn order(&self) -> Seq<Seq<char>> {
        slot_paths(self.parts.0@)
    }

    /// A map without entries.
    pub fn new() -> (fresh: Self)
        ensures
            fresh@ =~= Map::empty(),
            fresh.order() =~= Seq::empty(),
    {
        PathMap { parts: (Vec::new(), index_new()) }
    }

    /// The number of entries. The paths in `order()` are pairwise distinct
    /// and are exactly the paths that the map holds.
    pub fn len(&self) -> (count: usize)
        ensures
            count == self.order().len(),
            self.order().no_duplicates(),
            forall|path: Seq<char>| self@.contains_key(path) <==> self.order().contains(path),
    {
        proof {
            use_type_invariant(self);
            let paths = self.order();
            assert forall|path: Seq<char>| self@.contains_key(path) implies paths.contains(
                path,
            ) by {
                let i = index_entries(self.parts.1)[path] as int;
                assert(paths[i] == path);
            }
            assert forall|path: Seq<char>| paths.contains(path) implies self@.contains_key(
                path,
            ) by {
                let i = choose|i: int| 0 <= i < paths.len() && paths[i] == path;
                assert(self.parts.0@[i].0@ == path);
            }
            assert forall|i: int, j: int|
                0 <= i < paths.len() && 0 <= j < paths.len() && i != j implies paths[i]
                != paths[j] by {
                assert(self.parts.0@[i].0@ == paths[i]);
                assert(self.parts.0@[j].0@ == paths[j]);
            }
        }
        self.parts.0.len()
    }

    /// Records `value` for `path`. A path that is new goes to the end of the
    /// order; one that is known keeps its place.
    pub fn insert(&mut self, path: String, value: V)
        ensures
            final(self)@ == old(self)@.insert(path@, value),
            final(self).order() == (if old(self)@.contains_key(path@) {
                old(self).order()
            } else {
                old(self).order().push(path@)
            }),
    {
        proof {
            use_type_invariant(&*self);
        }
        let mut parts = (Vec::new(), index_new());
        std::mem::swap(&mut parts, &mut self.parts);
        let ghost before = parts;
        let ghost old_index = index_entries(parts.1);
        match index_get(&parts.1, path.as_str()) {
            Some(found) => {
                let slot: usize = *found;
                parts.0.set(slot, (path, value));
                proof {
                    assert(slot_paths(parts.0@) =~= slot_paths(before.0@));
                }
            },
            None => {
                let slot: usize = parts.0.len();
                index_insert(&mut parts.1, path.clone(), slot);
                parts.0.push((path, value));
                proof {
                    assert(slot_paths(parts.0@) =~= slot_paths(before.0@).push(path@));
                    let index = index_entries(parts.1);
                    assert forall|i: int| 0 <= i < parts.0@.len() implies index.contains_key(
                        #[trigger] parts.0@[i].0@,
                    ) && index[parts.0@[i].0@] == i by {
                        if i < slot {
                            assert(parts.0@[i] == before.0@[i]);
                            assert(old_index.contains_key(before.0@[i].0@));
                        }
                    }
                }
            },
        }
        self.parts = parts;
        proof {
            assert(final(self)@ =~= old(self)@.insert(path@, value));
        }
    }

    /// The value recorded for `path`, if there is one.
    pub fn get(&self, path: &str) -> (found: Option<&V>)
        ensures
            found is Some <==> self@.contains_key(path@),
            found matches Some(value) ==> *value == self@[path@],
    {
        proof {
            use_type_invariant(self);
        }
        match index_get(&self.parts.1, path) {
            Some(slot) => Some(&self.parts.0[*slot].1),
            None => None,
        }
    }

    /// Whether a value is recorded for `path`.
    pub fn contains(&self, path: &str) -> (present: bool)
        ensures
            present == self@.contains_key(path@),
    {
        index_get(&self.parts.1, path).is_some()
    }

    /// The path at position `at` of the order.
    pub fn path_at(&self, at: usize) -> (path: &String)
        requires
            at < self.order().len(),
        ensures
            path@ == self.order()[at as int],
    {
        &self.parts.0[at].0
    }

    /// The value recorded for the path at position `at` of the order.
    pub fn value_at(&self, at: usize) -> (value: &V)
        requires
            at < self.order().len(),
        ensures
            self@.contains_key(self.order()[at as int]),
            *value == self@[self.order()[at as int]],
    {
        proof {
            use_type_invariant(self);
        }
        &self.parts.0[at].1
    }
}

} // verus!
