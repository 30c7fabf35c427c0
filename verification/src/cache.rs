//! The fragment cache: values that were produced for a read and have not
//! been delivered in full yet, by attribute handle.

use std::collections::HashMap;
use vstd::prelude::*;

verus! {

broadcast use vstd::std_specs::hash::group_hash_axioms;

/// Values kept between the fragments of a read, at most one per handle.
pub struct FragmentCache {
    entries: HashMap<u16, Vec<u8>>,
}

impl View for FragmentCache {
    type V = Map<u16, Seq<u8>>;

    /// The cached bytes by handle.
    closed spec fn view(&self) -> Map<u16, Seq<u8>> {
        Map::new(
            |handle: u16| self.entries@.contains_key(handle),
            |handle: u16| self.entries@[handle]@,
        )
    }
}

impl FragmentCache {
    /// A cache that holds nothing.
    pub fn new() -> (cache: FragmentCache)
        ensures
            cache@ == Map::<u16, Seq<u8>>::empty(),
    {
        let cache = FragmentCache { entries: HashMap::new() };
        assert(cache@ =~= Map::<u16, Seq<u8>>::empty());
        cache
    }

    /// Whether a value is kept for `handle`.
    pub fn contains(&self, handle: u16) -> (found: bool)
        ensures
            found == self@.contains_key(handle),
    {
        self.entries.contains_key(&handle)
    }

    /// The value kept for `handle`, if there is one.
    pub fn get(&self, handle: u16) -> (found: Option<&Vec<u8>>)
        ensures
            match found {
                Some(value) => self@.contains_key(handle) && self@[handle] == value@,
                None => !self@.contains_key(handle),
            },
    {
        self.entries.get(&handle)
    }

    /// Keeps `value` for `handle`, in place of what was kept for it before.
    pub fn insert(&mut self, handle: u16, value: Vec<u8>)
        ensures
            final(self)@ == old(self)@.insert(handle, value@),
    {
        self.entries.insert(handle, value);
        assert(self@ =~= old(self)@.insert(handle, value@));
    }

    /// Drops what is kept for `handle`; nothing changes where nothing was.
    pub fn remove(&mut self, handle: u16)
        ensures
            final(self)@ == old(self)@.remove(handle),
    {
        self.entries.remove(&handle);
        assert(self@ =~= old(self)@.remove(handle));
    }

    /// Number of handles for which a value is kept.
    pub fn len(&self) -> (count: usize)
        ensures
            count == self@.dom().len(),
    {
        proof {
            assert(self@.dom() =~= self.entries@.dom());
        }
        self.entries.len()
    }
}

} // verus!
