//! Process-scope memoization of previously built scope trees.
//!
//! The cache is an explicit object handed by reference to whichever
//! component wants memoization, keyed by a source identity (a content
//! hash or a resolved-path hash, chosen by the caller). Entries are
//! added on the first build of a given source and never invalidated
//! automatically: a caller is responsible for cache-busting if the
//! source content changes.

use vstd::prelude::*;
use std::collections::HashMap;
use crate::block::Block;

verus! {

broadcast use vstd::std_specs::hash::group_hash_axioms;

/// A mapping from source identity to a previously built scope tree.
pub struct BlockCache {
    entries: HashMap<u64, Block>,
}

impl View for BlockCache {
    type V = Map<u64, Block>;

    closed spec fn view(&self) -> Map<u64, Block> {
        self.entries@
    }
}

impl BlockCache {
    /// An empty cache: no source has been built yet.
    pub fn new() -> (r: Self)
        ensures
            r@ == Map::<u64, Block>::empty(),
    {
        BlockCache { entries: HashMap::new() }
    }

    /// Whether a tree is already cached under `key`.
    pub fn contains(&self, key: u64) -> (r: bool)
        ensures
            r == self@.contains_key(key),
    {
        self.entries.contains_key(&key)
    }

    /// Records the tree built for `key`, replacing any earlier entry for
    /// the same key and leaving every other entry unchanged.
    pub fn store(&mut self, key: u64, block: Block)
        ensures
            final(self)@ == old(self)@.insert(key, block),
    {
        self.entries.insert(key, block);
    }

    /// The tree previously stored under `key`, if any.
    pub fn lookup(&self, key: u64) -> (r: Option<&Block>)
        ensures
            match r {
                Some(b) => self@.contains_key(key) && *b == self@[key],
                None => !self@.contains_key(key),
            },
    {
        self.entries.get(&key)
    }

    /// The number of sources cached so far.
    pub fn len(&self) -> (r: usize)
        ensures
            r == self@.len(),
    {
        self.entries.len()
    }
}

} // verus!
