use std::collections::HashMap;
use vstd::prelude::*;

use crate::errors::Error;

verus! {

broadcast use vstd::std_specs::hash::group_hash_axioms;

/// One breedable asset: its genetic content and its breeding depth.
/// Both are write-once; ownership is not stored on the asset itself but
/// derived from the ownership index.
pub struct Kitty {
    /// Genetic content, always exactly 16 bytes.
    pub dna: Vec<u8>,
    /// Breeding depth: 0 for organically created assets, the maximum of the
    /// parents' generations plus one for bred assets.
    pub generation: u64,
}

impl Kitty {
    /// A well-formed asset carries exactly 16 bytes of DNA.
    pub open spec fn wf(self) -> bool {
        self.dna@.len() == 16
    }
}

/// The asset table: maps an asset id to its immutable record. There is no
/// update or delete operation; DNA and generation are write-once.
pub struct AssetTable {
    entries: HashMap<u32, Kitty>,
}

impl View for AssetTable {
    type V = Map<u32, Kitty>;

    closed spec fn view(&self) -> Map<u32, Kitty> {
        self.entries@
    }
}

impl AssetTable {
    /// Every stored record is well formed.
    pub open spec fn wf(self) -> bool {
        forall|id: u32| #[trigger] self@.contains_key(id) ==> self@[id].wf()
    }

    /// An empty table.
    pub fn new() -> (table: AssetTable)
        ensures
            table@ == Map::<u32, Kitty>::empty(),
            table.wf(),
    {
        AssetTable { entries: HashMap::new() }
    }

    /// Store a new record under `id`. Refuses an id that is already
    /// present; given monotonic id issuance that never happens, and the
    /// registry proves it does not.
    pub fn insert(&mut self, id: u32, kitty: Kitty) -> (r: Result<(), Error>)
        ensures
            old(self)@.contains_key(id) ==> r == Err::<(), Error>(Error::DuplicateAsset)
                && final(self)@ == old(self)@,
            !old(self)@.contains_key(id) ==> r == Ok::<(), Error>(())
                && final(self)@ == old(self)@.insert(id, kitty),
    {
        if self.entries.contains_key(&id) {
            Err(Error::DuplicateAsset)
        } else {
            self.entries.insert(id, kitty);
            Ok(())
        }
    }

    /// Look an asset up by id.
    pub fn get(&self, id: u32) -> (r: Option<&Kitty>)
        ensures
            match r {
                Some(kitty) => self@.contains_key(id) && *kitty == self@[id],
                None => !self@.contains_key(id),
            },
    {
        self.entries.get(&id)
    }

    /// Whether an asset with this id exists.
    pub fn contains(&self, id: u32) -> (r: bool)
        ensures
            r == self@.contains_key(id),
    {
        self.entries.contains_key(&id)
    }
}

} // verus!
