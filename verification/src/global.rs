use vstd::prelude::*;

use crate::errors::Error;

verus! {

/// The global enumeration index: an append-only list of every asset id ever
/// created, in creation order. Used only for supply queries; it plays no
/// part in ownership.
pub struct GlobalIndex {
    all: Vec<u32>,
}

impl View for GlobalIndex {
    type V = Seq<u32>;

    closed spec fn view(&self) -> Seq<u32> {
        self.all@
    }
}

impl GlobalIndex {
    /// The count never exceeds the representable range of an asset id.
    pub open spec fn wf(self) -> bool {
        self@.len() <= u32::MAX as nat
    }

    /// An empty index.
    pub fn new() -> (index: GlobalIndex)
        ensures
            index@ == Seq::<u32>::empty(),
            index.wf(),
    {
        GlobalIndex { all: Vec::new() }
    }

    /// Append `id` at the next position. Fails when the count is already at
    /// the representable maximum of the asset id width.
    pub fn record(&mut self, id: u32) -> (r: Result<(), Error>)
        requires
            old(self).wf(),
        ensures
            final(self).wf(),
            old(self)@.len() == u32::MAX as nat ==> r == Err::<(), Error>(Error::SupplyOverflow)
                && final(self)@ == old(self)@,
            old(self)@.len() < u32::MAX as nat ==> r == Ok::<(), Error>(())
                && final(self)@ == old(self)@.push(id),
    {
        if self.all.len() == u32::MAX as usize {
            Err(Error::SupplyOverflow)
        } else {
            self.all.push(id);
            Ok(())
        }
    }

    /// How many assets have ever been created.
    pub fn total_supply(&self) -> (n: u32)
        requires
            self.wf(),
        ensures
            n as nat == self@.len(),
    {
        self.all.len() as u32
    }

    /// The id created at `position`, counting from zero in creation order.
    pub fn asset_at(&self, position: usize) -> (r: Option<u32>)
        ensures
            position < self@.len() ==> r == Some(self@[position as int]),
            position >= self@.len() ==> r is None,
    {
        if position < self.all.len() {
            Some(self.all[position])
        } else {
            None
        }
    }
}

} // verus!
