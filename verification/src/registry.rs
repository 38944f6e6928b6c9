use vstd::prelude::*;

use crate::dna::{blake2_128_of, combined, combine_dna_bytes, dna_payload, fresh_dna};
use crate::errors::Error;
use crate::global::GlobalIndex;
use crate::ownership::OwnershipIndex;
use crate::table::{AssetTable, Kitty};

verus! {

/// The registry service: orchestrates the asset table, the ownership index
/// and the global enumeration index so that `create`, `breed` and
/// `transfer` are atomic logical operations. Every precondition is checked
/// before any store is written, so a failed operation leaves no partial
/// effect.
pub struct Registry {
    table: AssetTable,
    global: GlobalIndex,
    ownership: OwnershipIndex,
    nonce: u64,
}

impl Registry {
    /// The asset stored under `id`, if any.
    pub closed spec fn kitty_spec(self, id: u32) -> Option<Kitty> {
        if self.table@.contains_key(id) {
            Some(self.table@[id])
        } else {
            None
        }
    }

    /// Whether an asset with this id exists.
    pub open spec fn has(self, id: u32) -> bool {
        self.kitty_spec(id) is Some
    }

    /// The DNA of an existing asset (empty for an unknown id).
    pub open spec fn dna_of(self, id: u32) -> Seq<u8> {
        match self.kitty_spec(id) {
            Some(kitty) => kitty.dna@,
            None => Seq::empty(),
        }
    }

    /// The generation of an existing asset (zero for an unknown id).
    pub open spec fn gen_of(self, id: u32) -> u64 {
        match self.kitty_spec(id) {
            Some(kitty) => kitty.generation,
            None => 0,
        }
    }

    /// Every asset id ever issued, in creation order.
    pub closed spec fn all_ids(self) -> Seq<u32> {
        self.global@
    }

    /// How many assets have ever been created.
    pub open spec fn supply(self) -> nat {
        self.all_ids().len()
    }

    /// The ids owned by `account`, dense and zero-based.
    pub closed spec fn owned_of(self, account: u64) -> Seq<u32> {
        self.ownership.owned_seq(account)
    }

    /// The recorded owner of an asset.
    pub closed spec fn owner_of_spec(self, id: u32) -> Option<u64> {
        self.ownership.owner_spec(id)
    }

    /// The per-registry nonce fed into fresh DNA derivation; it advances by
    /// one with each successful creation or breeding.
    pub closed spec fn spec_nonce(self) -> u64 {
        self.nonce
    }

    /// The registry invariant: the stores are each well formed and agree.
    /// Ids are issued densely (the table holds exactly the ids below the
    /// supply, and the global index lists them in order), every stored
    /// asset has exactly one recorded owner, the nonce equals the supply,
    /// and generations never outgrow their asset's id.
    pub closed spec fn wf(self) -> bool {
        &&& self.table.wf()
        &&& self.global.wf()
        &&& self.ownership.wf()
        &&& self.nonce as nat == self.global@.len()
        &&& forall|i: int|
            #![trigger self.global@[i]]
            0 <= i < self.global@.len() ==> self.global@[i] == i as u32
        &&& forall|id: u32|
            #[trigger] self.table@.contains_key(id) <==> (id as nat) < self.global@.len()
        &&& forall|id: u32|
            #[trigger] self.table@.contains_key(id) <==> self.ownership.owner_spec(id) is Some
        &&& forall|id: u32|
            #[trigger] self.table@.contains_key(id) ==> self.table@[id].generation <= id as u64
    }

    /// An empty registry.
    pub fn new() -> (registry: Registry)
        ensures
            registry.wf(),
            registry.supply() == 0,
            registry.spec_nonce() == 0,
            registry.all_ids() == Seq::<u32>::empty(),
            forall|account: u64| registry.owned_of(account) == Seq::<u32>::empty(),
            forall|id: u32| registry.kitty_spec(id) is None,
            forall|id: u32| registry.owner_of_spec(id) is None,
    {
        Registry {
            table: AssetTable::new(),
            global: GlobalIndex::new(),
            ownership: OwnershipIndex::new(),
            nonce: 0,
        }
    }

    /// Create a new asset for `requester`: its id is the current supply,
    /// its DNA is digested from the given seed, the requester and the
    /// current nonce, and its generation is zero. Fails only when the
    /// supply is at the maximum, and then changes nothing.
    pub fn create(&mut self, requester: u64, seed: &Vec<u8>) -> (r: Result<u32, Error>)
        requires
            old(self).wf(),
        ensures
            final(self).wf(),
            old(self).supply() == u32::MAX as nat ==> r == Err::<u32, Error>(
                Error::SupplyOverflow,
            ) && *final(self) == *old(self),
            old(self).supply() < u32::MAX as nat ==> ({
                let id = old(self).supply() as u32;
                &&& r == Ok::<u32, Error>(id)
                &&& final(self).supply() == old(self).supply() + 1
                &&& final(self).spec_nonce() == old(self).spec_nonce() + 1
                &&& final(self).all_ids() == old(self).all_ids().push(id)
                &&& final(self).has(id)
                &&& final(self).dna_of(id) == blake2_128_of(
                    dna_payload(seed@, requester, old(self).spec_nonce()),
                )
                &&& final(self).gen_of(id) == 0
                &&& forall|k: u32| k != id ==> final(self).kitty_spec(k) == old(self).kitty_spec(k)
                &&& final(self).owner_of_spec(id) == Some(requester)
                &&& forall|k: u32|
                    k != id ==> final(self).owner_of_spec(k) == old(self).owner_of_spec(k)
                &&& final(self).owned_of(requester) == old(self).owned_of(requester).push(id)
                &&& forall|account: u64|
                    account != requester ==> final(self).owned_of(account) == old(self).owned_of(
                        account,
                    )
            }),
    {
        let id = match self.next_kitty_id() {
            Err(fault) => {
                return Err(fault);
            },
            Ok(id) => id,
        };
        let dna = fresh_dna(seed, requester, self.nonce);
        match self.insert_kitty(requester, id, Kitty { dna, generation: 0 }) {
            Err(fault) => {
                return Err(fault);
            },
            Ok(()) => {},
        }
        Ok(id)
    }

    /// Breed a child asset for `requester` from two distinct existing
    /// parents: the child's DNA combines the parents' DNA bit by bit under
    /// a freshly digested selector, and its generation is one more than the
    /// larger parent generation. Any precondition failure changes nothing.
    pub fn breed(&mut self, requester: u64, parent1: u32, parent2: u32, seed: &Vec<u8>) -> (r:
        Result<u32, Error>)
        requires
            old(self).wf(),
        ensures
            final(self).wf(),
            !old(self).has(parent1) || !old(self).has(parent2) ==> r == Err::<u32, Error>(
                Error::UnknownAsset,
            ) && *final(self) == *old(self),
            old(self).has(parent1) && old(self).has(parent2) && parent1 == parent2 ==> r
                == Err::<u32, Error>(Error::SameParent) && *final(self) == *old(self),
            old(self).has(parent1) && old(self).has(parent2) && parent1 != parent2 && old(
                self,
            ).supply() == u32::MAX as nat ==> r == Err::<u32, Error>(Error::SupplyOverflow)
                && *final(self) == *old(self),
            old(self).has(parent1) && old(self).has(parent2) && parent1 != parent2 && old(
                self,
            ).supply() < u32::MAX as nat ==> ({
                let id = old(self).supply() as u32;
                let selector = blake2_128_of(
                    dna_payload(seed@, requester, old(self).spec_nonce()),
                );
                &&& r == Ok::<u32, Error>(id)
                &&& final(self).supply() == old(self).supply() + 1
                &&& final(self).spec_nonce() == old(self).spec_nonce() + 1
                &&& final(self).all_ids() == old(self).all_ids().push(id)
                &&& final(self).has(id)
                &&& final(self).dna_of(id) == combined(
                    old(self).dna_of(parent1),
                    old(self).dna_of(parent2),
                    selector,
                )
                &&& final(self).gen_of(id) == (if old(self).gen_of(parent1) >= old(self).gen_of(
                    parent2,
                ) {
                    old(self).gen_of(parent1)
                } else {
                    old(self).gen_of(parent2)
                }) + 1
                &&& forall|k: u32| k != id ==> final(self).kitty_spec(k) == old(self).kitty_spec(k)
                &&& final(self).owner_of_spec(id) == Some(requester)
                &&& forall|k: u32|
                    k != id ==> final(self).owner_of_spec(k) == old(self).owner_of_spec(k)
                &&& final(self).owned_of(requester) == old(self).owned_of(requester).push(id)
                &&& forall|account: u64|
                    account != requester ==> final(self).owned_of(account) == old(self).owned_of(
                        account,
                    )
            }),
    {
        let parent_kitty1 = match self.table.get(parent1) {
            None => {
                return Err(Error::UnknownAsset);
            },
            Some(kitty) => kitty,
        };
        let parent_kitty2 = match self.table.get(parent2) {
            None => {
                return Err(Error::UnknownAsset);
            },
            Some(kitty) => kitty,
        };
        if parent1 == parent2 {
            return Err(Error::SameParent);
        }
        let id = match self.next_kitty_id() {
            Err(fault) => {
                return Err(fault);
            },
            Ok(id) => id,
        };
        let selector = fresh_dna(seed, requester, self.nonce);
        let child_dna = combine_dna_bytes(&parent_kitty1.dna, &parent_kitty2.dna, &selector);
        let generation1 = parent_kitty1.generation;
        let generation2 = parent_kitty2.generation;
        let generation = (if generation1 >= generation2 {
            generation1
        } else {
            generation2
        }) + 1;
        match self.insert_kitty(requester, id, Kitty { dna: child_dna, generation }) {
            Err(fault) => {
                return Err(fault);
            },
            Ok(()) => {},
        }
        Ok(id)
    }

    /// The id the next creation will take: the current supply. Fails with
    /// `SupplyOverflow` when the count is already at the representable
    /// maximum of the asset id width.
    fn next_kitty_id(&self) -> (r: Result<u32, Error>)
        requires
            self.wf(),
        ensures
            self.supply() < u32::MAX as nat ==> r == Ok::<u32, Error>(self.supply() as u32),
            self.supply() == u32::MAX as nat ==> r == Err::<u32, Error>(Error::SupplyOverflow),
    {
        let supply = self.global.total_supply();
        if supply == u32::MAX {
            Err(Error::SupplyOverflow)
        } else {
            Ok(supply)
        }
    }

    /// The shared tail of `create` and `breed`: store the new asset,
    /// index its ownership, record it in the global enumeration, and
    /// advance the nonce alongside the supply. Under its preconditions it
    /// cannot fail — the id is fresh and the supply below its cap — and
    /// its result says so.
    fn insert_kitty(&mut self, owner: u64, id: u32, kitty: Kitty) -> (r: Result<(), Error>)
        requires
            old(self).wf(),
            id as nat == old(self).supply(),
            old(self).supply() < u32::MAX as nat,
            kitty.wf(),
            kitty.generation <= id as u64,
        ensures
            final(self).wf(),
            r == Ok::<(), Error>(()),
            final(self).supply() == old(self).supply() + 1,
            final(self).spec_nonce() == old(self).spec_nonce() + 1,
            final(self).all_ids() == old(self).all_ids().push(id),
            final(self).has(id),
            final(self).dna_of(id) == kitty.dna@,
            final(self).gen_of(id) == kitty.generation,
            forall|k: u32| k != id ==> final(self).kitty_spec(k) == old(self).kitty_spec(k),
            final(self).owner_of_spec(id) == Some(owner),
            forall|k: u32| k != id ==> final(self).owner_of_spec(k) == old(self).owner_of_spec(k),
            final(self).owned_of(owner) == old(self).owned_of(owner).push(id),
            forall|account: u64|
                account != owner ==> final(self).owned_of(account) == old(self).owned_of(account),
    {
        match self.table.insert(id, kitty) {
            Err(fault) => {
                return Err(fault);
            },
            Ok(()) => {},
        }
        self.ownership.append(owner, id);
        match self.global.record(id) {
            Err(fault) => {
                return Err(fault);
            },
            Ok(()) => {},
        }
        self.nonce = self.nonce + 1;
        proof {
            self.lemma_wf_after_issue(*old(self), owner, id);
        }
        Ok(())
    }

    /// The common reasoning behind `create` and `breed`: issuing one new
    /// well-formed asset with the next id to `requester` preserves the
    /// registry invariant.
    proof fn lemma_wf_after_issue(self, pre: Registry, requester: u64, id: u32)
        requires
            pre.wf(),
            id as nat == pre.supply(),
            pre.supply() < u32::MAX as nat,
            self.table@ == pre.table@.insert(id, self.table@[id]),
            self.table@.contains_key(id),
            self.table@[id].wf(),
            self.table@[id].generation <= id as u64,
            self.global@ == pre.global@.push(id),
            self.global.wf(),
            self.ownership.wf(),
            self.ownership.owner_spec(id) == Some(requester),
            forall|k: u32|
                k != id ==> self.ownership.owner_spec(k) == pre.ownership.owner_spec(k),
            self.nonce == pre.nonce + 1,
        ensures
            self.wf(),
    {
        assert forall|i: int| 0 <= i < self.global@.len() implies #[trigger] self.global@[i]
            == i as u32 by {
            if i < pre.global@.len() {
                assert(pre.global@[i] == i as u32);
            }
        }
        assert forall|k: u32| #[trigger]
            self.table@.contains_key(k) <==> (k as nat) < self.global@.len() by {
            if k != id {
                assert(self.table@.contains_key(k) == pre.table@.contains_key(k));
            }
        }
        assert forall|k: u32| #[trigger]
            self.table@.contains_key(k) <==> self.ownership.owner_spec(k) is Some by {
            if k != id {
                assert(self.ownership.owner_spec(k) == pre.ownership.owner_spec(k));
            }
        }
        assert forall|k: u32| #[trigger]
            self.table@.contains_key(k) implies self.table@[k].generation <= k as u64 by {
            if k != id {
                assert(pre.table@.contains_key(k));
                assert(self.table@[k] == pre.table@[k]);
            }
        }
    }

    /// Move an existing asset from `sender`'s list to the end of
    /// `recipient`'s list. The asset table is untouched: ownership lives
    /// only in the index. Any precondition failure changes nothing.
    pub fn transfer(&mut self, sender: u64, recipient: u64, id: u32) -> (r: Result<(), Error>)
        requires
            old(self).wf(),
        ensures
            final(self).wf(),
            !old(self).has(id) ==> r == Err::<(), Error>(Error::UnknownAsset) && *final(self)
                == *old(self),
            old(self).has(id) && sender == recipient ==> r == Err::<(), Error>(
                Error::SelfTransfer,
            ) && *final(self) == *old(self),
            old(self).has(id) && sender != recipient && old(self).owner_of_spec(id) != Some(
                sender,
            ) ==> r == Err::<(), Error>(Error::NotOwner) && *final(self) == *old(self),
            old(self).has(id) && sender != recipient && old(self).owner_of_spec(id) == Some(
                sender,
            ) ==> ({
                let s = old(self).owned_of(sender);
                let pos = old(self).transfer_pos(id);
                &&& r == Ok::<(), Error>(())
                &&& 0 <= pos < s.len() && s[pos] == id
                &&& final(self).owner_of_spec(id) == Some(recipient)
                &&& forall|k: u32|
                    k != id ==> final(self).owner_of_spec(k) == old(self).owner_of_spec(k)
                &&& final(self).owned_of(sender) == s.update(pos, s.last()).drop_last()
                &&& final(self).owned_of(sender).len() == s.len() - 1
                &&& final(self).owned_of(sender).to_set() == s.to_set().remove(id)
                &&& final(self).owned_of(recipient) == old(self).owned_of(recipient).push(id)
                &&& forall|account: u64|
                    account != sender && account != recipient ==> final(self).owned_of(account)
                        == old(self).owned_of(account)
                &&& forall|k: u32| final(self).kitty_spec(k) == old(self).kitty_spec(k)
                &&& final(self).all_ids() == old(self).all_ids()
                &&& final(self).spec_nonce() == old(self).spec_nonce()
            }),
    {
        if !self.table.contains(id) {
            return Err(Error::UnknownAsset);
        }
        if sender == recipient {
            return Err(Error::SelfTransfer);
        }
        let owner = match self.ownership.owner_of(id) {
            None => {
                return Err(Error::NotOwner);
            },
            Some(account) => account,
        };
        if owner != sender {
            return Err(Error::NotOwner);
        }
        proof {
            old(self).ownership.lemma_placed_member(id);
            old(self).ownership.lemma_owned_no_dup(sender);
            lemma_swap_remove_to_set(
                old(self).ownership.owned_seq(sender),
                old(self).transfer_pos(id),
            );
        }
        match self.ownership.remove_and_compact(sender, id) {
            Err(fault) => {
                return Err(fault);
            },
            Ok(()) => {},
        }
        self.ownership.append(recipient, id);
        Ok(())
    }

    /// The position `id` holds in its owner's list (meaningful only while
    /// the asset is owned).
    pub closed spec fn transfer_pos(self, id: u32) -> int {
        self.ownership.placed(id).unwrap().1 as int
    }

    /// Look an asset up by id.
    pub fn kitty(&self, id: u32) -> (r: Option<&Kitty>)
        ensures
            match r {
                Some(kitty) => self.kitty_spec(id) == Some(*kitty),
                None => self.kitty_spec(id) is None,
            },
    {
        self.table.get(id)
    }

    /// The recorded owner of an asset, or `None` for an unknown id.
    pub fn owner_of(&self, id: u32) -> (r: Option<u64>)
        ensures
            r == self.owner_of_spec(id),
    {
        self.ownership.owner_of(id)
    }

    /// How many assets `account` owns.
    pub fn owned_kitties_count(&self, account: u64) -> (n: usize)
        ensures
            n == self.owned_of(account).len(),
    {
        self.ownership.count_of(account)
    }

    /// The asset at `position` in `account`'s list, or `None` past its end.
    pub fn owned_kitty_at(&self, account: u64, position: usize) -> (r: Option<u32>)
        ensures
            position < self.owned_of(account).len() ==> r == Some(
                self.owned_of(account)[position as int],
            ),
            position >= self.owned_of(account).len() ==> r is None,
    {
        self.ownership.asset_at(account, position)
    }

    /// How many assets have ever been created.
    pub fn kitties_count(&self) -> (n: u32)
        requires
            self.wf(),
        ensures
            n as nat == self.supply(),
    {
        self.global.total_supply()
    }

    /// The id created at `position`, counting from zero in creation order.
    pub fn kitty_at(&self, position: usize) -> (r: Option<u32>)
        ensures
            position < self.supply() ==> r == Some(self.all_ids()[position as int]),
            position >= self.supply() ==> r is None,
    {
        self.global.asset_at(position)
    }

    /// Law: ids issued by two consecutive successful operations are
    /// consecutive integers — strictly increasing, with no gap and no
    /// repeat. The supply facts required here are exactly what `create`
    /// and `breed` ensure of each successful call.
    pub proof fn lemma_monotonic_ids(
        first: Registry,
        second: Registry,
        third: Registry,
        id1: u32,
        id2: u32,
    )
        requires
            id1 as nat == first.supply(),
            second.supply() == first.supply() + 1,
            id2 as nat == second.supply(),
            third.supply() == second.supply() + 1,
            second.supply() <= u32::MAX as nat,
        ensures
            id2 == id1 + 1,
    {
    }

    /// Law: every stored asset carries exactly 16 bytes of DNA.
    pub proof fn lemma_dna_len(self, id: u32)
        requires
            self.wf(),
            self.has(id),
        ensures
            self.dna_of(id).len() == 16,
    {
    }

    /// Law: an owned asset stands at exactly one position of its owner's
    /// list, and that position is below the owner's count.
    pub proof fn lemma_ownership_consistency(self, account: u64, id: u32)
        requires
            self.wf(),
            self.owner_of_spec(id) == Some(account),
        ensures
            exists|p: int| 0 <= p < self.owned_of(account).len() && self.owned_of(account)[p] == id,
            forall|p1: int, p2: int|
                0 <= p1 < self.owned_of(account).len() && 0 <= p2 < self.owned_of(account).len()
                    && self.owned_of(account)[p1] == id && self.owned_of(account)[p2] == id ==> p1
                    == p2,
    {
        self.ownership.lemma_placed_unique(account, id);
        let p = choose|p: int|
            0 <= p < self.ownership.owned_seq(account).len() && self.ownership.owned_seq(
                account,
            )[p] == id;
        assert(0 <= p < self.owned_of(account).len() && self.owned_of(account)[p] == id);
    }

    /// Law: the global enumeration lists the ids in creation order — the
    /// id at position `i` is `i` itself — so all listed ids are distinct.
    pub proof fn lemma_creation_order(self)
        requires
            self.wf(),
        ensures
            forall|i: int| 0 <= i < self.supply() ==> #[trigger] self.all_ids()[i] == i as u32,
            forall|i: int, j: int|
                0 <= i < self.supply() && 0 <= j < self.supply() && i != j ==> self.all_ids()[i]
                    != self.all_ids()[j],
    {
        assert forall|i: int, j: int|
            0 <= i < self.supply() && 0 <= j < self.supply() && i != j implies self.all_ids()[i]
            != self.all_ids()[j] by {
            assert(self.all_ids()[i] == i as u32);
            assert(self.all_ids()[j] == j as u32);
        }
    }
}

/// Swap-and-truncate removal on a duplicate-free sequence drops exactly the
/// removed element from the set of entries.
proof fn lemma_swap_remove_to_set(s: Seq<u32>, pos: int)
    requires
        0 <= pos < s.len(),
        forall|p1: int, p2: int|
            0 <= p1 < s.len() && 0 <= p2 < s.len() && p1 != p2 ==> s[p1] != s[p2],
    ensures
        s.update(pos, s.last()).drop_last().to_set() == s.to_set().remove(s[pos]),
{
    let ns = s.update(pos, s.last()).drop_last();
    assert forall|x: u32| ns.to_set().contains(x) implies s.to_set().remove(s[pos]).contains(
        x,
    ) by {
        let i = choose|i: int| 0 <= i < ns.len() && ns[i] == x;
        if i == pos {
            assert(s[s.len() - 1] == x);
        } else {
            assert(s[i] == x);
        }
        assert(s.contains(x));
        assert(x != s[pos]);
    }
    assert forall|x: u32| s.to_set().remove(s[pos]).contains(x) implies ns.to_set().contains(
        x,
    ) by {
        let j = choose|j: int| 0 <= j < s.len() && s[j] == x;
        assert(j != pos);
        if j == s.len() - 1 {
            assert(ns[pos] == x);
        } else {
            assert(ns[j] == x);
        }
        assert(ns.contains(x));
    }
    assert(ns.to_set() =~= s.to_set().remove(s[pos]));
}

} // verus!
