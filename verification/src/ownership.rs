use std::collections::HashMap;
use vstd::prelude::*;

use crate::errors::Error;

verus! {

broadcast use vstd::std_specs::hash::group_hash_axioms;

/// The ownership index: two co-maintained structures. For every account, a
/// dense, zero-based, gap-free list of the asset ids it owns; and the
/// reverse map from asset id to (owner, position). Appending and
/// swap-and-truncate removal both take constant time, whatever the list
/// lengths.
pub struct OwnershipIndex {
    owned: HashMap<u64, Vec<u32>>,
    locate: HashMap<u32, (u64, usize)>,
}

impl OwnershipIndex {
    /// The dense list of asset ids owned by `account` (empty for an account
    /// that owns nothing).
    pub closed spec fn owned_seq(self, account: u64) -> Seq<u32> {
        if self.owned@.contains_key(account) {
            self.owned@[account]@
        } else {
            Seq::empty()
        }
    }

    /// Where an asset stands: its owner and its position in that owner's
    /// list, or `None` for an asset this index has never seen.
    pub closed spec fn placed(self, id: u32) -> Option<(u64, usize)> {
        if self.locate@.contains_key(id) {
            Some(self.locate@[id])
        } else {
            None
        }
    }

    /// The recorded owner of an asset.
    pub open spec fn owner_spec(self, id: u32) -> Option<u64> {
        match self.placed(id) {
            Some(loc) => Some(loc.0),
            None => None,
        }
    }

    /// The two structures agree: every list entry is located back at its
    /// own position, and every located asset stands in the named owner's
    /// list at the named position.
    pub closed spec fn wf(self) -> bool {
        &&& forall|a: u64, p: int|
            #![trigger self.owned_seq(a)[p]]
            0 <= p < self.owned_seq(a).len() ==> self.placed(self.owned_seq(a)[p]) == Some(
                (a, p as usize),
            )
        &&& forall|id: u32|
            #![trigger self.placed(id)]
            self.placed(id) is Some ==> {
                let loc = self.placed(id).unwrap();
                loc.1 < self.owned_seq(loc.0).len() && self.owned_seq(loc.0)[loc.1 as int] == id
            }
    }

    /// An empty index.
    pub fn new() -> (index: OwnershipIndex)
        ensures
            index.wf(),
            forall|a: u64| index.owned_seq(a) == Seq::<u32>::empty(),
            forall|id: u32| index.placed(id) is None,
    {
        OwnershipIndex { owned: HashMap::new(), locate: HashMap::new() }
    }

    /// Record a fresh asset as the last one owned by `account`.
    pub fn append(&mut self, account: u64, id: u32)
        requires
            old(self).wf(),
            old(self).placed(id) is None,
        ensures
            final(self).wf(),
            final(self).owned_seq(account) == old(self).owned_seq(account).push(id),
            forall|a: u64| a != account ==> final(self).owned_seq(a) == old(self).owned_seq(a),
            final(self).placed(id) == Some(
                (account, old(self).owned_seq(account).len() as usize),
            ),
            forall|k: u32| k != id ==> final(self).placed(k) == old(self).placed(k),
    {
        let mut list = match self.owned.remove(&account) {
            None => Vec::new(),
            Some(v) => v,
        };
        proof {
            assert(list@ =~= old(self).owned_seq(account));
        }
        let position = list.len();
        list.push(id);
        self.owned.insert(account, list);
        self.locate.insert(id, (account, position));
        proof {
            assert forall|a: u64| a != account implies self.owned_seq(a) == old(self).owned_seq(
                a,
            ) by {
                assert(self.owned@.contains_key(a) == old(self).owned@.contains_key(a));
            }
            assert(self.owned_seq(account) =~= old(self).owned_seq(account).push(id));
            assert forall|a: u64, p: int|
                0 <= p < self.owned_seq(a).len() implies #[trigger] self.placed(
                self.owned_seq(a)[p],
            ) == Some((a, p as usize)) by {
                if a == account && p == old(self).owned_seq(account).len() {
                    assert(self.owned_seq(a)[p] == id);
                } else {
                    let k = if a == account {
                        old(self).owned_seq(account)[p]
                    } else {
                        old(self).owned_seq(a)[p]
                    };
                    assert(self.owned_seq(a)[p] == k);
                    assert(old(self).placed(k) == Some((a, p as usize)));
                    assert(k != id);
                }
            }
            assert forall|k: u32| self.placed(k) is Some implies {
                let loc = self.placed(k).unwrap();
                loc.1 < self.owned_seq(loc.0).len() && self.owned_seq(loc.0)[loc.1 as int] == k
            } by {
                if k != id {
                    assert(old(self).placed(k) == self.placed(k));
                }
            }
        }
    }

    /// Take `id` out of `account`'s list by moving the last list entry into
    /// its slot and truncating. Fails with `NotOwner`, touching nothing,
    /// when `account` is not the recorded owner. Order among the remaining
    /// entries is not preserved: the previously last entry takes the freed
    /// position.
    pub fn remove_and_compact(&mut self, account: u64, id: u32) -> (r: Result<(), Error>)
        requires
            old(self).wf(),
        ensures
            final(self).wf(),
            old(self).owner_spec(id) != Some(account) ==> r == Err::<(), Error>(Error::NotOwner)
                && *final(self) == *old(self),
            old(self).owner_spec(id) == Some(account) ==> {
                let s = old(self).owned_seq(account);
                let pos = old(self).placed(id).unwrap().1;
                &&& r == Ok::<(), Error>(())
                &&& final(self).owned_seq(account) == s.update(pos as int, s.last()).drop_last()
                &&& forall|a: u64|
                    a != account ==> final(self).owned_seq(a) == old(self).owned_seq(a)
                &&& final(self).placed(id) is None
                &&& forall|k: u32|
                    k != id ==> final(self).owner_spec(k) == old(self).owner_spec(k)
            },
    {
        let position: usize = match self.locate.get(&id) {
            None => {
                return Err(Error::NotOwner);
            },
            Some(loc) => {
                if loc.0 != account {
                    return Err(Error::NotOwner);
                }
                loc.1
            },
        };
        let ghost s = old(self).owned_seq(account);
        let mut list = match self.owned.remove(&account) {
            None => {
                proof {
                    assert(false);
                }
                Vec::new()
            },
            Some(v) => v,
        };
        proof {
            assert(list@ =~= s);
        }
        list.swap_remove(position);
        self.locate.remove(&id);
        if position < list.len() {
            let moved = list[position];
            proof {
                assert(moved == s[s.len() - 1]);
                assert(old(self).placed(moved) == Some((account, (s.len() - 1) as usize)));
                assert(moved != id);
            }
            self.locate.insert(moved, (account, position));
        }
        self.owned.insert(account, list);
        proof {
            let ns = s.update(position as int, s.last()).drop_last();
            assert(self.owned_seq(account) =~= ns);
            assert forall|a: u64| a != account implies self.owned_seq(a) == old(self).owned_seq(
                a,
            ) by {
                assert(self.owned@.contains_key(a) == old(self).owned@.contains_key(a));
            }
            assert(self.placed(id) is None);
            assert forall|k: u32| k != id implies self.owner_spec(k) == old(self).owner_spec(
                k,
            ) by {
                if position < ns.len() && k == s[s.len() - 1] {
                    assert(self.placed(k) == Some((account, position)));
                    assert(old(self).placed(k) == Some((account, (s.len() - 1) as usize)));
                }
            }
            assert forall|a: u64, p: int|
                0 <= p < self.owned_seq(a).len() implies #[trigger] self.placed(
                self.owned_seq(a)[p],
            ) == Some((a, p as usize)) by {
                if a == account {
                    if p == position && position < ns.len() {
                        assert(self.owned_seq(a)[p] == s[s.len() - 1]);
                        assert(self.placed(s[s.len() - 1]) == Some((account, position)));
                    } else {
                        let k = s[p];
                        assert(self.owned_seq(a)[p] == k);
                        assert(old(self).placed(k) == Some((a, p as usize)));
                        assert(k != id);
                        assert(k != s[s.len() - 1]);
                    }
                } else {
                    let k = old(self).owned_seq(a)[p];
                    assert(old(self).placed(k) == Some((a, p as usize)));
                    assert(k != id);
                    assert(position < ns.len() ==> k != s[s.len() - 1]);
                }
            }
            assert forall|k: u32| self.placed(k) is Some implies {
                let loc = self.placed(k).unwrap();
                loc.1 < self.owned_seq(loc.0).len() && self.owned_seq(loc.0)[loc.1 as int] == k
            } by {
                if position < ns.len() && k == s[s.len() - 1] {
                    assert(self.placed(k) == Some((account, position)));
                    assert(self.owned_seq(account)[position as int] == k);
                } else {
                    assert(k != id);
                    assert(self.placed(k) == old(self).placed(k));
                    let loc = old(self).placed(k).unwrap();
                    assert(loc.1 < old(self).owned_seq(loc.0).len() && old(self).owned_seq(
                        loc.0,
                    )[loc.1 as int] == k);
                    if loc.0 == account {
                        assert(loc.1 != position);
                        assert(loc.1 != s.len() - 1);
                        assert(self.owned_seq(account)[loc.1 as int] == s[loc.1 as int]);
                    }
                }
            }
        }
        Ok(())
    }

    /// How many assets `account` owns.
    pub fn count_of(&self, account: u64) -> (n: usize)
        ensures
            n == self.owned_seq(account).len(),
    {
        match self.owned.get(&account) {
            None => 0,
            Some(list) => list.len(),
        }
    }

    /// The asset at `position` in `account`'s list, or `None` past its end.
    pub fn asset_at(&self, account: u64, position: usize) -> (r: Option<u32>)
        ensures
            position < self.owned_seq(account).len() ==> r == Some(
                self.owned_seq(account)[position as int],
            ),
            position >= self.owned_seq(account).len() ==> r is None,
    {
        match self.owned.get(&account) {
            None => None,
            Some(list) => if position < list.len() {
                Some(list[position])
            } else {
                None
            },
        }
    }

    /// The recorded owner of an asset, or `None` for an unknown one.
    pub fn owner_of(&self, id: u32) -> (r: Option<u64>)
        ensures
            r == self.owner_spec(id),
    {
        match self.locate.get(&id) {
            None => None,
            Some(loc) => Some(loc.0),
        }
    }

    /// Law: a located asset stands in the named owner's list at the named
    /// position.
    pub proof fn lemma_placed_member(self, id: u32)
        requires
            self.wf(),
            self.placed(id) is Some,
        ensures
            ({
                let loc = self.placed(id).unwrap();
                loc.1 < self.owned_seq(loc.0).len() && self.owned_seq(loc.0)[loc.1 as int] == id
            }),
    {
    }

    /// An account's list is a vector, so its length fits the machine.
    proof fn lemma_owned_len_bound(self, account: u64)
        ensures
            self.owned_seq(account).len() <= usize::MAX as nat,
    {
        if self.owned@.contains_key(account) {
            let list = self.owned@[account];
            assert(list.len() == list@.len());
        }
    }

    /// Law: an owned asset stands at exactly one position of its owner's
    /// list.
    pub proof fn lemma_placed_unique(self, account: u64, id: u32)
        requires
            self.wf(),
            self.owner_spec(id) == Some(account),
        ensures
            exists|p: int|
                0 <= p < self.owned_seq(account).len() && self.owned_seq(account)[p] == id,
            forall|p1: int, p2: int|
                0 <= p1 < self.owned_seq(account).len() && 0 <= p2 < self.owned_seq(
                    account,
                ).len() && self.owned_seq(account)[p1] == id && self.owned_seq(account)[p2] == id
                    ==> p1 == p2,
    {
        let loc = self.placed(id).unwrap();
        assert(self.owned_seq(account)[loc.1 as int] == id);
        self.lemma_owned_len_bound(account);
        assert forall|p1: int, p2: int|
            0 <= p1 < self.owned_seq(account).len() && 0 <= p2 < self.owned_seq(account).len()
                && self.owned_seq(account)[p1] == id && self.owned_seq(account)[p2]
                == id implies p1 == p2 by {
            assert(self.placed(self.owned_seq(account)[p1]) == Some((account, p1 as usize)));
            assert(self.placed(self.owned_seq(account)[p2]) == Some((account, p2 as usize)));
        }
    }

    /// Law: the entries of one account's list are pairwise distinct.
    pub proof fn lemma_owned_no_dup(self, account: u64)
        requires
            self.wf(),
        ensures
            forall|p1: int, p2: int|
                0 <= p1 < self.owned_seq(account).len() && 0 <= p2 < self.owned_seq(
                    account,
                ).len() && p1 != p2 ==> self.owned_seq(account)[p1] != self.owned_seq(account)[p2],
    {
        self.lemma_owned_len_bound(account);
        assert forall|p1: int, p2: int|
            0 <= p1 < self.owned_seq(account).len() && 0 <= p2 < self.owned_seq(account).len()
                && p1 != p2 implies self.owned_seq(account)[p1] != self.owned_seq(
            account,
        )[p2] by {
            assert(self.placed(self.owned_seq(account)[p1]) == Some((account, p1 as usize)));
            assert(self.placed(self.owned_seq(account)[p2]) == Some((account, p2 as usize)));
        }
    }

    /// Law: a list entry is located back at its own position.
    pub proof fn lemma_member_placed(self, account: u64, p: int)
        requires
            self.wf(),
            0 <= p < self.owned_seq(account).len(),
        ensures
            self.placed(self.owned_seq(account)[p]) == Some((account, p as usize)),
    {
    }
}

} // verus!
