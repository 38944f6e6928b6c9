use kitties::dna::{combine_dna, fresh_dna};
use kitties::{Error, Registry};

fn seed() -> Vec<u8> {
    (0..32u8).map(|i| i.wrapping_mul(37).wrapping_add(11)).collect()
}

#[test]
fn create_assigns_monotonic_ids() {
    let mut registry = Registry::new();
    let seed = seed();
    assert_eq!(registry.create(1, &seed), Ok(0));
    assert_eq!(registry.create(2, &seed), Ok(1));
    assert_eq!(registry.create(1, &seed), Ok(2));
    assert_eq!(registry.kitties_count(), 3);
    assert_eq!(registry.kitty_at(0), Some(0));
    assert_eq!(registry.kitty_at(1), Some(1));
    assert_eq!(registry.kitty_at(2), Some(2));
    assert_eq!(registry.kitty_at(3), None);
}

#[test]
fn create_records_owner_and_dna() {
    let mut registry = Registry::new();
    let seed = seed();
    let id = registry.create(7, &seed).unwrap();
    assert_eq!(registry.owner_of(id), Some(7));
    assert_eq!(registry.owned_kitties_count(7), 1);
    assert_eq!(registry.owned_kitty_at(7, 0), Some(id));
    assert_eq!(registry.owned_kitty_at(7, 1), None);
    let kitty = registry.kitty(id).unwrap();
    // The first creation draws nonce 0.
    assert_eq!(kitty.dna, fresh_dna(&seed, 7, 0));
    assert_eq!(kitty.generation, 0);
    assert!(registry.kitty(99).is_none());
}

#[test]
fn breed_combines_parent_dna_and_generation() {
    let mut registry = Registry::new();
    let seed = seed();
    let parent1 = registry.create(7, &seed).unwrap();
    let parent2 = registry.create(8, &seed).unwrap();
    let child = registry.breed(9, parent1, parent2, &seed).unwrap();
    assert_eq!(child, 2);
    assert_eq!(registry.owner_of(child), Some(9));
    // The parents coexist with the child.
    assert_eq!(registry.owner_of(parent1), Some(7));
    assert_eq!(registry.owner_of(parent2), Some(8));
    assert_eq!(registry.kitties_count(), 3);
    // The selector was drawn with nonce 2 (one per successful creation),
    // so the child's DNA is reproducible byte by byte.
    let selector = fresh_dna(&seed, 9, 2);
    let dna1 = registry.kitty(parent1).unwrap().dna.clone();
    let dna2 = registry.kitty(parent2).unwrap().dna.clone();
    let child_kitty = registry.kitty(child).unwrap();
    for i in 0..16 {
        assert_eq!(child_kitty.dna[i], combine_dna(dna1[i], dna2[i], selector[i]));
    }
    assert_eq!(child_kitty.generation, 1);
}

#[test]
fn breed_generation_is_max_plus_one() {
    let mut registry = Registry::new();
    let seed = seed();
    let a = registry.create(1, &seed).unwrap();
    let b = registry.create(1, &seed).unwrap();
    let child = registry.breed(1, a, b, &seed).unwrap(); // generation 1
    let grandchild = registry.breed(1, child, a, &seed).unwrap(); // max(1, 0) + 1
    assert_eq!(registry.kitty(child).unwrap().generation, 1);
    assert_eq!(registry.kitty(grandchild).unwrap().generation, 2);
}

#[test]
fn breed_rejects_unknown_and_same_parents() {
    let mut registry = Registry::new();
    let seed = seed();
    let a = registry.create(1, &seed).unwrap();
    assert_eq!(registry.breed(1, a, 77, &seed), Err(Error::UnknownAsset));
    assert_eq!(registry.breed(1, 77, a, &seed), Err(Error::UnknownAsset));
    assert_eq!(registry.breed(1, a, a, &seed), Err(Error::SameParent));
    // No failed attempt minted anything.
    assert_eq!(registry.kitties_count(), 1);
    assert_eq!(registry.owned_kitties_count(1), 1);
}

#[test]
fn transfer_moves_exactly_one_asset() {
    let mut registry = Registry::new();
    let seed = seed();
    let x1 = registry.create(10, &seed).unwrap();
    let x2 = registry.create(10, &seed).unwrap();
    let x3 = registry.create(10, &seed).unwrap();
    let y1 = registry.create(20, &seed).unwrap();
    assert_eq!(registry.transfer(10, 20, x2), Ok(()));
    assert_eq!(registry.owner_of(x2), Some(20));
    assert_eq!(registry.owned_kitties_count(10), 2);
    assert_eq!(registry.owned_kitties_count(20), 2);
    // The sender keeps every other asset (as a set; order may change).
    let mut remaining = vec![
        registry.owned_kitty_at(10, 0).unwrap(),
        registry.owned_kitty_at(10, 1).unwrap(),
    ];
    remaining.sort();
    assert_eq!(remaining, vec![x1, x3]);
    assert_eq!(registry.owner_of(x1), Some(10));
    assert_eq!(registry.owner_of(x3), Some(10));
    assert_eq!(registry.owner_of(y1), Some(20));
    // The table entry is untouched by a transfer.
    assert_eq!(registry.kitty(x2).unwrap().dna, fresh_dna(&seed, 10, 1));
}

#[test]
fn transfer_rejections_leave_state_unchanged() {
    let mut registry = Registry::new();
    let seed = seed();
    let x = registry.create(10, &seed).unwrap();
    let y = registry.create(20, &seed).unwrap();
    assert_eq!(registry.transfer(10, 10, x), Err(Error::SelfTransfer));
    assert_eq!(registry.transfer(20, 30, x), Err(Error::NotOwner));
    assert_eq!(registry.transfer(10, 20, 99), Err(Error::UnknownAsset));
    assert_eq!(registry.owner_of(x), Some(10));
    assert_eq!(registry.owner_of(y), Some(20));
    assert_eq!(registry.owned_kitties_count(10), 1);
    assert_eq!(registry.owned_kitties_count(20), 1);
    assert_eq!(registry.owned_kitties_count(30), 0);
    assert_eq!(registry.kitties_count(), 2);
}

// The ownership index stays consistent after every operation: each account's
// count matches its list, each listed asset names that account as its owner,
// and each owned asset appears at exactly one position of exactly one list.
fn check_ownership_consistency(registry: &Registry, accounts: &[u64]) {
    let supply = registry.kitties_count();
    let mut seen = vec![0u32; supply as usize];
    for &account in accounts {
        let count = registry.owned_kitties_count(account);
        assert_eq!(registry.owned_kitty_at(account, count), None);
        for position in 0..count {
            let id = registry.owned_kitty_at(account, position).unwrap();
            assert_eq!(registry.owner_of(id), Some(account));
            seen[id as usize] += 1;
        }
    }
    for id in 0..supply {
        assert_eq!(seen[id as usize], 1, "asset owned at exactly one position");
    }
}

#[test]
fn ownership_index_consistent_after_every_operation() {
    let accounts = [1u64, 2, 3];
    let mut registry = Registry::new();
    let seed = seed();
    check_ownership_consistency(&registry, &accounts);
    let a = registry.create(1, &seed).unwrap();
    check_ownership_consistency(&registry, &accounts);
    let b = registry.create(2, &seed).unwrap();
    check_ownership_consistency(&registry, &accounts);
    let c = registry.breed(3, a, b, &seed).unwrap();
    check_ownership_consistency(&registry, &accounts);
    registry.transfer(1, 2, a).unwrap();
    check_ownership_consistency(&registry, &accounts);
    registry.transfer(2, 3, a).unwrap();
    check_ownership_consistency(&registry, &accounts);
    registry.transfer(3, 1, c).unwrap();
    check_ownership_consistency(&registry, &accounts);
    assert_eq!(registry.transfer(2, 2, b), Err(Error::SelfTransfer));
    check_ownership_consistency(&registry, &accounts);
}

#[test]
fn total_supply_counts_successful_mints_only() {
    let mut registry = Registry::new();
    let seed = seed();
    let mut successes: u32 = 0;
    let a = registry.create(1, &seed).unwrap();
    successes += 1;
    registry.create(2, &seed).unwrap();
    successes += 1;
    assert_eq!(registry.breed(1, a, a, &seed), Err(Error::SameParent));
    assert_eq!(registry.breed(1, a, 55, &seed), Err(Error::UnknownAsset));
    registry.breed(1, a, 1, &seed).unwrap();
    successes += 1;
    assert_eq!(registry.transfer(9, 1, a), Err(Error::NotOwner));
    assert_eq!(registry.kitties_count(), successes);
    // Every position holds a distinct id, in creation order.
    for position in 0..successes {
        assert_eq!(registry.kitty_at(position as usize), Some(position));
    }
}
