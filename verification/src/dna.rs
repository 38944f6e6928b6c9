use vstd::prelude::*;

verus! {

/// Bitwise selection on one byte: result bit `i` equals `dna1`'s bit `i`
/// where `selector`'s bit `i` is set, else `dna2`'s bit `i`.
pub open spec fn select_bits(dna1: u8, dna2: u8, selector: u8) -> u8 {
    (dna1 & selector) | (dna2 & !selector)
}

/// Bytewise genetic combination of two equal-length DNA sequences under a
/// selector sequence.
pub open spec fn combined(dna1: Seq<u8>, dna2: Seq<u8>, selector: Seq<u8>) -> Seq<u8> {
    Seq::new(dna1.len(), |i: int| select_bits(dna1[i], dna2[i], selector[i]))
}

/// Combine one byte of each parent's DNA: each of the 8 result bits is taken
/// from `dna1` where the corresponding `selector` bit is 1, else from `dna2`.
pub fn combine_dna(dna1: u8, dna2: u8, selector: u8) -> (dna: u8)
    ensures
        dna == select_bits(dna1, dna2, selector),
{
    let mut dna: u8 = 0;
    let mut index: u8 = 0;
    proof {
        assert(0u8 == ((dna1 & selector) | (dna2 & !selector)) & !(0xffu8 << 0u8)) by (bit_vector);
    }
    while index < 8
        invariant
            index <= 8,
            dna == select_bits(dna1, dna2, selector) & !(0xffu8 << index),
        decreases 8 - index,
    {
        let next: u8 = index + 1;
        if ((selector >> index) & 1) == 1 {
            proof {
                assert((dna | (dna1 & (1u8 << index))) == ((dna1 & selector) | (dna2
                    & !selector)) & !(0xffu8 << next)) by (bit_vector)
                    requires
                        dna == ((dna1 & selector) | (dna2 & !selector)) & !(0xffu8 << index),
                        next == index + 1,
                        index < 8,
                        ((selector >> index) & 1) == 1,
                ;
            }
            dna = dna | (dna1 & (1u8 << index));
        } else {
            proof {
                assert((dna | (dna2 & (1u8 << index))) == ((dna1 & selector) | (dna2
                    & !selector)) & !(0xffu8 << next)) by (bit_vector)
                    requires
                        dna == ((dna1 & selector) | (dna2 & !selector)) & !(0xffu8 << index),
                        next == index + 1,
                        index < 8,
                        ((selector >> index) & 1) != 1,
                ;
            }
            dna = dna | (dna2 & (1u8 << index));
        }
        index = next;
    }
    proof {
        assert(((dna1 & selector) | (dna2 & !selector)) & !(0xffu8 << 8u8) == ((dna1 & selector)
            | (dna2 & !selector))) by (bit_vector);
    }
    dna
}

/// Law: an all-zero selector yields the second parent's byte unchanged, and
/// an all-one selector yields the first parent's byte unchanged.
pub proof fn lemma_selector_extremes(a: u8, b: u8)
    ensures
        select_bits(a, b, 0x00) == b,
        select_bits(a, b, 0xff) == a,
{
    assert((a & 0x00u8) | (b & !0x00u8) == b) by (bit_vector);
    assert((a & 0xffu8) | (b & !0xffu8) == a) by (bit_vector);
}

/// Law: an all-zero selector sequence yields the second parent's DNA
/// unchanged, and an all-ones selector sequence the first's.
pub proof fn lemma_combined_extremes(dna1: Seq<u8>, dna2: Seq<u8>, low: Seq<u8>, high: Seq<u8>)
    requires
        dna1.len() == dna2.len(),
        low.len() == dna1.len(),
        forall|i: int| 0 <= i < low.len() ==> low[i] == 0x00u8,
        high.len() == dna1.len(),
        forall|i: int| 0 <= i < high.len() ==> high[i] == 0xffu8,
    ensures
        combined(dna1, dna2, low) == dna2,
        combined(dna1, dna2, high) == dna1,
{
    assert forall|i: int| 0 <= i < dna1.len() implies combined(dna1, dna2, low)[i] == dna2[i]
        && combined(dna1, dna2, high)[i] == dna1[i] by {
        lemma_selector_extremes(dna1[i], dna2[i]);
    }
    assert(combined(dna1, dna2, low) =~= dna2);
    assert(combined(dna1, dna2, high) =~= dna1);
}

/// Combine two parent DNA sequences byte by byte under a selector sequence.
pub fn combine_dna_bytes(dna1: &Vec<u8>, dna2: &Vec<u8>, selector: &Vec<u8>) -> (child: Vec<u8>)
    requires
        dna1@.len() == dna2@.len(),
        dna1@.len() == selector@.len(),
    ensures
        child@ == combined(dna1@, dna2@, selector@),
{
    let mut child: Vec<u8> = Vec::new();
    let mut i: usize = 0;
    while i < dna1.len()
        invariant
            i <= dna1@.len(),
            dna1@.len() == dna2@.len(),
            dna1@.len() == selector@.len(),
            child@.len() == i,
            forall|j: int|
                0 <= j < i ==> child@[j] == select_bits(dna1@[j], dna2@[j], selector@[j]),
        decreases dna1@.len() - i,
    {
        child.push(combine_dna(dna1[i], dna2[i], selector[i]));
        i = i + 1;
    }
    proof {
        assert(child@ =~= combined(dna1@, dna2@, selector@));
    }
    child
}

/// The 16-byte blake2b digest of a byte sequence. The digest depends on the
/// input bytes alone; what it is on given bytes is known only to the
/// trusted wrapper below.
pub uninterp spec fn blake2_128_of(payload: Seq<u8>) -> Seq<u8>;

/// The little-endian byte decomposition of a 64-bit value.
pub open spec fn u64_le_bytes(x: u64) -> Seq<u8> {
    seq![
        x as u8,
        (x >> 8) as u8,
        (x >> 16) as u8,
        (x >> 24) as u8,
        (x >> 32) as u8,
        (x >> 40) as u8,
        (x >> 48) as u8,
        (x >> 56) as u8,
    ]
}

/// The entropy payload that fresh DNA is digested from: the chain-level
/// seed, then the requesting account, then the per-registry nonce, each in
/// little-endian byte order.
pub open spec fn dna_payload(seed: Seq<u8>, account: u64, nonce: u64) -> Seq<u8> {
    seed + u64_le_bytes(account) + u64_le_bytes(nonce)
}

/// Relies on blake2_rfc::blake2b::blake2b with a 16-byte output length and
/// an empty key: the digest depends on the input bytes alone, and
/// `as_bytes` hands back exactly the requested 16 bytes.
#[verifier::external_body]
fn blake2_128(payload: &Vec<u8>) -> (r: Vec<u8>)
    ensures
        r@ == blake2_128_of(payload@),
        r@.len() == 16,
{
    blake2_rfc::blake2b::blake2b(16, &[], payload.as_slice()).as_bytes().to_vec()
}

/// Append the little-endian bytes of `x` to `out`.
fn push_u64_le(out: &mut Vec<u8>, x: u64)
    ensures
        final(out)@ == old(out)@ + u64_le_bytes(x),
{
    out.push(x as u8);
    out.push((x >> 8) as u8);
    out.push((x >> 16) as u8);
    out.push((x >> 24) as u8);
    out.push((x >> 32) as u8);
    out.push((x >> 40) as u8);
    out.push((x >> 48) as u8);
    out.push((x >> 56) as u8);
    proof {
        assert(out@ =~= old(out)@ + u64_le_bytes(x));
    }
}

/// Derive 16 pseudo-random bytes from caller-supplied entropy: the
/// chain-level seed, the requesting account, and the per-registry nonce,
/// digested together. Different nonces give different payloads, so repeated
/// derivations within one execution context diverge.
pub fn fresh_dna(seed: &Vec<u8>, account: u64, nonce: u64) -> (r: Vec<u8>)
    ensures
        r@ == blake2_128_of(dna_payload(seed@, account, nonce)),
        r@.len() == 16,
{
    let mut payload: Vec<u8> = Vec::new();
    let mut i: usize = 0;
    while i < seed.len()
        invariant
            i <= seed@.len(),
            payload@ == seed@.subrange(0, i as int),
        decreases seed@.len() - i,
    {
        payload.push(seed[i]);
        proof {
            assert(payload@ =~= seed@.subrange(0, i + 1 as int));
        }
        i = i + 1;
    }
    proof {
        assert(payload@ =~= seed@);
    }
    push_u64_le(&mut payload, account);
    push_u64_le(&mut payload, nonce);
    proof {
        assert(payload@ =~= dna_payload(seed@, account, nonce));
    }
    blake2_128(&payload)
}

} // verus!
