//! Capability bitmasks: bit `i` is bit `i % 8` of byte `i / 8`.
use vstd::prelude::*;

verus! {

/// Whether bit `i` of `mask` is set; bits past the end of the mask are unset.
pub open spec fn bit_set(mask: Seq<u8>, i: int) -> bool {
    0 <= i < 8 * mask.len() && mask[i / 8] & (1u8 << ((i % 8) as u8)) != 0
}

/// The positions below `n` whose bit is set, in ascending order.
pub open spec fn set_bits_below(mask: Seq<u8>, n: nat) -> Seq<u16>
    decreases n,
{
    if n == 0 {
        seq![]
    } else {
        let prev = set_bits_below(mask, (n - 1) as nat);
        if bit_set(mask, n - 1) {
            prev.push((n - 1) as u16)
        } else {
            prev
        }
    }
}

/// How many of the first `n` bits of `mask` are set.
pub open spec fn popcount(mask: Seq<u8>, n: nat) -> nat {
    set_bits_below(mask, n).len()
}

pub fn bit_is_set(mask: &[u8], bit: usize) -> (r: bool)
    ensures
        r == bit_set(mask@, bit as int),
{
    let byte = bit / 8;
    if byte >= mask.len() {
        return false;
    }
    (mask[byte] & (1u8 << ((bit % 8) as u8))) != 0
}

/// The set bits of `mask` among the first `count` positions, ascending.
pub fn set_bits(mask: &[u8], count: usize) -> (r: Vec<u16>)
    requires
        count <= 0x10000,
    ensures
        r@ == set_bits_below(mask@, count as nat),
{
    let mut r: Vec<u16> = Vec::new();
    let mut i: usize = 0;
    while i < count
        invariant
            i <= count,
            count <= 0x10000,
            r@ == set_bits_below(mask@, i as nat),
        decreases count - i,
    {
        if bit_is_set(mask, i) {
            r.push(i as u16);
        }
        i = i + 1;
    }
    r
}

/// The listed positions are exactly the set bits below `n`, each once, ascending.
pub proof fn lemma_set_bits_below(mask: Seq<u8>, n: nat)
    requires
        n <= 0x10000,
    ensures
        forall|j: int, k: int|
            0 <= j < k < set_bits_below(mask, n).len() ==> set_bits_below(mask, n)[j]
                < set_bits_below(mask, n)[k],
        forall|j: int|
            0 <= j < set_bits_below(mask, n).len() ==> (set_bits_below(mask, n)[j] as int) < n
                && bit_set(mask, set_bits_below(mask, n)[j] as int),
        forall|i: int|
            0 <= i < n && bit_set(mask, i) ==> set_bits_below(mask, n).contains(i as u16),
    decreases n,
{
    if n > 0 {
        lemma_set_bits_below(mask, (n - 1) as nat);
        let prev = set_bits_below(mask, (n - 1) as nat);
        assert forall|i: int| 0 <= i < n && bit_set(mask, i) implies set_bits_below(
            mask,
            n,
        ).contains(i as u16) by {
            if i < n - 1 {
                let w = choose|w: int| 0 <= w < prev.len() && prev[w] == i as u16;
                if bit_set(mask, n - 1) {
                    assert(set_bits_below(mask, n)[w] == i as u16);
                }
            } else {
                assert(set_bits_below(mask, n)[prev.len() as int] == i as u16);
            }
        }
    }
}

} // verus!
