//! The generic Merkle-path algorithm: given a power-of-two-sized level of
//! 32-byte leaves and a target index, compute the ordered list of sibling
//! hashes from the leaf up to the root, and the root itself.

use vstd::prelude::*;
use crate::hashing::{sha256_pair, sha256_pair_of};
use crate::byteseq::{copy_bytes, hashes_view};

verus! {

/// Every entry of a hash list is 32 bytes.
pub open spec fn all_hashes32(v: Seq<Vec<u8>>) -> bool {
    forall|k: int| 0 <= k < v.len() ==> (#[trigger] v[k]@).len() == 32
}

/// One level up in a binary Merkle tree: adjacent pairs hashed together.
pub open spec fn parent_level(l: Seq<Seq<u8>>) -> Seq<Seq<u8>> {
    Seq::new(l.len() / 2, |i: int| sha256_pair_of(l[2 * i], l[2 * i + 1]))
}

/// The sibling path from leaf `i` of level `l` up to the root, bottom-most
/// sibling first.
pub open spec fn merkle_branch(l: Seq<Seq<u8>>, i: int) -> Seq<Seq<u8>>
    decreases l.len(),
{
    if l.len() <= 1 {
        Seq::empty()
    } else {
        let sib = if i % 2 == 0 { i + 1 } else { i - 1 };
        seq![l[sib]] + merkle_branch(parent_level(l), i / 2)
    }
}

/// The Merkle root of a level: repeated pair hashing down to one hash.
pub open spec fn merkle_root_of(l: Seq<Seq<u8>>) -> Seq<u8>
    decreases l.len(),
{
    if l.len() <= 1 {
        if l.len() == 1 {
            l[0]
        } else {
            Seq::empty()
        }
    } else {
        merkle_root_of(parent_level(l))
    }
}

/// Base-two logarithm, rounded down.
pub open spec fn log2(n: nat) -> nat
    decreases n,
{
    if n <= 1 {
        0
    } else {
        1 + log2(n / 2)
    }
}

/// `n` is a power of two.
pub open spec fn is_pow2(n: nat) -> bool
    decreases n,
{
    if n == 0 {
        false
    } else if n == 1 {
        true
    } else {
        n % 2 == 0 && is_pow2(n / 2)
    }
}

/// A Merkle branch has one sibling per tree level.
pub proof fn lemma_merkle_branch_len(l: Seq<Seq<u8>>, i: int)
    ensures
        merkle_branch(l, i).len() == log2(l.len()),
    decreases l.len(),
{
    if l.len() > 1 {
        lemma_merkle_branch_len(parent_level(l), i / 2);
    }
}

/// Hash each adjacent pair of a level, producing the level above.
fn hash_level(l: &Vec<Vec<u8>>) -> (r: Vec<Vec<u8>>)
    requires
        l@.len() % 2 == 0,
    ensures
        hashes_view(r@) == parent_level(hashes_view(l@)),
        all_hashes32(r@),
{
    let ghost lv = hashes_view(l@);
    let n: usize = l.len() / 2;
    let mut r: Vec<Vec<u8>> = Vec::new();
    let mut j: usize = 0;
    while j < n
        invariant
            n == l@.len() / 2,
            l@.len() % 2 == 0,
            l@.len() <= usize::MAX,
            lv == hashes_view(l@),
            j <= n,
            r@.len() == j,
            forall|k: int| 0 <= k < j ==> (#[trigger] r@[k])@ == parent_level(lv)[k],
            all_hashes32(r@),
        decreases n - j,
    {
        proof {
            assert(2 * j + 1 < l@.len());
        }
        let h = sha256_pair(&l[2 * j], &l[2 * j + 1]);
        r.push(h);
        j += 1;
    }
    proof {
        assert(hashes_view(r@) =~= parent_level(lv));
    }
    r
}

/// Build the sibling path for leaf `index` of the level `leaves`.
///
/// This is the generic Merkle-path algorithm the proof builders compose:
/// the result pairs with the leaf and its index to recompute the level's
/// root.
pub fn build_merkle_proof_for_index(leaves: &Vec<Vec<u8>>, index: usize) -> (r: Vec<Vec<u8>>)
    requires
        is_pow2(leaves@.len() as nat),
        index < leaves@.len(),
        all_hashes32(leaves@),
    ensures
        hashes_view(r@) == merkle_branch(hashes_view(leaves@), index as int),
        all_hashes32(r@),
        r@.len() == log2(leaves@.len() as nat),
    decreases leaves@.len(),
{
    proof {
        lemma_merkle_branch_len(hashes_view(leaves@), index as int);
    }
    if leaves.len() <= 1 {
        let r: Vec<Vec<u8>> = Vec::new();
        proof {
            assert(hashes_view(r@) =~= merkle_branch(hashes_view(leaves@), index as int));
        }
        r
    } else {
        proof {
            assert(leaves@.len() % 2 == 0 && is_pow2((leaves@.len() / 2) as nat));
        }
        let sib: usize = if index % 2 == 0 { index + 1 } else { index - 1 };
        proof {
            if index % 2 == 0 {
                assert(index != leaves@.len() - 1) by {
                    assert((leaves@.len() - 1) % 2 == 1);
                }
            }
        }
        let mut r: Vec<Vec<u8>> = Vec::new();
        r.push(copy_bytes(&leaves[sib]));
        let parents = hash_level(leaves);
        proof {
            assert(parents@.len() == hashes_view(parents@).len());
            assert(parents@.len() == leaves@.len() / 2);
        }
        let mut rest = build_merkle_proof_for_index(&parents, index / 2);
        let ghost rest0 = rest@;
        r.append(&mut rest);
        proof {
            assert(hashes_view(r@) =~= merkle_branch(hashes_view(leaves@), index as int));
        }
        r
    }
}

/// Compute the Merkle root of a power-of-two-sized level.
pub fn compute_merkle_root(leaves: &Vec<Vec<u8>>) -> (r: Vec<u8>)
    requires
        is_pow2(leaves@.len() as nat),
        all_hashes32(leaves@),
    ensures
        r@ == merkle_root_of(hashes_view(leaves@)),
        r@.len() == 32,
    decreases leaves@.len(),
{
    if leaves.len() == 1 {
        copy_bytes(&leaves[0])
    } else {
        proof {
            assert(leaves@.len() % 2 == 0 && is_pow2((leaves@.len() / 2) as nat));
        }
        let parents = hash_level(leaves);
        proof {
            assert(parents@.len() == hashes_view(parents@).len());
            assert(parents@.len() == leaves@.len() / 2);
        }
        compute_merkle_root(&parents)
    }
}

} // verus!
