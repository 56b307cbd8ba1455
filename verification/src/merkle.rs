//! Merkle roots over a sequence of leaf hashes.
//!
//! A level of the tree is folded into the next one by hashing neighbours in
//! pairs; a node left without a neighbour is hashed alone. The root of an
//! empty sequence is the hash of the empty byte string, and the root of a
//! single leaf is the leaf itself.

use crate::crypto;
use crate::crypto::{digest, hash};
use vstd::prelude::*;

verus! {

/// The next level up: neighbours hashed in pairs, a last odd node hashed alone.
pub open spec fn pair_up(level: Seq<Seq<u8>>) -> Seq<Seq<u8>>
    decreases level.len(),
{
    if level.len() == 0 {
        Seq::empty()
    } else if level.len() == 1 {
        seq![digest(level[0])]
    } else {
        seq![digest(level[0] + level[1])] + pair_up(level.skip(2))
    }
}

/// A level of `n` nodes folds into one of `(n + 1) / 2` nodes.
pub proof fn lemma_pair_up_len(level: Seq<Seq<u8>>)
    ensures
        pair_up(level).len() == (level.len() + 1) / 2,
    decreases level.len(),
{
    if level.len() >= 2 {
        lemma_pair_up_len(level.skip(2));
    }
}

/// The Merkle root of a sequence of leaf hashes.
pub open spec fn merkle_root(leaves: Seq<Seq<u8>>) -> Seq<u8>
    decreases leaves.len(),
    via merkle_root_decreases
{
    if leaves.len() == 0 {
        digest(Seq::empty())
    } else if leaves.len() == 1 {
        leaves[0]
    } else {
        merkle_root(pair_up(leaves))
    }
}

#[via_fn]
proof fn merkle_root_decreases(leaves: Seq<Seq<u8>>) {
    lemma_pair_up_len(leaves);
}

/// The byte strings held by a vector of hashes.
pub open spec fn hash_views(hs: Seq<crypto::Hash>) -> Seq<Seq<u8>> {
    Seq::new(hs.len(), |i: int| hs[i]@)
}

fn concat_pair(a: &crypto::Hash, b: &crypto::Hash) -> (out: Vec<u8>)
    ensures
        out@ == a@ + b@,
{
    let mut out: Vec<u8> = Vec::new();
    crate::codec::put_raw(&mut out, a.bytes.as_slice());
    crate::codec::put_raw(&mut out, b.bytes.as_slice());
    assert(out@ =~= a@ + b@);
    out
}

fn fold_level(level: &Vec<crypto::Hash>) -> (next: Vec<crypto::Hash>)
    ensures
        hash_views(next@) == pair_up(hash_views(level@)),
{
    let n = level.len();
    let mut next: Vec<crypto::Hash> = Vec::new();
    let mut i: usize = 0;
    let ghost whole = hash_views(level@);
    assert(whole.skip(0) =~= whole);
    while n - i >= 2
        invariant
            i <= n,
            n == level@.len(),
            whole == hash_views(level@),
            hash_views(next@) + pair_up(whole.skip(i as int)) == pair_up(whole),
        decreases n - i,
    {
        let h = hash(concat_pair(&level[i], &level[i + 1]).as_slice());
        let ghost before = hash_views(next@);
        next.push(h);
        proof {
            let rest = whole.skip(i as int);
            assert(rest[0] == level@[i as int]@);
            assert(rest[1] == level@[i + 1]@);
            assert(rest.skip(2) =~= whole.skip(i + 2));
            assert(hash_views(next@) =~= before + seq![h@]);
            assert(before + seq![h@] + pair_up(whole.skip(i + 2)) =~= before + (seq![h@]
                + pair_up(whole.skip(i + 2))));
        }
        i += 2;
    }
    if i < n {
        let h = hash(level[i].bytes.as_slice());
        let ghost before = hash_views(next@);
        next.push(h);
        proof {
            let rest = whole.skip(i as int);
            assert(rest.len() == 1);
            assert(rest[0] == level@[i as int]@);
            assert(hash_views(next@) =~= before + seq![h@]);
        }
    } else {
        proof {
            let rest = whole.skip(i as int);
            assert(rest.len() == 0);
            assert(hash_views(next@) + Seq::<Seq<u8>>::empty() =~= hash_views(next@));
        }
    }
    next
}

/// Computes the Merkle root of `leaves`.
pub fn root_of(leaves: Vec<crypto::Hash>) -> (root: crypto::Hash)
    ensures
        root@ == merkle_root(hash_views(leaves@)),
{
    if leaves.len() == 0 {
        let empty: Vec<u8> = Vec::new();
        let root = hash(empty.as_slice());
        assert(empty@ =~= Seq::<u8>::empty());
        return root;
    }
    let mut level = leaves;
    while level.len() > 1
        invariant
            level@.len() >= 1,
            merkle_root(hash_views(level@)) == merkle_root(hash_views(leaves@)),
        decreases level@.len(),
    {
        proof {
            lemma_pair_up_len(hash_views(level@));
        }
        level = fold_level(&level);
        assert(level@.len() == hash_views(level@).len());
    }
    level[0]
}

} // verus!
