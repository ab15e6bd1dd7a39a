//! Checking that a nonce is a leaf of a server's Merkle tree.
//!
//! A leaf hashes as `H(0 || data)` and an inner node as `H(1 || left || right)`.
//! A path lists the sibling hashes from the leaf up to the root; bit `k` of the
//! leaf index says whether the node at height `k` is a left (0) or a right (1)
//! child.
use vstd::arithmetic::power2::pow2;
use vstd::prelude::*;

use crate::bytes::append_bytes;
use crate::crypto::{digest, digest_len, digest_of, HashAlgorithm};

verus! {

/// The prefix byte of a leaf hash.
pub const TREE_LEAF_TWEAK: u8 = 0;

/// The prefix byte of an inner node hash.
pub const TREE_NODE_TWEAK: u8 = 1;

/// The hash of a leaf.
pub open spec fn leaf_hash(algorithm: HashAlgorithm, data: Seq<u8>) -> Seq<u8> {
    digest_of(algorithm, seq![TREE_LEAF_TWEAK] + data)
}

/// The hash of an inner node from its children.
pub open spec fn node_hash(algorithm: HashAlgorithm, left: Seq<u8>, right: Seq<u8>) -> Seq<u8> {
    digest_of(algorithm, seq![TREE_NODE_TWEAK] + left + right)
}

/// The root reached from `hash`, the hash of the node at `index`, by the
/// sibling hashes in `paths`, taken one digest length at a time (the last
/// sibling may be shorter).
pub open spec fn fold_path(algorithm: HashAlgorithm, index: nat, hash: Seq<u8>, paths: Seq<u8>) -> Seq<u8>
    decreases paths.len(),
{
    if paths.len() == 0 {
        hash
    } else {
        let k = if paths.len() < digest_len(algorithm) { paths.len() } else { digest_len(algorithm) };
        let sibling = paths.take(k as int);
        let parent = if index % 2 == 0 {
            node_hash(algorithm, hash, sibling)
        } else {
            node_hash(algorithm, sibling, hash)
        };
        fold_path(algorithm, index / 2, parent, paths.skip(k as int))
    }
}

/// A Merkle tree hash function.
pub struct MerkleTree {
    pub algorithm: HashAlgorithm,
}

impl MerkleTree {
    /// A tree hashed with SHA-512.
    pub fn new_sha512() -> (r: MerkleTree)
        ensures
            r.algorithm == HashAlgorithm::Sha512,
    {
        MerkleTree { algorithm: HashAlgorithm::Sha512 }
    }

    /// A tree hashed with SHA-512/256.
    pub fn new_sha512_256() -> (r: MerkleTree)
        ensures
            r.algorithm == HashAlgorithm::Sha512_256,
    {
        MerkleTree { algorithm: HashAlgorithm::Sha512_256 }
    }

    /// The root of the tree in which `data` is leaf `index` and `paths` lists
    /// the siblings on the way up.
    pub open spec fn spec_root_from_paths(&self, index: nat, data: Seq<u8>, paths: Seq<u8>) -> Seq<u8> {
        fold_path(self.algorithm, index, leaf_hash(self.algorithm, data), paths)
    }

    /// The root of the tree in which `data` is leaf `index` and `paths` lists
    /// the siblings on the way up.
    pub fn root_from_paths(&self, index: usize, data: &[u8], paths: &[u8]) -> (r: Vec<u8>)
        ensures
            r@ == self.spec_root_from_paths(index as nat, data@, paths@),
    {
        let alg = self.algorithm;
        let chunk: usize = match alg {
            HashAlgorithm::Sha512 => 64,
            HashAlgorithm::Sha512_256 => 32,
        };
        let mut leaf: Vec<u8> = Vec::new();
        leaf.push(TREE_LEAF_TWEAK);
        append_bytes(&mut leaf, data);
        assert(leaf@ =~= seq![TREE_LEAF_TWEAK] + data@);
        let mut hash = digest(alg, leaf.as_slice());
        let mut idx = index;
        let mut pos: usize = 0;
        let n = paths.len();
        assert(paths@.skip(0) =~= paths@);
        while pos < n
            invariant
                n == paths@.len(),
                pos <= n,
                chunk == digest_len(alg),
                alg == self.algorithm,
                self.spec_root_from_paths(index as nat, data@, paths@) == fold_path(
                    alg,
                    idx as nat,
                    hash@,
                    paths@.skip(pos as int),
                ),
            decreases n - pos,
        {
            let rest = n - pos;
            let k = if rest < chunk { rest } else { chunk };
            let sibling = crate::bytes::copy_range(paths, pos, pos + k);
            let mut node: Vec<u8> = Vec::new();
            node.push(TREE_NODE_TWEAK);
            if idx % 2 == 0 {
                append_bytes(&mut node, hash.as_slice());
                append_bytes(&mut node, sibling.as_slice());
                assert(node@ =~= seq![TREE_NODE_TWEAK] + hash@ + sibling@);
            } else {
                append_bytes(&mut node, sibling.as_slice());
                append_bytes(&mut node, hash.as_slice());
                assert(node@ =~= seq![TREE_NODE_TWEAK] + sibling@ + hash@);
            }
            let ghost old_hash = hash@;
            let ghost old_idx = idx;
            hash = digest(alg, node.as_slice());
            proof {
                let tail = paths@.skip(pos as int);
                assert(tail.take(k as int) =~= sibling@);
                assert(tail.skip(k as int) =~= paths@.skip(pos + k));
                assert(fold_path(alg, old_idx as nat, old_hash, tail) == fold_path(
                    alg,
                    (old_idx / 2) as nat,
                    hash@,
                    tail.skip(k as int),
                ));
            }
            idx = idx / 2;
            pos = pos + k;
        }
        assert(paths@.skip(n as int) =~= Seq::<u8>::empty());
        hash
    }
}

/// Whether the node at height `k` above leaf `index` is a left child: bit `k`
/// of the index is 0.
pub open spec fn is_left_at(index: nat, k: nat) -> bool {
    (index / pow2(k)) % 2 == 0
}

proof fn lemma_fold_extend(algorithm: HashAlgorithm, index: nat, hash: Seq<u8>, p: Seq<u8>, s: Seq<u8>)
    requires
        p.len() % digest_len(algorithm) == 0,
        s.len() == digest_len(algorithm),
    ensures
        ({
            let r = fold_path(algorithm, index, hash, p);
            let m = p.len() / digest_len(algorithm);
            fold_path(algorithm, index, hash, p + s) == if is_left_at(index, m) {
                digest_of(algorithm, seq![TREE_NODE_TWEAK] + r + s)
            } else {
                digest_of(algorithm, seq![TREE_NODE_TWEAK] + s + r)
            }
        }),
    decreases p.len(),
{
    let dl = digest_len(algorithm);
    if p.len() == 0 {
        assert(p + s =~= s);
        assert(s.take(dl as int) =~= s);
        assert(s.skip(dl as int) =~= Seq::<u8>::empty());
        vstd::arithmetic::power2::lemma_pow2(0);
        reveal(vstd::arithmetic::power::pow);
        assert(pow2(0) == 1);
        assert(p.len() / dl == 0);
        assert(index / pow2(0) == index);
        assert(fold_path(algorithm, index, hash, p) == hash);
        let parent = if index % 2 == 0 {
            node_hash(algorithm, hash, s)
        } else {
            node_hash(algorithm, s, hash)
        };
        assert(fold_path(algorithm, index, hash, s) == fold_path(algorithm, index / 2, parent, s.skip(dl as int)));
        assert(fold_path(algorithm, index / 2, parent, Seq::<u8>::empty()) == parent);
    } else {
        let m = p.len() / dl;
        let q = p.skip(dl as int);
        assert((p + s).take(dl as int) =~= p.take(dl as int));
        assert((p + s).skip(dl as int) =~= q + s);
        let parent = if index % 2 == 0 {
            node_hash(algorithm, hash, p.take(dl as int))
        } else {
            node_hash(algorithm, p.take(dl as int), hash)
        };
        assert(q.len() % dl == 0 && q.len() / dl == m - 1 && m >= 1) by {
            match algorithm {
                HashAlgorithm::Sha512 => {},
                HashAlgorithm::Sha512_256 => {},
            }
        }
        assert(fold_path(algorithm, index, hash, p) == fold_path(algorithm, index / 2, parent, q));
        assert(fold_path(algorithm, index, hash, p + s) == fold_path(algorithm, index / 2, parent, q + s));
        lemma_fold_extend(algorithm, index / 2, parent, q, s);
        vstd::arithmetic::power2::lemma_pow2_unfold(m);
        vstd::arithmetic::power2::lemma_pow2_pos((m - 1) as nat);
        vstd::arithmetic::div_mod::lemma_div_denominator(index as int, 2, pow2((m - 1) as nat) as int);
        assert((index / 2) / pow2((m - 1) as nat) == index / pow2(m));
        assert(is_left_at(index / 2, (m - 1) as nat) == is_left_at(index, m));
    }
}

/// With no siblings the root is the hash of the leaf: `H(0 || data)`.
pub proof fn lemma_root_of_leaf(tree: MerkleTree, index: nat, data: Seq<u8>)
    ensures
        tree.spec_root_from_paths(index, data, Seq::empty()) == digest_of(
            tree.algorithm,
            seq![TREE_LEAF_TWEAK] + data,
        ),
{
}

/// Each sibling of a path is one digest and adds one level: the root of a
/// path of `m` siblings followed by a sibling `s` is `H(1 || r || s)` when bit
/// `m` of the leaf index is 0 and `H(1 || s || r)` when it is 1, where `r` is
/// the root of the first `m` siblings.
pub proof fn lemma_root_extend(tree: MerkleTree, index: nat, data: Seq<u8>, p: Seq<u8>, s: Seq<u8>)
    requires
        p.len() % digest_len(tree.algorithm) == 0,
        s.len() == digest_len(tree.algorithm),
    ensures
        ({
            let r = tree.spec_root_from_paths(index, data, p);
            let m = p.len() / digest_len(tree.algorithm);
            tree.spec_root_from_paths(index, data, p + s) == if is_left_at(index, m) {
                digest_of(tree.algorithm, seq![TREE_NODE_TWEAK] + r + s)
            } else {
                digest_of(tree.algorithm, seq![TREE_NODE_TWEAK] + s + r)
            }
        }),
{
    lemma_fold_extend(tree.algorithm, index, leaf_hash(tree.algorithm, data), p, s);
}

/// The root of a path of two siblings `s0`, `s1`: the leaf hash is combined
/// with `s0` on the side given by bit 0 of the index, and that node with `s1`
/// on the side given by bit 1.
pub proof fn lemma_root_two_levels(tree: MerkleTree, index: nat, data: Seq<u8>, s0: Seq<u8>, s1: Seq<u8>)
    requires
        s0.len() == digest_len(tree.algorithm),
        s1.len() == digest_len(tree.algorithm),
    ensures
        ({
            let alg = tree.algorithm;
            let leaf = digest_of(alg, seq![TREE_LEAF_TWEAK] + data);
            let level1 = if index % 2 == 0 {
                digest_of(alg, seq![TREE_NODE_TWEAK] + leaf + s0)
            } else {
                digest_of(alg, seq![TREE_NODE_TWEAK] + s0 + leaf)
            };
            tree.spec_root_from_paths(index, data, s0 + s1) == if (index / 2) % 2 == 0 {
                digest_of(alg, seq![TREE_NODE_TWEAK] + level1 + s1)
            } else {
                digest_of(alg, seq![TREE_NODE_TWEAK] + s1 + level1)
            }
        }),
{
    let e = Seq::<u8>::empty();
    lemma_root_of_leaf(tree, index, data);
    assert(e + s0 =~= s0);
    lemma_root_extend(tree, index, data, e, s0);
    lemma_root_extend(tree, index, data, s0, s1);
    vstd::arithmetic::power2::lemma_pow2(0);
    vstd::arithmetic::power2::lemma_pow2(1);
    reveal(vstd::arithmetic::power::pow);
    assert(pow2(0) == 1 && pow2(1) == 2);
    assert(0nat / digest_len(tree.algorithm) == 0);
    assert(s0.len() / digest_len(tree.algorithm) == 1);
}

} // verus!
