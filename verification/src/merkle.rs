//! Append-only hash tree over an ordered sequence of leaves.
//!
//! The tree is the one of RFC 6962: a leaf is hashed with the prefix `0x00`,
//! an inner node is the hash of `0x01` and its two children, and a tree of
//! `n > 1` leaves splits at the largest power of two below `n`.

use crate::hash::{sha256, sha256_digest};
use vstd::prelude::*;

verus! {

/// Hash of a leaf that holds `data`.
pub open spec fn leaf_hash(data: Seq<u8>) -> Seq<u8> {
    sha256(seq![0u8] + data)
}

/// Hash of an inner node with the given children.
pub open spec fn node_hash(left: Seq<u8>, right: Seq<u8>) -> Seq<u8> {
    sha256(seq![1u8] + left + right)
}

/// `k` is a power of two.
pub open spec fn is_pow2(k: nat) -> bool
    decreases k,
{
    k == 1 || (k >= 2 && k % 2 == 0 && is_pow2(k / 2))
}

/// Number of leaves in the left subtree of a tree with `n >= 2` leaves.
pub open spec fn split_point(n: nat) -> nat
    decreases n,
{
    if n <= 2 {
        1
    } else {
        2 * split_point(((n + 1) / 2) as nat)
    }
}

/// The split point is the largest power of two strictly below `n`.
pub proof fn lemma_split_point(n: nat)
    requires
        n >= 2,
    ensures
        is_pow2(split_point(n)),
        split_point(n) < n <= 2 * split_point(n),
    decreases n,
{
    if n > 2 {
        let h = ((n + 1) / 2) as nat;
        lemma_split_point(h);
        assert(is_pow2(2 * split_point(h))) by {
            assert((2 * split_point(h)) / 2 == split_point(h));
        }
    }
}

/// Root hash of the tree whose leaf hashes are `leaves`, in order.
pub open spec fn merkle_root(leaves: Seq<Seq<u8>>) -> Seq<u8>
    decreases leaves.len(),
{
    if leaves.len() == 0 {
        sha256(Seq::<u8>::empty())
    } else if leaves.len() == 1 {
        leaves[0]
    } else {
        let k = split_point(leaves.len()) as int;
        proof {
            lemma_split_point(leaves.len());
        }
        node_hash(merkle_root(leaves.take(k)), merkle_root(leaves.skip(k)))
    }
}

/// The byte strings held by a vector of byte vectors.
pub open spec fn byte_views(v: Seq<Vec<u8>>) -> Seq<Seq<u8>> {
    Seq::new(v.len(), |i: int| v[i]@)
}

/// Computes the split point of a tree with `n` leaves.
fn split_point_of(n: usize) -> (k: usize)
    requires
        n >= 2,
    ensures
        k == split_point(n as nat),
    decreases n,
{
    if n <= 2 {
        1
    } else {
        let h: usize = n / 2 + n % 2;
        proof {
            lemma_split_point(h as nat);
        }
        let k: usize = split_point_of(h);
        2 * k
    }
}

/// Hashes the leaf that holds `data`.
fn hash_leaf(data: &[u8]) -> (out: Vec<u8>)
    ensures
        out@ == leaf_hash(data@),
{
    let mut buf: Vec<u8> = Vec::new();
    buf.push(0u8);
    let mut i: usize = 0;
    while i < data.len()
        invariant
            i <= data.len(),
            buf@ == seq![0u8] + data@.take(i as int),
        decreases data.len() - i,
    {
        buf.push(data[i]);
        i = i + 1;
    }
    assert(data@.take(data.len() as int) == data@);
    sha256_digest(buf.as_slice())
}

/// Hashes the inner node with the given children.
fn hash_node(left: &Vec<u8>, right: &Vec<u8>) -> (out: Vec<u8>)
    ensures
        out@ == node_hash(left@, right@),
{
    let mut buf: Vec<u8> = Vec::new();
    buf.push(1u8);
    let mut i: usize = 0;
    while i < left.len()
        invariant
            i <= left.len(),
            buf@ == seq![1u8] + left@.take(i as int),
        decreases left.len() - i,
    {
        buf.push(left[i]);
        i = i + 1;
    }
    assert(left@.take(left.len() as int) == left@);
    let mut j: usize = 0;
    while j < right.len()
        invariant
            j <= right.len(),
            buf@ == seq![1u8] + left@ + right@.take(j as int),
        decreases right.len() - j,
    {
        buf.push(right[j]);
        j = j + 1;
    }
    assert(right@.take(right.len() as int) == right@);
    sha256_digest(buf.as_slice())
}

/// A copy of the bytes.
fn copy_bytes(src: &Vec<u8>) -> (out: Vec<u8>)
    ensures
        out@ == src@,
{
    let mut out: Vec<u8> = Vec::new();
    let mut i: usize = 0;
    while i < src.len()
        invariant
            i <= src.len(),
            out@ == src@.take(i as int),
        decreases src.len() - i,
    {
        out.push(src[i]);
        i = i + 1;
    }
    assert(src@.take(src.len() as int) == src@);
    out
}

/// Computes the root of the tree over the leaf hashes from `lo` up to `hi`.
fn root_of_range(leaves: &Vec<Vec<u8>>, lo: usize, hi: usize) -> (out: Vec<u8>)
    requires
        lo <= hi <= leaves.len(),
    ensures
        out@ == merkle_root(byte_views(leaves@).subrange(lo as int, hi as int)),
    decreases hi - lo,
{
    let ghost all = byte_views(leaves@);
    let ghost part = all.subrange(lo as int, hi as int);
    let n: usize = hi - lo;
    if n == 0 {
        let empty: Vec<u8> = Vec::new();
        sha256_digest(empty.as_slice())
    } else if n == 1 {
        copy_bytes(&leaves[lo])
    } else {
        let k: usize = split_point_of(n);
        proof {
            lemma_split_point(n as nat);
            assert(part.take(k as int) == all.subrange(lo as int, lo + k));
            assert(part.skip(k as int) == all.subrange(lo + k, hi as int));
        }
        let left = root_of_range(leaves, lo, lo + k);
        let right = root_of_range(leaves, lo + k, hi);
        hash_node(&left, &right)
    }
}

/// An append-only hash tree. It keeps the hash of every leaf, in order.
pub struct MerkleTree {
    leaves: Vec<Vec<u8>>,
}

impl MerkleTree {
    /// The leaf hashes, in the order in which the leaves were appended.
    pub closed spec fn leaves(&self) -> Seq<Seq<u8>> {
        byte_views(self.leaves@)
    }

    /// The tree without leaves.
    pub fn new() -> (tree: MerkleTree)
        ensures
            tree.leaves() == Seq::<Seq<u8>>::empty(),
    {
        let leaves: Vec<Vec<u8>> = Vec::new();
        assert(byte_views(leaves@) == Seq::<Seq<u8>>::empty());
        MerkleTree { leaves }
    }

    /// Appends one leaf that holds `data`. Earlier leaves stay as they are.
    pub fn append(&mut self, data: &[u8])
        ensures
            final(self).leaves() == old(self).leaves().push(leaf_hash(data@)),
    {
        let leaf = hash_leaf(data);
        self.leaves.push(leaf);
        assert(byte_views(self.leaves@) == byte_views(old(self).leaves@).push(leaf_hash(data@)));
    }

    /// Number of leaves.
    pub fn count(&self) -> (n: usize)
        ensures
            n == self.leaves().len(),
    {
        self.leaves.len()
    }

    /// The root hash: the trust anchor for everything the tree holds.
    pub fn root_hash(&self) -> (out: Vec<u8>)
        ensures
            out@ == merkle_root(self.leaves()),
    {
        let n: usize = self.leaves.len();
        assert(byte_views(self.leaves@).subrange(0, n as int) == byte_views(self.leaves@));
        root_of_range(&self.leaves, 0, n)
    }

    /// A copy of the tree with the same leaves.
    pub fn duplicate(&self) -> (tree: MerkleTree)
        ensures
            tree.leaves() == self.leaves(),
    {
        let mut leaves: Vec<Vec<u8>> = Vec::new();
        let mut i: usize = 0;
        while i < self.leaves.len()
            invariant
                i <= self.leaves.len(),
                leaves.len() == i,
                forall|j: int| 0 <= j < i ==> leaves[j]@ == self.leaves[j]@,
            decreases self.leaves.len() - i,
        {
            let leaf = copy_bytes(&self.leaves[i]);
            leaves.push(leaf);
            i = i + 1;
        }
        assert(byte_views(leaves@) == byte_views(self.leaves@));
        MerkleTree { leaves }
    }
}

} // verus!
