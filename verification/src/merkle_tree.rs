//! The Merkle tree that commits a block to its transactions: leaves are
//! the digests of the data, a level with an odd number of nodes repeats
//! its last node, and a parent is the digest of its two children's
//! digests, one after the other.

use vstd::prelude::*;
use vstd::slice::*;

use crate::digest::{sha256, sha256_digest, SHA256_LEN};

verus! {

/// The sequence with its last element repeated where its length is odd.
pub open spec fn pad_even<T>(s: Seq<T>) -> Seq<T> {
    if s.len() % 2 == 1 {
        s.push(s.last())
    } else {
        s
    }
}

/// The digests of the data, in order.
pub open spec fn leaf_hashes(data: Seq<Seq<u8>>) -> Seq<Seq<u8>> {
    data.map_values(|d: Seq<u8>| sha256(d))
}

/// The level above a level of even length: the digest of each pair.
pub open spec fn pair_up(level: Seq<Seq<u8>>) -> Seq<Seq<u8>> {
    Seq::new(level.len() / 2, |i: int| sha256(level[2 * i] + level[2 * i + 1]))
}

/// The level above any level: padded to even length, then paired.
pub open spec fn level_above(level: Seq<Seq<u8>>) -> Seq<Seq<u8>> {
    pair_up(pad_even(level))
}

/// The digest at the top of the levels above `level`.
pub open spec fn fold_levels(level: Seq<Seq<u8>>) -> Seq<u8>
    decreases level.len(),
{
    if level.len() == 0 {
        Seq::empty()
    } else if level.len() == 1 {
        level[0]
    } else {
        fold_levels(level_above(level))
    }
}

/// The Merkle root of a non-empty sequence of data. There is always at
/// least one level above the leaves: a single datum is paired with
/// itself.
pub open spec fn merkle_root(data: Seq<Seq<u8>>) -> Seq<u8> {
    fold_levels(level_above(leaf_hashes(data)))
}

/// The contents of a list of byte strings.
pub open spec fn byte_views(v: Seq<Vec<u8>>) -> Seq<Seq<u8>> {
    v.map_values(|b: Vec<u8>| b@)
}

/// A node of the tree: a digest of 32 bytes, and the two children it was
/// computed from unless it is a leaf.
pub struct MerkleNode {
    left: Option<Box<MerkleNode>>,
    right: Option<Box<MerkleNode>>,
    data: Vec<u8>,
}

/// The digests of a list of nodes.
pub open spec fn node_hashes(nodes: Seq<MerkleNode>) -> Seq<Seq<u8>> {
    nodes.map_values(|n: MerkleNode| n.hash())
}

impl MerkleNode {
    /// The digest has the length of a SHA-256 digest.
    #[verifier::type_invariant]
    spec fn digest_is_whole(self) -> bool {
        self.data@.len() == SHA256_LEN
    }

    /// The digest that the node holds.
    pub closed spec fn hash(&self) -> Seq<u8> {
        self.data@
    }

    /// The left child, which a leaf does not have.
    pub closed spec fn left_child(&self) -> Option<MerkleNode> {
        match self.left {
            Some(child) => Some(*child),
            None => None,
        }
    }

    /// The right child, which a leaf does not have.
    pub closed spec fn right_child(&self) -> Option<MerkleNode> {
        match self.right {
            Some(child) => Some(*child),
            None => None,
        }
    }

    /// The two nodes hold the same digest, and either both are leaves or
    /// the children of the one are as the children of the other.
    pub closed spec fn same_tree(&self, other: &MerkleNode) -> bool
        decreases self,
    {
        &&& self.data@ == other.data@
        &&& match (self.left, other.left) {
            (Some(a), Some(b)) => a.same_tree(&*b),
            (None, None) => true,
            _ => false,
        }
        &&& match (self.right, other.right) {
            (Some(a), Some(b)) => a.same_tree(&*b),
            (None, None) => true,
            _ => false,
        }
    }

    /// A leaf for `data` where no children are given, else the parent of
    /// the two children, which it holds. A leaf needs its datum, and a
    /// parent both children.
    pub fn new(left: Option<MerkleNode>, right: Option<MerkleNode>, data: Option<Vec<u8>>) -> (node:
        MerkleNode)
        requires
            left is None <==> right is None,
            left is None ==> data is Some,
        ensures
            left is None ==> node.hash() == sha256(data.unwrap()@),
            left is Some ==> node.hash() == sha256(left.unwrap().hash() + right.unwrap().hash()),
            node.hash().len() == SHA256_LEN,
            node.left_child() == left,
            node.right_child() == right,
    {
        match (left, right) {
            (Some(l), Some(r)) => {
                let mut prev_hashes: Vec<u8> = Vec::new();
                prev_hashes.extend_from_slice(l.data.as_slice());
                prev_hashes.extend_from_slice(r.data.as_slice());
                assert(prev_hashes@ =~= l.hash() + r.hash());
                let digest = sha256_digest(prev_hashes.as_slice());
                MerkleNode { left: Some(Box::new(l)), right: Some(Box::new(r)), data: digest }
            },
            _ => {
                let datum = match data {
                    Some(d) => d,
                    None => Vec::new(),
                };
                MerkleNode { left: None, right: None, data: sha256_digest(datum.as_slice()) }
            },
        }
    }

    /// The digest that the node holds.
    pub fn digest(&self) -> (digest: Vec<u8>)
        ensures
            digest@ == self.hash(),
            digest@.len() == SHA256_LEN,
    {
        proof {
            use_type_invariant(self);
        }
        slice_to_vec(self.data.as_slice())
    }

    /// A copy of the node and of everything below it.
    pub fn duplicate(&self) -> (copy: MerkleNode)
        ensures
            copy.hash() == self.hash(),
            copy.same_tree(self),
        decreases self,
    {
        proof {
            use_type_invariant(self);
        }
        let left = match &self.left {
            Some(child) => Some(Box::new(child.duplicate())),
            None => None,
        };
        let right = match &self.right {
            Some(child) => Some(Box::new(child.duplicate())),
            None => None,
        };
        MerkleNode { left, right, data: slice_to_vec(self.data.as_slice()) }
    }
}

/// A Merkle tree, known by its root.
pub struct MerkleTree {
    root: MerkleNode,
}

/// Builds the level above `nodes`.
fn build_level_above(nodes: &Vec<MerkleNode>) -> (above: Vec<MerkleNode>)
    requires
        nodes@.len() > 0,
    ensures
        node_hashes(above@) == level_above(node_hashes(nodes@)),
        above@.len() == (nodes@.len() + 1) / 2,
{
    let ghost level = node_hashes(nodes@);
    let ghost padded = pad_even(level);
    let n = nodes.len();
    let pairs = n / 2 + n % 2;
    let mut above: Vec<MerkleNode> = Vec::new();
    let mut k: usize = 0;
    while k < pairs
        invariant
            n == nodes@.len(),
            pairs == (n + 1) / 2,
            level == node_hashes(nodes@),
            padded == pad_even(level),
            k <= pairs,
            above@.len() == k,
            forall|j: int|
                0 <= j < above@.len() ==> (#[trigger] above@[j]).hash() == sha256(
                    padded[2 * j] + padded[2 * j + 1],
                ),
        decreases pairs - k,
    {
        let i = 2 * k;
        let left = nodes[i].duplicate();
        let right = if i + 1 < n {
            nodes[i + 1].duplicate()
        } else {
            nodes[i].duplicate()
        };
        proof {
            assert(padded[i as int] == nodes@[i as int].hash());
            if i + 1 < n {
                assert(padded[i + 1] == nodes@[i + 1].hash());
            } else {
                assert(n % 2 == 1);
                assert(padded[i + 1] == level.last());
            }
        }
        above.push(MerkleNode::new(Some(left), Some(right), None));
        k += 1;
    }
    assert(node_hashes(above@) =~= level_above(level));
    above
}

impl MerkleTree {
    /// The digest at the root.
    pub closed spec fn root_hash(&self) -> Seq<u8> {
        self.root.hash()
    }

    /// Builds the tree over `data`, which must not be empty. Where the
    /// number of data is odd, the last datum is appended to `data` once
    /// more.
    pub fn new(data: &mut Vec<Vec<u8>>) -> (tree: MerkleTree)
        requires
            old(data)@.len() > 0,
        ensures
            byte_views(final(data)@) == pad_even(byte_views(old(data)@)),
            tree.root_hash() == merkle_root(byte_views(old(data)@)),
            tree.root_hash().len() == SHA256_LEN,
    {
        let ghost given = byte_views(data@);
        if data.len() % 2 != 0 {
            let last = slice_to_vec(data[data.len() - 1].as_slice());
            data.push(last);
        }
        assert(byte_views(data@) =~= pad_even(given));
        let mut nodes: Vec<MerkleNode> = Vec::new();
        let mut i: usize = 0;
        while i < data.len()
            invariant
                i <= data@.len(),
                nodes@.len() == i,
                forall|j: int| 0 <= j < i ==> (#[trigger] nodes@[j]).hash() == sha256(data@[j]@),
            decreases data@.len() - i,
        {
            let datum = slice_to_vec(data[i].as_slice());
            nodes.push(MerkleNode::new(None, None, Some(datum)));
            i += 1;
        }
        proof {
            let leaves = leaf_hashes(given);
            assert(node_hashes(nodes@) =~= pad_even(leaves));
            assert(pad_even(pad_even(leaves)) == pad_even(leaves));
        }
        nodes = build_level_above(&nodes);
        while nodes.len() > 1
            invariant
                nodes@.len() > 0,
                fold_levels(node_hashes(nodes@)) == merkle_root(given),
            decreases nodes@.len(),
        {
            nodes = build_level_above(&nodes);
        }
        let root = nodes.remove(0);
        proof {
            use_type_invariant(&root);
        }
        MerkleTree { root }
    }

    /// The digest at the root.
    pub fn data(&self) -> (digest: Vec<u8>)
        ensures
            digest@ == self.root_hash(),
            digest@.len() == SHA256_LEN,
    {
        proof {
            use_type_invariant(&self.root);
        }
        slice_to_vec(self.root.data.as_slice())
    }
}

} // verus!
