//! Merkle root of a block's transactions: SHA-256 leaves, paired level by
//! level, the last digest of an odd level paired with itself.

use vstd::prelude::*;
use crate::util::{copy_bytes, sha256, sha256_of};

verus! {

/// A level with its last digest repeated when its length is odd.
pub open spec fn pad_even(level: Seq<Seq<u8>>) -> Seq<Seq<u8>> {
    if level.len() % 2 == 1 {
        level.push(level.last())
    } else {
        level
    }
}

/// The level above: SHA-256 of each pair of neighbours, left then right.
pub open spec fn next_level(level: Seq<Seq<u8>>) -> Seq<Seq<u8>> {
    let p = pad_even(level);
    Seq::new(p.len() / 2, |i: int| sha256_of(p[2 * i] + p[2 * i + 1]))
}

/// The digest that remains once the levels have been folded to one.
pub open spec fn fold_levels(level: Seq<Seq<u8>>) -> Seq<u8>
    decreases level.len(),
{
    if level.len() <= 1 {
        level[0]
    } else {
        fold_levels(next_level(level))
    }
}

/// The leaf digests: SHA-256 of each item.
pub open spec fn leaf_hashes(data: Seq<Seq<u8>>) -> Seq<Seq<u8>> {
    data.map_values(|d: Seq<u8>| sha256_of(d))
}

/// The Merkle root of a non-empty list of items. A single item is paired
/// with itself, so its root is SHA-256 of its leaf digest twice over.
pub open spec fn merkle_root_of(data: Seq<Seq<u8>>) -> Seq<u8> {
    fold_levels(next_level(leaf_hashes(data)))
}

/// The views of a list of byte strings.
pub open spec fn bytes_view(v: Seq<Vec<u8>>) -> Seq<Seq<u8>> {
    v.map_values(|b: Vec<u8>| b@)
}

/// A node of the tree; only its digest is kept.
pub struct MerkleNode {
    pub data: Vec<u8>,
}

/// The tree, reduced to its root.
pub struct MerkleTree {
    pub root: Option<MerkleNode>,
}

impl MerkleNode {
    /// A leaf: SHA-256 of the item.
    pub fn new(data: &[u8]) -> (r: MerkleNode)
        ensures
            r.data@ == sha256_of(data@),
    {
        MerkleNode { data: sha256(data) }
    }

    /// An inner node: SHA-256 of the left digest followed by the right one.
    pub fn new_merkle_node(left: &MerkleNode, right: &MerkleNode) -> (r: MerkleNode)
        ensures
            r.data@ == sha256_of(left.data@ + right.data@),
            r.data@.len() == 32,
    {
        let mut hash_data = copy_bytes(left.data.as_slice());
        let mut tail = copy_bytes(right.data.as_slice());
        hash_data.append(&mut tail);
        MerkleNode { data: sha256(hash_data.as_slice()) }
    }
}

/// The level above `level`, computed.
fn build_level(level: &Vec<Vec<u8>>) -> (r: Vec<Vec<u8>>)
    requires
        level@.len() > 0,
    ensures
        bytes_view(r@) == next_level(bytes_view(level@)),
        r@.len() == (level@.len() + 1) / 2,
        forall|j: int| 0 <= j < r@.len() ==> (#[trigger] r@[j])@.len() == 32,
{
    let ghost lv = bytes_view(level@);
    let ghost p = pad_even(lv);
    let n = level.len();
    let half = n / 2 + n % 2;
    let mut out: Vec<Vec<u8>> = Vec::new();
    let mut i: usize = 0;
    while i < half
        invariant
            lv == bytes_view(level@),
            p == pad_even(lv),
            n == level@.len(),
            half == n / 2 + n % 2,
            p.len() == 2 * half,
            0 <= i <= half,
            out@.len() == i,
            forall|j: int| 0 <= j < i ==> #[trigger] out@[j]@ == sha256_of(p[2 * j] + p[2 * j + 1]),
            forall|j: int| 0 <= j < i ==> (#[trigger] out@[j])@.len() == 32,
        decreases half - i,
    {
        let left = MerkleNode { data: copy_bytes(level[2 * i].as_slice()) };
        let right = if 2 * i + 1 < n {
            MerkleNode { data: copy_bytes(level[2 * i + 1].as_slice()) }
        } else {
            MerkleNode { data: copy_bytes(level[2 * i].as_slice()) }
        };
        proof {
            assert(p[2 * i as int] == left.data@);
            assert(p[2 * i as int + 1] == right.data@);
        }
        let node = MerkleNode::new_merkle_node(&left, &right);
        out.push(node.data);
        i = i + 1;
    }
    proof {
        assert(bytes_view(out@) =~= next_level(lv));
    }
    out
}

impl MerkleTree {
    /// The tree over `data`, of which only the root is built.
    pub fn new_merkle_tree(data: Vec<Vec<u8>>) -> (r: MerkleTree)
        requires
            data@.len() > 0,
        ensures
            r.root is Some,
            r.root.unwrap().data@ == merkle_root_of(bytes_view(data@)),
            r.root.unwrap().data@.len() == 32,
    {
        let mut leaves: Vec<Vec<u8>> = Vec::new();
        let mut i: usize = 0;
        while i < data.len()
            invariant
                0 <= i <= data@.len(),
                leaves@.len() == i,
                forall|j: int| 0 <= j < i ==> #[trigger] leaves@[j]@ == sha256_of(data@[j]@),
            decreases data@.len() - i,
        {
            let leaf = MerkleNode::new(data[i].as_slice());
            leaves.push(leaf.data);
            i = i + 1;
        }
        proof {
            assert(bytes_view(leaves@) =~= leaf_hashes(bytes_view(data@)));
        }
        let ghost target = merkle_root_of(bytes_view(data@));
        let mut nodes = build_level(&leaves);
        while nodes.len() > 1
            invariant
                nodes@.len() >= 1,
                fold_levels(bytes_view(nodes@)) == target,
                forall|j: int| 0 <= j < nodes@.len() ==> (#[trigger] nodes@[j])@.len() == 32,
            decreases nodes@.len(),
        {
            nodes = build_level(&nodes);
        }
        let root = nodes.pop();
        match root {
            Some(d) => MerkleTree { root: Some(MerkleNode { data: d }) },
            None => MerkleTree { root: None },
        }
    }
}

} // verus!
