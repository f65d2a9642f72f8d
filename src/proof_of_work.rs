//! Proof of work: the search for a nonce whose header digest falls below
//! the target, and the check of a found one.

use vstd::prelude::*;
use crate::block::{block_tx_root, first_valid_nonce, Block, BlockV};
use crate::util::{be_u64_bytes, copy_bytes, sha256, sha256_of, write_i64};

verus! {

/// The difficulty: a digest must have this many leading zero bits.
pub const TARGET_BITS: i64 = 16;

/// Nonces are searched in `0..MAX_NONCE` (2^60).
pub const MAX_NONCE: i64 = 1152921504606846976;

/// A byte string read as a big-endian number.
pub open spec fn be_value(s: Seq<u8>) -> nat
    decreases s.len(),
{
    if s.len() == 0 {
        0
    } else {
        be_value(s.drop_last()) * 256 + s.last() as nat
    }
}

/// 256 to the power `n`.
pub open spec fn pow256(n: nat) -> nat
    decreases n,
{
    if n == 0 {
        1
    } else {
        256 * pow256((n - 1) as nat)
    }
}

/// The target: 1 shifted left by 256 - 16 bits, that is 256^30.
pub open spec fn target() -> nat {
    pow256(30)
}

/// A 32-byte digest, read as a big-endian number, is below the target.
pub open spec fn meets_target(h: Seq<u8>) -> bool {
    h.len() == 32 && be_value(h) < target()
}

proof fn lemma_be_value_bound(s: Seq<u8>)
    ensures
        be_value(s) < pow256(s.len()),
    decreases s.len(),
{
    if s.len() > 0 {
        lemma_be_value_bound(s.drop_last());
        let v = be_value(s.drop_last());
        let p = pow256(s.drop_last().len());
        let b = s.last() as nat;
        assert(v * 256 + b < 256 * p) by (nonlinear_arith)
            requires
                v < p,
                b < 256,
        ;
    }
}

proof fn lemma_be_value_split(a: Seq<u8>, b: Seq<u8>)
    ensures
        be_value(a + b) == be_value(a) * pow256(b.len()) + be_value(b),
    decreases b.len(),
{
    if b.len() == 0 {
        assert(a + b =~= a);
        assert(pow256(0) == 1);
        assert(be_value(b) == 0);
        assert(be_value(a) * 1 == be_value(a));
    } else {
        lemma_be_value_split(a, b.drop_last());
        assert((a + b).drop_last() =~= a + b.drop_last());
        assert((a + b).last() == b.last());
        let va = be_value(a);
        let p = pow256(b.drop_last().len());
        let vb = be_value(b.drop_last());
        assert((va * p + vb) * 256 + b.last() as nat == va * (256 * p) + (vb * 256 + b.last() as nat))
            by (nonlinear_arith);
        assert(pow256(b.len()) == 256 * p);
        assert(be_value(b) == vb * 256 + b.last() as nat);
        assert(be_value(a + b) == be_value(a + b.drop_last()) * 256 + b.last() as nat);
    }
}

/// A 32-byte digest is below the target exactly when its first two bytes
/// are zero.
proof fn lemma_meets_target_leading_zeros(h: Seq<u8>)
    requires
        h.len() == 32,
    ensures
        meets_target(h) == (h[0] == 0 && h[1] == 0),
{
    let head = h.subrange(0, 2);
    let rest = h.subrange(2, 32);
    assert(h =~= head + rest);
    lemma_be_value_split(head, rest);
    lemma_be_value_bound(rest);
    let one = seq![h[0]];
    assert(head.drop_last() =~= one);
    assert(head.last() == h[1]);
    assert(one.drop_last() =~= Seq::<u8>::empty());
    assert(one.last() == h[0]);
    assert(be_value(Seq::<u8>::empty()) == 0);
    assert(be_value(one) == h[0] as nat);
    assert(be_value(head) == h[0] as nat * 256 + h[1] as nat);
    let p = pow256(30);
    let vh = be_value(head);
    let vr = be_value(rest);
    assert(rest.len() == 30);
    assert(be_value(h) == vh * p + vr);
    if h[0] == 0 && h[1] == 0 {
        assert(vh == 0);
        assert(vh * p == 0) by (nonlinear_arith)
            requires
                vh == 0,
        ;
    }
    if h[0] != 0 || h[1] != 0 {
        assert(vh >= 1);
        assert(vh * p + vr >= p) by (nonlinear_arith)
            requires
                vh >= 1,
        ;
    }
}

/// The mined header bytes: previous hash, Merkle root, then timestamp,
/// difficulty and nonce as eight big-endian bytes each.
pub open spec fn pow_preimage(b: BlockV, nonce: i64) -> Seq<u8> {
    b.prev_block_hash + block_tx_root(b) + be_u64_bytes(b.timestamp as u64) + be_u64_bytes(
        TARGET_BITS as u64,
    ) + be_u64_bytes(nonce as u64)
}

/// The stored nonce of the block gives a digest below the target.
pub open spec fn pow_valid(b: BlockV) -> bool {
    meets_target(sha256_of(pow_preimage(b, b.nonce)))
}

/// A block under proof of work.
pub struct ProofOfWork {
    pub block: Block,
}

impl ProofOfWork {
    pub fn new_proof_of_work(b: Block) -> (r: ProofOfWork)
        ensures
            r.block@ == b@,
    {
        ProofOfWork { block: b }
    }

    /// Searches the nonces from 0 upward and returns the first whose digest
    /// meets the target, with that digest; `None` once `MAX_NONCE` is reached.
    pub fn run(&self) -> (r: Option<(i64, Vec<u8>)>)
        requires
            self.block.transactions@.len() > 0,
        ensures
            r is Some ==> first_valid_nonce(self.block@, r.unwrap().0) && r.unwrap().1@ == sha256_of(
                pow_preimage(self.block@, r.unwrap().0),
            ),
            r is None ==> forall|m: i64|
                0 <= m < MAX_NONCE ==> !meets_target(#[trigger] sha256_of(pow_preimage(self.block@, m))),
    {
        let root = self.block.hash_transactions();
        let mut n: i64 = 0;
        while n < MAX_NONCE
            invariant
                0 <= n <= MAX_NONCE,
                root@ == block_tx_root(self.block@),
                forall|m: i64| 0 <= m < n ==> !meets_target(#[trigger] sha256_of(pow_preimage(self.block@, m))),
            decreases MAX_NONCE - n,
        {
            let data = self.preimage_with_root(root.as_slice(), n);
            let hash = sha256(data.as_slice());
            proof {
                lemma_meets_target_leading_zeros(hash@);
            }
            if hash[0] == 0 && hash[1] == 0 {
                return Some((n, hash));
            }
            n = n + 1;
        }
        None
    }

    /// Whether the block's stored nonce meets the target.
    pub fn validate(&self) -> (r: bool)
        requires
            self.block.transactions@.len() > 0,
        ensures
            r == pow_valid(self.block@),
    {
        let data = self.prepare_data(self.block.nonce);
        let hash = sha256(data.as_slice());
        proof {
            lemma_meets_target_leading_zeros(hash@);
        }
        hash[0] == 0 && hash[1] == 0
    }

    /// The header bytes mined with `nonce`.
    pub fn prepare_data(&self, nonce: i64) -> (r: Vec<u8>)
        requires
            self.block.transactions@.len() > 0,
        ensures
            r@ == pow_preimage(self.block@, nonce),
    {
        let root = self.block.hash_transactions();
        self.preimage_with_root(root.as_slice(), nonce)
    }

    fn preimage_with_root(&self, root: &[u8], nonce: i64) -> (r: Vec<u8>)
        requires
            root@ == block_tx_root(self.block@),
        ensures
            r@ == pow_preimage(self.block@, nonce),
    {
        let mut buf = copy_bytes(self.block.prev_block_hash.as_slice());
        let mut part = copy_bytes(root);
        buf.append(&mut part);
        let mut part = write_i64(self.block.timestamp);
        buf.append(&mut part);
        let mut part = write_i64(TARGET_BITS);
        buf.append(&mut part);
        let mut part = write_i64(nonce);
        buf.append(&mut part);
        buf
    }
}

} // verus!
