//! Key pairs and addresses: the public-key hash that outputs are locked to,
//! and its Base58 address with version byte and checksum.

use vstd::prelude::*;
use crate::util::{
    address_checksum_of, base58_decoded, base58_of, checksum_address, compare_slice_u8,
    copy_bytes, decode_base58, encode_base58, encode_ripemd160, public_key_of,
    public_key_to_vec, recover_secret_key, ripemd160_of, secret_key_ok, sha256,
    sha256_of,
};

verus! {

/// The version byte that opens an address.
pub const NET_ENV: u8 = 0;

/// The length of the checksum that closes an address.
pub const ADDRESS_CHECKSUM_LEN: usize = 4;

/// The hash outputs are locked to: RIPEMD-160 of SHA-256 of the public key.
pub open spec fn pub_key_hash_of(pub_key: Seq<u8>) -> Seq<u8> {
    ripemd160_of(sha256_of(pub_key))
}

/// The bytes an address encodes: version byte, public-key hash, checksum.
pub open spec fn address_bytes(pub_key: Seq<u8>) -> Seq<u8> {
    let payload = seq![NET_ENV] + pub_key_hash_of(pub_key);
    payload + address_checksum_of(payload)
}

/// Whether decoded address bytes carry a matching checksum and the version byte.
pub open spec fn address_bytes_ok(raw: Seq<u8>) -> bool {
    &&& raw.len() >= 5
    &&& address_checksum_of(raw.subrange(0, raw.len() - 4)) == raw.subrange(raw.len() - 4, raw.len() as int)
    &&& raw[0] == NET_ENV
}

/// A key pair, both halves as bytes.
pub struct Wallet {
    pub secret_key: Vec<u8>,
    pub public_key: Vec<u8>,
}

impl Wallet {
    /// A wallet with a fresh key pair.
    pub fn new() -> (r: Wallet)
        ensures
            secret_key_ok(r.secret_key@),
            r.public_key@ == public_key_of(r.secret_key@),
    {
        let (secret_key, public_key) = Self::new_key_pair();
        Wallet { secret_key, public_key }
    }

    /// A wallet for a secret key; `None` where the bytes are not a valid key.
    pub fn recover_wallet(origin_secret_key: &[u8]) -> (r: Option<Wallet>)
        ensures
            r is Some == secret_key_ok(origin_secret_key@),
            r is Some ==> r.unwrap().secret_key@ == origin_secret_key@
                && r.unwrap().public_key@ == public_key_of(origin_secret_key@),
    {
        if !recover_secret_key(origin_secret_key) {
            return None;
        }
        let public_key = public_key_to_vec(origin_secret_key);
        Some(Wallet { secret_key: copy_bytes(origin_secret_key), public_key })
    }

    /// A fresh key pair: secret key bytes and uncompressed public key.
    pub fn new_key_pair() -> (r: (Vec<u8>, Vec<u8>))
        ensures
            secret_key_ok(r.0@),
            r.1@ == public_key_of(r.0@),
    {
        crate::util::new_key_pair()
    }

    /// RIPEMD-160 of SHA-256 of the public key.
    pub fn hash_pubkey(public_key: &[u8]) -> (r: Vec<u8>)
        ensures
            r@ == pub_key_hash_of(public_key@),
            r@.len() == 20,
    {
        let public_sha256 = sha256(public_key);
        encode_ripemd160(public_sha256.as_slice())
    }

    /// The address of this wallet: Base58 of version byte, public-key hash
    /// and checksum.
    pub fn get_address(&self) -> (r: String)
        ensures
            r@ == base58_of(address_bytes(self.public_key@)),
    {
        let hash = Self::hash_pubkey(self.public_key.as_slice());
        let mut payload: Vec<u8> = vec![NET_ENV];
        let mut h = hash;
        payload.append(&mut h);
        let mut sum = checksum_address(payload.as_slice());
        let ghost p = payload@;
        payload.append(&mut sum);
        proof {
            assert(p =~= seq![NET_ENV] + pub_key_hash_of(self.public_key@));
        }
        encode_base58(payload.as_slice())
    }

    /// Whether `address` decodes to at least five bytes whose last four are
    /// the checksum of the rest and whose first is the version byte.
    pub fn validate_address(address: &str) -> (r: bool)
        ensures
            r == (base58_decoded(address@) is Some && address_bytes_ok(base58_decoded(address@).unwrap())),
    {
        let raw = match decode_base58(address) {
            Some(v) => v,
            None => {
                return false;
            },
        };
        if raw.len() < 5 {
            return false;
        }
        let end = raw.len() - ADDRESS_CHECKSUM_LEN;
        let mut body: Vec<u8> = Vec::new();
        let mut tail: Vec<u8> = Vec::new();
        let mut i: usize = 0;
        while i < raw.len()
            invariant
                end == raw@.len() - 4,
                0 <= i <= raw@.len(),
                body@ == raw@.subrange(0, if i < end { i as int } else { end as int }),
                tail@ == if i < end { Seq::<u8>::empty() } else { raw@.subrange(end as int, i as int) },
            decreases raw@.len() - i,
        {
            if i < end {
                body.push(raw[i]);
            } else {
                tail.push(raw[i]);
            }
            i = i + 1;
            proof {
                if i <= end {
                    assert(body@ =~= raw@.subrange(0, i as int));
                } else {
                    assert(tail@ =~= raw@.subrange(end as int, i as int));
                }
            }
        }
        let target = checksum_address(body.as_slice());
        if !compare_slice_u8(target.as_slice(), tail.as_slice()) {
            return false;
        }
        raw[0] == NET_ENV
    }
}

/// The address text of a public key.
pub open spec fn address_of(pub_key: Seq<u8>) -> Seq<char> {
    base58_of(address_bytes(pub_key))
}

/// No two wallets share an address.
pub open spec fn addresses_distinct(w: Seq<Wallet>) -> bool {
    forall|i: int, j: int|
        0 <= i < w.len() && 0 <= j < w.len() && i != j ==> address_of(#[trigger] w[i].public_key@)
            != address_of(#[trigger] w[j].public_key@)
}

/// A set of wallets keyed by address, in the order they were created.
pub struct Wallets {
    pub wallets: Vec<Wallet>,
}

impl Wallets {
    /// Whether the wallets have distinct addresses.
    pub open spec fn wf(&self) -> bool {
        addresses_distinct(self.wallets@)
    }

    /// A set holding one fresh wallet.
    pub fn new() -> (r: Wallets)
        ensures
            r.wf(),
            r.wallets@.len() == 1,
    {
        let w = Wallet::new();
        let r = Wallets { wallets: vec![w] };
        r
    }

    /// Adds a fresh wallet and returns its address; `None`, adding nothing,
    /// exactly when the freshly drawn key's address is already held.
    pub fn create_wallet(&mut self) -> (r: Option<String>)
        requires
            old(self).wf(),
        ensures
            final(self).wf(),
            r is Some ==> final(self).wallets@.len() == old(self).wallets@.len() + 1
                && final(self).wallets@.take(old(self).wallets@.len() as int) == old(self).wallets@
                && r.unwrap()@ == address_of(final(self).wallets@.last().public_key@)
                && secret_key_ok(final(self).wallets@.last().secret_key@)
                && final(self).wallets@.last().public_key@ == public_key_of(final(self).wallets@.last().secret_key@),
            r is None ==> final(self).wallets@ == old(self).wallets@ && exists|k: Seq<u8>, i: int|
                secret_key_ok(k) && 0 <= i < old(self).wallets@.len() && address_of(
                    #[trigger] old(self).wallets@[i].public_key@,
                ) == address_of(#[trigger] public_key_of(k)),
    {
        let w = Wallet::new();
        let address = w.get_address();
        if self.get_wallet(&address).is_some() {
            proof {
                let i = choose|i: int|
                    0 <= i < self.wallets@.len() && address_of(#[trigger] self.wallets@[i].public_key@) == address@;
                assert(address_of(self.wallets@[i].public_key@) == address_of(public_key_of(w.secret_key@)));
            }
            return None;
        }
        let ghost before = self.wallets@;
        self.wallets.push(w);
        proof {
            assert(self.wallets@.take(before.len() as int) =~= before);
            let n = before.len() as int;
            assert forall|i: int, j: int|
                0 <= i < self.wallets@.len() && 0 <= j < self.wallets@.len() && i != j implies address_of(
                #[trigger] self.wallets@[i].public_key@,
            ) != address_of(#[trigger] self.wallets@[j].public_key@) by {
                if i < n && j < n {
                    assert(self.wallets@[i] == before[i] && self.wallets@[j] == before[j]);
                } else if i < n {
                    assert(self.wallets@[i] == before[i]);
                } else {
                    assert(self.wallets@[j] == before[j]);
                }
            }
        }
        Some(address)
    }

    /// The wallet whose address is `address`.
    pub fn get_wallet(&self, address: &String) -> (r: Option<&Wallet>)
        ensures
            r is Some ==> exists|i: int|
                0 <= i < self.wallets@.len() && self.wallets@[i] == *r.unwrap() && address_of(
                    #[trigger] self.wallets@[i].public_key@,
                ) == address@,
            r is None ==> forall|i: int|
                0 <= i < self.wallets@.len() ==> address_of(#[trigger] self.wallets@[i].public_key@) != address@,
    {
        let mut i: usize = 0;
        while i < self.wallets.len()
            invariant
                0 <= i <= self.wallets@.len(),
                forall|j: int|
                    0 <= j < i ==> address_of(#[trigger] self.wallets@[j].public_key@) != address@,
            decreases self.wallets@.len() - i,
        {
            let a = self.wallets[i].get_address();
            if a == *address {
                return Some(&self.wallets[i]);
            }
            i = i + 1;
        }
        None
    }

    /// The address of every wallet, in order; no address appears twice.
    pub fn list_address(&self) -> (r: Vec<String>)
        requires
            self.wf(),
        ensures
            r@.len() == self.wallets@.len(),
            forall|i: int| 0 <= i < r@.len() ==> #[trigger] r@[i]@ == address_of(self.wallets@[i].public_key@),
            forall|i: int, j: int| 0 <= i < r@.len() && 0 <= j < r@.len() && i != j ==> #[trigger] r@[i]@ != #[trigger] r@[j]@,
    {
        let mut out: Vec<String> = Vec::new();
        let mut i: usize = 0;
        while i < self.wallets.len()
            invariant
                0 <= i <= self.wallets@.len(),
                out@.len() == i,
                forall|j: int| 0 <= j < i ==> #[trigger] out@[j]@ == address_of(self.wallets@[j].public_key@),
            decreases self.wallets@.len() - i,
        {
            out.push(self.wallets[i].get_address());
            i = i + 1;
        }
        proof {
            assert forall|i: int, j: int| 0 <= i < out@.len() && 0 <= j < out@.len() && i != j implies #[trigger] out@[i]@
                != #[trigger] out@[j]@ by {
                assert(address_of(self.wallets@[i].public_key@) != address_of(self.wallets@[j].public_key@));
            }
        }
        out
    }
}

} // verus!
