//! Byte-level helpers: fixed-width integer encodings, digests, checksums,
//! address encodings and the ECDSA primitives used to sign transactions.

use vstd::prelude::*;

verus! {

/// Big-endian bytes of a 64-bit word.
pub open spec fn be_u64_bytes(n: u64) -> Seq<u8> {
    seq![
        (n >> 56u64) as u8, (n >> 48u64) as u8, (n >> 40u64) as u8, (n >> 32u64) as u8,
        (n >> 24u64) as u8, (n >> 16u64) as u8, (n >> 8u64) as u8, n as u8,
    ]
}

/// Big-endian bytes of a 32-bit word.
pub open spec fn be_u32_bytes(n: u32) -> Seq<u8> {
    seq![(n >> 24u32) as u8, (n >> 16u32) as u8, (n >> 8u32) as u8, n as u8]
}

/// Eight big-endian bytes of a signed 64-bit integer (two's complement).
pub fn write_i64(num: i64) -> (r: Vec<u8>)
    ensures
        r@ == be_u64_bytes(num as u64),
{
    write_u64(num as u64)
}

/// Eight big-endian bytes of an unsigned 64-bit integer.
pub(crate) fn write_u64(n: u64) -> (r: Vec<u8>)
    ensures
        r@ == be_u64_bytes(n),
{
    vec![
        (n >> 56u64) as u8, (n >> 48u64) as u8, (n >> 40u64) as u8, (n >> 32u64) as u8,
        (n >> 24u64) as u8, (n >> 16u64) as u8, (n >> 8u64) as u8, n as u8,
    ]
}

/// A fresh vector holding the bytes of `b`.
pub(crate) fn copy_bytes(b: &[u8]) -> (r: Vec<u8>)
    ensures
        r@ == b@,
{
    let mut r: Vec<u8> = Vec::new();
    let mut i: usize = 0;
    while i < b.len()
        invariant
            0 <= i <= b@.len(),
            r@ == b@.subrange(0, i as int),
        decreases b@.len() - i,
    {
        r.push(b[i]);
        i = i + 1;
        proof {
            assert(r@ =~= b@.subrange(0, i as int));
        }
    }
    proof {
        assert(r@ =~= b@);
    }
    r
}

/// Four big-endian bytes of a signed 32-bit integer (two's complement).
pub fn write_i32(num: i32) -> (r: Vec<u8>)
    ensures
        r@ == be_u32_bytes(num as u32),
{
    write_u32(num as u32)
}

/// Four big-endian bytes of an unsigned 32-bit integer.
pub fn write_u32(num: u32) -> (r: Vec<u8>)
    ensures
        r@ == be_u32_bytes(num),
{
    vec![(num >> 24u32) as u8, (num >> 16u32) as u8, (num >> 8u32) as u8, num as u8]
}

/// The single byte of a `u8`.
pub fn write_u8(num: u8) -> (r: Vec<u8>)
    ensures
        r@ == seq![num],
{
    vec![num]
}

/// The 64-bit word whose big-endian bytes are `buf`.
pub fn read_u64(buf: &[u8]) -> (r: u64)
    requires
        buf@.len() == 8,
    ensures
        be_u64_bytes(r) == buf@,
{
    let (b0, b1, b2, b3) = (buf[0] as u64, buf[1] as u64, buf[2] as u64, buf[3] as u64);
    let (b4, b5, b6, b7) = (buf[4] as u64, buf[5] as u64, buf[6] as u64, buf[7] as u64);
    let n: u64 = b0 << 56u64 | b1 << 48u64 | b2 << 40u64 | b3 << 32u64 | b4 << 24u64 | b5 << 16u64
        | b6 << 8u64 | b7;
    assert(b0 < 256 && b1 < 256 && b2 < 256 && b3 < 256 && b4 < 256 && b5 < 256 && b6 < 256 && b7 < 256);
    assert(((n >> 56u64) as u8) as u64 == b0 && ((n >> 48u64) as u8) as u64 == b1 && ((n >> 40u64) as u8) as u64
        == b2 && ((n >> 32u64) as u8) as u64 == b3) by (bit_vector)
        requires
            n == b0 << 56u64 | b1 << 48u64 | b2 << 40u64 | b3 << 32u64 | b4 << 24u64 | b5 << 16u64
                | b6 << 8u64 | b7,
            b0 < 256 && b1 < 256 && b2 < 256 && b3 < 256 && b4 < 256 && b5 < 256 && b6 < 256 && b7 < 256,
    ;
    assert(((n >> 24u64) as u8) as u64 == b4 && ((n >> 16u64) as u8) as u64 == b5 && ((n >> 8u64) as u8) as u64
        == b6 && (n as u8) as u64 == b7) by (bit_vector)
        requires
            n == b0 << 56u64 | b1 << 48u64 | b2 << 40u64 | b3 << 32u64 | b4 << 24u64 | b5 << 16u64
                | b6 << 8u64 | b7,
            b0 < 256 && b1 < 256 && b2 < 256 && b3 < 256 && b4 < 256 && b5 < 256 && b6 < 256 && b7 < 256,
    ;
    assert(be_u64_bytes(n) =~= buf@);
    n
}

/// The signed 64-bit integer whose big-endian bytes are `buf`.
pub fn read_i64(buf: &[u8]) -> (r: i64)
    requires
        buf@.len() == 8,
    ensures
        be_u64_bytes(r as u64) == buf@,
{
    let n = read_u64(buf);
    let r = #[verifier::truncate] (n as i64);
    assert(r as u64 == n) by (bit_vector)
        requires
            r == #[verifier::truncate] (n as i64),
    ;
    r
}

/// The 32-bit word whose big-endian bytes are `buf`.
pub fn read_u32(buf: &[u8]) -> (r: u32)
    requires
        buf@.len() == 4,
    ensures
        be_u32_bytes(r) == buf@,
{
    let (b0, b1, b2, b3) = (buf[0] as u32, buf[1] as u32, buf[2] as u32, buf[3] as u32);
    let n: u32 = b0 << 24u32 | b1 << 16u32 | b2 << 8u32 | b3;
    assert(b0 < 256 && b1 < 256 && b2 < 256 && b3 < 256);
    assert(((n >> 24u32) as u8) as u32 == b0 && ((n >> 16u32) as u8) as u32 == b1 && ((n >> 8u32) as u8) as u32
        == b2 && (n as u8) as u32 == b3) by (bit_vector)
        requires
            n == b0 << 24u32 | b1 << 16u32 | b2 << 8u32 | b3,
            b0 < 256 && b1 < 256 && b2 < 256 && b3 < 256,
    ;
    assert(be_u32_bytes(n) =~= buf@);
    n
}

/// The signed 32-bit integer whose big-endian bytes are `buf`.
pub fn read_i32(buf: &[u8]) -> (r: i32)
    requires
        buf@.len() == 4,
    ensures
        be_u32_bytes(r as u32) == buf@,
{
    let n = read_u32(buf);
    let r = #[verifier::truncate] (n as i32);
    assert(r as u32 == n) by (bit_vector)
        requires
            r == #[verifier::truncate] (n as i32),
    ;
    r
}

/// The single byte of `buf`.
pub fn read_u8(buf: &[u8]) -> (r: u8)
    requires
        buf@.len() == 1,
    ensures
        seq![r] == buf@,
{
    let r = buf[0];
    assert(seq![r] =~= buf@);
    r
}

/// Content equality of two byte strings: same length and same bytes.
pub fn compare_slice_u8(s1: &[u8], s2: &[u8]) -> (r: bool)
    ensures
        r == (s1@ == s2@),
{
    if s1.len() != s2.len() {
        return false;
    }
    let mut i: usize = 0;
    while i < s1.len()
        invariant
            s1@.len() == s2@.len(),
            0 <= i <= s1@.len(),
            forall|j: int| 0 <= j < i ==> s1@[j] == s2@[j],
        decreases s1@.len() - i,
    {
        if s1[i] != s2[i] {
            return false;
        }
        i = i + 1;
    }
    proof {
        assert(s1@ =~= s2@);
    }
    true
}

/// Puts `elem` in front of the bytes of `v`.
pub fn vec_stack_push(v: &mut Vec<u8>, elem: u8)
    ensures
        final(v)@ == seq![elem] + old(v)@,
{
    v.insert(0, elem);
    proof {
        assert(final(v)@ =~= seq![elem] + old(v)@);
    }
}

/// The SHA-256 digest of a byte string.
pub uninterp spec fn sha256_of(data: Seq<u8>) -> Seq<u8>;

/// Relies on `sha2::Sha256::digest`: the 32-byte digest of the input, a
/// function of the input bytes alone.
#[verifier::external_body]
pub fn sha256(input: &[u8]) -> (r: Vec<u8>)
    ensures
        r@ == sha256_of(input@),
        r@.len() == 32,
{
    <sha2::Sha256 as sha2::Digest>::digest(input).to_vec()
}

/// SHA-256 applied twice.
pub open spec fn double_sha256_of(data: Seq<u8>) -> Seq<u8> {
    sha256_of(sha256_of(data))
}

/// SHA-256 of the SHA-256 digest of `input`.
pub fn double_sha256(input: &[u8]) -> (r: Vec<u8>)
    ensures
        r@ == double_sha256_of(input@),
        r@.len() == 32,
{
    let next = sha256(input);
    sha256(next.as_slice())
}

/// The RIPEMD-160 digest of a byte string.
pub uninterp spec fn ripemd160_of(data: Seq<u8>) -> Seq<u8>;

/// Relies on `crypto::ripemd160::Ripemd160`: the 20-byte digest of the input,
/// a function of the input bytes alone.
#[verifier::external_body]
pub fn encode_ripemd160(text: &[u8]) -> (r: Vec<u8>)
    ensures
        r@ == ripemd160_of(text@),
        r@.len() == 20,
{
    let mut sh = crypto::ripemd160::Ripemd160::new();
    let mut out = [0u8; 20];
    crypto::digest::Digest::input(&mut sh, text);
    crypto::digest::Digest::result(&mut sh, &mut out);
    out.to_vec()
}

/// The CRC-32 (IEEE) checksum of a byte string.
pub uninterp spec fn crc32_of(data: Seq<u8>) -> u32;

/// Relies on `crc::Crc::<u32>::checksum` with the IEEE polynomial
/// (`CRC_32_ISO_HDLC`): a function of the input bytes alone.
#[verifier::external_body]
pub fn crc32(text: &[u8]) -> (r: u32)
    ensures
        r == crc32_of(text@),
{
    crc::Crc::<u32>::new(&crc::CRC_32_ISO_HDLC).checksum(text)
}

/// The four checksum bytes that close an address.
pub open spec fn address_checksum_of(payload: Seq<u8>) -> Seq<u8> {
    be_u32_bytes(crc32_of(sha256_of(sha256_of(payload))))
}

/// Checksum of an address payload: CRC-32 of its double SHA-256, big-endian.
pub fn checksum_address(payload: &[u8]) -> (r: Vec<u8>)
    ensures
        r@ == address_checksum_of(payload@),
        r@.len() == 4,
{
    let next = sha256(payload);
    let twice = sha256(next.as_slice());
    write_u32(crc32(twice.as_slice()))
}

/// The Base58 text (bitcoin alphabet) of a byte string.
pub uninterp spec fn base58_of(payload: Seq<u8>) -> Seq<char>;

/// Relies on `rust_base58::ToBase58::to_base58`: a function of the bytes alone.
#[verifier::external_body]
pub fn encode_base58(payload: &[u8]) -> (r: String)
    ensures
        r@ == base58_of(payload@),
{
    rust_base58::ToBase58::to_base58(payload)
}

/// The bytes a Base58 text stands for, or `None` where it holds a character
/// outside the alphabet.
pub uninterp spec fn base58_decoded(text: Seq<char>) -> Option<Seq<u8>>;

/// Relies on `rust_base58::FromBase58::from_base58`: a function of the text
/// alone, failing on a character outside the alphabet.
#[verifier::external_body]
pub fn decode_base58(payload: &str) -> (r: Option<Vec<u8>>)
    ensures
        r.is_some() == base58_decoded(payload@).is_some(),
        r.is_some() ==> r.unwrap()@ == base58_decoded(payload@).unwrap(),
{
    match rust_base58::FromBase58::from_base58(payload) {
        Ok(v) => Some(v),
        Err(_) => None,
    }
}

/// The ASCII lower-case hexadecimal digit of a value below 16.
pub open spec fn hex_digit(n: int) -> u8 {
    if n < 10 {
        (48 + n) as u8
    } else {
        (87 + n) as u8
    }
}

/// The lower-case hexadecimal text of a byte string, as ASCII bytes: two
/// digits per byte, the high one first.
pub open spec fn hex_ascii_of(data: Seq<u8>) -> Seq<u8>
    decreases data.len(),
{
    if data.len() == 0 {
        Seq::empty()
    } else {
        hex_ascii_of(data.drop_last()) + seq![
            hex_digit(data.last() as int / 16),
            hex_digit(data.last() as int % 16),
        ]
    }
}

/// Relies on `hex::encode`: two lower-case digits per byte, high one first.
#[verifier::external_body]
pub(crate) fn hex_ascii(data: &[u8]) -> (r: Vec<u8>)
    ensures
        r@ == hex_ascii_of(data@),
        r@.len() == 2 * data@.len(),
{
    hex::encode(data).into_bytes()
}

/// The decimal digits of a natural number, as ASCII bytes, without leading zeros.
pub open spec fn decimal_digits(n: nat) -> Seq<u8>
    decreases n,
{
    if n < 10 {
        seq![(48 + n) as u8]
    } else {
        decimal_digits(n / 10).push((48 + n % 10) as u8)
    }
}

/// The decimal text of an integer, as ASCII bytes: a minus sign below zero,
/// then the digits of its magnitude.
pub open spec fn decimal_ascii_of(n: i64) -> Seq<u8> {
    if n < 0 {
        seq![45u8] + decimal_digits((-n) as nat)
    } else {
        decimal_digits(n as nat)
    }
}

/// Relies on `i64::to_string`: the decimal text of the number, with a minus
/// sign below zero and no leading zeros.
#[verifier::external_body]
pub(crate) fn decimal_ascii(n: i64) -> (r: Vec<u8>)
    ensures
        r@ == decimal_ascii_of(n),
{
    n.to_string().into_bytes()
}

/// Relies on `time::get_time`: the seconds of the current wall-clock time,
/// of which nothing else is known.
#[verifier::external_body]
pub(crate) fn get_time_sec() -> (r: i64) {
    time::get_time().sec
}

/// Relies on `rand::RngCore::fill_bytes` over `rand::thread_rng`: 32 bytes of
/// which nothing else is known.
#[verifier::external_body]
pub(crate) fn random_bytes32() -> (r: Vec<u8>)
    ensures
        r@.len() == 32,
{
    let mut buf = [0u8; 32];
    rand::RngCore::fill_bytes(&mut rand::thread_rng(), &mut buf);
    buf.to_vec()
}

/// Whether a byte string is a valid secp256k1 secret key.
pub uninterp spec fn secret_key_ok(key: Seq<u8>) -> bool;

/// Relies on `secp256k1::SecretKey::from_slice`: succeeds on 32 bytes that
/// encode a scalar in range, a function of the bytes alone.
#[verifier::external_body]
pub fn recover_secret_key(origin_secret_key: &[u8]) -> (r: bool)
    ensures
        r == secret_key_ok(origin_secret_key@),
        r ==> origin_secret_key@.len() == 32,
{
    secp256k1::SecretKey::from_slice(origin_secret_key).is_ok()
}

/// The uncompressed (65-byte) public key of a secret key.
pub uninterp spec fn public_key_of(key: Seq<u8>) -> Seq<u8>;

/// Relies on `secp256k1::PublicKey::from_secret_key` and
/// `serialize_uncompressed`: a function of the secret key alone.
#[verifier::external_body]
pub fn public_key_to_vec(secret_key: &[u8]) -> (r: Vec<u8>)
    requires
        secret_key_ok(secret_key@),
    ensures
        r@ == public_key_of(secret_key@),
        r@.len() == 65,
{
    let sk = secp256k1::SecretKey::from_slice(secret_key).unwrap();
    secp256k1::PublicKey::from_secret_key(&secp256k1::Secp256k1::new(), &sk).serialize_uncompressed().to_vec()
}

/// Relies on `secp256k1::Secp256k1::generate_keypair` over `rand::thread_rng`:
/// `SecretKey::new` draws until the bytes are a valid key, and the public key
/// is `PublicKey::from_secret_key`, serialized uncompressed.
#[verifier::external_body]
pub fn new_key_pair() -> (r: (Vec<u8>, Vec<u8>))
    ensures
        secret_key_ok(r.0@),
        r.0@.len() == 32,
        r.1@ == public_key_of(r.0@),
{
    let (sk, pk) = secp256k1::Secp256k1::new().generate_keypair(&mut rand::thread_rng());
    (sk.secret_bytes().to_vec(), pk.serialize_uncompressed().to_vec())
}

/// The DER-encoded ECDSA signature of a 32-byte digest.
pub uninterp spec fn ecdsa_signature_of(key: Seq<u8>, digest: Seq<u8>) -> Seq<u8>;

/// Relies on `secp256k1::Secp256k1::sign_ecdsa` and `serialize_der`: the
/// nonce is derived by RFC 6979, so the signature depends on the key and the
/// digest alone; the signature is always in the lower-S form that
/// `verify_ecdsa` accepts under the key's public key.
#[verifier::external_body]
pub fn sign(msg: &[u8], secret_key: &[u8]) -> (r: Vec<u8>)
    requires
        msg@.len() == 32,
        secret_key_ok(secret_key@),
    ensures
        r@ == ecdsa_signature_of(secret_key@, msg@),
        ecdsa_accepts(public_key_of(secret_key@), r@, msg@),
{
    let sk = secp256k1::SecretKey::from_slice(secret_key).unwrap();
    let m = secp256k1::Message::from_digest_slice(msg).unwrap();
    secp256k1::Secp256k1::new().sign_ecdsa(&m, &sk).serialize_der().to_vec()
}

/// Whether a DER signature over a digest checks against a serialized public key.
pub uninterp spec fn ecdsa_accepts(pub_key: Seq<u8>, sig: Seq<u8>, digest: Seq<u8>) -> bool;

/// Relies on `secp256k1::PublicKey::from_slice`, `ecdsa::Signature::from_der`,
/// `Message::from_digest_slice` and `Secp256k1::verify_ecdsa`: true exactly
/// when all three parse and the signature checks, a function of the bytes alone.
#[verifier::external_body]
pub fn verify(pub_key: &[u8], sig: &[u8], digest: &[u8]) -> (r: bool)
    ensures
        r == ecdsa_accepts(pub_key@, sig@, digest@),
{
    match (
        secp256k1::PublicKey::from_slice(pub_key),
        secp256k1::ecdsa::Signature::from_der(sig),
        secp256k1::Message::from_digest_slice(digest),
    ) {
        (Ok(pk), Ok(s), Ok(m)) => secp256k1::Secp256k1::new().verify_ecdsa(&m, &s, &pk).is_ok(),
        _ => false,
    }
}

} // verus!
