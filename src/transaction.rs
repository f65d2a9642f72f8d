//! Transactions: inputs, outputs, their byte encoding, content hash,
//! coinbase construction and per-input ECDSA signing and verification.

use vstd::prelude::*;
use crate::util::{
    be_u64_bytes, copy_bytes, double_sha256, double_sha256_of, ecdsa_accepts,
    ecdsa_signature_of, hex_ascii, hex_ascii_of, public_key_of, random_bytes32, secret_key_ok, sha256,
    sha256_of, write_i64, write_u64, decimal_ascii, decimal_ascii_of,
};

verus! {

/// The amount a coinbase transaction mints.
pub const SUBSIDY: i64 = 10;

/// Why signing a transaction failed.
#[derive(Debug, PartialEq, Eq, Structural)]
pub enum TxError {
    /// Fewer previous transactions than inputs were given.
    PrevTxNotFound,
    /// An input refers to an output index its previous transaction lacks.
    BadOutputRef,
    /// The secret key bytes are not a valid secp256k1 key.
    InvalidSecretKey,
}

/// An input: a reference to an earlier output, with the material that unlocks it.
pub struct TXInput {
    pub txid: Vec<u8>,
    pub vout: i64,
    pub signature: Vec<u8>,
    pub pub_key: Vec<u8>,
}

/// An output: an amount locked to a public-key hash.
pub struct TXOutput {
    pub value: i64,
    pub pub_key_hash: Vec<u8>,
}

/// A transaction: its content hash, its inputs and its outputs.
pub struct Transaction {
    pub id: Vec<u8>,
    pub vin: Vec<TXInput>,
    pub vout: Vec<TXOutput>,
}

/// Mathematical value of an input.
pub struct InputV {
    pub txid: Seq<u8>,
    pub vout: i64,
    pub signature: Seq<u8>,
    pub pub_key: Seq<u8>,
}

/// Mathematical value of an output.
pub struct OutputV {
    pub value: i64,
    pub pub_key_hash: Seq<u8>,
}

/// Mathematical value of a transaction.
pub struct TxV {
    pub id: Seq<u8>,
    pub vin: Seq<InputV>,
    pub vout: Seq<OutputV>,
}

impl View for TXInput {
    type V = InputV;

    open spec fn view(&self) -> InputV {
        InputV {
            txid: self.txid@,
            vout: self.vout,
            signature: self.signature@,
            pub_key: self.pub_key@,
        }
    }
}

impl View for TXOutput {
    type V = OutputV;

    open spec fn view(&self) -> OutputV {
        OutputV { value: self.value, pub_key_hash: self.pub_key_hash@ }
    }
}

impl View for Transaction {
    type V = TxV;

    open spec fn view(&self) -> TxV {
        TxV {
            id: self.id@,
            vin: self.vin@.map_values(|i: TXInput| i@),
            vout: self.vout@.map_values(|o: TXOutput| o@),
        }
    }
}

/// A byte string preceded by its length as eight big-endian bytes.
pub open spec fn field_bytes(b: Seq<u8>) -> Seq<u8> {
    be_u64_bytes(b.len() as u64) + b
}

pub open spec fn input_bytes(i: InputV) -> Seq<u8> {
    field_bytes(i.txid) + be_u64_bytes(i.vout as u64) + field_bytes(i.signature) + field_bytes(
        i.pub_key,
    )
}

pub open spec fn output_bytes(o: OutputV) -> Seq<u8> {
    be_u64_bytes(o.value as u64) + field_bytes(o.pub_key_hash)
}

pub open spec fn inputs_bytes(s: Seq<InputV>) -> Seq<u8>
    decreases s.len(),
{
    if s.len() == 0 {
        Seq::empty()
    } else {
        inputs_bytes(s.drop_last()) + input_bytes(s.last())
    }
}

pub open spec fn outputs_bytes(s: Seq<OutputV>) -> Seq<u8>
    decreases s.len(),
{
    if s.len() == 0 {
        Seq::empty()
    } else {
        outputs_bytes(s.drop_last()) + output_bytes(s.last())
    }
}

/// The byte encoding of a transaction: id, inputs and outputs, each list
/// preceded by its count.
pub open spec fn tx_bytes(t: TxV) -> Seq<u8> {
    field_bytes(t.id) + be_u64_bytes(t.vin.len() as u64) + inputs_bytes(t.vin) + be_u64_bytes(
        t.vout.len() as u64,
    ) + outputs_bytes(t.vout)
}

/// The transaction with its id replaced.
pub open spec fn with_id(t: TxV, id: Seq<u8>) -> TxV {
    TxV { id: id, ..t }
}

/// The content hash of a transaction: SHA-256 of its encoding with the id cleared.
pub open spec fn tx_hash(t: TxV) -> Seq<u8> {
    sha256_of(tx_bytes(with_id(t, Seq::empty())))
}

pub open spec fn is_coinbase_spec(t: TxV) -> bool {
    t.vin.len() == 1 && t.vin[0].txid.len() == 0 && t.vin[0].vout == -1
}

/// An input with its signature and public key cleared.
pub open spec fn trimmed_input(i: InputV) -> InputV {
    InputV { txid: i.txid, vout: i.vout, signature: Seq::empty(), pub_key: Seq::empty() }
}

/// The transaction with every input's signature and public key cleared.
pub open spec fn trimmed(t: TxV) -> TxV {
    TxV { id: t.id, vin: t.vin.map_values(|i: InputV| trimmed_input(i)), vout: t.vout }
}

/// Every input has a previous transaction and refers to one of its outputs.
pub open spec fn refs_resolve(t: TxV, prevs: Seq<TxV>) -> bool {
    &&& prevs.len() >= t.vin.len()
    &&& forall|i: int|
        0 <= i < t.vin.len() ==> 0 <= #[trigger] t.vin[i].vout < prevs[i].vout.len()
}

/// The public-key hash of the output that input `i` refers to.
pub open spec fn ref_pub_key_hash(t: TxV, prevs: Seq<TxV>, i: int) -> Seq<u8> {
    prevs[i].vout[t.vin[i].vout as int].pub_key_hash
}

/// The ASCII bytes of "Transaction { id: ".
pub open spec fn lit_tx() -> Seq<u8> {
    seq![84u8, 114u8, 97u8, 110u8, 115u8, 97u8, 99u8, 116u8, 105u8, 111u8, 110u8, 32u8, 123u8, 32u8, 105u8, 100u8, 58u8, 32u8]
}

/// The ASCII bytes of ", vin: [".
pub open spec fn lit_vin() -> Seq<u8> {
    seq![44u8, 32u8, 118u8, 105u8, 110u8, 58u8, 32u8, 91u8]
}

/// The ASCII bytes of "], vout: [".
pub open spec fn lit_vout() -> Seq<u8> {
    seq![93u8, 44u8, 32u8, 118u8, 111u8, 117u8, 116u8, 58u8, 32u8, 91u8]
}

/// The ASCII bytes of "] }".
pub open spec fn lit_end_tx() -> Seq<u8> {
    seq![93u8, 32u8, 125u8]
}

/// The ASCII bytes of "TXInput { txid: ".
pub open spec fn lit_in() -> Seq<u8> {
    seq![84u8, 88u8, 73u8, 110u8, 112u8, 117u8, 116u8, 32u8, 123u8, 32u8, 116u8, 120u8, 105u8, 100u8, 58u8, 32u8]
}

/// The ASCII bytes of ", vout: ".
pub open spec fn lit_in_vout() -> Seq<u8> {
    seq![44u8, 32u8, 118u8, 111u8, 117u8, 116u8, 58u8, 32u8]
}

/// The ASCII bytes of ", signature: ".
pub open spec fn lit_sig() -> Seq<u8> {
    seq![44u8, 32u8, 115u8, 105u8, 103u8, 110u8, 97u8, 116u8, 117u8, 114u8, 101u8, 58u8, 32u8]
}

/// The ASCII bytes of ", pub_key: ".
pub open spec fn lit_pk() -> Seq<u8> {
    seq![44u8, 32u8, 112u8, 117u8, 98u8, 95u8, 107u8, 101u8, 121u8, 58u8, 32u8]
}

/// The ASCII bytes of " }".
pub open spec fn lit_close() -> Seq<u8> {
    seq![32u8, 125u8]
}

/// The ASCII bytes of "TXOutput { value: ".
pub open spec fn lit_out() -> Seq<u8> {
    seq![84u8, 88u8, 79u8, 117u8, 116u8, 112u8, 117u8, 116u8, 32u8, 123u8, 32u8, 118u8, 97u8, 108u8, 117u8, 101u8, 58u8, 32u8]
}

/// The ASCII bytes of ", pub_key_hash: ".
pub open spec fn lit_pkh() -> Seq<u8> {
    seq![44u8, 32u8, 112u8, 117u8, 98u8, 95u8, 107u8, 101u8, 121u8, 95u8, 104u8, 97u8, 115u8, 104u8, 58u8, 32u8]
}

/// The ASCII bytes of ", ".
pub open spec fn lit_sep() -> Seq<u8> {
    seq![44u8, 32u8]
}

/// The ASCII bytes of "[".
pub open spec fn lit_open() -> Seq<u8> {
    seq![91u8]
}

/// The ASCII bytes of "]".
pub open spec fn lit_shut() -> Seq<u8> {
    seq![93u8]
}

/// The decimal numbers of a byte string, separated by ", ".
pub open spec fn byte_items(b: Seq<u8>) -> Seq<u8>
    decreases b.len(),
{
    if b.len() == 0 {
        Seq::empty()
    } else if b.len() == 1 {
        decimal_ascii_of(b[0] as i64)
    } else {
        byte_items(b.drop_last()) + lit_sep() + decimal_ascii_of(b.last() as i64)
    }
}

/// A byte string as a bracketed list of decimal numbers: `[1, 2, 3]`.
pub open spec fn bytes_text(b: Seq<u8>) -> Seq<u8> {
    lit_open() + byte_items(b) + lit_shut()
}

/// The text of an input: `TXInput { txid: [..], vout: n, signature: [..], pub_key: [..] }`.
pub open spec fn input_text(i: InputV) -> Seq<u8> {
    lit_in() + bytes_text(i.txid) + lit_in_vout() + decimal_ascii_of(i.vout) + lit_sig() + bytes_text(
        i.signature,
    ) + lit_pk() + bytes_text(i.pub_key) + lit_close()
}

/// The text of an output: `TXOutput { value: n, pub_key_hash: [..] }`.
pub open spec fn output_text(o: OutputV) -> Seq<u8> {
    lit_out() + decimal_ascii_of(o.value) + lit_pkh() + bytes_text(o.pub_key_hash) + lit_close()
}

pub open spec fn inputs_text(s: Seq<InputV>) -> Seq<u8>
    decreases s.len(),
{
    if s.len() == 0 {
        Seq::empty()
    } else if s.len() == 1 {
        input_text(s[0])
    } else {
        inputs_text(s.drop_last()) + lit_sep() + input_text(s.last())
    }
}

pub open spec fn outputs_text(s: Seq<OutputV>) -> Seq<u8>
    decreases s.len(),
{
    if s.len() == 0 {
        Seq::empty()
    } else if s.len() == 1 {
        output_text(s[0])
    } else {
        outputs_text(s.drop_last()) + lit_sep() + output_text(s.last())
    }
}

/// The text representation of a transaction, field by field in the debug
/// layout: `Transaction { id: [..], vin: [TXInput { .. }, ..], vout: [TXOutput { .. }, ..] }`.
pub open spec fn tx_text(t: TxV) -> Seq<u8> {
    lit_tx() + bytes_text(t.id) + lit_vin() + inputs_text(t.vin) + lit_vout() + outputs_text(t.vout) + lit_end_tx()
}

/// What input `i` signs: the text representation (`tx_text`) of the trimmed
/// transaction whose input `i` carries the public-key hash of the output it
/// spends.
pub open spec fn sign_preimage(t: TxV, i: int, pkh: Seq<u8>) -> Seq<u8> {
    let tc = trimmed(t);
    tx_text(
        TxV {
            vin: tc.vin.update(i, InputV { pub_key: pkh, ..tc.vin[i] }),
            ..tc
        },
    )
}

/// The digest that input `i` signs.
pub open spec fn sign_digest(t: TxV, prevs: Seq<TxV>, i: int) -> Seq<u8> {
    double_sha256_of(sign_preimage(t, i, ref_pub_key_hash(t, prevs, i)))
}

/// A coinbase transaction is valid as it stands; any other needs every input
/// resolved and its signature accepted under the input's public key.
pub open spec fn tx_verifies(t: TxV, prevs: Seq<TxV>) -> bool {
    is_coinbase_spec(t) || (refs_resolve(t, prevs) && forall|i: int|
        0 <= i < t.vin.len() ==> ecdsa_accepts(
            #[trigger] t.vin[i].pub_key,
            t.vin[i].signature,
            sign_digest(t, prevs, i),
        ))
}

/// The views of a list of transactions.
pub open spec fn txs_view(v: Seq<Transaction>) -> Seq<TxV> {
    v.map_values(|t: Transaction| t@)
}

/// A coinbase before its id is set: one input carrying `payload`, one output
/// of the subsidy locked to `to`.
pub open spec fn coinbase_body(to: Seq<u8>, payload: Seq<u8>) -> TxV {
    TxV {
        id: Seq::empty(),
        vin: seq![InputV { txid: Seq::empty(), vout: -1i64, signature: Seq::empty(), pub_key: payload }],
        vout: seq![OutputV { value: SUBSIDY, pub_key_hash: to }],
    }
}

/// The coinbase paying `to` with `payload`, its id set to its content hash.
pub open spec fn coinbase_spec(to: Seq<u8>, payload: Seq<u8>) -> TxV {
    with_id(coinbase_body(to, payload), tx_hash(coinbase_body(to, payload)))
}

/// The transaction with every input's signature set to the ECDSA signature,
/// under `key`, of the digest that input signs.
pub open spec fn signed_spec(t: TxV, key: Seq<u8>, prevs: Seq<TxV>) -> TxV {
    TxV {
        vin: Seq::new(
            t.vin.len(),
            |i: int| InputV { signature: ecdsa_signature_of(key, sign_digest(t, prevs, i)), ..t.vin[i] },
        ),
        ..t
    }
}

/// What signing answers, in the order the conditions are checked.
pub open spec fn sign_outcome(t: TxV, key: Seq<u8>, prevs: Seq<TxV>) -> Result<(), TxError> {
    if is_coinbase_spec(t) {
        Ok(())
    } else if prevs.len() < t.vin.len() {
        Err(TxError::PrevTxNotFound)
    } else if !refs_resolve(t, prevs) {
        Err(TxError::BadOutputRef)
    } else if !secret_key_ok(key) {
        Err(TxError::InvalidSecretKey)
    } else {
        Ok(())
    }
}

/// The transaction after signing: signed where signing succeeds on a
/// transaction that is not a coinbase, unchanged otherwise.
pub open spec fn sign_result(t: TxV, key: Seq<u8>, prevs: Seq<TxV>) -> TxV {
    if !is_coinbase_spec(t) && sign_outcome(t, key, prevs) is Ok {
        signed_spec(t, key, prevs)
    } else {
        t
    }
}

/// The content hash does not depend on the id: setting the id to anything
/// leaves the hash unchanged, so an id set to the hash stays equal to it.
pub proof fn lemma_id_is_stable(t: TxV, id: Seq<u8>)
    ensures
        tx_hash(with_id(t, id)) == tx_hash(t),
        tx_hash(with_id(t, tx_hash(t))) == with_id(t, tx_hash(t)).id,
{
    assert(with_id(with_id(t, id), Seq::empty()) == with_id(t, Seq::empty()));
    assert(with_id(with_id(t, tx_hash(t)), Seq::empty()) == with_id(t, Seq::empty()));
}

/// A transaction signed with a key verifies when each of its inputs carries
/// that key's public key and the key's signatures check under it.
proof fn lemma_sign_then_verify(t: TxV, key: Seq<u8>, prevs: Seq<TxV>)
    requires
        !is_coinbase_spec(t),
        refs_resolve(t, prevs),
        secret_key_ok(key),
        forall|i: int| 0 <= i < t.vin.len() ==> #[trigger] t.vin[i].pub_key == public_key_of(key),
        forall|i: int|
            0 <= i < t.vin.len() ==> ecdsa_accepts(
                public_key_of(key),
                ecdsa_signature_of(key, #[trigger] sign_digest(t, prevs, i)),
                sign_digest(t, prevs, i),
            ),
    ensures
        tx_verifies(signed_spec(t, key, prevs), prevs),
{
    lemma_signed_verifies(t, key, prevs);
    assert forall|i: int| 0 <= i < t.vin.len() implies ecdsa_accepts(
        #[trigger] t.vin[i].pub_key,
        ecdsa_signature_of(key, sign_digest(t, prevs, i)),
        sign_digest(t, prevs, i),
    ) by {
        assert(t.vin[i].pub_key == public_key_of(key));
        assert(ecdsa_accepts(
            public_key_of(key),
            ecdsa_signature_of(key, sign_digest(t, prevs, i)),
            sign_digest(t, prevs, i),
        ));
    }
}

/// Signing changes only signatures, and the trimmed copy clears them, so the
/// digests a verifier recomputes are those that were signed: the signed
/// transaction verifies exactly when each input's public key accepts the
/// signature made with `key` over its digest.
pub proof fn lemma_signed_verifies(t: TxV, key: Seq<u8>, prevs: Seq<TxV>)
    requires
        !is_coinbase_spec(t),
        refs_resolve(t, prevs),
    ensures
        tx_verifies(signed_spec(t, key, prevs), prevs) == forall|i: int|
            0 <= i < t.vin.len() ==> ecdsa_accepts(
                #[trigger] t.vin[i].pub_key,
                ecdsa_signature_of(key, sign_digest(t, prevs, i)),
                sign_digest(t, prevs, i),
            ),
{
    let s = signed_spec(t, key, prevs);
    assert(trimmed(s).vin =~= trimmed(t).vin);
    assert(trimmed(s) == trimmed(t));
    assert forall|i: int| 0 <= i < t.vin.len() implies #[trigger] sign_digest(s, prevs, i)
        == sign_digest(t, prevs, i) by {
        assert(s.vin[i].vout == t.vin[i].vout);
        assert(ref_pub_key_hash(s, prevs, i) == ref_pub_key_hash(t, prevs, i));
    }
    assert(!is_coinbase_spec(s)) by {
        if s.vin.len() == 1 {
            assert(s.vin[0].txid == t.vin[0].txid);
        }
    }
    assert(refs_resolve(s, prevs)) by {
        assert forall|i: int| 0 <= i < s.vin.len() implies 0 <= #[trigger] s.vin[i].vout
            < prevs[i].vout.len() by {
            assert(s.vin[i].vout == t.vin[i].vout);
            assert(0 <= t.vin[i].vout < prevs[i].vout.len());
        }
    }
    if tx_verifies(s, prevs) {
        assert forall|i: int| 0 <= i < t.vin.len() implies ecdsa_accepts(
            #[trigger] t.vin[i].pub_key,
            ecdsa_signature_of(key, sign_digest(t, prevs, i)),
            sign_digest(t, prevs, i),
        ) by {
            assert(s.vin[i].pub_key == t.vin[i].pub_key);
            assert(ecdsa_accepts(s.vin[i].pub_key, s.vin[i].signature, sign_digest(s, prevs, i)));
        }
    }
    if forall|i: int|
        0 <= i < t.vin.len() ==> ecdsa_accepts(
            #[trigger] t.vin[i].pub_key,
            ecdsa_signature_of(key, sign_digest(t, prevs, i)),
            sign_digest(t, prevs, i),
        ) {
        assert forall|i: int| 0 <= i < s.vin.len() implies ecdsa_accepts(
            #[trigger] s.vin[i].pub_key,
            s.vin[i].signature,
            sign_digest(s, prevs, i),
        ) by {
            assert(s.vin[i].pub_key == t.vin[i].pub_key);
            assert(ecdsa_accepts(
                t.vin[i].pub_key,
                ecdsa_signature_of(key, sign_digest(t, prevs, i)),
                sign_digest(t, prevs, i),
            ));
        }
    }
}

/// A display cell: the hexadecimal text, cut to its first 32 characters
/// followed by "..." when `cut` holds.
pub open spec fn hex_cell(b: Seq<u8>, cut: bool) -> Seq<u8> {
    let h = hex_ascii_of(b);
    if cut {
        h.take(if h.len() < 32 { h.len() as int } else { 32 }) + seq![46u8, 46u8, 46u8]
    } else {
        h
    }
}

/// The display row of input `i`: position, referenced id, referenced
/// position, signature and public key; the last two cut when compressing
/// (the signature only when it is not empty).
pub open spec fn input_row(i: int, x: InputV, compress: bool) -> Seq<Seq<u8>> {
    seq![
        decimal_ascii_of(i as i64),
        hex_ascii_of(x.txid),
        decimal_ascii_of(x.vout),
        hex_cell(x.signature, compress && x.signature.len() > 0),
        hex_cell(x.pub_key, compress),
    ]
}

/// The display row of output `k`: position, value and public-key hash.
pub open spec fn output_row(k: int, o: OutputV) -> Seq<Seq<u8>> {
    seq![decimal_ascii_of(k as i64), decimal_ascii_of(o.value), hex_ascii_of(o.pub_key_hash)]
}

/// The header row of the input table: "in's idx", "in's txid", "in's ref out's idx",
/// "signature", "PubKey".
pub open spec fn input_header() -> Seq<Seq<u8>> {
    seq![
        seq![105u8, 110u8, 39u8, 115u8, 32u8, 105u8, 100u8, 120u8],
        seq![105u8, 110u8, 39u8, 115u8, 32u8, 116u8, 120u8, 105u8, 100u8],
        seq![105u8, 110u8, 39u8, 115u8, 32u8, 114u8, 101u8, 102u8, 32u8, 111u8, 117u8, 116u8, 39u8, 115u8, 32u8, 105u8, 100u8, 120u8],
        seq![115u8, 105u8, 103u8, 110u8, 97u8, 116u8, 117u8, 114u8, 101u8],
        seq![80u8, 117u8, 98u8, 75u8, 101u8, 121u8],
    ]
}

/// The header row of the output table: "out's idx", "out's value", "out's script".
pub open spec fn output_header() -> Seq<Seq<u8>> {
    seq![
        seq![111u8, 117u8, 116u8, 39u8, 115u8, 32u8, 105u8, 100u8, 120u8],
        seq![111u8, 117u8, 116u8, 39u8, 115u8, 32u8, 118u8, 97u8, 108u8, 117u8, 101u8],
        seq![111u8, 117u8, 116u8, 39u8, 115u8, 32u8, 115u8, 99u8, 114u8, 105u8, 112u8, 116u8],
    ]
}

/// The views of a table of cells.
pub open spec fn table_view(t: Seq<Vec<Vec<u8>>>) -> Seq<Seq<Seq<u8>>> {
    t.map_values(|row: Vec<Vec<u8>>| row@.map_values(|c: Vec<u8>| c@))
}

/// Appends the eight big-endian bytes of `n`.
pub(crate) fn put_u64(out: &mut Vec<u8>, n: u64)
    ensures
        final(out)@ == old(out)@ + be_u64_bytes(n),
{
    let mut w = write_u64(n);
    out.append(&mut w);
}

/// Appends a length-prefixed byte string.
pub(crate) fn put_field(out: &mut Vec<u8>, b: &[u8])
    ensures
        final(out)@ == old(out)@ + field_bytes(b@),
{
    let ghost start = out@;
    put_u64(out, b.len() as u64);
    let mut c = copy_bytes(b);
    out.append(&mut c);
    proof {
        assert(out@ =~= start + field_bytes(b@));
    }
}

/// The cells of `input_header`.
fn make_input_header() -> (r: Vec<Vec<u8>>)
    ensures
        r@.map_values(|c: Vec<u8>| c@) == input_header(),
{
    let r = vec![
        vec![105u8, 110u8, 39u8, 115u8, 32u8, 105u8, 100u8, 120u8],
        vec![105u8, 110u8, 39u8, 115u8, 32u8, 116u8, 120u8, 105u8, 100u8],
        vec![105u8, 110u8, 39u8, 115u8, 32u8, 114u8, 101u8, 102u8, 32u8, 111u8, 117u8, 116u8, 39u8, 115u8, 32u8, 105u8, 100u8, 120u8],
        vec![115u8, 105u8, 103u8, 110u8, 97u8, 116u8, 117u8, 114u8, 101u8],
        vec![80u8, 117u8, 98u8, 75u8, 101u8, 121u8],
    ];
    proof {
        assert(r@.map_values(|c: Vec<u8>| c@) =~= input_header());
    }
    r
}

/// The cells of `output_header`.
fn make_output_header() -> (r: Vec<Vec<u8>>)
    ensures
        r@.map_values(|c: Vec<u8>| c@) == output_header(),
{
    let r = vec![
        vec![111u8, 117u8, 116u8, 39u8, 115u8, 32u8, 105u8, 100u8, 120u8],
        vec![111u8, 117u8, 116u8, 39u8, 115u8, 32u8, 118u8, 97u8, 108u8, 117u8, 101u8],
        vec![111u8, 117u8, 116u8, 39u8, 115u8, 32u8, 115u8, 99u8, 114u8, 105u8, 112u8, 116u8],
    ];
    proof {
        assert(r@.map_values(|c: Vec<u8>| c@) =~= output_header());
    }
    r
}

fn make_lit_tx() -> (r: Vec<u8>)
    ensures
        r@ == lit_tx(),
{
    let r = vec![84u8, 114u8, 97u8, 110u8, 115u8, 97u8, 99u8, 116u8, 105u8, 111u8, 110u8, 32u8, 123u8, 32u8, 105u8, 100u8, 58u8, 32u8];
    proof {
        assert(r@ =~= lit_tx());
    }
    r
}

fn make_lit_vin() -> (r: Vec<u8>)
    ensures
        r@ == lit_vin(),
{
    let r = vec![44u8, 32u8, 118u8, 105u8, 110u8, 58u8, 32u8, 91u8];
    proof {
        assert(r@ =~= lit_vin());
    }
    r
}

fn make_lit_vout() -> (r: Vec<u8>)
    ensures
        r@ == lit_vout(),
{
    let r = vec![93u8, 44u8, 32u8, 118u8, 111u8, 117u8, 116u8, 58u8, 32u8, 91u8];
    proof {
        assert(r@ =~= lit_vout());
    }
    r
}

fn make_lit_end_tx() -> (r: Vec<u8>)
    ensures
        r@ == lit_end_tx(),
{
    let r = vec![93u8, 32u8, 125u8];
    proof {
        assert(r@ =~= lit_end_tx());
    }
    r
}

fn make_lit_in() -> (r: Vec<u8>)
    ensures
        r@ == lit_in(),
{
    let r = vec![84u8, 88u8, 73u8, 110u8, 112u8, 117u8, 116u8, 32u8, 123u8, 32u8, 116u8, 120u8, 105u8, 100u8, 58u8, 32u8];
    proof {
        assert(r@ =~= lit_in());
    }
    r
}

fn make_lit_in_vout() -> (r: Vec<u8>)
    ensures
        r@ == lit_in_vout(),
{
    let r = vec![44u8, 32u8, 118u8, 111u8, 117u8, 116u8, 58u8, 32u8];
    proof {
        assert(r@ =~= lit_in_vout());
    }
    r
}

fn make_lit_sig() -> (r: Vec<u8>)
    ensures
        r@ == lit_sig(),
{
    let r = vec![44u8, 32u8, 115u8, 105u8, 103u8, 110u8, 97u8, 116u8, 117u8, 114u8, 101u8, 58u8, 32u8];
    proof {
        assert(r@ =~= lit_sig());
    }
    r
}

fn make_lit_pk() -> (r: Vec<u8>)
    ensures
        r@ == lit_pk(),
{
    let r = vec![44u8, 32u8, 112u8, 117u8, 98u8, 95u8, 107u8, 101u8, 121u8, 58u8, 32u8];
    proof {
        assert(r@ =~= lit_pk());
    }
    r
}

fn make_lit_close() -> (r: Vec<u8>)
    ensures
        r@ == lit_close(),
{
    let r = vec![32u8, 125u8];
    proof {
        assert(r@ =~= lit_close());
    }
    r
}

fn make_lit_out() -> (r: Vec<u8>)
    ensures
        r@ == lit_out(),
{
    let r = vec![84u8, 88u8, 79u8, 117u8, 116u8, 112u8, 117u8, 116u8, 32u8, 123u8, 32u8, 118u8, 97u8, 108u8, 117u8, 101u8, 58u8, 32u8];
    proof {
        assert(r@ =~= lit_out());
    }
    r
}

fn make_lit_pkh() -> (r: Vec<u8>)
    ensures
        r@ == lit_pkh(),
{
    let r = vec![44u8, 32u8, 112u8, 117u8, 98u8, 95u8, 107u8, 101u8, 121u8, 95u8, 104u8, 97u8, 115u8, 104u8, 58u8, 32u8];
    proof {
        assert(r@ =~= lit_pkh());
    }
    r
}

fn make_lit_sep() -> (r: Vec<u8>)
    ensures
        r@ == lit_sep(),
{
    let r = vec![44u8, 32u8];
    proof {
        assert(r@ =~= lit_sep());
    }
    r
}

fn make_lit_open() -> (r: Vec<u8>)
    ensures
        r@ == lit_open(),
{
    let r = vec![91u8];
    proof {
        assert(r@ =~= lit_open());
    }
    r
}

fn make_lit_shut() -> (r: Vec<u8>)
    ensures
        r@ == lit_shut(),
{
    let r = vec![93u8];
    proof {
        assert(r@ =~= lit_shut());
    }
    r
}

/// Appends the bytes of `v`.
fn put_vec(out: &mut Vec<u8>, v: Vec<u8>)
    ensures
        final(out)@ == old(out)@ + v@,
{
    let mut v = v;
    out.append(&mut v);
}

/// Appends `bytes_text(b)`.
fn put_bytes_text(out: &mut Vec<u8>, b: &[u8])
    ensures
        final(out)@ == old(out)@ + bytes_text(b@),
{
    let ghost start = out@;
    put_vec(out, make_lit_open());
    let mut i: usize = 0;
    while i < b.len()
        invariant
            0 <= i <= b@.len(),
            out@ == start + lit_open() + byte_items(b@.take(i as int)),
        decreases b@.len() - i,
    {
        let ghost before = out@;
        if i > 0 {
            put_vec(out, make_lit_sep());
        }
        put_vec(out, decimal_ascii(b[i] as i64));
        proof {
            let s = b@.take(i as int + 1);
            assert(s.drop_last() =~= b@.take(i as int));
            assert(s.last() == b@[i as int]);
            if i == 0 {
                assert(s[0] == b@[0]);
                assert(b@.take(0) =~= Seq::<u8>::empty());
                assert(out@ =~= start + lit_open() + byte_items(s));
            } else {
                assert(out@ =~= start + lit_open() + byte_items(s));
            }
        }
        i = i + 1;
    }
    proof {
        assert(b@.take(b@.len() as int) =~= b@);
    }
    put_vec(out, make_lit_shut());
    proof {
        assert(out@ =~= start + bytes_text(b@));
    }
}

/// Appends `input_text(x@)`.
fn put_input_text(out: &mut Vec<u8>, x: &TXInput)
    ensures
        final(out)@ == old(out)@ + input_text(x@),
{
    let ghost start = out@;
    put_vec(out, make_lit_in());
    put_bytes_text(out, x.txid.as_slice());
    put_vec(out, make_lit_in_vout());
    put_vec(out, decimal_ascii(x.vout));
    put_vec(out, make_lit_sig());
    put_bytes_text(out, x.signature.as_slice());
    put_vec(out, make_lit_pk());
    put_bytes_text(out, x.pub_key.as_slice());
    put_vec(out, make_lit_close());
    proof {
        assert(out@ =~= start + input_text(x@));
    }
}

/// Appends `output_text(o@)`.
fn put_output_text(out: &mut Vec<u8>, o: &TXOutput)
    ensures
        final(out)@ == old(out)@ + output_text(o@),
{
    let ghost start = out@;
    put_vec(out, make_lit_out());
    put_vec(out, decimal_ascii(o.value));
    put_vec(out, make_lit_pkh());
    put_bytes_text(out, o.pub_key_hash.as_slice());
    put_vec(out, make_lit_close());
    proof {
        assert(out@ =~= start + output_text(o@));
    }
}

/// The text representation of a transaction (see `tx_text`), as ASCII bytes.
pub fn packet_sign_content(tx: &Transaction) -> (r: Vec<u8>)
    ensures
        r@ == tx_text(tx@),
{
    let ghost t = tx@;
    let mut out = make_lit_tx();
    put_bytes_text(&mut out, tx.id.as_slice());
    put_vec(&mut out, make_lit_vin());
    let ghost head = out@;
    let mut k: usize = 0;
    while k < tx.vin.len()
        invariant
            t == tx@,
            0 <= k <= tx.vin@.len(),
            out@ == head + inputs_text(t.vin.take(k as int)),
        decreases tx.vin@.len() - k,
    {
        if k > 0 {
            put_vec(&mut out, make_lit_sep());
        }
        put_input_text(&mut out, &tx.vin[k]);
        proof {
            let s = t.vin.take(k as int + 1);
            assert(s.drop_last() =~= t.vin.take(k as int));
            assert(s.last() == t.vin[k as int]);
            if k == 0 {
                assert(s[0] == t.vin[0]);
                assert(t.vin.take(0) =~= Seq::<InputV>::empty());
            }
            assert(out@ =~= head + inputs_text(s));
        }
        k = k + 1;
    }
    proof {
        assert(t.vin.take(t.vin.len() as int) =~= t.vin);
    }
    put_vec(&mut out, make_lit_vout());
    let ghost mid = out@;
    let mut k: usize = 0;
    while k < tx.vout.len()
        invariant
            t == tx@,
            0 <= k <= tx.vout@.len(),
            out@ == mid + outputs_text(t.vout.take(k as int)),
        decreases tx.vout@.len() - k,
    {
        if k > 0 {
            put_vec(&mut out, make_lit_sep());
        }
        put_output_text(&mut out, &tx.vout[k]);
        proof {
            let s = t.vout.take(k as int + 1);
            assert(s.drop_last() =~= t.vout.take(k as int));
            assert(s.last() == t.vout[k as int]);
            if k == 0 {
                assert(s[0] == t.vout[0]);
                assert(t.vout.take(0) =~= Seq::<OutputV>::empty());
            }
            assert(out@ =~= mid + outputs_text(s));
        }
        k = k + 1;
    }
    proof {
        assert(t.vout.take(t.vout.len() as int) =~= t.vout);
    }
    put_vec(&mut out, make_lit_end_tx());
    proof {
        assert(out@ =~= tx_text(t));
    }
    out
}

/// A display cell of `b` (see `hex_cell`).
fn make_hex_cell(b: &[u8], cut: bool) -> (r: Vec<u8>)
    ensures
        r@ == hex_cell(b@, cut),
{
    let h = hex_ascii(b);
    if !cut {
        return h;
    }
    let n: usize = if h.len() < 32 { h.len() } else { 32 };
    let mut out: Vec<u8> = Vec::new();
    let mut i: usize = 0;
    while i < n
        invariant
            0 <= i <= n <= h@.len(),
            out@ == h@.take(i as int),
        decreases n - i,
    {
        out.push(h[i]);
        i = i + 1;
        proof {
            assert(out@ =~= h@.take(i as int));
        }
    }
    out.push(46u8);
    out.push(46u8);
    out.push(46u8);
    proof {
        assert(out@ =~= h@.take(n as int) + seq![46u8, 46u8, 46u8]);
    }
    out
}

impl Clone for TXInput {
    fn clone(&self) -> (r: Self)
        ensures
            r@ == self@,
    {
        TXInput {
            txid: copy_bytes(self.txid.as_slice()),
            vout: self.vout,
            signature: copy_bytes(self.signature.as_slice()),
            pub_key: copy_bytes(self.pub_key.as_slice()),
        }
    }
}

impl Clone for TXOutput {
    fn clone(&self) -> (r: Self)
        ensures
            r@ == self@,
    {
        TXOutput { value: self.value, pub_key_hash: copy_bytes(self.pub_key_hash.as_slice()) }
    }
}

impl TXInput {
    pub fn new(txid: Vec<u8>, vout: i64, signature: Vec<u8>, pub_key: Vec<u8>) -> (r: TXInput)
        ensures
            r@ == (InputV { txid: txid@, vout, signature: signature@, pub_key: pub_key@ }),
    {
        TXInput { txid, vout, signature, pub_key }
    }

    /// Whether this input carries exactly the given public key.
    pub fn uses_key(&self, pub_key: &[u8]) -> (r: bool)
        ensures
            r == (self.pub_key@ == pub_key@),
    {
        crate::util::compare_slice_u8(self.pub_key.as_slice(), pub_key)
    }

    fn put(&self, out: &mut Vec<u8>)
        ensures
            final(out)@ == old(out)@ + input_bytes(self@),
    {
        let ghost start = out@;
        put_field(out, self.txid.as_slice());
        let mut w = write_i64(self.vout);
        out.append(&mut w);
        put_field(out, self.signature.as_slice());
        put_field(out, self.pub_key.as_slice());
        proof {
            assert(out@ =~= start + input_bytes(self@));
        }
    }
}

impl TXOutput {
    /// An output of `value` locked to `pub_key_hash`.
    pub fn new(value: i64, pub_key_hash: Vec<u8>) -> (r: TXOutput)
        ensures
            r@ == (OutputV { value, pub_key_hash: pub_key_hash@ }),
    {
        TXOutput { value, pub_key_hash }
    }

    /// Locks the output to an address: Base58 text of a version byte, the
    /// public-key hash and a four-byte checksum. Returns false, leaving the
    /// output unchanged, where the text does not decode to at least five bytes.
    pub fn lock(&mut self, address: &str) -> (r: bool)
        ensures
            r == (crate::util::base58_decoded(address@).is_some()
                && crate::util::base58_decoded(address@).unwrap().len() >= 5),
            r ==> final(self)@ == (OutputV {
                value: old(self).value,
                pub_key_hash: crate::util::base58_decoded(address@).unwrap().subrange(
                    1,
                    crate::util::base58_decoded(address@).unwrap().len() - 4,
                ),
            }),
            !r ==> final(self)@ == old(self)@,
    {
        match crate::util::decode_base58(address) {
            Some(raw) => {
                if raw.len() < 5 {
                    return false;
                }
                let mut pkh: Vec<u8> = Vec::new();
                let end = raw.len() - 4;
                let mut i: usize = 1;
                while i < end
                    invariant
                        1 <= i <= end,
                        end == raw@.len() - 4,
                        pkh@ == raw@.subrange(1, i as int),
                    decreases end - i,
                {
                    pkh.push(raw[i]);
                    i = i + 1;
                    proof {
                        assert(pkh@ =~= raw@.subrange(1, i as int));
                    }
                }
                self.pub_key_hash = pkh;
                true
            },
            None => false,
        }
    }

    /// Whether this output is locked to exactly the given public-key hash.
    pub fn is_locked_with_key(&self, pub_key_hash: &[u8]) -> (r: bool)
        ensures
            r == (self.pub_key_hash@ == pub_key_hash@),
    {
        crate::util::compare_slice_u8(self.pub_key_hash.as_slice(), pub_key_hash)
    }

    fn put(&self, out: &mut Vec<u8>)
        ensures
            final(out)@ == old(out)@ + output_bytes(self@),
    {
        let ghost start = out@;
        let mut w = write_i64(self.value);
        out.append(&mut w);
        put_field(out, self.pub_key_hash.as_slice());
        proof {
            assert(out@ =~= start + output_bytes(self@));
        }
    }
}

/// A fresh vector of clones of the inputs.
pub(crate) fn clone_inputs(v: &Vec<TXInput>) -> (r: Vec<TXInput>)
    ensures
        r@.map_values(|i: TXInput| i@) == v@.map_values(|i: TXInput| i@),
{
    let mut r: Vec<TXInput> = Vec::new();
    let mut k: usize = 0;
    while k < v.len()
        invariant
            0 <= k <= v@.len(),
            r@.len() == k,
            forall|j: int| 0 <= j < k ==> #[trigger] r@[j]@ == v@[j]@,
        decreases v@.len() - k,
    {
        r.push(v[k].clone());
        k = k + 1;
    }
    proof {
        assert(r@.map_values(|i: TXInput| i@) =~= v@.map_values(|i: TXInput| i@));
    }
    r
}

/// A fresh vector of clones of the outputs.
pub(crate) fn clone_outputs(v: &Vec<TXOutput>) -> (r: Vec<TXOutput>)
    ensures
        r@.map_values(|o: TXOutput| o@) == v@.map_values(|o: TXOutput| o@),
{
    let mut r: Vec<TXOutput> = Vec::new();
    let mut k: usize = 0;
    while k < v.len()
        invariant
            0 <= k <= v@.len(),
            r@.len() == k,
            forall|j: int| 0 <= j < k ==> #[trigger] r@[j]@ == v@[j]@,
        decreases v@.len() - k,
    {
        r.push(v[k].clone());
        k = k + 1;
    }
    proof {
        assert(r@.map_values(|o: TXOutput| o@) =~= v@.map_values(|o: TXOutput| o@));
    }
    r
}

impl Clone for Transaction {
    fn clone(&self) -> (r: Self)
        ensures
            r@ == self@,
    {
        let r = Transaction {
            id: copy_bytes(self.id.as_slice()),
            vin: clone_inputs(&self.vin),
            vout: clone_outputs(&self.vout),
        };
        r
    }
}

impl Transaction {
    /// The encoding of this transaction with `id` standing for its id.
    fn encode_with_id(&self, id: &[u8]) -> (r: Vec<u8>)
        ensures
            r@ == tx_bytes(with_id(self@, id@)),
    {
        let ghost t = self@;
        let mut out: Vec<u8> = Vec::new();
        put_field(&mut out, id);
        put_u64(&mut out, self.vin.len() as u64);
        let ghost head = out@;
        let mut k: usize = 0;
        while k < self.vin.len()
            invariant
                t == self@,
                0 <= k <= self.vin@.len(),
                out@ == head + inputs_bytes(t.vin.take(k as int)),
            decreases self.vin@.len() - k,
        {
            self.vin[k].put(&mut out);
            proof {
                let s = t.vin.take(k as int + 1);
                assert(s.drop_last() =~= t.vin.take(k as int));
                assert(s.last() == t.vin[k as int]);
            }
            k = k + 1;
        }
        proof {
            assert(t.vin.take(t.vin.len() as int) =~= t.vin);
        }
        put_u64(&mut out, self.vout.len() as u64);
        let ghost mid = out@;
        let mut k: usize = 0;
        while k < self.vout.len()
            invariant
                t == self@,
                0 <= k <= self.vout@.len(),
                out@ == mid + outputs_bytes(t.vout.take(k as int)),
            decreases self.vout@.len() - k,
        {
            self.vout[k].put(&mut out);
            proof {
                let s = t.vout.take(k as int + 1);
                assert(s.drop_last() =~= t.vout.take(k as int));
                assert(s.last() == t.vout[k as int]);
            }
            k = k + 1;
        }
        proof {
            assert(t.vout.take(t.vout.len() as int) =~= t.vout);
            assert(out@ =~= tx_bytes(with_id(self@, id@)));
        }
        out
    }

    /// The byte encoding of this transaction.
    pub fn serialize(&self) -> (r: Vec<u8>)
        ensures
            r@ == tx_bytes(self@),
    {
        let r = self.encode_with_id(self.id.as_slice());
        proof {
            assert(with_id(self@, self.id@) == self@);
        }
        r
    }

    /// Whether this is a coinbase: one input with an empty reference and index -1.
    pub fn is_coinbase(&self) -> (r: bool)
        ensures
            r == is_coinbase_spec(self@),
    {
        self.vin.len() == 1 && self.vin[0].txid.len() == 0 && self.vin[0].vout == -1
    }

    /// A coinbase paying the subsidy to `to`, carrying `data` in its input, or
    /// 32 random bytes in hexadecimal where `data` is empty.
    pub fn new_coinbase_tx(to: Vec<u8>, data: Vec<u8>) -> (r: Transaction)
        ensures
            r@ == coinbase_spec(to@, r@.vin[0].pub_key),
            data@.len() > 0 ==> r@.vin[0].pub_key == data@,
            data@.len() == 0 ==> r@.vin[0].pub_key.len() == 64,
    {
        let payload = if data.len() == 0 {
            let noise = random_bytes32();
            hex_ascii(noise.as_slice())
        } else {
            data
        };
        Self::coinbase_with_payload(to, payload)
    }

    /// The coinbase paying the subsidy to `to` with `payload` in its input.
    pub fn coinbase_with_payload(to: Vec<u8>, payload: Vec<u8>) -> (r: Transaction)
        ensures
            r@ == coinbase_spec(to@, payload@),
            r@.id == tx_hash(r@),
    {
        let txin = TXInput::new(Vec::new(), -1, Vec::new(), payload);
        let txout = TXOutput::new(SUBSIDY, to);
        let mut tx = Transaction { id: Vec::new(), vin: vec![txin], vout: vec![txout] };
        proof {
            assert(tx@.vin =~= coinbase_body(to@, payload@).vin);
            assert(tx@.vout =~= coinbase_body(to@, payload@).vout);
            assert(tx@ == coinbase_body(to@, payload@));
        }
        let h = tx.hash();
        tx.id = h;
        proof {
            assert(tx@.vin == coinbase_body(to@, payload@).vin);
            assert(tx@ == coinbase_spec(to@, payload@));
            lemma_id_is_stable(coinbase_body(to@, payload@), h@);
        }
        tx
    }

    /// A copy with every input's signature and public key cleared.
    pub fn trimmed_copy(&self) -> (r: Transaction)
        ensures
            r@ == trimmed(self@),
    {
        let empty: Vec<u8> = Vec::new();
        let r = self.trimmed_with_key(self.vin.len(), empty.as_slice());
        proof {
            assert(r@.vin =~= trimmed(self@).vin);
        }
        r
    }

    /// The trimmed copy whose input `at` (if any) carries `key` as public key.
    fn trimmed_with_key(&self, at: usize, key: &[u8]) -> (r: Transaction)
        ensures
            r@.id == self@.id,
            r@.vout == self@.vout,
            r@.vin.len() == self@.vin.len(),
            forall|k: int|
                0 <= k < self@.vin.len() ==> #[trigger] r@.vin[k] == (InputV {
                    pub_key: if k == at {
                        key@
                    } else {
                        Seq::empty()
                    },
                    ..trimmed_input(self@.vin[k])
                }),
    {
        let mut inputs: Vec<TXInput> = Vec::new();
        let mut k: usize = 0;
        while k < self.vin.len()
            invariant
                0 <= k <= self.vin@.len(),
                inputs@.len() == k,
                forall|j: int|
                    0 <= j < k ==> #[trigger] inputs@[j]@ == (InputV {
                        pub_key: if j == at {
                            key@
                        } else {
                            Seq::empty()
                        },
                        ..trimmed_input(self@.vin[j])
                    }),
            decreases self.vin@.len() - k,
        {
            let pk = if k == at {
                copy_bytes(key)
            } else {
                Vec::new()
            };
            let txid = copy_bytes(self.vin[k].txid.as_slice());
            inputs.push(TXInput { txid, vout: self.vin[k].vout, signature: Vec::new(), pub_key: pk });
            proof {
                assert(inputs@[k as int]@.signature =~= Seq::<u8>::empty());
            }
            k = k + 1;
        }
        Transaction {
            id: copy_bytes(self.id.as_slice()),
            vin: inputs,
            vout: clone_outputs(&self.vout),
        }
    }

    /// Whether every input resolves against `prev_txs` (see `refs_resolve`).
    fn check_refs(&self, prev_txs: &Vec<Transaction>) -> (r: bool)
        ensures
            r == refs_resolve(self@, txs_view(prev_txs@)),
    {
        let ghost prevs = txs_view(prev_txs@);
        if prev_txs.len() < self.vin.len() {
            return false;
        }
        let mut k: usize = 0;
        while k < self.vin.len()
            invariant
                prevs == txs_view(prev_txs@),
                prev_txs@.len() >= self.vin@.len(),
                0 <= k <= self.vin@.len(),
                forall|j: int| 0 <= j < k ==> 0 <= #[trigger] self@.vin[j].vout < prevs[j].vout.len(),
            decreases self.vin@.len() - k,
        {
            let v = self.vin[k].vout;
            if v < 0 || v as u64 >= prev_txs[k].vout.len() as u64 {
                proof {
                    assert(self@.vin[k as int].vout == v);
                    assert(prevs[k as int].vout.len() == prev_txs@[k as int].vout@.len());
                }
                return false;
            }
            proof {
                assert(self@.vin[k as int].vout == v);
                assert(prevs[k as int].vout.len() == prev_txs@[k as int].vout@.len());
            }
            k = k + 1;
        }
        true
    }

    /// The digest input `k` signs; the references must resolve.
    fn input_digest(&self, k: usize, prev_txs: &Vec<Transaction>) -> (r: Vec<u8>)
        requires
            refs_resolve(self@, txs_view(prev_txs@)),
            k < self@.vin.len(),
        ensures
            r@ == sign_digest(self@, txs_view(prev_txs@), k as int),
            r@.len() == 32,
    {
        let ghost prevs = txs_view(prev_txs@);
        assert(0 <= self@.vin[k as int].vout < prevs[k as int].vout.len());
        let prev = &prev_txs[k];
        let v = self.vin[k].vout;
        assert(self@.vin[k as int].vout == v);
        assert(prevs[k as int].vout.len() == prev.vout@.len());
        assert(prevs[k as int] == prev_txs@[k as int]@);
        assert(prevs[k as int].vout == prev.vout@.map_values(|o: TXOutput| o@));
        let n: usize = prev.vout.len();
        assert(0 <= v < n);
        let idx: usize = v as usize;
        assert(idx == v);
        let out = &prev.vout[idx];
        assert(out@ == prevs[k as int].vout[v as int]);
        let tc = self.trimmed_with_key(k, out.pub_key_hash.as_slice());
        let bytes = packet_sign_content(&tc);
        proof {
            let t = trimmed(self@);
            let want = TxV {
                vin: t.vin.update(k as int, InputV { pub_key: out.pub_key_hash@, ..t.vin[k as int] }),
                ..t
            };
            assert(out.pub_key_hash@ == ref_pub_key_hash(self@, prevs, k as int));
            assert(tc@.vin =~= want.vin);
            assert(tc@ == want);
        }
        double_sha256(bytes.as_slice())
    }

    /// Signs every input with `secret_key`: input `i` signs the double SHA-256
    /// of the trimmed copy in which it carries the public-key hash of the
    /// output it spends, found in `prev_txs[i]`. A coinbase is left as it is.
    pub fn sign(&mut self, secret_key: &[u8], prev_txs: &Vec<Transaction>) -> (r: Result<(), TxError>)
        ensures
            r == sign_outcome(old(self)@, secret_key@, txs_view(prev_txs@)),
            final(self)@ == sign_result(old(self)@, secret_key@, txs_view(prev_txs@)),
            r is Ok && (forall|i: int|
                0 <= i < old(self)@.vin.len() ==> #[trigger] old(self)@.vin[i].pub_key == public_key_of(secret_key@))
                ==> tx_verifies(final(self)@, txs_view(prev_txs@)),
    {
        if self.is_coinbase() {
            return Ok(());
        }
        if prev_txs.len() < self.vin.len() {
            return Err(TxError::PrevTxNotFound);
        }
        if !self.check_refs(prev_txs) {
            return Err(TxError::BadOutputRef);
        }
        if !crate::util::recover_secret_key(secret_key) {
            return Err(TxError::InvalidSecretKey);
        }
        let ghost t = self@;
        let ghost prevs = txs_view(prev_txs@);
        let mut signed: Vec<TXInput> = Vec::new();
        let mut k: usize = 0;
        while k < self.vin.len()
            invariant
                t == self@,
                prevs == txs_view(prev_txs@),
                refs_resolve(t, prevs),
                secret_key_ok(secret_key@),
                0 <= k <= self.vin@.len(),
                signed@.len() == k,
                forall|j: int|
                    0 <= j < k ==> #[trigger] signed@[j]@ == signed_spec(t, secret_key@, prevs).vin[j],
                forall|j: int|
                    0 <= j < k ==> ecdsa_accepts(
                        public_key_of(secret_key@),
                        ecdsa_signature_of(secret_key@, #[trigger] sign_digest(t, prevs, j)),
                        sign_digest(t, prevs, j),
                    ),
            decreases self.vin@.len() - k,
        {
            let digest = self.input_digest(k, prev_txs);
            let sig = crate::util::sign(digest.as_slice(), secret_key);
            let inp = &self.vin[k];
            signed.push(TXInput {
                txid: copy_bytes(inp.txid.as_slice()),
                vout: inp.vout,
                signature: sig,
                pub_key: copy_bytes(inp.pub_key.as_slice()),
            });
            k = k + 1;
        }
        self.vin = signed;
        proof {
            assert(self@.vin =~= signed_spec(t, secret_key@, prevs).vin);
            if forall|i: int| 0 <= i < t.vin.len() ==> #[trigger] t.vin[i].pub_key == public_key_of(secret_key@) {
                lemma_sign_then_verify(t, secret_key@, prevs);
            }
        }
        Ok(())
    }

    /// Whether the transaction is valid against the previous transactions of
    /// its inputs: true for a coinbase; otherwise every input must resolve and
    /// every input's signature must check against its public key.
    pub fn verify(&self, prev_txs: &Vec<Transaction>) -> (r: bool)
        ensures
            r == tx_verifies(self@, txs_view(prev_txs@)),
    {
        if self.is_coinbase() {
            return true;
        }
        if !self.check_refs(prev_txs) {
            return false;
        }
        let ghost prevs = txs_view(prev_txs@);
        let mut k: usize = 0;
        while k < self.vin.len()
            invariant
                prevs == txs_view(prev_txs@),
                refs_resolve(self@, prevs),
                0 <= k <= self.vin@.len(),
                forall|j: int|
                    0 <= j < k ==> ecdsa_accepts(
                        #[trigger] self@.vin[j].pub_key,
                        self@.vin[j].signature,
                        sign_digest(self@, prevs, j),
                    ),
            decreases self.vin@.len() - k,
        {
            let digest = self.input_digest(k, prev_txs);
            let inp = &self.vin[k];
            if !crate::util::verify(inp.pub_key.as_slice(), inp.signature.as_slice(), digest.as_slice()) {
                proof {
                    assert(self@.vin[k as int] == inp@);
                    assert(!ecdsa_accepts(
                        self@.vin[k as int].pub_key,
                        self@.vin[k as int].signature,
                        sign_digest(self@, prevs, k as int),
                    ));
                }
                return false;
            }
            k = k + 1;
        }
        true
    }

    /// The display projection of the transaction: its id in hexadecimal, and
    /// two tables, each opening with its header row: one row per input and
    /// one per output (see `input_row` and `output_row`).
    pub fn to_string(&self, compress: bool) -> (r: (Vec<u8>, Vec<Vec<Vec<u8>>>, Vec<Vec<Vec<u8>>>))
        ensures
            r.0@ == hex_ascii_of(self@.id),
            table_view(r.1@) == seq![input_header()] + Seq::new(
                self@.vin.len(),
                |i: int| input_row(i, self@.vin[i], compress),
            ),
            table_view(r.2@) == seq![output_header()] + Seq::new(
                self@.vout.len(),
                |k: int| output_row(k, self@.vout[k]),
            ),
    {
        let txid = hex_ascii(self.id.as_slice());
        let mut inputs: Vec<Vec<Vec<u8>>> = vec![make_input_header()];
        let mut i: usize = 0;
        while i < self.vin.len()
            invariant
                0 <= i <= self.vin@.len(),
                inputs@.len() == i + 1,
                inputs@[0]@.map_values(|c: Vec<u8>| c@) == input_header(),
                forall|j: int| 0 <= j < i ==> (#[trigger] inputs@[j + 1])@.map_values(|c: Vec<u8>| c@)
                    == input_row(j, self@.vin[j], compress),
            decreases self.vin@.len() - i,
        {
            let x = &self.vin[i];
            let sig = make_hex_cell(x.signature.as_slice(), compress && x.signature.len() > 0);
            let pk = make_hex_cell(x.pub_key.as_slice(), compress);
            let row = vec![decimal_ascii(i as i64), hex_ascii(x.txid.as_slice()), decimal_ascii(x.vout), sig, pk];
            proof {
                assert(row@.map_values(|c: Vec<u8>| c@) =~= input_row(i as int, self@.vin[i as int], compress));
            }
            inputs.push(row);
            i = i + 1;
        }
        let mut outputs: Vec<Vec<Vec<u8>>> = vec![make_output_header()];
        let mut k: usize = 0;
        while k < self.vout.len()
            invariant
                0 <= k <= self.vout@.len(),
                outputs@.len() == k + 1,
                outputs@[0]@.map_values(|c: Vec<u8>| c@) == output_header(),
                forall|j: int| 0 <= j < k ==> (#[trigger] outputs@[j + 1])@.map_values(|c: Vec<u8>| c@)
                    == output_row(j, self@.vout[j]),
            decreases self.vout@.len() - k,
        {
            let o = &self.vout[k];
            let row = vec![decimal_ascii(k as i64), decimal_ascii(o.value), hex_ascii(o.pub_key_hash.as_slice())];
            proof {
                assert(row@.map_values(|c: Vec<u8>| c@) =~= output_row(k as int, self@.vout[k as int]));
            }
            outputs.push(row);
            k = k + 1;
        }
        proof {
            let ti = seq![input_header()] + Seq::new(
                self@.vin.len(),
                |i: int| input_row(i, self@.vin[i], compress),
            );
            assert forall|j: int| 0 <= j < ti.len() implies #[trigger] table_view(inputs@)[j] == ti[j] by {
                if j > 0 {
                    assert(inputs@[(j - 1) + 1]@.map_values(|c: Vec<u8>| c@) == input_row(j - 1, self@.vin[j - 1], compress));
                }
            }
            let to = seq![output_header()] + Seq::new(
                self@.vout.len(),
                |k: int| output_row(k, self@.vout[k]),
            );
            assert forall|j: int| 0 <= j < to.len() implies #[trigger] table_view(outputs@)[j] == to[j] by {
                if j > 0 {
                    assert(outputs@[(j - 1) + 1]@.map_values(|c: Vec<u8>| c@) == output_row(j - 1, self@.vout[j - 1]));
                }
            }
            assert(table_view(inputs@) =~= seq![input_header()] + Seq::new(
                self@.vin.len(),
                |i: int| input_row(i, self@.vin[i], compress),
            ));
            assert(table_view(outputs@) =~= seq![output_header()] + Seq::new(
                self@.vout.len(),
                |k: int| output_row(k, self@.vout[k]),
            ));
        }
        (txid, inputs, outputs)
    }

    /// SHA-256 of the encoding of this transaction with its id cleared.
    pub fn hash(&self) -> (r: Vec<u8>)
        ensures
            r@ == tx_hash(self@),
            r@.len() == 32,
    {
        let empty: Vec<u8> = Vec::new();
        let bytes = self.encode_with_id(empty.as_slice());
        proof {
            assert(empty@ =~= Seq::<u8>::empty());
        }
        sha256(bytes.as_slice())
    }
}

} // verus!
