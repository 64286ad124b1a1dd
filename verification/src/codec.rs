//! The abridged block codec.
//!
//! Encoding turns a block into one wire list of `10 + S + 2` items — ten fixed
//! header fields, the transaction list, the uncle list, then the `S` seal
//! fields as raw byte strings — and compresses it under the blocks profile.
//! The parent hash, the block number and the uncles hash are never stored:
//! the first two are supplied by the caller at decode time, the third is
//! recomputed from the decoded uncle list.

use vstd::prelude::*;
use vstd::bytes::{spec_u64_to_le_bytes, spec_u64_from_le_bytes, u64_to_le_bytes, u64_from_le_bytes};
use crate::block::{
    Action, ActionV, Block, BlockV, Header, HeaderV, Transaction, TransactionV, fits_len,
    wf_header, wf_scalar, wf_transaction, zero_bytes, zero_bytes_vec,
};
use crate::wire::{
    DecodeError, dec_list_hdr, dec_str, enc_list_hdr, enc_str, lemma_dec_enc_list_hdr,
    lemma_dec_enc_str, lemma_enc_list_hdr_len, push_list_hdr, push_str_item, read_list_hdr,
    read_str,
};
use crate::hash::{keccak_of, keccak256};
use crate::compress::{blocks_compressed, compress_blocks, decompress_blocks};

verus! {

/// The byte-string payload that stands for an action: empty for a creation,
/// the 20-byte target for a call.
pub open spec fn action_bytes(a: ActionV) -> Seq<u8> {
    match a {
        ActionV::Create => Seq::empty(),
        ActionV::Call(t) => t,
    }
}

/// Encoding of one transaction: a list of its seven fields.
pub open spec fn enc_tx(t: TransactionV) -> Seq<u8> {
    enc_list_hdr(7) + (enc_str(action_bytes(t.action)) + (enc_str(t.nonce) + (enc_str(t.gas_price)
        + (enc_str(t.gas) + (enc_str(t.value) + (enc_str(t.data) + enc_str(t.signature)))))))
}

/// Encoding of a sequence of transactions, in order.
pub open spec fn enc_txs(ts: Seq<TransactionV>) -> Seq<u8>
    decreases ts.len(),
{
    if ts.len() == 0 {
        Seq::empty()
    } else {
        enc_tx(ts[0]) + enc_txs(ts.drop_first())
    }
}

/// Encoding of the transaction-list item.
pub open spec fn enc_tx_list(ts: Seq<TransactionV>) -> Seq<u8> {
    enc_list_hdr(ts.len()) + enc_txs(ts)
}

/// Encoding of a sequence of byte strings as consecutive string items.
pub open spec fn enc_strs(ss: Seq<Seq<u8>>) -> Seq<u8>
    decreases ss.len(),
{
    if ss.len() == 0 {
        Seq::empty()
    } else {
        enc_str(ss[0]) + enc_strs(ss.drop_first())
    }
}

/// Encoding of one full header, as an uncle carries it: a list of its
/// thirteen fields followed by its seal fields.
pub open spec fn enc_uncle(h: HeaderV) -> Seq<u8> {
    enc_list_hdr(13 + h.seal.len()) + (enc_str(h.parent_hash) + (enc_str(h.author) + (enc_str(
        h.state_root,
    ) + (enc_str(h.transactions_root) + (enc_str(h.receipts_root) + (enc_str(h.log_bloom) + (
    enc_str(h.difficulty) + (enc_str(spec_u64_to_le_bytes(h.number)) + (enc_str(h.gas_limit) + (
    enc_str(h.gas_used) + (enc_str(spec_u64_to_le_bytes(h.timestamp)) + (enc_str(h.extra_data) + (
    enc_str(h.uncles_hash) + enc_strs(h.seal))))))))))))))
}

/// Encoding of a sequence of uncle headers, in order.
pub open spec fn enc_uncles(us: Seq<HeaderV>) -> Seq<u8>
    decreases us.len(),
{
    if us.len() == 0 {
        Seq::empty()
    } else {
        enc_uncle(us[0]) + enc_uncles(us.drop_first())
    }
}

/// Encoding of the uncle-list item. The uncles hash is always the digest of
/// exactly these bytes.
pub open spec fn enc_uncle_list(us: Seq<HeaderV>) -> Seq<u8> {
    enc_list_hdr(us.len()) + enc_uncles(us)
}

/// The abridged wire bytes of a block, before compression: one list of
/// `10 + S + 2` items. The parent hash, the number and the uncles hash of the
/// block's own header are not written.
pub open spec fn enc_abridged(b: BlockV) -> Seq<u8> {
    enc_list_hdr(12 + b.header.seal.len()) + (enc_str(b.header.author) + (enc_str(
        b.header.state_root,
    ) + (enc_str(b.header.transactions_root) + (enc_str(b.header.receipts_root) + (enc_str(
        b.header.log_bloom,
    ) + (enc_str(b.header.difficulty) + (enc_str(b.header.gas_limit) + (enc_str(b.header.gas_used)
        + (enc_str(spec_u64_to_le_bytes(b.header.timestamp)) + (enc_str(b.header.extra_data) + (
    enc_tx_list(b.transactions) + (enc_uncle_list(b.uncles) + enc_strs(b.header.seal)))))))))))))
}

/// A block whose fields have the widths and forms that the abridged encoding
/// writes and that decoding checks. The block's own parent hash and uncles
/// hash are unconstrained here: neither is stored.
pub open spec fn encodable_block(b: BlockV) -> bool {
    &&& b.header.author.len() == 20
    &&& b.header.state_root.len() == 32
    &&& b.header.transactions_root.len() == 32
    &&& b.header.receipts_root.len() == 32
    &&& b.header.log_bloom.len() == 256
    &&& wf_scalar(b.header.difficulty)
    &&& wf_scalar(b.header.gas_limit)
    &&& wf_scalar(b.header.gas_used)
    &&& fits_len(b.header.extra_data.len())
    &&& fits_len(b.header.seal.len() + 13)
    &&& (forall|i: int| 0 <= i < b.header.seal.len() ==> fits_len(#[trigger] b.header.seal[i].len()))
    &&& fits_len(b.transactions.len())
    &&& (forall|i: int| 0 <= i < b.transactions.len() ==> wf_transaction(
        #[trigger] b.transactions[i],
    ))
    &&& fits_len(b.uncles.len())
    &&& (forall|i: int| 0 <= i < b.uncles.len() ==> wf_header(#[trigger] b.uncles[i]))
}

/// A well-formed block: encodable, and its uncles hash is the digest of its
/// encoded uncle list — the invariant that every header this codec produces
/// carries by construction.
pub open spec fn wf_block(b: BlockV) -> bool {
    &&& encodable_block(b)
    &&& b.header.uncles_hash == keccak_of(enc_uncle_list(b.uncles))
}

// ---------------------------------------------------------------------------
// Exec encoding
// ---------------------------------------------------------------------------

/// Concatenation of byte sequences is associative.
proof fn seq_assoc(a: Seq<u8>, b: Seq<u8>, c: Seq<u8>)
    ensures
        (a + b) + c == a + (b + c),
{
    assert((a + b) + c =~= a + (b + c));
}

/// Appends the encoding of one transaction to `out`.
fn encode_tx_into(out: &mut Vec<u8>, t: &Transaction)
    ensures
        final(out)@ == old(out)@ + enc_tx(t@),
{
    push_list_hdr(out, 7);
    match &t.action {
        Action::Create => {
            let empty: Vec<u8> = Vec::new();
            push_str_item(out, empty.as_slice());
        },
        Action::Call(target) => {
            push_str_item(out, target.as_slice());
        },
    }
    push_str_item(out, t.nonce.as_slice());
    push_str_item(out, t.gas_price.as_slice());
    push_str_item(out, t.gas.as_slice());
    push_str_item(out, t.value.as_slice());
    push_str_item(out, t.data.as_slice());
    push_str_item(out, t.signature.as_slice());
    proof {
        let o = old(out)@;
        let hdr = enc_list_hdr(7);
        let q1 = enc_str(action_bytes(t@.action));
        let q2 = enc_str(t@.nonce);
        let q3 = enc_str(t@.gas_price);
        let q4 = enc_str(t@.gas);
        let q5 = enc_str(t@.value);
        let q6 = enc_str(t@.data);
        let q7 = enc_str(t@.signature);
        let l0 = o + hdr;
        let l1 = l0 + q1;
        let l2 = l1 + q2;
        let l3 = l2 + q3;
        let l4 = l3 + q4;
        let l5 = l4 + q5;
        let l6 = l5 + q6;
        assert(final(out)@ == l6 + q7);
        let t6 = q6 + q7;
        let t5 = q5 + t6;
        let t4 = q4 + t5;
        let t3 = q3 + t4;
        let t2 = q2 + t3;
        let t1 = q1 + t2;
        seq_assoc(l5, q6, q7);
        assert(l6 + q7 == l5 + t6);
        seq_assoc(l4, q5, t6);
        assert(l5 + t6 == l4 + t5);
        seq_assoc(l3, q4, t5);
        assert(l4 + t5 == l3 + t4);
        seq_assoc(l2, q3, t4);
        assert(l3 + t4 == l2 + t3);
        seq_assoc(l1, q2, t3);
        assert(l2 + t3 == l1 + t2);
        seq_assoc(l0, q1, t2);
        assert(l1 + t2 == l0 + t1);
        seq_assoc(o, hdr, t1);
        assert(l0 + t1 == o + (hdr + t1));
        assert(enc_tx(t@) == hdr + t1);
    }
}

/// Appending one more transaction extends the encoding of a sequence.
proof fn lemma_enc_txs_snoc(a: Seq<TransactionV>, x: TransactionV)
    ensures
        enc_txs(a.push(x)) == enc_txs(a) + enc_tx(x),
    decreases a.len(),
{
    if a.len() == 0 {
        assert(a =~= Seq::<TransactionV>::empty());
        assert(a.push(x)[0] == x);
        assert(a.push(x).drop_first() =~= a);
        assert(enc_txs(a.push(x)) == enc_tx(x) + enc_txs(a));
        assert(enc_txs(a) == Seq::<u8>::empty());
        assert(enc_tx(x) + Seq::<u8>::empty() =~= Seq::<u8>::empty() + enc_tx(x));
    } else {
        assert(a.push(x).drop_first() =~= a.drop_first().push(x));
        lemma_enc_txs_snoc(a.drop_first(), x);
        assert(a.push(x)[0] == a[0]);
        assert(enc_txs(a.push(x)) == enc_tx(a[0]) + (enc_txs(a.drop_first()) + enc_tx(x)));
        assert(enc_tx(a[0]) + (enc_txs(a.drop_first()) + enc_tx(x)) =~= (enc_tx(a[0]) + enc_txs(
            a.drop_first(),
        )) + enc_tx(x));
    }
}

/// Appending one more byte string extends the encoding of a sequence.
proof fn lemma_enc_strs_snoc(a: Seq<Seq<u8>>, x: Seq<u8>)
    ensures
        enc_strs(a.push(x)) == enc_strs(a) + enc_str(x),
    decreases a.len(),
{
    if a.len() == 0 {
        assert(a =~= Seq::<Seq<u8>>::empty());
        assert(a.push(x)[0] == x);
        assert(a.push(x).drop_first() =~= a);
        assert(enc_strs(a.push(x)) == enc_str(x) + enc_strs(a));
        assert(enc_strs(a) == Seq::<u8>::empty());
        assert(enc_str(x) + Seq::<u8>::empty() =~= Seq::<u8>::empty() + enc_str(x));
    } else {
        assert(a.push(x).drop_first() =~= a.drop_first().push(x));
        lemma_enc_strs_snoc(a.drop_first(), x);
        assert(a.push(x)[0] == a[0]);
        assert(enc_strs(a.push(x)) == enc_str(a[0]) + (enc_strs(a.drop_first()) + enc_str(x)));
        assert(enc_str(a[0]) + (enc_strs(a.drop_first()) + enc_str(x)) =~= (enc_str(a[0])
            + enc_strs(a.drop_first())) + enc_str(x));
    }
}

/// Appending one more uncle extends the encoding of a sequence.
proof fn lemma_enc_uncles_snoc(a: Seq<HeaderV>, x: HeaderV)
    ensures
        enc_uncles(a.push(x)) == enc_uncles(a) + enc_uncle(x),
    decreases a.len(),
{
    if a.len() == 0 {
        assert(a =~= Seq::<HeaderV>::empty());
        assert(a.push(x)[0] == x);
        assert(a.push(x).drop_first() =~= a);
        assert(enc_uncles(a.push(x)) == enc_uncle(x) + enc_uncles(a));
        assert(enc_uncles(a) == Seq::<u8>::empty());
        assert(enc_uncle(x) + Seq::<u8>::empty() =~= Seq::<u8>::empty() + enc_uncle(x));
    } else {
        assert(a.push(x).drop_first() =~= a.drop_first().push(x));
        lemma_enc_uncles_snoc(a.drop_first(), x);
        assert(a.push(x)[0] == a[0]);
        assert(enc_uncles(a.push(x)) == enc_uncle(a[0]) + (enc_uncles(a.drop_first()) + enc_uncle(
            x,
        )));
        assert(enc_uncle(a[0]) + (enc_uncles(a.drop_first()) + enc_uncle(x)) =~= (enc_uncle(a[0])
            + enc_uncles(a.drop_first())) + enc_uncle(x));
    }
}

/// Appends the encodings of all transactions in `ts` to `out`, in order.
fn encode_txs_into(out: &mut Vec<u8>, ts: &Vec<Transaction>)
    ensures
        final(out)@ == old(out)@ + enc_txs(ts.deep_view()),
{
    let ghost start = out@;
    let mut i: usize = 0;
    while i < ts.len()
        invariant
            i <= ts.len(),
            ts.deep_view().len() == ts@.len(),
            out@ == start + enc_txs(ts.deep_view().take(i as int)),
        decreases ts.len() - i,
    {
        let ghost pre = out@;
        encode_tx_into(out, &ts[i]);
        proof {
            assert(ts.deep_view()[i as int] == ts@[i as int].deep_view());
            assert(ts.deep_view().take(i + 1) =~= ts.deep_view().take(i as int).push(
                ts.deep_view()[i as int],
            ));
            lemma_enc_txs_snoc(ts.deep_view().take(i as int), ts.deep_view()[i as int]);
            assert(out@ =~= start + enc_txs(ts.deep_view().take(i + 1)));
        }
        i += 1;
    }
    proof {
        assert(ts.deep_view().take(ts@.len() as int) =~= ts.deep_view());
    }
}

/// Appends every byte string in `ss` to `out` as a string item, in order.
fn encode_strs_into(out: &mut Vec<u8>, ss: &Vec<Vec<u8>>)
    ensures
        final(out)@ == old(out)@ + enc_strs(ss.deep_view()),
{
    let ghost start = out@;
    let mut i: usize = 0;
    while i < ss.len()
        invariant
            i <= ss.len(),
            ss.deep_view().len() == ss@.len(),
            out@ == start + enc_strs(ss.deep_view().take(i as int)),
        decreases ss.len() - i,
    {
        push_str_item(out, ss[i].as_slice());
        proof {
            assert(ss.deep_view()[i as int] == ss@[i as int].deep_view());
            assert(ss@[i as int].deep_view() =~= ss@[i as int]@);
            assert(ss.deep_view().take(i + 1) =~= ss.deep_view().take(i as int).push(
                ss.deep_view()[i as int],
            ));
            lemma_enc_strs_snoc(ss.deep_view().take(i as int), ss.deep_view()[i as int]);
            assert(out@ =~= start + enc_strs(ss.deep_view().take(i + 1)));
        }
        i += 1;
    }
    proof {
        assert(ss.deep_view().take(ss@.len() as int) =~= ss.deep_view());
    }
}

/// Appends the encoding of one full header to `out`.
#[verifier::rlimit(60)]
fn encode_uncle_into(out: &mut Vec<u8>, h: &Header)
    requires
        h.seal.len() <= usize::MAX - 13,
    ensures
        final(out)@ == old(out)@ + enc_uncle(h@),
{
    push_list_hdr(out, 13 + h.seal.len());
    push_str_item(out, h.parent_hash.as_slice());
    push_str_item(out, h.author.as_slice());
    push_str_item(out, h.state_root.as_slice());
    push_str_item(out, h.transactions_root.as_slice());
    push_str_item(out, h.receipts_root.as_slice());
    push_str_item(out, h.log_bloom.as_slice());
    push_str_item(out, h.difficulty.as_slice());
    let number_bytes = u64_to_le_bytes(h.number);
    push_str_item(out, number_bytes.as_slice());
    push_str_item(out, h.gas_limit.as_slice());
    push_str_item(out, h.gas_used.as_slice());
    let ts_bytes = u64_to_le_bytes(h.timestamp);
    push_str_item(out, ts_bytes.as_slice());
    push_str_item(out, h.extra_data.as_slice());
    push_str_item(out, h.uncles_hash.as_slice());
    encode_strs_into(out, &h.seal);
    proof {
        let o = old(out)@;
        assert(h.seal.deep_view().len() == h.seal@.len());
        let hdr = enc_list_hdr((13 + h.seal@.len()) as nat);
        let p1 = enc_str(h.parent_hash@);
        let p2 = enc_str(h.author@);
        let p3 = enc_str(h.state_root@);
        let p4 = enc_str(h.transactions_root@);
        let p5 = enc_str(h.receipts_root@);
        let p6 = enc_str(h.log_bloom@);
        let p7 = enc_str(h.difficulty@);
        let p8 = enc_str(spec_u64_to_le_bytes(h.number));
        let p9 = enc_str(h.gas_limit@);
        let p10 = enc_str(h.gas_used@);
        let p11 = enc_str(spec_u64_to_le_bytes(h.timestamp));
        let p12 = enc_str(h.extra_data@);
        let p13 = enc_str(h.uncles_hash@);
        let se = enc_strs(h.seal.deep_view());
        let l0 = o + hdr;
        let l1 = l0 + p1;
        let l2 = l1 + p2;
        let l3 = l2 + p3;
        let l4 = l3 + p4;
        let l5 = l4 + p5;
        let l6 = l5 + p6;
        let l7 = l6 + p7;
        let l8 = l7 + p8;
        let l9 = l8 + p9;
        let l10 = l9 + p10;
        let l11 = l10 + p11;
        let l12 = l11 + p12;
        let l13 = l12 + p13;
        assert(final(out)@ == l13 + se);
        let t13 = p13 + se;
        let t12 = p12 + t13;
        let t11 = p11 + t12;
        let t10 = p10 + t11;
        let t9 = p9 + t10;
        let t8 = p8 + t9;
        let t7 = p7 + t8;
        let t6 = p6 + t7;
        let t5 = p5 + t6;
        let t4 = p4 + t5;
        let t3 = p3 + t4;
        let t2 = p2 + t3;
        let t1 = p1 + t2;
        seq_assoc(l12, p13, se);
        assert(l13 + se == l12 + t13);
        seq_assoc(l11, p12, t13);
        assert(l12 + t13 == l11 + t12);
        seq_assoc(l10, p11, t12);
        assert(l11 + t12 == l10 + t11);
        seq_assoc(l9, p10, t11);
        assert(l10 + t11 == l9 + t10);
        seq_assoc(l8, p9, t10);
        assert(l9 + t10 == l8 + t9);
        seq_assoc(l7, p8, t9);
        assert(l8 + t9 == l7 + t8);
        seq_assoc(l6, p7, t8);
        assert(l7 + t8 == l6 + t7);
        seq_assoc(l5, p6, t7);
        assert(l6 + t7 == l5 + t6);
        seq_assoc(l4, p5, t6);
        assert(l5 + t6 == l4 + t5);
        seq_assoc(l3, p4, t5);
        assert(l4 + t5 == l3 + t4);
        seq_assoc(l2, p3, t4);
        assert(l3 + t4 == l2 + t3);
        seq_assoc(l1, p2, t3);
        assert(l2 + t3 == l1 + t2);
        seq_assoc(l0, p1, t2);
        assert(l1 + t2 == l0 + t1);
        seq_assoc(o, hdr, t1);
        assert(l0 + t1 == o + (hdr + t1));
        assert(enc_uncle(h@) == hdr + t1);
    }
}

/// Appends the encodings of all uncle headers in `us` to `out`, in order.
fn encode_uncles_into(out: &mut Vec<u8>, us: &Vec<Header>)
    requires
        forall|i: int| 0 <= i < us@.len() ==> #[trigger] us@[i].seal@.len() <= usize::MAX - 13,
    ensures
        final(out)@ == old(out)@ + enc_uncles(us.deep_view()),
{
    let ghost start = out@;
    let mut i: usize = 0;
    while i < us.len()
        invariant
            i <= us.len(),
            us.deep_view().len() == us@.len(),
            forall|k: int| 0 <= k < us@.len() ==> #[trigger] us@[k].seal@.len() <= usize::MAX - 13,
            out@ == start + enc_uncles(us.deep_view().take(i as int)),
        decreases us.len() - i,
    {
        encode_uncle_into(out, &us[i]);
        proof {
            assert(us.deep_view()[i as int] == us@[i as int].deep_view());
            assert(us.deep_view().take(i + 1) =~= us.deep_view().take(i as int).push(
                us.deep_view()[i as int],
            ));
            lemma_enc_uncles_snoc(us.deep_view().take(i as int), us.deep_view()[i as int]);
            assert(out@ =~= start + enc_uncles(us.deep_view().take(i + 1)));
        }
        i += 1;
    }
    proof {
        assert(us.deep_view().take(us@.len() as int) =~= us.deep_view());
    }
}

/// The encoded uncle-list item on its own: the bytes whose digest is the
/// uncles hash.
pub fn encode_uncle_list(us: &Vec<Header>) -> (r: Vec<u8>)
    requires
        forall|i: int| 0 <= i < us@.len() ==> #[trigger] us@[i].seal@.len() <= usize::MAX - 13,
    ensures
        r@ == enc_uncle_list(us.deep_view()),
{
    let mut out: Vec<u8> = Vec::new();
    push_list_hdr(&mut out, us.len());
    proof {
        assert(us.deep_view().len() == us@.len());
    }
    encode_uncles_into(&mut out, us);
    out
}

// ---------------------------------------------------------------------------
// Spec decoding
// ---------------------------------------------------------------------------

/// Reads a byte-string item of exactly `w` bytes.
pub open spec fn dec_fixed(s: Seq<u8>, pos: int, w: nat) -> Result<(Seq<u8>, int), DecodeError> {
    match dec_str(s, pos) {
        Err(e) => Err(e),
        Ok((b, p)) => if b.len() == w {
            Ok((b, p))
        } else {
            Err(DecodeError::UnexpectedKind)
        },
    }
}

/// Reads a byte-string item holding a minimal big-endian scalar.
pub open spec fn dec_scalar(s: Seq<u8>, pos: int) -> Result<(Seq<u8>, int), DecodeError> {
    match dec_str(s, pos) {
        Err(e) => Err(e),
        Ok((b, p)) => if wf_scalar(b) {
            Ok((b, p))
        } else {
            Err(DecodeError::UnexpectedKind)
        },
    }
}

/// Reads a byte-string item holding a 64-bit little-endian value.
pub open spec fn dec_u64_item(s: Seq<u8>, pos: int) -> Result<(u64, int), DecodeError> {
    match dec_str(s, pos) {
        Err(e) => Err(e),
        Ok((b, p)) => if b.len() == 8 {
            Ok((spec_u64_from_le_bytes(b), p))
        } else {
            Err(DecodeError::UnexpectedKind)
        },
    }
}

/// Reads an action item: empty for a creation, 20 bytes for a call target.
pub open spec fn dec_action(s: Seq<u8>, pos: int) -> Result<(ActionV, int), DecodeError> {
    match dec_str(s, pos) {
        Err(e) => Err(e),
        Ok((b, p)) => if b.len() == 0 {
            Ok((ActionV::Create, p))
        } else if b.len() == 20 {
            Ok((ActionV::Call(b), p))
        } else {
            Err(DecodeError::UnexpectedKind)
        },
    }
}

/// Reads one transaction: a seven-item list.
#[verifier::opaque]
pub open spec fn dec_tx(s: Seq<u8>, pos: int) -> Result<(TransactionV, int), DecodeError> {
    match dec_list_hdr(s, pos) {
        Err(e) => Err(e),
        Ok((n, p0)) => if n != 7 {
            Err(DecodeError::WrongItemCount)
        } else {
            match dec_action(s, p0) {
                Err(e) => Err(e),
                Ok((action, p1)) => match dec_scalar(s, p1) {
                    Err(e) => Err(e),
                    Ok((nonce, p2)) => match dec_scalar(s, p2) {
                        Err(e) => Err(e),
                        Ok((gas_price, p3)) => match dec_scalar(s, p3) {
                            Err(e) => Err(e),
                            Ok((gas, p4)) => match dec_scalar(s, p4) {
                                Err(e) => Err(e),
                                Ok((value, p5)) => match dec_str(s, p5) {
                                    Err(e) => Err(e),
                                    Ok((data, p6)) => match dec_str(s, p6) {
                                        Err(e) => Err(e),
                                        Ok((signature, p7)) => Ok(
                                            (
                                                TransactionV {
                                                    action,
                                                    nonce,
                                                    gas_price,
                                                    gas,
                                                    value,
                                                    data,
                                                    signature,
                                                },
                                                p7,
                                            ),
                                        ),
                                    },
                                },
                            },
                        },
                    },
                },
            }
        },
    }
}

/// Reads `n` consecutive transactions.
pub open spec fn dec_txs(s: Seq<u8>, pos: int, n: nat) -> Result<
    (Seq<TransactionV>, int),
    DecodeError,
>
    decreases n,
{
    if n == 0 {
        Ok((Seq::empty(), pos))
    } else {
        match dec_tx(s, pos) {
            Err(e) => Err(e),
            Ok((t, p)) => match dec_txs(s, p, (n - 1) as nat) {
                Err(e) => Err(e),
                Ok((ts, end)) => Ok((seq![t] + ts, end)),
            },
        }
    }
}

/// Reads `n` consecutive byte-string items.
pub open spec fn dec_strs(s: Seq<u8>, pos: int, n: nat) -> Result<(Seq<Seq<u8>>, int), DecodeError>
    decreases n,
{
    if n == 0 {
        Ok((Seq::empty(), pos))
    } else {
        match dec_str(s, pos) {
            Err(e) => Err(e),
            Ok((b, p)) => match dec_strs(s, p, (n - 1) as nat) {
                Err(e) => Err(e),
                Ok((bs, end)) => Ok((seq![b] + bs, end)),
            },
        }
    }
}

/// Reads one full header, as an uncle carries it: a list of at least
/// thirteen items, the tail being its seal fields.
#[verifier::opaque]
pub open spec fn dec_uncle(s: Seq<u8>, pos: int) -> Result<(HeaderV, int), DecodeError> {
    match dec_list_hdr(s, pos) {
        Err(e) => Err(e),
        Ok((n, p0)) => if n < 13 {
            Err(DecodeError::WrongItemCount)
        } else {
            match dec_fixed(s, p0, 32) {
                Err(e) => Err(e),
                Ok((parent_hash, p1)) => match dec_fixed(s, p1, 20) {
                    Err(e) => Err(e),
                    Ok((author, p2)) => match dec_fixed(s, p2, 32) {
                        Err(e) => Err(e),
                        Ok((state_root, p3)) => match dec_fixed(s, p3, 32) {
                            Err(e) => Err(e),
                            Ok((transactions_root, p4)) => match dec_fixed(s, p4, 32) {
                                Err(e) => Err(e),
                                Ok((receipts_root, p5)) => match dec_fixed(s, p5, 256) {
                                    Err(e) => Err(e),
                                    Ok((log_bloom, p6)) => match dec_scalar(s, p6) {
                                        Err(e) => Err(e),
                                        Ok((difficulty, p7)) => match dec_u64_item(s, p7) {
                                            Err(e) => Err(e),
                                            Ok((number, p8)) => match dec_scalar(s, p8) {
                                                Err(e) => Err(e),
                                                Ok((gas_limit, p9)) => match dec_scalar(s, p9) {
                                                    Err(e) => Err(e),
                                                    Ok((gas_used, p10)) => match dec_u64_item(
                                                        s,
                                                        p10,
                                                    ) {
                                                        Err(e) => Err(e),
                                                        Ok((timestamp, p11)) => match dec_str(
                                                            s,
                                                            p11,
                                                        ) {
                                                            Err(e) => Err(e),
                                                            Ok((extra_data, p12)) => match
                                                                dec_fixed(s, p12, 32) {
                                                                Err(e) => Err(e),
                                                                Ok((uncles_hash, p13)) => match
                                                                    dec_strs(
                                                                    s,
                                                                    p13,
                                                                    (n - 13) as nat,
                                                                ) {
                                                                    Err(e) => Err(e),
                                                                    Ok((seal, end)) => Ok(
                                                                        (
                                                                            HeaderV {
                                                                                parent_hash,
                                                                                author,
                                                                                state_root,
                                                                                transactions_root,
                                                                                receipts_root,
                                                                                log_bloom,
                                                                                difficulty,
                                                                                number,
                                                                                gas_limit,
                                                                                gas_used,
                                                                                timestamp,
                                                                                extra_data,
                                                                                uncles_hash,
                                                                                seal,
                                                                            },
                                                                            end,
                                                                        ),
                                                                    ),
                                                                },
                                                            },
                                                        },
                                                    },
                                                },
                                            },
                                        },
                                    },
                                },
                            },
                        },
                    },
                },
            }
        },
    }
}

/// Reads `n` consecutive uncle headers.
pub open spec fn dec_uncles(s: Seq<u8>, pos: int, n: nat) -> Result<
    (Seq<HeaderV>, int),
    DecodeError,
>
    decreases n,
{
    if n == 0 {
        Ok((Seq::empty(), pos))
    } else {
        match dec_uncle(s, pos) {
            Err(e) => Err(e),
            Ok((h, p)) => match dec_uncles(s, p, (n - 1) as nat) {
                Err(e) => Err(e),
                Ok((hs, end)) => Ok((seq![h] + hs, end)),
            },
        }
    }
}

/// Decodes the uncompressed abridged wire bytes into a block, given the
/// caller-supplied parent hash and number. The decoded uncles hash is always
/// the digest of the re-encoded uncle list; nothing in `s` is consulted for
/// it. The whole buffer must be consumed.
#[verifier::opaque]
pub open spec fn dec_block(s: Seq<u8>, parent_hash: Seq<u8>, number: u64) -> Result<
    BlockV,
    DecodeError,
> {
    match dec_list_hdr(s, 0) {
        Err(e) => Err(e),
        Ok((cnt, p0)) => if cnt < 12 {
            Err(DecodeError::WrongItemCount)
        } else {
            match dec_fixed(s, p0, 20) {
                Err(e) => Err(e),
                Ok((author, p1)) => match dec_fixed(s, p1, 32) {
                    Err(e) => Err(e),
                    Ok((state_root, p2)) => match dec_fixed(s, p2, 32) {
                        Err(e) => Err(e),
                        Ok((transactions_root, p3)) => match dec_fixed(s, p3, 32) {
                            Err(e) => Err(e),
                            Ok((receipts_root, p4)) => match dec_fixed(s, p4, 256) {
                                Err(e) => Err(e),
                                Ok((log_bloom, p5)) => match dec_scalar(s, p5) {
                                    Err(e) => Err(e),
                                    Ok((difficulty, p6)) => match dec_scalar(s, p6) {
                                        Err(e) => Err(e),
                                        Ok((gas_limit, p7)) => match dec_scalar(s, p7) {
                                            Err(e) => Err(e),
                                            Ok((gas_used, p8)) => match dec_u64_item(s, p8) {
                                                Err(e) => Err(e),
                                                Ok((timestamp, p9)) => match dec_str(s, p9) {
                                                    Err(e) => Err(e),
                                                    Ok((extra_data, p10)) => match dec_list_hdr(
                                                        s,
                                                        p10,
                                                    ) {
                                                        Err(e) => Err(e),
                                                        Ok((tn, p11)) => match dec_txs(
                                                            s,
                                                            p11,
                                                            tn as nat,
                                                        ) {
                                                            Err(e) => Err(e),
                                                            Ok((transactions, p12)) => match
                                                                dec_list_hdr(s, p12) {
                                                                Err(e) => Err(e),
                                                                Ok((un, p13)) => match dec_uncles(
                                                                    s,
                                                                    p13,
                                                                    un as nat,
                                                                ) {
                                                                    Err(e) => Err(e),
                                                                    Ok((uncles, p14)) => match
                                                                        dec_strs(
                                                                        s,
                                                                        p14,
                                                                        (cnt - 12) as nat,
                                                                    ) {
                                                                        Err(e) => Err(e),
                                                                        Ok((seal, end)) => if end
                                                                            != s.len() {
                                                                            Err(
                                                                                DecodeError::WrongItemCount,
                                                                            )
                                                                        } else {
                                                                            Ok(
                                                                                BlockV {
                                                                                    header: HeaderV {
                                                                                        parent_hash,
                                                                                        author,
                                                                                        state_root,
                                                                                        transactions_root,
                                                                                        receipts_root,
                                                                                        log_bloom,
                                                                                        difficulty,
                                                                                        number,
                                                                                        gas_limit,
                                                                                        gas_used,
                                                                                        timestamp,
                                                                                        extra_data,
                                                                                        uncles_hash:
                                                                                            keccak_of(
                                                                                            enc_uncle_list(
                                                                                                uncles,
                                                                                            ),
                                                                                        ),
                                                                                        seal,
                                                                                    },
                                                                                    transactions,
                                                                                    uncles,
                                                                                },
                                                                            )
                                                                        },
                                                                    },
                                                                },
                                                            },
                                                        },
                                                    },
                                                },
                                            },
                                        },
                                    },
                                },
                            },
                        },
                    },
                },
            }
        },
    }
}

/// The view of a decode result: the block's view on success, the same error
/// otherwise.
pub open spec fn result_view(r: Result<Block, DecodeError>) -> Result<BlockV, DecodeError> {
    match r {
        Ok(b) => Ok(b@),
        Err(e) => Err(e),
    }
}

// ---------------------------------------------------------------------------
// Exec decoding
// ---------------------------------------------------------------------------

/// Reads a byte-string item of exactly `w` bytes.
fn read_fixed(data: &Vec<u8>, pos: usize, w: usize) -> (r: Result<(Vec<u8>, usize), DecodeError>)
    ensures
        match r {
            Ok((b, p2)) => {
                &&& dec_fixed(data@, pos as int, w as nat) == Ok::<(Seq<u8>, int), DecodeError>(
                    (b@, p2 as int),
                )
                &&& pos <= p2 <= data.len()
            },
            Err(e) => dec_fixed(data@, pos as int, w as nat) == Err::<(Seq<u8>, int), DecodeError>(
                e,
            ),
        },
{
    match read_str(data, pos) {
        Err(e) => Err(e),
        Ok((b, p2)) => if b.len() == w {
            Ok((b, p2))
        } else {
            Err(DecodeError::UnexpectedKind)
        },
    }
}

/// Reads a byte-string item holding a minimal big-endian scalar.
fn read_scalar(data: &Vec<u8>, pos: usize) -> (r: Result<(Vec<u8>, usize), DecodeError>)
    ensures
        match r {
            Ok((b, p2)) => {
                &&& dec_scalar(data@, pos as int) == Ok::<(Seq<u8>, int), DecodeError>(
                    (b@, p2 as int),
                )
                &&& pos <= p2 <= data.len()
            },
            Err(e) => dec_scalar(data@, pos as int) == Err::<(Seq<u8>, int), DecodeError>(e),
        },
{
    match read_str(data, pos) {
        Err(e) => Err(e),
        Ok((b, p2)) => if b.len() <= 32 && (b.len() == 0 || *vstd::slice::slice_index_get(
            b.as_slice(),
            0,
        ) != 0) {
            Ok((b, p2))
        } else {
            Err(DecodeError::UnexpectedKind)
        },
    }
}

/// Reads a byte-string item holding a 64-bit little-endian value.
fn read_u64_item(data: &Vec<u8>, pos: usize) -> (r: Result<(u64, usize), DecodeError>)
    ensures
        match r {
            Ok((v, p2)) => {
                &&& dec_u64_item(data@, pos as int) == Ok::<(u64, int), DecodeError>(
                    (v, p2 as int),
                )
                &&& pos <= p2 <= data.len()
            },
            Err(e) => dec_u64_item(data@, pos as int) == Err::<(u64, int), DecodeError>(e),
        },
{
    match read_str(data, pos) {
        Err(e) => Err(e),
        Ok((b, p2)) => if b.len() == 8 {
            Ok((u64_from_le_bytes(b.as_slice()), p2))
        } else {
            Err(DecodeError::UnexpectedKind)
        },
    }
}

/// Reads an action item: empty for a creation, 20 bytes for a call target.
fn read_action(data: &Vec<u8>, pos: usize) -> (r: Result<(Action, usize), DecodeError>)
    ensures
        match r {
            Ok((a, p2)) => {
                &&& dec_action(data@, pos as int) == Ok::<(ActionV, int), DecodeError>(
                    (a@, p2 as int),
                )
                &&& pos <= p2 <= data.len()
            },
            Err(e) => dec_action(data@, pos as int) == Err::<(ActionV, int), DecodeError>(e),
        },
{
    match read_str(data, pos) {
        Err(e) => Err(e),
        Ok((b, p2)) => if b.len() == 0 {
            Ok((Action::Create, p2))
        } else if b.len() == 20 {
            Ok((Action::Call(b), p2))
        } else {
            Err(DecodeError::UnexpectedKind)
        },
    }
}

/// Reads one transaction.
fn read_tx(data: &Vec<u8>, pos: usize) -> (r: Result<(Transaction, usize), DecodeError>)
    ensures
        match r {
            Ok((t, p2)) => {
                &&& dec_tx(data@, pos as int) == Ok::<(TransactionV, int), DecodeError>(
                    (t@, p2 as int),
                )
                &&& pos <= p2 <= data.len()
            },
            Err(e) => dec_tx(data@, pos as int) == Err::<(TransactionV, int), DecodeError>(e),
        },
{
    proof {
        reveal(dec_tx);
    }
    let (n, p0) = match read_list_hdr(data, pos) {
        Err(e) => {
            return Err(e);
        },
        Ok(v) => v,
    };
    if n != 7 {
        return Err(DecodeError::WrongItemCount);
    }
    let (action, p1) = match read_action(data, p0) {
        Err(e) => {
            return Err(e);
        },
        Ok(v) => v,
    };
    let (nonce, p2) = match read_scalar(data, p1) {
        Err(e) => {
            return Err(e);
        },
        Ok(v) => v,
    };
    let (gas_price, p3) = match read_scalar(data, p2) {
        Err(e) => {
            return Err(e);
        },
        Ok(v) => v,
    };
    let (gas, p4) = match read_scalar(data, p3) {
        Err(e) => {
            return Err(e);
        },
        Ok(v) => v,
    };
    let (value, p5) = match read_scalar(data, p4) {
        Err(e) => {
            return Err(e);
        },
        Ok(v) => v,
    };
    let (tx_data, p6) = match read_str(data, p5) {
        Err(e) => {
            return Err(e);
        },
        Ok(v) => v,
    };
    let (signature, p7) = match read_str(data, p6) {
        Err(e) => {
            return Err(e);
        },
        Ok(v) => v,
    };
    Ok((Transaction { action, nonce, gas_price, gas, value, data: tx_data, signature }, p7))
}

/// Reads `n` consecutive transactions.
fn read_txs(data: &Vec<u8>, pos: usize, n: u64) -> (r: Result<
    (Vec<Transaction>, usize),
    DecodeError,
>)
    requires
        pos <= data.len(),
    ensures
        match r {
            Ok((ts, p2)) => {
                &&& dec_txs(data@, pos as int, n as nat) == Ok::<
                    (Seq<TransactionV>, int),
                    DecodeError,
                >((ts.deep_view(), p2 as int))
                &&& pos <= p2 <= data.len()
            },
            Err(e) => dec_txs(data@, pos as int, n as nat) == Err::<
                (Seq<TransactionV>, int),
                DecodeError,
            >(e),
        },
{
    let mut acc: Vec<Transaction> = Vec::new();
    let mut cur = pos;
    let mut i: u64 = 0;
    proof {
        assert(acc.deep_view() =~= Seq::<TransactionV>::empty());
    }
    while i < n
        invariant
            i <= n,
            pos <= cur <= data.len(),
            acc.deep_view().len() == i,
            dec_txs(data@, pos as int, n as nat) == (match dec_txs(
                data@,
                cur as int,
                (n - i) as nat,
            ) {
                Ok((rest, end)) => Ok::<(Seq<TransactionV>, int), DecodeError>(
                    (acc.deep_view() + rest, end),
                ),
                Err(e) => Err(e),
            }),
        decreases n - i,
    {
        let ghost acc_old = acc.deep_view();
        let (t, p2) = match read_tx(data, cur) {
            Err(e) => {
                return Err(e);
            },
            Ok(v) => v,
        };
        acc.push(t);
        proof {
            assert(acc.deep_view() =~= acc_old.push(t@));
            assert forall|rest: Seq<TransactionV>| true implies acc_old + (seq![t@] + rest)
                == acc_old.push(t@) + rest by {
                assert(acc_old + (seq![t@] + rest) =~= acc_old.push(t@) + rest);
            }
        }
        cur = p2;
        i += 1;
    }
    proof {
        assert(acc.deep_view() + Seq::<TransactionV>::empty() =~= acc.deep_view());
    }
    Ok((acc, cur))
}

/// Reads `n` consecutive byte-string items.
fn read_strs(data: &Vec<u8>, pos: usize, n: u64) -> (r: Result<(Vec<Vec<u8>>, usize), DecodeError>)
    requires
        pos <= data.len(),
    ensures
        match r {
            Ok((bs, p2)) => {
                &&& dec_strs(data@, pos as int, n as nat) == Ok::<
                    (Seq<Seq<u8>>, int),
                    DecodeError,
                >((bs.deep_view(), p2 as int))
                &&& pos <= p2 <= data.len()
                &&& bs@.len() * 9 <= data@.len()
            },
            Err(e) => dec_strs(data@, pos as int, n as nat) == Err::<
                (Seq<Seq<u8>>, int),
                DecodeError,
            >(e),
        },
{
    let mut acc: Vec<Vec<u8>> = Vec::new();
    let mut cur = pos;
    let mut i: u64 = 0;
    proof {
        assert(acc.deep_view() =~= Seq::<Seq<u8>>::empty());
    }
    while i < n
        invariant
            i <= n,
            pos <= cur <= data.len(),
            pos + 9 * i <= cur,
            acc.deep_view().len() == i,
            acc@.len() == i,
            dec_strs(data@, pos as int, n as nat) == (match dec_strs(
                data@,
                cur as int,
                (n - i) as nat,
            ) {
                Ok((rest, end)) => Ok::<(Seq<Seq<u8>>, int), DecodeError>(
                    (acc.deep_view() + rest, end),
                ),
                Err(e) => Err(e),
            }),
        decreases n - i,
    {
        let ghost acc_old = acc.deep_view();
        let (b, p2) = match read_str(data, cur) {
            Err(e) => {
                return Err(e);
            },
            Ok(v) => v,
        };
        proof {
            assert(b.deep_view() =~= b@);
        }
        acc.push(b);
        proof {
            assert(acc.deep_view() =~= acc_old.push(acc@[acc@.len() - 1].deep_view()));
            assert forall|rest: Seq<Seq<u8>>, bb: Seq<u8>| true implies acc_old + (seq![bb] + rest)
                == acc_old.push(bb) + rest by {
                assert(acc_old + (seq![bb] + rest) =~= acc_old.push(bb) + rest);
            }
        }
        cur = p2;
        i += 1;
    }
    proof {
        assert(acc.deep_view() + Seq::<Seq<u8>>::empty() =~= acc.deep_view());
    }
    Ok((acc, cur))
}

/// Reads one full header, as an uncle carries it.
fn read_uncle(data: &Vec<u8>, pos: usize) -> (r: Result<(Header, usize), DecodeError>)
    ensures
        match r {
            Ok((h, p2)) => {
                &&& dec_uncle(data@, pos as int) == Ok::<(HeaderV, int), DecodeError>(
                    (h@, p2 as int),
                )
                &&& pos <= p2 <= data.len()
                &&& h.seal@.len() * 9 <= data@.len()
            },
            Err(e) => dec_uncle(data@, pos as int) == Err::<(HeaderV, int), DecodeError>(e),
        },
{
    proof {
        reveal(dec_uncle);
    }
    let (n, p0) = match read_list_hdr(data, pos) {
        Err(e) => {
            return Err(e);
        },
        Ok(v) => v,
    };
    if n < 13 {
        return Err(DecodeError::WrongItemCount);
    }
    let (parent_hash, p1) = match read_fixed(data, p0, 32) {
        Err(e) => {
            return Err(e);
        },
        Ok(v) => v,
    };
    let (author, p2) = match read_fixed(data, p1, 20) {
        Err(e) => {
            return Err(e);
        },
        Ok(v) => v,
    };
    let (state_root, p3) = match read_fixed(data, p2, 32) {
        Err(e) => {
            return Err(e);
        },
        Ok(v) => v,
    };
    let (transactions_root, p4) = match read_fixed(data, p3, 32) {
        Err(e) => {
            return Err(e);
        },
        Ok(v) => v,
    };
    let (receipts_root, p5) = match read_fixed(data, p4, 32) {
        Err(e) => {
            return Err(e);
        },
        Ok(v) => v,
    };
    let (log_bloom, p6) = match read_fixed(data, p5, 256) {
        Err(e) => {
            return Err(e);
        },
        Ok(v) => v,
    };
    let (difficulty, p7) = match read_scalar(data, p6) {
        Err(e) => {
            return Err(e);
        },
        Ok(v) => v,
    };
    let (number, p8) = match read_u64_item(data, p7) {
        Err(e) => {
            return Err(e);
        },
        Ok(v) => v,
    };
    let (gas_limit, p9) = match read_scalar(data, p8) {
        Err(e) => {
            return Err(e);
        },
        Ok(v) => v,
    };
    let (gas_used, p10) = match read_scalar(data, p9) {
        Err(e) => {
            return Err(e);
        },
        Ok(v) => v,
    };
    let (timestamp, p11) = match read_u64_item(data, p10) {
        Err(e) => {
            return Err(e);
        },
        Ok(v) => v,
    };
    let (extra_data, p12) = match read_str(data, p11) {
        Err(e) => {
            return Err(e);
        },
        Ok(v) => v,
    };
    let (uncles_hash, p13) = match read_fixed(data, p12, 32) {
        Err(e) => {
            return Err(e);
        },
        Ok(v) => v,
    };
    let (seal, end) = match read_strs(data, p13, n - 13) {
        Err(e) => {
            return Err(e);
        },
        Ok(v) => v,
    };
    let h = Header {
        parent_hash,
        author,
        state_root,
        transactions_root,
        receipts_root,
        log_bloom,
        difficulty,
        number,
        gas_limit,
        gas_used,
        timestamp,
        extra_data,
        uncles_hash,
        seal,
    };
    Ok((h, end))
}

/// Reads `n` consecutive uncle headers.
fn read_uncles(data: &Vec<u8>, pos: usize, n: u64) -> (r: Result<(Vec<Header>, usize), DecodeError>)
    requires
        pos <= data.len(),
    ensures
        match r {
            Ok((hs, p2)) => {
                &&& dec_uncles(data@, pos as int, n as nat) == Ok::<
                    (Seq<HeaderV>, int),
                    DecodeError,
                >((hs.deep_view(), p2 as int))
                &&& pos <= p2 <= data.len()
                &&& forall|k: int| 0 <= k < hs@.len() ==> (#[trigger] hs@[k].seal@.len()) * 9
                    <= data@.len()
            },
            Err(e) => dec_uncles(data@, pos as int, n as nat) == Err::<
                (Seq<HeaderV>, int),
                DecodeError,
            >(e),
        },
{
    let mut acc: Vec<Header> = Vec::new();
    let mut cur = pos;
    let mut i: u64 = 0;
    proof {
        assert(acc.deep_view() =~= Seq::<HeaderV>::empty());
    }
    while i < n
        invariant
            i <= n,
            pos <= cur <= data.len(),
            acc.deep_view().len() == i,
            acc@.len() == i,
            forall|k: int| 0 <= k < acc@.len() ==> (#[trigger] acc@[k].seal@.len()) * 9
                <= data@.len(),
            dec_uncles(data@, pos as int, n as nat) == (match dec_uncles(
                data@,
                cur as int,
                (n - i) as nat,
            ) {
                Ok((rest, end)) => Ok::<(Seq<HeaderV>, int), DecodeError>(
                    (acc.deep_view() + rest, end),
                ),
                Err(e) => Err(e),
            }),
        decreases n - i,
    {
        let ghost acc_old = acc.deep_view();
        let (h, p2) = match read_uncle(data, cur) {
            Err(e) => {
                return Err(e);
            },
            Ok(v) => v,
        };
        acc.push(h);
        proof {
            assert(acc.deep_view() =~= acc_old.push(h@));
            assert forall|rest: Seq<HeaderV>| true implies acc_old + (seq![h@] + rest)
                == acc_old.push(h@) + rest by {
                assert(acc_old + (seq![h@] + rest) =~= acc_old.push(h@) + rest);
            }
        }
        cur = p2;
        i += 1;
    }
    proof {
        assert(acc.deep_view() + Seq::<HeaderV>::empty() =~= acc.deep_view());
    }
    Ok((acc, cur))
}

/// Decodes uncompressed abridged wire bytes into a block, with the parent
/// hash and number supplied by the caller. Returns exactly what the
/// mathematical decoder returns on these bytes: the block on success, and
/// the first failure otherwise — never a partial block.
pub fn decode_block_bytes(data: &Vec<u8>, parent_hash: &Vec<u8>, number: u64) -> (r: Result<
    Block,
    DecodeError,
>)
    requires
        parent_hash@.len() == 32,
    ensures
        result_view(r) == dec_block(data@, parent_hash@, number),
{
    proof {
        reveal(dec_block);
    }
    let (cnt, p0) = match read_list_hdr(data, 0) {
        Err(e) => {
            return Err(e);
        },
        Ok(v) => v,
    };
    if cnt < 12 {
        return Err(DecodeError::WrongItemCount);
    }
    let (author, p1) = match read_fixed(data, p0, 20) {
        Err(e) => {
            return Err(e);
        },
        Ok(v) => v,
    };
    let (state_root, p2) = match read_fixed(data, p1, 32) {
        Err(e) => {
            return Err(e);
        },
        Ok(v) => v,
    };
    let (transactions_root, p3) = match read_fixed(data, p2, 32) {
        Err(e) => {
            return Err(e);
        },
        Ok(v) => v,
    };
    let (receipts_root, p4) = match read_fixed(data, p3, 32) {
        Err(e) => {
            return Err(e);
        },
        Ok(v) => v,
    };
    let (log_bloom, p5) = match read_fixed(data, p4, 256) {
        Err(e) => {
            return Err(e);
        },
        Ok(v) => v,
    };
    let (difficulty, p6) = match read_scalar(data, p5) {
        Err(e) => {
            return Err(e);
        },
        Ok(v) => v,
    };
    let (gas_limit, p7) = match read_scalar(data, p6) {
        Err(e) => {
            return Err(e);
        },
        Ok(v) => v,
    };
    let (gas_used, p8) = match read_scalar(data, p7) {
        Err(e) => {
            return Err(e);
        },
        Ok(v) => v,
    };
    let (timestamp, p9) = match read_u64_item(data, p8) {
        Err(e) => {
            return Err(e);
        },
        Ok(v) => v,
    };
    let (extra_data, p10) = match read_str(data, p9) {
        Err(e) => {
            return Err(e);
        },
        Ok(v) => v,
    };
    let (tn, p11) = match read_list_hdr(data, p10) {
        Err(e) => {
            return Err(e);
        },
        Ok(v) => v,
    };
    let (transactions, p12) = match read_txs(data, p11, tn) {
        Err(e) => {
            return Err(e);
        },
        Ok(v) => v,
    };
    let (un, p13) = match read_list_hdr(data, p12) {
        Err(e) => {
            return Err(e);
        },
        Ok(v) => v,
    };
    let (uncles, p14) = match read_uncles(data, p13, un) {
        Err(e) => {
            return Err(e);
        },
        Ok(v) => v,
    };
    let (seal, end) = match read_strs(data, p14, cnt - 12) {
        Err(e) => {
            return Err(e);
        },
        Ok(v) => v,
    };
    if end != data.len() {
        return Err(DecodeError::WrongItemCount);
    }
    proof {
        assert forall|k: int| 0 <= k < uncles@.len() implies #[trigger] uncles@[k].seal@.len()
            <= usize::MAX - 13 by {
            assert(uncles@[k].seal@.len() * 9 <= data@.len());
        }
    }
    let uncle_bytes = encode_uncle_list(&uncles);
    let uncles_hash = keccak256(uncle_bytes.as_slice());
    let parent = vstd::slice::slice_to_vec(parent_hash.as_slice());
    let header = Header {
        parent_hash: parent,
        author,
        state_root,
        transactions_root,
        receipts_root,
        log_bloom,
        difficulty,
        number,
        gas_limit,
        gas_used,
        timestamp,
        extra_data,
        uncles_hash,
        seal,
    };
    Ok((Block { header, transactions, uncles }))
}

/// A compact, parent-independent encoding of a block, ready to sit in a
/// snapshot chunk. Its bytes are exactly the compressed abridged wire list.
pub struct AbridgedBlock {
    compressed: Vec<u8>,
}

impl View for AbridgedBlock {
    type V = Seq<u8>;

    closed spec fn view(&self) -> Seq<u8> {
        self.compressed@
    }
}

impl AbridgedBlock {
    /// Wraps already-compressed bytes. Does no verification: validation is
    /// deferred entirely to `to_block`.
    pub fn from_raw(compressed: Vec<u8>) -> (r: Self)
        ensures
            r@ == compressed@,
    {
        AbridgedBlock { compressed }
    }

    /// Returns the inner bytes.
    pub fn into_inner(self) -> (r: Vec<u8>)
        ensures
            r@ == self@,
    {
        self.compressed
    }

    /// Fleshes out an abridged block with the provided parent hash and block
    /// number. Fails, with the reason, on any buffer that does not decompress
    /// and decode as a block; it never panics and never yields a partial
    /// block: whenever the buffer is the compression of bytes `x`, the result
    /// is exactly what the mathematical decoder returns on `x`, and any block
    /// it does return is one the mathematical decoder produces.
    pub fn to_block(&self, parent_hash: Vec<u8>, number: u64) -> (r: Result<Block, DecodeError>)
        requires
            parent_hash@.len() == 32,
        ensures
            forall|x: Seq<u8>| self@ == #[trigger] blocks_compressed(x) ==> result_view(r)
                == dec_block(x, parent_hash@, number),
            r matches Ok(b) ==> exists|x: Seq<u8>|
                #[trigger] dec_block(x, parent_hash@, number) == Ok::<BlockV, DecodeError>(b@),
    {
        match decompress_blocks(self.compressed.as_slice()) {
            None => Err(DecodeError::Corrupt),
            Some(d) => {
                let r = decode_block_bytes(&d, &parent_hash, number);
                proof {
                    if r is Ok {
                        assert(dec_block(d@, parent_hash@, number) == Ok::<BlockV, DecodeError>(
                            r->Ok_0@,
                        ));
                    }
                }
                r
            },
        }
    }

    /// Encodes a full block, trimming out the parent hash, the block number
    /// and the uncles hash, and compresses the result.
    pub fn from_block_view(block: &Block) -> (r: Self)
        requires
            block.header.seal@.len() <= usize::MAX - 12,
            forall|i: int| 0 <= i < block.uncles@.len() ==> #[trigger] block.uncles@[i].seal@.len()
                <= usize::MAX - 13,
        ensures
            r@ == blocks_compressed(enc_abridged(block@)),
    {
        let mut w: Vec<u8> = Vec::new();
        push_list_hdr(&mut w, 12 + block.header.seal.len());
        push_str_item(&mut w, block.header.author.as_slice());
        push_str_item(&mut w, block.header.state_root.as_slice());
        push_str_item(&mut w, block.header.transactions_root.as_slice());
        push_str_item(&mut w, block.header.receipts_root.as_slice());
        push_str_item(&mut w, block.header.log_bloom.as_slice());
        push_str_item(&mut w, block.header.difficulty.as_slice());
        push_str_item(&mut w, block.header.gas_limit.as_slice());
        push_str_item(&mut w, block.header.gas_used.as_slice());
        let ts_bytes = u64_to_le_bytes(block.header.timestamp);
        push_str_item(&mut w, ts_bytes.as_slice());
        push_str_item(&mut w, block.header.extra_data.as_slice());
        push_list_hdr(&mut w, block.transactions.len());
        encode_txs_into(&mut w, &block.transactions);
        push_list_hdr(&mut w, block.uncles.len());
        encode_uncles_into(&mut w, &block.uncles);
        encode_strs_into(&mut w, &block.header.seal);
        proof {
            let b = block@;
            assert(block.header.seal.deep_view().len() == block.header.seal@.len());
            assert(block.transactions.deep_view().len() == block.transactions@.len());
            assert(block.uncles.deep_view().len() == block.uncles@.len());
            let hdr = enc_list_hdr((12 + block.header.seal@.len()) as nat);
            let p1 = enc_str(b.header.author);
            let p2 = enc_str(b.header.state_root);
            let p3 = enc_str(b.header.transactions_root);
            let p4 = enc_str(b.header.receipts_root);
            let p5 = enc_str(b.header.log_bloom);
            let p6 = enc_str(b.header.difficulty);
            let p7 = enc_str(b.header.gas_limit);
            let p8 = enc_str(b.header.gas_used);
            let p9 = enc_str(spec_u64_to_le_bytes(b.header.timestamp));
            let p10 = enc_str(b.header.extra_data);
            let tlh = enc_list_hdr(b.transactions.len());
            let tx = enc_txs(b.transactions);
            let ulh = enc_list_hdr(b.uncles.len());
            let un = enc_uncles(b.uncles);
            let se = enc_strs(b.header.seal);
            let x = enc_tx_list(b.transactions);
            let u = enc_uncle_list(b.uncles);
            let l0 = Seq::<u8>::empty() + hdr;
            assert(l0 =~= hdr);
            let l1 = l0 + p1;
            let l2 = l1 + p2;
            let l3 = l2 + p3;
            let l4 = l3 + p4;
            let l5 = l4 + p5;
            let l6 = l5 + p6;
            let l7 = l6 + p7;
            let l8 = l7 + p8;
            let l9 = l8 + p9;
            let l10 = l9 + p10;
            assert(w@ == ((((l10 + tlh) + tx) + ulh) + un) + se);
            seq_assoc(l10, tlh, tx);
            let l11 = l10 + x;
            assert(((l10 + tlh) + tx) == l11);
            seq_assoc(l11, ulh, un);
            let l12 = l11 + u;
            assert(((l11 + ulh) + un) == l12);
            assert(w@ == l12 + se);
            let t12 = u + se;
            let t11 = x + t12;
            let t10 = p10 + t11;
            let t9 = p9 + t10;
            let t8 = p8 + t9;
            let t7 = p7 + t8;
            let t6 = p6 + t7;
            let t5 = p5 + t6;
            let t4 = p4 + t5;
            let t3 = p3 + t4;
            let t2 = p2 + t3;
            let t1 = p1 + t2;
            seq_assoc(l11, u, se);
            assert(l12 + se == l11 + t12);
            seq_assoc(l10, x, t12);
            assert(l11 + t12 == l10 + t11);
            seq_assoc(l9, p10, t11);
            assert(l10 + t11 == l9 + t10);
            seq_assoc(l8, p9, t10);
            assert(l9 + t10 == l8 + t9);
            seq_assoc(l7, p8, t9);
            assert(l8 + t9 == l7 + t8);
            seq_assoc(l6, p7, t8);
            assert(l7 + t8 == l6 + t7);
            seq_assoc(l5, p6, t7);
            assert(l6 + t7 == l5 + t6);
            seq_assoc(l4, p5, t6);
            assert(l5 + t6 == l4 + t5);
            seq_assoc(l3, p4, t5);
            assert(l4 + t5 == l3 + t4);
            seq_assoc(l2, p3, t4);
            assert(l3 + t4 == l2 + t3);
            seq_assoc(l1, p2, t3);
            assert(l2 + t3 == l1 + t2);
            seq_assoc(l0, p1, t2);
            assert(l1 + t2 == l0 + t1);
            assert(l0 + t1 =~= hdr + t1);
            assert(enc_abridged(b) == hdr + t1);
            assert(w@ == enc_abridged(block@));
        }
        let c = compress_blocks(w.as_slice());
        AbridgedBlock { compressed: c }
    }
}

/// The header that `Header::default` builds: zero context, zero roots, empty
/// scalars, no extra data, no seal, and the uncles hash of an empty uncle
/// list — so the uncles-hash invariant holds from the start.
pub open spec fn default_header_v() -> HeaderV {
    HeaderV {
        parent_hash: zero_bytes(32),
        author: zero_bytes(20),
        state_root: zero_bytes(32),
        transactions_root: zero_bytes(32),
        receipts_root: zero_bytes(32),
        log_bloom: zero_bytes(256),
        difficulty: Seq::empty(),
        number: 0,
        gas_limit: Seq::empty(),
        gas_used: Seq::empty(),
        timestamp: 0,
        extra_data: Seq::empty(),
        uncles_hash: keccak_of(enc_uncle_list(Seq::empty())),
        seal: Seq::empty(),
    }
}

/// The block that `Block::default` builds: a default header and no
/// transactions or uncles.
pub open spec fn default_block_v() -> BlockV {
    BlockV { header: default_header_v(), transactions: Seq::empty(), uncles: Seq::empty() }
}

// ---------------------------------------------------------------------------
// Decoding inverts encoding
// ---------------------------------------------------------------------------

/// Reading a fixed-width field where one was written recovers it.
proof fn lemma_dec_enc_fixed(s: Seq<u8>, pos: int, b: Seq<u8>, rest: Seq<u8>)
    requires
        0 <= pos,
        b.len() < 0x1_0000_0000_0000_0000,
        pos + enc_str(b).len() + rest.len() <= s.len(),
        s.subrange(pos, pos + enc_str(b).len() + rest.len()) == enc_str(b) + rest,
    ensures
        enc_str(b).len() == 9 + b.len(),
        dec_fixed(s, pos, b.len()) == Ok::<(Seq<u8>, int), DecodeError>((b, pos + 9 + b.len())),
        s.subrange(pos + 9 + b.len(), pos + 9 + b.len() + rest.len()) == rest,
{
    lemma_dec_enc_str(s, pos, b, rest);
}

/// Reading a scalar field where one was written recovers it.
proof fn lemma_dec_enc_scalar(s: Seq<u8>, pos: int, b: Seq<u8>, rest: Seq<u8>)
    requires
        0 <= pos,
        wf_scalar(b),
        pos + enc_str(b).len() + rest.len() <= s.len(),
        s.subrange(pos, pos + enc_str(b).len() + rest.len()) == enc_str(b) + rest,
    ensures
        enc_str(b).len() == 9 + b.len(),
        dec_scalar(s, pos) == Ok::<(Seq<u8>, int), DecodeError>((b, pos + 9 + b.len())),
        s.subrange(pos + 9 + b.len(), pos + 9 + b.len() + rest.len()) == rest,
{
    lemma_dec_enc_str(s, pos, b, rest);
}

/// Reading a 64-bit field where one was written recovers its value.
proof fn lemma_dec_enc_u64_item(s: Seq<u8>, pos: int, v: u64, rest: Seq<u8>)
    requires
        0 <= pos,
        pos + enc_str(spec_u64_to_le_bytes(v)).len() + rest.len() <= s.len(),
        s.subrange(pos, pos + enc_str(spec_u64_to_le_bytes(v)).len() + rest.len()) == enc_str(
            spec_u64_to_le_bytes(v),
        ) + rest,
    ensures
        enc_str(spec_u64_to_le_bytes(v)).len() == 17,
        dec_u64_item(s, pos) == Ok::<(u64, int), DecodeError>((v, pos + 17)),
        s.subrange(pos + 17, pos + 17 + rest.len()) == rest,
{
    vstd::bytes::lemma_auto_spec_u64_to_from_le_bytes();
    lemma_dec_enc_str(s, pos, spec_u64_to_le_bytes(v), rest);
}

/// Reading an action field where one was written recovers it.
proof fn lemma_dec_enc_action(s: Seq<u8>, pos: int, a: ActionV, rest: Seq<u8>)
    requires
        0 <= pos,
        crate::block::wf_action(a),
        pos + enc_str(action_bytes(a)).len() + rest.len() <= s.len(),
        s.subrange(pos, pos + enc_str(action_bytes(a)).len() + rest.len()) == enc_str(
            action_bytes(a),
        ) + rest,
    ensures
        enc_str(action_bytes(a)).len() == 9 + action_bytes(a).len(),
        dec_action(s, pos) == Ok::<(ActionV, int), DecodeError>(
            (a, pos + 9 + action_bytes(a).len()),
        ),
        s.subrange(
            pos + 9 + action_bytes(a).len(),
            pos + 9 + action_bytes(a).len() + rest.len(),
        ) == rest,
{
    lemma_dec_enc_str(s, pos, action_bytes(a), rest);
}

/// Reading a transaction where one was written recovers it.
#[verifier::spinoff_prover]
#[verifier::rlimit(100)]
proof fn lemma_dec_enc_tx(s: Seq<u8>, pos: int, t: TransactionV, rest: Seq<u8>)
    requires
        0 <= pos,
        wf_transaction(t),
        pos + enc_tx(t).len() + rest.len() <= s.len(),
        s.subrange(pos, pos + enc_tx(t).len() + rest.len()) == enc_tx(t) + rest,
    ensures
        dec_tx(s, pos) == Ok::<(TransactionV, int), DecodeError>((t, pos + enc_tx(t).len())),
        s.subrange(pos + enc_tx(t).len(), pos + enc_tx(t).len() + rest.len()) == rest,
{
    reveal(dec_tx);
    let q1 = enc_str(action_bytes(t.action));
    let q2 = enc_str(t.nonce);
    let q3 = enc_str(t.gas_price);
    let q4 = enc_str(t.gas);
    let q5 = enc_str(t.value);
    let q6 = enc_str(t.data);
    let q7 = enc_str(t.signature);
    let t6 = q6 + q7;
    let t5 = q5 + t6;
    let t4 = q4 + t5;
    let t3 = q3 + t4;
    let t2 = q2 + t3;
    let t1 = q1 + t2;
    let hdr = enc_list_hdr(7);
    assert(enc_tx(t) == hdr + t1);
    seq_assoc(hdr, t1, rest);
    lemma_enc_list_hdr_len(7);
    lemma_dec_enc_list_hdr(s, pos, 7, t1 + rest);
    let p0 = pos + 9;
    seq_assoc(q1, t2, rest);
    lemma_dec_enc_action(s, p0, t.action, t2 + rest);
    let p1 = p0 + q1.len();
    seq_assoc(q2, t3, rest);
    lemma_dec_enc_scalar(s, p1, t.nonce, t3 + rest);
    let p2 = p1 + q2.len();
    seq_assoc(q3, t4, rest);
    lemma_dec_enc_scalar(s, p2, t.gas_price, t4 + rest);
    let p3 = p2 + q3.len();
    seq_assoc(q4, t5, rest);
    lemma_dec_enc_scalar(s, p3, t.gas, t5 + rest);
    let p4 = p3 + q4.len();
    seq_assoc(q5, t6, rest);
    lemma_dec_enc_scalar(s, p4, t.value, t6 + rest);
    let p5 = p4 + q5.len();
    seq_assoc(q6, q7, rest);
    lemma_dec_enc_str(s, p5, t.data, q7 + rest);
    let p6 = p5 + q6.len();
    lemma_dec_enc_str(s, p6, t.signature, rest);
    let p7 = p6 + q7.len();
    assert(p7 == pos + enc_tx(t).len());
    assert(t == TransactionV {
        action: t.action,
        nonce: t.nonce,
        gas_price: t.gas_price,
        gas: t.gas,
        value: t.value,
        data: t.data,
        signature: t.signature,
    });
}

/// Reading `n` transactions where `n` were written recovers them, in order.
proof fn lemma_dec_enc_txs(s: Seq<u8>, pos: int, ts: Seq<TransactionV>, rest: Seq<u8>)
    requires
        0 <= pos,
        forall|i: int| 0 <= i < ts.len() ==> wf_transaction(#[trigger] ts[i]),
        pos + enc_txs(ts).len() + rest.len() <= s.len(),
        s.subrange(pos, pos + enc_txs(ts).len() + rest.len()) == enc_txs(ts) + rest,
    ensures
        dec_txs(s, pos, ts.len()) == Ok::<(Seq<TransactionV>, int), DecodeError>(
            (ts, pos + enc_txs(ts).len()),
        ),
        s.subrange(pos + enc_txs(ts).len(), pos + enc_txs(ts).len() + rest.len()) == rest,
    decreases ts.len(),
{
    if ts.len() == 0 {
        assert(ts =~= Seq::<TransactionV>::empty());
        assert(Seq::<u8>::empty() + rest =~= rest);
        assert(s.subrange(pos, pos + rest.len()) == rest);
    } else {
        let tl = ts.drop_first();
        assert(forall|i: int| 0 <= i < tl.len() ==> wf_transaction(#[trigger] tl[i]));
        seq_assoc(enc_tx(ts[0]), enc_txs(tl), rest);
        lemma_dec_enc_tx(s, pos, ts[0], enc_txs(tl) + rest);
        let p1 = pos + enc_tx(ts[0]).len();
        lemma_dec_enc_txs(s, p1, tl, rest);
        assert(seq![ts[0]] + tl =~= ts);
    }
}

/// Reading `n` byte strings where `n` were written recovers them, in order.
proof fn lemma_dec_enc_strs(s: Seq<u8>, pos: int, ss: Seq<Seq<u8>>, rest: Seq<u8>)
    requires
        0 <= pos,
        forall|i: int| 0 <= i < ss.len() ==> fits_len(#[trigger] ss[i].len()),
        pos + enc_strs(ss).len() + rest.len() <= s.len(),
        s.subrange(pos, pos + enc_strs(ss).len() + rest.len()) == enc_strs(ss) + rest,
    ensures
        dec_strs(s, pos, ss.len()) == Ok::<(Seq<Seq<u8>>, int), DecodeError>(
            (ss, pos + enc_strs(ss).len()),
        ),
        s.subrange(pos + enc_strs(ss).len(), pos + enc_strs(ss).len() + rest.len()) == rest,
    decreases ss.len(),
{
    if ss.len() == 0 {
        assert(ss =~= Seq::<Seq<u8>>::empty());
        assert(Seq::<u8>::empty() + rest =~= rest);
        assert(s.subrange(pos, pos + rest.len()) == rest);
    } else {
        let tl = ss.drop_first();
        assert(forall|i: int| 0 <= i < tl.len() ==> fits_len(#[trigger] tl[i].len()));
        seq_assoc(enc_str(ss[0]), enc_strs(tl), rest);
        lemma_dec_enc_str(s, pos, ss[0], enc_strs(tl) + rest);
        let p1 = pos + 9 + ss[0].len();
        lemma_dec_enc_strs(s, p1, tl, rest);
        assert(seq![ss[0]] + tl =~= ss);
    }
}

/// Reading a full header where one was written recovers it.
#[verifier::spinoff_prover]
#[verifier::rlimit(100)]
proof fn lemma_dec_enc_uncle(s: Seq<u8>, pos: int, h: HeaderV, rest: Seq<u8>)
    requires
        0 <= pos,
        wf_header(h),
        pos + enc_uncle(h).len() + rest.len() <= s.len(),
        s.subrange(pos, pos + enc_uncle(h).len() + rest.len()) == enc_uncle(h) + rest,
    ensures
        dec_uncle(s, pos) == Ok::<(HeaderV, int), DecodeError>((h, pos + enc_uncle(h).len())),
        s.subrange(pos + enc_uncle(h).len(), pos + enc_uncle(h).len() + rest.len()) == rest,
{
    reveal(dec_uncle);
    let q1 = enc_str(h.parent_hash);
    let q2 = enc_str(h.author);
    let q3 = enc_str(h.state_root);
    let q4 = enc_str(h.transactions_root);
    let q5 = enc_str(h.receipts_root);
    let q6 = enc_str(h.log_bloom);
    let q7 = enc_str(h.difficulty);
    let q8 = enc_str(spec_u64_to_le_bytes(h.number));
    let q9 = enc_str(h.gas_limit);
    let q10 = enc_str(h.gas_used);
    let q11 = enc_str(spec_u64_to_le_bytes(h.timestamp));
    let q12 = enc_str(h.extra_data);
    let q13 = enc_str(h.uncles_hash);
    let se = enc_strs(h.seal);
    let t13 = q13 + se;
    let t12 = q12 + t13;
    let t11 = q11 + t12;
    let t10 = q10 + t11;
    let t9 = q9 + t10;
    let t8 = q8 + t9;
    let t7 = q7 + t8;
    let t6 = q6 + t7;
    let t5 = q5 + t6;
    let t4 = q4 + t5;
    let t3 = q3 + t4;
    let t2 = q2 + t3;
    let t1 = q1 + t2;
    let n: nat = 13 + h.seal.len();
    let hdr = enc_list_hdr(n);
    assert(enc_uncle(h) == hdr + t1);
    seq_assoc(hdr, t1, rest);
    lemma_enc_list_hdr_len(n);
    lemma_dec_enc_list_hdr(s, pos, n, t1 + rest);
    let p0 = pos + 9;
    seq_assoc(q1, t2, rest);
    lemma_dec_enc_fixed(s, p0, h.parent_hash, t2 + rest);
    let p1 = p0 + q1.len();
    seq_assoc(q2, t3, rest);
    lemma_dec_enc_fixed(s, p1, h.author, t3 + rest);
    let p2 = p1 + q2.len();
    seq_assoc(q3, t4, rest);
    lemma_dec_enc_fixed(s, p2, h.state_root, t4 + rest);
    let p3 = p2 + q3.len();
    seq_assoc(q4, t5, rest);
    lemma_dec_enc_fixed(s, p3, h.transactions_root, t5 + rest);
    let p4 = p3 + q4.len();
    seq_assoc(q5, t6, rest);
    lemma_dec_enc_fixed(s, p4, h.receipts_root, t6 + rest);
    let p5 = p4 + q5.len();
    seq_assoc(q6, t7, rest);
    lemma_dec_enc_fixed(s, p5, h.log_bloom, t7 + rest);
    let p6 = p5 + q6.len();
    seq_assoc(q7, t8, rest);
    lemma_dec_enc_scalar(s, p6, h.difficulty, t8 + rest);
    let p7 = p6 + q7.len();
    seq_assoc(q8, t9, rest);
    lemma_dec_enc_u64_item(s, p7, h.number, t9 + rest);
    let p8 = p7 + q8.len();
    seq_assoc(q9, t10, rest);
    lemma_dec_enc_scalar(s, p8, h.gas_limit, t10 + rest);
    let p9 = p8 + q9.len();
    seq_assoc(q10, t11, rest);
    lemma_dec_enc_scalar(s, p9, h.gas_used, t11 + rest);
    let p10 = p9 + q10.len();
    seq_assoc(q11, t12, rest);
    lemma_dec_enc_u64_item(s, p10, h.timestamp, t12 + rest);
    let p11 = p10 + q11.len();
    seq_assoc(q12, t13, rest);
    lemma_dec_enc_str(s, p11, h.extra_data, t13 + rest);
    let p12 = p11 + q12.len();
    seq_assoc(q13, se, rest);
    lemma_dec_enc_fixed(s, p12, h.uncles_hash, se + rest);
    let p13 = p12 + q13.len();
    lemma_dec_enc_strs(s, p13, h.seal, rest);
    let end = p13 + se.len();
    assert(end == pos + enc_uncle(h).len());
    assert((n - 13) as nat == h.seal.len());
    assert(h == HeaderV {
        parent_hash: h.parent_hash,
        author: h.author,
        state_root: h.state_root,
        transactions_root: h.transactions_root,
        receipts_root: h.receipts_root,
        log_bloom: h.log_bloom,
        difficulty: h.difficulty,
        number: h.number,
        gas_limit: h.gas_limit,
        gas_used: h.gas_used,
        timestamp: h.timestamp,
        extra_data: h.extra_data,
        uncles_hash: h.uncles_hash,
        seal: h.seal,
    });
}

/// Reading `n` uncle headers where `n` were written recovers them, in order.
proof fn lemma_dec_enc_uncles(s: Seq<u8>, pos: int, us: Seq<HeaderV>, rest: Seq<u8>)
    requires
        0 <= pos,
        forall|i: int| 0 <= i < us.len() ==> wf_header(#[trigger] us[i]),
        pos + enc_uncles(us).len() + rest.len() <= s.len(),
        s.subrange(pos, pos + enc_uncles(us).len() + rest.len()) == enc_uncles(us) + rest,
    ensures
        dec_uncles(s, pos, us.len()) == Ok::<(Seq<HeaderV>, int), DecodeError>(
            (us, pos + enc_uncles(us).len()),
        ),
        s.subrange(pos + enc_uncles(us).len(), pos + enc_uncles(us).len() + rest.len()) == rest,
    decreases us.len(),
{
    if us.len() == 0 {
        assert(us =~= Seq::<HeaderV>::empty());
        assert(Seq::<u8>::empty() + rest =~= rest);
        assert(s.subrange(pos, pos + rest.len()) == rest);
    } else {
        let tl = us.drop_first();
        assert(forall|i: int| 0 <= i < tl.len() ==> wf_header(#[trigger] tl[i]));
        seq_assoc(enc_uncle(us[0]), enc_uncles(tl), rest);
        lemma_dec_enc_uncle(s, pos, us[0], enc_uncles(tl) + rest);
        let p1 = pos + enc_uncle(us[0]).len();
        lemma_dec_enc_uncles(s, p1, tl, rest);
        assert(seq![us[0]] + tl =~= us);
    }
}

/// The block that decoding an encodable block's bytes yields under the
/// context `parent_hash` and `number`: the encoded block with those two
/// fields substituted and the uncles hash freshly derived.
pub open spec fn with_context(b: BlockV, parent_hash: Seq<u8>, number: u64) -> BlockV {
    BlockV {
        header: HeaderV {
            parent_hash,
            author: b.header.author,
            state_root: b.header.state_root,
            transactions_root: b.header.transactions_root,
            receipts_root: b.header.receipts_root,
            log_bloom: b.header.log_bloom,
            difficulty: b.header.difficulty,
            number,
            gas_limit: b.header.gas_limit,
            gas_used: b.header.gas_used,
            timestamp: b.header.timestamp,
            extra_data: b.header.extra_data,
            uncles_hash: keccak_of(enc_uncle_list(b.uncles)),
            seal: b.header.seal,
        },
        transactions: b.transactions,
        uncles: b.uncles,
    }
}

/// The leading list header and the five fixed-width fields of the abridged
/// bytes, and what reading each of them yields.
#[verifier::spinoff_prover]
#[verifier::rlimit(100)]
proof fn lemma_dec_enc_block_fixed(b: BlockV)
    requires
        encodable_block(b),
    ensures
        ({
            let s = enc_abridged(b);
            let h = b.header;
            let tail6 = enc_str(h.difficulty) + (enc_str(h.gas_limit) + (enc_str(h.gas_used) + (
            enc_str(spec_u64_to_le_bytes(h.timestamp)) + (enc_str(h.extra_data) + (enc_tx_list(
                b.transactions,
            ) + (enc_uncle_list(b.uncles) + enc_strs(h.seal)))))));
            &&& dec_list_hdr(s, 0) == Ok::<(u64, int), DecodeError>(
                ((12 + h.seal.len()) as u64, 9),
            )
            &&& dec_fixed(s, 9, 20) == Ok::<(Seq<u8>, int), DecodeError>((h.author, 38))
            &&& dec_fixed(s, 38, 32) == Ok::<(Seq<u8>, int), DecodeError>((h.state_root, 79))
            &&& dec_fixed(s, 79, 32) == Ok::<(Seq<u8>, int), DecodeError>(
                (h.transactions_root, 120),
            )
            &&& dec_fixed(s, 120, 32) == Ok::<(Seq<u8>, int), DecodeError>((h.receipts_root, 161))
            &&& dec_fixed(s, 161, 256) == Ok::<(Seq<u8>, int), DecodeError>((h.log_bloom, 426))
            &&& s.len() == 426 + tail6.len()
            &&& s.subrange(426, s.len() as int) == tail6
        }),
{
    let s = enc_abridged(b);
    let h = b.header;
    let q1 = enc_str(h.author);
    let q2 = enc_str(h.state_root);
    let q3 = enc_str(h.transactions_root);
    let q4 = enc_str(h.receipts_root);
    let q5 = enc_str(h.log_bloom);
    let q6 = enc_str(h.difficulty);
    let q7 = enc_str(h.gas_limit);
    let q8 = enc_str(h.gas_used);
    let q9 = enc_str(spec_u64_to_le_bytes(h.timestamp));
    let q10 = enc_str(h.extra_data);
    let xl = enc_tx_list(b.transactions);
    let ul = enc_uncle_list(b.uncles);
    let se = enc_strs(h.seal);
    let t12 = ul + se;
    let t11 = xl + t12;
    let t10 = q10 + t11;
    let t9 = q9 + t10;
    let t8 = q8 + t9;
    let t7 = q7 + t8;
    let t6 = q6 + t7;
    let t5 = q5 + t6;
    let t4 = q4 + t5;
    let t3 = q3 + t4;
    let t2 = q2 + t3;
    let t1 = q1 + t2;
    let n: nat = 12 + h.seal.len();
    let hdr = enc_list_hdr(n);
    assert(s == hdr + t1);
    lemma_enc_list_hdr_len(n);
    assert(s.subrange(0, (9 + t1.len()) as int) =~= s);
    lemma_dec_enc_list_hdr(s, 0, n, t1);
    lemma_dec_enc_fixed(s, 9, h.author, t2);
    lemma_dec_enc_fixed(s, 38, h.state_root, t3);
    lemma_dec_enc_fixed(s, 79, h.transactions_root, t4);
    lemma_dec_enc_fixed(s, 120, h.receipts_root, t5);
    lemma_dec_enc_fixed(s, 161, h.log_bloom, t6);
    assert(s.subrange(426, s.len() as int) == t6);
}

/// Positions of the three scalar fields inside the abridged bytes, and what
/// reading each of them yields.
#[verifier::spinoff_prover]
#[verifier::rlimit(100)]
proof fn lemma_dec_enc_block_scalars(b: BlockV)
    requires
        encodable_block(b),
    ensures
        ({
            let s = enc_abridged(b);
            let h = b.header;
            let p6: int = 426 + 9 + h.difficulty.len() as int;
            let p7: int = p6 + 9 + h.gas_limit.len();
            let p8: int = p7 + 9 + h.gas_used.len();
            let tail8 = enc_str(spec_u64_to_le_bytes(h.timestamp)) + (enc_str(h.extra_data) + (
            enc_tx_list(b.transactions) + (enc_uncle_list(b.uncles) + enc_strs(h.seal))));
            &&& dec_scalar(s, 426) == Ok::<(Seq<u8>, int), DecodeError>((h.difficulty, p6))
            &&& dec_scalar(s, p6) == Ok::<(Seq<u8>, int), DecodeError>((h.gas_limit, p7))
            &&& dec_scalar(s, p7) == Ok::<(Seq<u8>, int), DecodeError>((h.gas_used, p8))
            &&& s.len() == p8 + tail8.len()
            &&& s.subrange(p8, s.len() as int) == tail8
        }),
{
    lemma_dec_enc_block_fixed(b);
    let s = enc_abridged(b);
    let h = b.header;
    let q9 = enc_str(spec_u64_to_le_bytes(h.timestamp));
    let q10 = enc_str(h.extra_data);
    let xl = enc_tx_list(b.transactions);
    let ul = enc_uncle_list(b.uncles);
    let se = enc_strs(h.seal);
    let t12 = ul + se;
    let t11 = xl + t12;
    let t10 = q10 + t11;
    let t9 = q9 + t10;
    let t8 = enc_str(h.gas_used) + t9;
    let t7 = enc_str(h.gas_limit) + t8;
    lemma_dec_enc_scalar(s, 426, h.difficulty, t7);
    let p6: int = 426 + 9 + h.difficulty.len() as int;
    lemma_dec_enc_scalar(s, p6, h.gas_limit, t8);
    let p7 = p6 + 9 + h.gas_limit.len();
    lemma_dec_enc_scalar(s, p7, h.gas_used, t9);
    let p8 = p7 + 9 + h.gas_used.len();
    assert(s.subrange(p8, s.len() as int) == t9);
}

/// Positions of the timestamp and extra-data fields inside the abridged
/// bytes, what reading them yields, and where the three list tails start.
#[verifier::spinoff_prover]
#[verifier::rlimit(100)]
proof fn lemma_dec_enc_block_prefix(b: BlockV)
    requires
        encodable_block(b),
    ensures
        ({
            let s = enc_abridged(b);
            let h = b.header;
            let p6: int = 426 + 9 + h.difficulty.len() as int;
            let p7: int = p6 + 9 + h.gas_limit.len();
            let p8: int = p7 + 9 + h.gas_used.len();
            let p9: int = p8 + 17;
            let p10: int = p9 + 9 + h.extra_data.len();
            let tail = enc_tx_list(b.transactions) + (enc_uncle_list(b.uncles) + enc_strs(h.seal));
            &&& dec_u64_item(s, p8) == Ok::<(u64, int), DecodeError>((h.timestamp, p9))
            &&& dec_str(s, p9) == Ok::<(Seq<u8>, int), DecodeError>((h.extra_data, p10))
            &&& s.len() == p10 + tail.len()
            &&& s.subrange(p10, s.len() as int) == tail
        }),
{
    lemma_dec_enc_block_scalars(b);
    let s = enc_abridged(b);
    let h = b.header;
    let q10 = enc_str(h.extra_data);
    let xl = enc_tx_list(b.transactions);
    let ul = enc_uncle_list(b.uncles);
    let se = enc_strs(h.seal);
    let t12 = ul + se;
    let t11 = xl + t12;
    let t10 = q10 + t11;
    let p8: int = 426 + 9 + h.difficulty.len() as int + 9 + h.gas_limit.len() + 9
        + h.gas_used.len();
    lemma_dec_enc_u64_item(s, p8, h.timestamp, t10);
    let p9 = p8 + 17;
    lemma_dec_enc_str(s, p9, h.extra_data, t11);
    let p10 = p9 + 9 + h.extra_data.len();
    assert(s.subrange(p10, s.len() as int) == t11);
}

/// Position of the transaction list inside the abridged bytes, and what
/// reading it yields.
#[verifier::spinoff_prover]
#[verifier::rlimit(100)]
proof fn lemma_dec_enc_block_txs(b: BlockV)
    requires
        encodable_block(b),
    ensures
        ({
            let s = enc_abridged(b);
            let h = b.header;
            let p10: int = 426 + 9 + h.difficulty.len() as int + 9 + h.gas_limit.len() + 9
                + h.gas_used.len() + 17 + 9 + h.extra_data.len();
            let p11: int = p10 + 9;
            let p12: int = p11 + enc_txs(b.transactions).len();
            let tail12 = enc_uncle_list(b.uncles) + enc_strs(h.seal);
            &&& dec_list_hdr(s, p10) == Ok::<(u64, int), DecodeError>(
                (b.transactions.len() as u64, p11),
            )
            &&& dec_txs(s, p11, b.transactions.len()) == Ok::<
                (Seq<TransactionV>, int),
                DecodeError,
            >((b.transactions, p12))
            &&& s.len() == p12 + tail12.len()
            &&& s.subrange(p12, s.len() as int) == tail12
        }),
{
    lemma_dec_enc_block_prefix(b);
    let s = enc_abridged(b);
    let h = b.header;
    let p10: int = 426 + 9 + h.difficulty.len() as int + 9 + h.gas_limit.len() + 9
        + h.gas_used.len() + 17 + 9 + h.extra_data.len();
    let xl = enc_tx_list(b.transactions);
    let ul = enc_uncle_list(b.uncles);
    let se = enc_strs(h.seal);
    let t12 = ul + se;
    let tx_body = enc_txs(b.transactions);
    assert(xl == enc_list_hdr(b.transactions.len()) + tx_body);
    seq_assoc(enc_list_hdr(b.transactions.len()), tx_body, t12);
    lemma_enc_list_hdr_len(b.transactions.len());
    lemma_dec_enc_list_hdr(s, p10, b.transactions.len(), tx_body + t12);
    let p11 = p10 + 9;
    lemma_dec_enc_txs(s, p11, b.transactions, t12);
    let p12 = p11 + tx_body.len();
    assert(s.subrange(p12, s.len() as int) == t12);
}

/// Position of the uncle list inside the abridged bytes, and what reading it
/// yields.
#[verifier::spinoff_prover]
#[verifier::rlimit(100)]
proof fn lemma_dec_enc_block_uncles(b: BlockV)
    requires
        encodable_block(b),
    ensures
        ({
            let s = enc_abridged(b);
            let h = b.header;
            let p10: int = 426 + 9 + h.difficulty.len() as int + 9 + h.gas_limit.len() + 9
                + h.gas_used.len() + 17 + 9 + h.extra_data.len();
            let p11: int = p10 + 9;
            let p12: int = p11 + enc_txs(b.transactions).len();
            let p13: int = p12 + 9;
            let p14: int = p13 + enc_uncles(b.uncles).len();
            &&& dec_list_hdr(s, p12) == Ok::<(u64, int), DecodeError>(
                (b.uncles.len() as u64, p13),
            )
            &&& dec_uncles(s, p13, b.uncles.len()) == Ok::<(Seq<HeaderV>, int), DecodeError>(
                (b.uncles, p14),
            )
            &&& s.len() == p14 + enc_strs(h.seal).len()
            &&& s.subrange(p14, s.len() as int) == enc_strs(h.seal)
        }),
{
    lemma_dec_enc_block_txs(b);
    let s = enc_abridged(b);
    let h = b.header;
    let p10: int = 426 + 9 + h.difficulty.len() as int + 9 + h.gas_limit.len() + 9
        + h.gas_used.len() + 17 + 9 + h.extra_data.len();
    let p12: int = p10 + 9 + enc_txs(b.transactions).len();
    let ul = enc_uncle_list(b.uncles);
    let se = enc_strs(h.seal);
    let un_body = enc_uncles(b.uncles);
    assert(ul == enc_list_hdr(b.uncles.len()) + un_body);
    seq_assoc(enc_list_hdr(b.uncles.len()), un_body, se);
    lemma_enc_list_hdr_len(b.uncles.len());
    lemma_dec_enc_list_hdr(s, p12, b.uncles.len(), un_body + se);
    let p13 = p12 + 9;
    lemma_dec_enc_uncles(s, p13, b.uncles, se);
    let p14 = p13 + un_body.len();
    assert(s.subrange(p14, s.len() as int) == se);
}

/// Position of the seal fields inside the abridged bytes, and what reading
/// them yields.
#[verifier::spinoff_prover]
#[verifier::rlimit(100)]
proof fn lemma_dec_enc_block_lists(b: BlockV)
    requires
        encodable_block(b),
    ensures
        ({
            let s = enc_abridged(b);
            let h = b.header;
            let p10: int = 426 + 9 + h.difficulty.len() as int + 9 + h.gas_limit.len() + 9
                + h.gas_used.len() + 17 + 9 + h.extra_data.len();
            let p14: int = p10 + 9 + enc_txs(b.transactions).len() + 9 + enc_uncles(
                b.uncles,
            ).len();
            &&& dec_strs(s, p14, h.seal.len()) == Ok::<(Seq<Seq<u8>>, int), DecodeError>(
                (h.seal, s.len() as int),
            )
        }),
{
    lemma_dec_enc_block_uncles(b);
    let s = enc_abridged(b);
    let h = b.header;
    let p14: int = 426 + 9 + h.difficulty.len() as int + 9 + h.gas_limit.len() + 9
        + h.gas_used.len() + 17 + 9 + h.extra_data.len() + 9 + enc_txs(b.transactions).len() + 9
        + enc_uncles(b.uncles).len();
    let se = enc_strs(h.seal);
    assert(se + Seq::<u8>::empty() =~= se);
    lemma_dec_enc_strs(s, p14, h.seal, Seq::<u8>::empty());
    assert(p14 + se.len() == s.len());
}

/// Decoding the abridged bytes of any encodable block succeeds under any
/// context, and yields exactly the block with that context substituted.
#[verifier::spinoff_prover]
#[verifier::rlimit(100)]
pub proof fn lemma_dec_enc_block(b: BlockV, parent_hash: Seq<u8>, number: u64)
    requires
        encodable_block(b),
    ensures
        dec_block(enc_abridged(b), parent_hash, number) == Ok::<BlockV, DecodeError>(
            with_context(b, parent_hash, number),
        ),
{
    reveal(dec_block);
    lemma_dec_enc_block_fixed(b);
    lemma_dec_enc_block_scalars(b);
    lemma_dec_enc_block_prefix(b);
    lemma_dec_enc_block_txs(b);
    lemma_dec_enc_block_uncles(b);
    lemma_dec_enc_block_lists(b);
    let h = b.header;
    let n: nat = 12 + h.seal.len();
    assert((n - 12) as nat == h.seal.len());
    assert((b.transactions.len() as u64) as nat == b.transactions.len());
    assert((b.uncles.len() as u64) as nat == b.uncles.len());
}

// ---------------------------------------------------------------------------
// The codec's laws
// ---------------------------------------------------------------------------

/// Whatever bytes decode successfully, the decoded header's uncles hash is
/// the digest of the decoded uncle list's encoding — never a stored value.
pub proof fn lemma_uncles_hash_invariant(data: Seq<u8>, parent_hash: Seq<u8>, number: u64)
    ensures
        dec_block(data, parent_hash, number) matches Ok(bv) ==> bv.header.uncles_hash == keccak_of(
            enc_uncle_list(bv.uncles),
        ),
{
    reveal(dec_block);
}

/// Decoding under a substituted context yields the encoded block with
/// exactly the parent hash and number replaced (and the uncles hash freshly
/// derived); and when the number differs, the result is a different block.
pub proof fn lemma_context_substitution(b: BlockV, parent_hash: Seq<u8>, number: u64)
    requires
        encodable_block(b),
    ensures
        dec_block(enc_abridged(b), parent_hash, number) == Ok::<BlockV, DecodeError>(
            with_context(b, parent_hash, number),
        ),
        number != b.header.number ==> with_context(b, parent_hash, number) != b,
{
    lemma_dec_enc_block(b, parent_hash, number);
}

/// Round trip: decoding an encoded well-formed block under its own parent
/// hash and number yields the block itself.
pub proof fn lemma_round_trip(b: BlockV)
    requires
        wf_block(b),
    ensures
        dec_block(enc_abridged(b), b.header.parent_hash, b.header.number) == Ok::<
            BlockV,
            DecodeError,
        >(b),
{
    lemma_dec_enc_block(b, b.header.parent_hash, b.header.number);
    assert(with_context(b, b.header.parent_hash, b.header.number) =~= b);
}

/// Seal fidelity: under any context, round trip preserves the count, the
/// order and the exact bytes of every seal field.
pub proof fn lemma_seal_fidelity(b: BlockV, parent_hash: Seq<u8>, number: u64)
    requires
        encodable_block(b),
    ensures
        ({
            let r = dec_block(enc_abridged(b), parent_hash, number);
            &&& r is Ok
            &&& r->Ok_0.header.seal == b.header.seal
        }),
{
    lemma_dec_enc_block(b, parent_hash, number);
}

/// Transaction fidelity: under any context, round trip preserves the ordered
/// transaction sequence with every field of every transaction.
pub proof fn lemma_transaction_fidelity(b: BlockV, parent_hash: Seq<u8>, number: u64)
    requires
        encodable_block(b),
    ensures
        ({
            let r = dec_block(enc_abridged(b), parent_hash, number);
            &&& r is Ok
            &&& r->Ok_0.transactions == b.transactions
        }),
{
    lemma_dec_enc_block(b, parent_hash, number);
}

impl Default for Header {
    /// The default header; its uncles hash is the digest of an encoded empty
    /// uncle list, so it is well formed on its own.
    fn default() -> (r: Header)
        ensures
            r@ == default_header_v(),
            r@.uncles_hash.len() == 32,
    {
        let no_uncles: Vec<Header> = Vec::new();
        let uncle_bytes = encode_uncle_list(&no_uncles);
        proof {
            assert(no_uncles.deep_view() =~= Seq::<HeaderV>::empty());
        }
        let uncles_hash = keccak256(uncle_bytes.as_slice());
        let r = Header {
            parent_hash: zero_bytes_vec(32),
            author: zero_bytes_vec(20),
            state_root: zero_bytes_vec(32),
            transactions_root: zero_bytes_vec(32),
            receipts_root: zero_bytes_vec(32),
            log_bloom: zero_bytes_vec(256),
            difficulty: Vec::new(),
            number: 0,
            gas_limit: Vec::new(),
            gas_used: Vec::new(),
            timestamp: 0,
            extra_data: Vec::new(),
            uncles_hash,
            seal: Vec::new(),
        };
        proof {
            assert(r.seal.deep_view() =~= Seq::<Seq<u8>>::empty());
            assert(r.difficulty@ =~= Seq::<u8>::empty());
            assert(r.gas_limit@ =~= Seq::<u8>::empty());
            assert(r.gas_used@ =~= Seq::<u8>::empty());
            assert(r.extra_data@ =~= Seq::<u8>::empty());
        }
        r
    }
}

impl Default for Block {
    /// The default block: a default header, no transactions, no uncles. It is
    /// well formed, so it round-trips through the codec.
    fn default() -> (r: Block)
        ensures
            r@ == default_block_v(),
            r@.header.uncles_hash.len() == 32,
    {
        let r = Block { header: Header::default(), transactions: Vec::new(), uncles: Vec::new() };
        proof {
            assert(r.transactions.deep_view() =~= Seq::<TransactionV>::empty());
            assert(r.uncles.deep_view() =~= Seq::<HeaderV>::empty());
        }
        r
    }
}

} // verus!
