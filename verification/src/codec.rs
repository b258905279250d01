use vstd::prelude::*;
use vstd::bytes::*;
use vstd::slice::*;
use vstd::utf8::*;
use vstd::string::StrSliceExecFns;
use crate::transaction::{Transaction, TransactionView};
use crate::block::{Block, BlockView};
use crate::p2p::{Message, MessageView};

verus! {

// ---------------------------------------------------------------------------
// Encoding specifications. Every value is laid out as a fixed, language
// neutral byte string: integers little-endian, byte strings and character
// strings with a 64-bit length prefix.
// ---------------------------------------------------------------------------
pub open spec fn spec_enc_u64(x: u64) -> Seq<u8> {
    spec_u64_to_le_bytes(x)
}

pub open spec fn spec_enc_u128(x: u128) -> Seq<u8> {
    spec_u128_to_le_bytes(x)
}

pub open spec fn spec_enc_bytes(b: Seq<u8>) -> Seq<u8> {
    spec_enc_u64(b.len() as u64) + b
}

pub open spec fn spec_enc_str(s: Seq<char>) -> Seq<u8> {
    spec_enc_bytes(encode_utf8(s))
}

/// The 64-bit length prefixes bound what a single field can carry.
pub open spec fn bytes_fit(b: Seq<u8>) -> bool {
    b.len() <= u64::MAX
}

pub open spec fn str_fits(s: Seq<char>) -> bool {
    encode_utf8(s).len() <= u64::MAX
}

// ---------------------------------------------------------------------------
// Decoding specifications, in remainder style: a decoder takes the bytes
// still to be read and yields the decoded value plus the bytes after it.
// ---------------------------------------------------------------------------
pub open spec fn spec_dec_u64(s: Seq<u8>) -> Option<(u64, Seq<u8>)> {
    if s.len() >= 8 {
        Some((spec_u64_from_le_bytes(s.take(8)), s.skip(8)))
    } else {
        None
    }
}

pub open spec fn spec_dec_u128(s: Seq<u8>) -> Option<(u128, Seq<u8>)> {
    if s.len() >= 16 {
        Some((spec_u128_from_le_bytes(s.take(16)), s.skip(16)))
    } else {
        None
    }
}

pub open spec fn spec_dec_bytes(s: Seq<u8>) -> Option<(Seq<u8>, Seq<u8>)> {
    match spec_dec_u64(s) {
        Some((n, r)) => if n <= r.len() {
            Some((r.take(n as int), r.skip(n as int)))
        } else {
            None
        },
        None => None,
    }
}

pub open spec fn spec_dec_str(s: Seq<u8>) -> Option<(Seq<char>, Seq<u8>)> {
    match spec_dec_bytes(s) {
        Some((b, r)) => if valid_utf8(b) {
            Some((decode_utf8(b), r))
        } else {
            None
        },
        None => None,
    }
}

// ---------------------------------------------------------------------------
// Round-trip lemmas for the primitives: decoding an encoding, followed by
// anything, yields the encoded value and leaves exactly the rest.
// ---------------------------------------------------------------------------
pub proof fn lemma_dec_enc_u64(x: u64, rest: Seq<u8>)
    ensures
        spec_dec_u64(spec_enc_u64(x) + rest) == Some((x, rest)),
{
    lemma_auto_spec_u64_to_from_le_bytes();
    let s = spec_enc_u64(x) + rest;
    assert(s.take(8) =~= spec_enc_u64(x));
    assert(s.skip(8) =~= rest);
}

pub proof fn lemma_dec_enc_u128(x: u128, rest: Seq<u8>)
    ensures
        spec_dec_u128(spec_enc_u128(x) + rest) == Some((x, rest)),
{
    lemma_auto_spec_u128_to_from_le_bytes();
    let s = spec_enc_u128(x) + rest;
    assert(s.take(16) =~= spec_enc_u128(x));
    assert(s.skip(16) =~= rest);
}

pub proof fn lemma_dec_enc_bytes(b: Seq<u8>, rest: Seq<u8>)
    requires
        bytes_fit(b),
    ensures
        spec_dec_bytes(spec_enc_bytes(b) + rest) == Some((b, rest)),
{
    let n = b.len() as u64;
    assert(spec_enc_bytes(b) + rest =~= spec_enc_u64(n) + (b + rest));
    lemma_dec_enc_u64(n, b + rest);
    assert((b + rest).take(n as int) =~= b);
    assert((b + rest).skip(n as int) =~= rest);
}

pub proof fn lemma_dec_enc_str(t: Seq<char>, rest: Seq<u8>)
    requires
        str_fits(t),
    ensures
        spec_dec_str(spec_enc_str(t) + rest) == Some((t, rest)),
{
    lemma_dec_enc_bytes(encode_utf8(t), rest);
    encode_utf8_valid_utf8(t);
    encode_utf8_decode_utf8(t);
}

// ---------------------------------------------------------------------------
// Executable encoders, appending to an output buffer.
// ---------------------------------------------------------------------------
pub fn enc_u64_into(out: &mut Vec<u8>, x: u64)
    ensures
        final(out)@ == old(out)@ + spec_enc_u64(x),
{
    let mut b = u64_to_le_bytes(x);
    out.append(&mut b);
}

pub fn enc_u128_into(out: &mut Vec<u8>, x: u128)
    ensures
        final(out)@ == old(out)@ + spec_enc_u128(x),
{
    let mut b = u128_to_le_bytes(x);
    out.append(&mut b);
}

pub fn enc_bytes_into(out: &mut Vec<u8>, b: &[u8])
    ensures
        final(out)@ == old(out)@ + spec_enc_bytes(b@),
{
    let n = b.len();
    enc_u64_into(out, n as u64);
    let mut copy = slice_to_vec(b);
    out.append(&mut copy);
    proof {
        assert(out@ =~= old(out)@ + spec_enc_bytes(b@));
    }
}

pub fn enc_str_into(out: &mut Vec<u8>, s: &str)
    ensures
        final(out)@ == old(out)@ + spec_enc_str(s@),
{
    let b = s.as_bytes();
    enc_bytes_into(out, b);
}

// ---------------------------------------------------------------------------
// Executable decoders over a byte slice with a cursor.
// ---------------------------------------------------------------------------
pub fn dec_u64_at(s: &[u8], pos: usize) -> (r: Option<(u64, usize)>)
    requires
        pos <= s@.len(),
    ensures
        match r {
            Some(v) => pos <= v.1 <= s@.len() && spec_dec_u64(s@.skip(pos as int)) == Some(
                (v.0, s@.skip(v.1 as int)),
            ),
            None => spec_dec_u64(s@.skip(pos as int)) is None,
        },
{
    if s.len() - pos >= 8 {
        let sub = slice_subrange(s, pos, pos + 8);
        let x = u64_from_le_bytes(sub);
        proof {
            assert(s@.skip(pos as int).take(8) =~= s@.subrange(pos as int, pos as int + 8));
            assert(s@.skip(pos as int).skip(8) =~= s@.skip(pos as int + 8));
        }
        Some((x, pos + 8))
    } else {
        None
    }
}

pub fn dec_u128_at(s: &[u8], pos: usize) -> (r: Option<(u128, usize)>)
    requires
        pos <= s@.len(),
    ensures
        match r {
            Some(v) => pos <= v.1 <= s@.len() && spec_dec_u128(s@.skip(pos as int)) == Some(
                (v.0, s@.skip(v.1 as int)),
            ),
            None => spec_dec_u128(s@.skip(pos as int)) is None,
        },
{
    if s.len() - pos >= 16 {
        let sub = slice_subrange(s, pos, pos + 16);
        let x = u128_from_le_bytes(sub);
        proof {
            assert(s@.skip(pos as int).take(16) =~= s@.subrange(pos as int, pos as int + 16));
            assert(s@.skip(pos as int).skip(16) =~= s@.skip(pos as int + 16));
        }
        Some((x, pos + 16))
    } else {
        None
    }
}

pub fn dec_bytes_at(s: &[u8], pos: usize) -> (r: Option<(Vec<u8>, usize)>)
    requires
        pos <= s@.len(),
    ensures
        match r {
            Some(v) => pos <= v.1 <= s@.len() && spec_dec_bytes(s@.skip(pos as int)) == Some(
                (v.0@, s@.skip(v.1 as int)),
            ),
            None => spec_dec_bytes(s@.skip(pos as int)) is None,
        },
{
    match dec_u64_at(s, pos) {
        None => None,
        Some((n, p)) => {
            if n <= (s.len() - p) as u64 {
                let end = p + (n as usize);
                let v = slice_to_vec(slice_subrange(s, p, end));
                proof {
                    let r1 = s@.skip(p as int);
                    assert(r1.take(n as int) =~= s@.subrange(p as int, end as int));
                    assert(r1.skip(n as int) =~= s@.skip(end as int));
                }
                Some((v, end))
            } else {
                None
            }
        },
    }
}

/// Relies on String::from_utf8: succeeds exactly on valid UTF-8 input and
/// decodes those bytes.
#[verifier::external_body]
fn string_from_utf8(v: Vec<u8>) -> (r: Option<String>)
    ensures
        match r {
            Some(t) => valid_utf8(v@) && t@ == decode_utf8(v@),
            None => !valid_utf8(v@),
        },
{
    match String::from_utf8(v) {
        Ok(t) => Some(t),
        Err(_) => None,
    }
}

// ---------------------------------------------------------------------------
// Transactions and transaction lists.
// ---------------------------------------------------------------------------
pub open spec fn spec_enc_tx(t: TransactionView) -> Seq<u8> {
    spec_enc_str(t.from) + spec_enc_str(t.to) + spec_enc_u64(t.amount) + spec_enc_bytes(
        t.signature,
    ) + spec_enc_bytes(t.public_key)
}

pub open spec fn spec_enc_tx_list(ts: Seq<TransactionView>) -> Seq<u8>
    decreases ts.len(),
{
    if ts.len() == 0 {
        Seq::empty()
    } else {
        spec_enc_tx(ts[0]) + spec_enc_tx_list(ts.drop_first())
    }
}

pub open spec fn spec_enc_txs(ts: Seq<TransactionView>) -> Seq<u8> {
    spec_enc_u64(ts.len() as u64) + spec_enc_tx_list(ts)
}

pub open spec fn tx_fits(t: TransactionView) -> bool {
    &&& str_fits(t.from)
    &&& str_fits(t.to)
    &&& bytes_fit(t.signature)
    &&& bytes_fit(t.public_key)
}

pub open spec fn txs_fit(ts: Seq<TransactionView>) -> bool {
    &&& ts.len() <= u64::MAX
    &&& forall|i: int| 0 <= i < ts.len() ==> tx_fits(#[trigger] ts[i])
}

pub open spec fn spec_dec_tx(s: Seq<u8>) -> Option<(TransactionView, Seq<u8>)> {
    match spec_dec_str(s) {
        Some((from, s1)) => match spec_dec_str(s1) {
            Some((to, s2)) => match spec_dec_u64(s2) {
                Some((amount, s3)) => match spec_dec_bytes(s3) {
                    Some((signature, s4)) => match spec_dec_bytes(s4) {
                        Some((public_key, s5)) => Some(
                            (TransactionView { from, to, amount, signature, public_key }, s5),
                        ),
                        None => None,
                    },
                    None => None,
                },
                None => None,
            },
            None => None,
        },
        None => None,
    }
}

pub open spec fn spec_dec_tx_list(s: Seq<u8>, n: u64) -> Option<(Seq<TransactionView>, Seq<u8>)>
    decreases n,
{
    if n == 0 {
        Some((Seq::empty(), s))
    } else {
        match spec_dec_tx(s) {
            Some((t, r)) => match spec_dec_tx_list(r, (n - 1) as u64) {
                Some((ts, r2)) => Some((seq![t] + ts, r2)),
                None => None,
            },
            None => None,
        }
    }
}

pub open spec fn spec_dec_txs(s: Seq<u8>) -> Option<(Seq<TransactionView>, Seq<u8>)> {
    match spec_dec_u64(s) {
        Some((n, r)) => spec_dec_tx_list(r, n),
        None => None,
    }
}

pub proof fn lemma_enc_tx_list_concat(a: Seq<TransactionView>, b: Seq<TransactionView>)
    ensures
        spec_enc_tx_list(a + b) == spec_enc_tx_list(a) + spec_enc_tx_list(b),
    decreases a.len(),
{
    if a.len() == 0 {
        assert(a + b =~= b);
        assert(spec_enc_tx_list(a) + spec_enc_tx_list(b) =~= spec_enc_tx_list(b));
    } else {
        assert((a + b).drop_first() =~= a.drop_first() + b);
        lemma_enc_tx_list_concat(a.drop_first(), b);
        assert((a + b)[0] == a[0]);
        assert(spec_enc_tx(a[0]) + (spec_enc_tx_list(a.drop_first()) + spec_enc_tx_list(b)) =~= (
        spec_enc_tx(a[0]) + spec_enc_tx_list(a.drop_first())) + spec_enc_tx_list(b));
    }
}

pub proof fn lemma_dec_enc_tx(t: TransactionView, rest: Seq<u8>)
    requires
        tx_fits(t),
    ensures
        spec_dec_tx(spec_enc_tx(t) + rest) == Some((t, rest)),
{
    let r4 = spec_enc_bytes(t.public_key) + rest;
    let r3 = spec_enc_bytes(t.signature) + r4;
    let r2 = spec_enc_u64(t.amount) + r3;
    let r1 = spec_enc_str(t.to) + r2;
    assert(spec_enc_tx(t) + rest =~= spec_enc_str(t.from) + r1);
    lemma_dec_enc_str(t.from, r1);
    assert(r1 =~= spec_enc_str(t.to) + r2);
    lemma_dec_enc_str(t.to, r2);
    lemma_dec_enc_u64(t.amount, r3);
    lemma_dec_enc_bytes(t.signature, r4);
    lemma_dec_enc_bytes(t.public_key, rest);
}

#[verifier::rlimit(50)]
pub proof fn lemma_dec_enc_tx_list(ts: Seq<TransactionView>, rest: Seq<u8>)
    requires
        txs_fit(ts),
    ensures
        spec_dec_tx_list(spec_enc_tx_list(ts) + rest, ts.len() as u64) == Some((ts, rest)),
    decreases ts.len(),
{
    if ts.len() == 0 {
        assert(spec_enc_tx_list(ts) + rest =~= rest);
        assert(Seq::<TransactionView>::empty() =~= ts);
    } else {
        let tail = ts.drop_first();
        assert(spec_enc_tx_list(ts) + rest =~= spec_enc_tx(ts[0]) + (spec_enc_tx_list(tail)
            + rest));
        lemma_dec_enc_tx(ts[0], spec_enc_tx_list(tail) + rest);
        assert(txs_fit(tail)) by {
            assert(forall|i: int|
                0 <= i < tail.len() ==> #[trigger] tail[i] == ts[i + 1] && tx_fits(ts[i + 1]));
        }
        lemma_dec_enc_tx_list(tail, rest);
        assert(seq![ts[0]] + tail =~= ts);
    }
}

pub proof fn lemma_dec_enc_txs(ts: Seq<TransactionView>, rest: Seq<u8>)
    requires
        txs_fit(ts),
    ensures
        spec_dec_txs(spec_enc_txs(ts) + rest) == Some((ts, rest)),
{
    assert(spec_enc_txs(ts) + rest =~= spec_enc_u64(ts.len() as u64) + (spec_enc_tx_list(ts)
        + rest));
    lemma_dec_enc_u64(ts.len() as u64, spec_enc_tx_list(ts) + rest);
    lemma_dec_enc_tx_list(ts, rest);
}

pub fn enc_tx_into(out: &mut Vec<u8>, t: &Transaction)
    ensures
        final(out)@ == old(out)@ + spec_enc_tx(t@),
{
    enc_str_into(out, t.from.as_str());
    enc_str_into(out, t.to.as_str());
    enc_u64_into(out, t.amount);
    enc_bytes_into(out, t.signature.as_slice());
    enc_bytes_into(out, t.public_key.as_slice());
    proof {
        assert(out@ =~= old(out)@ + spec_enc_tx(t@));
    }
}

pub fn enc_txs_into(out: &mut Vec<u8>, txs: &Vec<Transaction>)
    ensures
        final(out)@ == old(out)@ + spec_enc_txs(txs.deep_view()),
{
    let n = txs.len();
    enc_u64_into(out, n as u64);
    let mut i: usize = 0;
    while i < n
        invariant
            i <= n,
            n == txs.len(),
            txs.deep_view().len() == n,
            out@ == old(out)@ + spec_enc_u64(n as u64) + spec_enc_tx_list(
                txs.deep_view().take(i as int),
            ),
        decreases n - i,
    {
        enc_tx_into(out, &txs[i]);
        proof {
            let views = txs.deep_view();
            let single = seq![views[i as int]];
            assert(views.take(i + 1) =~= views.take(i as int) + single);
            lemma_enc_tx_list_concat(views.take(i as int), single);
            assert(single.drop_first() =~= Seq::<TransactionView>::empty());
            assert(spec_enc_tx_list(Seq::<TransactionView>::empty()) == Seq::<u8>::empty());
            assert(spec_enc_tx_list(single) =~= spec_enc_tx(views[i as int]));
            assert(txs[i as int]@ == views[i as int]);
            assert(out@ =~= old(out)@ + spec_enc_u64(n as u64) + spec_enc_tx_list(
                views.take(i + 1),
            ));
        }
        i = i + 1;
    }
    proof {
        assert(txs.deep_view().take(n as int) =~= txs.deep_view());
        assert(out@ =~= old(out)@ + spec_enc_txs(txs.deep_view()));
    }
}

pub fn dec_str_at(s: &[u8], pos: usize) -> (r: Option<(String, usize)>)
    requires
        pos <= s@.len(),
    ensures
        match r {
            Some(v) => pos <= v.1 <= s@.len() && spec_dec_str(s@.skip(pos as int)) == Some(
                (v.0@, s@.skip(v.1 as int)),
            ),
            None => spec_dec_str(s@.skip(pos as int)) is None,
        },
{
    match dec_bytes_at(s, pos) {
        None => None,
        Some((b, p)) => match string_from_utf8(b) {
            None => None,
            Some(t) => Some((t, p)),
        },
    }
}

pub fn dec_tx_at(s: &[u8], pos: usize) -> (r: Option<(Transaction, usize)>)
    requires
        pos <= s@.len(),
    ensures
        match r {
            Some(v) => pos <= v.1 <= s@.len() && spec_dec_tx(s@.skip(pos as int)) == Some(
                (v.0@, s@.skip(v.1 as int)),
            ),
            None => spec_dec_tx(s@.skip(pos as int)) is None,
        },
{
    let from = match dec_str_at(s, pos) {
        None => return None,
        Some(v) => v,
    };
    let to = match dec_str_at(s, from.1) {
        None => return None,
        Some(v) => v,
    };
    let amount = match dec_u64_at(s, to.1) {
        None => return None,
        Some(v) => v,
    };
    let signature = match dec_bytes_at(s, amount.1) {
        None => return None,
        Some(v) => v,
    };
    let public_key = match dec_bytes_at(s, signature.1) {
        None => return None,
        Some(v) => v,
    };
    let tx = Transaction {
        from: from.0,
        to: to.0,
        amount: amount.0,
        signature: signature.0,
        public_key: public_key.0,
    };
    Some((tx, public_key.1))
}

/// Joins an already decoded prefix with the outcome of decoding the rest of
/// a transaction list.
pub open spec fn spec_prepend_txs(
    pre: Seq<TransactionView>,
    o: Option<(Seq<TransactionView>, Seq<u8>)>,
) -> Option<(Seq<TransactionView>, Seq<u8>)> {
    match o {
        Some((ts, r)) => Some((pre + ts, r)),
        None => None,
    }
}

pub fn dec_txs_at(s: &[u8], pos: usize) -> (r: Option<(Vec<Transaction>, usize)>)
    requires
        pos <= s@.len(),
    ensures
        match r {
            Some(v) => pos <= v.1 <= s@.len() && spec_dec_txs(s@.skip(pos as int)) == Some(
                (v.0.deep_view(), s@.skip(v.1 as int)),
            ),
            None => spec_dec_txs(s@.skip(pos as int)) is None,
        },
{
    let (n, p0) = match dec_u64_at(s, pos) {
        None => return None,
        Some(v) => v,
    };
    let mut acc: Vec<Transaction> = Vec::new();
    let mut p = p0;
    let mut i: u64 = 0;
    while i < n
        invariant
            i <= n,
            pos <= p <= s@.len(),
            acc.deep_view().len() == i,
            spec_dec_u64(s@.skip(pos as int)) == Some((n, s@.skip(p0 as int))),
            spec_dec_tx_list(s@.skip(p0 as int), n) == spec_prepend_txs(
                acc.deep_view(),
                spec_dec_tx_list(s@.skip(p as int), (n - i) as u64),
            ),
        decreases n - i,
    {
        let ghost acc0 = acc.deep_view();
        let (t, p2) = match dec_tx_at(s, p) {
            None => {
                proof {
                    assert(spec_dec_tx_list(s@.skip(p as int), (n - i) as u64) is None);
                }
                return None;
            },
            Some(v) => v,
        };
        acc.push(t);
        proof {
            let m = (n - i) as u64;
            let x = spec_dec_tx_list(s@.skip(p2 as int), (m - 1) as u64);
            assert(spec_dec_tx_list(s@.skip(p as int), m) == spec_prepend_txs(seq![t@], x));
            assert(acc.deep_view() =~= acc0.push(t@));
            match x {
                Some((ts, r)) => {
                    assert(acc0 + (seq![t@] + ts) =~= acc0.push(t@) + ts);
                },
                None => {},
            }
        }
        p = p2;
        i = i + 1;
    }
    proof {
        assert(spec_dec_tx_list(s@.skip(p as int), 0) == Some(
            (Seq::<TransactionView>::empty(), s@.skip(p as int)),
        ));
        assert(acc.deep_view() + Seq::<TransactionView>::empty() =~= acc.deep_view());
    }
    Some((acc, p))
}

// ---------------------------------------------------------------------------
// Blocks.
// ---------------------------------------------------------------------------
pub open spec fn spec_enc_block(b: BlockView) -> Seq<u8> {
    spec_enc_u64(b.index) + spec_enc_u128(b.timestamp) + spec_enc_txs(b.transactions)
        + spec_enc_str(b.prev_hash) + spec_enc_str(b.hash) + spec_enc_u64(b.nonce)
}

pub open spec fn block_fits(b: BlockView) -> bool {
    &&& txs_fit(b.transactions)
    &&& str_fits(b.prev_hash)
    &&& str_fits(b.hash)
}

pub open spec fn spec_dec_block(s: Seq<u8>) -> Option<(BlockView, Seq<u8>)> {
    match spec_dec_u64(s) {
        Some((index, s1)) => match spec_dec_u128(s1) {
            Some((timestamp, s2)) => match spec_dec_txs(s2) {
                Some((transactions, s3)) => match spec_dec_str(s3) {
                    Some((prev_hash, s4)) => match spec_dec_str(s4) {
                        Some((hash, s5)) => match spec_dec_u64(s5) {
                            Some((nonce, s6)) => Some(
                                (
                                    BlockView {
                                        index,
                                        timestamp,
                                        transactions,
                                        hash,
                                        prev_hash,
                                        nonce,
                                    },
                                    s6,
                                ),
                            ),
                            None => None,
                        },
                        None => None,
                    },
                    None => None,
                },
                None => None,
            },
            None => None,
        },
        None => None,
    }
}

/// What a complete byte string decodes to as a block: the decoder must
/// consume every byte.
pub open spec fn spec_block_from_bytes(s: Seq<u8>) -> Option<BlockView> {
    match spec_dec_block(s) {
        Some((b, r)) => if r.len() == 0 {
            Some(b)
        } else {
            None
        },
        None => None,
    }
}

proof fn lemma_tx_in_list_len(ts: Seq<TransactionView>, i: int)
    requires
        0 <= i < ts.len(),
    ensures
        spec_enc_tx_list(ts).len() >= spec_enc_tx(ts[i]).len(),
    decreases i,
{
    if i == 0 {
    } else {
        lemma_tx_in_list_len(ts.drop_first(), i - 1);
    }
}

/// A block that could be encoded at all fits the wire format's 64-bit
/// length prefixes: every field's encoding is no longer than the whole.
pub proof fn lemma_block_fits_from_length(b: BlockView)
    requires
        spec_enc_block(b).len() <= u64::MAX,
        b.transactions.len() <= u64::MAX,
    ensures
        block_fits(b),
{
    assert forall|i: int| 0 <= i < b.transactions.len() implies tx_fits(
        #[trigger] b.transactions[i],
    ) by {
        lemma_tx_in_list_len(b.transactions, i);
    }
}

/// Decoding an encoded block yields exactly that block: the wire format
/// loses nothing.
pub proof fn lemma_block_round_trip(b: BlockView)
    requires
        block_fits(b),
    ensures
        spec_block_from_bytes(spec_enc_block(b)) == Some(b),
{
    let empty = Seq::<u8>::empty();
    let r5 = spec_enc_u64(b.nonce) + empty;
    let r4 = spec_enc_str(b.hash) + r5;
    let r3 = spec_enc_str(b.prev_hash) + r4;
    let r2 = spec_enc_txs(b.transactions) + r3;
    let r1 = spec_enc_u128(b.timestamp) + r2;
    assert(spec_enc_block(b) =~= spec_enc_u64(b.index) + r1);
    lemma_dec_enc_u64(b.index, r1);
    lemma_dec_enc_u128(b.timestamp, r2);
    lemma_dec_enc_txs(b.transactions, r3);
    lemma_dec_enc_str(b.prev_hash, r4);
    lemma_dec_enc_str(b.hash, r5);
    lemma_dec_enc_u64(b.nonce, empty);
}

/// Serializes a block in the chain's wire format.
pub fn encode_block(b: &Block) -> (r: Vec<u8>)
    ensures
        r@ == spec_enc_block(b@),
{
    let mut out: Vec<u8> = Vec::new();
    enc_u64_into(&mut out, b.index);
    enc_u128_into(&mut out, b.timestamp);
    enc_txs_into(&mut out, &b.transactions);
    enc_str_into(&mut out, b.prev_hash.as_str());
    enc_str_into(&mut out, b.hash.as_str());
    enc_u64_into(&mut out, b.nonce);
    proof {
        assert(out@ =~= spec_enc_block(b@));
    }
    out
}

/// Parses a block from a complete byte string; every byte must be consumed.
pub fn decode_block(bytes: &[u8]) -> (r: Option<Block>)
    ensures
        match r {
            Some(b) => spec_block_from_bytes(bytes@) == Some(b@),
            None => spec_block_from_bytes(bytes@) is None,
        },
{
    proof {
        assert(bytes@.skip(0) =~= bytes@);
    }
    let index = match dec_u64_at(bytes, 0) {
        None => return None,
        Some(v) => v,
    };
    let timestamp = match dec_u128_at(bytes, index.1) {
        None => return None,
        Some(v) => v,
    };
    let transactions = match dec_txs_at(bytes, timestamp.1) {
        None => return None,
        Some(v) => v,
    };
    let prev_hash = match dec_str_at(bytes, transactions.1) {
        None => return None,
        Some(v) => v,
    };
    let hash = match dec_str_at(bytes, prev_hash.1) {
        None => return None,
        Some(v) => v,
    };
    let nonce = match dec_u64_at(bytes, hash.1) {
        None => return None,
        Some(v) => v,
    };
    if nonce.1 != bytes.len() {
        return None;
    }
    let b = Block {
        index: index.0,
        timestamp: timestamp.0,
        transactions: transactions.0,
        hash: hash.0,
        prev_hash: prev_hash.0,
        nonce: nonce.0,
    };
    Some(b)
}

// ---------------------------------------------------------------------------
// Peer messages and their outer frame.
// ---------------------------------------------------------------------------
pub open spec fn spec_enc_message(m: MessageView) -> Seq<u8> {
    spec_enc_str(m.command) + spec_enc_bytes(m.payload)
}

pub open spec fn message_fits(m: MessageView) -> bool {
    &&& str_fits(m.command)
    &&& bytes_fit(m.payload)
}

pub open spec fn spec_dec_message(s: Seq<u8>) -> Option<(MessageView, Seq<u8>)> {
    match spec_dec_str(s) {
        Some((command, s1)) => match spec_dec_bytes(s1) {
            Some((payload, s2)) => Some((MessageView { command, payload }, s2)),
            None => None,
        },
        None => None,
    }
}

/// What a complete byte string decodes to as a message: the decoder must
/// consume every byte.
pub open spec fn spec_message_from_bytes(s: Seq<u8>) -> Option<MessageView> {
    match spec_dec_message(s) {
        Some((m, r)) => if r.len() == 0 {
            Some(m)
        } else {
            None
        },
        None => None,
    }
}

/// Decoding an encoded message yields exactly that message.
pub proof fn lemma_message_round_trip(m: MessageView)
    requires
        message_fits(m),
    ensures
        spec_message_from_bytes(spec_enc_message(m)) == Some(m),
{
    let empty = Seq::<u8>::empty();
    let r1 = spec_enc_bytes(m.payload) + empty;
    assert(spec_enc_message(m) =~= spec_enc_str(m.command) + r1);
    lemma_dec_enc_str(m.command, r1);
    lemma_dec_enc_bytes(m.payload, empty);
}

/// Serializes a peer message in the wire format.
pub fn encode_message(m: &Message) -> (r: Vec<u8>)
    ensures
        r@ == spec_enc_message(m@),
{
    let mut out: Vec<u8> = Vec::new();
    enc_str_into(&mut out, m.command.as_str());
    enc_bytes_into(&mut out, m.payload.as_slice());
    proof {
        assert(out@ =~= spec_enc_message(m@));
    }
    out
}

/// Parses a peer message from a complete byte string; every byte must be
/// consumed.
pub fn decode_message(bytes: &[u8]) -> (r: Option<Message>)
    ensures
        match r {
            Some(m) => spec_message_from_bytes(bytes@) == Some(m@),
            None => spec_message_from_bytes(bytes@) is None,
        },
{
    proof {
        assert(bytes@.skip(0) =~= bytes@);
    }
    let command = match dec_str_at(bytes, 0) {
        None => return None,
        Some(v) => v,
    };
    let payload = match dec_bytes_at(bytes, command.1) {
        None => return None,
        Some(v) => v,
    };
    if payload.1 != bytes.len() {
        return None;
    }
    Some(Message { command: command.0, payload: payload.0 })
}

/// A message as sent over a connection: the serialized message behind a
/// 64-bit length prefix, so a reader can delimit it without waiting for
/// the connection to close.
pub open spec fn spec_frame(m: MessageView) -> Seq<u8> {
    spec_enc_bytes(spec_enc_message(m))
}

/// Wraps a message for the wire: its serialized bytes behind their length.
pub fn frame_message(m: &Message) -> (r: Vec<u8>)
    ensures
        r@ == spec_frame(m@),
{
    let body = encode_message(m);
    let mut out: Vec<u8> = Vec::new();
    enc_bytes_into(&mut out, body.as_slice());
    proof {
        assert(out@ =~= spec_frame(m@));
    }
    out
}

/// Reads a frame's length prefix: how many body bytes follow the first
/// eight.
pub fn frame_body_len(header: &[u8]) -> (r: Option<u64>)
    ensures
        match r {
            Some(n) => spec_dec_u64(header@) matches Some((x, _)) && x == n,
            None => spec_dec_u64(header@) is None,
        },
{
    proof {
        assert(header@.skip(0) =~= header@);
    }
    match dec_u64_at(header, 0) {
        None => None,
        Some((n, _)) => Some(n),
    }
}

} // verus!
