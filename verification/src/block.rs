use vstd::prelude::*;
use crate::transaction::{Transaction, TransactionView, clone_tx};
use crate::codec::{
    spec_enc_u64, spec_enc_u128, spec_enc_str, spec_enc_txs, enc_u64_into, enc_u128_into,
    enc_str_into, enc_txs_into,
};
use crate::utils::spec_hash_hex;

verus! {

/// An immutable, self-validating unit: an ordered list of transactions plus
/// the proof-of-work nonce that makes the block's content hash satisfy the
/// difficulty rule.
#[derive(Debug)]
pub struct Block {
    pub index: u64,
    pub timestamp: u128,
    pub transactions: Vec<Transaction>,
    pub hash: String,
    pub prev_hash: String,
    pub nonce: u64,
}

/// The mathematical content of a `Block`.
pub ghost struct BlockView {
    pub index: u64,
    pub timestamp: u128,
    pub transactions: Seq<TransactionView>,
    pub hash: Seq<char>,
    pub prev_hash: Seq<char>,
    pub nonce: u64,
}

impl View for Block {
    type V = BlockView;

    open spec fn view(&self) -> BlockView {
        BlockView {
            index: self.index,
            timestamp: self.timestamp,
            transactions: self.transactions.deep_view(),
            hash: self.hash@,
            prev_hash: self.prev_hash@,
            nonce: self.nonce,
        }
    }
}

impl DeepView for Block {
    type V = BlockView;

    open spec fn deep_view(&self) -> BlockView {
        self.view()
    }
}

/// Required count of leading `'0'` hex characters in a block's hash.
pub open spec fn pow_ok(hash: Seq<char>, difficulty: nat) -> bool {
    &&& difficulty <= hash.len()
    &&& forall|i: int| 0 <= i < difficulty ==> hash[i] == '0'
}

/// Whether `hash` satisfies the proof-of-work rule for `difficulty`.
pub fn leading_zeros_ok(hash: &str, difficulty: usize) -> (r: bool)
    ensures
        r == pow_ok(hash@, difficulty as nat),
{
    let n = hash.unicode_len();
    if n < difficulty {
        return false;
    }
    let mut i: usize = 0;
    while i < difficulty
        invariant
            i <= difficulty <= hash@.len(),
            forall|j: int| 0 <= j < i ==> hash@[j] == '0',
        decreases difficulty - i,
    {
        if hash.get_char(i) != '0' {
            return false;
        }
        i = i + 1;
    }
    true
}

/// The bytes whose SHA-256 digest is a block's content hash: the five
/// fields other than the hash itself, in a fixed order and encoding. This
/// layout is a wire-format contract: every peer must derive the same bytes.
pub open spec fn spec_preimage(
    index: u64,
    timestamp: u128,
    transactions: Seq<TransactionView>,
    prev_hash: Seq<char>,
    nonce: u64,
) -> Seq<u8> {
    spec_enc_u64(index) + spec_enc_u128(timestamp) + spec_enc_txs(transactions) + spec_enc_str(
        prev_hash,
    ) + spec_enc_u64(nonce)
}

/// The content hash a block of this shape must carry.
pub open spec fn spec_block_hash(b: BlockView) -> Seq<char> {
    spec_hash_hex(spec_preimage(b.index, b.timestamp, b.transactions, b.prev_hash, b.nonce))
}

fn encode_preimage(
    index: u64,
    timestamp: u128,
    transactions: &Vec<Transaction>,
    prev_hash: &str,
    nonce: u64,
) -> (r: Vec<u8>)
    ensures
        r@ == spec_preimage(index, timestamp, transactions.deep_view(), prev_hash@, nonce),
{
    let mut out: Vec<u8> = Vec::new();
    enc_u64_into(&mut out, index);
    enc_u128_into(&mut out, timestamp);
    enc_txs_into(&mut out, transactions);
    enc_str_into(&mut out, prev_hash);
    enc_u64_into(&mut out, nonce);
    proof {
        assert(out@ =~= spec_preimage(
            index,
            timestamp,
            transactions.deep_view(),
            prev_hash@,
            nonce,
        ));
    }
    out
}

impl Block {
    /// Mines a block: starting from nonce 0, the content hash is recomputed
    /// for each nonce until it carries at least `difficulty` leading `'0'`
    /// characters. The search is bounded only by success, up to the size of
    /// the nonce space: only when every 64-bit nonce fails — which a real
    /// difficulty never brings about — is nothing returned.
    pub fn new(
        index: u64,
        timestamp: u128,
        transactions: Vec<Transaction>,
        prev_hash: String,
        difficulty: usize,
    ) -> (r: Option<Block>)
        ensures
            match r {
                Some(b) => {
                    &&& b@.index == index
                    &&& b@.timestamp == timestamp
                    &&& b@.transactions == transactions.deep_view()
                    &&& b@.prev_hash == prev_hash@
                    &&& pow_ok(b@.hash, difficulty as nat)
                    &&& b@.hash == spec_block_hash(b@)
                },
                None => forall|n: u64|
                    !pow_ok(
                        spec_hash_hex(
                            spec_preimage(
                                index,
                                timestamp,
                                transactions.deep_view(),
                                prev_hash@,
                                n,
                            ),
                        ),
                        difficulty as nat,
                    ),
            },
    {
        let mut nonce: u64 = 0;
        loop
            invariant
                forall|n: u64|
                    n < nonce ==> !pow_ok(
                        spec_hash_hex(
                            spec_preimage(
                                index,
                                timestamp,
                                transactions.deep_view(),
                                prev_hash@,
                                n,
                            ),
                        ),
                        difficulty as nat,
                    ),
            decreases u64::MAX - nonce,
        {
            let data = encode_preimage(index, timestamp, &transactions, prev_hash.as_str(), nonce);
            let hash = crate::utils::calculate_hash(data.as_slice());
            if leading_zeros_ok(hash.as_str(), difficulty) {
                return Some(Block { index, timestamp, transactions, hash, prev_hash, nonce });
            }
            if nonce == u64::MAX {
                return None;
            }
            nonce = nonce + 1;
        }
    }

    /// Recomputes the content hash from the block's own fields, so any
    /// received block can be re-verified against the hash it claims.
    pub fn calculate_hash(&self) -> (r: String)
        ensures
            r@ == spec_block_hash(self@),
    {
        let data = encode_preimage(
            self.index,
            self.timestamp,
            &self.transactions,
            self.prev_hash.as_str(),
            self.nonce,
        );
        crate::utils::calculate_hash(data.as_slice())
    }
}

/// An explicit clone that is known to preserve the block's content.
pub fn clone_block(b: &Block) -> (r: Block)
    ensures
        r@ == b@,
{
    let mut txs: Vec<Transaction> = Vec::new();
    let mut i: usize = 0;
    while i < b.transactions.len()
        invariant
            i <= b.transactions.len(),
            txs.deep_view() =~= b.transactions.deep_view().take(i as int),
        decreases b.transactions.len() - i,
    {
        let ghost dv0 = txs.deep_view();
        txs.push(clone_tx(&b.transactions[i]));
        proof {
            let all = b.transactions.deep_view();
            assert(txs.deep_view() =~= dv0.push(all[i as int]));
            assert(all.take(i + 1) =~= all.take(i as int).push(all[i as int]));
        }
        i = i + 1;
    }
    proof {
        assert(txs.deep_view() =~= b.transactions.deep_view());
    }
    Block {
        index: b.index,
        timestamp: b.timestamp,
        transactions: txs,
        hash: b.hash.clone(),
        prev_hash: b.prev_hash.clone(),
        nonce: b.nonce,
    }
}

} // verus!
