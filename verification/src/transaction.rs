use vstd::prelude::*;
use crate::codec::{spec_enc_str, spec_enc_u64, enc_str_into, enc_u64_into};

verus! {

/// A single value transfer plus its authorization. A transaction whose
/// `from` is the network address is a minted one (block reward or genesis
/// credit) and carries no signature. Amounts are fixed-point with two
/// decimal places: a value of 1 stands for 0.01 currency units.
#[derive(Debug)]
pub struct Transaction {
    pub from: String,
    pub to: String,
    pub amount: u64,
    pub signature: Vec<u8>,
    pub public_key: Vec<u8>,
}

/// The mathematical content of a `Transaction`.
pub ghost struct TransactionView {
    pub from: Seq<char>,
    pub to: Seq<char>,
    pub amount: u64,
    pub signature: Seq<u8>,
    pub public_key: Seq<u8>,
}

impl View for Transaction {
    type V = TransactionView;

    open spec fn view(&self) -> TransactionView {
        TransactionView {
            from: self.from@,
            to: self.to@,
            amount: self.amount,
            signature: self.signature@,
            public_key: self.public_key@,
        }
    }
}

impl DeepView for Transaction {
    type V = TransactionView;

    open spec fn deep_view(&self) -> TransactionView {
        self.view()
    }
}

/// An explicit clone that is known to preserve the transaction's content.
pub fn clone_tx(t: &Transaction) -> (r: Transaction)
    ensures
        r@ == t@,
{
    Transaction {
        from: t.from.clone(),
        to: t.to.clone(),
        amount: t.amount,
        signature: vstd::slice::slice_to_vec(t.signature.as_slice()),
        public_key: vstd::slice::slice_to_vec(t.public_key.as_slice()),
    }
}

/// The reserved sender address of minted transactions.
pub open spec fn spec_network() -> Seq<char> {
    "network"@
}

/// The reserved sender address of minted transactions, as a string.
pub fn network_address() -> (r: String)
    ensures
        r@ == spec_network(),
{
    "network".to_owned()
}

/// The canonical byte message that a wallet signs for a transfer: the
/// length-prefixed `from` and `to` strings followed by the amount.
pub open spec fn spec_signing_message(from: Seq<char>, to: Seq<char>, amount: u64) -> Seq<u8> {
    spec_enc_str(from) + spec_enc_str(to) + spec_enc_u64(amount)
}

/// Builds the bytes that a wallet must sign to authorize the transfer
/// `from -> to` of `amount`.
pub fn signing_message(from: &str, to: &str, amount: u64) -> (r: Vec<u8>)
    ensures
        r@ == spec_signing_message(from@, to@, amount),
{
    let mut out: Vec<u8> = Vec::new();
    enc_str_into(&mut out, from);
    enc_str_into(&mut out, to);
    enc_u64_into(&mut out, amount);
    proof {
        assert(out@ =~= spec_signing_message(from@, to@, amount));
    }
    out
}

} // verus!
