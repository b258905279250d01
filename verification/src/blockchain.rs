use vstd::prelude::*;
use crate::balances::{
    BalanceTable, apply_txs, lemma_apply_txs_sum, pairs_view, spec_apply_tx, spec_apply_txs,
    spec_balance,
    spec_sum, spec_tx_net, spec_txs_net,
};
use crate::block::{Block, BlockView, clone_block, pow_ok, spec_block_hash, leading_zeros_ok};
use crate::codec::{
    decode_block, encode_block, lemma_block_fits_from_length, lemma_block_round_trip,
    spec_block_from_bytes, spec_enc_block,
};
use crate::storage::{
    balance_key, balance_value, block_key, db_flush, db_get, db_insert, db_open,
    db_open_temporary, db_view, lemma_balance_key_injective, lemma_block_key_injective,
    lemma_keyspaces_distinct, spec_balance_key, spec_balance_value, spec_block_key,
};
use crate::transaction::{
    Transaction, TransactionView, network_address, signing_message, spec_network,
    spec_signing_message,
};
use crate::wallet::{ecdsa_verifies, verify};

verus! {

/// Minted for the miner of every block, before fees. Amounts are
/// fixed-point with two decimal places, so this stands for 5.00.
pub const BLOCK_REWARD: u64 = 500;

/// The fixed per-transaction charge, collected by the miner: 0.01.
pub const TRANSACTION_FEE: u64 = 1;

/// What the genesis block credits to the bootstrap address: 100.00.
pub const GENESIS_AMOUNT: u64 = 10000;

/// The address credited by the genesis block.
pub open spec fn spec_bootstrap() -> Seq<char> {
    "02c9cfea78bd540fae61e64ba3b848f691aeabbd2a36b02a7dd57513752441523b"@
}

/// The address credited by the genesis block, as a string.
pub fn bootstrap_address() -> (r: String)
    ensures
        r@ == spec_bootstrap(),
{
    "02c9cfea78bd540fae61e64ba3b848f691aeabbd2a36b02a7dd57513752441523b".to_owned()
}

/// Why an operation on the ledger was refused or failed.
#[derive(Clone, Copy, PartialEq, Eq, Structural, Debug)]
pub enum LedgerError {
    /// A transaction's signature does not verify against its claimed key.
    InvalidSignature,
    /// A sender asks for more than its balance covers, fee included.
    InsufficientFunds,
    /// The batch's reward cannot be represented, or applying the block's
    /// transfers would leave the range of balances.
    Overflow,
    /// No 64-bit nonce satisfies the difficulty for the block's content.
    NonceExhausted,
    /// The durable store failed an operation.
    Storage,
    /// The durable store holds bytes that are not a chain.
    Corrupted,
}

/// The minted transaction of the genesis block.
pub open spec fn spec_genesis_tx() -> TransactionView {
    TransactionView {
        from: spec_network(),
        to: spec_bootstrap(),
        amount: GENESIS_AMOUNT,
        signature: Seq::empty(),
        public_key: Seq::empty(),
    }
}

/// The shape of a freshly synthesized genesis block.
pub open spec fn spec_genesis_block(b: BlockView, difficulty: nat) -> bool {
    &&& b.index == 0
    &&& b.prev_hash == "0"@
    &&& b.transactions == seq![spec_genesis_tx()]
    &&& pow_ok(b.hash, difficulty)
    &&& b.hash == spec_block_hash(b)
}

/// The balances that replaying a chain from an empty projection yields;
/// nothing when some transfer does not apply.
pub open spec fn spec_replay(blocks: Seq<BlockView>) -> Option<Seq<(Seq<char>, u64)>>
    decreases blocks.len(),
{
    if blocks.len() == 0 {
        Some(Seq::empty())
    } else {
        match spec_replay(blocks.drop_last()) {
            Some(s) => spec_apply_txs(s, blocks.last().transactions),
            None => None,
        }
    }
}

/// The store's record at `block:<i>` decodes to exactly the given block,
/// which carries its own index.
pub open spec fn spec_good_record(m: Map<Seq<u8>, Seq<u8>>, i: u64, b: BlockView) -> bool {
    &&& m.contains_key(spec_block_key(i))
    &&& spec_block_from_bytes(m[spec_block_key(i)]) == Some(b)
    &&& b.index == i
}

/// A stored block record that cannot belong to a chain: its bytes decode
/// to no block, or to a block claiming another index.
pub open spec fn spec_bad_record(m: Map<Seq<u8>, Seq<u8>>, i: u64) -> bool {
    &&& m.contains_key(spec_block_key(i))
    &&& match spec_block_from_bytes(m[spec_block_key(i)]) {
        Some(b) => b.index != i,
        None => true,
    }
}

/// `cs` is a chain read back from the store: the records at indexes
/// `0 .. cs.len()` decode to exactly these blocks.
pub open spec fn spec_stored_prefix(m: Map<Seq<u8>, Seq<u8>>, cs: Seq<BlockView>) -> bool {
    forall|i: int| 0 <= i < cs.len() ==> spec_good_record(m, i as u64, #[trigger] cs[i])
}

/// Why a store cannot be opened as a ledger: some block record is broken,
/// some readable chain prefix does not replay, or every 64-bit index is
/// taken.
pub open spec fn spec_store_corrupt(m: Map<Seq<u8>, Seq<u8>>) -> bool {
    ||| exists|i: u64| spec_bad_record(m, i)
    ||| exists|cs: Seq<BlockView>| spec_stored_prefix(m, cs) && spec_replay(cs) is None
    ||| forall|i: u64| m.contains_key(#[trigger] spec_block_key(i))
}

/// The mathematical content of the ledger: the chain, the balance
/// projection derived from it, and the difficulty it enforces.
pub ghost struct LedgerView {
    pub difficulty: nat,
    pub chain: Seq<BlockView>,
    pub balances: Seq<(Seq<char>, u64)>,
}

/// Well-formedness: at least the genesis block is present, blocks sit at
/// their own index, and the balance projection is exactly the replay of
/// the chain.
pub open spec fn spec_wf(l: LedgerView) -> bool {
    &&& l.chain.len() >= 1
    &&& forall|i: int| 0 <= i < l.chain.len() ==> (#[trigger] l.chain[i]).index as int == i
    &&& spec_replay(l.chain) == Some(l.balances)
}

/// The durable, append-only sequence of blocks plus its derived balance
/// projection. The ledger owns the store handle; all mutation funnels
/// through `add_block` and `add_block_from_p2p`.
pub struct Blockchain {
    db: sled::Db,
    difficulty: usize,
    chain: Vec<Block>,
    balances: BalanceTable,
}

impl View for Blockchain {
    type V = LedgerView;

    closed spec fn view(&self) -> LedgerView {
        LedgerView {
            difficulty: self.difficulty as nat,
            chain: self.chain.deep_view(),
            balances: self.balances@,
        }
    }
}

/// Whether the ledger accepts `b` as its next block: contiguous index,
/// linkage to the tip, integrity of the claimed hash, proof of work, and
/// applicability of every transfer.
pub open spec fn spec_accepts(l: LedgerView, b: BlockView) -> bool {
    &&& l.chain.len() > 0
    &&& b.index as int == l.chain.last().index as int + 1
    &&& b.prev_hash == l.chain.last().hash
    &&& b.hash == spec_block_hash(b)
    &&& pow_ok(b.hash, l.difficulty)
    &&& spec_apply_txs(l.balances, b.transactions) is Some
}

/// The first reason to refuse a batch of submitted transactions, if any:
/// for each non-minted transaction, in order, a signature that does not
/// verify, then a balance that does not cover amount plus fee.
pub open spec fn spec_batch_problem(
    bals: Seq<(Seq<char>, u64)>,
    ts: Seq<TransactionView>,
) -> Option<LedgerError>
    decreases ts.len(),
{
    if ts.len() == 0 {
        None
    } else {
        let t = ts[0];
        if t.from != spec_network() && !ecdsa_verifies(
            t.public_key,
            spec_signing_message(t.from, t.to, t.amount),
            t.signature,
        ) {
            Some(LedgerError::InvalidSignature)
        } else if t.from != spec_network() && spec_balance(bals, t.from) < t.amount
            + TRANSACTION_FEE {
            Some(LedgerError::InsufficientFunds)
        } else {
            spec_batch_problem(bals, ts.drop_first())
        }
    }
}

/// The reward transaction prepended to a mined block's batch.
pub open spec fn spec_reward_tx(miner: Seq<char>, count: nat) -> TransactionView {
    TransactionView {
        from: spec_network(),
        to: miner,
        amount: (BLOCK_REWARD + count * TRANSACTION_FEE) as u64,
        signature: Seq::empty(),
        public_key: Seq::empty(),
    }
}

/// Adjacent linkage and proof of work over a whole chain, as the
/// standalone audit checks it.
pub open spec fn spec_chain_valid(chain: Seq<BlockView>, difficulty: nat) -> bool {
    forall|i: int|
        1 <= i < chain.len() ==> (#[trigger] chain[i]).prev_hash == chain[i - 1].hash && pow_ok(
            chain[i].hash,
            difficulty,
        )
}

/// Walks a block sequence and confirms, for every adjacent pair, linkage
/// and proof of work.
pub fn chain_is_valid(blocks: &Vec<Block>, difficulty: usize) -> (r: bool)
    ensures
        r == spec_chain_valid(blocks.deep_view(), difficulty as nat),
{
    let n = blocks.len();
    if n <= 1 {
        return true;
    }
    let mut i: usize = 1;
    while i < n
        invariant
            1 <= i <= n,
            n == blocks@.len(),
            blocks.deep_view().len() == n,
            forall|j: int|
                1 <= j < i ==> (#[trigger] blocks.deep_view()[j]).prev_hash == blocks.deep_view()[j
                    - 1].hash && pow_ok(blocks.deep_view()[j].hash, difficulty as nat),
        decreases n - i,
    {
        proof {
            assert(blocks.deep_view()[i as int] == blocks@[i as int]@);
            assert(blocks.deep_view()[i - 1] == blocks@[i - 1]@);
        }
        if !(blocks[i].prev_hash == blocks[i - 1].hash) {
            return false;
        }
        if !leading_zeros_ok(blocks[i].hash.as_str(), difficulty) {
            return false;
        }
        i = i + 1;
    }
    true
}

// ---------------------------------------------------------------------------
// Laws of the consensus rules.
// ---------------------------------------------------------------------------
/// Replaying a block the chain already holds is rejected: its index can
/// never be the tip's successor, so re-delivery of an accepted block can
/// never double-apply its balance deltas.
pub proof fn lemma_replayed_block_rejected(l: LedgerView, b: BlockView, i: int)
    requires
        spec_wf(l),
        0 <= i < l.chain.len(),
        b == l.chain[i],
    ensures
        !spec_accepts(l, b),
{
    assert(l.chain[l.chain.len() - 1].index as int == l.chain.len() - 1);
    assert(l.chain[i].index as int == i);
}

/// The total minted by a block's transactions, net of the fees its
/// senders pay.
pub open spec fn spec_chain_net(blocks: Seq<BlockView>) -> int
    decreases blocks.len(),
{
    if blocks.len() == 0 {
        0
    } else {
        spec_chain_net(blocks.drop_last()) + spec_txs_net(blocks.last().transactions)
    }
}

/// Value conservation: on any chain whose replay succeeds, the sum of all
/// balances equals the sum of the blocks' net minting — every transfer
/// moves value, only network transactions create it, and fees only move
/// it to the miner.
pub proof fn lemma_value_conservation(blocks: Seq<BlockView>, bals: Seq<(Seq<char>, u64)>)
    requires
        spec_replay(blocks) == Some(bals),
    ensures
        spec_sum(bals) == spec_chain_net(blocks),
    decreases blocks.len(),
{
    if blocks.len() == 0 {
    } else {
        let prev = spec_replay(blocks.drop_last())->Some_0;
        lemma_value_conservation(blocks.drop_last(), prev);
        lemma_apply_txs_sum(prev, blocks.last().transactions);
    }
}

/// The shape of a batch assembled by the mining path when no submitted
/// transaction claims the network address: the reward heads the list and
/// mints the block reward plus one fee per submitted transaction.
pub open spec fn spec_mined_shape(ts: Seq<TransactionView>) -> bool {
    &&& ts.len() >= 1
    &&& ts[0].from == spec_network()
    &&& ts[0].amount as int == BLOCK_REWARD + (ts.len() - 1) * TRANSACTION_FEE
    &&& forall|j: int| 1 <= j < ts.len() ==> (#[trigger] ts[j]).from != spec_network()
}

proof fn lemma_txs_net_all_user(ts: Seq<TransactionView>)
    requires
        forall|j: int| 0 <= j < ts.len() ==> (#[trigger] ts[j]).from != spec_network(),
    ensures
        spec_txs_net(ts) == -(ts.len() * TRANSACTION_FEE),
    decreases ts.len(),
{
    if ts.len() == 0 {
    } else {
        assert(forall|j: int|
            0 <= j < ts.drop_first().len() ==> #[trigger] ts.drop_first()[j] == ts[j + 1]);
        lemma_txs_net_all_user(ts.drop_first());
    }
}

/// A batch of mined shape mints exactly the block reward: the fees in the
/// reward cancel against the fees its senders pay.
pub proof fn lemma_mined_txs_net(ts: Seq<TransactionView>)
    requires
        spec_mined_shape(ts),
    ensures
        spec_txs_net(ts) == BLOCK_REWARD,
{
    assert(forall|j: int|
        0 <= j < ts.drop_first().len() ==> #[trigger] ts.drop_first()[j] == ts[j + 1]);
    lemma_txs_net_all_user(ts.drop_first());
}

/// Value conservation over a mined chain: genesis value plus one block
/// reward per mined block.
pub proof fn lemma_mined_chain_conservation(blocks: Seq<BlockView>, bals: Seq<(Seq<char>, u64)>)
    requires
        spec_replay(blocks) == Some(bals),
        blocks.len() >= 1,
        blocks[0].transactions == seq![spec_genesis_tx()],
        forall|i: int| 1 <= i < blocks.len() ==> spec_mined_shape(#[trigger] blocks[i].transactions),
    ensures
        spec_sum(bals) == GENESIS_AMOUNT + BLOCK_REWARD * (blocks.len() - 1),
    decreases blocks.len(),
{
    lemma_value_conservation(blocks, bals);
    lemma_chain_net_mined(blocks);
}

proof fn lemma_chain_net_mined(blocks: Seq<BlockView>)
    requires
        blocks.len() >= 1,
        blocks[0].transactions == seq![spec_genesis_tx()],
        forall|i: int| 1 <= i < blocks.len() ==> spec_mined_shape(#[trigger] blocks[i].transactions),
    ensures
        spec_chain_net(blocks) == GENESIS_AMOUNT + BLOCK_REWARD * (blocks.len() - 1),
    decreases blocks.len(),
{
    if blocks.len() == 1 {
        let gs = seq![spec_genesis_tx()];
        assert(gs.drop_first() =~= Seq::<TransactionView>::empty());
        assert(gs[0] == spec_genesis_tx());
        assert(spec_tx_net(gs[0]) == GENESIS_AMOUNT);
        assert(spec_txs_net(Seq::<TransactionView>::empty()) == 0);
        assert(spec_txs_net(gs.drop_first()) == 0);
        assert(spec_txs_net(gs) == spec_tx_net(gs[0]) + spec_txs_net(gs.drop_first()));
        assert(spec_txs_net(gs) == GENESIS_AMOUNT);
        assert(blocks.drop_last() =~= Seq::<BlockView>::empty());
        assert(blocks.last() == blocks[0]);
        assert(spec_chain_net(Seq::<BlockView>::empty()) == 0);
        assert(spec_chain_net(blocks) == spec_chain_net(blocks.drop_last()) + spec_txs_net(
            blocks.last().transactions,
        ));
    } else {
        let front = blocks.drop_last();
        assert(front[0] == blocks[0]);
        assert(forall|i: int|
            1 <= i < front.len() ==> #[trigger] front[i].transactions == blocks[i].transactions);
        lemma_chain_net_mined(front);
        lemma_mined_txs_net(blocks.last().transactions);
    }
}

/// Extending a valid chain with a block that links to its tip and meets
/// the proof of work keeps the chain valid: both append paths only ever
/// add such blocks, so the audit never fails on a chain they built.
pub proof fn lemma_extension_preserves_validity(
    chain: Seq<BlockView>,
    difficulty: nat,
    b: BlockView,
)
    requires
        spec_chain_valid(chain, difficulty),
        chain.len() > 0,
        b.prev_hash == chain.last().hash,
        pow_ok(b.hash, difficulty),
    ensures
        spec_chain_valid(chain.push(b), difficulty),
{
    let grown = chain.push(b);
    assert forall|i: int|
        1 <= i < grown.len() implies (#[trigger] grown[i]).prev_hash == grown[i - 1].hash
        && pow_ok(grown[i].hash, difficulty) by {
        if i < chain.len() {
            assert(grown[i] == chain[i]);
            assert(grown[i - 1] == chain[i - 1]);
        } else {
            assert(grown[i] == b);
            assert(grown[i - 1] == chain.last());
        }
    }
}

/// A freshly initialized, genesis-only chain passes the integrity audit.
pub proof fn lemma_fresh_chain_valid(chain: Seq<BlockView>, difficulty: nat)
    requires
        chain.len() <= 1,
    ensures
        spec_chain_valid(chain, difficulty),
{
}

/// Tampering any stored block's backward link breaks the audit: one
/// mismatched pair refutes the whole chain.
pub proof fn lemma_tampered_chain_invalid(chain: Seq<BlockView>, difficulty: nat, i: int)
    requires
        1 <= i < chain.len(),
        chain[i].prev_hash != chain[i - 1].hash,
    ensures
        !spec_chain_valid(chain, difficulty),
{
}

proof fn lemma_replay_extend_none(blocks: Seq<BlockView>, k: int)
    requires
        0 <= k <= blocks.len(),
        spec_replay(blocks.take(k)) is None,
    ensures
        spec_replay(blocks) is None,
    decreases blocks.len() - k,
{
    if k == blocks.len() {
        assert(blocks.take(k) =~= blocks);
    } else {
        assert(blocks.take(k + 1).drop_last() =~= blocks.take(k));
        lemma_replay_extend_none(blocks, k + 1);
    }
}

/// Rebuilds the balance projection by replaying a chain from genesis.
fn replay_chain(blocks: &Vec<Block>) -> (r: Option<BalanceTable>)
    ensures
        match r {
            Some(t) => spec_replay(blocks.deep_view()) == Some(t@),
            None => spec_replay(blocks.deep_view()) is None,
        },
{
    let mut table = BalanceTable::new();
    let mut i: usize = 0;
    while i < blocks.len()
        invariant
            i <= blocks.len(),
            blocks.deep_view().len() == blocks@.len(),
            spec_replay(blocks.deep_view().take(i as int)) == Some(table@),
        decreases blocks.len() - i,
    {
        proof {
            let views = blocks.deep_view();
            assert(views.take(i + 1).drop_last() =~= views.take(i as int));
            assert(views.take(i + 1).last() == views[i as int]);
        }
        match apply_txs(&table, &blocks[i].transactions) {
            None => {
                proof {
                    lemma_replay_extend_none(blocks.deep_view(), i + 1);
                }
                return None;
            },
            Some(t2) => {
                table = t2;
            },
        }
        i = i + 1;
    }
    proof {
        assert(blocks.deep_view().take(blocks@.len() as int) =~= blocks.deep_view());
    }
    Some(table)
}

/// Whether every `block:<index>` record of `pre` survives unchanged into
/// `post`.
pub open spec fn block_records_kept(pre: Map<Seq<u8>, Seq<u8>>, post: Map<Seq<u8>, Seq<u8>>) -> bool {
    forall|k: u64|
        pre.contains_key(#[trigger] spec_block_key(k)) ==> post.contains_key(spec_block_key(k))
            && post[spec_block_key(k)] == pre[spec_block_key(k)]
}

/// The balance records one applied transaction must leave behind: the
/// sender's (unless minted) and the recipient's balances, as the new
/// projection states them.
pub open spec fn spec_balances_written(
    m: Map<Seq<u8>, Seq<u8>>,
    bals: Seq<(Seq<char>, u64)>,
    t: TransactionView,
) -> bool {
    &&& (t.from != spec_network() ==> m.contains_key(spec_balance_key(t.from)) && m[
        spec_balance_key(t.from)] == spec_balance_value(spec_balance(bals, t.from)))
    &&& m.contains_key(spec_balance_key(t.to))
    &&& m[spec_balance_key(t.to)] == spec_balance_value(spec_balance(bals, t.to))
}

/// Writes the balance records touched by a block's transactions: each
/// address a transaction names ends up mapped to its balance in the new
/// projection. Only the `balance:` keyspace is written: every stored block
/// record is left as it was.
fn persist_balances(db: &mut sled::Db, table: &BalanceTable, txs: &Vec<Transaction>) -> (r: Result<
    (),
    LedgerError,
>)
    ensures
        r is Err ==> r->Err_0 == LedgerError::Storage,
        block_records_kept(db_view(*old(db)), db_view(*final(db))),
        r is Ok ==> forall|j: int|
            0 <= j < txs.deep_view().len() ==> spec_balances_written(
                db_view(*final(db)),
                table@,
                #[trigger] txs.deep_view()[j],
            ),
{
    let network = network_address();
    let mut i: usize = 0;
    while i < txs.len()
        invariant
            i <= txs.len(),
            network@ == spec_network(),
            txs.deep_view().len() == txs@.len(),
            block_records_kept(db_view(*old(db)), db_view(*db)),
            forall|j: int|
                0 <= j < i ==> spec_balances_written(
                    db_view(*db),
                    table@,
                    #[trigger] txs.deep_view()[j],
                ),
        decreases txs.len() - i,
    {
        let t = &txs[i];
        proof {
            assert(txs.deep_view()[i as int] == txs@[i as int]@);
        }
        if !(t.from == network) {
            let ghost mid = db_view(*db);
            let key = balance_key(t.from.as_str());
            let value = balance_value(table.get(t.from.as_str()));
            let wrote = db_insert(db, key.as_slice(), value);
            proof {
                lemma_balance_writes_preserved(mid, db_view(*db), table@, txs.deep_view(), i as int, t.from@);
                assert forall|k: u64|
                    db_view(*db).contains_key(#[trigger] spec_block_key(k)) == mid.contains_key(
                        spec_block_key(k),
                    ) && (mid.contains_key(spec_block_key(k)) ==> db_view(*db)[spec_block_key(k)]
                        == mid[spec_block_key(k)]) by {
                    lemma_keyspaces_distinct(k, t.from@);
                }
            }
            match wrote {
                Err(_) => return Err(LedgerError::Storage),
                Ok(_) => {},
            }
        }
        let ghost mid2 = db_view(*db);
        let key = balance_key(t.to.as_str());
        let value = balance_value(table.get(t.to.as_str()));
        let wrote = db_insert(db, key.as_slice(), value);
        proof {
            lemma_balance_writes_preserved(mid2, db_view(*db), table@, txs.deep_view(), i as int, t.to@);
            assert forall|k: u64|
                db_view(*db).contains_key(#[trigger] spec_block_key(k)) == mid2.contains_key(
                    spec_block_key(k),
                ) && (mid2.contains_key(spec_block_key(k)) ==> db_view(*db)[spec_block_key(k)]
                    == mid2[spec_block_key(k)]) by {
                lemma_keyspaces_distinct(k, t.to@);
            }
        }
        match wrote {
            Err(_) => return Err(LedgerError::Storage),
            Ok(_) => {},
        }
        proof {
            let now = db_view(*db);
            let me = txs.deep_view()[i as int];
            assert(spec_balances_written(now, table@, me)) by {
                if me.from != spec_network() {
                    if spec_balance_key(me.from) == spec_balance_key(me.to) {
                        lemma_balance_key_injective(me.from, me.to);
                    }
                }
            }
        }
        i = i + 1;
    }
    Ok(())
}

/// Writing one address's balance record disturbs no other address's
/// record, so the per-transaction facts already established survive each
/// further write (a rewrite of the same address stores the same value).
proof fn lemma_balance_writes_preserved(
    pre: Map<Seq<u8>, Seq<u8>>,
    post: Map<Seq<u8>, Seq<u8>>,
    bals: Seq<(Seq<char>, u64)>,
    ts: Seq<TransactionView>,
    upto: int,
    written: Seq<char>,
)
    requires
        post == pre || post == pre.insert(
            spec_balance_key(written),
            spec_balance_value(spec_balance(bals, written)),
        ),
        forall|j: int|
            0 <= j < upto ==> spec_balances_written(pre, bals, #[trigger] ts[j]),
    ensures
        forall|j: int| 0 <= j < upto ==> spec_balances_written(post, bals, #[trigger] ts[j]),
{
    assert forall|j: int| 0 <= j < upto implies spec_balances_written(
        post,
        bals,
        #[trigger] ts[j],
    ) by {
        let t = ts[j];
        if t.from != spec_network() && spec_balance_key(t.from) == spec_balance_key(written) {
            lemma_balance_key_injective(t.from, written);
        }
        if spec_balance_key(t.to) == spec_balance_key(written) {
            lemma_balance_key_injective(t.to, written);
        }
    }
}

impl Blockchain {
    /// Well-formedness of the ledger: its content is coherent and the
    /// durable store mirrors the chain.
    pub open spec fn inv(&self) -> bool {
        &&& spec_wf(self@)
        &&& self.stored_matches_chain()
    }

    /// Every persisted record under `block:<index>` decodes to the chain's
    /// block at that index, so the store never diverges from the chain it
    /// mirrors. Balance records are a rebuildable cache and are not pinned.
    pub closed spec fn stored_matches_chain(&self) -> bool {
        forall|i: int|
            0 <= i < self.chain.deep_view().len() ==> db_view(self.db).contains_key(
                #[trigger] spec_block_key(i as u64),
            ) && spec_block_from_bytes(db_view(self.db)[spec_block_key(i as u64)]) == Some(
                self.chain.deep_view()[i],
            )
    }

    /// Opens or creates the durable store at `path` and loads the chain;
    /// if no genesis block is stored, one is mined and persisted.
    pub fn new(path: &str, difficulty: usize) -> (r: Result<Blockchain, LedgerError>)
        ensures
            match r {
                Ok(l) => l.inv() && l@.difficulty == difficulty as nat,
                Err(e) => e == LedgerError::Storage || e == LedgerError::Corrupted || e
                    == LedgerError::NonceExhausted,
            },
    {
        match db_open(path) {
            Err(_) => Err(LedgerError::Storage),
            Ok(db) => Self::init(db, difficulty),
        }
    }

    /// A ledger over a store that is discarded on drop; it always starts
    /// with a fresh genesis block, so it can fail only through the store
    /// itself or a hopeless nonce search, never through corruption.
    pub fn open_temporary(difficulty: usize) -> (r: Result<Blockchain, LedgerError>)
        ensures
            match r {
                Ok(l) => {
                    &&& l.inv()
                    &&& l@.difficulty == difficulty as nat
                    &&& l@.chain.len() == 1
                    &&& spec_genesis_block(l@.chain[0], difficulty as nat)
                },
                Err(e) => e == LedgerError::Storage || e == LedgerError::NonceExhausted,
            },
    {
        match db_open_temporary() {
            Err(_) => Err(LedgerError::Storage),
            Ok(db) => {
                proof {
                    let m = Map::<Seq<u8>, Seq<u8>>::empty();
                    assert(!m.contains_key(spec_block_key(0)));
                    assert forall|cs: Seq<BlockView>| spec_stored_prefix(m, cs) implies !(
                    spec_replay(cs) is None) by {
                        if cs.len() > 0 {
                            assert(spec_good_record(m, 0, cs[0]));
                        } else {
                            assert(cs =~= Seq::<BlockView>::empty());
                        }
                    }
                    assert(!spec_store_corrupt(m));
                }
                Self::init(db, difficulty)
            },
        }
    }

    #[verifier::rlimit(80)]
    fn init(db: sled::Db, difficulty: usize) -> (r: Result<Blockchain, LedgerError>)
        ensures
            match r {
                Ok(l) => {
                    &&& l.inv()
                    &&& l@.difficulty == difficulty as nat
                    &&& l@.chain.len() <= u64::MAX
                    &&& if !db_view(db).contains_key(spec_block_key(0)) {
                        l@.chain.len() == 1 && spec_genesis_block(l@.chain[0], difficulty as nat)
                    } else {
                        spec_stored_prefix(db_view(db), l@.chain) && !db_view(db).contains_key(
                            spec_block_key(l@.chain.len() as u64),
                        )
                    }
                },
                Err(e) => {
                    &&& (e == LedgerError::Storage || e == LedgerError::Corrupted || e
                        == LedgerError::NonceExhausted)
                    &&& (e == LedgerError::Corrupted ==> spec_store_corrupt(db_view(db)))
                },
            },
    {
        let mut ldb = db;
        let mut chain: Vec<Block> = Vec::new();
        let mut i: u64 = 0;
        loop
            invariant
                db_view(ldb) == db_view(db),
                chain.deep_view().len() == i as int,
                forall|j: int|
                    0 <= j < i ==> spec_good_record(
                        db_view(db),
                        j as u64,
                        #[trigger] chain.deep_view()[j],
                    ),
            ensures
                db_view(ldb) == db_view(db),
                chain.deep_view().len() == i as int,
                forall|j: int|
                    0 <= j < i ==> spec_good_record(
                        db_view(db),
                        j as u64,
                        #[trigger] chain.deep_view()[j],
                    ),
                !db_view(db).contains_key(spec_block_key(i)),
            decreases u64::MAX - i,
        {
            let key = block_key(i);
            match db_get(&ldb, key.as_slice()) {
                Err(_) => return Err(LedgerError::Storage),
                Ok(None) => break,
                Ok(Some(bytes)) => match decode_block(bytes.as_slice()) {
                    None => {
                        proof {
                            assert(spec_bad_record(db_view(db), i));
                        }
                        return Err(LedgerError::Corrupted);
                    },
                    Some(b) => {
                        if b.index != i {
                            proof {
                                assert(spec_bad_record(db_view(db), i));
                            }
                            return Err(LedgerError::Corrupted);
                        }
                        if i == u64::MAX {
                            proof {
                                assert forall|k: u64|
                                    db_view(db).contains_key(#[trigger] spec_block_key(k)) by {
                                    if k < i {
                                        assert(spec_good_record(
                                            db_view(db),
                                            k,
                                            chain.deep_view()[k as int],
                                        ));
                                    }
                                }
                            }
                            return Err(LedgerError::Corrupted);
                        }
                        let ghost pre = chain.deep_view();
                        chain.push(b);
                        proof {
                            assert(chain.deep_view() =~= pre.push(b@));
                        }
                        i = i + 1;
                    },
                },
            }
        }
        let ghost loaded = chain.deep_view();
        if chain.len() == 0 {
            let genesis_tx = Transaction {
                from: network_address(),
                to: bootstrap_address(),
                amount: GENESIS_AMOUNT,
                signature: Vec::new(),
                public_key: Vec::new(),
            };
            let mut genesis_txs: Vec<Transaction> = Vec::new();
            genesis_txs.push(genesis_tx);
            proof {
                assert(genesis_txs.deep_view() =~= seq![spec_genesis_tx()]);
            }
            let ts = crate::utils::now();
            let genesis = match Block::new(0, ts, genesis_txs, "0".to_owned(), difficulty) {
                None => return Err(LedgerError::NonceExhausted),
                Some(g) => g,
            };
            let bytes = encode_block(&genesis);
            proof {
                vstd::std_specs::vec::axiom_spec_len(&bytes);
                vstd::std_specs::vec::axiom_spec_len(&genesis.transactions);
                lemma_block_fits_from_length(genesis@);
                lemma_block_round_trip(genesis@);
            }
            let ghost encoded = bytes@;
            let key = block_key(0);
            match db_insert(&mut ldb, key.as_slice(), bytes) {
                Err(_) => return Err(LedgerError::Storage),
                Ok(_) => {},
            }
            let bootstrap = bootstrap_address();
            let bkey = balance_key(bootstrap.as_str());
            let bvalue = balance_value(GENESIS_AMOUNT);
            proof {
                lemma_keyspaces_distinct(0, bootstrap@);
            }
            match db_insert(&mut ldb, bkey.as_slice(), bvalue) {
                Err(_) => return Err(LedgerError::Storage),
                Ok(_) => {},
            }
            match db_flush(&mut ldb) {
                Err(_) => return Err(LedgerError::Storage),
                Ok(_) => {},
            }
            let ghost pre = chain.deep_view();
            chain.push(genesis);
            proof {
                assert(chain.deep_view() =~= pre.push(genesis@));
                assert(db_view(ldb)[spec_block_key(0)] == encoded);
                let gv = genesis@;
                let cs = chain.deep_view();
                assert(cs.drop_last() =~= Seq::<BlockView>::empty());
                assert(cs.last() == gv);
                let ts = gv.transactions;
                assert(ts[0] == spec_genesis_tx());
                let s0 = Seq::<(Seq<char>, u64)>::empty();
                assert(spec_balance(s0, spec_bootstrap()) == 0);
                assert(spec_apply_tx(s0, ts[0]) is Some);
                assert(ts.drop_first() =~= Seq::<TransactionView>::empty());
                let s1 = spec_apply_tx(s0, ts[0])->Some_0;
                assert(spec_apply_txs(s1, Seq::<TransactionView>::empty()) == Some(s1));
                assert(spec_apply_txs(s0, ts) == Some(s1));
                assert(spec_replay(cs.drop_last()) == Some(s0));
                assert(spec_replay(cs) == spec_apply_txs(s0, ts));
                assert(spec_replay(cs) is Some);
            }
        }
        match replay_chain(&chain) {
            None => {
                proof {
                    assert(chain.deep_view() == loaded);
                    assert(spec_stored_prefix(db_view(db), loaded) && spec_replay(loaded) is None);
                    assert(spec_store_corrupt(db_view(db)));
                }
                Err(LedgerError::Corrupted)
            },
            Some(table) => {
                let ledger = Blockchain { db: ldb, difficulty, chain, balances: table };
                proof {
                    if loaded.len() == 0 {
                        assert(!db_view(db).contains_key(spec_block_key(0)));
                        assert(ledger@.chain.len() == 1);
                        assert(spec_genesis_block(ledger@.chain[0], difficulty as nat));
                    } else {
                        assert(spec_good_record(db_view(db), 0, loaded[0]));
                        assert(db_view(db).contains_key(spec_block_key(0)));
                        assert(ledger@.chain == loaded);
                        assert(spec_stored_prefix(db_view(db), ledger@.chain));
                        assert(!db_view(db).contains_key(
                            spec_block_key(ledger@.chain.len() as u64),
                        ));
                    }
                    assert forall|j: int|
                        0 <= j < ledger.chain.deep_view().len() implies db_view(
                        ledger.db,
                    ).contains_key(#[trigger] spec_block_key(j as u64)) by {
                        if loaded.len() > 0 {
                            assert(spec_good_record(db_view(db), j as u64, loaded[j]));
                        }
                    }
                }
                Ok(ledger)
            },
        }
    }

    /// The highest-index persisted block, if any.
    pub fn latest_block(&self) -> (r: Option<Block>)
        ensures
            match r {
                Some(b) => self@.chain.len() > 0 && b@ == self@.chain.last(),
                None => self@.chain.len() == 0,
            },
    {
        let n = self.chain.len();
        if n == 0 {
            None
        } else {
            Some(clone_block(&self.chain[n - 1]))
        }
    }

    /// The persisted chain, lowest index first.
    pub fn load_blockchain(&self) -> (r: Vec<Block>)
        ensures
            r.deep_view() == self@.chain,
    {
        let mut out: Vec<Block> = Vec::new();
        let mut i: usize = 0;
        while i < self.chain.len()
            invariant
                i <= self.chain.len(),
                out.deep_view() =~= self.chain.deep_view().take(i as int),
            decreases self.chain.len() - i,
        {
            let ghost pre = out.deep_view();
            out.push(clone_block(&self.chain[i]));
            proof {
                let all = self.chain.deep_view();
                assert(out.deep_view() =~= pre.push(all[i as int]));
                assert(all.take(i + 1) =~= all.take(i as int).push(all[i as int]));
            }
            i = i + 1;
        }
        proof {
            assert(self.chain.deep_view().take(self.chain@.len() as int) =~= self.chain.deep_view());
        }
        out
    }

    /// The balance of `address`; an absent address holds zero.
    pub fn load_balance(&self, address: &str) -> (r: u64)
        ensures
            r == spec_balance(self@.balances, address@),
    {
        self.balances.get(address)
    }

    /// Every recorded address with its balance.
    pub fn load_balances(&self) -> (r: Vec<(String, u64)>)
        ensures
            pairs_view(r@) == self@.balances,
    {
        self.balances.to_entries()
    }

    /// The standalone integrity audit: adjacent linkage and proof of work
    /// over the whole chain.
    pub fn is_valid(&self) -> (r: bool)
        ensures
            r == spec_chain_valid(self@.chain, self@.difficulty),
    {
        chain_is_valid(&self.chain, self.difficulty)
    }

    /// The remote acceptance path: re-validates a block received from a
    /// peer and, when every check passes, appends it and applies its
    /// balance deltas. A rejected block changes nothing. Signatures and
    /// funds are not re-checked here — a structurally valid block's
    /// transactions are trusted, a gap inherited from the protocol — but a
    /// transfer that would leave the range of balances rejects the block
    /// outright.
    pub fn add_block_from_p2p(&mut self, block: Block) -> (r: Result<bool, LedgerError>)
        requires
            old(self).inv(),
        ensures
            final(self).inv(),
            final(self)@.difficulty == old(self)@.difficulty,
            match r {
                Ok(true) => {
                    &&& spec_accepts(old(self)@, block@)
                    &&& final(self)@.chain == old(self)@.chain.push(block@)
                    &&& Some(final(self)@.balances) == spec_apply_txs(
                        old(self)@.balances,
                        block@.transactions,
                    )
                },
                Ok(false) => !spec_accepts(old(self)@, block@) && final(self)@ == old(self)@,
                Err(e) => {
                    &&& e == LedgerError::Storage
                    &&& spec_accepts(old(self)@, block@)
                    &&& final(self)@ == old(self)@
                },
            },
    {
        let n = self.chain.len();
        let latest_index = self.chain[n - 1].index;
        proof {
            assert(self.chain.deep_view()[n - 1] == self.chain@[n - 1]@);
            assert(self@.chain.last() == self.chain.deep_view()[n - 1]);
        }
        if block.index == 0 || block.index - 1 != latest_index {
            return Ok(false);
        }
        if !(block.prev_hash == self.chain[n - 1].hash) {
            return Ok(false);
        }
        let recomputed = block.calculate_hash();
        if !(recomputed == block.hash) {
            return Ok(false);
        }
        if !leading_zeros_ok(block.hash.as_str(), self.difficulty) {
            return Ok(false);
        }
        match apply_txs(&self.balances, &block.transactions) {
            None => Ok(false),
            Some(table) => {
                let bytes = encode_block(&block);
                proof {
                    vstd::std_specs::vec::axiom_spec_len(&bytes);
                    vstd::std_specs::vec::axiom_spec_len(&block.transactions);
                    lemma_block_fits_from_length(block@);
                    lemma_block_round_trip(block@);
                }
                let ghost encoded = bytes@;
                let ghost dv0 = db_view(self.db);
                let key = block_key(block.index);
                let wrote = db_insert(&mut self.db, key.as_slice(), bytes);
                proof {
                    assert forall|jj: u64|
                        jj != block.index && dv0.contains_key(#[trigger] spec_block_key(jj))
                            implies db_view(self.db).contains_key(spec_block_key(jj)) && db_view(
                        self.db,
                    )[spec_block_key(jj)] == dv0[spec_block_key(jj)] by {
                        if spec_block_key(jj) == spec_block_key(block.index) {
                            lemma_block_key_injective(jj, block.index);
                        }
                    }
                }
                match wrote {
                    Err(_) => return Err(LedgerError::Storage),
                    Ok(_) => {},
                }
                match persist_balances(&mut self.db, &table, &block.transactions) {
                    Err(_) => return Err(LedgerError::Storage),
                    Ok(_) => {},
                }
                match db_flush(&mut self.db) {
                    Err(_) => return Err(LedgerError::Storage),
                    Ok(_) => {},
                }
                let ghost pre = self.chain.deep_view();
                self.chain.push(block);
                self.balances = table;
                proof {
                    assert(self.chain.deep_view() =~= pre.push(block@));
                    assert(self@.chain.drop_last() =~= pre);
                    assert(db_view(self.db)[spec_block_key(block.index)] == encoded);
                }
                Ok(true)
            },
        }
    }

    /// The local mining path: checks each submitted transaction's
    /// signature and funds against the current balances, prepends the
    /// miner's reward, mines the next block, persists it, and applies the
    /// balance deltas. Nothing changes on any rejection.
    pub fn add_block(&mut self, miner_address: &str, transactions: Vec<Transaction>) -> (r: Result<
        Block,
        LedgerError,
    >)
        requires
            old(self).inv(),
        ensures
            final(self).inv(),
            final(self)@.difficulty == old(self)@.difficulty,
            ({
                let bals0 = old(self)@.balances;
                let views = transactions.deep_view();
                match spec_batch_problem(bals0, views) {
                    Some(p) => r == Err::<Block, LedgerError>(p) && final(self)@ == old(self)@,
                    None => {
                        if BLOCK_REWARD + views.len() * TRANSACTION_FEE > u64::MAX {
                            r == Err::<Block, LedgerError>(LedgerError::Overflow) && final(self)@
                                == old(self)@
                        } else {
                            let full = seq![
                                spec_reward_tx(miner_address@, views.len()),
                            ] + views;
                            match r {
                                Ok(b) => {
                                    &&& b@.transactions == full
                                    &&& b@.index as int == old(self)@.chain.len()
                                    &&& b@.prev_hash == old(self)@.chain.last().hash
                                    &&& pow_ok(b@.hash, old(self)@.difficulty)
                                    &&& b@.hash == spec_block_hash(b@)
                                    &&& final(self)@.chain == old(self)@.chain.push(b@)
                                    &&& Some(final(self)@.balances) == spec_apply_txs(bals0, full)
                                },
                                Err(e) => {
                                    &&& final(self)@ == old(self)@
                                    &&& (e == LedgerError::Overflow || e
                                        == LedgerError::NonceExhausted || e == LedgerError::Storage)
                                    &&& (e == LedgerError::Overflow <==> spec_apply_txs(bals0, full)
                                        is None)
                                },
                            }
                        }
                    },
                }
            }),
    {
        let network = network_address();
        proof {
            assert(transactions.deep_view().skip(0) =~= transactions.deep_view());
        }
        let mut i: usize = 0;
        while i < transactions.len()
            invariant
                i <= transactions.len(),
                network@ == spec_network(),
                transactions.deep_view().len() == transactions@.len(),
                self@ == old(self)@,
                self.inv(),
                spec_batch_problem(old(self)@.balances, transactions.deep_view())
                    == spec_batch_problem(
                    old(self)@.balances,
                    transactions.deep_view().skip(i as int),
                ),
            decreases transactions.len() - i,
        {
            proof {
                let views = transactions.deep_view();
                let rest = views.skip(i as int);
                assert(rest[0] == views[i as int]);
                assert(rest.drop_first() =~= views.skip(i + 1));
                assert(views[i as int] == transactions@[i as int]@);
            }
            let t = &transactions[i];
            if !(t.from == network) {
                let msg = signing_message(t.from.as_str(), t.to.as_str(), t.amount);
                if !verify(t.public_key.as_slice(), msg.as_slice(), t.signature.as_slice()) {
                    return Err(LedgerError::InvalidSignature);
                }
                let bal = self.balances.get(t.from.as_str());
                if bal < t.amount {
                    return Err(LedgerError::InsufficientFunds);
                }
                if bal - t.amount < TRANSACTION_FEE {
                    return Err(LedgerError::InsufficientFunds);
                }
            }
            i = i + 1;
        }
        let count = transactions.len() as u64;
        let total_fees = count * TRANSACTION_FEE;
        if total_fees > u64::MAX - BLOCK_REWARD {
            return Err(LedgerError::Overflow);
        }
        let reward = Transaction {
            from: network_address(),
            to: miner_address.to_owned(),
            amount: BLOCK_REWARD + total_fees,
            signature: Vec::new(),
            public_key: Vec::new(),
        };
        let mut block_transactions: Vec<Transaction> = Vec::new();
        block_transactions.push(reward);
        let mut rest = transactions;
        block_transactions.append(&mut rest);
        proof {
            assert(block_transactions.deep_view() =~= seq![
                spec_reward_tx(miner_address@, transactions.deep_view().len()),
            ] + transactions.deep_view());
        }
        let table = match apply_txs(&self.balances, &block_transactions) {
            None => return Err(LedgerError::Overflow),
            Some(t) => t,
        };
        let n = self.chain.len();
        proof {
            assert(self.chain.deep_view()[n - 1] == self.chain@[n - 1]@);
            assert(self@.chain.last() == self.chain.deep_view()[n - 1]);
        }
        let prev_hash = self.chain[n - 1].hash.clone();
        let index = self.chain[n - 1].index + 1;
        let ts = crate::utils::now();
        let mined = match Block::new(index, ts, block_transactions, prev_hash, self.difficulty) {
            None => return Err(LedgerError::NonceExhausted),
            Some(b) => b,
        };
        let bytes = encode_block(&mined);
        proof {
            vstd::std_specs::vec::axiom_spec_len(&bytes);
            vstd::std_specs::vec::axiom_spec_len(&mined.transactions);
            lemma_block_fits_from_length(mined@);
            lemma_block_round_trip(mined@);
        }
        let ghost encoded = bytes@;
        let ghost dv0 = db_view(self.db);
        let key = block_key(mined.index);
        let wrote = db_insert(&mut self.db, key.as_slice(), bytes);
        proof {
            assert forall|jj: u64|
                jj != mined.index && dv0.contains_key(#[trigger] spec_block_key(jj))
                    implies db_view(self.db).contains_key(spec_block_key(jj)) && db_view(
                self.db,
            )[spec_block_key(jj)] == dv0[spec_block_key(jj)] by {
                if spec_block_key(jj) == spec_block_key(mined.index) {
                    lemma_block_key_injective(jj, mined.index);
                }
            }
        }
        match wrote {
            Err(_) => return Err(LedgerError::Storage),
            Ok(_) => {},
        }
        match persist_balances(&mut self.db, &table, &mined.transactions) {
            Err(_) => return Err(LedgerError::Storage),
            Ok(_) => {},
        }
        match db_flush(&mut self.db) {
            Err(_) => return Err(LedgerError::Storage),
            Ok(_) => {},
        }
        let ret = clone_block(&mined);
        let ghost pre = self.chain.deep_view();
        self.chain.push(mined);
        self.balances = table;
        proof {
            assert(self.chain.deep_view() =~= pre.push(ret@));
            assert(self@.chain.drop_last() =~= pre);
            assert(db_view(self.db)[spec_block_key(mined.index)] == encoded);
        }
        Ok(ret)
    }
}

} // verus!
