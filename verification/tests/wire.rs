use minichain::block::Block;
use minichain::blockchain::Blockchain;
use minichain::codec::{
    decode_block, decode_message, encode_block, encode_message, frame_body_len, frame_message,
};
use minichain::p2p::{handle_message, Message, P2P, PeerOutcome};
use minichain::transaction::Transaction;
use minichain::utils::{calculate_hash, now};

fn sample_tx() -> Transaction {
    Transaction {
        from: "alice".to_string(),
        to: "bob".to_string(),
        amount: 1234,
        signature: vec![9, 8, 7],
        public_key: vec![1, 2, 3, 4],
    }
}

fn assert_same_block(a: &Block, b: &Block) {
    assert_eq!(a.index, b.index);
    assert_eq!(a.timestamp, b.timestamp);
    assert_eq!(a.hash, b.hash);
    assert_eq!(a.prev_hash, b.prev_hash);
    assert_eq!(a.nonce, b.nonce);
    assert_eq!(a.transactions.len(), b.transactions.len());
    for (x, y) in a.transactions.iter().zip(b.transactions.iter()) {
        assert_eq!(x.from, y.from);
        assert_eq!(x.to, y.to);
        assert_eq!(x.amount, y.amount);
        assert_eq!(x.signature, y.signature);
        assert_eq!(x.public_key, y.public_key);
    }
}

#[test]
fn sha256_hex_of_empty_input_matches_the_known_digest() {
    let h = calculate_hash(&[]);
    assert_eq!(h, "e3b0c44298fc1c149afbf4c8996fb92427ae41e4649b934ca495991b7852b855");
    let h2 = calculate_hash(b"abc");
    assert_eq!(h2, "ba7816bf8f01cfea414140de5dae2223b00361a396177a9cb410ff61f20015ad");
}

#[test]
fn block_round_trips_through_the_wire_format() {
    let block = Block::new(4, 99, vec![sample_tx()], "deadbeef".to_string(), 1).expect("mine");
    let bytes = encode_block(&block);
    let decoded = decode_block(&bytes).expect("decode");
    assert_same_block(&block, &decoded);
}

#[test]
fn truncated_or_trailing_block_bytes_decode_to_nothing() {
    let block = Block::new(4, 99, vec![sample_tx()], "deadbeef".to_string(), 1).expect("mine");
    let bytes = encode_block(&block);
    assert!(decode_block(&bytes[..bytes.len() - 1]).is_none());
    let mut padded = bytes.clone();
    padded.push(0);
    assert!(decode_block(&padded).is_none());
    assert!(decode_block(&[1, 2, 3]).is_none());
}

#[test]
fn message_round_trips_and_framing_delimits_it() {
    let message = Message { command: "block".to_string(), payload: vec![5, 6, 7, 8] };
    let bytes = encode_message(&message);
    let decoded = decode_message(&bytes).expect("decode");
    assert_eq!(decoded.command, message.command);
    assert_eq!(decoded.payload, message.payload);

    let frame = frame_message(&message);
    let body_len = frame_body_len(&frame[..8]).expect("header") as usize;
    assert_eq!(body_len, frame.len() - 8);
    let body = decode_message(&frame[8..]).expect("body");
    assert_eq!(body.command, message.command);
    assert_eq!(body.payload, message.payload);
}

#[test]
fn broadcast_plans_one_frame_per_peer() {
    let p2p = P2P::new(
        vec!["127.0.0.1:7001".to_string(), "127.0.0.1:7002".to_string()],
        "store".to_string(),
    );
    let message = Message { command: "ping".to_string(), payload: Vec::new() };
    let plan = p2p.broadcast(&message);
    assert_eq!(plan.len(), 2);
    assert_eq!(plan[0].0, "127.0.0.1:7001");
    assert_eq!(plan[1].0, "127.0.0.1:7002");
    let frame = frame_message(&message);
    assert_eq!(plan[0].1, frame);
    assert_eq!(plan[1].1, frame);
}

#[test]
fn peer_messages_dispatch_by_command() {
    let mut ledger = Blockchain::open_temporary(1).expect("open");

    let ping = encode_message(&Message { command: "ping".to_string(), payload: Vec::new() });
    assert_eq!(handle_message(&mut ledger, &ping).expect("ping"), PeerOutcome::Ping);

    let tx = encode_message(&Message { command: "tx".to_string(), payload: vec![1] });
    assert_eq!(handle_message(&mut ledger, &tx).expect("tx"), PeerOutcome::TransactionNoted);

    let other = encode_message(&Message { command: "gossip".to_string(), payload: Vec::new() });
    assert_eq!(handle_message(&mut ledger, &other).expect("other"), PeerOutcome::UnknownCommand);

    assert_eq!(handle_message(&mut ledger, &[0, 1, 2]).expect("junk"), PeerOutcome::Malformed);

    let garbage_block = encode_message(&Message {
        command: "block".to_string(),
        payload: vec![9, 9, 9],
    });
    assert_eq!(
        handle_message(&mut ledger, &garbage_block).expect("garbage"),
        PeerOutcome::Malformed
    );
    assert_eq!(ledger.latest_block().expect("tip").index, 0);

    let genesis = ledger.latest_block().expect("genesis");
    let next = Block::new(1, now(), Vec::new(), genesis.hash.clone(), 1).expect("mine");
    let good = encode_message(&Message { command: "block".to_string(), payload: encode_block(&next) });
    assert_eq!(handle_message(&mut ledger, &good).expect("good"), PeerOutcome::BlockAccepted);
    assert_eq!(ledger.latest_block().expect("tip").index, 1);

    let replay = handle_message(&mut ledger, &good).expect("replay");
    assert_eq!(replay, PeerOutcome::BlockRejected);
}
