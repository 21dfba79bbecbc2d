use minichain::block::{create_genesis_block, Block};
use minichain::crypto::PrivateKey;
use minichain::error::McError;
use minichain::message::{Message, Status, RPC};
use minichain::processor::{MessageProcessor, Outgoing, Validator, ValidatorConfig};
use minichain::transaction::Transaction;

fn node(id: &str) -> MessageProcessor {
    MessageProcessor::new(id.to_string(), create_genesis_block())
}

fn signed(data: Vec<u8>) -> Transaction {
    let mut t = Transaction::new(data);
    t.sign(&PrivateKey::generate());
    t
}

#[test]
fn mempool_dedup_does_not_rebroadcast() {
    let mut n = node("a");
    let tx = signed(b"hello".to_vec());
    let out = n.process_message("peer".to_string(), Message::Transaction(tx.duplicate()), 7).unwrap();
    assert_eq!(out.len(), 1);
    match &out[0] {
        Outgoing::Broadcast(Message::Transaction(t)) => {
            assert_eq!(t.first_seen(), 7);
            assert_eq!(t.data, b"hello".to_vec());
        },
        other => panic!("unexpected {:?}", other),
    }
    let out = n.process_message("peer".to_string(), Message::Transaction(tx.duplicate()), 9).unwrap();
    assert!(out.is_empty());
    assert!(n.tx_pool().has_tx(&tx.hash()));
    assert_eq!(n.tx_pool().len(), 1);
}

#[test]
fn invalid_or_untimed_transaction_is_refused() {
    let mut n = node("a");
    let r = n.process_message("p".to_string(), Message::Transaction(Transaction::new(vec![1])), 7);
    assert_eq!(r.err(), Some(McError::InvalidTransaction));
    assert_eq!(n.tx_pool().len(), 0);
    let r = n.process_transaction(signed(vec![2]), 0);
    assert_eq!(r.err(), Some(McError::MempoolUntimed));
    let admitted = n.process_transaction(signed(vec![3]), 1).unwrap().unwrap();
    admitted.verify().unwrap();
    assert!(admitted.first_seen() > 0);
}

#[test]
fn get_status_is_answered_with_height() {
    let mut n = node("node-a");
    let out = n.process_message("peer".to_string(), Message::GetStatus, 1).unwrap();
    match &out[0] {
        Outgoing::Send(to, Message::Status(s)) => {
            assert_eq!(to, "peer");
            assert_eq!(s.id, "node-a");
            assert_eq!(s.height, 0);
        },
        other => panic!("unexpected {:?}", other),
    }
    let out = n.process_message("peer".to_string(), Message::Text("hi".to_string()), 1).unwrap();
    assert!(out.is_empty());
}

#[test]
fn validator_mints_block_from_pending() {
    let mut n = node("v");
    n.process_transaction(signed(vec![1]), 20).unwrap();
    n.process_transaction(signed(vec![2]), 10).unwrap();
    let v = Validator::new(ValidatorConfig::new(PrivateKey::generate(), 1000));
    assert_eq!(v.block_time_ms(), 1000);
    let b = v.create_new_block(&mut n, 99).unwrap();
    assert_eq!(b.header.height, 1);
    assert_eq!(b.header.timestamp, 99);
    assert_eq!(b.transactions.len(), 2);
    assert_eq!(b.transactions[0].data, vec![2]);
    assert_eq!(b.transactions[1].data, vec![1]);
    b.verify().unwrap();
    assert_eq!(n.blockchain().height(), 1);
    assert_eq!(n.tx_pool().pending().unwrap().len(), 0);
    assert_eq!(n.tx_pool().len(), 2);
    let b2 = v.create_new_block(&mut n, 100).unwrap();
    assert_eq!(b2.header.prev_block_header_hash, Some(b.hash()));
}

#[test]
fn sync_from_behind() {
    let mut y = node("y");
    let v = Validator::new(ValidatorConfig::new(PrivateKey::generate(), 10));
    for t in 1..=5u128 {
        v.create_new_block(&mut y, t).unwrap();
    }
    assert_eq!(y.blockchain().height(), 5);
    let mut x = node("x");

    let out = y.process_message("x".to_string(), Message::GetStatus, 1).unwrap();
    let status = match out.into_iter().next().unwrap() {
        Outgoing::Send(_, Message::Status(s)) => s,
        other => panic!("unexpected {:?}", other),
    };
    assert_eq!(status.height, 5);

    let out = x.process_message("y".to_string(), Message::Status(status), 1).unwrap();
    let range = match out.into_iter().next().unwrap() {
        Outgoing::Send(to, Message::GetBlocks(r)) => {
            assert_eq!(to, "y");
            r
        },
        other => panic!("unexpected {:?}", other),
    };
    assert_eq!((range.start, range.end), (0, 6));

    let out = y.process_message("x".to_string(), Message::GetBlocks(range), 1).unwrap();
    let blocks = match out.into_iter().next().unwrap() {
        Outgoing::Send(_, Message::Blocks(bs)) => bs,
        other => panic!("unexpected {:?}", other),
    };
    assert_eq!(blocks.len(), 6);
    let wire = Message::Blocks(blocks).bytes();
    let rpc = RPC { from: "y".to_string(), data: wire };
    let out = x.process_rpc(&rpc, 1).unwrap();
    assert!(out.is_empty());
    assert_eq!(x.blockchain().height(), 5);
    for h in 0..=5u32 {
        assert_eq!(
            x.blockchain().get_header(h).unwrap().hash(),
            y.blockchain().get_header(h).unwrap().hash()
        );
    }
}

#[test]
fn status_not_ahead_asks_nothing() {
    let mut n = node("a");
    let out = n.process_message("p".to_string(), Message::Status(Status { id: "p".to_string(), height: 0 }), 1).unwrap();
    assert!(out.is_empty());
}

#[test]
fn block_message_is_added_and_rebroadcast_once() {
    let genesis = create_genesis_block();
    let mut n = node("a");
    let mut b = Block::from_prev_header(&genesis.header, vec![], 3);
    b.sign(&PrivateKey::generate());
    let h = b.hash();
    let out = n.process_message("p".to_string(), Message::Block(b.duplicate()), 1).unwrap();
    assert_eq!(out.len(), 1);
    let again = n.process_message("p".to_string(), Message::Block(b), 1);
    assert_eq!(again.err(), Some(McError::BlockAlreadyExists(h)));
    assert_eq!(n.blockchain().height(), 1);
}

#[test]
fn undecodable_rpc_is_an_error() {
    let mut n = node("a");
    let rpc = RPC { from: "p".to_string(), data: vec![42] };
    assert_eq!(n.process_rpc(&rpc, 1).err(), Some(McError::Undecodable));
}

#[test]
fn only_replays_are_silent() {
    assert!(McError::BlockAlreadyExists(minichain::hash::Hash::zero()).is_replay());
    assert!(!McError::InvalidTransaction.is_replay());
}

#[test]
fn start_asks_for_status_once() {
    let mut n = node("a");
    let first = n.start();
    assert_eq!(first.len(), 1);
    assert!(matches!(first[0], Outgoing::Broadcast(Message::GetStatus)));
    assert!(n.start().is_empty());
}

#[test]
fn batch_skips_refused_blocks_and_keeps_going() {
    let mut y = node("y");
    let v = Validator::new(ValidatorConfig::new(PrivateKey::generate(), 10));
    for t in 1..=3u128 {
        v.create_new_block(&mut y, t).unwrap();
    }
    let mut blocks = y.blockchain().get_blocks(1, 4).unwrap();
    let mut forged = blocks[1].duplicate();
    forged.validator_public_key = Some(PrivateKey::generate().public_key());
    blocks.insert(1, forged);
    let mut x = node("x");
    let out = x.process_message("y".to_string(), Message::Blocks(blocks), 1).unwrap();
    assert!(out.is_empty());
    assert_eq!(x.blockchain().height(), 3);
    for h in 0..=3u32 {
        assert_eq!(x.blockchain().get_header(h).unwrap().hash(), y.blockchain().get_header(h).unwrap().hash());
    }
}

#[test]
fn failed_mint_keeps_pending() {
    let mut n = node("v");
    let mut t = Transaction::new(vec![0x09, 0xaa, 0xaf]);
    t.sign(&PrivateKey::generate());
    n.process_transaction(t, 5).unwrap();
    let v = Validator::new(ValidatorConfig::new(PrivateKey::generate(), 10));
    assert_eq!(v.create_new_block(&mut n, 6).err(), Some(McError::MissingKey));
    assert_eq!(n.blockchain().height(), 0);
    assert_eq!(n.tx_pool().pending().unwrap().len(), 1);
}
