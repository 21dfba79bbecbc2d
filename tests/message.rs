use minichain::block::{create_genesis_block, Block};
use minichain::crypto::PrivateKey;
use minichain::message::{Message, Status};
use minichain::transaction::Transaction;

fn round_trip(m: Message) -> Message {
    let bytes = m.bytes();
    let back = Message::decode(&bytes).unwrap();
    assert_eq!(back.bytes(), bytes);
    back
}

#[test]
fn every_message_kind_round_trips() {
    let key = PrivateKey::generate();
    let mut tx = Transaction::new(vec![1, 2]);
    tx.sign(&key);
    match round_trip(Message::Transaction(tx.duplicate())) {
        Message::Transaction(t) => assert_eq!(t.data, tx.data),
        other => panic!("unexpected {:?}", other),
    }
    match round_trip(Message::Text("héllo wörld".to_string())) {
        Message::Text(s) => assert_eq!(s, "héllo wörld"),
        other => panic!("unexpected {:?}", other),
    }
    let genesis = create_genesis_block();
    let mut b = Block::from_prev_header(&genesis.header, vec![tx], 3);
    b.sign(&key);
    match round_trip(Message::Block(b.duplicate())) {
        Message::Block(x) => assert_eq!(x.hash(), b.hash()),
        other => panic!("unexpected {:?}", other),
    }
    assert!(matches!(round_trip(Message::GetStatus), Message::GetStatus));
    match round_trip(Message::Status(Status { id: "n1".to_string(), height: 7 })) {
        Message::Status(s) => {
            assert_eq!(s.id, "n1");
            assert_eq!(s.height, 7);
        },
        other => panic!("unexpected {:?}", other),
    }
    match round_trip(Message::GetBlocks(2..9)) {
        Message::GetBlocks(r) => assert_eq!(r, 2..9),
        other => panic!("unexpected {:?}", other),
    }
    match round_trip(Message::Blocks(vec![genesis.duplicate(), b.duplicate()])) {
        Message::Blocks(v) => {
            assert_eq!(v.len(), 2);
            assert_eq!(v[1].hash(), b.hash());
        },
        other => panic!("unexpected {:?}", other),
    }
}

#[test]
fn message_tags_and_refusals() {
    assert_eq!(Message::GetStatus.bytes(), vec![3]);
    assert_eq!(Message::GetBlocks(1..2).bytes(), vec![5, 1, 0, 0, 0, 2, 0, 0, 0]);
    assert!(Message::decode(&[7]).is_err());
    assert!(Message::decode(&[3, 0]).is_err());
    assert!(Message::decode(&[1, 1, 0, 0, 0, 0, 0, 0, 0, 0xff]).is_err());
}
