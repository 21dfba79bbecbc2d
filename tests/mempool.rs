use minichain::crypto::PrivateKey;
use minichain::error::McError;
use minichain::mempool::TxPool;
use minichain::transaction::Transaction;

fn timed(data: Vec<u8>, first_seen: u128) -> Transaction {
    let mut t = Transaction::new(data);
    t.sign(&PrivateKey::generate());
    t.set_first_seen(first_seen);
    t
}

#[test]
fn pending_is_ordered_by_first_seen_with_ties_in_admission_order() {
    let mut pool = TxPool::new();
    pool.add_tx(timed(vec![1], 30));
    pool.add_tx(timed(vec![2], 10));
    pool.add_tx(timed(vec![3], 20));
    pool.add_tx(timed(vec![4], 10));
    let p = pool.pending().unwrap();
    let data: Vec<Vec<u8>> = p.iter().map(|t| t.data.clone()).collect();
    assert_eq!(data, vec![vec![2], vec![4], vec![3], vec![1]]);
    for w in p.windows(2) {
        assert!(w[0].first_seen() <= w[1].first_seen());
    }
}

#[test]
fn pending_refuses_untimed_transactions() {
    let mut pool = TxPool::new();
    pool.add_tx(timed(vec![1], 5));
    pool.add_tx(Transaction::new(vec![2]));
    assert_eq!(pool.pending().err(), Some(McError::MempoolUntimed));
}

#[test]
fn pool_dedups_by_hash_and_clear_keeps_history() {
    let mut pool = TxPool::new();
    let t = timed(vec![1, 2], 5);
    let h = t.hash();
    pool.add_tx(t.duplicate());
    pool.add_tx(t);
    assert_eq!(pool.len(), 1);
    assert!(pool.has_tx(&h));
    assert_eq!(pool.pending().unwrap().len(), 1);
    pool.clear_pending();
    assert_eq!(pool.pending().unwrap().len(), 0);
    assert!(pool.has_tx(&h));
    assert!(!pool.has_tx(&minichain::hash::Hash::zero()));
}
