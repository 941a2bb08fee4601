use event_notify::channel::DeliveryLog;
use event_notify::notifier::Action;
use event_notify::notifier::Block;
use event_notify::notifier::EventSubscribe;
use event_notify::notifier::ExecutedOperations;
use event_notify::notifier::Operation;
use event_notify::notifier::OperationNotifier;
use event_notify::notifier::StoreAnswer;
use event_notify::receipt::PriorityOpStatus;
use event_notify::receipt::TxReceipt;
use event_notify::tx_registry::TxSubs;
use event_notify::MAX_LISTENERS_PER_ENTITY;

fn tx_channel() -> (
    futures::sync::oneshot::Sender<TxReceipt>,
    futures::sync::oneshot::Receiver<TxReceipt>,
) {
    futures::sync::oneshot::channel()
}

fn op_channel() -> (
    futures::sync::oneshot::Sender<PriorityOpStatus>,
    futures::sync::oneshot::Receiver<PriorityOpStatus>,
) {
    futures::sync::oneshot::channel()
}

fn commit_block_with_tx(hash: [u8; 32], block_number: u32, success: bool) -> Operation {
    Operation {
        action: Action::Commit,
        block: Block {
            block_number,
            block_transactions: vec![ExecutedOperations::Tx {
                hash,
                success,
                fail_reason: None,
            }],
        },
    }
}

#[test]
fn scenario_unknown_tx_commit_dispatch_delivers() {
    let mut notifier = OperationNotifier::new();
    let mut log = DeliveryLog::new();
    let hash = [0xabu8; 32];
    let (tx, mut rx) = tx_channel();
    notifier.handle_subscription(
        &mut log,
        EventSubscribe::Transaction {
            hash: Box::new(hash),
            commit: true,
            notify: tx,
        },
        StoreAnswer::Transaction { receipt: None },
    );
    assert_eq!(notifier.tx_commit_subs.bucket_len(&hash), 1);
    assert_eq!(rx.try_recv().unwrap(), None);

    notifier.handle_new_block(&mut log, commit_block_with_tx(hash, 10, true));
    let got = rx.try_recv().unwrap().expect("waiter must be delivered to");
    assert_eq!(got.tx_hash, "ab".repeat(32));
    assert_eq!(got.block_number, 10);
    assert!(got.success);
    assert_eq!(got.fail_reason, None);
    assert!(!got.verified);
}

#[test]
fn hex_rendering_is_lowercase_in_order() {
    let mut notifier = OperationNotifier::new();
    let mut log = DeliveryLog::new();
    let mut hash = [0u8; 32];
    let mut i = 0usize;
    while i < 32 {
        hash[i] = i as u8;
        i += 1;
    }
    let (tx, mut rx) = tx_channel();
    notifier.handle_subscription(
        &mut log,
        EventSubscribe::Transaction {
            hash: Box::new(hash),
            commit: true,
            notify: tx,
        },
        StoreAnswer::Transaction { receipt: None },
    );
    notifier.handle_new_block(&mut log, commit_block_with_tx(hash, 1, true));
    let got = rx.try_recv().unwrap().expect("delivered");
    assert_eq!(
        got.tx_hash,
        "000102030405060708090a0b0c0d0e0f101112131415161718191a1b1c1d1e1f"
    );
}

#[test]
fn scenario_verified_receipt_resolves_immediately() {
    let mut notifier = OperationNotifier::new();
    let mut log = DeliveryLog::new();
    let hash = [0x11u8; 32];
    let stored = TxReceipt {
        tx_hash: "11".repeat(32),
        block_number: 5,
        success: true,
        fail_reason: None,
        verified: true,
    };
    let (tx, mut rx) = tx_channel();
    notifier.handle_subscription(
        &mut log,
        EventSubscribe::Transaction {
            hash: Box::new(hash),
            commit: false,
            notify: tx,
        },
        StoreAnswer::Transaction {
            receipt: Some(TxReceipt {
                tx_hash: stored.tx_hash.clone(),
                block_number: stored.block_number,
                success: stored.success,
                fail_reason: None,
                verified: stored.verified,
            }),
        },
    );
    let got = rx.try_recv().unwrap().expect("resolved immediately");
    assert_eq!(got, stored);
    assert!(!notifier.tx_verify_subs.contains(&hash));
    assert!(!notifier.tx_commit_subs.contains(&hash));
}

#[test]
fn level_correctness_commit_satisfied_by_any_status() {
    let mut notifier = OperationNotifier::new();
    let mut log = DeliveryLog::new();
    let hash = [0x22u8; 32];
    let (tx, mut rx) = tx_channel();
    notifier.handle_subscription(
        &mut log,
        EventSubscribe::Transaction {
            hash: Box::new(hash),
            commit: true,
            notify: tx,
        },
        StoreAnswer::Transaction {
            receipt: Some(TxReceipt {
                tx_hash: "22".repeat(32),
                block_number: 4,
                success: false,
                fail_reason: Some(String::from("nonce mismatch")),
                verified: false,
            }),
        },
    );
    let got = rx.try_recv().unwrap().expect("commit level satisfied");
    assert!(!got.verified);
    assert_eq!(got.fail_reason, Some(String::from("nonce mismatch")));
    assert!(!notifier.tx_commit_subs.contains(&hash));
}

#[test]
fn level_correctness_verified_not_satisfied_by_unverified_status() {
    let mut notifier = OperationNotifier::new();
    let mut log = DeliveryLog::new();
    let hash = [0x33u8; 32];
    let (tx, mut rx) = tx_channel();
    notifier.handle_subscription(
        &mut log,
        EventSubscribe::Transaction {
            hash: Box::new(hash),
            commit: false,
            notify: tx,
        },
        StoreAnswer::Transaction {
            receipt: Some(TxReceipt {
                tx_hash: "33".repeat(32),
                block_number: 4,
                success: true,
                fail_reason: None,
                verified: false,
            }),
        },
    );
    assert_eq!(rx.try_recv().unwrap(), None);
    assert_eq!(notifier.tx_verify_subs.bucket_len(&hash), 1);
    assert_eq!(notifier.tx_commit_subs.bucket_len(&hash), 0);
}

#[test]
fn scenario_priority_op_parked_then_verify_dispatch_delivers() {
    let mut notifier = OperationNotifier::new();
    let mut log = DeliveryLog::new();
    let (tx, mut rx) = op_channel();
    notifier.handle_subscription(
        &mut log,
        EventSubscribe::PriorityOp {
            serial_id: 7,
            commit: false,
            notify: tx,
        },
        StoreAnswer::PriorityOp {
            executed: Some(3),
            verify_confirmed: Some(false),
        },
    );
    assert_eq!(rx.try_recv().unwrap(), None);
    assert_eq!(notifier.prior_op_verify_subs.bucket_len(7), 1);

    notifier.handle_new_block(
        &mut log,
        Operation {
            action: Action::Verify,
            block: Block {
                block_number: 3,
                block_transactions: vec![ExecutedOperations::PriorityOp { serial_id: 7 }],
            },
        },
    );
    let got = rx.try_recv().unwrap().expect("delivered by verify dispatch");
    assert_eq!(
        got,
        PriorityOpStatus {
            executed: true,
            block: Some(3),
        }
    );
    assert!(!notifier.prior_op_verify_subs.contains(7));
}

#[test]
fn priority_op_commit_satisfied_immediately_when_executed() {
    let mut notifier = OperationNotifier::new();
    let mut log = DeliveryLog::new();
    let (tx, mut rx) = op_channel();
    notifier.handle_subscription(
        &mut log,
        EventSubscribe::PriorityOp {
            serial_id: 4,
            commit: true,
            notify: tx,
        },
        StoreAnswer::PriorityOp {
            executed: Some(9),
            verify_confirmed: None,
        },
    );
    let got = rx.try_recv().unwrap().expect("resolved immediately");
    assert_eq!(
        got,
        PriorityOpStatus {
            executed: true,
            block: Some(9),
        }
    );
    assert!(!notifier.prior_op_commit_subs.contains(4));
}

#[test]
fn priority_op_unknown_is_parked_even_at_commit_level() {
    let mut notifier = OperationNotifier::new();
    let mut log = DeliveryLog::new();
    let (tx, mut rx) = op_channel();
    notifier.handle_subscription(
        &mut log,
        EventSubscribe::PriorityOp {
            serial_id: 12,
            commit: true,
            notify: tx,
        },
        StoreAnswer::PriorityOp {
            executed: None,
            verify_confirmed: None,
        },
    );
    assert_eq!(rx.try_recv().unwrap(), None);
    assert_eq!(notifier.prior_op_commit_subs.bucket_len(12), 1);
}

#[test]
fn scenario_two_waiters_receive_identical_outcomes() {
    let mut notifier = OperationNotifier::new();
    let mut log = DeliveryLog::new();
    let hash = [0x44u8; 32];
    let (tx1, mut rx1) = tx_channel();
    let (tx2, mut rx2) = tx_channel();
    for tx in [tx1, tx2] {
        notifier.handle_subscription(
            &mut log,
            EventSubscribe::Transaction {
                hash: Box::new(hash),
                commit: true,
                notify: tx,
            },
            StoreAnswer::Transaction { receipt: None },
        );
    }
    assert_eq!(notifier.tx_commit_subs.bucket_len(&hash), 2);
    notifier.handle_new_block(&mut log, commit_block_with_tx(hash, 77, false));
    let first = rx1.try_recv().unwrap().expect("first waiter delivered");
    let second = rx2.try_recv().unwrap().expect("second waiter delivered");
    assert_eq!(first, second);
    assert_eq!(first.block_number, 77);
    assert!(!first.success);
}

#[test]
fn bucket_cleanup_after_dispatch() {
    let mut notifier = OperationNotifier::new();
    let mut log = DeliveryLog::new();
    let hash = [0x55u8; 32];
    let (tx, _rx) = tx_channel();
    notifier.handle_subscription(
        &mut log,
        EventSubscribe::Transaction {
            hash: Box::new(hash),
            commit: true,
            notify: tx,
        },
        StoreAnswer::Transaction { receipt: None },
    );
    assert!(notifier.tx_commit_subs.contains(&hash));
    notifier.handle_new_block(&mut log, commit_block_with_tx(hash, 2, true));
    assert!(!notifier.tx_commit_subs.contains(&hash));
    assert_eq!(notifier.tx_commit_subs.bucket_len(&hash), 0);
}

#[test]
fn dispatch_level_does_not_touch_other_level() {
    let mut notifier = OperationNotifier::new();
    let mut log = DeliveryLog::new();
    let hash = [0x66u8; 32];
    let (tx, mut rx) = tx_channel();
    notifier.handle_subscription(
        &mut log,
        EventSubscribe::Transaction {
            hash: Box::new(hash),
            commit: false,
            notify: tx,
        },
        StoreAnswer::Transaction { receipt: None },
    );
    // A commit for the same hash must not wake a verify-level waiter.
    notifier.handle_new_block(&mut log, commit_block_with_tx(hash, 8, true));
    assert_eq!(rx.try_recv().unwrap(), None);
    assert_eq!(notifier.tx_verify_subs.bucket_len(&hash), 1);
}

#[test]
fn bounded_growth_bucket_never_exceeds_limit() {
    let mut notifier = OperationNotifier::new();
    let mut log = DeliveryLog::new();
    let hash = [0x77u8; 32];
    let mut receivers = Vec::new();
    let mut i = 0usize;
    while i < MAX_LISTENERS_PER_ENTITY + 1 {
        let (tx, rx) = tx_channel();
        receivers.push(rx);
        notifier.handle_subscription(
            &mut log,
            EventSubscribe::Transaction {
                hash: Box::new(hash),
                commit: true,
                notify: tx,
            },
            StoreAnswer::Transaction { receipt: None },
        );
        i += 1;
    }
    assert_eq!(
        notifier.tx_commit_subs.bucket_len(&hash),
        MAX_LISTENERS_PER_ENTITY
    );
    // The one registration past the bound was a no-op: its waiter can
    // never be delivered to, and the registry did not grow.
    let overflow = receivers.pop().unwrap();
    drop(notifier);
    let mut overflow = overflow;
    assert!(overflow.try_recv().is_err());
}

#[test]
fn full_bucket_register_returns_false_and_keeps_state() {
    let mut subs = TxSubs::new();
    let key = [0x01u8; 32];
    let mut i = 0usize;
    while i < MAX_LISTENERS_PER_ENTITY {
        let (tx, rx) = tx_channel();
        assert!(subs.try_register(key, tx));
        std::mem::forget(rx);
        i += 1;
    }
    let (tx, _rx) = tx_channel();
    assert!(!subs.try_register(key, tx));
    assert_eq!(subs.bucket_len(&key), MAX_LISTENERS_PER_ENTITY);
}

#[test]
fn empty_block_dispatch_changes_nothing() {
    let mut notifier = OperationNotifier::new();
    let mut log = DeliveryLog::new();
    let hash = [0x42u8; 32];
    let (tx, mut rx) = tx_channel();
    notifier.handle_subscription(
        &mut log,
        EventSubscribe::Transaction {
            hash: Box::new(hash),
            commit: true,
            notify: tx,
        },
        StoreAnswer::Transaction { receipt: None },
    );
    notifier.handle_new_block(
        &mut log,
        Operation {
            action: Action::Commit,
            block: Block {
                block_number: 99,
                block_transactions: vec![],
            },
        },
    );
    assert_eq!(rx.try_recv().unwrap(), None);
    assert_eq!(notifier.tx_commit_subs.bucket_len(&hash), 1);
}

#[test]
fn delivery_to_gone_waiter_is_ignored() {
    let mut notifier = OperationNotifier::new();
    let mut log = DeliveryLog::new();
    let hash = [0x88u8; 32];
    let (tx, rx) = tx_channel();
    notifier.handle_subscription(
        &mut log,
        EventSubscribe::Transaction {
            hash: Box::new(hash),
            commit: true,
            notify: tx,
        },
        StoreAnswer::Transaction { receipt: None },
    );
    drop(rx);
    // Must neither panic nor abort delivery bookkeeping.
    notifier.handle_new_block(&mut log, commit_block_with_tx(hash, 3, true));
    assert!(!notifier.tx_commit_subs.contains(&hash));
}

#[test]
fn duplicate_entity_in_one_block_delivers_once() {
    let mut notifier = OperationNotifier::new();
    let mut log = DeliveryLog::new();
    let hash = [0x99u8; 32];
    let (tx, mut rx) = tx_channel();
    notifier.handle_subscription(
        &mut log,
        EventSubscribe::Transaction {
            hash: Box::new(hash),
            commit: true,
            notify: tx,
        },
        StoreAnswer::Transaction { receipt: None },
    );
    notifier.handle_new_block(
        &mut log,
        Operation {
            action: Action::Commit,
            block: Block {
                block_number: 6,
                block_transactions: vec![
                    ExecutedOperations::Tx {
                        hash,
                        success: true,
                        fail_reason: None,
                    },
                    ExecutedOperations::Tx {
                        hash,
                        success: false,
                        fail_reason: Some(String::from("replayed")),
                    },
                ],
            },
        },
    );
    // The bucket was drained by the first entry; the waiter received that
    // entry's outcome and only that one.
    let got = rx.try_recv().unwrap().expect("delivered once");
    assert!(got.success);
    assert_eq!(got.fail_reason, None);
    assert!(!notifier.tx_commit_subs.contains(&hash));
}

#[test]
fn verify_dispatch_marks_receipt_verified() {
    let mut notifier = OperationNotifier::new();
    let mut log = DeliveryLog::new();
    let hash = [0xcdu8; 32];
    let (tx, mut rx) = tx_channel();
    notifier.handle_subscription(
        &mut log,
        EventSubscribe::Transaction {
            hash: Box::new(hash),
            commit: false,
            notify: tx,
        },
        StoreAnswer::Transaction { receipt: None },
    );
    notifier.handle_new_block(
        &mut log,
        Operation {
            action: Action::Verify,
            block: Block {
                block_number: 21,
                block_transactions: vec![ExecutedOperations::Tx {
                    hash,
                    success: false,
                    fail_reason: Some(String::from("out of gas")),
                }],
            },
        },
    );
    let got = rx.try_recv().unwrap().expect("delivered");
    assert!(got.verified);
    assert_eq!(got.fail_reason, Some(String::from("out of gas")));
    assert_eq!(got.block_number, 21);
}
