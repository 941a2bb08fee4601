//! The notifier core: resolving subscription requests against the answer
//! already persisted for the entity, and dispatching newly confirmed
//! blocks to the pending waiters.
//!
//! All state changes and all deliveries of both operations are pinned down
//! by the spec functions [`spec_subscription`] and [`spec_dispatch`]: each
//! returns the registry state after the step and the sequence of
//! deliveries the step makes, in order.

use vstd::prelude::*;

use crate::bucket_or_empty;
use crate::channel::send_priority_op_status;
use crate::channel::send_tx_receipt;
use crate::channel::Delivery;
use crate::channel::DeliveryLog;
use crate::channel::OpSender;
use crate::channel::TxSender;
use crate::op_registry::OpSubs;
use crate::receipt::fail_reason_view;
use crate::receipt::hex_encode;
use crate::receipt::hex_of;
use crate::receipt::PriorityOpStatus;
use crate::receipt::TxReceipt;
use crate::receipt::TxReceiptData;
use crate::tx_registry::TxSubs;
use crate::MAX_LISTENERS_PER_ENTITY;

verus! {

/// Whether a confirmed block commits (proposes) or verifies (finalizes)
/// its operations.
pub enum Action {
    Commit,
    Verify,
}

/// One executed entity carried by a confirmed block.
pub enum ExecutedOperations {
    Tx { hash: [u8; 32], success: bool, fail_reason: Option<String> },
    PriorityOp { serial_id: u64 },
}

/// The executed entities of one confirmed block, in execution order.
pub struct Block {
    pub block_number: u32,
    pub block_transactions: Vec<ExecutedOperations>,
}

/// A newly confirmed operation: a block together with the confirmation
/// level its arrival establishes.
pub struct Operation {
    pub action: Action,
    pub block: Block,
}

/// A subscription request: the entity waited for, the confirmation level
/// (`commit` true for committed, false for verified), and the one-shot
/// handle the outcome is delivered to.
pub enum EventSubscribe {
    Transaction { hash: Box<[u8; 32]>, commit: bool, notify: TxSender },
    PriorityOp { serial_id: u64, commit: bool, notify: OpSender },
}

/// What the confirmation store answered for the entity of one
/// subscription; any store failure is presented as `None`, never as an
/// error.
pub enum StoreAnswer {
    /// The receipt persisted for the transaction, if any.
    Transaction { receipt: Option<TxReceipt> },
    /// The block number the priority operation executed in, if it did,
    /// and the `confirmed` flag of the stored verify action for that
    /// block, if one is stored.
    PriorityOp { executed: Option<i64>, verify_confirmed: Option<bool> },
}

/// The store answer speaks of the same kind of entity as the
/// subscription.
pub open spec fn answer_matches(sub: EventSubscribe, answer: StoreAnswer) -> bool {
    match sub {
        EventSubscribe::Transaction { .. } => answer is Transaction,
        EventSubscribe::PriorityOp { .. } => answer is PriorityOp,
    }
}

/// The four waiter registries, one per entity kind and confirmation
/// level.
pub struct OperationNotifier {
    pub tx_commit_subs: TxSubs,
    pub tx_verify_subs: TxSubs,
    pub prior_op_commit_subs: OpSubs,
    pub prior_op_verify_subs: OpSubs,
}

/// The mathematical value of the notifier: four maps from entity identity
/// to the pending bucket.
pub struct NotifierState {
    pub tx_commit: Map<Seq<u8>, Seq<TxSender>>,
    pub tx_verify: Map<Seq<u8>, Seq<TxSender>>,
    pub prior_op_commit: Map<u64, Seq<OpSender>>,
    pub prior_op_verify: Map<u64, Seq<OpSender>>,
}

impl View for OperationNotifier {
    type V = NotifierState;

    open spec fn view(&self) -> NotifierState {
        NotifierState {
            tx_commit: self.tx_commit_subs@,
            tx_verify: self.tx_verify_subs@,
            prior_op_commit: self.prior_op_commit_subs@,
            prior_op_verify: self.prior_op_verify_subs@,
        }
    }
}

/// An existing status satisfies a committed subscription always, a
/// verified subscription only if it is itself verified.
pub open spec fn tx_sub_satisfied(commit: bool, receipt: Option<TxReceipt>) -> bool {
    match receipt {
        Some(r) => commit || r.verified,
        None => false,
    }
}

/// A priority operation known executed satisfies a committed
/// subscription always, a verified subscription only if the verify
/// action of its block is stored and confirmed.
pub open spec fn prior_op_sub_satisfied(
    commit: bool,
    executed: Option<i64>,
    verify_confirmed: Option<bool>,
) -> bool {
    match executed {
        Some(_) => commit || verify_confirmed == Some(true),
        None => false,
    }
}

/// The state after a transaction subscription and the deliveries it
/// makes: answered at once where satisfied, else parked in the matching
/// registry if its bucket has capacity, else dropped.
pub open spec fn spec_tx_subscription(
    st: NotifierState,
    hash: Seq<u8>,
    commit: bool,
    notify: TxSender,
    receipt: Option<TxReceipt>,
) -> (NotifierState, Seq<Delivery>) {
    if tx_sub_satisfied(commit, receipt) {
        (st, seq![Delivery::Tx(notify, receipt.unwrap()@)])
    } else {
        let m = if commit {
            st.tx_commit
        } else {
            st.tx_verify
        };
        let b = bucket_or_empty(m, hash);
        let m2 = if b.len() < MAX_LISTENERS_PER_ENTITY as int {
            m.insert(hash, b.push(notify))
        } else {
            m
        };
        let st2 = if commit {
            NotifierState { tx_commit: m2, ..st }
        } else {
            NotifierState { tx_verify: m2, ..st }
        };
        (st2, Seq::empty())
    }
}

/// The state after a priority-operation subscription and the deliveries
/// it makes.
pub open spec fn spec_prior_op_subscription(
    st: NotifierState,
    serial_id: u64,
    commit: bool,
    notify: OpSender,
    executed: Option<i64>,
    verify_confirmed: Option<bool>,
) -> (NotifierState, Seq<Delivery>) {
    if prior_op_sub_satisfied(commit, executed, verify_confirmed) {
        (
            st,
            seq![
                Delivery::PriorityOp(
                    notify,
                    (PriorityOpStatus { executed: true, block: Some(executed.unwrap()) }),
                )
            ],
        )
    } else {
        let m = if commit {
            st.prior_op_commit
        } else {
            st.prior_op_verify
        };
        let b = bucket_or_empty(m, serial_id);
        let m2 = if b.len() < MAX_LISTENERS_PER_ENTITY as int {
            m.insert(serial_id, b.push(notify))
        } else {
            m
        };
        let st2 = if commit {
            NotifierState { prior_op_commit: m2, ..st }
        } else {
            NotifierState { prior_op_verify: m2, ..st }
        };
        (st2, Seq::empty())
    }
}

/// The state after one subscription of either kind, and the deliveries it
/// makes.
pub open spec fn spec_subscription(
    st: NotifierState,
    sub: EventSubscribe,
    answer: StoreAnswer,
) -> (NotifierState, Seq<Delivery>)
    recommends
        answer_matches(sub, answer),
{
    match sub {
        EventSubscribe::Transaction { hash, commit, notify } => match answer {
            StoreAnswer::Transaction { receipt } => spec_tx_subscription(
                st,
                hash@,
                commit,
                notify,
                receipt,
            ),
            _ => (st, Seq::empty()),
        },
        EventSubscribe::PriorityOp { serial_id, commit, notify } => match answer {
            StoreAnswer::PriorityOp { executed, verify_confirmed } => spec_prior_op_subscription(
                st,
                serial_id,
                commit,
                notify,
                executed,
                verify_confirmed,
            ),
            _ => (st, Seq::empty()),
        },
    }
}

/// The receipt delivered for a transaction executed in a given block,
/// confirmed at a given level.
pub open spec fn dispatched_receipt(
    hash: Seq<u8>,
    block_number: u32,
    success: bool,
    fail_reason: Option<Seq<char>>,
    verified: bool,
) -> TxReceiptData {
    TxReceiptData {
        tx_hash: hex_of(hash),
        block_number: block_number as int,
        success: success,
        fail_reason: fail_reason,
        verified: verified,
    }
}

/// The state after dispatching one executed entity at one level, and the
/// deliveries made for it: the matching bucket, if one is present, is
/// drained, and every waiter in it receives the entity's outcome, in
/// bucket order.
pub open spec fn spec_dispatch_step(
    st: NotifierState,
    commit: bool,
    block_number: u32,
    e: ExecutedOperations,
) -> (NotifierState, Seq<Delivery>) {
    match e {
        ExecutedOperations::Tx { hash, success, fail_reason } => {
            let m = if commit {
                st.tx_commit
            } else {
                st.tx_verify
            };
            if m.contains_key(hash@) {
                let waiters = m[hash@];
                let rv = dispatched_receipt(
                    hash@,
                    block_number,
                    success,
                    fail_reason_view(fail_reason),
                    !commit,
                );
                let st2 = if commit {
                    NotifierState { tx_commit: m.remove(hash@), ..st }
                } else {
                    NotifierState { tx_verify: m.remove(hash@), ..st }
                };
                (st2, Seq::new(waiters.len(), |i: int| Delivery::Tx(waiters[i], rv)))
            } else {
                (st, Seq::empty())
            }
        },
        ExecutedOperations::PriorityOp { serial_id } => {
            let m = if commit {
                st.prior_op_commit
            } else {
                st.prior_op_verify
            };
            if m.contains_key(serial_id) {
                let waiters = m[serial_id];
                let status = PriorityOpStatus { executed: true, block: Some(block_number as i64) };
                let st2 = if commit {
                    NotifierState { prior_op_commit: m.remove(serial_id), ..st }
                } else {
                    NotifierState { prior_op_verify: m.remove(serial_id), ..st }
                };
                (st2, Seq::new(waiters.len(), |i: int| Delivery::PriorityOp(waiters[i], status)))
            } else {
                (st, Seq::empty())
            }
        },
    }
}

/// The state after dispatching a whole block's entities in order, and the
/// deliveries made, in order.
pub open spec fn spec_dispatch(
    st: NotifierState,
    commit: bool,
    block_number: u32,
    ops: Seq<ExecutedOperations>,
) -> (NotifierState, Seq<Delivery>)
    decreases ops.len(),
{
    if ops.len() == 0 {
        (st, Seq::empty())
    } else {
        let head = spec_dispatch_step(st, commit, block_number, ops.first());
        let rest = spec_dispatch(head.0, commit, block_number, ops.drop_first());
        (rest.0, head.1 + rest.1)
    }
}

impl OperationNotifier {
    /// All four registries are well-formed.
    pub open spec fn wf(&self) -> bool {
        &&& self.tx_commit_subs.wf()
        &&& self.tx_verify_subs.wf()
        &&& self.prior_op_commit_subs.wf()
        &&& self.prior_op_verify_subs.wf()
    }

    /// A notifier with no pending waiter.
    pub fn new() -> (r: Self)
        ensures
            r.wf(),
            r@.tx_commit == Map::<Seq<u8>, Seq<TxSender>>::empty(),
            r@.tx_verify == Map::<Seq<u8>, Seq<TxSender>>::empty(),
            r@.prior_op_commit == Map::<u64, Seq<OpSender>>::empty(),
            r@.prior_op_verify == Map::<u64, Seq<OpSender>>::empty(),
    {
        OperationNotifier {
            tx_commit_subs: TxSubs::new(),
            tx_verify_subs: TxSubs::new(),
            prior_op_commit_subs: OpSubs::new(),
            prior_op_verify_subs: OpSubs::new(),
        }
    }

    /// Resolves one subscription against the store's answer for its
    /// entity: delivers at once where the answer satisfies the requested
    /// level, otherwise registers the waiter (dropping it silently if its
    /// bucket is full).
    pub fn handle_subscription(
        &mut self,
        log: &mut DeliveryLog,
        new_sub: EventSubscribe,
        answer: StoreAnswer,
    )
        requires
            old(self).wf(),
            answer_matches(new_sub, answer),
        ensures
            final(self).wf(),
            ({
                let r = spec_subscription(old(self)@, new_sub, answer);
                final(self)@ == r.0 && final(log)@ == old(log)@ + r.1
            }),
    {
        match (new_sub, answer) {
            (
                EventSubscribe::Transaction { hash, commit, notify },
                StoreAnswer::Transaction { receipt },
            ) => {
                let satisfied = match &receipt {
                    Some(r) => commit || r.verified,
                    None => false,
                };
                if satisfied {
                    let r = match receipt {
                        Some(r) => r,
                        None => unreached(),
                    };
                    send_tx_receipt(log, notify, r);
                    proof {
                        assert(log@ =~= old(log)@ + seq![
                            Delivery::Tx(notify, receipt.unwrap()@)
                        ]);
                    }
                } else {
                    let h: [u8; 32] = *hash;
                    if commit {
                        let _ = self.tx_commit_subs.try_register(h, notify);
                    } else {
                        let _ = self.tx_verify_subs.try_register(h, notify);
                    }
                    proof {
                        assert(log@ =~= old(log)@ + Seq::<Delivery>::empty());
                    }
                }
            },
            (
                EventSubscribe::PriorityOp { serial_id, commit, notify },
                StoreAnswer::PriorityOp { executed, verify_confirmed },
            ) => {
                let satisfied = match executed {
                    Some(_) => commit || verify_confirmed == Some(true),
                    None => false,
                };
                if satisfied {
                    let block = match executed {
                        Some(b) => b,
                        None => unreached(),
                    };
                    let status = PriorityOpStatus { executed: true, block: Some(block) };
                    send_priority_op_status(log, notify, status);
                    proof {
                        assert(log@ =~= old(log)@ + seq![
                            Delivery::PriorityOp(
                                notify,
                                (PriorityOpStatus { executed: true, block: Some(executed.unwrap()) }),
                            )
                        ]);
                    }
                } else {
                    if commit {
                        let _ = self.prior_op_commit_subs.try_register(serial_id, notify);
                    } else {
                        let _ = self.prior_op_verify_subs.try_register(serial_id, notify);
                    }
                    proof {
                        assert(log@ =~= old(log)@ + Seq::<Delivery>::empty());
                    }
                }
            },
            _ => {
                unreached()
            },
        }
    }

    /// Dispatches one newly confirmed block: for each executed entity in
    /// order, drains the bucket matching the block's confirmation level
    /// and delivers the entity's outcome to every drained waiter, in
    /// bucket order.
    pub fn handle_new_block(&mut self, log: &mut DeliveryLog, op: Operation)
        requires
            old(self).wf(),
        ensures
            final(self).wf(),
            ({
                let r = spec_dispatch(
                    old(self)@,
                    op.action is Commit,
                    op.block.block_number,
                    op.block.block_transactions@,
                );
                final(self)@ == r.0 && final(log)@ == old(log)@ + r.1
            }),
    {
        let commit = match &op.action {
            Action::Commit => true,
            Action::Verify => false,
        };
        let block_number = op.block.block_number;
        let mut ops = op.block.block_transactions;
        let ghost ops0 = ops@;
        let ghost st0 = self@;
        let ghost log0 = log@;
        let ghost mut emitted = Seq::<Delivery>::empty();
        proof {
            assert(log@ =~= log0 + emitted);
        }
        while ops.len() > 0
            invariant
                self.wf(),
                log@ == log0 + emitted,
                ({
                    let full = spec_dispatch(st0, commit, block_number, ops0);
                    let rest = spec_dispatch(self@, commit, block_number, ops@);
                    full.0 == rest.0 && full.1 == emitted + rest.1
                }),
            decreases ops.len(),
        {
            let ghost pre_ops = ops@;
            let ghost pre_st = self@;
            let e = ops.remove(0);
            proof {
                assert(pre_ops.first() == e);
                assert(pre_ops.remove(0) =~= pre_ops.drop_first());
            }
            let ghost step = spec_dispatch_step(pre_st, commit, block_number, e);
            match e {
                ExecutedOperations::Tx { hash, success, fail_reason } => {
                    let subs = if commit {
                        self.tx_commit_subs.drain(&hash)
                    } else {
                        self.tx_verify_subs.drain(&hash)
                    };
                    match subs {
                        Some(mut channels) => {
                            let receipt = TxReceipt {
                                tx_hash: hex_encode(&hash),
                                block_number: block_number as i64,
                                success: success,
                                fail_reason: fail_reason,
                                verified: !commit,
                            };
                            let ghost rv = receipt@;
                            let ghost waiters0 = channels@;
                            let ghost log1 = log@;
                            proof {
                                assert(rv == dispatched_receipt(
                                    hash@,
                                    block_number,
                                    success,
                                    fail_reason_view(fail_reason),
                                    !commit,
                                ));
                            }
                            while channels.len() > 0
                                invariant
                                    channels@.len() <= waiters0.len(),
                                    forall|i: int| 0 <= i < channels@.len() ==> channels@[i]
                                        == waiters0[waiters0.len() - channels@.len() + i],
                                    receipt@ == rv,
                                    log@ == log1 + Seq::new(
                                        (waiters0.len() - channels@.len()) as nat,
                                        |i: int| Delivery::Tx(waiters0[i], rv),
                                    ),
                                decreases channels@.len(),
                            {
                                let ghost sent = waiters0.len() - channels@.len();
                                let ghost pre_channels = channels@;
                                let ch = channels.remove(0);
                                proof {
                                    pre_channels.remove_ensures(0);
                                    assert(ch == pre_channels[0] && pre_channels[0] == waiters0[
                                        sent
                                    ]);
                                    assert forall|i: int|
                                        0 <= i < channels@.len() implies channels@[i] == waiters0[
                                        sent + 1 + i
                                    ] by {
                                        assert(channels@[i] == pre_channels[i + 1]);
                                    }
                                }
                                let copy = receipt.duplicate();
                                send_tx_receipt(log, ch, copy);
                                proof {
                                    assert(log@ =~= log1 + Seq::new(
                                        (sent + 1) as nat,
                                        |i: int| Delivery::Tx(waiters0[i], rv),
                                    ));
                                }
                            }
                            proof {
                                assert(step.1 =~= Seq::new(
                                    waiters0.len(),
                                    |i: int| Delivery::Tx(waiters0[i], rv),
                                ));
                                assert(self@ == step.0);
                            }
                        },
                        None => {
                            proof {
                                assert(step == (pre_st, Seq::<Delivery>::empty()));
                                assert(log@ =~= log@ + Seq::<Delivery>::empty());
                            }
                        },
                    }
                },
                ExecutedOperations::PriorityOp { serial_id } => {
                    let subs = if commit {
                        self.prior_op_commit_subs.drain(serial_id)
                    } else {
                        self.prior_op_verify_subs.drain(serial_id)
                    };
                    match subs {
                        Some(mut channels) => {
                            let status = PriorityOpStatus {
                                executed: true,
                                block: Some(block_number as i64),
                            };
                            let ghost waiters0 = channels@;
                            let ghost log1 = log@;
                            while channels.len() > 0
                                invariant
                                    channels@.len() <= waiters0.len(),
                                    forall|i: int| 0 <= i < channels@.len() ==> channels@[i]
                                        == waiters0[waiters0.len() - channels@.len() + i],
                                    status == (PriorityOpStatus {
                                        executed: true,
                                        block: Some(block_number as i64),
                                    }),
                                    log@ == log1 + Seq::new(
                                        (waiters0.len() - channels@.len()) as nat,
                                        |i: int| Delivery::PriorityOp(waiters0[i], status),
                                    ),
                                decreases channels@.len(),
                            {
                                let ghost sent = waiters0.len() - channels@.len();
                                let ghost pre_channels = channels@;
                                let ch = channels.remove(0);
                                proof {
                                    pre_channels.remove_ensures(0);
                                    assert(ch == pre_channels[0] && pre_channels[0] == waiters0[
                                        sent
                                    ]);
                                    assert forall|i: int|
                                        0 <= i < channels@.len() implies channels@[i] == waiters0[
                                        sent + 1 + i
                                    ] by {
                                        assert(channels@[i] == pre_channels[i + 1]);
                                    }
                                }
                                send_priority_op_status(log, ch, status);
                                proof {
                                    assert(log@ =~= log1 + Seq::new(
                                        (sent + 1) as nat,
                                        |i: int| Delivery::PriorityOp(waiters0[i], status),
                                    ));
                                }
                            }
                            proof {
                                assert(step.1 =~= Seq::new(
                                    waiters0.len(),
                                    |i: int| Delivery::PriorityOp(waiters0[i], status),
                                ));
                                assert(self@ == step.0);
                            }
                        },
                        None => {
                            proof {
                                assert(step == (pre_st, Seq::<Delivery>::empty()));
                                assert(log@ =~= log@ + Seq::<Delivery>::empty());
                            }
                        },
                    }
                },
            }
            proof {
                assert(log@ =~= (log0 + emitted) + step.1);
                assert((log0 + emitted) + step.1 =~= log0 + (emitted + step.1));
                let full = spec_dispatch(st0, commit, block_number, ops0);
                let pre_rest = spec_dispatch(pre_st, commit, block_number, pre_ops);
                let rest = spec_dispatch(self@, commit, block_number, ops@);
                assert(pre_rest.0 == rest.0 && pre_rest.1 == step.1 + rest.1);
                assert(emitted + pre_rest.1 =~= (emitted + step.1) + rest.1);
                emitted = emitted + step.1;
                assert(log@ =~= log0 + emitted);
            }
        }
        proof {
            let full = spec_dispatch(st0, commit, block_number, ops0);
            assert(ops@.len() == 0);
            assert(full.0 == self@);
            assert(full.1 =~= emitted + Seq::<Delivery>::empty());
            assert(full.1 =~= emitted);
            assert(log@ =~= log0 + full.1);
        }
    }
}

} // verus!
