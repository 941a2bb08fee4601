//! Laws relating subscription and dispatch: a waiter pending at the level
//! a block confirms is always delivered to by that block's dispatch, and a
//! drained bucket is gone from the registry afterwards.

use vstd::prelude::*;

use crate::channel::Delivery;
use crate::channel::OpSender;
use crate::channel::TxSender;
use crate::bucket_or_empty;
use crate::notifier::dispatched_receipt;
use crate::notifier::prior_op_sub_satisfied;
use crate::notifier::spec_prior_op_subscription;
use crate::notifier::spec_tx_subscription;
use crate::notifier::tx_sub_satisfied;
use crate::notifier::spec_dispatch;
use crate::notifier::spec_dispatch_step;
use crate::notifier::ExecutedOperations;
use crate::notifier::NotifierState;
use crate::receipt::fail_reason_view;
use crate::receipt::PriorityOpStatus;
use crate::receipt::TxReceipt;
use crate::MAX_LISTENERS_PER_ENTITY;

verus! {

/// The hash of an executed transaction entity.
pub open spec fn tx_hash_of(e: ExecutedOperations) -> Seq<u8>
    recommends
        e is Tx,
{
    match e {
        ExecutedOperations::Tx { hash, .. } => hash@,
        ExecutedOperations::PriorityOp { .. } => Seq::empty(),
    }
}

/// The success flag of an executed transaction entity.
pub open spec fn tx_success_of(e: ExecutedOperations) -> bool
    recommends
        e is Tx,
{
    match e {
        ExecutedOperations::Tx { success, .. } => success,
        ExecutedOperations::PriorityOp { .. } => false,
    }
}

/// The failure reason of an executed transaction entity.
pub open spec fn tx_fail_reason_of(e: ExecutedOperations) -> Option<String>
    recommends
        e is Tx,
{
    match e {
        ExecutedOperations::Tx { fail_reason, .. } => fail_reason,
        ExecutedOperations::PriorityOp { .. } => None,
    }
}

/// The serial id of an executed priority-operation entity.
pub open spec fn serial_id_of(e: ExecutedOperations) -> u64
    recommends
        e is PriorityOp,
{
    match e {
        ExecutedOperations::PriorityOp { serial_id } => serial_id,
        ExecutedOperations::Tx { .. } => 0,
    }
}

/// The transaction map a dispatch at this level reads and drains.
pub open spec fn tx_map_at(st: NotifierState, commit: bool) -> Map<Seq<u8>, Seq<TxSender>> {
    if commit {
        st.tx_commit
    } else {
        st.tx_verify
    }
}

/// The priority-operation map a dispatch at this level reads and drains.
pub open spec fn op_map_at(st: NotifierState, commit: bool) -> Map<u64, Seq<OpSender>> {
    if commit {
        st.prior_op_commit
    } else {
        st.prior_op_verify
    }
}

proof fn lemma_dispatch_adds_no_tx_key(
    st: NotifierState,
    commit: bool,
    block_number: u32,
    ops: Seq<ExecutedOperations>,
    h: Seq<u8>,
)
    requires
        !tx_map_at(st, commit).contains_key(h),
    ensures
        !tx_map_at(spec_dispatch(st, commit, block_number, ops).0, commit).contains_key(h),
    decreases ops.len(),
{
    if ops.len() == 0 {
    } else {
        let st1 = spec_dispatch_step(st, commit, block_number, ops.first()).0;
        lemma_dispatch_adds_no_tx_key(st1, commit, block_number, ops.drop_first(), h);
    }
}

proof fn lemma_dispatch_adds_no_op_key(
    st: NotifierState,
    commit: bool,
    block_number: u32,
    ops: Seq<ExecutedOperations>,
    sid: u64,
)
    requires
        !op_map_at(st, commit).contains_key(sid),
    ensures
        !op_map_at(spec_dispatch(st, commit, block_number, ops).0, commit).contains_key(sid),
    decreases ops.len(),
{
    if ops.len() == 0 {
    } else {
        let st1 = spec_dispatch_step(st, commit, block_number, ops.first()).0;
        lemma_dispatch_adds_no_op_key(st1, commit, block_number, ops.drop_first(), sid);
    }
}

/// Law (bucket cleanup): after a dispatch touches a transaction, no
/// bucket for that hash is left at the dispatched level — a later lookup
/// finds nothing, not an empty bucket.
pub proof fn lemma_bucket_cleanup_tx(
    st: NotifierState,
    commit: bool,
    block_number: u32,
    ops: Seq<ExecutedOperations>,
    i: int,
)
    requires
        0 <= i < ops.len(),
        ops[i] is Tx,
    ensures
        !tx_map_at(spec_dispatch(st, commit, block_number, ops).0, commit).contains_key(
            tx_hash_of(ops[i]),
        ),
    decreases i,
{
    let h = tx_hash_of(ops[i]);
    let step = spec_dispatch_step(st, commit, block_number, ops.first());
    if i == 0 {
        assert(!tx_map_at(step.0, commit).contains_key(h));
        lemma_dispatch_adds_no_tx_key(step.0, commit, block_number, ops.drop_first(), h);
    } else {
        lemma_bucket_cleanup_tx(step.0, commit, block_number, ops.drop_first(), i - 1);
        assert(ops.drop_first()[i - 1] == ops[i]);
    }
}

/// Law (bucket cleanup): after a dispatch touches a priority operation,
/// no bucket for that serial id is left at the dispatched level.
pub proof fn lemma_bucket_cleanup_prior_op(
    st: NotifierState,
    commit: bool,
    block_number: u32,
    ops: Seq<ExecutedOperations>,
    i: int,
)
    requires
        0 <= i < ops.len(),
        ops[i] is PriorityOp,
    ensures
        !op_map_at(spec_dispatch(st, commit, block_number, ops).0, commit).contains_key(
            serial_id_of(ops[i]),
        ),
    decreases i,
{
    let sid = serial_id_of(ops[i]);
    let step = spec_dispatch_step(st, commit, block_number, ops.first());
    if i == 0 {
        assert(!op_map_at(step.0, commit).contains_key(sid));
        lemma_dispatch_adds_no_op_key(step.0, commit, block_number, ops.drop_first(), sid);
    } else {
        lemma_bucket_cleanup_prior_op(step.0, commit, block_number, ops.drop_first(), i - 1);
        assert(ops.drop_first()[i - 1] == ops[i]);
    }
}

/// Law (no missed wakeup): a waiter pending for a transaction hash at the
/// level a block confirms is delivered to by that block's dispatch, with
/// a receipt built from one of the block's entries for that hash.
pub proof fn lemma_no_missed_wakeup_tx(
    st: NotifierState,
    commit: bool,
    block_number: u32,
    ops: Seq<ExecutedOperations>,
    h: Seq<u8>,
    w: TxSender,
    i: int,
)
    requires
        0 <= i < ops.len(),
        ops[i] is Tx,
        tx_hash_of(ops[i]) == h,
        tx_map_at(st, commit).contains_key(h),
        tx_map_at(st, commit)[h].contains(w),
    ensures
        ({
            let d = spec_dispatch(st, commit, block_number, ops).1;
            exists|j: int, k: int|
                0 <= j < d.len() && 0 <= k < ops.len() && ops[k] is Tx && tx_hash_of(ops[k]) == h
                    && d[j] == Delivery::Tx(
                    w,
                    dispatched_receipt(
                        h,
                        block_number,
                        tx_success_of(ops[k]),
                        fail_reason_view(tx_fail_reason_of(ops[k])),
                        !commit,
                    ),
                )
        }),
    decreases i,
{
    let m = tx_map_at(st, commit);
    let step = spec_dispatch_step(st, commit, block_number, ops.first());
    let rest = spec_dispatch(step.0, commit, block_number, ops.drop_first());
    let d = spec_dispatch(st, commit, block_number, ops).1;
    if ops.first() is Tx && tx_hash_of(ops.first()) == h {
        let waiters = m[h];
        let idx = choose|idx: int| 0 <= idx < waiters.len() && waiters[idx] == w;
        let rv = dispatched_receipt(
            h,
            block_number,
            tx_success_of(ops.first()),
            fail_reason_view(tx_fail_reason_of(ops.first())),
            !commit,
        );
        assert(step.1[idx] == Delivery::Tx(w, rv));
        assert(d[idx] == Delivery::Tx(w, rv));
        assert(0 <= idx < d.len() && 0 <= 0 < ops.len() && ops[0] is Tx && tx_hash_of(ops[0])
            == h && d[idx] == Delivery::Tx(
            w,
            dispatched_receipt(
                h,
                block_number,
                tx_success_of(ops[0]),
                fail_reason_view(tx_fail_reason_of(ops[0])),
                !commit,
            ),
        ));
    } else {
        assert(i > 0);
        assert(tx_map_at(step.0, commit).contains_key(h) && tx_map_at(step.0, commit)[h] == m[h]);
        assert(ops.drop_first()[i - 1] == ops[i]);
        lemma_no_missed_wakeup_tx(step.0, commit, block_number, ops.drop_first(), h, w, i - 1);
        let (j2, k2): (int, int) = choose|j2: int, k2: int|
            0 <= j2 < rest.1.len() && 0 <= k2 < ops.drop_first().len() && ops.drop_first()[k2]
                is Tx && tx_hash_of(ops.drop_first()[k2]) == h && rest.1[j2] == Delivery::Tx(
                w,
                dispatched_receipt(
                    h,
                    block_number,
                    tx_success_of(ops.drop_first()[k2]),
                    fail_reason_view(tx_fail_reason_of(ops.drop_first()[k2])),
                    !commit,
                ),
            );
        assert(d[step.1.len() + j2] == rest.1[j2]);
        assert(ops[k2 + 1] == ops.drop_first()[k2]);
        assert(0 <= step.1.len() + j2 < d.len() && 0 <= k2 + 1 < ops.len() && ops[k2 + 1] is Tx
            && tx_hash_of(ops[k2 + 1]) == h && d[step.1.len() + j2] == Delivery::Tx(
            w,
            dispatched_receipt(
                h,
                block_number,
                tx_success_of(ops[k2 + 1]),
                fail_reason_view(tx_fail_reason_of(ops[k2 + 1])),
                !commit,
            ),
        ));
    }
}

/// Law (no missed wakeup): a waiter pending for a priority operation's
/// serial id at the level a block confirms is delivered to by that
/// block's dispatch, with the executed status carrying the block's
/// number.
pub proof fn lemma_no_missed_wakeup_prior_op(
    st: NotifierState,
    commit: bool,
    block_number: u32,
    ops: Seq<ExecutedOperations>,
    sid: u64,
    w: OpSender,
    i: int,
)
    requires
        0 <= i < ops.len(),
        ops[i] is PriorityOp,
        serial_id_of(ops[i]) == sid,
        op_map_at(st, commit).contains_key(sid),
        op_map_at(st, commit)[sid].contains(w),
    ensures
        ({
            let d = spec_dispatch(st, commit, block_number, ops).1;
            exists|j: int|
                0 <= j < d.len() && d[j] == Delivery::PriorityOp(
                    w,
                    (PriorityOpStatus { executed: true, block: Some(block_number as i64) }),
                )
        }),
    decreases i,
{
    let m = op_map_at(st, commit);
    let step = spec_dispatch_step(st, commit, block_number, ops.first());
    let rest = spec_dispatch(step.0, commit, block_number, ops.drop_first());
    let d = spec_dispatch(st, commit, block_number, ops).1;
    let status = PriorityOpStatus { executed: true, block: Some(block_number as i64) };
    if ops.first() is PriorityOp && serial_id_of(ops.first()) == sid {
        let waiters = m[sid];
        let idx = choose|idx: int| 0 <= idx < waiters.len() && waiters[idx] == w;
        assert(step.1[idx] == Delivery::PriorityOp(w, status));
        assert(d[idx] == Delivery::PriorityOp(w, status));
    } else {
        assert(i > 0);
        assert(op_map_at(step.0, commit).contains_key(sid) && op_map_at(step.0, commit)[sid]
            == m[sid]);
        assert(ops.drop_first()[i - 1] == ops[i]);
        lemma_no_missed_wakeup_prior_op(
            step.0,
            commit,
            block_number,
            ops.drop_first(),
            sid,
            w,
            i - 1,
        );
        let j2 = choose|j2: int|
            0 <= j2 < rest.1.len() && rest.1[j2] == Delivery::PriorityOp(w, status);
        assert(d[step.1.len() + j2] == rest.1[j2]);
    }
}

/// Law (no missed wakeup, subscribe then dispatch): a transaction
/// subscription that the store's answer does not satisfy, and whose
/// bucket has room, is delivered to by any later dispatch that confirms
/// its hash at its level.
pub proof fn lemma_subscribe_then_dispatch_tx(
    st: NotifierState,
    h: Seq<u8>,
    commit: bool,
    w: TxSender,
    receipt: Option<TxReceipt>,
    block_number: u32,
    ops: Seq<ExecutedOperations>,
    i: int,
)
    requires
        !tx_sub_satisfied(commit, receipt),
        bucket_or_empty(tx_map_at(st, commit), h).len() < MAX_LISTENERS_PER_ENTITY as int,
        0 <= i < ops.len(),
        ops[i] is Tx,
        tx_hash_of(ops[i]) == h,
    ensures
        ({
            let st1 = spec_tx_subscription(st, h, commit, w, receipt).0;
            let d = spec_dispatch(st1, commit, block_number, ops).1;
            exists|j: int, k: int|
                0 <= j < d.len() && 0 <= k < ops.len() && ops[k] is Tx && tx_hash_of(ops[k]) == h
                    && d[j] == Delivery::Tx(
                    w,
                    dispatched_receipt(
                        h,
                        block_number,
                        tx_success_of(ops[k]),
                        fail_reason_view(tx_fail_reason_of(ops[k])),
                        !commit,
                    ),
                )
        }),
{
    let st1 = spec_tx_subscription(st, h, commit, w, receipt).0;
    let b = bucket_or_empty(tx_map_at(st, commit), h);
    assert(tx_map_at(st1, commit)[h] == b.push(w));
    assert(b.push(w)[b.len() as int] == w);
    assert(tx_map_at(st1, commit)[h].contains(w));
    lemma_no_missed_wakeup_tx(st1, commit, block_number, ops, h, w, i);
}

/// Law (no missed wakeup, subscribe then dispatch): a priority-operation
/// subscription that the store's answer does not satisfy, and whose
/// bucket has room, is delivered to by any later dispatch that confirms
/// its serial id at its level.
pub proof fn lemma_subscribe_then_dispatch_prior_op(
    st: NotifierState,
    sid: u64,
    commit: bool,
    w: OpSender,
    executed: Option<i64>,
    verify_confirmed: Option<bool>,
    block_number: u32,
    ops: Seq<ExecutedOperations>,
    i: int,
)
    requires
        !prior_op_sub_satisfied(commit, executed, verify_confirmed),
        bucket_or_empty(op_map_at(st, commit), sid).len() < MAX_LISTENERS_PER_ENTITY as int,
        0 <= i < ops.len(),
        ops[i] is PriorityOp,
        serial_id_of(ops[i]) == sid,
    ensures
        ({
            let st1 = spec_prior_op_subscription(
                st,
                sid,
                commit,
                w,
                executed,
                verify_confirmed,
            ).0;
            let d = spec_dispatch(st1, commit, block_number, ops).1;
            exists|j: int|
                0 <= j < d.len() && d[j] == Delivery::PriorityOp(
                    w,
                    (PriorityOpStatus { executed: true, block: Some(block_number as i64) }),
                )
        }),
{
    let st1 = spec_prior_op_subscription(st, sid, commit, w, executed, verify_confirmed).0;
    let b = bucket_or_empty(op_map_at(st, commit), sid);
    assert(op_map_at(st1, commit)[sid] == b.push(w));
    assert(b.push(w)[b.len() as int] == w);
    assert(op_map_at(st1, commit)[sid].contains(w));
    lemma_no_missed_wakeup_prior_op(st1, commit, block_number, ops, sid, w, i);
}

} // verus!

