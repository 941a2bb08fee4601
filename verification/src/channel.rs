//! One-shot completion handles for waiters, and the ghost log of every
//! delivery made through them.
//!
//! A waiter is the sending half of a futures one-shot channel.  Sending
//! consumes the half, so no waiter can ever be delivered to twice; the
//! ghost [`DeliveryLog`] records, in order, which waiter received which
//! outcome, so that contracts can speak of what was delivered.

use vstd::prelude::*;

use crate::receipt::PriorityOpStatus;
use crate::receipt::TxReceipt;
use crate::receipt::TxReceiptData;

verus! {

#[verifier::external_type_specification]
#[verifier::external_body]
#[verifier::reject_recursive_types(T)]
pub struct ExOneshotSender<T>(futures::sync::oneshot::Sender<T>);

/// A parked transaction waiter: the sending half of its one-shot channel.
pub type TxSender = futures::sync::oneshot::Sender<TxReceipt>;

/// A parked priority-operation waiter.
pub type OpSender = futures::sync::oneshot::Sender<PriorityOpStatus>;

/// One delivery: which waiter was completed, and with what outcome.
pub enum Delivery {
    Tx(TxSender, TxReceiptData),
    PriorityOp(OpSender, PriorityOpStatus),
}

/// The ordered record of every delivery made so far.  The log is ghost:
/// it exists only so that contracts can state which outcomes went out and
/// in what order.
pub struct DeliveryLog {
    record: Ghost<Seq<Delivery>>,
}

impl View for DeliveryLog {
    type V = Seq<Delivery>;

    closed spec fn view(&self) -> Seq<Delivery> {
        self.record@
    }
}

impl DeliveryLog {
    /// An empty log, from before any delivery.
    pub fn new() -> (r: Self)
        ensures
            r@ == Seq::<Delivery>::empty(),
    {
        DeliveryLog { record: Ghost(Seq::empty()) }
    }
}

/// Relies on futures' oneshot::Sender::send: it consumes the sender and
/// hands the value to the receiving half if that half still exists; if the
/// receiver is gone the value comes back and is dropped here, delivery
/// being best-effort.
#[verifier::external_body]
pub(crate) fn send_tx_receipt(log: &mut DeliveryLog, notify: TxSender, receipt: TxReceipt)
    ensures
        final(log)@ == old(log)@.push(Delivery::Tx(notify, receipt@)),
{
    let _ = notify.send(receipt);
}

/// Relies on futures' oneshot::Sender::send, as `send_tx_receipt` does.
#[verifier::external_body]
pub(crate) fn send_priority_op_status(
    log: &mut DeliveryLog,
    notify: OpSender,
    status: PriorityOpStatus,
)
    ensures
        final(log)@ == old(log)@.push(Delivery::PriorityOp(notify, status)),
{
    let _ = notify.send(status);
}

} // verus!
