//! The outcome values delivered to waiters: a transaction receipt and a
//! priority-operation status, together with the hexadecimal rendering of a
//! transaction hash.

use vstd::prelude::*;

verus! {

/// The lowercase hexadecimal digit for one value below sixteen.
pub open spec fn hex_digit(n: u8) -> char
    recommends
        n < 16,
{
    if n == 0 {
        '0'
    } else if n == 1 {
        '1'
    } else if n == 2 {
        '2'
    } else if n == 3 {
        '3'
    } else if n == 4 {
        '4'
    } else if n == 5 {
        '5'
    } else if n == 6 {
        '6'
    } else if n == 7 {
        '7'
    } else if n == 8 {
        '8'
    } else if n == 9 {
        '9'
    } else if n == 10 {
        'a'
    } else if n == 11 {
        'b'
    } else if n == 12 {
        'c'
    } else if n == 13 {
        'd'
    } else if n == 14 {
        'e'
    } else {
        'f'
    }
}

/// The lowercase hexadecimal rendering of a byte sequence: two digits per
/// byte, high nibble first, in input order.
pub open spec fn hex_of(bytes: Seq<u8>) -> Seq<char>
    decreases bytes.len(),
{
    if bytes.len() == 0 {
        Seq::empty()
    } else {
        seq![hex_digit(bytes.first() / 16), hex_digit(bytes.first() % 16)] + hex_of(
            bytes.drop_first(),
        )
    }
}

/// Relies on hex::encode (hex crate): it renders each byte of its input as
/// two lowercase hexadecimal digits, high nibble first, in input order.
#[verifier::external_body]
pub fn hex_encode(bytes: &[u8; 32]) -> (r: String)
    ensures
        r@ == hex_of(bytes@),
{
    hex::encode(bytes)
}

/// The outcome delivered to a transaction waiter.
#[derive(Debug, PartialEq, Eq)]
pub struct TxReceipt {
    /// Lowercase hexadecimal rendering of the transaction hash.
    pub tx_hash: String,
    /// Number of the block the transaction was executed in.
    pub block_number: i64,
    /// Whether the transaction succeeded.
    pub success: bool,
    /// Why the transaction failed, if it did.
    pub fail_reason: Option<String>,
    /// Whether this receipt reflects a verified (finalized) confirmation.
    pub verified: bool,
}

/// The mathematical value of a transaction receipt.
pub struct TxReceiptData {
    pub tx_hash: Seq<char>,
    pub block_number: int,
    pub success: bool,
    pub fail_reason: Option<Seq<char>>,
    pub verified: bool,
}

/// The mathematical value of an optional failure reason.
pub open spec fn fail_reason_view(o: Option<String>) -> Option<Seq<char>> {
    match o {
        Some(s) => Some(s@),
        None => None,
    }
}

impl View for TxReceipt {
    type V = TxReceiptData;

    open spec fn view(&self) -> TxReceiptData {
        TxReceiptData {
            tx_hash: self.tx_hash@,
            block_number: self.block_number as int,
            success: self.success,
            fail_reason: fail_reason_view(self.fail_reason),
            verified: self.verified,
        }
    }
}

impl TxReceipt {
    /// A fresh receipt carrying the same value, for delivering one outcome
    /// to several waiters.
    pub fn duplicate(&self) -> (r: Self)
        ensures
            r@ == self@,
    {
        TxReceipt {
            tx_hash: self.tx_hash.clone(),
            block_number: self.block_number,
            success: self.success,
            fail_reason: match &self.fail_reason {
                Some(s) => Some(s.clone()),
                None => None,
            },
            verified: self.verified,
        }
    }
}

/// The outcome delivered to a priority-operation waiter.
#[derive(Clone, Copy, Debug, PartialEq, Eq)]
pub struct PriorityOpStatus {
    /// Whether the operation has been executed.
    pub executed: bool,
    /// Number of the block the operation was executed in, if known.
    pub block: Option<i64>,
}

} // verus!
