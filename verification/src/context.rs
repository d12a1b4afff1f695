//! The plain values that describe one call: who makes it, what is attached
//! to it, and what time it is.

use vstd::prelude::*;

verus! {

/// An account name.
pub type AccountId = String;

/// An amount of the native token, in its smallest unit.
pub type Balance = u128;

/// Nanoseconds since the Unix epoch.
pub type Timestamp = u64;

/// The number of an accounting epoch.
pub type EpochHeight = u64;

/// One whole token.
pub const ONE_NEAR: Balance = 1_000_000_000_000_000_000_000_000;

/// What the caller and the chain say about the current call.
#[derive(Debug, PartialEq, Eq)]
pub struct Context {
    pub current_account_id: AccountId,
    pub predecessor_account_id: AccountId,
    pub signer_account_id: AccountId,
    pub attached_deposit: Balance,
    pub block_timestamp: Timestamp,
    pub block_height: u64,
    pub epoch_height: EpochHeight,
    pub storage_byte_cost: Balance,
}

impl Clone for Context {
    fn clone(&self) -> (copy: Self)
        ensures
            copy == *self,
    {
        Context {
            current_account_id: self.current_account_id.clone(),
            predecessor_account_id: self.predecessor_account_id.clone(),
            signer_account_id: self.signer_account_id.clone(),
            attached_deposit: self.attached_deposit,
            block_timestamp: self.block_timestamp,
            block_height: self.block_height,
            epoch_height: self.epoch_height,
            storage_byte_cost: self.storage_byte_cost,
        }
    }
}

impl Context {
    /// The clock reading fits the machine word it is kept in.
    pub open spec fn wf(&self) -> bool {
        self.block_timestamp + self.block_height <= u64::MAX
    }

    /// The time of the call: the block's timestamp advanced by its height.
    pub open spec fn now(&self) -> Timestamp {
        (self.block_timestamp + self.block_height) as Timestamp
    }

    /// The time of the call.
    pub fn timestamp(&self) -> (now: Timestamp)
        requires
            self.wf(),
        ensures
            now == self.now(),
    {
        self.block_timestamp + self.block_height
    }
}

/// How an outside call ended.
#[derive(Clone, Copy, PartialEq, Eq, Structural, Debug)]
pub enum PromiseOutcome {
    Successful,
    Failed,
}

/// A payment that the caller of the library has to make.
#[derive(Debug, PartialEq, Eq)]
pub struct Transfer {
    pub receiver: AccountId,
    pub amount: Balance,
}

/// The model of a [`Transfer`].
pub struct TransferView {
    pub receiver: Seq<char>,
    pub amount: Balance,
}

impl View for Transfer {
    type V = TransferView;

    open spec fn view(&self) -> TransferView {
        TransferView { receiver: self.receiver@, amount: self.amount }
    }
}

/// The models of a list of payments.
pub open spec fn transfers_view(transfers: Seq<Transfer>) -> Seq<TransferView> {
    Seq::new(transfers.len(), |i: int| transfers[i]@)
}

/// The storage cost of `storage_used` bytes at `byte_cost` each.
pub open spec fn storage_cost(byte_cost: Balance, storage_used: u64) -> int {
    byte_cost * storage_used
}

/// The deposit is exactly one unit of the smallest denomination.
pub fn assert_one_yocto(attached_deposit: Balance) -> (ok: bool)
    ensures
        ok == (attached_deposit == 1),
{
    attached_deposit == 1
}

/// The deposit is at least one whole token.
pub fn assert_min_one_near(attached_deposit: Balance) -> (ok: bool)
    ensures
        ok == (attached_deposit >= ONE_NEAR),
{
    attached_deposit >= ONE_NEAR
}

/// The deposit covers `required_cost`.
pub fn assert_deposit(required_cost: Balance, attached_deposit: Balance) -> (ok: bool)
    ensures
        ok == (required_cost <= attached_deposit),
{
    required_cost <= attached_deposit
}

/// What is left of the deposit once `storage_used` bytes are paid for, or
/// `None` when the deposit does not cover them.
pub fn deduct_storage_cost(storage_used: u64, byte_cost: Balance, attached_deposit: Balance) -> (left:
    Option<Balance>)
    ensures
        match left {
            Some(amount) => storage_cost(byte_cost, storage_used) <= attached_deposit && amount
                == attached_deposit - storage_cost(byte_cost, storage_used),
            None => storage_cost(byte_cost, storage_used) > attached_deposit,
        },
{
    match byte_cost.checked_mul(storage_used as u128) {
        Some(required_cost) => {
            if assert_deposit(required_cost, attached_deposit) {
                Some(attached_deposit - required_cost)
            } else {
                None
            }
        },
        None => None,
    }
}

/// What is to be paid back of the deposit once `storage_used` bytes are paid
/// for: `None` when the deposit does not cover them, otherwise the surplus,
/// which is only sent when it is more than one unit.
pub fn refund_deposit(storage_used: u64, byte_cost: Balance, attached_deposit: Balance) -> (refund:
    Option<Option<Balance>>)
    ensures
        match refund {
            Some(Some(amount)) => storage_cost(byte_cost, storage_used) <= attached_deposit
                && amount == attached_deposit - storage_cost(byte_cost, storage_used) && amount
                > 1,
            Some(None) => storage_cost(byte_cost, storage_used) <= attached_deposit
                && attached_deposit - storage_cost(byte_cost, storage_used) <= 1,
            None => storage_cost(byte_cost, storage_used) > attached_deposit,
        },
{
    match deduct_storage_cost(storage_used, byte_cost, attached_deposit) {
        Some(surplus) => {
            if surplus > 1 {
                Some(Some(surplus))
            } else {
                Some(None)
            }
        },
        None => None,
    }
}

} // verus!
