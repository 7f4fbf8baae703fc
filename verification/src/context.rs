//! What a call knows of its caller, and how a call can fail.

use crate::metadata::AccountId;
use vstd::prelude::*;

verus! {

/// What the host tells a call: who made it, who signed the transaction it
/// belongs to, the registry's own account, and what came attached.
pub struct Context {
    /// The account that made this call.
    pub predecessor_account_id: AccountId,
    /// The account that signed the transaction.
    pub signer_account_id: AccountId,
    /// The registry's own account, which also keeps the donations.
    pub current_account_id: AccountId,
    /// yoctoNEAR attached to the call.
    pub attached_deposit: u128,
    /// Gas attached to the call.
    pub prepaid_gas: u64,
}

impl Context {
    /// The call comes from the registry itself.
    pub open spec fn is_own_call(&self) -> bool {
        self.predecessor_account_id@ == self.current_account_id@
    }

    /// The call comes from the signer, with nobody in between.
    pub open spec fn is_direct_call(&self) -> bool {
        self.predecessor_account_id@ == self.signer_account_id@
    }
}

/// Why a call was refused. A refused call leaves the ledger as it was.
#[derive(Clone, Copy, Debug, PartialEq, Eq, Structural)]
pub enum Error {
    /// No such certificate, category or template.
    NotFound,
    /// The caller neither holds the certificate nor is approved for it.
    Unauthorized,
    /// The call must come from another account than it does.
    Forbidden,
    /// The caller is approved, but under another number than it gave.
    ApprovalMismatch,
    /// What is attached to the call is not what the call asks for.
    BadAttachment,
    /// A certificate of that name is in the ledger already.
    AlreadyExists,
    /// More than six royalty shares.
    TooManyRoyalties,
    /// The donation did not reach the registry's account.
    ForwardingFailed,
    /// A text that is no amount, or an amount too large to keep.
    BadAmount,
}

/// How a call that the registry sent out ended.
pub enum PromiseOutcome {
    /// It ran and returned these bytes.
    Successful(Vec<u8>),
    /// It failed.
    Failed,
    /// No result is there.
    NotReady,
}

} // verus!
