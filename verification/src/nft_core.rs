//! Transfers: a certificate goes to another account at once, and where the
//! receiver is asked about it, its answer either lets the transfer stand or
//! takes the certificate back.

use crate::assoc::{AssocMap, Duplicate};
use crate::context::{Context, Error, PromiseOutcome};
use crate::contract::{lemma_holdings_follow_ledger, Contract, ContractView, MAX_CATEGORIES};
use crate::events::EventLog;
use crate::metadata::{
    text_of, AccountId, Category, JsonToken, JsonTokenView, Token, TokenId, TokenMetadata,
    TokenView,
};
use crate::mint::STORAGE_BUFFER;
use vstd::prelude::*;

verus! {

/// Gas kept for the step that takes the receiver's answer.
pub const GAS_FOR_RESOLVE_TRANSFER: u64 = 10_000_000_000_000;

/// Gas that a transfer with notification keeps for itself and that step.
pub const GAS_FOR_NFT_TRANSFER_CALL: u64 = 35_000_000_000_000;

/// Least gas that a transfer with notification must come with.
pub const MIN_GAS_FOR_NFT_TRANSFER_CALL: u64 = 100_000_000_000_000;

/// yoctoNEAR attached to the calls that a transfer sends out.
pub const NO_DEPOSIT: u128 = 0;

/// What a call leaves to do about storage: settle its cost with `refund_to`.
pub struct StorageRefund {
    pub refund_to: AccountId,
}

/// What a transfer leaves to do: write `event` to the log, and pay
/// `refund_to`, the owner before, for the storage of the approvals
/// `released`, which the transfer cleared.
pub struct TransferReceipt {
    pub refund_to: AccountId,
    pub released: AssocMap<AccountId, u64>,
    pub event: EventLog,
}

/// The question that a transfer puts to the receiver's account.
pub struct Notification {
    pub receiver_id: AccountId,
    pub sender_id: AccountId,
    pub previous_owner_id: AccountId,
    pub token_id: TokenId,
    pub msg: String,
    pub deposit: u128,
    pub gas: u64,
}

/// What `nft_resolve_transfer` is to be called with once the receiver has
/// answered.
pub struct ResolveArgs {
    pub authorized_id: Option<AccountId>,
    pub owner_id: AccountId,
    pub receiver_id: AccountId,
    pub token_id: TokenId,
    pub approved_account_ids: AssocMap<AccountId, u64>,
    pub memo: Option<String>,
    pub deposit: u128,
    pub gas: u64,
}

/// What a transfer with notification leaves to do: write `event` to the
/// log, send `notify`, and hand its result to the registry with `resolve`.
pub struct TransferCall {
    pub event: EventLog,
    pub notify: Notification,
    pub resolve: ResolveArgs,
}

/// How a transfer with notification ended. Where it stands, `kept` is true
/// and no event is written; where the certificate went back, `kept` is
/// false and `event` records the way back. Either way `refund_to` is paid
/// for the storage of the approvals `released`.
pub struct Resolved {
    pub kept: bool,
    pub refund_to: AccountId,
    pub released: AssocMap<AccountId, u64>,
    pub event: Option<EventLog>,
}

/// `b` is white space in JSON: a space, a line feed, a tab or a carriage
/// return.
pub open spec fn is_json_space(b: u8) -> bool {
    b == 0x20 || b == 0x0a || b == 0x09 || b == 0x0d
}

/// `bytes` is `word` with nothing but JSON white space before and after it.
pub open spec fn is_padded(bytes: Seq<u8>, word: Seq<u8>) -> bool {
    exists|start: int|
        {
            &&& 0 <= start
            &&& start + word.len() <= bytes.len()
            &&& #[trigger] bytes.subrange(start, start + word.len()) == word
            &&& forall|i: int|
                0 <= i < bytes.len() && !(start <= i < start + word.len()) ==> is_json_space(
                    #[trigger] bytes[i],
                )
        }
}

/// The truth value that `bytes` hold as JSON, if they hold one.
pub open spec fn json_bool_of(bytes: Seq<u8>) -> Option<bool> {
    if is_padded(bytes, seq![0x74u8, 0x72u8, 0x75u8, 0x65u8]) {
        Some(true)
    } else if is_padded(bytes, seq![0x66u8, 0x61u8, 0x6cu8, 0x73u8, 0x65u8]) {
        Some(false)
    } else {
        None
    }
}

/// Calls `near_sdk::serde_json::from_slice` for a `bool`. It accepts the
/// word `true` or `false` with JSON white space (space, line feed, tab,
/// carriage return) around it, and fails on any other bytes.
#[verifier::external_body]
fn json_bool(bytes: &Vec<u8>) -> (r: Option<bool>)
    ensures
        r == json_bool_of(bytes@),
{
    match near_sdk::serde_json::from_slice::<bool>(bytes.as_slice()) {
        Ok(flag) => Some(flag),
        Err(_) => None,
    }
}

/// The receiver's account asks for the certificate back: it says so, or it
/// gave no answer that can be read as a refusal to.
pub open spec fn wants_token_back(outcome: PromiseOutcome) -> bool {
    !(outcome matches PromiseOutcome::Successful(bytes) && json_bool_of(bytes@) == Some(false))
}

/// Whether the certificate is to be given back, from how the notification
/// ended.
pub fn answer_wants_token_back(outcome: &PromiseOutcome) -> (r: bool)
    ensures
        r == wants_token_back(*outcome),
{
    match outcome {
        PromiseOutcome::Successful(bytes) => match json_bool(bytes) {
            Some(flag) => flag,
            None => true,
        },
        _ => true,
    }
}

/// Why a transfer is refused, if it is. One yoctoNEAR must be attached. The
/// caller must hold the certificate, or be approved for it under the number
/// that it gives.
pub open spec fn transfer_error(
    s: ContractView,
    ctx: Context,
    token_id: Seq<char>,
    approval_id: u64,
) -> Option<Error> {
    let sender = ctx.predecessor_account_id@;
    if ctx.attached_deposit != 1 {
        Some(Error::BadAttachment)
    } else if !s.tokens_by_id.contains_key(token_id) {
        Some(Error::NotFound)
    } else if sender == s.tokens_by_id[token_id].owner_id {
        None
    } else if !s.tokens_by_id[token_id].approved_account_ids.contains_key(sender) {
        Some(Error::Unauthorized)
    } else if s.tokens_by_id[token_id].approved_account_ids[sender] != approval_id {
        Some(Error::ApprovalMismatch)
    } else {
        None
    }
}

/// Why a transfer with notification is refused, if it is: as a transfer,
/// and it must come with the least gas.
pub open spec fn transfer_call_error(
    s: ContractView,
    ctx: Context,
    token_id: Seq<char>,
    approval_id: u64,
) -> Option<Error> {
    if ctx.attached_deposit == 1 && ctx.prepaid_gas < MIN_GAS_FOR_NFT_TRANSFER_CALL {
        Some(Error::BadAttachment)
    } else {
        transfer_error(s, ctx, token_id, approval_id)
    }
}

/// The registry with the certificate `token_id` held by `to`, with
/// `approvals` on it.
pub open spec fn moved(
    s: ContractView,
    token_id: Seq<char>,
    to: Seq<char>,
    approvals: Map<Seq<char>, u64>,
) -> ContractView {
    let t = s.tokens_by_id[token_id];
    s.with_token_removed(t.owner_id, token_id).with_token_added(to, token_id).with_token(
        token_id,
        TokenView { owner_id: to, approved_account_ids: approvals, ..t },
    )
}

/// The registry after a transfer: the receiver holds the certificate, and
/// no approval is left on it.
pub open spec fn transferred(s: ContractView, token_id: Seq<char>, receiver: Seq<char>) -> ContractView {
    moved(s, token_id, receiver, Map::empty())
}

/// The registry after a transfer was taken back: the owner before holds
/// the certificate again, with the approvals that are on it now.
pub open spec fn rolled_back(s: ContractView, token_id: Seq<char>, owner: Seq<char>) -> ContractView {
    moved(s, token_id, owner, s.tokens_by_id[token_id].approved_account_ids)
}

/// The caller, where it acts on an approval and not as the owner.
pub open spec fn authorized_id_of(s: ContractView, ctx: Context, token_id: Seq<char>) -> Option<
    Seq<char>,
> {
    if ctx.predecessor_account_id@ == s.tokens_by_id[token_id].owner_id {
        None
    } else {
        Some(ctx.predecessor_account_id@)
    }
}

/// A transfer stands: the receiver did not ask for the certificate back, or
/// the certificate is gone, or the receiver does not hold it any more.
pub open spec fn transfer_stands(
    s: ContractView,
    outcome: PromiseOutcome,
    receiver: Seq<char>,
    token_id: Seq<char>,
) -> bool {
    ||| !wants_token_back(outcome)
    ||| !s.tokens_by_id.contains_key(token_id)
    ||| s.tokens_by_id[token_id].owner_id != receiver
}

/// The registry once a transfer with notification is resolved.
pub open spec fn resolved(
    s: ContractView,
    outcome: PromiseOutcome,
    owner: Seq<char>,
    receiver: Seq<char>,
    token_id: Seq<char>,
) -> ContractView {
    if transfer_stands(s, outcome, receiver, token_id) {
        s
    } else {
        rolled_back(s, token_id, owner)
    }
}

/// Moving a certificate to an account keeps the registry in order, as long
/// as the approvals on it stay below the next number.
pub proof fn lemma_moved_inv(
    s: ContractView,
    token_id: Seq<char>,
    to: Seq<char>,
    approvals: Map<Seq<char>, u64>,
)
    requires
        s.inv(),
        s.tokens_by_id.contains_key(token_id),
        forall|a: Seq<char>| #[trigger]
            approvals.contains_key(a) ==> approvals[a] < s.tokens_by_id[token_id].next_approval_id,
    ensures
        moved(s, token_id, to, approvals).inv(),
{
    let t = s.tokens_by_id[token_id];
    let from = t.owner_id;
    let s1 = s.with_token_removed(from, token_id);
    let s2 = s1.with_token_added(to, token_id);
    let n = moved(s, token_id, to, approvals);
    assert(s.held_by(from).contains(token_id));
    assert(s1.held_by(from) == s.held_by(from).remove(token_id)) by {
        if s.held_by(from).remove(token_id) == Set::<Seq<char>>::empty() {
            assert(!s1.tokens_per_owner.contains_key(from));
        }
    }
    assert forall|a: Seq<char>| a != from implies #[trigger] s1.held_by(a) == s.held_by(a) by {}
    assert(n.held_by(to) == s1.held_by(to).insert(token_id));
    assert forall|a: Seq<char>| a != to implies #[trigger] n.held_by(a) == s1.held_by(a) by {}
    assert forall|id: Seq<char>| #[trigger] n.tokens_by_id.contains_key(id) implies n.held_by(
        n.tokens_by_id[id].owner_id,
    ).contains(id) && n.tokens_by_id[id].approvals_in_order()
        && n.token_metadata_by_id.contains_key(id) by {
        assert(s.tokens_by_id.contains_key(id));
        if id != token_id {
            let o = s.tokens_by_id[id].owner_id;
            assert(s.held_by(o).contains(id));
            assert(s1.held_by(o).contains(id));
        }
    }
    assert forall|a: Seq<char>, id: Seq<char>|
        n.tokens_per_owner.contains_key(a) && #[trigger] n.tokens_per_owner[a].contains(
            id,
        ) implies n.tokens_by_id.contains_key(id) && n.tokens_by_id[id].owner_id == a by {
        assert(n.held_by(a).contains(id));
        if id == token_id {
            if a != to {
                assert(s1.held_by(a).contains(id));
                assert(a != from);
                assert(s.tokens_per_owner.contains_key(a) && s.tokens_per_owner[a].contains(id));
            }
        } else {
            assert(s1.held_by(a).contains(id));
            assert(s.held_by(a).contains(id));
            assert(s.tokens_per_owner.contains_key(a) && s.tokens_per_owner[a].contains(id));
        }
    }
    assert forall|a: Seq<char>| #[trigger] n.tokens_per_owner.contains_key(a) implies n.tokens_per_owner[a]
        != Set::<Seq<char>>::empty() by {
        if a == to {
            assert(n.tokens_per_owner[a].contains(token_id));
        } else if a == from {
        } else {
            assert(s.tokens_per_owner.contains_key(a));
        }
    }
}

/// The core of a registry of certificates.
pub trait NonFungibleTokenCore: Sized {
    /// The registry is in a state that its own calls leave it in.
    spec fn ready(&self) -> bool;

    /// The registry can take one more category.
    spec fn has_room(&self) -> bool;

    /// Adds a category with its prefix and its template.
    fn generate_template(
        &mut self,
        ctx: &Context,
        template_id: Category,
        metadata: TokenMetadata,
    ) -> (r: Result<StorageRefund, Error>)
        requires
            old(self).ready(),
            old(self).has_room(),
        ensures
            final(self).ready(),
    ;

    /// Moves a certificate to `receiver_id`.
    fn nft_transfer(
        &mut self,
        ctx: &Context,
        receiver_id: AccountId,
        token_id: TokenId,
        approval_id: u64,
        memo: Option<String>,
    ) -> (r: Result<TransferReceipt, Error>)
        requires
            old(self).ready(),
        ensures
            final(self).ready(),
    ;

    /// Moves a certificate to `receiver_id` and says what to ask the
    /// receiver's account about it.
    fn nft_transfer_call(
        &mut self,
        ctx: &Context,
        receiver_id: AccountId,
        token_id: TokenId,
        approval_id: u64,
        memo: Option<String>,
        msg: String,
    ) -> (r: Result<TransferCall, Error>)
        requires
            old(self).ready(),
        ensures
            final(self).ready(),
    ;

    /// The certificate `token_id` as it is shown to a reader.
    fn nft_token(&self, token_id: TokenId) -> (r: Option<JsonToken>)
        requires
            self.ready(),
    ;
}

/// The step that takes the receiver's answer to a transfer.
pub trait NonFungibleTokenResolver: NonFungibleTokenCore {
    /// Lets the transfer stand or takes the certificate back.
    fn nft_resolve_transfer(
        &mut self,
        ctx: &Context,
        outcome: PromiseOutcome,
        authorized_id: Option<AccountId>,
        owner_id: AccountId,
        receiver_id: AccountId,
        token_id: TokenId,
        approved_account_ids: AssocMap<AccountId, u64>,
        memo: Option<String>,
    ) -> (r: Result<Resolved, Error>)
        requires
            old(self).ready(),
        ensures
            final(self).ready(),
    ;
}

/// A certificate as it is shown to a reader.
pub open spec fn json_token_view(s: ContractView, token_id: Seq<char>) -> JsonTokenView {
    JsonTokenView {
        token_id,
        donate_amount: s.tokens_by_id[token_id].donate_amount,
        owner_id: s.tokens_by_id[token_id].owner_id,
        metadata: s.token_metadata_by_id[token_id],
        approved_account_ids: s.tokens_by_id[token_id].approved_account_ids,
        royalty: s.tokens_by_id[token_id].royalty,
    }
}

impl Contract {
    /// Checks a transfer and carries it out: the receiver holds the
    /// certificate afterwards and no approval is left on it. Hands back
    /// the certificate as it was before, and the record for the log.
    pub(crate) fn internal_transfer(
        &mut self,
        ctx: &Context,
        receiver_id: &AccountId,
        token_id: &TokenId,
        approval_id: u64,
        memo: Option<String>,
    ) -> (r: Result<(Token, EventLog), Error>)
        requires
            old(self).wf(),
        ensures
            final(self).wf(),
            match transfer_error(old(self)@, *ctx, token_id@, approval_id) {
                Some(e) => r matches Err(x) && x == e && final(self)@ == old(self)@,
                None => {
                    &&& r matches Ok(done)
                    &&& final(self)@ == transferred(old(self)@, token_id@, receiver_id@)
                    &&& done.0@ == old(self)@.tokens_by_id[token_id@]
                    &&& done.1.is_transfer_of(
                        authorized_id_of(old(self)@, *ctx, token_id@),
                        old(self)@.tokens_by_id[token_id@].owner_id,
                        receiver_id@,
                        token_id@,
                        text_of(memo),
                    )
                },
            },
    {
        if ctx.attached_deposit != 1 {
            return Err(Error::BadAttachment);
        }
        let previous: Token = match self.token(token_id) {
            Some(token) => token.dup(),
            None => {
                return Err(Error::NotFound);
            },
        };
        let sender_id = &ctx.predecessor_account_id;
        let by_owner: bool = *sender_id == previous.owner_id;
        if !by_owner {
            match previous.approved_account_ids.get(sender_id) {
                None => {
                    return Err(Error::Unauthorized);
                },
                Some(actual) => {
                    if *actual != approval_id {
                        return Err(Error::ApprovalMismatch);
                    }
                },
            }
        }
        proof {
            lemma_moved_inv(old(self)@, token_id@, receiver_id@, Map::empty());
        }
        self.internal_remove_token_from_owner(&previous.owner_id, token_id);
        self.internal_add_token_to_owner(receiver_id, token_id);
        let token = Token {
            owner_id: receiver_id.clone(),
            donate_amount: previous.donate_amount.clone(),
            approved_account_ids: AssocMap::new(),
            next_approval_id: previous.next_approval_id,
            royalty: previous.royalty.dup(),
        };
        self.put_token(token_id.clone(), token);
        let authorized_id: Option<AccountId> = if by_owner {
            None
        } else {
            Some(sender_id.clone())
        };
        let event = EventLog::transfer(
            authorized_id,
            previous.owner_id.clone(),
            receiver_id.clone(),
            token_id.clone(),
            memo,
        );
        Ok((previous, event))
    }
}

impl NonFungibleTokenCore for Contract {
    open spec fn ready(&self) -> bool {
        self.wf()
    }

    open spec fn has_room(&self) -> bool {
        self@.categories.len() < MAX_CATEGORIES
    }

    /// At least the storage buffer must be attached; the storage is settled
    /// with the caller.
    fn generate_template(
        &mut self,
        ctx: &Context,
        template_id: Category,
        metadata: TokenMetadata,
    ) -> (r: Result<StorageRefund, Error>)
        ensures
            if ctx.attached_deposit < STORAGE_BUFFER {
                r matches Err(x) && x == Error::BadAttachment && final(self)@ == old(self)@
            } else {
                &&& r matches Ok(refund)
                &&& final(self)@ == old(self)@.with_category(template_id@, metadata@)
                &&& refund.refund_to@ == ctx.predecessor_account_id@
            },
    {
        if ctx.attached_deposit < STORAGE_BUFFER {
            return Err(Error::BadAttachment);
        }
        self.push_category(template_id, metadata);
        Ok(StorageRefund { refund_to: ctx.predecessor_account_id.clone() })
    }

    fn nft_transfer(
        &mut self,
        ctx: &Context,
        receiver_id: AccountId,
        token_id: TokenId,
        approval_id: u64,
        memo: Option<String>,
    ) -> (r: Result<TransferReceipt, Error>)
        ensures
            match transfer_error(old(self)@, *ctx, token_id@, approval_id) {
                Some(e) => r matches Err(x) && x == e && final(self)@ == old(self)@,
                None => {
                    &&& r matches Ok(receipt)
                    &&& final(self)@ == transferred(old(self)@, token_id@, receiver_id@)
                    &&& receipt.refund_to@ == old(self)@.tokens_by_id[token_id@].owner_id
                    &&& receipt.released@ == old(self)@.tokens_by_id[token_id@].approved_account_ids
                    &&& receipt.event.is_transfer_of(
                        authorized_id_of(old(self)@, *ctx, token_id@),
                        old(self)@.tokens_by_id[token_id@].owner_id,
                        receiver_id@,
                        token_id@,
                        text_of(memo),
                    )
                },
            },
    {
        match self.internal_transfer(ctx, &receiver_id, &token_id, approval_id, memo) {
            Err(e) => Err(e),
            Ok((previous, event)) => Ok(
                TransferReceipt {
                    refund_to: previous.owner_id,
                    released: previous.approved_account_ids,
                    event,
                },
            ),
        }
    }

    fn nft_transfer_call(
        &mut self,
        ctx: &Context,
        receiver_id: AccountId,
        token_id: TokenId,
        approval_id: u64,
        memo: Option<String>,
        msg: String,
    ) -> (r: Result<TransferCall, Error>)
        ensures
            match transfer_call_error(old(self)@, *ctx, token_id@, approval_id) {
                Some(e) => r matches Err(x) && x == e && final(self)@ == old(self)@,
                None => {
                    &&& r matches Ok(call)
                    &&& final(self)@ == transferred(old(self)@, token_id@, receiver_id@)
                    &&& call.event.is_transfer_of(
                        authorized_id_of(old(self)@, *ctx, token_id@),
                        old(self)@.tokens_by_id[token_id@].owner_id,
                        receiver_id@,
                        token_id@,
                        text_of(memo),
                    )
                    &&& call.notify.receiver_id@ == receiver_id@
                    &&& call.notify.sender_id@ == ctx.predecessor_account_id@
                    &&& call.notify.previous_owner_id@ == old(self)@.tokens_by_id[token_id@].owner_id
                    &&& call.notify.token_id@ == token_id@
                    &&& call.notify.msg@ == msg@
                    &&& call.notify.deposit == NO_DEPOSIT
                    &&& call.notify.gas == ctx.prepaid_gas - GAS_FOR_NFT_TRANSFER_CALL
                    &&& text_of(call.resolve.authorized_id) == authorized_id_of(
                        old(self)@,
                        *ctx,
                        token_id@,
                    )
                    &&& call.resolve.owner_id@ == old(self)@.tokens_by_id[token_id@].owner_id
                    &&& call.resolve.receiver_id@ == receiver_id@
                    &&& call.resolve.token_id@ == token_id@
                    &&& call.resolve.approved_account_ids@
                        == old(self)@.tokens_by_id[token_id@].approved_account_ids
                    &&& text_of(call.resolve.memo) == text_of(memo)
                    &&& call.resolve.deposit == NO_DEPOSIT
                    &&& call.resolve.gas == GAS_FOR_RESOLVE_TRANSFER
                },
            },
    {
        if ctx.attached_deposit == 1 && ctx.prepaid_gas < MIN_GAS_FOR_NFT_TRANSFER_CALL {
            return Err(Error::BadAttachment);
        }
        let memo_copy = crate::metadata::dup_text(&memo);
        let (previous, event) = match self.internal_transfer(
            ctx,
            &receiver_id,
            &token_id,
            approval_id,
            memo,
        ) {
            Err(e) => {
                return Err(e);
            },
            Ok(done) => done,
        };
        let sender_id = ctx.predecessor_account_id.clone();
        let authorized_id: Option<AccountId> = if sender_id == previous.owner_id {
            None
        } else {
            Some(sender_id.clone())
        };
        let notify = Notification {
            receiver_id: receiver_id.clone(),
            sender_id,
            previous_owner_id: previous.owner_id.clone(),
            token_id: token_id.clone(),
            msg,
            deposit: NO_DEPOSIT,
            gas: ctx.prepaid_gas - GAS_FOR_NFT_TRANSFER_CALL,
        };
        let resolve = ResolveArgs {
            authorized_id,
            owner_id: previous.owner_id,
            receiver_id,
            token_id,
            approved_account_ids: previous.approved_account_ids,
            memo: memo_copy,
            deposit: NO_DEPOSIT,
            gas: GAS_FOR_RESOLVE_TRANSFER,
        };
        Ok(TransferCall { event, notify, resolve })
    }

    fn nft_token(&self, token_id: TokenId) -> (r: Option<JsonToken>)
        ensures
            r is Some <==> self@.tokens_by_id.contains_key(token_id@),
            r is Some ==> r->0@ == json_token_view(self@, token_id@),
    {
        let token = match self.token(&token_id) {
            Some(token) => token,
            None => {
                return None;
            },
        };
        let metadata = match self.token_metadata(&token_id) {
            Some(metadata) => metadata.dup(),
            None => {
                return None;
            },
        };
        Some(
            JsonToken {
                donate_amount: token.donate_amount.clone(),
                owner_id: token.owner_id.clone(),
                metadata,
                approved_account_ids: token.approved_account_ids.dup(),
                royalty: token.royalty.dup(),
                token_id,
            },
        )
    }
}

impl NonFungibleTokenResolver for Contract {
    /// Only the registry itself may call this. Where the transfer stands,
    /// nothing changes, and the owner before is paid for the approvals that
    /// the transfer cleared. Where it does not, the owner before holds the
    /// certificate again, the receiver is paid for the approvals on it, and
    /// the way back is recorded.
    fn nft_resolve_transfer(
        &mut self,
        ctx: &Context,
        outcome: PromiseOutcome,
        authorized_id: Option<AccountId>,
        owner_id: AccountId,
        receiver_id: AccountId,
        token_id: TokenId,
        approved_account_ids: AssocMap<AccountId, u64>,
        memo: Option<String>,
    ) -> (r: Result<Resolved, Error>)
        ensures
            if !ctx.is_own_call() {
                r matches Err(x) && x == Error::Forbidden && final(self)@ == old(self)@
            } else {
                &&& r matches Ok(done)
                &&& final(self)@ == resolved(old(self)@, outcome, owner_id@, receiver_id@, token_id@)
                &&& done.kept == transfer_stands(old(self)@, outcome, receiver_id@, token_id@)
                &&& done.kept ==> {
                    &&& done.refund_to@ == owner_id@
                    &&& done.released@ == approved_account_ids@
                    &&& done.event is None
                }
                &&& !done.kept ==> {
                    &&& done.refund_to@ == receiver_id@
                    &&& done.released@ == old(self)@.tokens_by_id[token_id@].approved_account_ids
                    &&& done.event matches Some(event)
                    &&& event.is_transfer_of(
                        text_of(authorized_id),
                        receiver_id@,
                        owner_id@,
                        token_id@,
                        text_of(memo),
                    )
                }
            },
    {
        if !(ctx.predecessor_account_id == ctx.current_account_id) {
            return Err(Error::Forbidden);
        }
        let stands = Resolved {
            kept: true,
            refund_to: owner_id.clone(),
            released: approved_account_ids,
            event: None,
        };
        if !answer_wants_token_back(&outcome) {
            return Ok(stands);
        }
        let mut token: Token = match self.token(&token_id) {
            Some(token) => {
                if !(token.owner_id == receiver_id) {
                    return Ok(stands);
                }
                token.dup()
            },
            None => {
                return Ok(stands);
            },
        };
        proof {
            lemma_moved_inv(old(self)@, token_id@, owner_id@, token@.approved_account_ids);
        }
        self.internal_remove_token_from_owner(&receiver_id, &token_id);
        self.internal_add_token_to_owner(&owner_id, &token_id);
        token.owner_id = owner_id.clone();
        let released = token.approved_account_ids.dup();
        self.put_token(token_id.clone(), token);
        let event = EventLog::transfer(
            authorized_id,
            receiver_id.clone(),
            owner_id,
            token_id,
            memo,
        );
        Ok(Resolved { kept: false, refund_to: receiver_id, released, event: Some(event) })
    }
}

/// Moving a certificate to the account that holds it, with the approvals
/// that are on it, changes nothing.
pub proof fn lemma_moved_to_owner(s: ContractView, token_id: Seq<char>)
    requires
        s.inv(),
        s.tokens_by_id.contains_key(token_id),
    ensures
        moved(
            s,
            token_id,
            s.tokens_by_id[token_id].owner_id,
            s.tokens_by_id[token_id].approved_account_ids,
        ) == s,
{
    let t = s.tokens_by_id[token_id];
    let owner = t.owner_id;
    let n = moved(s, token_id, owner, t.approved_account_ids);
    assert(s.held_by(owner).contains(token_id));
    assert(s.tokens_per_owner.contains_key(owner));
    let s1 = s.with_token_removed(owner, token_id);
    assert(s1.held_by(owner) == s.held_by(owner).remove(token_id)) by {
        if s.held_by(owner).remove(token_id) == Set::<Seq<char>>::empty() {
            assert(!s1.tokens_per_owner.contains_key(owner));
        }
    }
    assert(s.held_by(owner).remove(token_id).insert(token_id) =~= s.held_by(owner));
    assert(n.tokens_per_owner =~= s.tokens_per_owner);
    assert(n.tokens_by_id =~= s.tokens_by_id);
}

/// Resolving a transfer a second time, with the same answer, leaves the
/// ledger as the first time left it: no certificate moves twice.
pub proof fn lemma_resolve_twice(
    s: ContractView,
    outcome: PromiseOutcome,
    owner: Seq<char>,
    receiver: Seq<char>,
    token_id: Seq<char>,
)
    requires
        s.inv(),
    ensures
        resolved(resolved(s, outcome, owner, receiver, token_id), outcome, owner, receiver, token_id)
            == resolved(s, outcome, owner, receiver, token_id),
        owner != receiver ==> transfer_stands(
            resolved(s, outcome, owner, receiver, token_id),
            outcome,
            receiver,
            token_id,
        ),
{
    if !transfer_stands(s, outcome, receiver, token_id) {
        let once = rolled_back(s, token_id, owner);
        lemma_moved_inv(s, token_id, owner, s.tokens_by_id[token_id].approved_account_ids);
        assert(once.tokens_by_id[token_id].owner_id == owner);
        if owner == receiver {
            lemma_moved_to_owner(once, token_id);
        }
    }
}

/// A transfer that is taken back leaves the certificate with the owner it
/// had and every account holding what it held. Only the approvals that the
/// transfer cleared stay cleared.
pub proof fn lemma_transfer_taken_back(s: ContractView, token_id: Seq<char>, receiver: Seq<char>)
    requires
        s.inv(),
        s.tokens_by_id.contains_key(token_id),
    ensures
        rolled_back(
            transferred(s, token_id, receiver),
            token_id,
            s.tokens_by_id[token_id].owner_id,
        ) == s.with_token(
            token_id,
            TokenView { approved_account_ids: Map::empty(), ..s.tokens_by_id[token_id] },
        ),
{
    let t = s.tokens_by_id[token_id];
    let owner = t.owner_id;
    let there = transferred(s, token_id, receiver);
    lemma_moved_inv(s, token_id, receiver, Map::empty());
    let back = rolled_back(there, token_id, owner);
    lemma_moved_inv(there, token_id, owner, there.tokens_by_id[token_id].approved_account_ids);
    let cleared = s.with_token(token_id, TokenView { approved_account_ids: Map::empty(), ..t });
    assert(cleared.inv()) by {
        assert forall|id: Seq<char>| #[trigger] cleared.tokens_by_id.contains_key(id) implies cleared.held_by(
            cleared.tokens_by_id[id].owner_id,
        ).contains(id) && cleared.tokens_by_id[id].approvals_in_order() by {
            assert(s.tokens_by_id.contains_key(id));
        }
        assert forall|a: Seq<char>, id: Seq<char>|
            cleared.tokens_per_owner.contains_key(a) && #[trigger] cleared.tokens_per_owner[a].contains(
                id,
            ) implies cleared.tokens_by_id.contains_key(id) && cleared.tokens_by_id[id].owner_id
            == a by {
            assert(s.tokens_per_owner.contains_key(a) && s.tokens_per_owner[a].contains(id));
        }
    }
    assert(back.tokens_by_id =~= cleared.tokens_by_id);
    lemma_holdings_follow_ledger(back, cleared);
}

/// Moving a certificate takes no certificate out of the ledger, touches no
/// other certificate, and changes no metadata, category or donor index.
pub proof fn lemma_moved_frame(
    s: ContractView,
    token_id: Seq<char>,
    to: Seq<char>,
    approvals: Map<Seq<char>, u64>,
    other: Seq<char>,
)
    requires
        s.tokens_by_id.contains_key(token_id),
        other != token_id,
    ensures
        ({
            let after = moved(s, token_id, to, approvals);
            &&& after.tokens_by_id.contains_key(token_id)
            &&& after.tokens_by_id[token_id].donate_amount == s.tokens_by_id[token_id].donate_amount
            &&& after.tokens_by_id[token_id].royalty == s.tokens_by_id[token_id].royalty
            &&& after.tokens_by_id[token_id].next_approval_id
                == s.tokens_by_id[token_id].next_approval_id
            &&& after.tokens_by_id.contains_key(other) == s.tokens_by_id.contains_key(other)
            &&& after.tokens_by_id[other] == s.tokens_by_id[other]
            &&& after.token_metadata_by_id == s.token_metadata_by_id
            &&& after.categories == s.categories
            &&& after.token_metadata_by_cat_id == s.token_metadata_by_cat_id
            &&& after.tokens_per_owner_ordered == s.tokens_per_owner_ordered
            &&& after.owner_id == s.owner_id
            &&& after.metadata == s.metadata
        }),
{
}

} // verus!
