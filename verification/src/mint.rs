//! Donations: a batch of donations is split into one request per category,
//! each of which either mints a certificate or adds to one that is there.

use crate::amount::{
    kept_text, lemma_kept_text_value, lemma_settled_sum_not_below, lemma_value_bound, near_text,
    normalize, parse_amount, readable, settled, value_of, well_formed, with_fraction,
    write_amount, yocto_of,
};
use crate::assoc::{AssocMap, Duplicate};
use crate::context::{Context, Error};
use crate::contract::{Contract, ContractView};
use crate::events::EventLog;
use crate::metadata::{
    AccountId, CategoryId, Token, TokenId, TokenMetadata, TokenMetadataView, TokenView,
};
use crate::nft_core::json_token_view;
use vstd::prelude::*;
use vstd::string::*;

verus! {

/// Gas given to each request of a batch.
pub const GAS_PER_DONATE: u64 = 20_000_000_000_000;

/// Gas given to the step that follows the forwarding of a donation.
pub const GAS_FOR_MINTING: u64 = 10_000_000_000_000;

/// yoctoNEAR set aside for the storage of a new certificate (0.1 NEAR).
pub const STORAGE_BUFFER: u128 = 100_000_000_000_000_000_000_000;

/// yoctoNEAR by which a mint request may be overpaid (0.001 NEAR).
pub const OVERPAY_TOLERANCE: u128 = 1_000_000_000_000_000_000_000;

/// Most royalty shares on one certificate.
pub const MAX_ROYALTIES: usize = 6;

/// One request of a batch, to be sent to the registry itself with `attached`
/// yoctoNEAR and `gas`.
pub enum SubRequest {
    /// Mint the certificate `token_id` for the donation.
    Mint { token_id: TokenId, metadata: TokenMetadata, donate_amount: String, attached: u128, gas: u64 },
    /// Add the donation to the certificate `token_id`.
    Update { token_id: TokenId, donate_amount: String, attached: u128, gas: u64 },
}

/// A request of a batch as a mathematical value.
pub enum SubRequestView {
    Mint { token_id: Seq<char>, metadata: TokenMetadataView, donate_amount: Seq<char>, attached: int, gas: u64 },
    Update { token_id: Seq<char>, donate_amount: Seq<char>, attached: int, gas: u64 },
}

impl View for SubRequest {
    type V = SubRequestView;

    open spec fn view(&self) -> SubRequestView {
        match *self {
            SubRequest::Mint { token_id, metadata, donate_amount, attached, gas } => SubRequestView::Mint {
                token_id: token_id@,
                metadata: metadata@,
                donate_amount: donate_amount@,
                attached: attached as int,
                gas,
            },
            SubRequest::Update { token_id, donate_amount, attached, gas } => SubRequestView::Update {
                token_id: token_id@,
                donate_amount: donate_amount@,
                attached: attached as int,
                gas,
            },
        }
    }
}

/// What a batch comes to: the requests to send, what they carry in all, and
/// what goes back to the signer at once.
pub struct BatchPlan {
    pub requests: Vec<SubRequest>,
    pub total: u128,
    pub refund: u128,
    pub refund_to: AccountId,
}

/// The requests of a batch as mathematical values.
pub open spec fn requests_view(requests: Seq<SubRequest>) -> Seq<SubRequestView> {
    Seq::new(requests.len(), |i: int| requests[i]@)
}

/// The donations of a batch, each a category and an amount.
pub open spec fn donations_view(items: Seq<(CategoryId, String)>) -> Seq<(CategoryId, Seq<char>)> {
    Seq::new(items.len(), |i: int| (items[i].0, items[i].1@))
}

/// A batch while it is being split.
pub struct BatchState {
    /// The donor index, with the certificates that this batch will mint.
    pub index: Map<CategoryId, Seq<char>>,
    /// The requests so far.
    pub requests: Seq<SubRequestView>,
    /// What the requests carry in all.
    pub total: int,
}

/// A template stamped with the time of issue.
pub open spec fn stamped(template: TokenMetadataView, issued_at: Option<u64>) -> TokenMetadataView {
    TokenMetadataView { issued_at, ..template }
}

/// One donation of a batch. Where the donor index names a certificate for
/// the category and the ledger has it, the donation is added to it. Else a
/// certificate is minted under the category's prefix followed by the
/// suffix, and the index is made to name it.
pub open spec fn batch_step(
    s: ContractView,
    suffix: Seq<char>,
    issued_at: Option<u64>,
    st: BatchState,
    item: (CategoryId, Seq<char>),
) -> Result<BatchState, Error> {
    let category = item.0;
    let amount = item.1;
    if !readable(amount) {
        Err(Error::BadAmount)
    } else if st.index.contains_key(category) && s.tokens_by_id.contains_key(st.index[category]) {
        Ok(
            BatchState {
                index: st.index,
                requests: st.requests.push(
                    SubRequestView::Update {
                        token_id: st.index[category],
                        donate_amount: with_fraction(amount),
                        attached: value_of(amount) as int,
                        gas: GAS_PER_DONATE,
                    },
                ),
                total: st.total + value_of(amount),
            },
        )
    } else if category >= s.categories.len() || !s.token_metadata_by_cat_id.contains_key(category) {
        Err(Error::NotFound)
    } else {
        let token_id = s.categories[category as int] + suffix;
        Ok(
            BatchState {
                index: st.index.insert(category, token_id),
                requests: st.requests.push(
                    SubRequestView::Mint {
                        token_id,
                        metadata: stamped(s.token_metadata_by_cat_id[category], issued_at),
                        donate_amount: with_fraction(amount),
                        attached: value_of(amount) + STORAGE_BUFFER,
                        gas: GAS_PER_DONATE,
                    },
                ),
                total: st.total + value_of(amount) + STORAGE_BUFFER,
            },
        )
    }
}

/// The donations of a batch taken one after the other, from the donor index
/// `index` on. The first donation that is refused refuses the batch.
pub open spec fn batch_fold(
    s: ContractView,
    suffix: Seq<char>,
    issued_at: Option<u64>,
    index: Map<CategoryId, Seq<char>>,
    items: Seq<(CategoryId, Seq<char>)>,
) -> Result<BatchState, Error>
    decreases items.len(),
{
    if items.len() == 0 {
        Ok(BatchState { index, requests: Seq::empty(), total: 0 })
    } else {
        match batch_fold(s, suffix, issued_at, index, items.drop_last()) {
            Err(e) => Err(e),
            Ok(st) => batch_step(s, suffix, issued_at, st, items.last()),
        }
    }
}

/// What a batch comes to. It must come from the signer itself, each of its
/// donations must be accepted, and what is attached must cover what the
/// requests carry.
pub open spec fn batch_outcome(
    s: ContractView,
    ctx: Context,
    suffix: Seq<char>,
    items: Seq<(CategoryId, Seq<char>)>,
    issued_at: Option<u64>,
) -> Result<BatchState, Error> {
    if !ctx.is_direct_call() {
        Err(Error::Forbidden)
    } else {
        match batch_fold(s, suffix, issued_at, s.index_of(ctx.predecessor_account_id@), items) {
            Err(e) => Err(e),
            Ok(st) => if st.total > ctx.attached_deposit {
                Err(Error::BadAttachment)
            } else {
                Ok(st)
            },
        }
    }
}

/// A batch that is refused at one of its donations is refused, whatever
/// follows that donation.
pub proof fn lemma_batch_fold_refused(
    s: ContractView,
    suffix: Seq<char>,
    issued_at: Option<u64>,
    index: Map<CategoryId, Seq<char>>,
    items: Seq<(CategoryId, Seq<char>)>,
    n: int,
)
    requires
        0 <= n <= items.len(),
        batch_fold(s, suffix, issued_at, index, items.take(n)) is Err,
    ensures
        batch_fold(s, suffix, issued_at, index, items) == batch_fold(
            s,
            suffix,
            issued_at,
            index,
            items.take(n),
        ),
    decreases items.len(),
{
    if n == items.len() {
        assert(items.take(n) =~= items);
    } else {
        assert(items.drop_last().take(n) =~= items.take(n));
        lemma_batch_fold_refused(s, suffix, issued_at, index, items.drop_last(), n);
    }
}

/// Taking one more donation of a batch is one more step.
pub proof fn lemma_batch_fold_next(
    s: ContractView,
    suffix: Seq<char>,
    issued_at: Option<u64>,
    index: Map<CategoryId, Seq<char>>,
    items: Seq<(CategoryId, Seq<char>)>,
    n: int,
)
    requires
        0 <= n < items.len(),
    ensures
        batch_fold(s, suffix, issued_at, index, items.take(n + 1)) == match batch_fold(
            s,
            suffix,
            issued_at,
            index,
            items.take(n),
        ) {
            Err(e) => Err(e),
            Ok(st) => batch_step(s, suffix, issued_at, st, items[n]),
        },
{
    assert(items.take(n + 1).drop_last() =~= items.take(n));
    assert(items.take(n + 1).last() == items[n]);
}

impl Contract {
    /// Splits a batch of donations into requests, one for each donation.
    ///
    /// The call must come from the signer itself. Each donation names a
    /// category and an amount. Where the caller's index names a certificate
    /// for the category and the ledger has it, the request adds the amount to
    /// it and carries the amount. Else the request mints a certificate, named
    /// by the category's prefix and `suffix_token_id`, and carries the amount
    /// and the storage buffer; the index is made to name that certificate.
    /// What is attached beyond what the requests carry goes back to the
    /// signer. The index is kept as soon as the batch is accepted, before any
    /// request has run.
    pub fn minting_interface(
        &mut self,
        ctx: &Context,
        suffix_token_id: String,
        hash_of_amounts: Vec<(CategoryId, String)>,
        issued_at: Option<u64>,
    ) -> (r: Result<BatchPlan, Error>)
        requires
            old(self).wf(),
        ensures
            final(self).wf(),
            match batch_outcome(
                old(self)@,
                *ctx,
                suffix_token_id@,
                donations_view(hash_of_amounts@),
                issued_at,
            ) {
                Err(e) => r matches Err(x) && x == e && final(self)@ == old(self)@,
                Ok(st) => {
                    &&& r matches Ok(plan)
                    &&& final(self)@ == old(self)@.with_index(
                        ctx.predecessor_account_id@,
                        st.index,
                    )
                    &&& requests_view(plan.requests@) == st.requests
                    &&& plan.total == st.total
                    &&& plan.refund == ctx.attached_deposit - st.total
                    &&& plan.refund_to@ == ctx.signer_account_id@
                },
            },
    {
        if !(ctx.predecessor_account_id == ctx.signer_account_id) {
            return Err(Error::Forbidden);
        }
        let ghost s = self@;
        let ghost suffix = suffix_token_id@;
        let ghost items = donations_view(hash_of_amounts@);
        let ghost init = s.index_of(ctx.predecessor_account_id@);
        let mut index = self.owner_index(&ctx.predecessor_account_id);
        let mut requests: Vec<SubRequest> = Vec::new();
        let mut total: u128 = 0;
        let mut overflow: bool = false;
        let ghost mut st = BatchState { index: init, requests: Seq::empty(), total: 0 };
        assert(requests_view(requests@) =~= Seq::<SubRequestView>::empty());
        let mut i: usize = 0;
        while i < hash_of_amounts.len()
            invariant
                i <= hash_of_amounts.len(),
                s == self@,
                s == old(self)@,
                s.inv(),
                ctx.is_direct_call(),
                init == s.index_of(ctx.predecessor_account_id@),
                suffix == suffix_token_id@,
                items == donations_view(hash_of_amounts@),
                batch_fold(s, suffix, issued_at, init, items.take(i as int)) == Ok::<
                    BatchState,
                    Error,
                >(st),
                st.index == index@,
                st.requests == requests_view(requests@),
                st.total >= 0,
                !overflow ==> st.total == total,
                overflow ==> st.total > u128::MAX,
            decreases hash_of_amounts.len() - i,
        {
            proof {
                lemma_batch_fold_next(s, suffix, issued_at, init, items, i as int);
            }
            let category: CategoryId = hash_of_amounts[i].0;
            let amount: &String = &hash_of_amounts[i].1;
            assert(items[i as int] == (category, amount@));
            let yocto: u128 = match parse_amount(amount) {
                Some(y) => y,
                None => {
                    proof {
                        lemma_batch_fold_refused(s, suffix, issued_at, init, items, i + 1);
                    }
                    return Err(Error::BadAmount);
                },
            };
            proof {
                lemma_value_bound(amount@);
            }
            let known: Option<TokenId> = match index.get(&category) {
                Some(id) => if self.token(id).is_some() {
                    Some(id.clone())
                } else {
                    None
                },
                None => None,
            };
            let attached: u128;
            match known {
                Some(token_id) => {
                    attached = yocto;
                    let request = SubRequest::Update {
                        token_id,
                        donate_amount: normalize(amount.clone()),
                        attached,
                        gas: GAS_PER_DONATE,
                    };
                    proof {
                        st = BatchState {
                            index: st.index,
                            requests: st.requests.push(request@),
                            total: st.total + attached,
                        };
                    }
                    requests.push(request);
                },
                None => {
                    let prefix = match self.category(category) {
                        Some(prefix) => prefix,
                        None => {
                            proof {
                                lemma_batch_fold_refused(s, suffix, issued_at, init, items, i + 1);
                            }
                            return Err(Error::NotFound);
                        },
                    };
                    let template = match self.template(category) {
                        Some(template) => template,
                        None => {
                            proof {
                                lemma_batch_fold_refused(s, suffix, issued_at, init, items, i + 1);
                            }
                            return Err(Error::NotFound);
                        },
                    };
                    let token_id = prefix.clone().concat(suffix_token_id.as_str());
                    let mut metadata = template.dup();
                    metadata.issued_at = issued_at;
                    index.insert(category, token_id.clone());
                    attached = yocto + STORAGE_BUFFER;
                    let request = SubRequest::Mint {
                        token_id,
                        metadata,
                        donate_amount: normalize(amount.clone()),
                        attached,
                        gas: GAS_PER_DONATE,
                    };
                    proof {
                        st = BatchState {
                            index: index@,
                            requests: st.requests.push(request@),
                            total: st.total + attached,
                        };
                    }
                    requests.push(request);
                },
            }
            assert(requests_view(requests@) =~= st.requests);
            if !overflow {
                match total.checked_add(attached) {
                    Some(sum) => {
                        total = sum;
                    },
                    None => {
                        overflow = true;
                    },
                }
            }
            i += 1;
        }
        assert(items.take(i as int) =~= items);
        if overflow || total > ctx.attached_deposit {
            return Err(Error::BadAttachment);
        }
        self.put_owner_index(ctx.predecessor_account_id.clone(), index);
        Ok(
            BatchPlan {
                requests,
                total,
                refund: ctx.attached_deposit - total,
                refund_to: ctx.signer_account_id.clone(),
            },
        )
    }
}

/// What a mint request comes to once it is accepted: `forward` yoctoNEAR go
/// to the registry's account `forward_to`, and when they have arrived the
/// mint is completed by `nft_mint` with the other fields as its arguments,
/// `deposit` yoctoNEAR and `gas`.
pub struct MintEscrow {
    pub forward_to: AccountId,
    pub forward: u128,
    pub token_id: TokenId,
    pub donate_amount_str: String,
    pub metadata: TokenMetadata,
    pub receiver_id: AccountId,
    pub deposit: u128,
    pub gas: u64,
}

/// What an update request comes to once it is accepted: `forward` yoctoNEAR
/// go to the registry's account `forward_to`, and `on_donate_update` is
/// then told how that went, with the amount that the certificate showed
/// before.
pub struct UpdateEscrow {
    pub forward_to: AccountId,
    pub forward: u128,
    pub token_id: TokenId,
    pub old_donate_amount: String,
    pub gas: u64,
}

/// What a completed mint leaves to do: write `event` to the log and settle
/// the storage cost with `refund_to`.
pub struct MintReceipt {
    pub event: EventLog,
    pub refund_to: AccountId,
}

/// Why a mint request is refused, if it is: the amount is no amount, or
/// what is attached is less than the amount and the storage buffer, or more
/// than that by over the tolerance.
pub open spec fn mint_request_error(ctx: Context, amount: Seq<char>) -> Option<Error> {
    if !readable(amount) {
        Some(Error::BadAmount)
    } else if ctx.attached_deposit < value_of(amount) + STORAGE_BUFFER || ctx.attached_deposit
        > value_of(amount) + STORAGE_BUFFER + OVERPAY_TOLERANCE {
        Some(Error::BadAttachment)
    } else {
        None
    }
}

/// The royalty shares that a mint is given, as a map.
pub open spec fn royalties_view(given: Option<AssocMap<AccountId, u16>>) -> Option<Map<Seq<char>, u16>> {
    match given {
        Some(r) => Some(r@),
        None => None,
    }
}

/// Why the report on a forwarding is refused, if it is.
pub open spec fn rollback_error(
    s: ContractView,
    ctx: Context,
    forwarded: bool,
    token_id: Seq<char>,
) -> Option<Error> {
    if !ctx.is_own_call() {
        Some(Error::Forbidden)
    } else if !forwarded && !s.tokens_by_id.contains_key(token_id) {
        Some(Error::NotFound)
    } else {
        None
    }
}

/// Why the completion of a mint is refused, if it is.
pub open spec fn mint_error(
    s: ContractView,
    ctx: Context,
    forwarded: bool,
    token_id: Seq<char>,
    royalties: Option<Map<Seq<char>, u16>>,
) -> Option<Error> {
    if !ctx.is_own_call() {
        Some(Error::Forbidden)
    } else if !forwarded {
        Some(Error::ForwardingFailed)
    } else if royalties is Some && royalties->0.len() > MAX_ROYALTIES {
        Some(Error::TooManyRoyalties)
    } else if s.tokens_by_id.contains_key(token_id) {
        Some(Error::AlreadyExists)
    } else {
        None
    }
}

/// The certificate that a mint makes: the registry's own account is
/// approved on it under number 0, and the next approval gets number 1.
pub open spec fn minted_token(
    registry: Seq<char>,
    donate_amount: Seq<char>,
    receiver: Seq<char>,
    royalties: Option<Map<Seq<char>, u16>>,
) -> TokenView {
    TokenView {
        owner_id: receiver,
        donate_amount,
        approved_account_ids: Map::<Seq<char>, u64>::empty().insert(registry, 0),
        next_approval_id: 1,
        royalty: match royalties {
            Some(r) => r,
            None => Map::empty(),
        },
    }
}

/// The registry after a mint.
pub open spec fn minted(
    s: ContractView,
    token_id: Seq<char>,
    token: TokenView,
    metadata: TokenMetadataView,
) -> ContractView {
    s.with_certificate(token_id, token, metadata)
}

/// The registry with another amount on the certificate `token_id`.
pub open spec fn with_amount(s: ContractView, token_id: Seq<char>, amount: Seq<char>) -> ContractView {
    s.with_token(token_id, TokenView { donate_amount: amount, ..s.tokens_by_id[token_id] })
}

/// The amount that a certificate shows after a donation was added to it, or
/// why the donation is refused. What is attached must be the donation
/// exactly. The new amount is the sum as it is written out.
pub open spec fn update_outcome(
    s: ContractView,
    ctx: Context,
    token_id: Seq<char>,
    amount: Seq<char>,
) -> Result<Seq<char>, Error> {
    if !readable(amount) {
        Err(Error::BadAmount)
    } else if ctx.attached_deposit != value_of(amount) {
        Err(Error::BadAttachment)
    } else if !s.tokens_by_id.contains_key(token_id) {
        Err(Error::NotFound)
    } else {
        let before = s.tokens_by_id[token_id].donate_amount;
        let sum = value_of(before) + value_of(amount);
        if !readable(before) || sum > u128::MAX {
            Err(Error::BadAmount)
        } else {
            match kept_text(near_text(sum as u128), sum as u128) {
                Some(text) => Ok(text),
                None => Err(Error::BadAmount),
            }
        }
    }
}

/// Another amount on a certificate keeps the registry in order.
proof fn lemma_with_amount_inv(s: ContractView, token_id: Seq<char>, amount: Seq<char>)
    requires
        s.inv(),
        s.tokens_by_id.contains_key(token_id),
    ensures
        with_amount(s, token_id, amount).inv(),
{
    let n = with_amount(s, token_id, amount);
    assert forall|id: Seq<char>| #[trigger] n.tokens_by_id.contains_key(id) implies n.held_by(
        n.tokens_by_id[id].owner_id,
    ).contains(id) && n.tokens_by_id[id].approvals_in_order() by {
        assert(s.tokens_by_id.contains_key(id));
    }
    assert forall|a: Seq<char>, id: Seq<char>|
        n.tokens_per_owner.contains_key(a) && #[trigger] n.tokens_per_owner[a].contains(
            id,
        ) implies n.tokens_by_id.contains_key(id) && n.tokens_by_id[id].owner_id == a by {
        assert(s.tokens_per_owner.contains_key(a) && s.tokens_per_owner[a].contains(id));
    }
}

impl Contract {
    /// Accepts a mint request or refuses it. Nothing is written to the
    /// ledger either way: the certificate is made by `nft_mint`, once the
    /// donation has reached the registry's account.
    pub fn donate_and_mint(
        &mut self,
        ctx: &Context,
        token_id: TokenId,
        metadata: TokenMetadata,
        donate_amount: String,
    ) -> (r: Result<MintEscrow, Error>)
        requires
            old(self).wf(),
        ensures
            final(self).wf(),
            final(self)@ == old(self)@,
            match mint_request_error(*ctx, donate_amount@) {
                Some(e) => r matches Err(x) && x == e,
                None => {
                    &&& r matches Ok(escrow)
                    &&& escrow.forward_to@ == ctx.current_account_id@
                    &&& escrow.forward == value_of(donate_amount@)
                    &&& escrow.token_id@ == token_id@
                    &&& escrow.donate_amount_str@ == with_fraction(donate_amount@)
                    &&& escrow.metadata@ == metadata@
                    &&& escrow.receiver_id@ == ctx.signer_account_id@
                    &&& escrow.deposit == STORAGE_BUFFER
                    &&& escrow.gas == GAS_FOR_MINTING
                },
            },
    {
        let yocto: u128 = match parse_amount(&donate_amount) {
            Some(y) => y,
            None => {
                return Err(Error::BadAmount);
            },
        };
        proof {
            lemma_value_bound(donate_amount@);
        }
        let least: u128 = yocto + STORAGE_BUFFER;
        if ctx.attached_deposit < least || ctx.attached_deposit > least + OVERPAY_TOLERANCE {
            return Err(Error::BadAttachment);
        }
        Ok(
            MintEscrow {
                forward_to: ctx.current_account_id.clone(),
                forward: yocto,
                token_id,
                donate_amount_str: normalize(donate_amount),
                metadata,
                receiver_id: ctx.signer_account_id.clone(),
                deposit: STORAGE_BUFFER,
                gas: GAS_FOR_MINTING,
            },
        )
    }

    /// Adds a donation to a certificate, before the donation has reached
    /// the registry's account: `on_donate_update` puts the old amount back
    /// if it does not arrive.
    pub fn donate_and_update(
        &mut self,
        ctx: &Context,
        token_id: TokenId,
        donate_amount: String,
    ) -> (r: Result<UpdateEscrow, Error>)
        requires
            old(self).wf(),
        ensures
            final(self).wf(),
            match update_outcome(old(self)@, *ctx, token_id@, donate_amount@) {
                Err(e) => r matches Err(x) && x == e && final(self)@ == old(self)@,
                Ok(text) => {
                    &&& r matches Ok(escrow)
                    &&& final(self)@ == with_amount(old(self)@, token_id@, text)
                    &&& escrow.forward_to@ == ctx.current_account_id@
                    &&& escrow.forward == ctx.attached_deposit
                    &&& escrow.token_id@ == token_id@
                    &&& escrow.old_donate_amount@ == old(self)@.tokens_by_id[token_id@].donate_amount
                    &&& escrow.gas == GAS_FOR_MINTING
                },
            },
    {
        let yocto: u128 = match parse_amount(&donate_amount) {
            Some(y) => y,
            None => {
                return Err(Error::BadAmount);
            },
        };
        proof {
            lemma_value_bound(donate_amount@);
        }
        if ctx.attached_deposit != yocto {
            return Err(Error::BadAttachment);
        }
        let mut token: Token = match self.token(&token_id) {
            Some(token) => token.dup(),
            None => {
                return Err(Error::NotFound);
            },
        };
        let before: u128 = match parse_amount(&token.donate_amount) {
            Some(y) => y,
            None => {
                return Err(Error::BadAmount);
            },
        };
        proof {
            lemma_value_bound(token.donate_amount@);
        }
        let sum: u128 = match before.checked_add(yocto) {
            Some(sum) => sum,
            None => {
                return Err(Error::BadAmount);
            },
        };
        let text: String = match write_amount(sum) {
            Some(text) => text,
            None => {
                return Err(Error::BadAmount);
            },
        };
        let old_donate_amount = token.donate_amount;
        token.donate_amount = text;
        proof {
            lemma_with_amount_inv(old(self)@, token_id@, text@);
        }
        self.put_token(token_id.clone(), token);
        Ok(
            UpdateEscrow {
                forward_to: ctx.current_account_id.clone(),
                forward: ctx.attached_deposit,
                token_id,
                old_donate_amount,
                gas: GAS_FOR_MINTING,
            },
        )
    }

    /// Completes a mint, once the donation has been forwarded. Only the
    /// registry itself may call this. The certificate must be new.
    pub fn nft_mint(
        &mut self,
        ctx: &Context,
        forwarded: bool,
        token_id: TokenId,
        donate_amount_str: String,
        metadata: TokenMetadata,
        receiver_id: AccountId,
        perpetual_royalties: Option<AssocMap<AccountId, u16>>,
    ) -> (r: Result<MintReceipt, Error>)
        requires
            old(self).wf(),
        ensures
            final(self).wf(),
            match mint_error(old(self)@, *ctx, forwarded, token_id@, royalties_view(perpetual_royalties)) {
                Some(e) => r matches Err(x) && x == e && final(self)@ == old(self)@,
                None => {
                    &&& r matches Ok(receipt)
                    &&& final(self)@ == minted(
                        old(self)@,
                        token_id@,
                        minted_token(
                            ctx.current_account_id@,
                            donate_amount_str@,
                            receiver_id@,
                            royalties_view(perpetual_royalties),
                        ),
                        metadata@,
                    )
                    &&& receipt.event.is_mint_of(receiver_id@, token_id@)
                    &&& receipt.refund_to@ == ctx.signer_account_id@
                },
            },
    {
        if !(ctx.predecessor_account_id == ctx.current_account_id) {
            return Err(Error::Forbidden);
        }
        if !forwarded {
            return Err(Error::ForwardingFailed);
        }
        let royalty: AssocMap<AccountId, u16> = match perpetual_royalties {
            Some(given) => {
                if given.len() > MAX_ROYALTIES {
                    return Err(Error::TooManyRoyalties);
                }
                given
            },
            None => AssocMap::new(),
        };
        if self.token(&token_id).is_some() {
            return Err(Error::AlreadyExists);
        }
        let mut approved_account_ids: AssocMap<AccountId, u64> = AssocMap::new();
        approved_account_ids.insert(ctx.current_account_id.clone(), 0);
        let token = Token {
            owner_id: receiver_id.clone(),
            donate_amount: donate_amount_str,
            approved_account_ids,
            next_approval_id: 1,
            royalty,
        };
        self.put_certificate(token_id.clone(), token, metadata);
        let event = EventLog::mint(receiver_id, token_id);
        Ok(MintReceipt { event, refund_to: ctx.signer_account_id.clone() })
    }

    /// Is told how the forwarding of an added donation went. Only the
    /// registry itself may call this. Where the donation did not arrive, the
    /// certificate gets back the amount that it showed before.
    pub fn on_donate_update(
        &mut self,
        ctx: &Context,
        forwarded: bool,
        token_id: TokenId,
        old_donate_amount: String,
    ) -> (r: Result<(), Error>)
        requires
            old(self).wf(),
        ensures
            final(self).wf(),
            match rollback_error(old(self)@, *ctx, forwarded, token_id@) {
                Some(e) => r matches Err(x) && x == e && final(self)@ == old(self)@,
                None => r is Ok && final(self)@ == (if forwarded {
                    old(self)@
                } else {
                    with_amount(old(self)@, token_id@, old_donate_amount@)
                }),
            },
    {
        if !(ctx.predecessor_account_id == ctx.current_account_id) {
            return Err(Error::Forbidden);
        }
        if forwarded {
            return Ok(());
        }
        let mut token: Token = match self.token(&token_id) {
            Some(token) => token.dup(),
            None => {
                return Err(Error::NotFound);
            },
        };
        token.donate_amount = old_donate_amount;
        proof {
            lemma_with_amount_inv(old(self)@, token_id@, old_donate_amount@);
        }
        self.put_token(token_id, token);
        Ok(())
    }
}

/// A certificate that was minted with royalty shares shows exactly those
/// shares when it is read.
pub proof fn lemma_minted_royalty_reads_back(
    s: ContractView,
    registry: Seq<char>,
    token_id: Seq<char>,
    donate_amount: Seq<char>,
    receiver: Seq<char>,
    royalties: Map<Seq<char>, u16>,
    metadata: TokenMetadataView,
)
    ensures
        ({
            let after = minted(
                s,
                token_id,
                minted_token(registry, donate_amount, receiver, Some(royalties)),
                metadata,
            );
            &&& after.tokens_by_id.contains_key(token_id)
            &&& json_token_view(after, token_id).royalty == royalties
            &&& json_token_view(after, token_id).donate_amount == donate_amount
            &&& json_token_view(after, token_id).owner_id == receiver
            &&& json_token_view(after, token_id).metadata == metadata
        }),
{
}

/// A donation never lowers the amount on a certificate whose amount is
/// one that writing out leaves as it is, and the amount that it leaves is
/// such an amount again. So from the first donation on, the amount on a
/// certificate only grows.
pub proof fn lemma_update_never_lowers(
    s: ContractView,
    ctx: Context,
    token_id: Seq<char>,
    amount: Seq<char>,
)
    requires
        update_outcome(s, ctx, token_id, amount) is Ok,
        settled(value_of(s.tokens_by_id[token_id].donate_amount)) == value_of(
            s.tokens_by_id[token_id].donate_amount,
        ),
    ensures
        ({
            let before = s.tokens_by_id[token_id].donate_amount;
            let after = update_outcome(s, ctx, token_id, amount)->Ok_0;
            &&& well_formed(after)
            &&& yocto_of(after) == settled(value_of(before) + value_of(amount))
            &&& yocto_of(after) >= value_of(before)
            &&& settled(yocto_of(after)) == yocto_of(after)
        }),
{
    let before = s.tokens_by_id[token_id].donate_amount;
    let sum = (value_of(before) + value_of(amount)) as u128;
    lemma_kept_text_value(near_text(sum), sum);
    lemma_settled_sum_not_below(value_of(before), value_of(amount));
}

/// A donation that was added and did not arrive leaves the registry as it
/// was before the donation: the certificate shows its old amount again, and
/// nothing else has changed.
pub proof fn lemma_failed_update_rolls_back(
    s: ContractView,
    ctx: Context,
    token_id: Seq<char>,
    amount: Seq<char>,
)
    requires
        update_outcome(s, ctx, token_id, amount) is Ok,
    ensures
        with_amount(
            with_amount(s, token_id, update_outcome(s, ctx, token_id, amount)->Ok_0),
            token_id,
            s.tokens_by_id[token_id].donate_amount,
        ) == s,
{
    let text = update_outcome(s, ctx, token_id, amount)->Ok_0;
    let mid = with_amount(s, token_id, text);
    let back = with_amount(mid, token_id, s.tokens_by_id[token_id].donate_amount);
    assert(back.tokens_by_id =~= s.tokens_by_id);
}

/// Telling the registry a second time that a forwarding failed changes
/// nothing: the certificate shows the old amount already.
pub proof fn lemma_report_twice(s: ContractView, token_id: Seq<char>, old_amount: Seq<char>)
    requires
        s.tokens_by_id.contains_key(token_id),
    ensures
        with_amount(with_amount(s, token_id, old_amount), token_id, old_amount) == with_amount(
            s,
            token_id,
            old_amount,
        ),
{
    let once = with_amount(s, token_id, old_amount);
    assert(with_amount(once, token_id, old_amount).tokens_by_id =~= once.tokens_by_id);
}

/// A mint that was completed is refused when it is tried again.
pub proof fn lemma_mint_once(
    s: ContractView,
    ctx: Context,
    forwarded: bool,
    token_id: Seq<char>,
    token: TokenView,
    metadata: TokenMetadataView,
    royalties: Option<Map<Seq<char>, u16>>,
)
    ensures
        mint_error(minted(s, token_id, token, metadata), ctx, forwarded, token_id, royalties)
            is Some,
{
}

/// What a request carries.
pub open spec fn carried_by(request: SubRequestView) -> int {
    match request {
        SubRequestView::Mint { attached, .. } => attached,
        SubRequestView::Update { attached, .. } => attached,
    }
}

/// What the requests of a batch carry in all.
pub open spec fn carried(requests: Seq<SubRequestView>) -> int
    decreases requests.len(),
{
    if requests.len() == 0 {
        0
    } else {
        carried(requests.drop_last()) + carried_by(requests.last())
    }
}

/// A batch that is accepted has one request for each of its donations, and
/// its total is what the requests carry.
pub proof fn lemma_batch_shape(
    s: ContractView,
    suffix: Seq<char>,
    issued_at: Option<u64>,
    index: Map<CategoryId, Seq<char>>,
    items: Seq<(CategoryId, Seq<char>)>,
)
    requires
        batch_fold(s, suffix, issued_at, index, items) is Ok,
    ensures
        batch_fold(s, suffix, issued_at, index, items)->Ok_0.requests.len() == items.len(),
        batch_fold(s, suffix, issued_at, index, items)->Ok_0.total == carried(
            batch_fold(s, suffix, issued_at, index, items)->Ok_0.requests,
        ),
    decreases items.len(),
{
    if items.len() > 0 {
        let before = batch_fold(s, suffix, issued_at, index, items.drop_last());
        lemma_batch_shape(s, suffix, issued_at, index, items.drop_last());
        let after = batch_fold(s, suffix, issued_at, index, items)->Ok_0;
        assert(after.requests.drop_last() =~= before->Ok_0.requests);
    }
}

/// A donation in a category for which the donor index names a certificate
/// that the ledger lacks is minted, under a name made from the suffix of
/// this batch, and the index is made to name that certificate.
pub proof fn lemma_stale_index_is_minted(
    s: ContractView,
    suffix: Seq<char>,
    issued_at: Option<u64>,
    st: BatchState,
    category: CategoryId,
    amount: Seq<char>,
)
    requires
        readable(amount),
        s.templates_complete(),
        category < s.categories.len(),
        st.index.contains_key(category),
        !s.tokens_by_id.contains_key(st.index[category]),
    ensures
        batch_step(s, suffix, issued_at, st, (category, amount)) matches Ok(next)
            && next.requests.last() is Mint && next.requests.last()->Mint_token_id
            == s.categories[category as int] + suffix && next.index[category]
            == s.categories[category as int] + suffix,
{
}

/// A mint and a donation take no certificate out of the ledger and touch
/// no other certificate; a donation changes nothing but the amount.
pub proof fn lemma_donation_frame(
    s: ContractView,
    token_id: Seq<char>,
    token: TokenView,
    metadata: TokenMetadataView,
    amount: Seq<char>,
    other: Seq<char>,
)
    requires
        other != token_id,
    ensures
        minted(s, token_id, token, metadata).tokens_by_id.contains_key(other)
            == s.tokens_by_id.contains_key(other),
        minted(s, token_id, token, metadata).tokens_by_id[other] == s.tokens_by_id[other],
        minted(s, token_id, token, metadata).token_metadata_by_id[other]
            == s.token_metadata_by_id[other],
        with_amount(s, token_id, amount).tokens_by_id.contains_key(other)
            == s.tokens_by_id.contains_key(other),
        with_amount(s, token_id, amount).tokens_by_id[other] == s.tokens_by_id[other],
        with_amount(s, token_id, amount).tokens_by_id[token_id].owner_id
            == s.tokens_by_id[token_id].owner_id,
        with_amount(s, token_id, amount).tokens_by_id[token_id].approved_account_ids
            == s.tokens_by_id[token_id].approved_account_ids,
        with_amount(s, token_id, amount).tokens_by_id[token_id].royalty
            == s.tokens_by_id[token_id].royalty,
        with_amount(s, token_id, amount).tokens_per_owner == s.tokens_per_owner,
        with_amount(s, token_id, amount).token_metadata_by_id == s.token_metadata_by_id,
        with_amount(s, token_id, amount).tokens_per_owner_ordered == s.tokens_per_owner_ordered,
{
}

} // verus!
