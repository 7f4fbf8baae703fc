//! The records that the registry keeps: certificates, their metadata, and the
//! sets and indexes that say who holds what.

use crate::assoc::{AssocMap, Duplicate};
use vstd::prelude::*;

verus! {

/// The name of an account.
pub type AccountId = String;

/// The name of a certificate.
pub type TokenId = String;

/// The prefix that the certificates of a category are named with.
pub type Category = String;

/// The number of a category.
pub type CategoryId = u16;

/// The characters of an optional text.
pub open spec fn text_of(o: Option<String>) -> Option<Seq<char>> {
    match o {
        Some(s) => Some(s@),
        None => None,
    }
}

/// The bytes of an optional byte string.
pub open spec fn bytes_of(o: Option<Vec<u8>>) -> Option<Seq<u8>> {
    match o {
        Some(b) => Some(b@),
        None => None,
    }
}

/// A copy of an optional text.
pub fn dup_text(o: &Option<String>) -> (r: Option<String>)
    ensures
        text_of(r) == text_of(*o),
{
    match o {
        Some(s) => Some(s.clone()),
        None => None,
    }
}

/// A copy of an optional byte string.
pub fn dup_bytes(o: &Option<Vec<u8>>) -> (r: Option<Vec<u8>>)
    ensures
        bytes_of(r) == bytes_of(*o),
{
    match o {
        Some(b) => Some(b.clone()),
        None => None,
    }
}

/// What a certificate shows: the template of its category, stamped with the
/// time of issue.
pub struct TokenMetadata {
    pub title: Option<String>,
    pub description: Option<String>,
    pub media: Option<String>,
    pub media_hash: Option<Vec<u8>>,
    pub copies: Option<u64>,
    pub issued_at: Option<u64>,
    pub expires_at: Option<u64>,
    pub starts_at: Option<u64>,
    pub updated_at: Option<u64>,
    pub extra: Option<String>,
    pub reference: Option<String>,
    pub reference_hash: Option<Vec<u8>>,
}

/// The metadata of a certificate as a mathematical value.
pub struct TokenMetadataView {
    pub title: Option<Seq<char>>,
    pub description: Option<Seq<char>>,
    pub media: Option<Seq<char>>,
    pub media_hash: Option<Seq<u8>>,
    pub copies: Option<u64>,
    pub issued_at: Option<u64>,
    pub expires_at: Option<u64>,
    pub starts_at: Option<u64>,
    pub updated_at: Option<u64>,
    pub extra: Option<Seq<char>>,
    pub reference: Option<Seq<char>>,
    pub reference_hash: Option<Seq<u8>>,
}

impl View for TokenMetadata {
    type V = TokenMetadataView;

    open spec fn view(&self) -> TokenMetadataView {
        TokenMetadataView {
            title: text_of(self.title),
            description: text_of(self.description),
            media: text_of(self.media),
            media_hash: bytes_of(self.media_hash),
            copies: self.copies,
            issued_at: self.issued_at,
            expires_at: self.expires_at,
            starts_at: self.starts_at,
            updated_at: self.updated_at,
            extra: text_of(self.extra),
            reference: text_of(self.reference),
            reference_hash: bytes_of(self.reference_hash),
        }
    }
}

impl Duplicate for TokenMetadata {
    fn dup(&self) -> (r: Self) {
        TokenMetadata {
            title: dup_text(&self.title),
            description: dup_text(&self.description),
            media: dup_text(&self.media),
            media_hash: dup_bytes(&self.media_hash),
            copies: self.copies,
            issued_at: self.issued_at,
            expires_at: self.expires_at,
            starts_at: self.starts_at,
            updated_at: self.updated_at,
            extra: dup_text(&self.extra),
            reference: dup_text(&self.reference),
            reference_hash: dup_bytes(&self.reference_hash),
        }
    }
}

impl Clone for TokenMetadata {
    fn clone(&self) -> (r: Self)
        ensures
            r@ == self@,
    {
        self.dup()
    }
}

/// What the registry says of itself.
pub struct NFTContractMetadata {
    pub spec: String,
    pub name: String,
    pub symbol: String,
    pub icon: Option<String>,
    pub base_uri: Option<String>,
    pub reference: Option<String>,
    pub reference_hash: Option<Vec<u8>>,
}

/// What the registry says of itself, as a mathematical value.
pub struct NFTContractMetadataView {
    pub spec: Seq<char>,
    pub name: Seq<char>,
    pub symbol: Seq<char>,
    pub icon: Option<Seq<char>>,
    pub base_uri: Option<Seq<char>>,
    pub reference: Option<Seq<char>>,
    pub reference_hash: Option<Seq<u8>>,
}

impl View for NFTContractMetadata {
    type V = NFTContractMetadataView;

    open spec fn view(&self) -> NFTContractMetadataView {
        NFTContractMetadataView {
            spec: self.spec@,
            name: self.name@,
            symbol: self.symbol@,
            icon: text_of(self.icon),
            base_uri: text_of(self.base_uri),
            reference: text_of(self.reference),
            reference_hash: bytes_of(self.reference_hash),
        }
    }
}

impl Duplicate for NFTContractMetadata {
    fn dup(&self) -> (r: Self) {
        NFTContractMetadata {
            spec: self.spec.clone(),
            name: self.name.clone(),
            symbol: self.symbol.clone(),
            icon: dup_text(&self.icon),
            base_uri: dup_text(&self.base_uri),
            reference: dup_text(&self.reference),
            reference_hash: dup_bytes(&self.reference_hash),
        }
    }
}

impl Clone for NFTContractMetadata {
    fn clone(&self) -> (r: Self)
        ensures
            r@ == self@,
    {
        self.dup()
    }
}

/// One certificate.
pub struct Token {
    /// Who holds it.
    pub owner_id: AccountId,
    /// What has been donated on it so far, as a decimal amount of NEAR.
    pub donate_amount: String,
    /// Who may move it for the owner, each with the number of the approval.
    pub approved_account_ids: AssocMap<AccountId, u64>,
    /// The number that the next approval gets.
    pub next_approval_id: u64,
    /// Who gets which share of a sale.
    pub royalty: AssocMap<AccountId, u16>,
}

/// A certificate as a mathematical value.
pub struct TokenView {
    pub owner_id: Seq<char>,
    pub donate_amount: Seq<char>,
    pub approved_account_ids: Map<Seq<char>, u64>,
    pub next_approval_id: u64,
    pub royalty: Map<Seq<char>, u16>,
}

impl TokenView {
    /// Every approval on the certificate has a number below the next one to
    /// be given out.
    pub open spec fn approvals_in_order(self) -> bool {
        forall|a: Seq<char>| #[trigger]
            self.approved_account_ids.contains_key(a) ==> self.approved_account_ids[a]
                < self.next_approval_id
    }
}

impl View for Token {
    type V = TokenView;

    open spec fn view(&self) -> TokenView {
        TokenView {
            owner_id: self.owner_id@,
            donate_amount: self.donate_amount@,
            approved_account_ids: self.approved_account_ids@,
            next_approval_id: self.next_approval_id,
            royalty: self.royalty@,
        }
    }
}

impl Token {
    /// Whether every approval on the certificate has a number below the
    /// next one to be given out.
    pub fn has_approvals_in_order(&self) -> (r: bool)
        ensures
            r == self@.approvals_in_order(),
    {
        let accounts = self.approved_account_ids.keys();
        let mut i: usize = 0;
        while i < accounts.len()
            invariant
                i <= accounts.len(),
                forall|j: int|
                    0 <= j < i ==> self.approved_account_ids@[(#[trigger] accounts@[j])@]
                        < self.next_approval_id,
                forall|j: int|
                    0 <= j < accounts@.len() ==> self.approved_account_ids@.contains_key(
                        (#[trigger] accounts@[j])@,
                    ),
            decreases accounts.len() - i,
        {
            match self.approved_account_ids.get(&accounts[i]) {
                Some(number) => {
                    if *number >= self.next_approval_id {
                        assert(self@.approved_account_ids.contains_key(accounts@[i as int]@));
                        return false;
                    }
                },
                None => {},
            }
            i += 1;
        }
        assert forall|a: Seq<char>| #[trigger]
            self.approved_account_ids@.contains_key(a) implies self.approved_account_ids@[a]
            < self.next_approval_id by {
            let j = choose|j: int| 0 <= j < accounts@.len() && (#[trigger] accounts@[j])@ == a;
            assert(accounts@[j]@ == a);
        }
        true
    }
}

impl Duplicate for Token {
    fn dup(&self) -> (r: Self) {
        Token {
            owner_id: self.owner_id.clone(),
            donate_amount: self.donate_amount.clone(),
            approved_account_ids: self.approved_account_ids.dup(),
            next_approval_id: self.next_approval_id,
            royalty: self.royalty.dup(),
        }
    }
}

impl Clone for Token {
    fn clone(&self) -> (r: Self)
        ensures
            r@ == self@,
    {
        self.dup()
    }
}

/// A certificate as it is shown to a reader: the record and its metadata.
pub struct JsonToken {
    pub token_id: TokenId,
    pub donate_amount: String,
    pub owner_id: AccountId,
    pub metadata: TokenMetadata,
    pub approved_account_ids: AssocMap<AccountId, u64>,
    pub royalty: AssocMap<AccountId, u16>,
}

/// A certificate as it is shown, as a mathematical value.
pub struct JsonTokenView {
    pub token_id: Seq<char>,
    pub donate_amount: Seq<char>,
    pub owner_id: Seq<char>,
    pub metadata: TokenMetadataView,
    pub approved_account_ids: Map<Seq<char>, u64>,
    pub royalty: Map<Seq<char>, u16>,
}

impl View for JsonToken {
    type V = JsonTokenView;

    open spec fn view(&self) -> JsonTokenView {
        JsonTokenView {
            token_id: self.token_id@,
            donate_amount: self.donate_amount@,
            owner_id: self.owner_id@,
            metadata: self.metadata@,
            approved_account_ids: self.approved_account_ids@,
            royalty: self.royalty@,
        }
    }
}

/// The certificates that one account holds.
pub struct TokenSet {
    ids: AssocMap<TokenId, bool>,
}

impl View for TokenSet {
    type V = Set<Seq<char>>;

    closed spec fn view(&self) -> Set<Seq<char>> {
        self.ids@.dom()
    }
}

impl TokenSet {
    pub fn new() -> (r: Self)
        ensures
            r@ == Set::<Seq<char>>::empty(),
    {
        let r = TokenSet { ids: AssocMap::new() };
        assert(r@ =~= Set::<Seq<char>>::empty());
        r
    }

    pub fn len(&self) -> (r: usize)
        ensures
            self@.finite(),
            r == self@.len(),
    {
        self.ids.len()
    }

    pub fn is_empty(&self) -> (r: bool)
        ensures
            r == (self@ == Set::<Seq<char>>::empty()),
    {
        let n = self.ids.len();
        proof {
            if n == 0 {
                self@.lemma_len0_is_empty();
                assert(self@ =~= Set::<Seq<char>>::empty());
            } else {
                assert(self@.len() != 0);
            }
        }
        n == 0
    }

    pub fn contains(&self, id: &TokenId) -> (r: bool)
        ensures
            r == self@.contains(id@),
    {
        self.ids.contains_key(id)
    }

    /// Puts `id` into the set; `true` when it was not there before.
    pub fn insert(&mut self, id: TokenId) -> (r: bool)
        ensures
            final(self)@ == old(self)@.insert(id@),
            r == !old(self)@.contains(id@),
    {
        let before = self.ids.insert(id, true);
        assert(self@ =~= old(self)@.insert(id@));
        before.is_none()
    }

    /// Takes `id` out of the set; `true` when it was there.
    pub fn remove(&mut self, id: &TokenId) -> (r: bool)
        ensures
            final(self)@ == old(self)@.remove(id@),
            r == old(self)@.contains(id@),
    {
        let before = self.ids.remove(id);
        assert(self@ =~= old(self)@.remove(id@));
        before.is_some()
    }

    /// The certificates of the set, each once.
    pub fn to_vec(&self) -> (r: Vec<TokenId>)
        ensures
            r@.len() == self@.len(),
            forall|i: int| 0 <= i < r@.len() ==> self@.contains((#[trigger] r@[i])@),
            forall|k: Seq<char>|
                self@.contains(k) ==> exists|i: int| 0 <= i < r@.len() && (#[trigger] r@[i])@ == k,
    {
        self.ids.keys()
    }
}

impl Duplicate for TokenSet {
    fn dup(&self) -> (r: Self) {
        TokenSet { ids: self.ids.dup() }
    }
}

} // verus!
