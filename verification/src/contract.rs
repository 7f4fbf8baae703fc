//! The registry's state: the ledger of certificates, who holds which, the
//! categories with their templates, and each donor's index by category.

use crate::assoc::{AssocMap, Duplicate};
use crate::context::Error;
use crate::metadata::{
    AccountId, Category, CategoryId, NFTContractMetadata, NFTContractMetadataView, Token, TokenId,
    TokenMetadata, TokenMetadataView, TokenSet, TokenView,
};
use vstd::prelude::*;
use vstd::string::*;

verus! {

/// Most categories that the registry can number.
pub const MAX_CATEGORIES: usize = 65536;

/// The registry.
pub struct Contract {
    owner_id: AccountId,
    tokens_per_owner: AssocMap<AccountId, TokenSet>,
    tokens_by_id: AssocMap<TokenId, Token>,
    token_metadata_by_id: AssocMap<TokenId, TokenMetadata>,
    metadata: NFTContractMetadata,
    categories: Vec<Category>,
    tokens_per_owner_ordered: AssocMap<AccountId, AssocMap<CategoryId, TokenId>>,
    token_metadata_by_cat_id: AssocMap<CategoryId, TokenMetadata>,
}

/// The prefixes under which the registry's collections are stored.
pub enum StorageKey {
    TokensPerOwner,
    TokenPerOwnerInner { account_id_hash: [u8; 32] },
    TokensById,
    TokenMetadataById,
    NFTContractMetadata,
    TokensPerType,
    TokensPerTypeInner { token_type_hash: [u8; 32] },
    TokenTypesLocked,
    Categories,
    TokensOrdered,
    MetadataCatId,
}

/// The registry as a mathematical value.
pub struct ContractView {
    /// The account that runs the registry.
    pub owner_id: Seq<char>,
    /// The certificates that each account holds.
    pub tokens_per_owner: Map<Seq<char>, Set<Seq<char>>>,
    /// The ledger: each certificate by its name.
    pub tokens_by_id: Map<Seq<char>, TokenView>,
    /// The metadata of each certificate.
    pub token_metadata_by_id: Map<Seq<char>, TokenMetadataView>,
    /// What the registry says of itself.
    pub metadata: NFTContractMetadataView,
    /// The prefix of each category, by the category's number.
    pub categories: Seq<Seq<char>>,
    /// For each donor, the certificate it is believed to hold in a category.
    pub tokens_per_owner_ordered: Map<Seq<char>, Map<u16, Seq<char>>>,
    /// The template of each category.
    pub token_metadata_by_cat_id: Map<u16, TokenMetadataView>,
}

impl ContractView {
    /// The certificates that `account` holds.
    pub open spec fn held_by(self, account: Seq<char>) -> Set<Seq<char>> {
        if self.tokens_per_owner.contains_key(account) {
            self.tokens_per_owner[account]
        } else {
            Set::empty()
        }
    }

    /// The donor index of `account`; empty where it has none.
    pub open spec fn index_of(self, account: Seq<char>) -> Map<u16, Seq<char>> {
        if self.tokens_per_owner_ordered.contains_key(account) {
            self.tokens_per_owner_ordered[account]
        } else {
            Map::empty()
        }
    }

    /// The registry with `token_id` among what `account` holds.
    pub open spec fn with_token_added(self, account: Seq<char>, token_id: Seq<char>) -> Self {
        ContractView {
            tokens_per_owner: self.tokens_per_owner.insert(
                account,
                self.held_by(account).insert(token_id),
            ),
            ..self
        }
    }

    /// The registry without `token_id` among what `account` holds. An
    /// account that holds nothing has no entry.
    pub open spec fn with_token_removed(self, account: Seq<char>, token_id: Seq<char>) -> Self {
        let rest = self.held_by(account).remove(token_id);
        ContractView {
            tokens_per_owner: if rest == Set::<Seq<char>>::empty() {
                self.tokens_per_owner.remove(account)
            } else {
                self.tokens_per_owner.insert(account, rest)
            },
            ..self
        }
    }

    /// The registry with `token` in the ledger under `token_id`.
    pub open spec fn with_token(self, token_id: Seq<char>, token: TokenView) -> Self {
        ContractView { tokens_by_id: self.tokens_by_id.insert(token_id, token), ..self }
    }

    /// The registry with `metadata` kept for the certificate `token_id`.
    pub open spec fn with_token_metadata(
        self,
        token_id: Seq<char>,
        metadata: TokenMetadataView,
    ) -> Self {
        ContractView {
            token_metadata_by_id: self.token_metadata_by_id.insert(token_id, metadata),
            ..self
        }
    }

    /// The registry with a new certificate: in the ledger, with its
    /// metadata, and among what its owner holds.
    pub open spec fn with_certificate(
        self,
        token_id: Seq<char>,
        token: TokenView,
        metadata: TokenMetadataView,
    ) -> Self {
        self.with_token(token_id, token).with_token_metadata(token_id, metadata).with_token_added(
            token.owner_id,
            token_id,
        )
    }

    /// The registry with `index` as the donor index of `account`.
    pub open spec fn with_index(self, account: Seq<char>, index: Map<u16, Seq<char>>) -> Self {
        ContractView {
            tokens_per_owner_ordered: self.tokens_per_owner_ordered.insert(account, index),
            ..self
        }
    }

    /// The registry with one more category.
    pub open spec fn with_category(self, prefix: Seq<char>, template: TokenMetadataView) -> Self {
        ContractView {
            categories: self.categories.push(prefix),
            token_metadata_by_cat_id: self.token_metadata_by_cat_id.insert(
                self.categories.len() as u16,
                template,
            ),
            ..self
        }
    }

    /// Category `c` has a template with a title.
    pub open spec fn titled(self, c: CategoryId) -> bool {
        self.token_metadata_by_cat_id.contains_key(c) && self.token_metadata_by_cat_id[c].title
            is Some
    }

    /// The title of category `c`.
    pub open spec fn title(self, c: CategoryId) -> Seq<char> {
        self.token_metadata_by_cat_id[c].title->0
    }

    /// The titles of the first `n` categories, each under the category's
    /// prefix. Of two categories with one prefix the later one counts.
    pub open spec fn titles_by_prefix(self, n: nat) -> Map<Seq<char>, Seq<char>>
        decreases n,
    {
        if n == 0 {
            Map::empty()
        } else {
            self.titles_by_prefix((n - 1) as nat).insert(
                self.categories[n - 1],
                self.title((n - 1) as CategoryId),
            )
        }
    }

    /// The numbers of the first `n` categories, each under the category's
    /// prefix. Of two categories with one prefix the later one counts.
    pub open spec fn numbers_by_prefix(self, n: nat) -> Map<Seq<char>, CategoryId>
        decreases n,
    {
        if n == 0 {
            Map::empty()
        } else {
            self.numbers_by_prefix((n - 1) as nat).insert(
                self.categories[n - 1],
                (n - 1) as CategoryId,
            )
        }
    }

    /// The donor index of `account` names, for category `c`, a certificate
    /// that the ledger has, and the category has a title.
    pub open spec fn donation_known(self, account: Seq<char>, c: CategoryId) -> bool {
        self.titled(c) && self.tokens_by_id.contains_key(self.index_of(account)[c])
    }

    /// The amount on the certificate that the donor index of `account`
    /// names for category `c`.
    pub open spec fn donation_in(self, account: Seq<char>, c: CategoryId) -> Seq<char> {
        self.tokens_by_id[self.index_of(account)[c]].donate_amount
    }

    /// On every certificate, each approval has a number below the next one
    /// to be given out.
    pub open spec fn approvals_in_order(self) -> bool {
        forall|id: Seq<char>| #[trigger]
            self.tokens_by_id.contains_key(id) ==> self.tokens_by_id[id].approvals_in_order()
    }

    /// Every certificate of the ledger is among what its owner holds.
    pub open spec fn owners_hold(self) -> bool {
        forall|id: Seq<char>| #[trigger]
            self.tokens_by_id.contains_key(id) ==> self.held_by(
                self.tokens_by_id[id].owner_id,
            ).contains(id)
    }

    /// Whatever an account holds is a certificate of the ledger that names
    /// this account as its owner, and no account has an empty entry.
    pub open spec fn holdings_owned(self) -> bool {
        &&& forall|a: Seq<char>, id: Seq<char>|
            #![trigger self.tokens_per_owner[a].contains(id)]
            self.tokens_per_owner.contains_key(a) && self.tokens_per_owner[a].contains(id)
                ==> self.tokens_by_id.contains_key(id) && self.tokens_by_id[id].owner_id == a
        &&& forall|a: Seq<char>| #[trigger]
            self.tokens_per_owner.contains_key(a) ==> self.tokens_per_owner[a] != Set::<
                Seq<char>,
            >::empty()
    }

    /// Every certificate has its metadata, and there is no other metadata.
    pub open spec fn metadata_complete(self) -> bool {
        forall|id: Seq<char>|
            self.tokens_by_id.contains_key(id) <==> #[trigger] self.token_metadata_by_id.contains_key(
                id,
            )
    }

    /// The categories are numbered from zero, and each has its template.
    pub open spec fn templates_complete(self) -> bool {
        &&& self.categories.len() <= MAX_CATEGORIES
        &&& forall|c: u16| #[trigger]
            self.token_metadata_by_cat_id.contains_key(c) <==> c < self.categories.len()
    }

    /// What holds of the registry between any two calls.
    pub open spec fn inv(self) -> bool {
        &&& self.approvals_in_order()
        &&& self.owners_hold()
        &&& self.holdings_owned()
        &&& self.metadata_complete()
        &&& self.templates_complete()
    }
}

impl View for Contract {
    type V = ContractView;

    closed spec fn view(&self) -> ContractView {
        ContractView {
            owner_id: self.owner_id@,
            tokens_per_owner: self.tokens_per_owner@,
            tokens_by_id: self.tokens_by_id@,
            token_metadata_by_id: self.token_metadata_by_id@,
            metadata: self.metadata@,
            categories: Seq::new(self.categories@.len(), |i: int| self.categories@[i]@),
            tokens_per_owner_ordered: self.tokens_per_owner_ordered@,
            token_metadata_by_cat_id: self.token_metadata_by_cat_id@,
        }
    }
}

/// The characters of each text of a list.
pub open spec fn texts_view(v: Seq<String>) -> Seq<Seq<char>> {
    Seq::new(v.len(), |i: int| v[i]@)
}

/// What is needed of the parts of a stored registry: no more categories
/// than can be numbered, no certificate twice, approvals in order on each
/// certificate, and no donor twice.
pub open spec fn restorable(
    categories: Seq<(Category, TokenMetadata)>,
    certificates: Seq<(TokenId, Token, TokenMetadata)>,
    indexes: Seq<(AccountId, AssocMap<CategoryId, TokenId>)>,
) -> bool {
    &&& categories.len() <= MAX_CATEGORIES
    &&& forall|i: int, j: int|
        0 <= i < j < certificates.len() ==> certificates[i].0@ != certificates[j].0@
    &&& forall|i: int|
        0 <= i < certificates.len() ==> (#[trigger] certificates[i]).1@.approvals_in_order()
    &&& forall|i: int, j: int| 0 <= i < j < indexes.len() ==> indexes[i].0@ != indexes[j].0@
}

/// The registry `s` has the given categories, in their order.
pub open spec fn holds_categories(s: ContractView, categories: Seq<(Category, TokenMetadata)>) -> bool {
    &&& s.categories.len() == categories.len()
    &&& forall|c: int|
        0 <= c < categories.len() ==> s.categories[c] == (#[trigger] categories[c]).0@
            && s.token_metadata_by_cat_id[c as CategoryId] == categories[c].1@
}

/// The ledger of `s` holds the given certificates and no others.
pub open spec fn holds_certificates(
    s: ContractView,
    certificates: Seq<(TokenId, Token, TokenMetadata)>,
) -> bool {
    &&& forall|id: Seq<char>| #[trigger]
        s.tokens_by_id.contains_key(id) <==> exists|i: int|
            0 <= i < certificates.len() && (#[trigger] certificates[i]).0@ == id
    &&& forall|i: int|
        0 <= i < certificates.len() ==> s.tokens_by_id[(#[trigger] certificates[i]).0@]
            == certificates[i].1@ && s.token_metadata_by_id[certificates[i].0@]
            == certificates[i].2@
}

/// `s` has the given donor indexes and no others.
pub open spec fn holds_indexes(
    s: ContractView,
    indexes: Seq<(AccountId, AssocMap<CategoryId, TokenId>)>,
) -> bool {
    &&& forall|a: Seq<char>| #[trigger]
        s.tokens_per_owner_ordered.contains_key(a) <==> exists|i: int|
            0 <= i < indexes.len() && (#[trigger] indexes[i]).0@ == a
    &&& forall|i: int|
        0 <= i < indexes.len() ==> s.tokens_per_owner_ordered[(#[trigger] indexes[i]).0@]
            == indexes[i].1@
}

/// The registry as it starts: no certificate, no category.
pub open spec fn initial_view(owner_id: Seq<char>, metadata: NFTContractMetadataView) -> ContractView {
    ContractView {
        owner_id,
        tokens_per_owner: Map::empty(),
        tokens_by_id: Map::empty(),
        token_metadata_by_id: Map::empty(),
        metadata,
        categories: Seq::empty(),
        tokens_per_owner_ordered: Map::empty(),
        token_metadata_by_cat_id: Map::empty(),
    }
}

/// The metadata that a registry gets where none is given.
pub open spec fn default_metadata_view() -> NFTContractMetadataView {
    NFTContractMetadataView {
        spec: "nft-1.0.0"@,
        name: "NFT Tutorial Contract"@,
        symbol: "GONEAR"@,
        icon: None,
        base_uri: None,
        reference: None,
        reference_hash: None,
    }
}

impl Contract {
    /// The registry is in a state that its own calls leave it in.
    pub open spec fn wf(&self) -> bool {
        self@.inv()
    }

    /// A registry run by `owner_id`, with default metadata.
    pub fn new_default_meta(owner_id: AccountId) -> (r: Self)
        ensures
            r.wf(),
            r@ == initial_view(owner_id@, default_metadata_view()),
    {
        Self::new(
            owner_id,
            NFTContractMetadata {
                spec: String::from_str("nft-1.0.0"),
                name: String::from_str("NFT Tutorial Contract"),
                symbol: String::from_str("GONEAR"),
                icon: None,
                base_uri: None,
                reference: None,
                reference_hash: None,
            },
        )
    }

    /// A registry run by `owner_id`, with no certificate and no category.
    pub fn new(owner_id: AccountId, metadata: NFTContractMetadata) -> (r: Self)
        ensures
            r.wf(),
            r@ == initial_view(owner_id@, metadata@),
    {
        let r = Contract {
            owner_id,
            tokens_per_owner: AssocMap::new(),
            tokens_by_id: AssocMap::new(),
            token_metadata_by_id: AssocMap::new(),
            metadata,
            categories: Vec::new(),
            tokens_per_owner_ordered: AssocMap::new(),
            token_metadata_by_cat_id: AssocMap::new(),
        };
        assert(r@.categories =~= Seq::<Seq<char>>::empty());
        r
    }

    /// Builds a registry from its stored parts: the categories in their
    /// order, each with its template; the certificates, each with its name
    /// and metadata; and the donor indexes. Nothing is built from parts that
    /// are not in order. Who holds which certificate follows from the
    /// certificates.
    pub fn restore(
        owner_id: AccountId,
        metadata: NFTContractMetadata,
        categories: Vec<(Category, TokenMetadata)>,
        certificates: Vec<(TokenId, Token, TokenMetadata)>,
        indexes: Vec<(AccountId, AssocMap<CategoryId, TokenId>)>,
    ) -> (r: Option<Self>)
        ensures
            r is Some <==> restorable(categories@, certificates@, indexes@),
            r matches Some(c) ==> {
                &&& c.wf()
                &&& c@.owner_id == owner_id@
                &&& c@.metadata == metadata@
                &&& holds_categories(c@, categories@)
                &&& holds_certificates(c@, certificates@)
                &&& holds_indexes(c@, indexes@)
                &&& forall|a: Seq<char>, id: Seq<char>|
                    #![trigger c@.held_by(a).contains(id)]
                    c@.held_by(a).contains(id) <==> c@.tokens_by_id.contains_key(id)
                        && c@.tokens_by_id[id].owner_id == a
            },
    {
        let mut c = Contract::new(owner_id, metadata);
        if categories.len() > MAX_CATEGORIES {
            return None;
        }
        let mut i: usize = 0;
        while i < categories.len()
            invariant
                i <= categories.len() <= MAX_CATEGORIES,
                c.wf(),
                c@.owner_id == owner_id@,
                c@.metadata == metadata@,
                c@.tokens_by_id == Map::<Seq<char>, TokenView>::empty(),
                c@.tokens_per_owner_ordered == Map::<Seq<char>, Map<u16, Seq<char>>>::empty(),
                holds_categories(c@, categories@.take(i as int)),
            decreases categories.len() - i,
        {
            let ghost before = c@;
            c.push_category(categories[i].0.clone(), categories[i].1.dup());
            proof {
                let done = categories@.take(i as int);
                let next = categories@.take(i + 1);
                assert(c@.inv());
                assert forall|k: int| 0 <= k < next.len() implies c@.categories[k] == (
                #[trigger] next[k]).0@ && c@.token_metadata_by_cat_id[k as CategoryId]
                    == next[k].1@ by {
                    if k < i {
                        assert(done[k] == next[k]);
                    }
                }
            }
            i += 1;
        }
        assert(categories@.take(i as int) =~= categories@);
        let mut j: usize = 0;
        while j < certificates.len()
            invariant
                j <= certificates.len(),
                categories.len() <= MAX_CATEGORIES,
                c.wf(),
                c@.owner_id == owner_id@,
                c@.metadata == metadata@,
                c@.tokens_per_owner_ordered == Map::<Seq<char>, Map<u16, Seq<char>>>::empty(),
                holds_categories(c@, categories@),
                holds_certificates(c@, certificates@.take(j as int)),
                restorable(categories@, certificates@.take(j as int), Seq::empty()),
            decreases certificates.len() - j,
        {
            let ghost done = certificates@.take(j as int);
            let ghost next = certificates@.take(j + 1);
            let ghost before = c@;
            assert(forall|k: int| 0 <= k < j ==> done[k] == next[k]);
            assert(next[j as int] == certificates@[j as int]);
            if c.tokens_by_id.contains_key(&certificates[j].0) {
                proof {
                    assert(c@.tokens_by_id.contains_key(certificates@[j as int].0@));
                    let k = choose|k: int|
                        0 <= k < done.len() && (#[trigger] done[k]).0@ == certificates@[j as int].0@;
                    assert(certificates@[k] == done[k]);
                }
                return None;
            }
            if !certificates[j].1.has_approvals_in_order() {
                return None;
            }
            c.put_certificate(
                certificates[j].0.clone(),
                certificates[j].1.dup(),
                certificates[j].2.dup(),
            );
            proof {
                assert forall|a: int, b: int| 0 <= a < b < next.len() implies next[a].0@
                    != next[b].0@ by {
                    if b == j {
                        assert(done[a] == next[a]);
                        assert(before.tokens_by_id.contains_key(done[a].0@));
                    } else {
                        assert(done[a] == next[a]);
                        assert(done[b] == next[b]);
                    }
                }
                assert forall|k: int| 0 <= k < next.len() implies (#[trigger] next[k]).1@.approvals_in_order() by {
                    if k < j {
                        assert(done[k] == next[k]);
                    }
                }
                assert forall|id: Seq<char>| #[trigger]
                    c@.tokens_by_id.contains_key(id) <==> exists|k: int|
                        0 <= k < next.len() && (#[trigger] next[k]).0@ == id by {
                    if c@.tokens_by_id.contains_key(id) {
                        if id == next[j as int].0@ {
                        } else {
                            assert(before.tokens_by_id.contains_key(id));
                            let k = choose|k: int| 0 <= k < done.len() && (#[trigger] done[k]).0@ == id;
                            assert(next[k].0@ == id);
                        }
                    }
                    if exists|k: int| 0 <= k < next.len() && (#[trigger] next[k]).0@ == id {
                        let k = choose|k: int| 0 <= k < next.len() && (#[trigger] next[k]).0@ == id;
                        if k < j {
                            assert(done[k].0@ == id);
                            assert(before.tokens_by_id.contains_key(id));
                        }
                    }
                }
                assert forall|k: int| 0 <= k < next.len() implies c@.tokens_by_id[(
                #[trigger] next[k]).0@] == next[k].1@ && c@.token_metadata_by_id[next[k].0@]
                    == next[k].2@ by {
                    if k < j {
                        assert(done[k] == next[k]);
                        assert(before.tokens_by_id.contains_key(done[k].0@));
                    }
                }
                assert forall|k: int| 0 <= k < categories@.len() implies c@.categories[k] == (
                #[trigger] categories@[k]).0@ && c@.token_metadata_by_cat_id[k as CategoryId]
                    == categories@[k].1@ by {}
            }
            j += 1;
        }
        assert(certificates@.take(j as int) =~= certificates@);
        let mut k: usize = 0;
        while k < indexes.len()
            invariant
                k <= indexes.len(),
                c.wf(),
                c@.owner_id == owner_id@,
                c@.metadata == metadata@,
                holds_categories(c@, categories@),
                holds_certificates(c@, certificates@),
                holds_indexes(c@, indexes@.take(k as int)),
                restorable(categories@, certificates@, indexes@.take(k as int)),
            decreases indexes.len() - k,
        {
            let ghost done = indexes@.take(k as int);
            let ghost next = indexes@.take(k + 1);
            let ghost before = c@;
            assert(forall|m: int| 0 <= m < k ==> done[m] == next[m]);
            assert(next[k as int] == indexes@[k as int]);
            if c.tokens_per_owner_ordered.contains_key(&indexes[k].0) {
                proof {
                    assert(c@.tokens_per_owner_ordered.contains_key(indexes@[k as int].0@));
                    let m = choose|m: int|
                        0 <= m < done.len() && (#[trigger] done[m]).0@ == indexes@[k as int].0@;
                    assert(indexes@[m] == done[m]);
                }
                return None;
            }
            c.put_owner_index(indexes[k].0.clone(), indexes[k].1.dup());
            proof {
                assert(c@.inv());
                assert forall|a: int, b: int| 0 <= a < b < next.len() implies next[a].0@
                    != next[b].0@ by {
                    if b == k {
                        assert(done[a] == next[a]);
                        assert(before.tokens_per_owner_ordered.contains_key(done[a].0@));
                    } else {
                        assert(done[a] == next[a]);
                        assert(done[b] == next[b]);
                    }
                }
                assert forall|a: Seq<char>| #[trigger]
                    c@.tokens_per_owner_ordered.contains_key(a) <==> exists|m: int|
                        0 <= m < next.len() && (#[trigger] next[m]).0@ == a by {
                    if c@.tokens_per_owner_ordered.contains_key(a) {
                        if a == next[k as int].0@ {
                        } else {
                            assert(before.tokens_per_owner_ordered.contains_key(a));
                            let m = choose|m: int| 0 <= m < done.len() && (#[trigger] done[m]).0@ == a;
                            assert(next[m].0@ == a);
                        }
                    }
                    if exists|m: int| 0 <= m < next.len() && (#[trigger] next[m]).0@ == a {
                        let m = choose|m: int| 0 <= m < next.len() && (#[trigger] next[m]).0@ == a;
                        if m < k {
                            assert(done[m].0@ == a);
                            assert(before.tokens_per_owner_ordered.contains_key(a));
                        }
                    }
                }
                assert forall|m: int| 0 <= m < next.len() implies c@.tokens_per_owner_ordered[(
                #[trigger] next[m]).0@] == next[m].1@ by {
                    if m < k {
                        assert(done[m] == next[m]);
                        assert(before.tokens_per_owner_ordered.contains_key(done[m].0@));
                    }
                }
                assert(holds_categories(c@, categories@)) by {
                    assert forall|q: int| 0 <= q < categories@.len() implies c@.categories[q] == (
                    #[trigger] categories@[q]).0@ && c@.token_metadata_by_cat_id[q as CategoryId]
                        == categories@[q].1@ by {}
                }
                assert(holds_certificates(c@, certificates@)) by {
                    assert forall|q: int| 0 <= q < certificates@.len() implies c@.tokens_by_id[(
                    #[trigger] certificates@[q]).0@] == certificates@[q].1@
                        && c@.token_metadata_by_id[certificates@[q].0@] == certificates@[q].2@ by {}
                }
            }
            k += 1;
        }
        assert(indexes@.take(k as int) =~= indexes@);
        proof {
            assert forall|a: Seq<char>, id: Seq<char>|
                #![trigger c@.held_by(a).contains(id)]
                c@.held_by(a).contains(id) <==> c@.tokens_by_id.contains_key(id)
                    && c@.tokens_by_id[id].owner_id == a by {
                if c@.held_by(a).contains(id) {
                    assert(c@.tokens_per_owner.contains_key(a) && c@.tokens_per_owner[a].contains(id));
                }
            }
        }
        Some(c)
    }

    /// The account that runs the registry.
    pub fn owner_id(&self) -> (r: &AccountId)
        ensures
            r@ == self@.owner_id,
    {
        &self.owner_id
    }

    /// What the registry says of itself.
    pub fn contract_metadata(&self) -> (r: &NFTContractMetadata)
        ensures
            r@ == self@.metadata,
    {
        &self.metadata
    }

    /// The names of the certificates of the ledger, each once.
    pub fn token_ids(&self) -> (r: Vec<TokenId>)
        ensures
            forall|i: int| 0 <= i < r@.len() ==> self@.tokens_by_id.contains_key((#[trigger] r@[i])@),
            forall|id: Seq<char>|
                self@.tokens_by_id.contains_key(id) ==> exists|i: int|
                    0 <= i < r@.len() && (#[trigger] r@[i])@ == id,
            forall|i: int, j: int| 0 <= i < j < r@.len() ==> r@[i]@ != r@[j]@,
    {
        self.tokens_by_id.keys()
    }

    /// The donors that have an index, each once.
    pub fn index_accounts(&self) -> (r: Vec<AccountId>)
        ensures
            forall|i: int|
                0 <= i < r@.len() ==> self@.tokens_per_owner_ordered.contains_key(
                    (#[trigger] r@[i])@,
                ),
            forall|a: Seq<char>|
                self@.tokens_per_owner_ordered.contains_key(a) ==> exists|i: int|
                    0 <= i < r@.len() && (#[trigger] r@[i])@ == a,
            forall|i: int, j: int| 0 <= i < j < r@.len() ==> r@[i]@ != r@[j]@,
    {
        self.tokens_per_owner_ordered.keys()
    }

    /// The certificate `token_id`, if the ledger has it.
    pub fn token(&self, token_id: &TokenId) -> (r: Option<&Token>)
        ensures
            r is Some <==> self@.tokens_by_id.contains_key(token_id@),
            r is Some ==> r->0@ == self@.tokens_by_id[token_id@],
    {
        self.tokens_by_id.get(token_id)
    }

    /// The metadata of the certificate `token_id`, if there is any.
    pub fn token_metadata(&self, token_id: &TokenId) -> (r: Option<&TokenMetadata>)
        ensures
            r is Some <==> self@.token_metadata_by_id.contains_key(token_id@),
            r is Some ==> r->0@ == self@.token_metadata_by_id[token_id@],
    {
        self.token_metadata_by_id.get(token_id)
    }

    /// The prefix of category `id`, if there is such a category.
    pub fn category(&self, id: CategoryId) -> (r: Option<&Category>)
        ensures
            r is Some <==> id < self@.categories.len(),
            r is Some ==> r->0@ == self@.categories[id as int],
    {
        if (id as usize) < self.categories.len() {
            Some(&self.categories[id as usize])
        } else {
            None
        }
    }

    /// The template of category `id`, if it has one.
    pub fn template(&self, id: CategoryId) -> (r: Option<&TokenMetadata>)
        ensures
            r is Some <==> self@.token_metadata_by_cat_id.contains_key(id),
            r is Some ==> r->0@ == self@.token_metadata_by_cat_id[id],
    {
        self.token_metadata_by_cat_id.get(&id)
    }

    /// The number of categories.
    pub fn category_count(&self) -> (r: usize)
        ensures
            r == self@.categories.len(),
    {
        self.categories.len()
    }

    /// The donor index of `account_id`; empty where it has none.
    pub fn owner_index(&self, account_id: &AccountId) -> (r: AssocMap<CategoryId, TokenId>)
        ensures
            r@ == self@.index_of(account_id@),
    {
        match self.tokens_per_owner_ordered.get(account_id) {
            Some(index) => index.dup(),
            None => AssocMap::new(),
        }
    }

    /// The certificates that `account_id` holds.
    pub fn tokens_of(&self, account_id: &AccountId) -> (r: Vec<TokenId>)
        ensures
            r@.len() == self@.held_by(account_id@).len(),
            forall|i: int|
                0 <= i < r@.len() ==> self@.held_by(account_id@).contains((#[trigger] r@[i])@),
            forall|k: Seq<char>|
                self@.held_by(account_id@).contains(k) ==> exists|i: int|
                    0 <= i < r@.len() && (#[trigger] r@[i])@ == k,
    {
        match self.tokens_per_owner.get(account_id) {
            Some(set) => set.to_vec(),
            None => Vec::new(),
        }
    }

    /// The prefixes of the categories, by number.
    pub fn get_categories(&self) -> (r: Vec<Category>)
        ensures
            texts_view(r@) == self@.categories,
    {
        let mut out: Vec<Category> = Vec::new();
        let mut i: usize = 0;
        while i < self.categories.len()
            invariant
                i <= self.categories.len(),
                out@.len() == i,
                forall|j: int| 0 <= j < i ==> #[trigger] out@[j]@ == self.categories@[j]@,
            decreases self.categories.len() - i,
        {
            out.push(self.categories[i].clone());
            i += 1;
        }
        assert(texts_view(out@) =~= self@.categories);
        out
    }

    /// The templates of the categories, by number.
    pub fn view_metadatas(&self) -> (r: Vec<TokenMetadata>)
        requires
            self.wf(),
        ensures
            r@.len() == self@.categories.len(),
            forall|c: int|
                0 <= c < r@.len() ==> (#[trigger] r@[c])@ == self@.token_metadata_by_cat_id[c as CategoryId],
    {
        let mut out: Vec<TokenMetadata> = Vec::new();
        let mut i: usize = 0;
        while i < self.categories.len()
            invariant
                self.wf(),
                i <= self.categories.len(),
                self.categories.len() == self@.categories.len(),
                out@.len() == i,
                forall|c: int|
                    0 <= c < i ==> (#[trigger] out@[c])@ == self@.token_metadata_by_cat_id[c as CategoryId],
            decreases self.categories.len() - i,
        {
            let c: CategoryId = i as CategoryId;
            assert(self@.token_metadata_by_cat_id.contains_key(c));
            match self.token_metadata_by_cat_id.get(&c) {
                Some(template) => {
                    out.push(template.dup());
                },
                None => {},
            }
            i += 1;
        }
        out
    }

    /// The title of each category, under the category's prefix. `NotFound`
    /// where a category has no title.
    pub fn get_list_to_donate(&self) -> (r: Result<AssocMap<Category, String>, Error>)
        requires
            self.wf(),
        ensures
            match r {
                Ok(list) => {
                    &&& forall|c: CategoryId| c < self@.categories.len() ==> self@.titled(c)
                    &&& list@ == self@.titles_by_prefix(self@.categories.len())
                },
                Err(e) => {
                    &&& e == Error::NotFound
                    &&& exists|c: CategoryId| c < self@.categories.len() && !self@.titled(c)
                },
            },
    {
        let mut out: AssocMap<Category, String> = AssocMap::new();
        let mut i: usize = 0;
        while i < self.categories.len()
            invariant
                self.wf(),
                i <= self.categories.len(),
                self.categories.len() == self@.categories.len(),
                forall|c: CategoryId| c < i ==> self@.titled(c),
                out@ == self@.titles_by_prefix(i as nat),
            decreases self.categories.len() - i,
        {
            let c: CategoryId = i as CategoryId;
            assert(self@.token_metadata_by_cat_id.contains_key(c));
            let title: String = match self.token_metadata_by_cat_id.get(&c) {
                Some(template) => match &template.title {
                    Some(title) => title.clone(),
                    None => {
                        assert(c < self@.categories.len() && !self@.titled(c));
                        return Err(Error::NotFound);
                    },
                },
                None => {
                    return Err(Error::NotFound);
                },
            };
            out.insert(self.categories[i].clone(), title);
            i += 1;
        }
        Ok(out)
    }

    /// The number of each category, under the category's prefix.
    pub fn get_id_by_category(&self) -> (r: AssocMap<Category, CategoryId>)
        requires
            self.wf(),
        ensures
            r@ == self@.numbers_by_prefix(self@.categories.len()),
    {
        let mut out: AssocMap<Category, CategoryId> = AssocMap::new();
        let mut i: usize = 0;
        while i < self.categories.len()
            invariant
                self.wf(),
                i <= self.categories.len(),
                self.categories.len() == self@.categories.len(),
                out@ == self@.numbers_by_prefix(i as nat),
            decreases self.categories.len() - i,
        {
            out.insert(self.categories[i].clone(), i as CategoryId);
            i += 1;
        }
        out
    }

    /// What `account_id` has donated in each category that its donor index
    /// knows, under the category's title. `NotFound` where the index names
    /// a certificate that the ledger lacks, or a category without a title.
    /// Of two categories with one title, either one may be shown.
    pub fn get_owner_donation(&self, account_id: AccountId) -> (r: Result<
        AssocMap<String, String>,
        Error,
    >)
        ensures
            match r {
                Ok(shown) => {
                    &&& forall|c: CategoryId| #[trigger]
                        self@.index_of(account_id@).contains_key(c) ==> self@.donation_known(
                            account_id@,
                            c,
                        ) && shown@.contains_key(self@.title(c))
                    &&& forall|t: Seq<char>| #[trigger]
                        shown@.contains_key(t) ==> exists|c: CategoryId|
                            #![trigger self@.index_of(account_id@).contains_key(c)]
                            self@.index_of(account_id@).contains_key(c) && self@.title(c) == t
                                && shown@[t] == self@.donation_in(account_id@, c)
                },
                Err(e) => {
                    &&& e == Error::NotFound
                    &&& exists|c: CategoryId| #[trigger]
                        self@.index_of(account_id@).contains_key(c) && !self@.donation_known(
                            account_id@,
                            c,
                        )
                },
            },
    {
        let index = self.owner_index(&account_id);
        let keys: Vec<CategoryId> = index.keys();
        let ghost s = self@;
        let ghost account = account_id@;
        let mut out: AssocMap<String, String> = AssocMap::new();
        let mut i: usize = 0;
        assert forall|j: int| 0 <= j < keys@.len() implies index@.contains_key(
            #[trigger] keys@[j],
        ) by {
            assert(index@.contains_key(keys@[j]@));
        }
        while i < keys.len()
            invariant
                i <= keys.len(),
                s == self@,
                account == account_id@,
                index@ == s.index_of(account),
                forall|j: int| 0 <= j < keys@.len() ==> index@.contains_key(#[trigger] keys@[j]),
                forall|j: int|
                    0 <= j < i ==> s.donation_known(account, #[trigger] keys@[j])
                        && out@.contains_key(s.title(keys@[j])),
                forall|t: Seq<char>| #[trigger]
                    out@.contains_key(t) ==> exists|c: CategoryId|
                        #![trigger s.index_of(account).contains_key(c)]
                        s.index_of(account).contains_key(c) && s.title(c) == t && out@[t]
                            == s.donation_in(account, c),
            decreases keys.len() - i,
        {
            let c: CategoryId = keys[i];
            assert(index@.contains_key(keys@[i as int]));
            let title: String = match self.token_metadata_by_cat_id.get(&c) {
                Some(template) => match &template.title {
                    Some(title) => title.clone(),
                    None => {
                        return Err(Error::NotFound);
                    },
                },
                None => {
                    return Err(Error::NotFound);
                },
            };
            let amount: String = match index.get(&c) {
                Some(token_id) => match self.tokens_by_id.get(token_id) {
                    Some(token) => token.donate_amount.clone(),
                    None => {
                        return Err(Error::NotFound);
                    },
                },
                None => {
                    return Err(Error::NotFound);
                },
            };
            let ghost before = out@;
            out.insert(title, amount);
            proof {
                assert forall|t: Seq<char>| #[trigger] out@.contains_key(t) implies exists|
                    k: CategoryId,
                |
                    #![trigger s.index_of(account).contains_key(k)]
                    s.index_of(account).contains_key(k) && s.title(k) == t && out@[t]
                        == s.donation_in(account, k) by {
                    if t == s.title(c) {
                        assert(s.index_of(account).contains_key(c));
                    } else {
                        assert(before.contains_key(t));
                    }
                }
            }
            i += 1;
        }
        proof {
            assert forall|c: CategoryId| #[trigger]
                s.index_of(account).contains_key(c) implies s.donation_known(account, c)
                && out@.contains_key(s.title(c)) by {
                let j = choose|j: int| 0 <= j < keys@.len() && (#[trigger] keys@[j])@ == c;
                assert(keys@[j] == c);
            }
        }
        Ok(out)
    }

    pub(crate) fn put_token(&mut self, token_id: TokenId, token: Token)
        ensures
            final(self)@ == old(self)@.with_token(token_id@, token@),
    {
        self.tokens_by_id.insert(token_id, token);
    }

    /// Puts a new certificate into the ledger, with its metadata, and
    /// among what its owner holds.
    pub(crate) fn put_certificate(&mut self, token_id: TokenId, token: Token, metadata: TokenMetadata)
        requires
            old(self).wf(),
            !old(self)@.tokens_by_id.contains_key(token_id@),
            token@.approvals_in_order(),
        ensures
            final(self).wf(),
            final(self)@ == old(self)@.with_certificate(token_id@, token@, metadata@),
    {
        proof {
            lemma_with_certificate_inv(old(self)@, token_id@, token@, metadata@);
        }
        let owner_id = token.owner_id.clone();
        self.tokens_by_id.insert(token_id.clone(), token);
        self.token_metadata_by_id.insert(token_id.clone(), metadata);
        self.internal_add_token_to_owner(&owner_id, &token_id);
    }

    pub(crate) fn put_owner_index(
        &mut self,
        account_id: AccountId,
        index: AssocMap<CategoryId, TokenId>,
    )
        ensures
            final(self)@ == old(self)@.with_index(account_id@, index@),
    {
        self.tokens_per_owner_ordered.insert(account_id, index);
    }

    pub(crate) fn push_category(&mut self, prefix: Category, template: TokenMetadata)
        requires
            old(self)@.categories.len() < MAX_CATEGORIES,
        ensures
            final(self)@ == old(self)@.with_category(prefix@, template@),
    {
        let id: u16 = self.categories.len() as u16;
        self.categories.push(prefix);
        self.token_metadata_by_cat_id.insert(id, template);
        assert(self@.categories =~= old(self)@.categories.push(prefix@));
    }

    /// Adds a certificate to what an account holds.
    pub(crate) fn internal_add_token_to_owner(
        &mut self,
        account_id: &AccountId,
        token_id: &TokenId,
    )
        ensures
            final(self)@ == old(self)@.with_token_added(account_id@, token_id@),
    {
        let mut set = match self.tokens_per_owner.remove(account_id) {
            Some(set) => set,
            None => TokenSet::new(),
        };
        set.insert(token_id.clone());
        self.tokens_per_owner.insert(account_id.clone(), set);
        assert(self.tokens_per_owner@ =~= old(self).tokens_per_owner@.insert(
            account_id@,
            old(self)@.held_by(account_id@).insert(token_id@),
        ));
    }

    /// Takes a certificate out of what an account holds.
    pub(crate) fn internal_remove_token_from_owner(
        &mut self,
        account_id: &AccountId,
        token_id: &TokenId,
    )
        ensures
            final(self)@ == old(self)@.with_token_removed(account_id@, token_id@),
    {
        let mut set = match self.tokens_per_owner.remove(account_id) {
            Some(set) => set,
            None => TokenSet::new(),
        };
        set.remove(token_id);
        if set.is_empty() {
            assert(self.tokens_per_owner@ =~= old(self).tokens_per_owner@.remove(account_id@));
        } else {
            self.tokens_per_owner.insert(account_id.clone(), set);
            assert(self.tokens_per_owner@ =~= old(self).tokens_per_owner@.insert(
                account_id@,
                old(self)@.held_by(account_id@).remove(token_id@),
            ));
        }
    }
}

/// A new certificate keeps the registry in order.
pub proof fn lemma_with_certificate_inv(
    s: ContractView,
    token_id: Seq<char>,
    token: TokenView,
    metadata: TokenMetadataView,
)
    requires
        s.inv(),
        !s.tokens_by_id.contains_key(token_id),
        token.approvals_in_order(),
    ensures
        s.with_certificate(token_id, token, metadata).inv(),
{
    let n = s.with_certificate(token_id, token, metadata);
    let receiver = token.owner_id;
    assert(n.held_by(receiver) == s.held_by(receiver).insert(token_id));
    assert(n.held_by(receiver).contains(token_id));
    assert forall|id: Seq<char>| #[trigger] n.tokens_by_id.contains_key(id) implies n.held_by(
        n.tokens_by_id[id].owner_id,
    ).contains(id) by {
        if id != token_id {
            assert(s.tokens_by_id.contains_key(id));
            let o = s.tokens_by_id[id].owner_id;
            assert(s.held_by(o).contains(id));
        }
    }
    assert forall|a: Seq<char>, id: Seq<char>|
        n.tokens_per_owner.contains_key(a) && #[trigger] n.tokens_per_owner[a].contains(
            id,
        ) implies n.tokens_by_id.contains_key(id) && n.tokens_by_id[id].owner_id == a by {
        if a == receiver && id == token_id {
        } else {
            assert(s.tokens_per_owner.contains_key(a) && s.tokens_per_owner[a].contains(id));
        }
    }
    assert forall|a: Seq<char>| #[trigger] n.tokens_per_owner.contains_key(a) implies n.tokens_per_owner[a]
        != Set::<Seq<char>>::empty() by {
        if a == receiver {
            assert(n.tokens_per_owner[a].contains(token_id));
        } else {
            assert(s.tokens_per_owner.contains_key(a));
        }
    }
}

/// In a registry that is in order, every approval on every certificate has
/// a number below the number that the certificate gives out next.
pub proof fn lemma_approvals_below_next(s: ContractView, token_id: Seq<char>, account: Seq<char>)
    requires
        s.inv(),
        s.tokens_by_id.contains_key(token_id),
        s.tokens_by_id[token_id].approved_account_ids.contains_key(account),
    ensures
        s.tokens_by_id[token_id].approved_account_ids[account]
            < s.tokens_by_id[token_id].next_approval_id,
{
}

/// Who holds which certificate follows from the ledger: two registries
/// in order with the same ledger agree on it.
pub proof fn lemma_holdings_follow_ledger(a: ContractView, b: ContractView)
    requires
        a.inv(),
        b.inv(),
        a.tokens_by_id == b.tokens_by_id,
    ensures
        a.tokens_per_owner == b.tokens_per_owner,
{
    lemma_holdings_within(a, b);
    lemma_holdings_within(b, a);
    assert forall|x: Seq<char>| a.tokens_per_owner.contains_key(x) implies a.tokens_per_owner[x]
        =~= b.tokens_per_owner[x] by {}
    assert(a.tokens_per_owner =~= b.tokens_per_owner);
}

proof fn lemma_holdings_within(a: ContractView, b: ContractView)
    requires
        a.inv(),
        b.inv(),
        a.tokens_by_id == b.tokens_by_id,
    ensures
        forall|x: Seq<char>| #[trigger]
            a.tokens_per_owner.contains_key(x) ==> b.tokens_per_owner.contains_key(x)
                && a.tokens_per_owner[x].subset_of(b.tokens_per_owner[x]),
{
    assert forall|x: Seq<char>| #[trigger]
        a.tokens_per_owner.contains_key(x) implies b.tokens_per_owner.contains_key(x)
        && a.tokens_per_owner[x].subset_of(b.tokens_per_owner[x]) by {
        let held = a.tokens_per_owner[x];
        assert forall|id: Seq<char>| held.contains(id) implies b.held_by(x).contains(id) by {
            assert(a.tokens_per_owner[x].contains(id));
            assert(b.tokens_by_id.contains_key(id));
        }
        if !b.tokens_per_owner.contains_key(x) {
            assert(held =~= Set::<Seq<char>>::empty());
        }
    }
}

/// In a registry that is in order, a certificate is held by its owner and
/// by nobody else, and nothing is held that the ledger lacks.
pub proof fn lemma_one_holder(s: ContractView, token_id: Seq<char>, account: Seq<char>)
    requires
        s.inv(),
    ensures
        s.held_by(account).contains(token_id) <==> s.tokens_by_id.contains_key(token_id)
            && s.tokens_by_id[token_id].owner_id == account,
{
    if s.held_by(account).contains(token_id) {
        assert(s.tokens_per_owner.contains_key(account) && s.tokens_per_owner[account].contains(
            token_id,
        ));
    }
}

} // verus!
