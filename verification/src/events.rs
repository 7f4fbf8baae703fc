//! The records that the registry writes to the event log.

use crate::metadata::{text_of, AccountId, TokenId};
use vstd::prelude::*;
use vstd::string::*;

verus! {

/// The version of the standard that the event records follow.
pub const NFT_METADATA_SPEC: &'static str = "1.0.0";

/// The name of the standard that the event records follow.
pub const NFT_STANDARD_NAME: &'static str = "nep171";

/// One mint: who got which certificates.
pub struct NftMintLog {
    pub owner_id: AccountId,
    pub token_ids: Vec<TokenId>,
    pub memo: Option<String>,
}

/// One transfer: which certificates went from whom to whom, and on whose
/// approval.
pub struct NftTransferLog {
    pub authorized_id: Option<AccountId>,
    pub old_owner_id: AccountId,
    pub new_owner_id: AccountId,
    pub token_ids: Vec<TokenId>,
    pub memo: Option<String>,
}

/// What a record is about.
pub enum EventLogVariant {
    NftMint(Vec<NftMintLog>),
    NftTransfer(Vec<NftTransferLog>),
}

/// A record of the event log.
pub struct EventLog {
    pub standard: String,
    pub version: String,
    pub event: EventLogVariant,
}

/// The standard that the records follow.
pub open spec fn standard_name() -> Seq<char> {
    seq!['n', 'e', 'p', '1', '7', '1']
}

/// The version of that standard.
pub open spec fn standard_version() -> Seq<char> {
    seq!['1', '.', '0', '.', '0']
}

impl EventLog {
    /// The record says that `owner_id` got the new certificate `token_id`.
    pub open spec fn is_mint_of(&self, owner_id: Seq<char>, token_id: Seq<char>) -> bool {
        &&& self.standard@ == standard_name()
        &&& self.version@ == standard_version()
        &&& self.event matches EventLogVariant::NftMint(logs)
        &&& logs@.len() == 1
        &&& logs@[0].owner_id@ == owner_id
        &&& logs@[0].token_ids@.len() == 1
        &&& logs@[0].token_ids@[0]@ == token_id
        &&& logs@[0].memo is None
    }

    /// The record says that `token_id` went from `old_owner_id` to
    /// `new_owner_id`.
    pub open spec fn is_transfer_of(
        &self,
        authorized_id: Option<Seq<char>>,
        old_owner_id: Seq<char>,
        new_owner_id: Seq<char>,
        token_id: Seq<char>,
        memo: Option<Seq<char>>,
    ) -> bool {
        &&& self.standard@ == standard_name()
        &&& self.version@ == standard_version()
        &&& self.event matches EventLogVariant::NftTransfer(logs)
        &&& logs@.len() == 1
        &&& text_of(logs@[0].authorized_id) == authorized_id
        &&& logs@[0].old_owner_id@ == old_owner_id
        &&& logs@[0].new_owner_id@ == new_owner_id
        &&& logs@[0].token_ids@.len() == 1
        &&& logs@[0].token_ids@[0]@ == token_id
        &&& text_of(logs@[0].memo) == memo
    }

    fn header() -> (r: (String, String))
        ensures
            r.0@ == standard_name(),
            r.1@ == standard_version(),
    {
        proof {
            reveal_strlit("nep171");
            reveal_strlit("1.0.0");
        }
        let standard = String::from_str(NFT_STANDARD_NAME);
        let version = String::from_str(NFT_METADATA_SPEC);
        assert(standard@ =~= standard_name());
        assert(version@ =~= standard_version());
        (standard, version)
    }

    /// The record of a mint.
    pub fn mint(owner_id: AccountId, token_id: TokenId) -> (r: EventLog)
        ensures
            r.is_mint_of(owner_id@, token_id@),
    {
        let (standard, version) = EventLog::header();
        let mut token_ids: Vec<TokenId> = Vec::new();
        token_ids.push(token_id);
        let mut logs: Vec<NftMintLog> = Vec::new();
        logs.push(NftMintLog { owner_id, token_ids, memo: None });
        EventLog { standard, version, event: EventLogVariant::NftMint(logs) }
    }

    /// The record of a transfer.
    pub fn transfer(
        authorized_id: Option<AccountId>,
        old_owner_id: AccountId,
        new_owner_id: AccountId,
        token_id: TokenId,
        memo: Option<String>,
    ) -> (r: EventLog)
        ensures
            r.is_transfer_of(
                text_of(authorized_id),
                old_owner_id@,
                new_owner_id@,
                token_id@,
                text_of(memo),
            ),
    {
        let (standard, version) = EventLog::header();
        let mut token_ids: Vec<TokenId> = Vec::new();
        token_ids.push(token_id);
        let mut logs: Vec<NftTransferLog> = Vec::new();
        logs.push(NftTransferLog { authorized_id, old_owner_id, new_owner_id, token_ids, memo });
        EventLog { standard, version, event: EventLogVariant::NftTransfer(logs) }
    }
}

} // verus!
