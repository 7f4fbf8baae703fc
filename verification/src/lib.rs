//! A registry of non-fungible donation certificates.
//!
//! The registry issues one certificate per donor and category, keeps the
//! donated total on it, and moves certificates between accounts. Every step
//! that depends on an answer from another account is split in two: a forward
//! step that changes the ledger and says what to send, and a continuation that
//! takes the answer and either keeps the change or undoes it.

pub mod amount;
pub mod assoc;
pub mod metadata;
pub mod context;
pub mod events;
pub mod contract;
pub mod mint;
pub mod nft_core;

pub use crate::assoc::{AssocMap, Duplicate, Key};
pub use crate::context::{Context, Error, PromiseOutcome};
pub use crate::contract::{Contract, StorageKey};
pub use crate::events::{
    EventLog, EventLogVariant, NftMintLog, NftTransferLog, NFT_METADATA_SPEC, NFT_STANDARD_NAME,
};
pub use crate::metadata::{
    AccountId, Category, CategoryId, JsonToken, NFTContractMetadata, Token, TokenId,
    TokenMetadata, TokenSet,
};
pub use crate::mint::{BatchPlan, MintEscrow, MintReceipt, SubRequest, UpdateEscrow};
pub use crate::nft_core::{
    NonFungibleTokenCore, NonFungibleTokenResolver, Notification, ResolveArgs, Resolved,
    StorageRefund, TransferCall, TransferReceipt,
};
