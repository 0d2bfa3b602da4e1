// A listing-and-escrow market for tokenized assets: owners list an asset for sale and for
// pay-per-use against a prepaid storage quota; buyers and users pay through a two-phase
// exchange with the asset's custodian, settled by a payout split or a full refund.
//
// The state (`Contract`) keeps three tables (sales, use offers, storage balances) and two
// indexes over the sales (by owner, by asset contract); `Contract::wf` states how they agree.

use vstd::prelude::*;

mod deploy;
mod internal;
mod laws;
mod nft_callback;
mod payout;
pub mod sale;
mod sale_view;
mod storage;
pub mod uses;
mod uses_view;
mod utils;

pub use deploy::{CreatorContracts, DeployedSmartContract, deployed_key};
pub use internal::{ContractTokens, OwnerSales};
pub use laws::{lemma_emptied_sets_deleted, lemma_index_consistency, lemma_sale_used_once};
pub use nft_callback::{
    ListingArgs, NonFungibleTokenApprovalReceiver, approval_result, decimal_value, is_decimal, listed, parse_u128,
};
pub use payout::{Payout, Transfer, check_payout, internal_payout, lemma_resolution_total};
pub use sale::{PurchaseRequest, offer_result, purchase_outcome};
pub use uses::UseRequest;
pub use storage::deposit_target;
pub use utils::assert_one_yocto;
pub use sale_view::page_of;

verus! {

/// Price of one byte of storage, in the smallest currency unit.
pub const STORAGE_PRICE_PER_BYTE: u128 = 10_000_000_000_000_000_000;

/// Prepaid storage that each active sale consumes.
pub const STORAGE_PER_SALE: u128 = 1000 * STORAGE_PRICE_PER_BYTE;

/// Largest number of payout recipients requested from the custodian.
pub const MAX_LEN_PAYOUT: u32 = 10;

/// Abstract identity of a listing: (asset-contract id, asset id).
pub type KeyView = (Seq<char>, Seq<char>);

/// An active outright-sale offer.
pub struct Sale {
    pub owner_id: String,
    pub approval_id: u64,
    pub nft_contract_id: String,
    pub token_id: String,
    pub sale_conditions: u128,
}

/// An active pay-per-use offer.
pub struct Uses {
    pub owner_id: String,
    pub nft_contract_id: String,
    pub token_id: String,
    pub use_conditions: u128,
}

/// The identity of a listable position.
pub struct ListingKey {
    pub nft_contract_id: String,
    pub token_id: String,
}

/// Prepaid storage balance of one account.
pub struct StorageBalance {
    pub account_id: String,
    pub balance: u128,
}

pub open spec fn sale_key(s: Sale) -> KeyView {
    (s.nft_contract_id@, s.token_id@)
}

pub open spec fn uses_key(u: Uses) -> KeyView {
    (u.nft_contract_id@, u.token_id@)
}

pub open spec fn listing_key(k: ListingKey) -> KeyView {
    (k.nft_contract_id@, k.token_id@)
}

impl Sale {
    /// A copy of this sale.
    pub fn duplicate(&self) -> (r: Sale)
        ensures
            r == *self,
    {
        Sale {
            owner_id: self.owner_id.clone(),
            approval_id: self.approval_id,
            nft_contract_id: self.nft_contract_id.clone(),
            token_id: self.token_id.clone(),
            sale_conditions: self.sale_conditions,
        }
    }
}

impl Uses {
    /// A copy of this use offer.
    pub fn duplicate(&self) -> (r: Uses)
        ensures
            r == *self,
    {
        Uses {
            owner_id: self.owner_id.clone(),
            nft_contract_id: self.nft_contract_id.clone(),
            token_id: self.token_id.clone(),
            use_conditions: self.use_conditions,
        }
    }
}

/// First position of a page starting at `from_index` (zero when absent).
pub open spec fn page_start(from_index: Option<u128>) -> int {
    match from_index {
        Some(f) => f as int,
        None => 0,
    }
}

/// Length of a page of at most `limit` items (zero when absent) from position `start` of
/// `len` items.
pub open spec fn page_len(len: int, start: int, limit: Option<u64>) -> int {
    let l: int = match limit {
        Some(l) => l as int,
        None => 0,
    };
    if start >= len {
        0
    } else if len - start < l {
        len - start
    } else {
        l
    }
}

/// Bounds of the page starting at `from_index` with at most `limit` items, over `len` items.
pub fn page_bounds(len: usize, from_index: Option<u128>, limit: Option<u64>) -> (r: (usize, usize))
    ensures
        page_len(len as int, page_start(from_index), limit) == 0 ==> r.0 == r.1,
        page_len(len as int, page_start(from_index), limit) > 0 ==> r.0 == page_start(from_index),
        r.0 <= r.1 <= len,
        r.1 - r.0 == page_len(len as int, page_start(from_index), limit),
{
    let start: u128 = match from_index {
        Some(f) => f,
        None => 0,
    };
    let limit: u128 = match limit {
        Some(l) => l as u128,
        None => 0,
    };
    if start >= len as u128 {
        return (len, len);
    }
    let start = start as usize;
    if ((len - start) as u128) < limit {
        (start, len)
    } else {
        (start, start + limit as usize)
    }
}

/// Failures of the market's operations.
#[derive(Debug, PartialEq, Eq, Structural, Clone, Copy)]
pub enum MarketError {
    NotFound,
    Unauthorized,
    InvalidInput,
    InsufficientDeposit,
    InsufficientStorageQuota,
    AccountingInconsistency,
}

/// The market's state: the listing tables, their two indexes and the storage ledger.
pub struct Contract {
    pub owner_id: String,
    pub sales: Vec<Sale>,
    pub uses: Vec<Uses>,
    pub by_owner_id: Vec<OwnerSales>,
    pub by_contract_id: Vec<ContractTokens>,
    pub storage_deposit: Vec<StorageBalance>,
    pub creates: Vec<CreatorContracts>,
}

} // verus!
