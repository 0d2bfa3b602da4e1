use vstd::prelude::*;

use crate::{Contract, KeyView, MarketError, MAX_LEN_PAYOUT, sale_key};
use crate::internal::{lemma_sales_update, sale_with_price};
use crate::payout::{Payout, Transfer, internal_payout, is_refund, pays_out, transfers_follow};
use crate::utils::assert_one_yocto;

verus! {

/// The transfer-with-payout request that a purchase sends to the asset custodian.
pub struct PurchaseRequest {
    pub nft_contract_id: String,
    pub receiver_id: String,
    pub token_id: String,
    pub approval_id: u64,
    pub balance: u128,
    pub max_len_payout: u32,
}

impl Contract {
    /// Removes the caller's own sale. Ownership is checked on a read, before anything changes.
    pub fn remove_sale(&mut self, predecessor_id: &String, attached_deposit: u128, nft_contract_id: &String, token_id: &String) -> (r: Result<(), MarketError>)
        requires
            old(self).wf(),
        ensures
            final(self).wf(),
            ({
                let k: KeyView = (nft_contract_id@, token_id@);
                if attached_deposit != 1 {
                    r == Err::<(), MarketError>(MarketError::InsufficientDeposit) && *final(self) == *old(self)
                } else if !old(self).has_sale(k) {
                    r == Err::<(), MarketError>(MarketError::NotFound) && *final(self) == *old(self)
                } else if old(self).sale_of(k).owner_id@ != predecessor_id@ {
                    r == Err::<(), MarketError>(MarketError::Unauthorized) && *final(self) == *old(self)
                } else {
                    &&& r is Ok
                    &&& !final(self).has_sale(k)
                    &&& final(self).sales_agree_except(*old(self), k)
                    &&& final(self).uses == old(self).uses
                    &&& final(self).storage_deposit == old(self).storage_deposit
                }
            }),
    {
        match assert_one_yocto(attached_deposit) {
            Ok(()) => {},
            Err(e) => return Err(e),
        }
        let i = match self.find_sale(nft_contract_id, token_id) {
            Some(i) => i,
            None => return Err(MarketError::NotFound),
        };
        proof {
            self.lemma_sale_at(i as int);
        }
        if self.sales[i].owner_id != *predecessor_id {
            return Err(MarketError::Unauthorized);
        }
        match self.internal_remove_sale(nft_contract_id, token_id) {
            Ok(_) => Ok(()),
            Err(e) => Err(e),
        }
    }

    /// Sets a new price on the caller's own sale; the indexes stay as they are.
    pub fn update_price(&mut self, predecessor_id: &String, attached_deposit: u128, nft_contract_id: &String, token_id: &String, price: u128) -> (r: Result<(), MarketError>)
        requires
            old(self).wf(),
        ensures
            final(self).wf(),
            ({
                let k: KeyView = (nft_contract_id@, token_id@);
                if attached_deposit != 1 {
                    r == Err::<(), MarketError>(MarketError::InsufficientDeposit) && *final(self) == *old(self)
                } else if !old(self).has_sale(k) {
                    r == Err::<(), MarketError>(MarketError::NotFound) && *final(self) == *old(self)
                } else if old(self).sale_of(k).owner_id@ != predecessor_id@ {
                    r == Err::<(), MarketError>(MarketError::Unauthorized) && *final(self) == *old(self)
                } else {
                    &&& r is Ok
                    &&& final(self).has_sale(k)
                    &&& final(self).sale_of(k) == sale_with_price(old(self).sale_of(k), price)
                    &&& final(self).sales_agree_except(*old(self), k)
                    &&& final(self).uses == old(self).uses
                    &&& final(self).by_owner_id == old(self).by_owner_id
                    &&& final(self).by_contract_id == old(self).by_contract_id
                    &&& final(self).storage_deposit == old(self).storage_deposit
                }
            }),
    {
        match assert_one_yocto(attached_deposit) {
            Ok(()) => {},
            Err(e) => return Err(e),
        }
        let i = match self.find_sale(nft_contract_id, token_id) {
            Some(i) => i,
            None => return Err(MarketError::NotFound),
        };
        proof {
            self.lemma_sale_at(i as int);
        }
        if self.sales[i].owner_id != *predecessor_id {
            return Err(MarketError::Unauthorized);
        }
        let ghost old_c = *self;
        self.internal_set_sale_price(i, price);
        proof {
            lemma_sales_update(old_c, *self, i as int, sale_with_price(old_c.sales@[i as int], price));
        }
        Ok(())
    }

    /// First phase of a purchase: the buyer attaches at least the price. The sale and the
    /// use offer of the key are removed before the custodian is asked for the transfer.
    pub fn offer(&mut self, predecessor_id: &String, attached_deposit: u128, nft_contract_id: &String, token_id: &String) -> (r: Result<PurchaseRequest, MarketError>)
        requires
            old(self).wf(),
        ensures
            final(self).wf(),
            offer_result(*old(self), *final(self), r, (nft_contract_id@, token_id@), predecessor_id@, attached_deposit),
    {
        if attached_deposit == 0 {
            return Err(MarketError::InsufficientDeposit);
        }
        let i = match self.find_sale(nft_contract_id, token_id) {
            Some(i) => i,
            None => return Err(MarketError::NotFound),
        };
        proof {
            self.lemma_sale_at(i as int);
        }
        if self.sales[i].owner_id == *predecessor_id {
            return Err(MarketError::Unauthorized);
        }
        if attached_deposit < self.sales[i].sale_conditions {
            return Err(MarketError::InsufficientDeposit);
        }
        self.process_purchase(nft_contract_id, token_id, attached_deposit, predecessor_id)
    }

    /// Removes the sale of a key, and its use offer when there is one, and builds the
    /// custodian request for `buyer_id`, carrying `price`. Nothing changes when the sale is
    /// missing.
    pub fn process_purchase(&mut self, nft_contract_id: &String, token_id: &String, price: u128, buyer_id: &String) -> (r: Result<PurchaseRequest, MarketError>)
        requires
            old(self).wf(),
        ensures
            final(self).wf(),
            ({
                let k: KeyView = (nft_contract_id@, token_id@);
                if !old(self).has_sale(k) {
                    r == Err::<PurchaseRequest, MarketError>(MarketError::NotFound) && *final(self) == *old(self)
                } else {
                    purchase_outcome(*old(self), *final(self), r, k, buyer_id@, price)
                }
            }),
    {
        let sale = match self.internal_remove_sale(nft_contract_id, token_id) {
            Ok(s) => s,
            Err(e) => return Err(e),
        };
        let ghost mid = *self;
        proof {
            assert(mid.uses@ == old(self).uses@);
            assert forall|k2: KeyView| #[trigger] mid.has_use(k2) == old(self).has_use(k2) by {}
            assert forall|k2: KeyView| #[trigger] mid.use_of(k2) == old(self).use_of(k2) by {}
        }
        match self.find_uses(nft_contract_id, token_id) {
            Some(_) => {
                let _ = self.internal_remove_uses(nft_contract_id, token_id);
                proof {
                    assert(self.sales@ == mid.sales@);
                    assert forall|k2: KeyView| #[trigger] self.has_sale(k2) == mid.has_sale(k2) by {}
                    assert forall|k2: KeyView| #[trigger] self.sale_of(k2) == mid.sale_of(k2) by {}
                }
            },
            None => {},
        }
        proof {
            assert(self.storage_deposit@ == old(self).storage_deposit@);
        }
        Ok(PurchaseRequest {
            nft_contract_id: nft_contract_id.clone(),
            receiver_id: buyer_id.clone(),
            token_id: token_id.clone(),
            approval_id: sale.approval_id,
            balance: price,
            max_len_payout: MAX_LEN_PAYOUT,
        })
    }

    pub(crate) proof fn lemma_sale_at(self, i: int)
        requires
            self.sales_unique(),
            0 <= i < self.sales@.len(),
        ensures
            self.has_sale(sale_key(self.sales@[i])),
            self.sale_of(sale_key(self.sales@[i])) == self.sales@[i],
    {
        let k = sale_key(self.sales@[i]);
        assert(self.has_sale(k));
        let w = choose|w: int| 0 <= w < self.sales@.len() && #[trigger] sale_key(self.sales@[w]) == k;
        assert(w == i);
    }
}

/// The outcome of an offer of `deposit` by `buyer` on key `k`: the checks in their order,
/// each failure leaving the state as it was, and a purchase when all pass.
pub open spec fn offer_result(
    before: Contract,
    after: Contract,
    r: Result<PurchaseRequest, MarketError>,
    k: KeyView,
    buyer: Seq<char>,
    deposit: u128,
) -> bool {
    if deposit == 0 {
        r == Err::<PurchaseRequest, MarketError>(MarketError::InsufficientDeposit) && after == before
    } else if !before.has_sale(k) {
        r == Err::<PurchaseRequest, MarketError>(MarketError::NotFound) && after == before
    } else if before.sale_of(k).owner_id@ == buyer {
        r == Err::<PurchaseRequest, MarketError>(MarketError::Unauthorized) && after == before
    } else if deposit < before.sale_of(k).sale_conditions {
        r == Err::<PurchaseRequest, MarketError>(MarketError::InsufficientDeposit) && after == before
    } else {
        purchase_outcome(before, after, r, k, buyer, deposit)
    }
}

/// What a purchase that passed its checks leaves behind: the sale of `k` is gone, and so is
/// its use offer if it had one; every other listing and every balance is as it was; and the
/// custodian is asked to hand the asset to the buyer for `price`, under the sale's approval.
pub open spec fn purchase_outcome(
    before: Contract,
    after: Contract,
    r: Result<PurchaseRequest, MarketError>,
    k: KeyView,
    buyer: Seq<char>,
    price: u128,
) -> bool {
    &&& r is Ok
    &&& !after.has_sale(k)
    &&& !after.has_use(k)
    &&& after.sales_agree_except(before, k)
    &&& after.uses_agree_except(before, k)
    &&& after.storage_deposit == before.storage_deposit
    &&& after.owner_supply(before.sale_of(k).owner_id@) + 1 == before.owner_supply(before.sale_of(k).owner_id@)
    &&& r->Ok_0.nft_contract_id@ == k.0
    &&& r->Ok_0.token_id@ == k.1
    &&& r->Ok_0.receiver_id@ == buyer
    &&& r->Ok_0.approval_id == before.sale_of(k).approval_id
    &&& r->Ok_0.balance == price
    &&& r->Ok_0.max_len_payout == MAX_LEN_PAYOUT
}

/// The callback through which the host delivers the custodian's answer to a purchase.
pub trait MarketContract: Sized {
    /// Second phase of a purchase: settles with the custodian's outcome (`None` when its call
    /// failed or its answer could not be read). The state is left as it is.
    fn resolve_purchase(&mut self, buyer_id: &String, price: u128, outcome: Option<Payout>) -> (r: Vec<Transfer>)
        ensures
            *final(self) == *old(self),
            pays_out(outcome, price) ==> transfers_follow(r@, outcome->0.payout@),
            !pays_out(outcome, price) ==> is_refund(r@, buyer_id@, price),
    ;
}

impl MarketContract for Contract {
    fn resolve_purchase(&mut self, buyer_id: &String, price: u128, outcome: Option<Payout>) -> (r: Vec<Transfer>) {
        internal_payout(buyer_id, price, outcome)
    }
}

} // verus!
