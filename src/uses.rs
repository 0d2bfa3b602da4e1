use vstd::prelude::*;

use crate::{Contract, KeyView, MarketError, MAX_LEN_PAYOUT, uses_key};
use crate::internal::{lemma_uses_update, uses_with_price};
use crate::payout::{Payout, Transfer, internal_payout, is_refund, pays_out, transfers_follow};
use crate::utils::assert_one_yocto;

verus! {

/// The use-with-payout request that a use application sends to the asset custodian.
pub struct UseRequest {
    pub nft_contract_id: String,
    pub user_id: String,
    pub token_id: String,
    pub balance: u128,
    pub max_len_payout: u32,
}

impl Contract {
    /// First phase of a use: the user attaches at least the price per use. The use offer
    /// stays listed, so it can be used again.
    pub fn apply_use(&self, predecessor_id: &String, attached_deposit: u128, nft_contract_id: &String, token_id: &String) -> (r: Result<UseRequest, MarketError>)
        requires
            self.wf(),
        ensures
            ({
                let k: KeyView = (nft_contract_id@, token_id@);
                if attached_deposit == 0 {
                    r == Err::<UseRequest, MarketError>(MarketError::InsufficientDeposit)
                } else if !self.has_use(k) {
                    r == Err::<UseRequest, MarketError>(MarketError::NotFound)
                } else if self.use_of(k).owner_id@ == predecessor_id@ {
                    r == Err::<UseRequest, MarketError>(MarketError::Unauthorized)
                } else if attached_deposit < self.use_of(k).use_conditions {
                    r == Err::<UseRequest, MarketError>(MarketError::InsufficientDeposit)
                } else {
                    &&& r is Ok
                    &&& r->Ok_0.nft_contract_id@ == k.0
                    &&& r->Ok_0.token_id@ == k.1
                    &&& r->Ok_0.user_id@ == predecessor_id@
                    &&& r->Ok_0.balance == attached_deposit
                    &&& r->Ok_0.max_len_payout == MAX_LEN_PAYOUT
                }
            }),
    {
        if attached_deposit == 0 {
            return Err(MarketError::InsufficientDeposit);
        }
        let i = match self.find_uses(nft_contract_id, token_id) {
            Some(i) => i,
            None => return Err(MarketError::NotFound),
        };
        proof {
            self.lemma_use_at(i as int);
        }
        if self.uses[i].owner_id == *predecessor_id {
            return Err(MarketError::Unauthorized);
        }
        if attached_deposit < self.uses[i].use_conditions {
            return Err(MarketError::InsufficientDeposit);
        }
        Ok(self.process_uses(nft_contract_id, token_id, attached_deposit, predecessor_id))
    }

    /// Builds the custodian request for a use by `user_id`, carrying `price`.
    pub fn process_uses(&self, nft_contract_id: &String, token_id: &String, price: u128, user_id: &String) -> (r: UseRequest)
        ensures
            r.nft_contract_id@ == nft_contract_id@,
            r.token_id@ == token_id@,
            r.user_id@ == user_id@,
            r.balance == price,
            r.max_len_payout == MAX_LEN_PAYOUT,
    {
        UseRequest {
            nft_contract_id: nft_contract_id.clone(),
            user_id: user_id.clone(),
            token_id: token_id.clone(),
            balance: price,
            max_len_payout: MAX_LEN_PAYOUT,
        }
    }

    /// Sets a new price per use on the caller's own use offer.
    pub fn update_use_price(&mut self, predecessor_id: &String, attached_deposit: u128, nft_contract_id: &String, token_id: &String, price: u128) -> (r: Result<(), MarketError>)
        requires
            old(self).wf(),
        ensures
            final(self).wf(),
            ({
                let k: KeyView = (nft_contract_id@, token_id@);
                if attached_deposit != 1 {
                    r == Err::<(), MarketError>(MarketError::InsufficientDeposit) && *final(self) == *old(self)
                } else if !old(self).has_use(k) {
                    r == Err::<(), MarketError>(MarketError::NotFound) && *final(self) == *old(self)
                } else if old(self).use_of(k).owner_id@ != predecessor_id@ {
                    r == Err::<(), MarketError>(MarketError::Unauthorized) && *final(self) == *old(self)
                } else {
                    &&& r is Ok
                    &&& final(self).has_use(k)
                    &&& final(self).use_of(k) == uses_with_price(old(self).use_of(k), price)
                    &&& final(self).uses_agree_except(*old(self), k)
                    &&& final(self).sales == old(self).sales
                    &&& final(self).by_owner_id == old(self).by_owner_id
                    &&& final(self).by_contract_id == old(self).by_contract_id
                    &&& final(self).storage_deposit == old(self).storage_deposit
                }
            }),
    {
        match assert_one_yocto(attached_deposit) {
            Ok(()) => {},
            Err(e) => return Err(e),
        }
        let i = match self.find_uses(nft_contract_id, token_id) {
            Some(i) => i,
            None => return Err(MarketError::NotFound),
        };
        proof {
            self.lemma_use_at(i as int);
        }
        if self.uses[i].owner_id != *predecessor_id {
            return Err(MarketError::Unauthorized);
        }
        let ghost old_c = *self;
        self.internal_set_use_price(i, price);
        proof {
            lemma_uses_update(old_c, *self, i as int, uses_with_price(old_c.uses@[i as int], price));
        }
        Ok(())
    }

    /// Removes the caller's own use offer. Ownership is checked on a read, before anything changes.
    pub fn remove_uses(&mut self, predecessor_id: &String, attached_deposit: u128, nft_contract_id: &String, token_id: &String) -> (r: Result<(), MarketError>)
        requires
            old(self).wf(),
        ensures
            final(self).wf(),
            ({
                let k: KeyView = (nft_contract_id@, token_id@);
                if attached_deposit != 1 {
                    r == Err::<(), MarketError>(MarketError::InsufficientDeposit) && *final(self) == *old(self)
                } else if !old(self).has_use(k) {
                    r == Err::<(), MarketError>(MarketError::NotFound) && *final(self) == *old(self)
                } else if old(self).use_of(k).owner_id@ != predecessor_id@ {
                    r == Err::<(), MarketError>(MarketError::Unauthorized) && *final(self) == *old(self)
                } else {
                    &&& r is Ok
                    &&& !final(self).has_use(k)
                    &&& final(self).uses_agree_except(*old(self), k)
                    &&& final(self).sales == old(self).sales
                    &&& final(self).storage_deposit == old(self).storage_deposit
                }
            }),
    {
        match assert_one_yocto(attached_deposit) {
            Ok(()) => {},
            Err(e) => return Err(e),
        }
        let i = match self.find_uses(nft_contract_id, token_id) {
            Some(i) => i,
            None => return Err(MarketError::NotFound),
        };
        proof {
            self.lemma_use_at(i as int);
        }
        if self.uses[i].owner_id != *predecessor_id {
            return Err(MarketError::Unauthorized);
        }
        match self.internal_remove_uses(nft_contract_id, token_id) {
            Ok(_) => Ok(()),
            Err(e) => Err(e),
        }
    }

    pub(crate) proof fn lemma_use_at(self, i: int)
        requires
            self.uses_unique(),
            0 <= i < self.uses@.len(),
        ensures
            self.has_use(uses_key(self.uses@[i])),
            self.use_of(uses_key(self.uses@[i])) == self.uses@[i],
    {
        let k = uses_key(self.uses@[i]);
        assert(self.has_use(k));
        let w = choose|w: int| 0 <= w < self.uses@.len() && #[trigger] uses_key(self.uses@[w]) == k;
        assert(w == i);
    }
}

/// The callback through which the host delivers the custodian's answer to a use.
pub trait MarketContract: Sized {
    /// Second phase of a use: settles with the custodian's outcome (`None` when its call
    /// failed or its answer could not be read). The state is left as it is.
    fn resolve_use(&mut self, user_id: &String, price: u128, outcome: Option<Payout>) -> (r: Vec<Transfer>)
        ensures
            *final(self) == *old(self),
            pays_out(outcome, price) ==> transfers_follow(r@, outcome->0.payout@),
            !pays_out(outcome, price) ==> is_refund(r@, user_id@, price),
    ;
}

impl MarketContract for Contract {
    fn resolve_use(&mut self, user_id: &String, price: u128, outcome: Option<Payout>) -> (r: Vec<Transfer>) {
        internal_payout(user_id, price, outcome)
    }
}

} // verus!
