use vstd::prelude::*;

use crate::{Contract, KeyView, MarketError, StorageBalance, STORAGE_PER_SALE};
use crate::utils::assert_one_yocto;

verus! {

impl Contract {
    /// Account `a` has a balance record.
    pub open spec fn has_balance(self, a: Seq<char>) -> bool {
        exists|i: int|
            0 <= i < self.storage_deposit@.len() && #[trigger] self.storage_deposit@[i].account_id@ == a
    }

    /// Prepaid storage balance of account `a` (zero without a record).
    pub open spec fn balance_of(self, a: Seq<char>) -> u128 {
        if self.has_balance(a) {
            let i = choose|i: int|
                0 <= i < self.storage_deposit@.len() && #[trigger] self.storage_deposit@[i].account_id@ == a;
            self.storage_deposit@[i].balance
        } else {
            0
        }
    }

    /// Storage that the active sales of `o` require.
    pub open spec fn required_for(self, o: Seq<char>) -> int {
        self.owner_supply(o) * STORAGE_PER_SALE
    }

    /// `self` and `other` hold the same balances for every account but `a`.
    pub open spec fn balances_agree_except(self, other: Contract, a: Seq<char>) -> bool {
        forall|a2: Seq<char>| a2 != a ==> #[trigger] self.balance_of(a2) == other.balance_of(a2)
    }

    /// The listing tables and indexes of `self` and `other` are the same.
    pub open spec fn same_listings(self, other: Contract) -> bool {
        &&& self.owner_id == other.owner_id
        &&& self.sales == other.sales
        &&& self.uses == other.uses
        &&& self.by_owner_id == other.by_owner_id
        &&& self.by_contract_id == other.by_contract_id
    }

    /// Position of the balance record of `a`.
    fn find_balance(&self, a: &String) -> (r: Option<usize>)
        ensures
            match r {
                Some(i) => i < self.storage_deposit@.len() && self.storage_deposit@[i as int].account_id@ == a@,
                None => !self.has_balance(a@),
            },
    {
        let mut i: usize = 0;
        while i < self.storage_deposit.len()
            invariant
                i <= self.storage_deposit@.len(),
                forall|k: int| 0 <= k < i ==> (#[trigger] self.storage_deposit@[k]).account_id@ != a@,
            decreases self.storage_deposit@.len() - i,
        {
            if self.storage_deposit[i].account_id == *a {
                return Some(i);
            }
            i = i + 1;
        }
        None
    }

    /// The balance that `a` has prepaid.
    pub fn get_balance(&self, a: &String) -> (r: u128)
        requires
            self.wf(),
        ensures
            r == self.balance_of(a@),
    {
        match self.find_balance(a) {
            Some(i) => {
                proof {
                    let w = choose|w: int|
                        0 <= w < self.storage_deposit@.len() && #[trigger] self.storage_deposit@[w].account_id@ == a@;
                    assert(w == i);
                }
                self.storage_deposit[i].balance
            },
            None => 0,
        }
    }

    /// Sets the balance of `a` to `v`, or clears its record when `v` is zero.
    fn set_balance(&mut self, a: &String, v: u128)
        requires
            old(self).wf(),
        ensures
            final(self).wf(),
            final(self).same_listings(*old(self)),
            final(self).balance_of(a@) == v,
            v == 0 ==> !final(self).has_balance(a@),
            final(self).balances_agree_except(*old(self), a@),
    {
        let ghost old_c = *self;
        let ghost olds = self.storage_deposit@;
        match self.find_balance(a) {
            Some(i) => {
                self.storage_deposit.remove(i);
                if v > 0 {
                    self.storage_deposit.insert(i, StorageBalance { account_id: a.clone(), balance: v });
                    proof {
                        let news = self.storage_deposit@;
                        assert(news == olds.update(i as int, news[i as int]));
                        assert forall|w: int| 0 <= w < news.len() && w != i implies #[trigger] news[w] == olds[w] by {}
                        assert(self.ledger_unique());
                        assert forall|ow: int| 0 <= ow < olds.len() && olds[ow].account_id@ != a@
                            implies news[ow] == #[trigger] olds[ow] by {}
                        Self::lemma_ledger_frame(old_c, *self, a@);
                        self.lemma_balance_at(i as int);
                    }
                } else {
                    proof {
                        let news = self.storage_deposit@;
                        assert forall|w: int| 0 <= w < news.len()
                            implies #[trigger] news[w] == olds[if w < i { w } else { w + 1 }] by {}
                        assert forall|x: int, y: int|
                            0 <= x < news.len() && 0 <= y < news.len() && x != y
                            implies (#[trigger] news[x]).account_id@ != (#[trigger] news[y]).account_id@ by {
                            assert(news[x] == olds[if x < i { x } else { x + 1 }]);
                            assert(news[y] == olds[if y < i { y } else { y + 1 }]);
                        }
                        assert forall|ow: int| 0 <= ow < olds.len() && ow != i
                            implies news[if ow < i { ow } else { ow - 1 }] == #[trigger] olds[ow] by {}
                        Self::lemma_ledger_frame(old_c, *self, a@);
                        if self.has_balance(a@) {
                            let w = choose|w: int| 0 <= w < news.len() && #[trigger] news[w].account_id@ == a@;
                            assert(news[w] == olds[if w < i { w } else { w + 1 }]);
                        }
                    }
                }
            },
            None => {
                if v > 0 {
                    self.storage_deposit.push(StorageBalance { account_id: a.clone(), balance: v });
                    proof {
                        let news = self.storage_deposit@;
                        let n = olds.len() as int;
                        assert forall|w: int| 0 <= w < n implies #[trigger] news[w] == olds[w] by {}
                        assert forall|x: int, y: int|
                            0 <= x < news.len() && 0 <= y < news.len() && x != y
                            implies (#[trigger] news[x]).account_id@ != (#[trigger] news[y]).account_id@ by {
                            if x == n {
                                assert(olds[y].account_id@ == news[y].account_id@);
                            }
                            if y == n {
                                assert(olds[x].account_id@ == news[x].account_id@);
                            }
                        }
                        assert forall|ow: int| 0 <= ow < olds.len() implies news[ow] == #[trigger] olds[ow] by {}
                        Self::lemma_ledger_frame(old_c, *self, a@);
                        self.lemma_balance_at(n);
                    }
                } else {
                    proof {
                        assert(self.storage_deposit@ == olds);
                        Self::lemma_ledger_frame(old_c, *self, a@);
                    }
                }
            },
        }
        proof {
            assert(self.sales@ == old_c.sales@);
            assert(self.uses@ == old_c.uses@);
            assert(self.by_owner_id@ == old_c.by_owner_id@);
            assert(self.by_contract_id@ == old_c.by_contract_id@);
            assert forall|o: Seq<char>, k: KeyView| #[trigger] self.has_sale_of(o, k) == old_c.has_sale_of(o, k) by {}
            assert forall|k: KeyView| #[trigger] self.has_sale(k) == old_c.has_sale(k) by {}
            assert forall|o: Seq<char>, k: KeyView| #[trigger] self.owner_indexed(o, k) == old_c.owner_indexed(o, k) by {}
            assert forall|c: Seq<char>, t: Seq<char>|
                #[trigger] self.contract_indexed(c, t) == old_c.contract_indexed(c, t) by {}
        }
    }

    /// Two ledgers whose records for accounts other than `a` are the same hold the same
    /// balances for those accounts.
    proof fn lemma_ledger_frame(old_c: Contract, new_c: Contract, a: Seq<char>)
        requires
            old_c.ledger_unique(),
            new_c.ledger_unique(),
            forall|w: int| 0 <= w < new_c.storage_deposit@.len() && new_c.storage_deposit@[w].account_id@ != a
                ==> exists|ow: int| 0 <= ow < old_c.storage_deposit@.len()
                    && #[trigger] old_c.storage_deposit@[ow] == new_c.storage_deposit@[w],
            forall|ow: int| 0 <= ow < old_c.storage_deposit@.len() && old_c.storage_deposit@[ow].account_id@ != a
                ==> exists|w: int| 0 <= w < new_c.storage_deposit@.len()
                    && new_c.storage_deposit@[w] == #[trigger] old_c.storage_deposit@[ow],
        ensures
            new_c.balances_agree_except(old_c, a),
    {
        assert forall|a2: Seq<char>| a2 != a implies #[trigger] new_c.balance_of(a2) == old_c.balance_of(a2) by {
            if old_c.has_balance(a2) {
                let ow = choose|ow: int|
                    0 <= ow < old_c.storage_deposit@.len() && #[trigger] old_c.storage_deposit@[ow].account_id@ == a2;
                old_c.lemma_balance_at(ow);
                let w = choose|w: int| 0 <= w < new_c.storage_deposit@.len()
                    && new_c.storage_deposit@[w] == #[trigger] old_c.storage_deposit@[ow];
                new_c.lemma_balance_at(w);
            } else if new_c.has_balance(a2) {
                let w = choose|w: int|
                    0 <= w < new_c.storage_deposit@.len() && #[trigger] new_c.storage_deposit@[w].account_id@ == a2;
                let ow = choose|ow: int| 0 <= ow < old_c.storage_deposit@.len()
                    && #[trigger] old_c.storage_deposit@[ow] == new_c.storage_deposit@[w];
                assert(old_c.storage_deposit@[ow].account_id@ == a2);
            }
        }
    }

    proof fn lemma_balance_at(self, w: int)
        requires
            self.ledger_unique(),
            0 <= w < self.storage_deposit@.len(),
        ensures
            self.has_balance(self.storage_deposit@[w].account_id@),
            self.balance_of(self.storage_deposit@[w].account_id@) == self.storage_deposit@[w].balance,
    {
        let a = self.storage_deposit@[w].account_id@;
        assert(self.has_balance(a));
        let c = choose|i: int| 0 <= i < self.storage_deposit@.len() && #[trigger] self.storage_deposit@[i].account_id@ == a;
        assert(c == w);
    }
}

} // verus!

verus! {

/// The account that a deposit is for: the one named, else the caller.
pub open spec fn deposit_target(account_id: Option<String>, predecessor_id: String) -> Seq<char> {
    match account_id {
        Some(a) => a@,
        None => predecessor_id@,
    }
}

impl Contract {
    /// A market owned by `owner_id`, with no listing and no balance.
    pub fn new(owner_id: String) -> (r: Contract)
        ensures
            r.wf(),
            r.owner_id == owner_id,
            r.sales@.len() == 0,
            r.uses@.len() == 0,
            r.by_owner_id@.len() == 0,
            r.by_contract_id@.len() == 0,
            r.storage_deposit@.len() == 0,
            r.creates@.len() == 0,
    {
        Contract {
            owner_id,
            sales: Vec::new(),
            uses: Vec::new(),
            by_owner_id: Vec::new(),
            by_contract_id: Vec::new(),
            storage_deposit: Vec::new(),
            creates: Vec::new(),
        }
    }

    /// Prepaid storage that one sale needs.
    pub fn storage_minimum_balance(&self) -> (r: u128)
        ensures
            r == STORAGE_PER_SALE,
    {
        STORAGE_PER_SALE
    }

    /// The prepaid storage balance of `account_id`.
    pub fn storage_balance_of(&self, account_id: &String) -> (r: u128)
        requires
            self.wf(),
        ensures
            r == self.balance_of(account_id@),
    {
        self.get_balance(account_id)
    }

    /// Adds `deposit` to the balance of `account_id`, or of the caller when none is named.
    /// A deposit below the cost of one sale is refused.
    pub fn storage_deposit(&mut self, account_id: Option<String>, predecessor_id: String, deposit: u128) -> (r: Result<(), MarketError>)
        requires
            old(self).wf(),
            old(self).balance_of(deposit_target(account_id, predecessor_id)) + deposit <= u128::MAX,
        ensures
            final(self).wf(),
            final(self).same_listings(*old(self)),
            deposit < STORAGE_PER_SALE ==> r == Err::<(), MarketError>(MarketError::InsufficientDeposit)
                && *final(self) == *old(self),
            deposit >= STORAGE_PER_SALE ==> {
                &&& r is Ok
                &&& final(self).balance_of(deposit_target(account_id, predecessor_id))
                    == old(self).balance_of(deposit_target(account_id, predecessor_id)) + deposit
                &&& final(self).balances_agree_except(*old(self), deposit_target(account_id, predecessor_id))
            },
    {
        if deposit < STORAGE_PER_SALE {
            return Err(MarketError::InsufficientDeposit);
        }
        let target = match account_id {
            Some(a) => a,
            None => predecessor_id,
        };
        let balance = self.get_balance(&target);
        self.set_balance(&target, balance + deposit);
        Ok(())
    }

    /// Withdraws the caller's surplus: keeps exactly what the caller's active sales require
    /// (clearing the record when that is nothing) and returns the rest, to be sent back.
    pub fn storage_withdraw(&mut self, predecessor_id: &String, attached_deposit: u128) -> (r: Result<u128, MarketError>)
        requires
            old(self).wf(),
        ensures
            final(self).wf(),
            final(self).same_listings(*old(self)),
            attached_deposit != 1 ==> r == Err::<u128, MarketError>(MarketError::InsufficientDeposit)
                && *final(self) == *old(self),
            attached_deposit == 1 && old(self).balance_of(predecessor_id@) < old(self).required_for(predecessor_id@)
                ==> r == Err::<u128, MarketError>(MarketError::AccountingInconsistency) && *final(self) == *old(self),
            attached_deposit == 1 && old(self).balance_of(predecessor_id@) >= old(self).required_for(predecessor_id@)
                ==> {
                &&& r == Ok::<u128, MarketError>(
                    (old(self).balance_of(predecessor_id@) - old(self).required_for(predecessor_id@)) as u128)
                &&& final(self).balance_of(predecessor_id@) == old(self).required_for(predecessor_id@)
                &&& old(self).required_for(predecessor_id@) == 0 ==> !final(self).has_balance(predecessor_id@)
                &&& final(self).balances_agree_except(*old(self), predecessor_id@)
            },
    {
        match assert_one_yocto(attached_deposit) {
            Ok(()) => {},
            Err(e) => return Err(e),
        }
        let amount = self.get_balance(predecessor_id);
        let len = self.get_supply_by_owner_id(predecessor_id);
        let required = match len.checked_mul(STORAGE_PER_SALE) {
            Some(req) => req,
            None => return Err(MarketError::AccountingInconsistency),
        };
        if amount < required {
            return Err(MarketError::AccountingInconsistency);
        }
        self.set_balance(predecessor_id, required);
        Ok(amount - required)
    }
}

} // verus!
