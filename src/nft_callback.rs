use vstd::prelude::*;

use vstd::string::StrSliceExecFns;

use crate::{Contract, KeyView, MarketError, Sale, Uses, STORAGE_PER_SALE};

verus! {

/// The listing terms carried by an approval: the sale price and the price per use.
pub struct ListingArgs {
    pub sale_condition: u128,
    pub use_condition: u128,
}

/// A non-empty string of decimal digits.
pub open spec fn is_decimal(s: Seq<char>) -> bool {
    &&& s.len() > 0
    &&& forall|i: int| 0 <= i < s.len() ==> '0' <= #[trigger] s[i] <= '9'
}

/// The number that a string of decimal digits writes.
pub open spec fn decimal_value(s: Seq<char>) -> nat
    decreases s.len(),
{
    if s.len() == 0 {
        0
    } else {
        decimal_value(s.drop_last()) * 10 + ((s.last() as u32) - ('0' as u32)) as nat
    }
}

proof fn lemma_decimal_prefix(s: Seq<char>, i: int)
    requires
        is_decimal(s),
        0 <= i <= s.len(),
    ensures
        decimal_value(s.take(i)) <= decimal_value(s),
    decreases s.len() - i,
{
    if i < s.len() {
        lemma_decimal_prefix(s, i + 1);
        assert(s.take(i + 1).drop_last() == s.take(i));
        assert(s.take(i + 1).last() == s[i]);
    } else {
        assert(s.take(i) == s);
    }
}

/// Reads an amount written as a string of decimal digits, as amounts are written in
/// listing terms and payout splits. Only digits are accepted: a sign, a leading `+`
/// included, or any other character makes the amount malformed.
pub fn parse_u128(s: &str) -> (r: Option<u128>)
    ensures
        r == (if is_decimal(s@) && decimal_value(s@) <= u128::MAX {
            Some(decimal_value(s@) as u128)
        } else {
            None::<u128>
        }),
{
    let n = s.unicode_len();
    if n == 0 {
        return None;
    }
    let mut acc: u128 = 0;
    let mut i: usize = 0;
    while i < n
        invariant
            n == s@.len(),
            i <= n,
            forall|k: int| 0 <= k < i ==> '0' <= #[trigger] s@[k] <= '9',
            acc == decimal_value(s@.take(i as int)),
        decreases n - i,
    {
        let c = s.get_char(i);
        assert(s@.take(i as int + 1).drop_last() == s@.take(i as int));
        assert(s@.take(i as int + 1).last() == c);
        if c < '0' || c > '9' {
            return None;
        }
        let d = (c as u32 - '0' as u32) as u128;
        let next = match acc.checked_mul(10) {
            Some(m) => m.checked_add(d),
            None => None,
        };
        match next {
            Some(v) => acc = v,
            None => {
                proof {
                    if is_decimal(s@) {
                        lemma_decimal_prefix(s@, i as int + 1);
                    }
                }
                return None;
            },
        }
        i = i + 1;
    }
    assert(s@.take(i as int) == s@);
    Some(acc)
}

impl ListingArgs {
    /// Reads the sale price and the price per use from their decimal strings; a malformed
    /// one is invalid input.
    pub fn from_terms(sale_condition: &str, use_condition: &str) -> (r: Result<ListingArgs, MarketError>)
        ensures
            match r {
                Ok(a) => {
                    &&& is_decimal(sale_condition@) && a.sale_condition == decimal_value(sale_condition@)
                    &&& is_decimal(use_condition@) && a.use_condition == decimal_value(use_condition@)
                },
                Err(e) => {
                    &&& e == MarketError::InvalidInput
                    &&& !(is_decimal(sale_condition@) && decimal_value(sale_condition@) <= u128::MAX
                        && is_decimal(use_condition@) && decimal_value(use_condition@) <= u128::MAX)
                },
            },
    {
        let sale = match parse_u128(sale_condition) {
            Some(v) => v,
            None => return Err(MarketError::InvalidInput),
        };
        let use_price = match parse_u128(use_condition) {
            Some(v) => v,
            None => return Err(MarketError::InvalidInput),
        };
        Ok(ListingArgs { sale_condition: sale, use_condition: use_price })
    }
}

/// Receives the asset contract's notice that the market was approved for an asset.
pub trait NonFungibleTokenApprovalReceiver: Sized {
    spec fn receiver_wf(&self) -> bool;

    /// What handling the notice did, from the state before to the state after.
    spec fn approve_outcome(
        &self,
        after: &Self,
        r: Result<(), MarketError>,
        nft_contract_id: Seq<char>,
        signer_id: Seq<char>,
        token_id: Seq<char>,
        owner_id: Seq<char>,
        approval_id: u64,
        args: Option<ListingArgs>,
    ) -> bool;

    fn nft_on_approve(
        &mut self,
        nft_contract_id: &String,
        signer_id: &String,
        token_id: String,
        owner_id: String,
        approval_id: u64,
        args: Option<ListingArgs>,
    ) -> (r: Result<(), MarketError>)
        requires
            old(self).receiver_wf(),
        ensures
            final(self).receiver_wf(),
            old(self).approve_outcome(final(self), r, nft_contract_id@, signer_id@, token_id@, owner_id@, approval_id, args),
    ;
}

/// What a successful approval leaves behind: a sale and a use offer under `k` with the
/// approval's terms, every other listing and every balance as it was.
pub open spec fn listed(
    before: Contract,
    after: Contract,
    k: KeyView,
    owner: Seq<char>,
    approval_id: u64,
    args: ListingArgs,
) -> bool {
    &&& after.has_sale(k)
    &&& after.sale_of(k).owner_id@ == owner
    &&& after.sale_of(k).nft_contract_id@ == k.0
    &&& after.sale_of(k).token_id@ == k.1
    &&& after.sale_of(k).approval_id == approval_id
    &&& after.sale_of(k).sale_conditions == args.sale_condition
    &&& after.has_use(k)
    &&& after.use_of(k).owner_id@ == owner
    &&& after.use_of(k).nft_contract_id@ == k.0
    &&& after.use_of(k).token_id@ == k.1
    &&& after.use_of(k).use_conditions == args.use_condition
    &&& after.sales_agree_except(before, k)
    &&& after.uses_agree_except(before, k)
    &&& after.storage_deposit == before.storage_deposit
}

/// The outcome of an approval notice from asset contract `nft_contract` for asset `token`
/// of `owner`, signed by `signer`, with listing terms `args` (`None` when they could not be
/// read): the checks in their order, each failure leaving the state
/// as it was, and the listing when all pass, within the owner's storage quota.
pub open spec fn approval_result(
    before: Contract,
    after: Contract,
    r: Result<(), MarketError>,
    nft_contract: Seq<char>,
    signer: Seq<char>,
    token: Seq<char>,
    owner: Seq<char>,
    approval_id: u64,
    args: Option<ListingArgs>,
) -> bool {
    if nft_contract == signer || signer != owner {
        r == Err::<(), MarketError>(MarketError::Unauthorized) && after == before
    } else if args is None {
        r == Err::<(), MarketError>(MarketError::InvalidInput) && after == before
    } else if (before.owner_supply(owner) + 1) * STORAGE_PER_SALE > before.balance_of(owner) {
        r == Err::<(), MarketError>(MarketError::InsufficientStorageQuota) && after == before
    } else {
        &&& r is Ok
        &&& listed(before, after, (nft_contract, token), owner, approval_id, args->0)
        &&& after.required_for(owner) <= after.balance_of(owner)
    }
}

impl Contract {
    /// Lists an asset after its contract (`nft_contract_id`, the caller) approved the market
    /// on behalf of `owner_id`. A listing already under the same key is replaced.
    pub fn list_on_approve(
        &mut self,
        nft_contract_id: &String,
        signer_id: &String,
        token_id: String,
        owner_id: String,
        approval_id: u64,
        args: Option<ListingArgs>,
    ) -> (r: Result<(), MarketError>)
        requires
            old(self).wf(),
        ensures
            final(self).wf(),
            approval_result(*old(self), *final(self), r, nft_contract_id@, signer_id@, token_id@, owner_id@, approval_id, args),
    {
        if *nft_contract_id == *signer_id {
            return Err(MarketError::Unauthorized);
        }
        if *signer_id != owner_id {
            return Err(MarketError::Unauthorized);
        }
        let args = match args {
            Some(a) => a,
            None => return Err(MarketError::InvalidInput),
        };
        let ghost old_c = *self;
        let ghost k: KeyView = (nft_contract_id@, token_id@);
        let ghost o = owner_id@;
        let balance = self.get_balance(signer_id);
        let supply = self.get_supply_by_owner_id(signer_id);
        let required = match (supply + 1).checked_mul(STORAGE_PER_SALE) {
            Some(req) => req,
            None => return Err(MarketError::InsufficientStorageQuota),
        };
        if balance < required {
            return Err(MarketError::InsufficientStorageQuota);
        }
        match self.find_sale(nft_contract_id, &token_id) {
            Some(_) => {
                let _ = self.internal_remove_sale(nft_contract_id, &token_id);
            },
            None => {},
        }
        let ghost after_sale = *self;
        proof {
            assert(self.owner_supply(o) <= old_c.owner_supply(o));
            assert(self.sales_agree_except(old_c, k));
            assert(self.uses@ == old_c.uses@);
        }
        match self.find_uses(nft_contract_id, &token_id) {
            Some(_) => {
                let _ = self.internal_remove_uses(nft_contract_id, &token_id);
            },
            None => {},
        }
        let ghost after_uses = *self;
        proof {
            assert(self.by_owner_id@ == after_sale.by_owner_id@);
            assert(self.owner_supply(o) == after_sale.owner_supply(o));
            assert(self.sales@ == after_sale.sales@);
            assert forall|k2: KeyView| #[trigger] self.has_sale(k2) == after_sale.has_sale(k2) by {}
            assert forall|k2: KeyView| #[trigger] self.sale_of(k2) == after_sale.sale_of(k2) by {}
            assert forall|k2: KeyView| k2 != k implies #[trigger] self.has_use(k2) == old_c.has_use(k2)
                && (self.has_use(k2) ==> self.use_of(k2) == old_c.use_of(k2)) by {
                assert(after_sale.has_use(k2) == old_c.has_use(k2));
                assert(after_sale.use_of(k2) == old_c.use_of(k2));
            }
        }
        let sale = Sale {
            owner_id: owner_id.clone(),
            approval_id,
            nft_contract_id: nft_contract_id.clone(),
            token_id: token_id.clone(),
            sale_conditions: args.sale_condition,
        };
        let uses = Uses {
            owner_id,
            nft_contract_id: nft_contract_id.clone(),
            token_id,
            use_conditions: args.use_condition,
        };
        self.internal_create(sale, uses);
        proof {
            let s0 = old_c.owner_supply(o);
            let s1 = self.owner_supply(o);
            assert(s1 <= s0 + 1);
            assert(s1 * STORAGE_PER_SALE <= (s0 + 1) * STORAGE_PER_SALE) by (nonlinear_arith)
                requires s1 <= s0 + 1;
            assert(self.storage_deposit@ == old_c.storage_deposit@);
            assert(self.balance_of(o) == old_c.balance_of(o));
        }
        Ok(())
    }
}

impl NonFungibleTokenApprovalReceiver for Contract {
    open spec fn receiver_wf(&self) -> bool {
        self.wf()
    }

    open spec fn approve_outcome(
        &self,
        after: &Self,
        r: Result<(), MarketError>,
        nft_contract_id: Seq<char>,
        signer_id: Seq<char>,
        token_id: Seq<char>,
        owner_id: Seq<char>,
        approval_id: u64,
        args: Option<ListingArgs>,
    ) -> bool {
        approval_result(*self, *after, r, nft_contract_id, signer_id, token_id, owner_id, approval_id, args)
    }

    fn nft_on_approve(
        &mut self,
        nft_contract_id: &String,
        signer_id: &String,
        token_id: String,
        owner_id: String,
        approval_id: u64,
        args: Option<ListingArgs>,
    ) -> (r: Result<(), MarketError>) {
        self.list_on_approve(nft_contract_id, signer_id, token_id, owner_id, approval_id, args)
    }
}

} // verus!
