use vstd::prelude::*;

use crate::{Contract, KeyView, MarketError, PurchaseRequest, listing_key, sale_key};
use crate::sale::{offer_result, purchase_outcome};

verus! {

/// In every well-formed state, and so after any sequence of operations (each of which keeps
/// the state well-formed), a key stands in the by-owner set of an owner exactly when a sale
/// of that owner is listed under the key, and an asset id stands in the by-contract set of
/// its contract exactly when a sale is listed under that key.
pub proof fn lemma_index_consistency(c: Contract)
    requires
        c.wf(),
    ensures
        forall|o: Seq<char>, k: KeyView| #[trigger] c.owner_indexed(o, k) <==> c.has_sale_of(o, k),
        forall|ct: Seq<char>, t: Seq<char>| #[trigger] c.contract_indexed(ct, t) <==> c.has_sale((ct, t)),
{
    assert forall|o: Seq<char>, k: KeyView| #[trigger] c.owner_indexed(o, k) <==> c.has_sale_of(o, k) by {
        if c.owner_indexed(o, k) {
            let (j, m) = choose|j: int, m: int|
                0 <= j < c.by_owner_id@.len() && 0 <= m < c.by_owner_id@[j].keys@.len()
                    && c.by_owner_id@[j].owner_id@ == o
                    && #[trigger] listing_key(c.by_owner_id@[j].keys@[m]) == k;
            assert(c.has_sale_of(c.by_owner_id@[j].owner_id@, listing_key(c.by_owner_id@[j].keys@[m])));
        }
        if c.has_sale_of(o, k) {
            let i = choose|i: int|
                0 <= i < c.sales@.len() && #[trigger] sale_key(c.sales@[i]) == k && c.sales@[i].owner_id@ == o;
            assert(c.owner_indexed(c.sales@[i].owner_id@, sale_key(c.sales@[i])));
        }
    }
    assert forall|ct: Seq<char>, t: Seq<char>| #[trigger] c.contract_indexed(ct, t) <==> c.has_sale((ct, t)) by {
        if c.contract_indexed(ct, t) {
            let (j, m) = choose|j: int, m: int|
                0 <= j < c.by_contract_id@.len() && 0 <= m < c.by_contract_id@[j].token_ids@.len()
                    && c.by_contract_id@[j].nft_contract_id@ == ct
                    && #[trigger] c.by_contract_id@[j].token_ids@[m]@ == t;
            assert(c.has_sale((c.by_contract_id@[j].nft_contract_id@, c.by_contract_id@[j].token_ids@[m]@)));
        }
        if c.has_sale((ct, t)) {
            let i = choose|i: int| 0 <= i < c.sales@.len() && #[trigger] sale_key(c.sales@[i]) == (ct, t);
            assert(c.contract_indexed(c.sales@[i].nft_contract_id@, c.sales@[i].token_id@));
        }
    }
}

/// In every well-formed state an owner has a by-owner set exactly when that owner has a sale
/// listed: the set of an owner whose last sale was removed is gone, and the next sale of that
/// owner starts a new one.
pub proof fn lemma_emptied_sets_deleted(c: Contract, o: Seq<char>)
    requires
        c.wf(),
    ensures
        c.owner_set_present(o) <==> exists|k: KeyView| #[trigger] c.has_sale_of(o, k),
        c.owner_set_present(o) <==> c.owner_supply(o) > 0,
{
    lemma_index_consistency(c);
    if c.owner_set_present(o) {
        let j = choose|j: int| 0 <= j < c.by_owner_id@.len() && #[trigger] c.by_owner_id@[j].owner_id@ == o;
        assert(c.by_owner_id@[j].keys@.len() > 0);
        assert(c.owner_indexed(o, listing_key(c.by_owner_id@[j].keys@[0])));
    }
    if exists|k: KeyView| #[trigger] c.has_sale_of(o, k) {
        let k = choose|k: KeyView| #[trigger] c.has_sale_of(o, k);
        assert(c.owner_indexed(o, k));
        let (j, m) = choose|j: int, m: int|
            0 <= j < c.by_owner_id@.len() && 0 <= m < c.by_owner_id@[j].keys@.len()
                && c.by_owner_id@[j].owner_id@ == o
                && #[trigger] listing_key(c.by_owner_id@[j].keys@[m]) == k;
        assert(c.owner_set_present(o));
    }
}

/// A sale is used at most once: once the first phase of a purchase on a key has run, a
/// second offer on that key fails, whoever makes it and whatever it attaches, until the key
/// is listed again.
pub proof fn lemma_sale_used_once(
    before: Contract,
    mid: Contract,
    after: Contract,
    k: KeyView,
    buyer1: Seq<char>,
    deposit1: u128,
    r1: Result<PurchaseRequest, MarketError>,
    buyer2: Seq<char>,
    deposit2: u128,
    r2: Result<PurchaseRequest, MarketError>,
)
    requires
        offer_result(before, mid, r1, k, buyer1, deposit1),
        r1 is Ok,
        offer_result(mid, after, r2, k, buyer2, deposit2),
    ensures
        r2 is Err,
        after == mid,
{
    assert(purchase_outcome(before, mid, r1, k, buyer1, deposit1));
}

} // verus!
