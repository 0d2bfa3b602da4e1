use vstd::prelude::*;

use crate::MAX_LEN_PAYOUT;

verus! {

/// The royalty split that the asset custodian returns: (recipient, amount) pairs.
pub struct Payout {
    pub payout: Vec<(String, u128)>,
}

/// One movement of funds to `receiver_id`.
pub struct Transfer {
    pub receiver_id: String,
    pub amount: u128,
}

/// Sum of the amounts of a split.
pub open spec fn payout_sum(p: Seq<(String, u128)>) -> int
    decreases p.len(),
{
    if p.len() == 0 {
        0
    } else {
        payout_sum(p.drop_last()) + p.last().1
    }
}

/// Sum of the amounts of a list of transfers.
pub open spec fn transfer_total(t: Seq<Transfer>) -> int
    decreases t.len(),
{
    if t.len() == 0 {
        0
    } else {
        transfer_total(t.drop_last()) + t.last().amount
    }
}

/// No recipient stands twice in a split.
pub open spec fn recipients_distinct(p: Seq<(String, u128)>) -> bool {
    forall|i: int, j: int| 0 <= i < p.len() && 0 <= j < p.len() && i != j ==> (#[trigger] p[i]).0@ != (#[trigger] p[j]).0@
}

/// A split is accepted for a deposit of `price`: one to `MAX_LEN_PAYOUT` entries for
/// distinct recipients, whose amounts add up to `price`, or to one unit less.
pub open spec fn payout_valid(p: Seq<(String, u128)>, price: u128) -> bool {
    &&& 1 <= p.len() <= MAX_LEN_PAYOUT
    &&& recipients_distinct(p)
    &&& payout_sum(p) <= price
    &&& price - payout_sum(p) <= 1
}

/// The custodian's outcome leads to the payout path.
pub open spec fn pays_out(outcome: Option<Payout>, price: u128) -> bool {
    outcome is Some && payout_valid(outcome->0.payout@, price)
}

/// The transfers stand one for one for the entries of the split.
pub open spec fn transfers_follow(r: Seq<Transfer>, p: Seq<(String, u128)>) -> bool {
    &&& r.len() == p.len()
    &&& forall|i: int| 0 <= i < r.len()
        ==> (#[trigger] r[i]).receiver_id@ == p[i].0@ && r[i].amount == p[i].1
}

/// The transfers are exactly one refund of `price` to `buyer`.
pub open spec fn is_refund(r: Seq<Transfer>, buyer: Seq<char>, price: u128) -> bool {
    &&& r.len() == 1
    &&& r[0].receiver_id@ == buyer
    &&& r[0].amount == price
}

proof fn lemma_payout_sum_prefix(p: Seq<(String, u128)>, i: int)
    requires
        0 <= i <= p.len(),
    ensures
        payout_sum(p.take(i)) <= payout_sum(p),
    decreases p.len() - i,
{
    if i < p.len() {
        lemma_payout_sum_prefix(p, i + 1);
        assert(p.take(i + 1).drop_last() == p.take(i));
    } else {
        assert(p.take(i) == p);
    }
}

proof fn lemma_transfer_total_follows(r: Seq<Transfer>, p: Seq<(String, u128)>)
    requires
        transfers_follow(r, p),
    ensures
        transfer_total(r) == payout_sum(p),
    decreases r.len(),
{
    if r.len() > 0 {
        assert(transfers_follow(r.drop_last(), p.drop_last()));
        lemma_transfer_total_follows(r.drop_last(), p.drop_last());
    }
}

/// Whether no recipient stands twice in `p`.
fn check_recipients(p: &Vec<(String, u128)>) -> (r: bool)
    ensures
        r == recipients_distinct(p@),
{
    let mut i: usize = 0;
    while i < p.len()
        invariant
            i <= p@.len(),
            forall|a: int, b: int| 0 <= a < i && 0 <= b < p@.len() && a != b ==> (#[trigger] p@[a]).0@ != (#[trigger] p@[b]).0@,
        decreases p@.len() - i,
    {
        let mut j: usize = 0;
        while j < p.len()
            invariant
                i < p@.len(),
                j <= p@.len(),
                forall|a: int, b: int| 0 <= a < i && 0 <= b < p@.len() && a != b ==> (#[trigger] p@[a]).0@ != (#[trigger] p@[b]).0@,
                forall|b: int| 0 <= b < j && b != i ==> p@[i as int].0@ != (#[trigger] p@[b]).0@,
            decreases p@.len() - j,
        {
            if j != i && p[i].0 == p[j].0 {
                return false;
            }
            j = j + 1;
        }
        i = i + 1;
    }
    true
}

/// Checks a returned split against the deposited `price`.
pub fn check_payout(payout: &Payout, price: u128) -> (r: bool)
    ensures
        r == payout_valid(payout.payout@, price),
{
    let p = &payout.payout;
    if p.len() > MAX_LEN_PAYOUT as usize || p.len() == 0 {
        return false;
    }
    if !check_recipients(p) {
        return false;
    }
    let mut remainder: u128 = price;
    let mut i: usize = 0;
    while i < p.len()
        invariant
            p@ == payout.payout@,
            i <= p@.len(),
            payout_sum(p@.take(i as int)) <= price,
            remainder == price - payout_sum(p@.take(i as int)),
        decreases p@.len() - i,
    {
        assert(p@.take(i as int + 1).drop_last() == p@.take(i as int));
        assert(p@.take(i as int + 1).last() == p@[i as int]);
        match remainder.checked_sub(p[i].1) {
            Some(rest) => remainder = rest,
            None => {
                proof {
                    assert(payout_sum(p@.take(i as int + 1)) == payout_sum(p@.take(i as int)) + p@[i as int].1);
                    lemma_payout_sum_prefix(p@, i as int + 1);
                }
                return false;
            },
        }
        i = i + 1;
    }
    assert(p@.take(i as int) == p@);
    remainder == 0 || remainder == 1
}

/// Settles a purchase or a use after the custodian answered: `outcome` is the split it
/// returned, or `None` when its call failed or its answer could not be read. A valid split
/// is paid out entry by entry; anything else refunds the whole deposit to the buyer.
pub fn internal_payout(buyer_id: &String, price: u128, outcome: Option<Payout>) -> (r: Vec<Transfer>)
    ensures
        pays_out(outcome, price) ==> transfers_follow(r@, outcome->0.payout@),
        !pays_out(outcome, price) ==> is_refund(r@, buyer_id@, price),
{
    let valid = match &outcome {
        Some(p) => check_payout(p, price),
        None => false,
    };
    let mut transfers: Vec<Transfer> = Vec::new();
    if !valid {
        transfers.push(Transfer { receiver_id: buyer_id.clone(), amount: price });
        return transfers;
    }
    let p = match outcome {
        Some(p) => p.payout,
        None => Vec::new(),
    };
    let mut i: usize = 0;
    while i < p.len()
        invariant
            i <= p@.len(),
            transfers@.len() == i,
            forall|k: int| 0 <= k < i
                ==> (#[trigger] transfers@[k]).receiver_id@ == p@[k].0@ && transfers@[k].amount == p@[k].1,
        decreases p@.len() - i,
    {
        transfers.push(Transfer { receiver_id: p[i].0.clone(), amount: p[i].1 });
        i = i + 1;
    }
    transfers
}

/// Every outcome of the custodian's call is settled by exactly one of the two paths: a
/// refund of the whole deposit to the buyer, or a payout whose transfers add up to the
/// deposit within one unit.
pub proof fn lemma_resolution_total(buyer: Seq<char>, price: u128, outcome: Option<Payout>, r: Seq<Transfer>)
    requires
        pays_out(outcome, price) ==> transfers_follow(r, outcome->0.payout@),
        !pays_out(outcome, price) ==> is_refund(r, buyer, price),
    ensures
        pays_out(outcome, price) ==> price - 1 <= transfer_total(r) <= price,
        !pays_out(outcome, price) ==> transfer_total(r) == price && r.len() == 1 && r[0].receiver_id@ == buyer,
{
    if pays_out(outcome, price) {
        lemma_transfer_total_follows(r, outcome->0.payout@);
    } else {
        assert(r.drop_last().len() == 0);
        assert(transfer_total(r.drop_last()) == 0);
        assert(r.last() == r[0]);
    }
}

} // verus!
