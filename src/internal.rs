use vstd::prelude::*;

use crate::{Contract, ListingKey, MarketError, Sale, Uses, KeyView, sale_key, uses_key, listing_key};

verus! {

/// The keys of the sales of one owner.
pub struct OwnerSales {
    pub owner_id: String,
    pub keys: Vec<ListingKey>,
}

/// The asset ids on sale under one asset contract.
pub struct ContractTokens {
    pub nft_contract_id: String,
    pub token_ids: Vec<String>,
}

} // verus!

verus! {

impl Contract {
    /// A sale with key `k` is listed.
    pub open spec fn has_sale(self, k: KeyView) -> bool {
        exists|i: int| 0 <= i < self.sales@.len() && #[trigger] sale_key(self.sales@[i]) == k
    }

    /// A sale with key `k` and owner `o` is listed.
    pub open spec fn has_sale_of(self, o: Seq<char>, k: KeyView) -> bool {
        exists|i: int|
            0 <= i < self.sales@.len() && #[trigger] sale_key(self.sales@[i]) == k
                && self.sales@[i].owner_id@ == o
    }

    /// A use offer with key `k` is listed.
    pub open spec fn has_use(self, k: KeyView) -> bool {
        exists|i: int| 0 <= i < self.uses@.len() && #[trigger] uses_key(self.uses@[i]) == k
    }

    /// The by-owner index holds key `k` under owner `o`.
    pub open spec fn owner_indexed(self, o: Seq<char>, k: KeyView) -> bool {
        exists|j: int, m: int|
            0 <= j < self.by_owner_id@.len() && 0 <= m < self.by_owner_id@[j].keys@.len()
                && self.by_owner_id@[j].owner_id@ == o
                && #[trigger] listing_key(self.by_owner_id@[j].keys@[m]) == k
    }

    /// The by-contract index holds asset id `t` under asset contract `c`.
    pub open spec fn contract_indexed(self, c: Seq<char>, t: Seq<char>) -> bool {
        exists|j: int, m: int|
            0 <= j < self.by_contract_id@.len() && 0 <= m < self.by_contract_id@[j].token_ids@.len()
                && self.by_contract_id@[j].nft_contract_id@ == c
                && #[trigger] self.by_contract_id@[j].token_ids@[m]@ == t
    }

    /// The by-owner index has a set for owner `o`.
    pub open spec fn owner_set_present(self, o: Seq<char>) -> bool {
        exists|j: int| 0 <= j < self.by_owner_id@.len() && #[trigger] self.by_owner_id@[j].owner_id@ == o
    }

    /// The by-contract index has a set for asset contract `c`.
    pub open spec fn contract_set_present(self, c: Seq<char>) -> bool {
        exists|j: int|
            0 <= j < self.by_contract_id@.len() && #[trigger] self.by_contract_id@[j].nft_contract_id@ == c
    }

    pub open spec fn sales_unique(self) -> bool {
        forall|i: int, j: int|
            0 <= i < self.sales@.len() && 0 <= j < self.sales@.len() && i != j
                ==> sale_key(#[trigger] self.sales@[i]) != sale_key(#[trigger] self.sales@[j])
    }

    pub open spec fn uses_unique(self) -> bool {
        forall|i: int, j: int|
            0 <= i < self.uses@.len() && 0 <= j < self.uses@.len() && i != j
                ==> uses_key(#[trigger] self.uses@[i]) != uses_key(#[trigger] self.uses@[j])
    }

    /// Owner sets: one per owner, never empty, no key twice.
    pub open spec fn owner_sets_wf(self) -> bool {
        &&& forall|i: int, j: int|
            0 <= i < self.by_owner_id@.len() && 0 <= j < self.by_owner_id@.len() && i != j
                ==> (#[trigger] self.by_owner_id@[i]).owner_id@ != (#[trigger] self.by_owner_id@[j]).owner_id@
        &&& forall|j: int| 0 <= j < self.by_owner_id@.len() ==> (#[trigger] self.by_owner_id@[j]).keys@.len() > 0
        &&& forall|j: int, m: int, n: int|
            0 <= j < self.by_owner_id@.len() && 0 <= m < self.by_owner_id@[j].keys@.len()
                && 0 <= n < self.by_owner_id@[j].keys@.len() && m != n
                ==> listing_key(#[trigger] self.by_owner_id@[j].keys@[m])
                    != listing_key(#[trigger] self.by_owner_id@[j].keys@[n])
    }

    /// Contract sets: one per asset contract, never empty, no asset id twice.
    pub open spec fn contract_sets_wf(self) -> bool {
        &&& forall|i: int, j: int|
            0 <= i < self.by_contract_id@.len() && 0 <= j < self.by_contract_id@.len() && i != j
                ==> (#[trigger] self.by_contract_id@[i]).nft_contract_id@
                    != (#[trigger] self.by_contract_id@[j]).nft_contract_id@
        &&& forall|j: int|
            0 <= j < self.by_contract_id@.len() ==> (#[trigger] self.by_contract_id@[j]).token_ids@.len() > 0
        &&& forall|j: int, m: int, n: int|
            0 <= j < self.by_contract_id@.len() && 0 <= m < self.by_contract_id@[j].token_ids@.len()
                && 0 <= n < self.by_contract_id@[j].token_ids@.len() && m != n
                ==> (#[trigger] self.by_contract_id@[j].token_ids@[m])@
                    != (#[trigger] self.by_contract_id@[j].token_ids@[n])@
    }

    /// Every entry of the by-owner index stands for a sale of that owner, and back.
    pub open spec fn owner_index_consistent(self) -> bool {
        &&& forall|j: int, m: int|
            0 <= j < self.by_owner_id@.len() && 0 <= m < self.by_owner_id@[j].keys@.len()
                ==> self.has_sale_of(self.by_owner_id@[j].owner_id@, listing_key(#[trigger] self.by_owner_id@[j].keys@[m]))
        &&& forall|i: int|
            0 <= i < self.sales@.len()
                ==> self.owner_indexed((#[trigger] self.sales@[i]).owner_id@, sale_key(self.sales@[i]))
    }

    /// Every entry of the by-contract index stands for a sale, and back.
    pub open spec fn contract_index_consistent(self) -> bool {
        &&& forall|j: int, m: int|
            0 <= j < self.by_contract_id@.len() && 0 <= m < self.by_contract_id@[j].token_ids@.len()
                ==> self.has_sale((self.by_contract_id@[j].nft_contract_id@, (#[trigger] self.by_contract_id@[j].token_ids@[m])@))
        &&& forall|i: int|
            0 <= i < self.sales@.len()
                ==> self.contract_indexed((#[trigger] self.sales@[i]).nft_contract_id@, self.sales@[i].token_id@)
    }

    pub open spec fn ledger_unique(self) -> bool {
        forall|i: int, j: int|
            0 <= i < self.storage_deposit@.len() && 0 <= j < self.storage_deposit@.len() && i != j
                ==> (#[trigger] self.storage_deposit@[i]).account_id@ != (#[trigger] self.storage_deposit@[j]).account_id@
    }

    /// `self` lists the same sales as `other` under every key but `k`.
    pub open spec fn sales_agree_except(self, other: Contract, k: KeyView) -> bool {
        forall|k2: KeyView| k2 != k ==> {
            &&& #[trigger] self.has_sale(k2) == other.has_sale(k2)
            &&& self.has_sale(k2) ==> self.sale_of(k2) == other.sale_of(k2)
        }
    }

    /// `self` lists the same use offers as `other` under every key but `k`.
    pub open spec fn uses_agree_except(self, other: Contract, k: KeyView) -> bool {
        forall|k2: KeyView| k2 != k ==> {
            &&& #[trigger] self.has_use(k2) == other.has_use(k2)
            &&& self.has_use(k2) ==> self.use_of(k2) == other.use_of(k2)
        }
    }

    /// Well-formedness of the whole state.
    pub open spec fn wf(self) -> bool {
        &&& self.sales_unique()
        &&& self.uses_unique()
        &&& self.owner_sets_wf()
        &&& self.contract_sets_wf()
        &&& self.owner_index_consistent()
        &&& self.contract_index_consistent()
        &&& self.ledger_unique()
        &&& self.creators_unique()
    }
}

} // verus!

verus! {

impl Contract {
    /// Position of the sale with key (`c`, `t`).
    pub fn find_sale(&self, c: &String, t: &String) -> (r: Option<usize>)
        ensures
            match r {
                Some(i) => i < self.sales@.len() && sale_key(self.sales@[i as int]) == (c@, t@),
                None => !self.has_sale((c@, t@)),
            },
    {
        let mut i: usize = 0;
        while i < self.sales.len()
            invariant
                i <= self.sales@.len(),
                forall|k: int| 0 <= k < i ==> sale_key(#[trigger] self.sales@[k]) != (c@, t@),
            decreases self.sales@.len() - i,
        {
            if self.sales[i].nft_contract_id == *c && self.sales[i].token_id == *t {
                return Some(i);
            }
            i = i + 1;
        }
        None
    }

    /// Position of the use offer with key (`c`, `t`).
    pub fn find_uses(&self, c: &String, t: &String) -> (r: Option<usize>)
        ensures
            match r {
                Some(i) => i < self.uses@.len() && uses_key(self.uses@[i as int]) == (c@, t@),
                None => !self.has_use((c@, t@)),
            },
    {
        let mut i: usize = 0;
        while i < self.uses.len()
            invariant
                i <= self.uses@.len(),
                forall|k: int| 0 <= k < i ==> uses_key(#[trigger] self.uses@[k]) != (c@, t@),
            decreases self.uses@.len() - i,
        {
            if self.uses[i].nft_contract_id == *c && self.uses[i].token_id == *t {
                return Some(i);
            }
            i = i + 1;
        }
        None
    }

    /// Position of the by-owner set of `o`.
    pub fn find_owner_set(&self, o: &String) -> (r: Option<usize>)
        ensures
            match r {
                Some(j) => j < self.by_owner_id@.len() && self.by_owner_id@[j as int].owner_id@ == o@,
                None => !self.owner_set_present(o@),
            },
    {
        let mut j: usize = 0;
        while j < self.by_owner_id.len()
            invariant
                j <= self.by_owner_id@.len(),
                forall|k: int| 0 <= k < j ==> (#[trigger] self.by_owner_id@[k]).owner_id@ != o@,
            decreases self.by_owner_id@.len() - j,
        {
            if self.by_owner_id[j].owner_id == *o {
                return Some(j);
            }
            j = j + 1;
        }
        None
    }

    /// Position of the by-contract set of `c`.
    pub fn find_contract_set(&self, c: &String) -> (r: Option<usize>)
        ensures
            match r {
                Some(j) => j < self.by_contract_id@.len() && self.by_contract_id@[j as int].nft_contract_id@ == c@,
                None => !self.contract_set_present(c@),
            },
    {
        let mut j: usize = 0;
        while j < self.by_contract_id.len()
            invariant
                j <= self.by_contract_id@.len(),
                forall|k: int| 0 <= k < j ==> (#[trigger] self.by_contract_id@[k]).nft_contract_id@ != c@,
            decreases self.by_contract_id@.len() - j,
        {
            if self.by_contract_id[j].nft_contract_id == *c {
                return Some(j);
            }
            j = j + 1;
        }
        None
    }
}

/// Position of key (`c`, `t`) in `keys`.
fn find_key(keys: &Vec<ListingKey>, c: &String, t: &String) -> (r: Option<usize>)
    ensures
        match r {
            Some(m) => m < keys@.len() && listing_key(keys@[m as int]) == (c@, t@),
            None => forall|m: int| 0 <= m < keys@.len() ==> listing_key(#[trigger] keys@[m]) != (c@, t@),
        },
{
    let mut m: usize = 0;
    while m < keys.len()
        invariant
            m <= keys@.len(),
            forall|k: int| 0 <= k < m ==> listing_key(#[trigger] keys@[k]) != (c@, t@),
        decreases keys@.len() - m,
    {
        if keys[m].nft_contract_id == *c && keys[m].token_id == *t {
            return Some(m);
        }
        m = m + 1;
    }
    None
}

/// Position of asset id `t` in `ids`.
fn find_token(ids: &Vec<String>, t: &String) -> (r: Option<usize>)
    ensures
        match r {
            Some(m) => m < ids@.len() && ids@[m as int]@ == t@,
            None => forall|m: int| 0 <= m < ids@.len() ==> (#[trigger] ids@[m])@ != t@,
        },
{
    let mut m: usize = 0;
    while m < ids.len()
        invariant
            m <= ids@.len(),
            forall|k: int| 0 <= k < m ==> (#[trigger] ids@[k])@ != t@,
        decreases ids@.len() - m,
    {
        if ids[m] == *t {
            return Some(m);
        }
        m = m + 1;
    }
    None
}

} // verus!

verus! {

/// The by-owner index stays consistent when sale `i` leaves the table and its key leaves
/// position `m` of owner set `j` (the set itself leaving when it held only that key).
proof fn lemma_owner_index_after_remove(old_c: Contract, new_c: Contract, i: int, j: int, m: int)
    requires
        old_c.wf(),
        0 <= i < old_c.sales@.len(),
        new_c.sales@ == old_c.sales@.remove(i),
        0 <= j < old_c.by_owner_id@.len(),
        0 <= m < old_c.by_owner_id@[j].keys@.len(),
        old_c.by_owner_id@[j].owner_id@ == old_c.sales@[i].owner_id@,
        listing_key(old_c.by_owner_id@[j].keys@[m]) == sale_key(old_c.sales@[i]),
        old_c.by_owner_id@[j].keys@.len() == 1 ==> new_c.by_owner_id@ == old_c.by_owner_id@.remove(j),
        old_c.by_owner_id@[j].keys@.len() > 1 ==> {
            &&& new_c.by_owner_id@.len() == old_c.by_owner_id@.len()
            &&& forall|jj: int| 0 <= jj < old_c.by_owner_id@.len() && jj != j
                ==> #[trigger] new_c.by_owner_id@[jj] == old_c.by_owner_id@[jj]
            &&& new_c.by_owner_id@[j].owner_id@ == old_c.by_owner_id@[j].owner_id@
            &&& new_c.by_owner_id@[j].keys@ == old_c.by_owner_id@[j].keys@.remove(m)
        },
    ensures
        new_c.owner_sets_wf(),
        new_c.owner_index_consistent(),
{
    let k = sale_key(old_c.sales@[i]);
    let o = old_c.sales@[i].owner_id@;
    let ob = old_c.by_owner_id@;
    let nb = new_c.by_owner_id@;
    // no other entry of the old index holds k
    assert forall|jj: int, mm: int|
        0 <= jj < ob.len() && 0 <= mm < ob[jj].keys@.len() && !(jj == j && mm == m)
        implies #[trigger] listing_key(ob[jj].keys@[mm]) != k by {
        if jj != j {
            assert(old_c.has_sale_of(ob[jj].owner_id@, listing_key(ob[jj].keys@[mm])));
            if listing_key(ob[jj].keys@[mm]) == k {
                let w = choose|w: int|
                    0 <= w < old_c.sales@.len() && #[trigger] sale_key(old_c.sales@[w])
                        == listing_key(ob[jj].keys@[mm]) && old_c.sales@[w].owner_id@ == ob[jj].owner_id@;
                assert(w == i);
                assert(ob[jj].owner_id@ != ob[j].owner_id@);
            }
        }
    }
    // the old position of each entry of the new index
    let old_j = |jj: int| if ob[j].keys@.len() == 1 && jj >= j { jj + 1 } else { jj };
    let old_m = |jj: int, mm: int| if ob[j].keys@.len() > 1 && jj == j && mm >= m { mm + 1 } else { mm };
    assert forall|jj: int, mm: int|
        0 <= jj < nb.len() && 0 <= mm < nb[jj].keys@.len()
        implies {
            &&& 0 <= old_j(jj) < ob.len()
            &&& 0 <= old_m(jj, mm) < ob[old_j(jj)].keys@.len()
            &&& !(old_j(jj) == j && old_m(jj, mm) == m)
            &&& nb[jj].owner_id@ == ob[old_j(jj)].owner_id@
            &&& #[trigger] nb[jj].keys@[mm] == ob[old_j(jj)].keys@[old_m(jj, mm)]
        } by {
        if ob[j].keys@.len() > 1 && jj != j {
            assert(nb[jj] == ob[jj]);
        }
    }
    assert forall|i1: int, i2: int|
        0 <= i1 < nb.len() && 0 <= i2 < nb.len() && i1 != i2
        implies (#[trigger] nb[i1]).owner_id@ != (#[trigger] nb[i2]).owner_id@ by {
        assert(nb[i1].keys@.len() > 0);
        assert(nb[i2].keys@.len() > 0);
        assert(nb[i1].keys@[0] == ob[old_j(i1)].keys@[old_m(i1, 0)]);
        assert(nb[i2].keys@[0] == ob[old_j(i2)].keys@[old_m(i2, 0)]);
    }
    assert forall|jj: int| 0 <= jj < nb.len() implies (#[trigger] nb[jj]).keys@.len() > 0 by {
        if ob[j].keys@.len() > 1 && jj != j {
            assert(nb[jj] == ob[jj]);
        }
    }
    assert forall|jj: int, m1: int, m2: int|
        0 <= jj < nb.len() && 0 <= m1 < nb[jj].keys@.len() && 0 <= m2 < nb[jj].keys@.len() && m1 != m2
        implies listing_key(#[trigger] nb[jj].keys@[m1]) != listing_key(#[trigger] nb[jj].keys@[m2]) by {
        assert(nb[jj].keys@[m1] == ob[old_j(jj)].keys@[old_m(jj, m1)]);
        assert(nb[jj].keys@[m2] == ob[old_j(jj)].keys@[old_m(jj, m2)]);
    }
    assert forall|jj: int, mm: int|
        0 <= jj < nb.len() && 0 <= mm < nb[jj].keys@.len()
        implies new_c.has_sale_of(nb[jj].owner_id@, listing_key(#[trigger] nb[jj].keys@[mm])) by {
        let oj = old_j(jj);
        let om = old_m(jj, mm);
        assert(nb[jj].keys@[mm] == ob[oj].keys@[om]);
        assert(listing_key(ob[oj].keys@[om]) != k);
        assert(old_c.has_sale_of(ob[oj].owner_id@, listing_key(ob[oj].keys@[om])));
        let w = choose|w: int|
            0 <= w < old_c.sales@.len() && #[trigger] sale_key(old_c.sales@[w])
                == listing_key(ob[oj].keys@[om]) && old_c.sales@[w].owner_id@ == ob[oj].owner_id@;
        assert(w != i);
        let nw = if w < i { w } else { w - 1 };
        assert(new_c.sales@[nw] == old_c.sales@[w]);
    }
    assert forall|ii: int| 0 <= ii < new_c.sales@.len()
        implies new_c.owner_indexed((#[trigger] new_c.sales@[ii]).owner_id@, sale_key(new_c.sales@[ii])) by {
        let w = if ii < i { ii } else { ii + 1 };
        assert(new_c.sales@[ii] == old_c.sales@[w]);
        assert(sale_key(old_c.sales@[w]) != k);
        assert(old_c.owner_indexed(old_c.sales@[w].owner_id@, sale_key(old_c.sales@[w])));
        let (oj, om) = choose|oj: int, om: int|
            0 <= oj < ob.len() && 0 <= om < ob[oj].keys@.len()
                && ob[oj].owner_id@ == old_c.sales@[w].owner_id@
                && #[trigger] listing_key(ob[oj].keys@[om]) == sale_key(old_c.sales@[w]);
        assert(!(oj == j && om == m));
        let nj = if ob[j].keys@.len() == 1 && oj > j { oj - 1 } else { oj };
        let nm = if ob[j].keys@.len() > 1 && oj == j && om > m { om - 1 } else { om };
        if ob[j].keys@.len() > 1 && oj != j {
            assert(nb[oj] == ob[oj]);
        }
        assert(nb[nj].keys@[nm] == ob[oj].keys@[om]);
    }
}

} // verus!

verus! {

/// The by-contract index stays consistent when sale `i` leaves the table and its asset id
/// leaves position `m` of contract set `j` (the set itself leaving when it held only that id).
proof fn lemma_contract_index_after_remove(old_c: Contract, new_c: Contract, i: int, j: int, m: int)
    requires
        old_c.wf(),
        0 <= i < old_c.sales@.len(),
        new_c.sales@ == old_c.sales@.remove(i),
        0 <= j < old_c.by_contract_id@.len(),
        0 <= m < old_c.by_contract_id@[j].token_ids@.len(),
        old_c.by_contract_id@[j].nft_contract_id@ == old_c.sales@[i].nft_contract_id@,
        old_c.by_contract_id@[j].token_ids@[m]@ == old_c.sales@[i].token_id@,
        old_c.by_contract_id@[j].token_ids@.len() == 1 ==> new_c.by_contract_id@ == old_c.by_contract_id@.remove(j),
        old_c.by_contract_id@[j].token_ids@.len() > 1 ==> {
            &&& new_c.by_contract_id@.len() == old_c.by_contract_id@.len()
            &&& forall|jj: int| 0 <= jj < old_c.by_contract_id@.len() && jj != j
                ==> #[trigger] new_c.by_contract_id@[jj] == old_c.by_contract_id@[jj]
            &&& new_c.by_contract_id@[j].nft_contract_id@ == old_c.by_contract_id@[j].nft_contract_id@
            &&& new_c.by_contract_id@[j].token_ids@ == old_c.by_contract_id@[j].token_ids@.remove(m)
        },
    ensures
        new_c.contract_sets_wf(),
        new_c.contract_index_consistent(),
{
    let k = sale_key(old_c.sales@[i]);
    let ob = old_c.by_contract_id@;
    let nb = new_c.by_contract_id@;
    assert forall|jj: int, mm: int|
        0 <= jj < ob.len() && 0 <= mm < ob[jj].token_ids@.len() && !(jj == j && mm == m)
        implies (ob[jj].nft_contract_id@, (#[trigger] ob[jj].token_ids@[mm])@) != k by {
        if jj != j {
            assert(ob[jj].nft_contract_id@ != ob[j].nft_contract_id@);
        }
    }
    let old_j = |jj: int| if ob[j].token_ids@.len() == 1 && jj >= j { jj + 1 } else { jj };
    let old_m = |jj: int, mm: int| if ob[j].token_ids@.len() > 1 && jj == j && mm >= m { mm + 1 } else { mm };
    assert forall|jj: int, mm: int|
        0 <= jj < nb.len() && 0 <= mm < nb[jj].token_ids@.len()
        implies {
            &&& 0 <= old_j(jj) < ob.len()
            &&& 0 <= old_m(jj, mm) < ob[old_j(jj)].token_ids@.len()
            &&& !(old_j(jj) == j && old_m(jj, mm) == m)
            &&& nb[jj].nft_contract_id@ == ob[old_j(jj)].nft_contract_id@
            &&& #[trigger] nb[jj].token_ids@[mm] == ob[old_j(jj)].token_ids@[old_m(jj, mm)]
        } by {
        if ob[j].token_ids@.len() > 1 && jj != j {
            assert(nb[jj] == ob[jj]);
        }
    }
    assert forall|i1: int, i2: int|
        0 <= i1 < nb.len() && 0 <= i2 < nb.len() && i1 != i2
        implies (#[trigger] nb[i1]).nft_contract_id@ != (#[trigger] nb[i2]).nft_contract_id@ by {
        assert(nb[i1].token_ids@.len() > 0);
        assert(nb[i2].token_ids@.len() > 0);
        assert(nb[i1].token_ids@[0] == ob[old_j(i1)].token_ids@[old_m(i1, 0)]);
        assert(nb[i2].token_ids@[0] == ob[old_j(i2)].token_ids@[old_m(i2, 0)]);
    }
    assert forall|jj: int| 0 <= jj < nb.len() implies (#[trigger] nb[jj]).token_ids@.len() > 0 by {
        if ob[j].token_ids@.len() > 1 && jj != j {
            assert(nb[jj] == ob[jj]);
        }
    }
    assert forall|jj: int, m1: int, m2: int|
        0 <= jj < nb.len() && 0 <= m1 < nb[jj].token_ids@.len() && 0 <= m2 < nb[jj].token_ids@.len() && m1 != m2
        implies (#[trigger] nb[jj].token_ids@[m1])@ != (#[trigger] nb[jj].token_ids@[m2])@ by {
        assert(nb[jj].token_ids@[m1] == ob[old_j(jj)].token_ids@[old_m(jj, m1)]);
        assert(nb[jj].token_ids@[m2] == ob[old_j(jj)].token_ids@[old_m(jj, m2)]);
    }
    assert forall|jj: int, mm: int|
        0 <= jj < nb.len() && 0 <= mm < nb[jj].token_ids@.len()
        implies new_c.has_sale((nb[jj].nft_contract_id@, (#[trigger] nb[jj].token_ids@[mm])@)) by {
        let oj = old_j(jj);
        let om = old_m(jj, mm);
        assert(nb[jj].token_ids@[mm] == ob[oj].token_ids@[om]);
        let key = (ob[oj].nft_contract_id@, ob[oj].token_ids@[om]@);
        assert(key != k);
        assert(old_c.has_sale(key));
        let w = choose|w: int| 0 <= w < old_c.sales@.len() && #[trigger] sale_key(old_c.sales@[w]) == key;
        assert(w != i);
        let nw = if w < i { w } else { w - 1 };
        assert(new_c.sales@[nw] == old_c.sales@[w]);
    }
    assert forall|ii: int| 0 <= ii < new_c.sales@.len()
        implies new_c.contract_indexed((#[trigger] new_c.sales@[ii]).nft_contract_id@, new_c.sales@[ii].token_id@) by {
        let w = if ii < i { ii } else { ii + 1 };
        assert(new_c.sales@[ii] == old_c.sales@[w]);
        assert(sale_key(old_c.sales@[w]) != k);
        assert(old_c.contract_indexed(old_c.sales@[w].nft_contract_id@, old_c.sales@[w].token_id@));
        let (oj, om) = choose|oj: int, om: int|
            0 <= oj < ob.len() && 0 <= om < ob[oj].token_ids@.len()
                && ob[oj].nft_contract_id@ == old_c.sales@[w].nft_contract_id@
                && #[trigger] ob[oj].token_ids@[om]@ == old_c.sales@[w].token_id@;
        assert(!(oj == j && om == m));
        let nj = if ob[j].token_ids@.len() == 1 && oj > j { oj - 1 } else { oj };
        let nm = if ob[j].token_ids@.len() > 1 && oj == j && om > m { om - 1 } else { om };
        if ob[j].token_ids@.len() > 1 && oj != j {
            assert(nb[oj] == ob[oj]);
        }
        assert(nb[nj].token_ids@[nm] == ob[oj].token_ids@[om]);
    }
}

} // verus!

verus! {

impl Contract {
    /// Number of keys in the by-owner set of `o` (zero when there is none).
    pub open spec fn owner_supply(self, o: Seq<char>) -> nat {
        if self.owner_set_present(o) {
            let j = choose|j: int| 0 <= j < self.by_owner_id@.len() && #[trigger] self.by_owner_id@[j].owner_id@ == o;
            self.by_owner_id@[j].keys@.len()
        } else {
            0
        }
    }

    /// Removes the sale with key (`nft_contract_id`, `token_id`) from the table and from both
    /// indexes, deleting an index set that becomes empty, and hands the sale back.
    pub fn internal_remove_sale(&mut self, nft_contract_id: &String, token_id: &String) -> (r: Result<Sale, MarketError>)
        requires
            old(self).wf(),
        ensures
            final(self).wf(),
            final(self).owner_id == old(self).owner_id,
            final(self).uses == old(self).uses,
            final(self).storage_deposit == old(self).storage_deposit,
            match r {
                Ok(s) => {
                    &&& sale_key(s) == (nft_contract_id@, token_id@)
                    &&& exists|i: int|
                        0 <= i < old(self).sales@.len() && old(self).sales@[i] == s
                            && final(self).sales@ == #[trigger] old(self).sales@.remove(i)
                    &&& old(self).has_sale(sale_key(s)) && old(self).sale_of(sale_key(s)) == s
                    &&& !final(self).has_sale(sale_key(s))
                    &&& final(self).sales_agree_except(*old(self), sale_key(s))
                    &&& final(self).owner_supply(s.owner_id@) + 1 == old(self).owner_supply(s.owner_id@)
                    &&& forall|o: Seq<char>| o != s.owner_id@
                        ==> #[trigger] final(self).owner_supply(o) == old(self).owner_supply(o)
                },
                Err(e) => {
                    &&& e == MarketError::NotFound
                    &&& !old(self).has_sale((nft_contract_id@, token_id@))
                    &&& *final(self) == *old(self)
                },
            },
    {
        let i = match self.find_sale(nft_contract_id, token_id) {
            Some(i) => i,
            None => return Err(MarketError::NotFound),
        };
        let ghost old_c = *self;
        let sale = self.sales.remove(i);
        let ghost k = sale_key(sale);
        let ghost o = sale.owner_id@;
        proof {
            assert(old_c.owner_indexed(o, k));
            assert(old_c.contract_indexed(k.0, k.1));
        }
        let ghost (wj, wm) = choose|oj: int, om: int|
            0 <= oj < old_c.by_owner_id@.len() && 0 <= om < old_c.by_owner_id@[oj].keys@.len()
                && old_c.by_owner_id@[oj].owner_id@ == o
                && #[trigger] listing_key(old_c.by_owner_id@[oj].keys@[om]) == k;
        let j = match self.find_owner_set(&sale.owner_id) {
            Some(j) => j,
            None => {
                proof {
                    assert(self.by_owner_id@[wj].owner_id@ == o);
                }
                return Err(MarketError::NotFound);
            },
        };
        assert(j == wj);
        let mut entry = self.by_owner_id.remove(j);
        let m = match find_key(&entry.keys, nft_contract_id, token_id) {
            Some(m) => m,
            None => {
                proof {
                    assert(listing_key(entry.keys@[wm]) == k);
                }
                return Err(MarketError::NotFound);
            },
        };
        entry.keys.remove(m);
        if entry.keys.len() > 0 {
            self.by_owner_id.insert(j, entry);
        }
        let ghost (cj, cm) = choose|oj: int, om: int|
            0 <= oj < old_c.by_contract_id@.len() && 0 <= om < old_c.by_contract_id@[oj].token_ids@.len()
                && old_c.by_contract_id@[oj].nft_contract_id@ == k.0
                && #[trigger] old_c.by_contract_id@[oj].token_ids@[om]@ == k.1;
        let jc = match self.find_contract_set(nft_contract_id) {
            Some(jc) => jc,
            None => {
                proof {
                    assert(self.by_contract_id@[cj].nft_contract_id@ == k.0);
                }
                return Err(MarketError::NotFound);
            },
        };
        assert(jc == cj);
        let mut centry = self.by_contract_id.remove(jc);
        let mc = match find_token(&centry.token_ids, token_id) {
            Some(mc) => mc,
            None => {
                proof {
                    assert(centry.token_ids@[cm]@ == k.1);
                }
                return Err(MarketError::NotFound);
            },
        };
        centry.token_ids.remove(mc);
        if centry.token_ids.len() > 0 {
            self.by_contract_id.insert(jc, centry);
        }
        proof {
            assert(self.sales@ == old_c.sales@.remove(i as int));
            assert(old_c.by_owner_id@[j as int].keys@.len() > 1 ==> forall|jj: int|
                0 <= jj < old_c.by_owner_id@.len() && jj != j ==> #[trigger] self.by_owner_id@[jj]
                    == old_c.by_owner_id@[jj]);
            lemma_owner_index_after_remove(old_c, *self, i as int, j as int, m as int);
            assert(old_c.by_contract_id@[jc as int].token_ids@.len() > 1 ==> forall|jj: int|
                0 <= jj < old_c.by_contract_id@.len() && jj != jc ==> #[trigger] self.by_contract_id@[jj]
                    == old_c.by_contract_id@[jj]);
            lemma_contract_index_after_remove(old_c, *self, i as int, jc as int, mc as int);
            assert(self.sales_unique());
            lemma_supply_after_remove(old_c, *self, j as int, m as int);
            lemma_sales_remove(old_c, *self, i as int);
        }
        Ok(sale)
    }
}

/// How the owner supplies change when key `m` leaves owner set `j`.
proof fn lemma_supply_after_remove(old_c: Contract, new_c: Contract, j: int, m: int)
    requires
        old_c.owner_sets_wf(),
        0 <= j < old_c.by_owner_id@.len(),
        0 <= m < old_c.by_owner_id@[j].keys@.len(),
        old_c.by_owner_id@[j].keys@.len() == 1 ==> new_c.by_owner_id@ == old_c.by_owner_id@.remove(j),
        old_c.by_owner_id@[j].keys@.len() > 1 ==> {
            &&& new_c.by_owner_id@.len() == old_c.by_owner_id@.len()
            &&& forall|jj: int| 0 <= jj < old_c.by_owner_id@.len() && jj != j
                ==> #[trigger] new_c.by_owner_id@[jj] == old_c.by_owner_id@[jj]
            &&& new_c.by_owner_id@[j].owner_id@ == old_c.by_owner_id@[j].owner_id@
            &&& new_c.by_owner_id@[j].keys@ == old_c.by_owner_id@[j].keys@.remove(m)
        },
        new_c.owner_sets_wf(),
    ensures
        new_c.owner_supply(old_c.by_owner_id@[j].owner_id@) + 1 == old_c.owner_supply(old_c.by_owner_id@[j].owner_id@),
        forall|o: Seq<char>| o != old_c.by_owner_id@[j].owner_id@
            ==> #[trigger] new_c.owner_supply(o) == old_c.owner_supply(o),
{
    let ob = old_c.by_owner_id@;
    let nb = new_c.by_owner_id@;
    let o0 = ob[j].owner_id@;
    assert(old_c.owner_set_present(o0));
    if ob[j].keys@.len() == 1 {
        if new_c.owner_set_present(o0) {
            let w = choose|w: int| 0 <= w < nb.len() && #[trigger] nb[w].owner_id@ == o0;
            let ow = if w < j { w } else { w + 1 };
            assert(nb[w] == ob[ow]);
        }
    } else {
        assert(nb[j].owner_id@ == o0);
        assert(new_c.owner_set_present(o0));
    }
    assert forall|o: Seq<char>| o != o0 implies #[trigger] new_c.owner_supply(o) == old_c.owner_supply(o) by {
        if old_c.owner_set_present(o) {
            let w = choose|w: int| 0 <= w < ob.len() && #[trigger] ob[w].owner_id@ == o;
            let nw = if ob[j].keys@.len() == 1 && w > j { w - 1 } else { w };
            assert(w != j);
            assert(nb[nw] == ob[w]);
            assert(new_c.owner_set_present(o));
        }
        if new_c.owner_set_present(o) {
            let w = choose|w: int| 0 <= w < nb.len() && #[trigger] nb[w].owner_id@ == o;
            let ow = if ob[j].keys@.len() == 1 && w >= j { w + 1 } else { w };
            assert(nb[w] == ob[ow]);
            assert(old_c.owner_set_present(o));
        }
    }
}

} // verus!

verus! {

/// The by-owner index stays consistent when a sale with a fresh key joins the table and its
/// key joins the owner's set (a new set when the owner had none).
proof fn lemma_owner_index_after_insert(old_c: Contract, new_c: Contract, s: Sale, j: int)
    requires
        old_c.wf(),
        !old_c.has_sale(sale_key(s)),
        new_c.sales@ == old_c.sales@.push(s),
        0 <= j <= old_c.by_owner_id@.len(),
        j == old_c.by_owner_id@.len() <==> !old_c.owner_set_present(s.owner_id@),
        j == old_c.by_owner_id@.len() ==> {
            &&& new_c.by_owner_id@.len() == j + 1
            &&& new_c.by_owner_id@.take(j) == old_c.by_owner_id@
            &&& new_c.by_owner_id@[j].owner_id@ == s.owner_id@
            &&& new_c.by_owner_id@[j].keys@.len() == 1
            &&& listing_key(new_c.by_owner_id@[j].keys@[0]) == sale_key(s)
        },
        0 <= j < old_c.by_owner_id@.len() ==> {
            &&& new_c.by_owner_id@.len() == old_c.by_owner_id@.len()
            &&& forall|jj: int| 0 <= jj < old_c.by_owner_id@.len() && jj != j
                ==> #[trigger] new_c.by_owner_id@[jj] == old_c.by_owner_id@[jj]
            &&& old_c.by_owner_id@[j].owner_id@ == s.owner_id@
            &&& new_c.by_owner_id@[j].owner_id@ == s.owner_id@
            &&& new_c.by_owner_id@[j].keys@.len() == old_c.by_owner_id@[j].keys@.len() + 1
            &&& new_c.by_owner_id@[j].keys@.drop_last() == old_c.by_owner_id@[j].keys@
            &&& listing_key(new_c.by_owner_id@[j].keys@.last()) == sale_key(s)
        },
    ensures
        new_c.owner_sets_wf(),
        new_c.owner_index_consistent(),
{
    let k = sale_key(s);
    let o = s.owner_id@;
    let ob = old_c.by_owner_id@;
    let nb = new_c.by_owner_id@;
    let n = old_c.sales@.len() as int;
    assert(new_c.sales@[n] == s);
    assert forall|ii: int| 0 <= ii < n implies #[trigger] new_c.sales@[ii] == old_c.sales@[ii] by {}
    assert forall|jj: int| 0 <= jj < ob.len() && jj != j implies #[trigger] nb[jj] == ob[jj] by {
        if j == ob.len() {
            assert(nb.take(j)[jj] == nb[jj]);
        }
    }
    // no entry of the old index holds k
    assert forall|jj: int, mm: int| 0 <= jj < ob.len() && 0 <= mm < ob[jj].keys@.len()
        implies #[trigger] listing_key(ob[jj].keys@[mm]) != k by {
        assert(old_c.has_sale_of(ob[jj].owner_id@, listing_key(ob[jj].keys@[mm])));
    }
    // each new entry is an old one, or k under o
    assert forall|jj: int, mm: int| 0 <= jj < nb.len() && 0 <= mm < nb[jj].keys@.len()
        implies (jj == j && mm == nb[j].keys@.len() - 1 && #[trigger] listing_key(nb[jj].keys@[mm]) == k
            && nb[jj].owner_id@ == o)
            || (jj < ob.len() && mm < ob[jj].keys@.len() && nb[jj].owner_id@ == ob[jj].owner_id@
                && nb[jj].keys@[mm] == ob[jj].keys@[mm]) by {
        if jj < ob.len() && jj != j {
            assert(nb[jj] == ob[jj]);
        } else if jj == j && j < ob.len() && mm < ob[jj].keys@.len() {
            assert(nb[j].keys@.drop_last()[mm] == nb[j].keys@[mm]);
        } else if jj < ob.len() {
            assert(nb[jj].keys@.last() == nb[jj].keys@[mm]);
        } else {
            assert(jj == j);
        }
    }
    assert forall|i1: int, i2: int| 0 <= i1 < nb.len() && 0 <= i2 < nb.len() && i1 != i2
        implies (#[trigger] nb[i1]).owner_id@ != (#[trigger] nb[i2]).owner_id@ by {
        if i1 < ob.len() && i1 != j {
            assert(nb[i1] == ob[i1]);
        }
        if i2 < ob.len() && i2 != j {
            assert(nb[i2] == ob[i2]);
        }
        if i1 == ob.len() && i2 < ob.len() {
            assert(ob[i2].owner_id@ == nb[i2].owner_id@);
        }
        if i2 == ob.len() && i1 < ob.len() {
            assert(ob[i1].owner_id@ == nb[i1].owner_id@);
        }
    }
    assert forall|jj: int| 0 <= jj < nb.len() implies (#[trigger] nb[jj]).keys@.len() > 0 by {
        if jj < ob.len() && jj != j {
            assert(nb[jj] == ob[jj]);
        }
    }
    assert forall|jj: int, m1: int, m2: int|
        0 <= jj < nb.len() && 0 <= m1 < nb[jj].keys@.len() && 0 <= m2 < nb[jj].keys@.len() && m1 != m2
        implies listing_key(#[trigger] nb[jj].keys@[m1]) != listing_key(#[trigger] nb[jj].keys@[m2]) by {
        if jj < ob.len() && jj != j {
            assert(nb[jj] == ob[jj]);
        }
    }
    assert forall|jj: int, mm: int| 0 <= jj < nb.len() && 0 <= mm < nb[jj].keys@.len()
        implies new_c.has_sale_of(nb[jj].owner_id@, listing_key(#[trigger] nb[jj].keys@[mm])) by {
        if jj == j && mm == nb[j].keys@.len() - 1 && listing_key(nb[jj].keys@[mm]) == k && nb[jj].owner_id@ == o {
            assert(sale_key(new_c.sales@[n]) == k);
        } else {
            assert(old_c.has_sale_of(ob[jj].owner_id@, listing_key(ob[jj].keys@[mm])));
            let w = choose|w: int|
                0 <= w < old_c.sales@.len() && #[trigger] sale_key(old_c.sales@[w])
                    == listing_key(ob[jj].keys@[mm]) && old_c.sales@[w].owner_id@ == ob[jj].owner_id@;
            assert(new_c.sales@[w] == old_c.sales@[w]);
        }
    }
    assert forall|ii: int| 0 <= ii < new_c.sales@.len()
        implies new_c.owner_indexed((#[trigger] new_c.sales@[ii]).owner_id@, sale_key(new_c.sales@[ii])) by {
        if ii == n {
            let last = nb[j].keys@.len() - 1;
            assert(listing_key(nb[j].keys@[last]) == k);
        } else {
            assert(new_c.sales@[ii] == old_c.sales@[ii]);
            assert(old_c.owner_indexed(old_c.sales@[ii].owner_id@, sale_key(old_c.sales@[ii])));
            let (oj, om) = choose|oj: int, om: int|
                0 <= oj < ob.len() && 0 <= om < ob[oj].keys@.len()
                    && ob[oj].owner_id@ == old_c.sales@[ii].owner_id@
                    && #[trigger] listing_key(ob[oj].keys@[om]) == sale_key(old_c.sales@[ii]);
            if oj != j {
                assert(nb[oj] == ob[oj]);
            } else {
                assert(nb[j].keys@.drop_last()[om] == nb[j].keys@[om]);
            }
            assert(nb[oj].keys@[om] == ob[oj].keys@[om]);
        }
    }
}

} // verus!

verus! {

/// The by-contract index stays consistent when a sale with a fresh key joins the table and its
/// asset id joins the contract's set (a new set when the contract had none).
proof fn lemma_contract_index_after_insert(old_c: Contract, new_c: Contract, s: Sale, j: int)
    requires
        old_c.wf(),
        !old_c.has_sale(sale_key(s)),
        new_c.sales@ == old_c.sales@.push(s),
        0 <= j <= old_c.by_contract_id@.len(),
        j == old_c.by_contract_id@.len() <==> !old_c.contract_set_present(s.nft_contract_id@),
        j == old_c.by_contract_id@.len() ==> {
            &&& new_c.by_contract_id@.len() == j + 1
            &&& new_c.by_contract_id@.take(j) == old_c.by_contract_id@
            &&& new_c.by_contract_id@[j].nft_contract_id@ == s.nft_contract_id@
            &&& new_c.by_contract_id@[j].token_ids@.len() == 1
            &&& new_c.by_contract_id@[j].token_ids@[0]@ == s.token_id@
        },
        0 <= j < old_c.by_contract_id@.len() ==> {
            &&& new_c.by_contract_id@.len() == old_c.by_contract_id@.len()
            &&& forall|jj: int| 0 <= jj < old_c.by_contract_id@.len() && jj != j
                ==> #[trigger] new_c.by_contract_id@[jj] == old_c.by_contract_id@[jj]
            &&& old_c.by_contract_id@[j].nft_contract_id@ == s.nft_contract_id@
            &&& new_c.by_contract_id@[j].nft_contract_id@ == s.nft_contract_id@
            &&& new_c.by_contract_id@[j].token_ids@.len() == old_c.by_contract_id@[j].token_ids@.len() + 1
            &&& new_c.by_contract_id@[j].token_ids@.drop_last() == old_c.by_contract_id@[j].token_ids@
            &&& new_c.by_contract_id@[j].token_ids@.last()@ == s.token_id@
        },
    ensures
        new_c.contract_sets_wf(),
        new_c.contract_index_consistent(),
{
    let k = sale_key(s);
    let ob = old_c.by_contract_id@;
    let nb = new_c.by_contract_id@;
    let n = old_c.sales@.len() as int;
    assert(new_c.sales@[n] == s);
    assert forall|ii: int| 0 <= ii < n implies #[trigger] new_c.sales@[ii] == old_c.sales@[ii] by {}
    assert forall|jj: int| 0 <= jj < ob.len() && jj != j implies #[trigger] nb[jj] == ob[jj] by {
        if j == ob.len() {
            assert(nb.take(j)[jj] == nb[jj]);
        }
    }
    assert forall|jj: int, mm: int| 0 <= jj < ob.len() && 0 <= mm < ob[jj].token_ids@.len()
        implies (ob[jj].nft_contract_id@, (#[trigger] ob[jj].token_ids@[mm])@) != k by {
        assert(old_c.has_sale((ob[jj].nft_contract_id@, ob[jj].token_ids@[mm]@)));
    }
    assert forall|jj: int, mm: int| 0 <= jj < nb.len() && 0 <= mm < nb[jj].token_ids@.len()
        implies (jj == j && mm == nb[j].token_ids@.len() - 1 && (#[trigger] nb[jj].token_ids@[mm])@ == k.1
            && nb[jj].nft_contract_id@ == k.0)
            || (jj < ob.len() && mm < ob[jj].token_ids@.len() && nb[jj].nft_contract_id@ == ob[jj].nft_contract_id@
                && nb[jj].token_ids@[mm] == ob[jj].token_ids@[mm]) by {
        if jj < ob.len() && jj != j {
            assert(nb[jj] == ob[jj]);
        } else if jj == j && j < ob.len() && mm < ob[jj].token_ids@.len() {
            assert(nb[j].token_ids@.drop_last()[mm] == nb[j].token_ids@[mm]);
        } else if jj < ob.len() {
            assert(nb[jj].token_ids@.last() == nb[jj].token_ids@[mm]);
        } else {
            assert(jj == j);
        }
    }
    assert forall|i1: int, i2: int| 0 <= i1 < nb.len() && 0 <= i2 < nb.len() && i1 != i2
        implies (#[trigger] nb[i1]).nft_contract_id@ != (#[trigger] nb[i2]).nft_contract_id@ by {
        if i1 == ob.len() && i2 < ob.len() {
            assert(ob[i2].nft_contract_id@ == nb[i2].nft_contract_id@);
        }
        if i2 == ob.len() && i1 < ob.len() {
            assert(ob[i1].nft_contract_id@ == nb[i1].nft_contract_id@);
        }
    }
    assert forall|jj: int| 0 <= jj < nb.len() implies (#[trigger] nb[jj]).token_ids@.len() > 0 by {}
    assert forall|jj: int, m1: int, m2: int|
        0 <= jj < nb.len() && 0 <= m1 < nb[jj].token_ids@.len() && 0 <= m2 < nb[jj].token_ids@.len() && m1 != m2
        implies (#[trigger] nb[jj].token_ids@[m1])@ != (#[trigger] nb[jj].token_ids@[m2])@ by {}
    assert forall|jj: int, mm: int| 0 <= jj < nb.len() && 0 <= mm < nb[jj].token_ids@.len()
        implies new_c.has_sale((nb[jj].nft_contract_id@, (#[trigger] nb[jj].token_ids@[mm])@)) by {
        if jj == j && mm == nb[j].token_ids@.len() - 1 && nb[jj].token_ids@[mm]@ == k.1 && nb[jj].nft_contract_id@ == k.0 {
            assert(sale_key(new_c.sales@[n]) == k);
        } else {
            let key = (ob[jj].nft_contract_id@, ob[jj].token_ids@[mm]@);
            assert(old_c.has_sale(key));
            let w = choose|w: int| 0 <= w < old_c.sales@.len() && #[trigger] sale_key(old_c.sales@[w]) == key;
            assert(new_c.sales@[w] == old_c.sales@[w]);
        }
    }
    assert forall|ii: int| 0 <= ii < new_c.sales@.len()
        implies new_c.contract_indexed((#[trigger] new_c.sales@[ii]).nft_contract_id@, new_c.sales@[ii].token_id@) by {
        if ii == n {
            let last = nb[j].token_ids@.len() - 1;
            assert(nb[j].token_ids@[last]@ == k.1);
        } else {
            assert(new_c.sales@[ii] == old_c.sales@[ii]);
            assert(old_c.contract_indexed(old_c.sales@[ii].nft_contract_id@, old_c.sales@[ii].token_id@));
            let (oj, om) = choose|oj: int, om: int|
                0 <= oj < ob.len() && 0 <= om < ob[oj].token_ids@.len()
                    && ob[oj].nft_contract_id@ == old_c.sales@[ii].nft_contract_id@
                    && #[trigger] ob[oj].token_ids@[om]@ == old_c.sales@[ii].token_id@;
            if oj == j {
                assert(nb[j].token_ids@.drop_last()[om] == nb[j].token_ids@[om]);
            }
            assert(nb[oj].token_ids@[om] == ob[oj].token_ids@[om]);
        }
    }
}

} // verus!

verus! {

/// How the owner supplies change when a key joins the set of owner `o` at position `j`.
proof fn lemma_supply_after_insert(old_c: Contract, new_c: Contract, o: Seq<char>, j: int)
    requires
        old_c.owner_sets_wf(),
        new_c.owner_sets_wf(),
        0 <= j <= old_c.by_owner_id@.len(),
        j == old_c.by_owner_id@.len() <==> !old_c.owner_set_present(o),
        j == old_c.by_owner_id@.len() ==> {
            &&& new_c.by_owner_id@.len() == j + 1
            &&& forall|jj: int| 0 <= jj < j ==> #[trigger] new_c.by_owner_id@[jj] == old_c.by_owner_id@[jj]
            &&& new_c.by_owner_id@[j].owner_id@ == o
            &&& new_c.by_owner_id@[j].keys@.len() == 1
        },
        0 <= j < old_c.by_owner_id@.len() ==> {
            &&& new_c.by_owner_id@.len() == old_c.by_owner_id@.len()
            &&& forall|jj: int| 0 <= jj < old_c.by_owner_id@.len() && jj != j
                ==> #[trigger] new_c.by_owner_id@[jj] == old_c.by_owner_id@[jj]
            &&& old_c.by_owner_id@[j].owner_id@ == o
            &&& new_c.by_owner_id@[j].owner_id@ == o
            &&& new_c.by_owner_id@[j].keys@.len() == old_c.by_owner_id@[j].keys@.len() + 1
        },
    ensures
        new_c.owner_supply(o) == old_c.owner_supply(o) + 1,
        forall|p: Seq<char>| p != o ==> #[trigger] new_c.owner_supply(p) == old_c.owner_supply(p),
{
    let ob = old_c.by_owner_id@;
    let nb = new_c.by_owner_id@;
    assert(nb[j].owner_id@ == o);
    assert(new_c.owner_set_present(o));
    assert forall|p: Seq<char>| p != o implies #[trigger] new_c.owner_supply(p) == old_c.owner_supply(p) by {
        if old_c.owner_set_present(p) {
            let w = choose|w: int| 0 <= w < ob.len() && #[trigger] ob[w].owner_id@ == p;
            assert(nb[w] == ob[w]);
            assert(new_c.owner_set_present(p));
        }
        if new_c.owner_set_present(p) {
            let w = choose|w: int| 0 <= w < nb.len() && #[trigger] nb[w].owner_id@ == p;
            assert(w != j);
            assert(nb[w] == ob[w]);
            assert(old_c.owner_set_present(p));
        }
    }
}

impl Contract {
    /// Adds a sale and a use offer for one fresh key, and the key to both indexes
    /// (creating an index set that does not exist yet).
    pub fn internal_create(&mut self, sale: Sale, uses: Uses)
        requires
            old(self).wf(),
            sale_key(sale) == uses_key(uses),
            !old(self).has_sale(sale_key(sale)),
            !old(self).has_use(uses_key(uses)),
        ensures
            final(self).wf(),
            final(self).owner_id == old(self).owner_id,
            final(self).storage_deposit == old(self).storage_deposit,
            final(self).sales@ == old(self).sales@.push(sale),
            final(self).uses@ == old(self).uses@.push(uses),
            final(self).has_sale(sale_key(sale)) && final(self).sale_of(sale_key(sale)) == sale,
            final(self).has_use(sale_key(sale)) && final(self).use_of(sale_key(sale)) == uses,
            final(self).sales_agree_except(*old(self), sale_key(sale)),
            final(self).uses_agree_except(*old(self), sale_key(sale)),
            final(self).owner_supply(sale.owner_id@) == old(self).owner_supply(sale.owner_id@) + 1,
            forall|o: Seq<char>| o != sale.owner_id@
                ==> #[trigger] final(self).owner_supply(o) == old(self).owner_supply(o),
    {
        let ghost old_c = *self;
        let owner = sale.owner_id.clone();
        let contract = sale.nft_contract_id.clone();
        let key = ListingKey { nft_contract_id: sale.nft_contract_id.clone(), token_id: sale.token_id.clone() };
        let token = sale.token_id.clone();
        let ghost s = sale;
        let ghost u = uses;
        self.sales.push(sale);
        self.uses.push(uses);
        let j: usize;
        match self.find_owner_set(&owner) {
            Some(found) => {
                j = found;
                let mut entry = self.by_owner_id.remove(j);
                entry.keys.push(key);
                self.by_owner_id.insert(j, entry);
                assert(self.by_owner_id@[j as int].keys@.drop_last() == old_c.by_owner_id@[j as int].keys@);
            },
            None => {
                j = self.by_owner_id.len();
                let mut keys = Vec::new();
                keys.push(key);
                self.by_owner_id.push(OwnerSales { owner_id: owner, keys });
                assert(self.by_owner_id@.take(j as int) == old_c.by_owner_id@);
            },
        }
        let jc: usize;
        match self.find_contract_set(&contract) {
            Some(found) => {
                jc = found;
                let mut entry = self.by_contract_id.remove(jc);
                entry.token_ids.push(token);
                self.by_contract_id.insert(jc, entry);
                assert(self.by_contract_id@[jc as int].token_ids@.drop_last() == old_c.by_contract_id@[jc as int].token_ids@);
            },
            None => {
                jc = self.by_contract_id.len();
                let mut token_ids = Vec::new();
                token_ids.push(token);
                self.by_contract_id.push(ContractTokens { nft_contract_id: contract, token_ids });
                assert(self.by_contract_id@.take(jc as int) == old_c.by_contract_id@);
            },
        }
        proof {
            lemma_owner_index_after_insert(old_c, *self, s, j as int);
            lemma_contract_index_after_insert(old_c, *self, s, jc as int);
            lemma_supply_after_insert(old_c, *self, s.owner_id@, j as int);
            lemma_sales_push(old_c, *self, s);
            lemma_uses_push(old_c, *self, u);
            let n = old_c.sales@.len() as int;
            assert forall|a: int, b: int|
                0 <= a < self.sales@.len() && 0 <= b < self.sales@.len() && a != b
                implies sale_key(#[trigger] self.sales@[a]) != sale_key(#[trigger] self.sales@[b]) by {
                if a == n {
                    assert(self.sales@[b] == old_c.sales@[b]);
                } else if b == n {
                    assert(self.sales@[a] == old_c.sales@[a]);
                } else {
                    assert(self.sales@[a] == old_c.sales@[a]);
                    assert(self.sales@[b] == old_c.sales@[b]);
                }
            }
            let nu = old_c.uses@.len() as int;
            assert forall|a: int, b: int|
                0 <= a < self.uses@.len() && 0 <= b < self.uses@.len() && a != b
                implies uses_key(#[trigger] self.uses@[a]) != uses_key(#[trigger] self.uses@[b]) by {
                if a == nu {
                    assert(self.uses@[b] == old_c.uses@[b]);
                } else if b == nu {
                    assert(self.uses@[a] == old_c.uses@[a]);
                } else {
                    assert(self.uses@[a] == old_c.uses@[a]);
                    assert(self.uses@[b] == old_c.uses@[b]);
                }
            }
        }
    }
}

} // verus!

verus! {

impl Contract {
    /// Removes the use offer with key (`nft_contract_id`, `token_id`) and hands it back.
    pub fn internal_remove_uses(&mut self, nft_contract_id: &String, token_id: &String) -> (r: Result<Uses, MarketError>)
        requires
            old(self).wf(),
        ensures
            final(self).wf(),
            final(self).owner_id == old(self).owner_id,
            final(self).sales == old(self).sales,
            final(self).by_owner_id == old(self).by_owner_id,
            final(self).by_contract_id == old(self).by_contract_id,
            final(self).storage_deposit == old(self).storage_deposit,
            match r {
                Ok(u) => {
                    &&& uses_key(u) == (nft_contract_id@, token_id@)
                    &&& old(self).has_use(uses_key(u)) && old(self).use_of(uses_key(u)) == u
                    &&& !final(self).has_use(uses_key(u))
                    &&& final(self).uses_agree_except(*old(self), uses_key(u))
                    &&& exists|i: int|
                        0 <= i < old(self).uses@.len() && old(self).uses@[i] == u
                            && final(self).uses@ == #[trigger] old(self).uses@.remove(i)
                },
                Err(e) => {
                    &&& e == MarketError::NotFound
                    &&& !old(self).has_use((nft_contract_id@, token_id@))
                    &&& *final(self) == *old(self)
                },
            },
    {
        let i = match self.find_uses(nft_contract_id, token_id) {
            Some(i) => i,
            None => return Err(MarketError::NotFound),
        };
        let ghost old_c = *self;
        let u = self.uses.remove(i);
        proof {
            assert(self.uses@ == old_c.uses@.remove(i as int));
            assert forall|a: int, b: int|
                0 <= a < self.uses@.len() && 0 <= b < self.uses@.len() && a != b
                implies uses_key(#[trigger] self.uses@[a]) != uses_key(#[trigger] self.uses@[b]) by {
                let oa = if a < i { a } else { a + 1 };
                let ob = if b < i { b } else { b + 1 };
                assert(self.uses@[a] == old_c.uses@[oa]);
                assert(self.uses@[b] == old_c.uses@[ob]);
            }
            lemma_uses_remove(old_c, *self, i as int);
            assert(self.sales@ == old_c.sales@);
            assert(self.by_owner_id@ == old_c.by_owner_id@);
            assert(self.by_contract_id@ == old_c.by_contract_id@);
            assert forall|o: Seq<char>, k: KeyView| #[trigger] self.has_sale_of(o, k) == old_c.has_sale_of(o, k) by {}
            assert forall|k: KeyView| #[trigger] self.has_sale(k) == old_c.has_sale(k) by {}
            assert forall|o: Seq<char>, k: KeyView| #[trigger] self.owner_indexed(o, k) == old_c.owner_indexed(o, k) by {}
            assert forall|c: Seq<char>, t: Seq<char>|
                #[trigger] self.contract_indexed(c, t) == old_c.contract_indexed(c, t) by {}
        }
        Ok(u)
    }
}

} // verus!

verus! {

impl Contract {
    /// The sale listed under key `k` (meaningful when `has_sale(k)`).
    pub open spec fn sale_of(self, k: KeyView) -> Sale {
        let i = choose|i: int| 0 <= i < self.sales@.len() && #[trigger] sale_key(self.sales@[i]) == k;
        self.sales@[i]
    }
}

/// The sales table after position `i` leaves it.
proof fn lemma_sales_remove(old_c: Contract, new_c: Contract, i: int)
    requires
        old_c.sales_unique(),
        0 <= i < old_c.sales@.len(),
        new_c.sales@ == old_c.sales@.remove(i),
    ensures
        old_c.sale_of(sale_key(old_c.sales@[i])) == old_c.sales@[i],
        !new_c.has_sale(sale_key(old_c.sales@[i])),
        forall|k: KeyView| k != sale_key(old_c.sales@[i]) ==> {
            &&& #[trigger] new_c.has_sale(k) == old_c.has_sale(k)
            &&& new_c.has_sale(k) ==> new_c.sale_of(k) == old_c.sale_of(k)
        },
{
    let ki = sale_key(old_c.sales@[i]);
    assert(old_c.has_sale(ki));
    if new_c.has_sale(ki) {
        let w = choose|w: int| 0 <= w < new_c.sales@.len() && #[trigger] sale_key(new_c.sales@[w]) == ki;
        let ow = if w < i { w } else { w + 1 };
        assert(new_c.sales@[w] == old_c.sales@[ow]);
    }
    assert forall|k: KeyView| k != ki implies {
        &&& #[trigger] new_c.has_sale(k) == old_c.has_sale(k)
        &&& new_c.has_sale(k) ==> new_c.sale_of(k) == old_c.sale_of(k)
    } by {
        if old_c.has_sale(k) {
            let w = choose|w: int| 0 <= w < old_c.sales@.len() && #[trigger] sale_key(old_c.sales@[w]) == k;
            let nw = if w < i { w } else { w - 1 };
            assert(new_c.sales@[nw] == old_c.sales@[w]);
        }
        if new_c.has_sale(k) {
            let w = choose|w: int| 0 <= w < new_c.sales@.len() && #[trigger] sale_key(new_c.sales@[w]) == k;
            let ow = if w < i { w } else { w + 1 };
            assert(new_c.sales@[w] == old_c.sales@[ow]);
        }
    }
}

/// The sales table after `s`, with a fresh key, joins it.
proof fn lemma_sales_push(old_c: Contract, new_c: Contract, s: Sale)
    requires
        old_c.sales_unique(),
        !old_c.has_sale(sale_key(s)),
        new_c.sales@ == old_c.sales@.push(s),
    ensures
        new_c.has_sale(sale_key(s)),
        new_c.sale_of(sale_key(s)) == s,
        forall|k: KeyView| k != sale_key(s) ==> {
            &&& #[trigger] new_c.has_sale(k) == old_c.has_sale(k)
            &&& new_c.has_sale(k) ==> new_c.sale_of(k) == old_c.sale_of(k)
        },
{
    let n = old_c.sales@.len() as int;
    assert(new_c.sales@[n] == s);
    assert forall|w: int| 0 <= w < n implies #[trigger] new_c.sales@[w] == old_c.sales@[w] by {}
    let w = choose|w: int| 0 <= w < new_c.sales@.len() && #[trigger] sale_key(new_c.sales@[w]) == sale_key(s);
    if w < n {
        assert(sale_key(old_c.sales@[w]) == sale_key(s));
    }
    assert forall|k: KeyView| k != sale_key(s) implies {
        &&& #[trigger] new_c.has_sale(k) == old_c.has_sale(k)
        &&& new_c.has_sale(k) ==> new_c.sale_of(k) == old_c.sale_of(k)
    } by {
        if old_c.has_sale(k) {
            let w = choose|w: int| 0 <= w < old_c.sales@.len() && #[trigger] sale_key(old_c.sales@[w]) == k;
            assert(new_c.sales@[w] == old_c.sales@[w]);
        }
        if new_c.has_sale(k) {
            let w = choose|w: int| 0 <= w < new_c.sales@.len() && #[trigger] sale_key(new_c.sales@[w]) == k;
            assert(w != n);
            assert(new_c.sales@[w] == old_c.sales@[w]);
        }
    }
}

/// The sales table after position `i` is overwritten by `s`, with the same key.
pub(crate) proof fn lemma_sales_update(old_c: Contract, new_c: Contract, i: int, s: Sale)
    requires
        old_c.sales_unique(),
        0 <= i < old_c.sales@.len(),
        sale_key(s) == sale_key(old_c.sales@[i]),
        new_c.sales@ == old_c.sales@.update(i, s),
    ensures
        old_c.sale_of(sale_key(s)) == old_c.sales@[i],
        new_c.has_sale(sale_key(s)),
        new_c.sale_of(sale_key(s)) == s,
        forall|k: KeyView| k != sale_key(s) ==> {
            &&& #[trigger] new_c.has_sale(k) == old_c.has_sale(k)
            &&& new_c.has_sale(k) ==> new_c.sale_of(k) == old_c.sale_of(k)
        },
{
    assert(old_c.has_sale(sale_key(s)));
    assert(new_c.sales@[i] == s);
    assert(new_c.has_sale(sale_key(s)));
    let w = choose|w: int| 0 <= w < new_c.sales@.len() && #[trigger] sale_key(new_c.sales@[w]) == sale_key(s);
    if w != i {
        assert(new_c.sales@[w] == old_c.sales@[w]);
    }
    assert forall|k: KeyView| k != sale_key(s) implies {
        &&& #[trigger] new_c.has_sale(k) == old_c.has_sale(k)
        &&& new_c.has_sale(k) ==> new_c.sale_of(k) == old_c.sale_of(k)
    } by {
        if old_c.has_sale(k) {
            let w = choose|w: int| 0 <= w < old_c.sales@.len() && #[trigger] sale_key(old_c.sales@[w]) == k;
            assert(new_c.sales@[w] == old_c.sales@[w]);
        }
        if new_c.has_sale(k) {
            let w = choose|w: int| 0 <= w < new_c.sales@.len() && #[trigger] sale_key(new_c.sales@[w]) == k;
            assert(new_c.sales@[w] == old_c.sales@[w]);
        }
    }
}

} // verus!

verus! {

impl Contract {
    /// The use offer listed under key `k` (meaningful when `has_use(k)`).
    pub open spec fn use_of(self, k: KeyView) -> Uses {
        let i = choose|i: int| 0 <= i < self.uses@.len() && #[trigger] uses_key(self.uses@[i]) == k;
        self.uses@[i]
    }
}

/// The use-offer table after position `i` leaves it.
proof fn lemma_uses_remove(old_c: Contract, new_c: Contract, i: int)
    requires
        old_c.uses_unique(),
        0 <= i < old_c.uses@.len(),
        new_c.uses@ == old_c.uses@.remove(i),
    ensures
        old_c.use_of(uses_key(old_c.uses@[i])) == old_c.uses@[i],
        !new_c.has_use(uses_key(old_c.uses@[i])),
        forall|k: KeyView| k != uses_key(old_c.uses@[i]) ==> {
            &&& #[trigger] new_c.has_use(k) == old_c.has_use(k)
            &&& new_c.has_use(k) ==> new_c.use_of(k) == old_c.use_of(k)
        },
{
    let ki = uses_key(old_c.uses@[i]);
    assert(old_c.has_use(ki));
    if new_c.has_use(ki) {
        let w = choose|w: int| 0 <= w < new_c.uses@.len() && #[trigger] uses_key(new_c.uses@[w]) == ki;
        let ow = if w < i { w } else { w + 1 };
        assert(new_c.uses@[w] == old_c.uses@[ow]);
    }
    assert forall|k: KeyView| k != ki implies {
        &&& #[trigger] new_c.has_use(k) == old_c.has_use(k)
        &&& new_c.has_use(k) ==> new_c.use_of(k) == old_c.use_of(k)
    } by {
        if old_c.has_use(k) {
            let w = choose|w: int| 0 <= w < old_c.uses@.len() && #[trigger] uses_key(old_c.uses@[w]) == k;
            let nw = if w < i { w } else { w - 1 };
            assert(new_c.uses@[nw] == old_c.uses@[w]);
        }
        if new_c.has_use(k) {
            let w = choose|w: int| 0 <= w < new_c.uses@.len() && #[trigger] uses_key(new_c.uses@[w]) == k;
            let ow = if w < i { w } else { w + 1 };
            assert(new_c.uses@[w] == old_c.uses@[ow]);
        }
    }
}

/// The use-offer table after `s`, with a fresh key, joins it.
proof fn lemma_uses_push(old_c: Contract, new_c: Contract, s: Uses)
    requires
        old_c.uses_unique(),
        !old_c.has_use(uses_key(s)),
        new_c.uses@ == old_c.uses@.push(s),
    ensures
        new_c.has_use(uses_key(s)),
        new_c.use_of(uses_key(s)) == s,
        forall|k: KeyView| k != uses_key(s) ==> {
            &&& #[trigger] new_c.has_use(k) == old_c.has_use(k)
            &&& new_c.has_use(k) ==> new_c.use_of(k) == old_c.use_of(k)
        },
{
    let n = old_c.uses@.len() as int;
    assert(new_c.uses@[n] == s);
    assert forall|w: int| 0 <= w < n implies #[trigger] new_c.uses@[w] == old_c.uses@[w] by {}
    let w = choose|w: int| 0 <= w < new_c.uses@.len() && #[trigger] uses_key(new_c.uses@[w]) == uses_key(s);
    if w < n {
        assert(uses_key(old_c.uses@[w]) == uses_key(s));
    }
    assert forall|k: KeyView| k != uses_key(s) implies {
        &&& #[trigger] new_c.has_use(k) == old_c.has_use(k)
        &&& new_c.has_use(k) ==> new_c.use_of(k) == old_c.use_of(k)
    } by {
        if old_c.has_use(k) {
            let w = choose|w: int| 0 <= w < old_c.uses@.len() && #[trigger] uses_key(old_c.uses@[w]) == k;
            assert(new_c.uses@[w] == old_c.uses@[w]);
        }
        if new_c.has_use(k) {
            let w = choose|w: int| 0 <= w < new_c.uses@.len() && #[trigger] uses_key(new_c.uses@[w]) == k;
            assert(w != n);
            assert(new_c.uses@[w] == old_c.uses@[w]);
        }
    }
}

/// The use-offer table after position `i` is overwritten by `s`, with the same key.
pub(crate) proof fn lemma_uses_update(old_c: Contract, new_c: Contract, i: int, s: Uses)
    requires
        old_c.uses_unique(),
        0 <= i < old_c.uses@.len(),
        uses_key(s) == uses_key(old_c.uses@[i]),
        new_c.uses@ == old_c.uses@.update(i, s),
    ensures
        old_c.use_of(uses_key(s)) == old_c.uses@[i],
        new_c.has_use(uses_key(s)),
        new_c.use_of(uses_key(s)) == s,
        forall|k: KeyView| k != uses_key(s) ==> {
            &&& #[trigger] new_c.has_use(k) == old_c.has_use(k)
            &&& new_c.has_use(k) ==> new_c.use_of(k) == old_c.use_of(k)
        },
{
    assert(old_c.has_use(uses_key(s)));
    assert(new_c.uses@[i] == s);
    assert(new_c.has_use(uses_key(s)));
    let w = choose|w: int| 0 <= w < new_c.uses@.len() && #[trigger] uses_key(new_c.uses@[w]) == uses_key(s);
    if w != i {
        assert(new_c.uses@[w] == old_c.uses@[w]);
    }
    assert forall|k: KeyView| k != uses_key(s) implies {
        &&& #[trigger] new_c.has_use(k) == old_c.has_use(k)
        &&& new_c.has_use(k) ==> new_c.use_of(k) == old_c.use_of(k)
    } by {
        if old_c.has_use(k) {
            let w = choose|w: int| 0 <= w < old_c.uses@.len() && #[trigger] uses_key(old_c.uses@[w]) == k;
            assert(new_c.uses@[w] == old_c.uses@[w]);
        }
        if new_c.has_use(k) {
            let w = choose|w: int| 0 <= w < new_c.uses@.len() && #[trigger] uses_key(new_c.uses@[w]) == k;
            assert(new_c.uses@[w] == old_c.uses@[w]);
        }
    }
}

} // verus!

verus! {

/// `s` with its price replaced.
pub open spec fn sale_with_price(s: Sale, price: u128) -> Sale {
    Sale { sale_conditions: price, ..s }
}

/// `u` with its price replaced.
pub open spec fn uses_with_price(u: Uses, price: u128) -> Uses {
    Uses { use_conditions: price, ..u }
}

impl Contract {
    /// Overwrites the price of the sale at position `i`, leaving the indexes as they are.
    pub fn internal_set_sale_price(&mut self, i: usize, price: u128)
        requires
            old(self).wf(),
            i < old(self).sales@.len(),
        ensures
            final(self).wf(),
            final(self).owner_id == old(self).owner_id,
            final(self).uses == old(self).uses,
            final(self).by_owner_id == old(self).by_owner_id,
            final(self).by_contract_id == old(self).by_contract_id,
            final(self).storage_deposit == old(self).storage_deposit,
            final(self).sales@ == old(self).sales@.update(i as int, sale_with_price(old(self).sales@[i as int], price)),
    {
        let ghost old_c = *self;
        let mut s = self.sales.remove(i);
        s.sale_conditions = price;
        self.sales.insert(i, s);
        proof {
            let ns = self.sales@;
            let os = old_c.sales@;
            assert(ns == os.update(i as int, sale_with_price(os[i as int], price)));
            assert forall|ii: int| 0 <= ii < ns.len()
                implies sale_key(#[trigger] ns[ii]) == sale_key(os[ii]) && ns[ii].owner_id == os[ii].owner_id by {}
            assert forall|o: Seq<char>, k: KeyView| #[trigger] self.has_sale_of(o, k) == old_c.has_sale_of(o, k) by {
                if self.has_sale_of(o, k) {
                    let w = choose|w: int| 0 <= w < ns.len() && #[trigger] sale_key(ns[w]) == k && ns[w].owner_id@ == o;
                    assert(sale_key(os[w]) == k);
                }
                if old_c.has_sale_of(o, k) {
                    let w = choose|w: int| 0 <= w < os.len() && #[trigger] sale_key(os[w]) == k && os[w].owner_id@ == o;
                    assert(sale_key(ns[w]) == k);
                }
            }
            assert forall|k: KeyView| #[trigger] self.has_sale(k) == old_c.has_sale(k) by {
                if self.has_sale(k) {
                    let w = choose|w: int| 0 <= w < ns.len() && #[trigger] sale_key(ns[w]) == k;
                    assert(sale_key(os[w]) == k);
                }
                if old_c.has_sale(k) {
                    let w = choose|w: int| 0 <= w < os.len() && #[trigger] sale_key(os[w]) == k;
                    assert(sale_key(ns[w]) == k);
                }
            }
            assert(self.by_owner_id@ == old_c.by_owner_id@);
            assert(self.by_contract_id@ == old_c.by_contract_id@);
            assert(self.uses@ == old_c.uses@);
            assert(self.storage_deposit@ == old_c.storage_deposit@);
            assert forall|o: Seq<char>, k: KeyView| #[trigger] self.owner_indexed(o, k) == old_c.owner_indexed(o, k) by {}
            assert forall|c: Seq<char>, t: Seq<char>|
                #[trigger] self.contract_indexed(c, t) == old_c.contract_indexed(c, t) by {}
            assert forall|ii: int| 0 <= ii < ns.len()
                implies self.owner_indexed((#[trigger] ns[ii]).owner_id@, sale_key(ns[ii])) by {
                assert(old_c.owner_indexed(os[ii].owner_id@, sale_key(os[ii])));
            }
            assert forall|ii: int| 0 <= ii < ns.len()
                implies self.contract_indexed((#[trigger] ns[ii]).nft_contract_id@, ns[ii].token_id@) by {
                assert(old_c.contract_indexed(os[ii].nft_contract_id@, os[ii].token_id@));
            }
        }
    }

    /// Overwrites the price of the use offer at position `i`.
    pub fn internal_set_use_price(&mut self, i: usize, price: u128)
        requires
            old(self).wf(),
            i < old(self).uses@.len(),
        ensures
            final(self).wf(),
            final(self).owner_id == old(self).owner_id,
            final(self).sales == old(self).sales,
            final(self).by_owner_id == old(self).by_owner_id,
            final(self).by_contract_id == old(self).by_contract_id,
            final(self).storage_deposit == old(self).storage_deposit,
            final(self).uses@ == old(self).uses@.update(i as int, uses_with_price(old(self).uses@[i as int], price)),
    {
        let ghost old_c = *self;
        let mut u = self.uses.remove(i);
        u.use_conditions = price;
        self.uses.insert(i, u);
        proof {
            let ns = self.uses@;
            let os = old_c.uses@;
            assert(ns == os.update(i as int, uses_with_price(os[i as int], price)));
            assert forall|ii: int| 0 <= ii < ns.len() implies uses_key(#[trigger] ns[ii]) == uses_key(os[ii]) by {}
            assert(self.sales@ == old_c.sales@);
            assert(self.by_owner_id@ == old_c.by_owner_id@);
            assert(self.by_contract_id@ == old_c.by_contract_id@);
            assert(self.storage_deposit@ == old_c.storage_deposit@);
            assert forall|o: Seq<char>, k: KeyView| #[trigger] self.has_sale_of(o, k) == old_c.has_sale_of(o, k) by {}
            assert forall|k: KeyView| #[trigger] self.has_sale(k) == old_c.has_sale(k) by {}
            assert forall|o: Seq<char>, k: KeyView| #[trigger] self.owner_indexed(o, k) == old_c.owner_indexed(o, k) by {}
            assert forall|c: Seq<char>, t: Seq<char>|
                #[trigger] self.contract_indexed(c, t) == old_c.contract_indexed(c, t) by {}
        }
    }
}

} // verus!
