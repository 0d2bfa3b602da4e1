use vstd::prelude::*;

use crate::{Contract, ListingKey, Sale, listing_key, page_bounds, page_len, page_start};

verus! {

impl Contract {
    /// Number of asset ids in the by-contract set of `c` (zero when there is none).
    pub open spec fn contract_supply(self, c: Seq<char>) -> nat {
        if self.contract_set_present(c) {
            let j = choose|j: int|
                0 <= j < self.by_contract_id@.len() && #[trigger] self.by_contract_id@[j].nft_contract_id@ == c;
            self.by_contract_id@[j].token_ids@.len()
        } else {
            0
        }
    }

    /// Number of active sales.
    pub fn get_supply_sales(&self) -> (r: u128)
        ensures
            r == self.sales@.len(),
    {
        self.sales.len() as u128
    }

    /// Number of active sales of `owner_id`, read from the by-owner index.
    pub fn get_supply_by_owner_id(&self, owner_id: &String) -> (r: u128)
        requires
            self.wf(),
        ensures
            r == self.owner_supply(owner_id@),
            r <= usize::MAX,
    {
        match self.find_owner_set(owner_id) {
            Some(j) => {
                proof {
                    let w = choose|w: int|
                        0 <= w < self.by_owner_id@.len() && #[trigger] self.by_owner_id@[w].owner_id@ == owner_id@;
                    assert(w == j);
                }
                self.by_owner_id[j].keys.len() as u128
            },
            None => 0,
        }
    }

    /// Number of active sales under asset contract `contract_id`, read from the by-contract index.
    pub fn get_supply_by_contract_id(&self, contract_id: &String) -> (r: u128)
        requires
            self.wf(),
        ensures
            r == self.contract_supply(contract_id@),
    {
        match self.find_contract_set(contract_id) {
            Some(j) => {
                proof {
                    let w = choose|w: int|
                        0 <= w < self.by_contract_id@.len()
                            && #[trigger] self.by_contract_id@[w].nft_contract_id@ == contract_id@;
                    assert(w == j);
                }
                self.by_contract_id[j].token_ids.len() as u128
            },
            None => 0,
        }
    }
}

} // verus!

verus! {

/// The items of `s` from `start`, `len` of them.
pub open spec fn page_of<T>(s: Seq<T>, start: int, len: int) -> Seq<T> {
    if len <= 0 {
        Seq::empty()
    } else {
        s.subrange(start, start + len)
    }
}

impl Contract {
    /// A page of the active sales.
    pub fn get_sales(&self, from_index: Option<u128>, limit: Option<u64>) -> (r: Vec<Sale>)
        ensures
            r@ == page_of(self.sales@, page_start(from_index),
                page_len(self.sales@.len() as int, page_start(from_index), limit)),
    {
        let (start, end) = page_bounds(self.sales.len(), from_index, limit);
        let mut out: Vec<Sale> = Vec::new();
        let mut i: usize = start;
        while i < end
            invariant
                start <= i <= end <= self.sales@.len(),
                out@ == self.sales@.subrange(start as int, i as int),
            decreases end - i,
        {
            out.push(self.sales[i].duplicate());
            i = i + 1;
            assert(out@ == self.sales@.subrange(start as int, i as int));
        }
        assert(out@ =~= page_of(self.sales@, page_start(from_index),
            page_len(self.sales@.len() as int, page_start(from_index), limit)));
        out
    }

    /// A page of the sales of `account_id`, in the order of its by-owner set.
    pub fn get_sale_by_owner_id(&self, account_id: &String, from_index: Option<u128>, limit: Option<u64>) -> (r: Vec<Sale>)
        requires
            self.wf(),
        ensures
            !self.owner_set_present(account_id@) ==> r@.len() == 0,
            self.owner_set_present(account_id@) ==> {
                let keys = self.owner_keys(account_id@);
                let start = page_start(from_index);
                &&& r@.len() == page_len(keys.len() as int, start, limit)
                &&& forall|i: int| 0 <= i < r@.len()
                    ==> #[trigger] r@[i] == self.sale_of(listing_key(keys[start + i]))
            },
    {
        let j = match self.find_owner_set(account_id) {
            Some(j) => j,
            None => return Vec::new(),
        };
        proof {
            let w = choose|w: int|
                0 <= w < self.by_owner_id@.len() && #[trigger] self.by_owner_id@[w].owner_id@ == account_id@;
            assert(w == j);
        }
        let keys = &self.by_owner_id[j].keys;
        let (start, end) = page_bounds(keys.len(), from_index, limit);
        let mut out: Vec<Sale> = Vec::new();
        let mut i: usize = start;
        while i < end
            invariant
                self.wf(),
                j < self.by_owner_id@.len(),
                keys@ == self.by_owner_id@[j as int].keys@,
                start <= i <= end <= keys@.len(),
                out@.len() == i - start,
                forall|n: int| 0 <= n < out@.len()
                    ==> #[trigger] out@[n] == self.sale_of(listing_key(keys@[start + n])),
            decreases end - i,
        {
            proof {
                assert(self.has_sale_of(self.by_owner_id@[j as int].owner_id@, listing_key(keys@[i as int])));
            }
            let s = match self.find_sale(&keys[i].nft_contract_id, &keys[i].token_id) {
                Some(si) => {
                    proof {
                        self.lemma_sale_at(si as int);
                    }
                    self.sales[si].duplicate()
                },
                None => {
                    proof {
                        assert(false);
                    }
                    return out;
                },
            };
            out.push(s);
            i = i + 1;
        }
        out
    }

    /// A page of the sales under asset contract `contract_id`, in the order of its
    /// by-contract set.
    pub fn get_sales_by_cotnract_id(&self, contract_id: &String, from_index: Option<u128>, limit: Option<u64>) -> (r: Vec<Sale>)
        requires
            self.wf(),
        ensures
            !self.contract_set_present(contract_id@) ==> r@.len() == 0,
            self.contract_set_present(contract_id@) ==> {
                let ids = self.contract_tokens(contract_id@);
                let start = page_start(from_index);
                &&& r@.len() == page_len(ids.len() as int, start, limit)
                &&& forall|i: int| 0 <= i < r@.len()
                    ==> #[trigger] r@[i] == self.sale_of((contract_id@, ids[start + i]@))
            },
    {
        let j = match self.find_contract_set(contract_id) {
            Some(j) => j,
            None => return Vec::new(),
        };
        proof {
            let w = choose|w: int|
                0 <= w < self.by_contract_id@.len() && #[trigger] self.by_contract_id@[w].nft_contract_id@ == contract_id@;
            assert(w == j);
        }
        let ids = &self.by_contract_id[j].token_ids;
        let (start, end) = page_bounds(ids.len(), from_index, limit);
        let mut out: Vec<Sale> = Vec::new();
        let mut i: usize = start;
        while i < end
            invariant
                self.wf(),
                j < self.by_contract_id@.len(),
                self.by_contract_id@[j as int].nft_contract_id@ == contract_id@,
                ids@ == self.by_contract_id@[j as int].token_ids@,
                start <= i <= end <= ids@.len(),
                out@.len() == i - start,
                forall|n: int| 0 <= n < out@.len()
                    ==> #[trigger] out@[n] == self.sale_of((contract_id@, ids@[start + n]@)),
            decreases end - i,
        {
            proof {
                assert(self.has_sale((self.by_contract_id@[j as int].nft_contract_id@, ids@[i as int]@)));
            }
            let s = match self.find_sale(contract_id, &ids[i]) {
                Some(si) => {
                    proof {
                        self.lemma_sale_at(si as int);
                    }
                    self.sales[si].duplicate()
                },
                None => {
                    proof {
                        assert(false);
                    }
                    return out;
                },
            };
            out.push(s);
            i = i + 1;
        }
        out
    }

    /// The keys of the by-owner set of `o`.
    pub open spec fn owner_keys(self, o: Seq<char>) -> Seq<ListingKey> {
        let j = choose|j: int| 0 <= j < self.by_owner_id@.len() && #[trigger] self.by_owner_id@[j].owner_id@ == o;
        self.by_owner_id@[j].keys@
    }

    /// The asset ids of the by-contract set of `c`.
    pub open spec fn contract_tokens(self, c: Seq<char>) -> Seq<String> {
        let j = choose|j: int|
            0 <= j < self.by_contract_id@.len() && #[trigger] self.by_contract_id@[j].nft_contract_id@ == c;
        self.by_contract_id@[j].token_ids@
    }
}

} // verus!
