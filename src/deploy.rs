use vstd::prelude::*;

use crate::{Contract, page_bounds, page_len, page_start};
use crate::sale_view::page_of;

verus! {

/// A market contract deployed for a creator, with where its front end lives.
pub struct DeployedSmartContract {
    pub contract_deploy_address: String,
    pub frontend_address: String,
    pub contract_name: String,
}

/// The contracts recorded for one creator, each once.
pub struct CreatorContracts {
    pub creator_id: String,
    pub contracts: Vec<DeployedSmartContract>,
}

/// What tells two deployment records apart.
pub open spec fn deployed_key(d: DeployedSmartContract) -> (Seq<char>, Seq<char>, Seq<char>) {
    (d.contract_deploy_address@, d.frontend_address@, d.contract_name@)
}

impl DeployedSmartContract {
    /// A copy of this record.
    pub fn duplicate(&self) -> (r: DeployedSmartContract)
        ensures
            r == *self,
    {
        DeployedSmartContract {
            contract_deploy_address: self.contract_deploy_address.clone(),
            frontend_address: self.frontend_address.clone(),
            contract_name: self.contract_name.clone(),
        }
    }

    fn same_as(&self, other: &DeployedSmartContract) -> (r: bool)
        ensures
            r == (deployed_key(*self) == deployed_key(*other)),
    {
        self.contract_deploy_address == other.contract_deploy_address
            && self.frontend_address == other.frontend_address
            && self.contract_name == other.contract_name
    }
}

impl Contract {
    /// One record list per creator.
    pub open spec fn creators_unique(self) -> bool {
        forall|i: int, j: int|
            0 <= i < self.creates@.len() && 0 <= j < self.creates@.len() && i != j
                ==> (#[trigger] self.creates@[i]).creator_id@ != (#[trigger] self.creates@[j]).creator_id@
    }

    /// Creator `c` has a record list.
    pub open spec fn has_creator(self, c: Seq<char>) -> bool {
        exists|j: int| 0 <= j < self.creates@.len() && #[trigger] self.creates@[j].creator_id@ == c
    }

    /// The contracts recorded for creator `c`.
    pub open spec fn created_by(self, c: Seq<char>) -> Seq<DeployedSmartContract> {
        if self.has_creator(c) {
            let j = choose|j: int| 0 <= j < self.creates@.len() && #[trigger] self.creates@[j].creator_id@ == c;
            self.creates@[j].contracts@
        } else {
            Seq::empty()
        }
    }

    proof fn lemma_created_at(self, j: int)
        requires
            self.creators_unique(),
            0 <= j < self.creates@.len(),
        ensures
            self.has_creator(self.creates@[j].creator_id@),
            self.created_by(self.creates@[j].creator_id@) == self.creates@[j].contracts@,
    {
        let c = self.creates@[j].creator_id@;
        assert(self.has_creator(c));
        let w = choose|w: int| 0 <= w < self.creates@.len() && #[trigger] self.creates@[w].creator_id@ == c;
        assert(w == j);
    }

    fn find_creator(&self, c: &String) -> (r: Option<usize>)
        ensures
            match r {
                Some(j) => j < self.creates@.len() && self.creates@[j as int].creator_id@ == c@,
                None => !self.has_creator(c@),
            },
    {
        let mut j: usize = 0;
        while j < self.creates.len()
            invariant
                j <= self.creates@.len(),
                forall|k: int| 0 <= k < j ==> (#[trigger] self.creates@[k]).creator_id@ != c@,
            decreases self.creates@.len() - j,
        {
            if self.creates[j].creator_id == *c {
                return Some(j);
            }
            j = j + 1;
        }
        None
    }

    /// Records `contract_deploy_address` as deployed for `creator_id`, unless the same record
    /// is there already.
    pub fn create_smart_contract(
        &mut self,
        creator_id: String,
        contract_deploy_address: String,
        frontend_address: String,
        contract_name: String,
    ) -> (r: ())
        requires
            old(self).wf(),
        ensures
            final(self).wf(),
            final(self).owner_id == old(self).owner_id,
            final(self).sales == old(self).sales,
            final(self).uses == old(self).uses,
            final(self).by_owner_id == old(self).by_owner_id,
            final(self).by_contract_id == old(self).by_contract_id,
            final(self).storage_deposit == old(self).storage_deposit,
            ({
                let d = (contract_deploy_address@, frontend_address@, contract_name@);
                let before = old(self).created_by(creator_id@);
                &&& (exists|i: int| 0 <= i < before.len() && #[trigger] deployed_key(before[i]) == d)
                    ==> final(self).created_by(creator_id@) == before
                &&& !(exists|i: int| 0 <= i < before.len() && #[trigger] deployed_key(before[i]) == d)
                    ==> final(self).created_by(creator_id@).len() == before.len() + 1
                    && final(self).created_by(creator_id@).drop_last() == before
                    && deployed_key(final(self).created_by(creator_id@).last()) == d
            }),
            forall|c: Seq<char>| c != creator_id@
                ==> #[trigger] final(self).created_by(c) == old(self).created_by(c),
    {
        let ghost old_c = *self;
        let ghost dk = (contract_deploy_address@, frontend_address@, contract_name@);
        let d = DeployedSmartContract {
            contract_deploy_address: contract_deploy_address.clone(),
            frontend_address: frontend_address.clone(),
            contract_name: contract_name.clone(),
        };
        let j: usize;
        match self.find_creator(&creator_id) {
            Some(found) => {
                j = found;
                proof {
                    old_c.lemma_created_at(j as int);
                }
                let mut k: usize = 0;
                let n = self.creates[j].contracts.len();
                while k < n
                    invariant
                        *self == old_c,
                        *old(self) == old_c,
                        old_c.wf(),
                        deployed_key(d) == dk,
                        dk == (contract_deploy_address@, frontend_address@, contract_name@),
                        creator_id@ == old_c.creates@[j as int].creator_id@,
                        old_c.created_by(creator_id@) == old_c.creates@[j as int].contracts@,
                        j < self.creates@.len(),
                        n == self.creates@[j as int].contracts@.len(),
                        k <= n,
                        forall|m: int| 0 <= m < k
                            ==> deployed_key(#[trigger] self.creates@[j as int].contracts@[m]) != deployed_key(d),
                    decreases n - k,
                {
                    if self.creates[j].contracts[k].same_as(&d) {
                        proof {
                            let before = old(self).created_by(creator_id@);
                            assert(before == self.creates@[j as int].contracts@);
                            assert(0 <= k < before.len());
                            assert(deployed_key(before[k as int]) == dk);
                        }
                        return;
                    }
                    k = k + 1;
                }
                let mut entry = self.creates.remove(j);
                entry.contracts.push(d);
                self.creates.insert(j, entry);
                proof {
                    assert forall|i: int| 0 <= i < self.creates@.len() && i != j
                        implies #[trigger] self.creates@[i] == old_c.creates@[i] by {}
                }
            },
            None => {
                j = self.creates.len();
                let mut contracts = Vec::new();
                contracts.push(d);
                self.creates.push(CreatorContracts { creator_id, contracts });
                proof {
                    assert forall|i: int| 0 <= i < old_c.creates@.len()
                        implies #[trigger] self.creates@[i] == old_c.creates@[i] by {}
                    assert(self.creates@[j as int].contracts@.drop_last() =~= Seq::<DeployedSmartContract>::empty());
                }
            },
        }
        proof {
            let oc = old_c.creates@;
            let nc = self.creates@;
            assert forall|a: int, b: int| 0 <= a < nc.len() && 0 <= b < nc.len() && a != b
                implies (#[trigger] nc[a]).creator_id@ != (#[trigger] nc[b]).creator_id@ by {
                if a < oc.len() && a != j {
                    assert(nc[a] == oc[a]);
                }
                if b < oc.len() && b != j {
                    assert(nc[b] == oc[b]);
                }
                if a == oc.len() && b < oc.len() {
                    assert(oc[b].creator_id@ == nc[b].creator_id@);
                }
                if b == oc.len() && a < oc.len() {
                    assert(oc[a].creator_id@ == nc[a].creator_id@);
                }
            }
            self.lemma_created_at(j as int);
            assert forall|c: Seq<char>| c != self.creates@[j as int].creator_id@
                implies #[trigger] self.created_by(c) == old_c.created_by(c) by {
                if old_c.has_creator(c) {
                    let w = choose|w: int| 0 <= w < oc.len() && #[trigger] oc[w].creator_id@ == c;
                    old_c.lemma_created_at(w);
                    assert(nc[w] == oc[w]);
                    self.lemma_created_at(w);
                }
                if self.has_creator(c) {
                    let w = choose|w: int| 0 <= w < nc.len() && #[trigger] nc[w].creator_id@ == c;
                    assert(w != j);
                    assert(nc[w] == oc[w]);
                    assert(old_c.has_creator(c));
                }
            }
            assert(self.sales@ == old_c.sales@);
            assert(self.uses@ == old_c.uses@);
            assert(self.by_owner_id@ == old_c.by_owner_id@);
            assert(self.by_contract_id@ == old_c.by_contract_id@);
            assert(self.storage_deposit@ == old_c.storage_deposit@);
            assert forall|o: Seq<char>, k: crate::KeyView| #[trigger] self.has_sale_of(o, k) == old_c.has_sale_of(o, k) by {}
            assert forall|k: crate::KeyView| #[trigger] self.has_sale(k) == old_c.has_sale(k) by {}
            assert forall|o: Seq<char>, k: crate::KeyView| #[trigger] self.owner_indexed(o, k) == old_c.owner_indexed(o, k) by {}
            assert forall|ct: Seq<char>, t: Seq<char>|
                #[trigger] self.contract_indexed(ct, t) == old_c.contract_indexed(ct, t) by {}
        }
    }

    /// A page of the contracts recorded for `creator_id`.
    pub fn get_created_contract_by_creator(&self, creator_id: &String, from_index: Option<u128>, limit: Option<u64>) -> (r: Vec<DeployedSmartContract>)
        requires
            self.wf(),
        ensures
            r@ == page_of(self.created_by(creator_id@), page_start(from_index),
                page_len(self.created_by(creator_id@).len() as int, page_start(from_index), limit)),
    {
        let j = match self.find_creator(creator_id) {
            Some(j) => j,
            None => return Vec::new(),
        };
        proof {
            self.lemma_created_at(j as int);
        }
        let list = &self.creates[j].contracts;
        let (start, end) = page_bounds(list.len(), from_index, limit);
        let mut out: Vec<DeployedSmartContract> = Vec::new();
        let mut i: usize = start;
        while i < end
            invariant
                list@ == self.created_by(creator_id@),
                start <= i <= end <= list@.len(),
                out@ == list@.subrange(start as int, i as int),
            decreases end - i,
        {
            out.push(list[i].duplicate());
            i = i + 1;
            assert(out@ == list@.subrange(start as int, i as int));
        }
        assert(out@ =~= page_of(list@, page_start(from_index), page_len(list@.len() as int, page_start(from_index), limit)));
        out
    }
}

} // verus!
