use vstd::prelude::*;

use crate::{Contract, Uses, page_bounds, page_len, page_start};
use crate::sale_view::page_of;

verus! {

impl Contract {
    /// Number of active use offers.
    pub fn get_supply_uses(&self) -> (r: u128)
        ensures
            r == self.uses@.len(),
    {
        self.uses.len() as u128
    }
}

} // verus!

verus! {

impl Contract {
    /// A page of the active use offers.
    pub fn get_uses(&self, from_index: Option<u128>, limit: Option<u64>) -> (r: Vec<Uses>)
        ensures
            r@ == page_of(self.uses@, page_start(from_index),
                page_len(self.uses@.len() as int, page_start(from_index), limit)),
    {
        let (start, end) = page_bounds(self.uses.len(), from_index, limit);
        let mut out: Vec<Uses> = Vec::new();
        let mut i: usize = start;
        while i < end
            invariant
                start <= i <= end <= self.uses@.len(),
                out@ == self.uses@.subrange(start as int, i as int),
            decreases end - i,
        {
            out.push(self.uses[i].duplicate());
            i = i + 1;
            assert(out@ == self.uses@.subrange(start as int, i as int));
        }
        assert(out@ =~= page_of(self.uses@, page_start(from_index),
            page_len(self.uses@.len() as int, page_start(from_index), limit)));
        out
    }
}

} // verus!
