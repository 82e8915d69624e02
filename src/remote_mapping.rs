//! The child-side page table: a two-level trie from virtual page to a 64-bit
//! slot value, whose low bit marks a page fetched (or being fetched) locally.

use vstd::prelude::*;
use std::collections::HashMap;

verus! {

broadcast use vstd::std_specs::hash::group_hash_axioms;

/// Slots in one leaf: the pages of one 2 MiB region.
pub const LEAF_SLOTS: u64 = 512;

/// Bytes in one page.
pub const PAGE_BYTES: u64 = 4096;

/// Virtual page number of `va`.
pub open spec fn vpn_of(va: u64) -> u64 {
    va / PAGE_BYTES
}

/// Two-level table: `top` maps `vpn / 512` to a leaf number, leaf `k` holds
/// the slots `512 * k .. 512 * k + 512` of `slots`, and `owners[k]` is the
/// top key of leaf `k`. A zero slot is unset.
#[derive(Debug)]
pub struct RemotePageTable {
    top: HashMap<u64, usize>,
    owners: Vec<u64>,
    slots: Vec<u64>,
}

impl RemotePageTable {
    /// Leaves and top keys agree one for one, and the slot store holds every leaf.
    pub closed spec fn wf(&self) -> bool {
        &&& self.slots@.len() == self.owners@.len() * LEAF_SLOTS
        &&& forall|k: u64| #[trigger] self.top@.contains_key(k) ==> {
            &&& (self.top@[k] as int) < self.owners@.len()
            &&& self.owners@[self.top@[k] as int] == k
        }
        &&& forall|i: int| 0 <= i < self.owners@.len() ==> {
            &&& self.top@.contains_key(#[trigger] self.owners@[i])
            &&& self.top@[self.owners@[i]] == i
        }
    }

    /// Index in `slots` of the slot of page `vpn`, where its leaf exists.
    closed spec fn slot_index(&self, vpn: u64) -> int {
        self.top@[vpn / LEAF_SLOTS] * LEAF_SLOTS + vpn % LEAF_SLOTS
    }

    closed spec fn has_leaf(&self, vpn: u64) -> bool {
        self.top@.contains_key(vpn / LEAF_SLOTS)
    }

    /// The value of each page whose slot is set.
    pub closed spec fn view(&self) -> Map<u64, u64> {
        Map::new(
            |vpn: u64| self.has_leaf(vpn) && self.slots@[self.slot_index(vpn)] != 0,
            |vpn: u64| self.slots@[self.slot_index(vpn)],
        )
    }

    proof fn lemma_slot_index(&self, vpn: u64)
        requires
            self.wf(),
            self.has_leaf(vpn),
        ensures
            0 <= self.slot_index(vpn) < self.slots@.len(),
            self.slot_index(vpn) / (LEAF_SLOTS as int) == self.top@[vpn / LEAF_SLOTS],
            self.slot_index(vpn) % (LEAF_SLOTS as int) == vpn % LEAF_SLOTS,
    {
        let k = self.top@[vpn / LEAF_SLOTS] as int;
        assert(k < self.owners@.len());
        assert(0 <= k * 512 + vpn % 512 < self.owners@.len() * 512) by (nonlinear_arith)
            requires k < self.owners@.len(), 0 <= vpn % 512 < 512, k >= 0;
        assert((k * 512 + vpn % 512) / 512 == k) by (nonlinear_arith)
            requires 0 <= vpn % 512 < 512, k >= 0;
        assert((k * 512 + vpn % 512) % 512 == vpn % 512) by (nonlinear_arith)
            requires 0 <= vpn % 512 < 512, k >= 0;
    }

    /// Distinct pages with leaves have distinct slots.
    proof fn lemma_slots_distinct(&self, a: u64, b: u64)
        requires
            self.wf(),
            self.has_leaf(a),
            self.has_leaf(b),
            a != b,
        ensures
            self.slot_index(a) != self.slot_index(b),
    {
        self.lemma_slot_index(a);
        self.lemma_slot_index(b);
        if self.slot_index(a) == self.slot_index(b) {
            let ka = a / LEAF_SLOTS;
            let kb = b / LEAF_SLOTS;
            assert(self.owners@[self.top@[ka] as int] == ka);
            assert(self.owners@[self.top@[kb] as int] == kb);
            assert(ka == kb);
            assert(a == ka * 512 + a % 512);
            assert(b == kb * 512 + b % 512);
        }
    }

    pub fn new() -> (r: RemotePageTable)
        ensures
            r.wf(),
            r@ == Map::<u64, u64>::empty(),
    {
        let r = RemotePageTable { top: HashMap::new(), owners: Vec::new(), slots: Vec::new() };
        assert(r@ =~= Map::<u64, u64>::empty());
        r
    }

    /// Position in the slot store of the slot of `vpn`, where its leaf exists.
    fn find_slot(&self, vpn: u64) -> (r: Option<usize>)
        requires
            self.wf(),
        ensures
            match r {
                Some(i) => self.has_leaf(vpn) && i == self.slot_index(vpn) && i < self.slots@.len(),
                None => !self.has_leaf(vpn),
            },
    {
        match self.top.get(&(vpn / LEAF_SLOTS)) {
            Some(k) => {
                proof {
                    self.lemma_slot_index(vpn);
                }
                let n = self.slots.len();
                assert(n == self.slots@.len());
                Some(*k * (LEAF_SLOTS as usize) + (vpn % LEAF_SLOTS) as usize)
            },
            None => None,
        }
    }

    /// The value stored for the page of `va`, where one is set.
    pub fn translate(&self, va: u64) -> (r: Option<u64>)
        requires
            self.wf(),
        ensures
            r == (if self@.contains_key(vpn_of(va)) { Some(self@[vpn_of(va)]) } else { None::<u64> }),
    {
        let vpn = va / PAGE_BYTES;
        match self.find_slot(vpn) {
            Some(i) => {
                let v = self.slots[i];
                if v != 0 {
                    Some(v)
                } else {
                    None
                }
            },
            None => None,
        }
    }

    /// The value of page `vpn`, zero where unset.
    pub fn slot(&self, vpn: u64) -> (r: u64)
        requires
            self.wf(),
        ensures
            r == (if self@.contains_key(vpn) { self@[vpn] } else { 0 }),
            r != 0 <==> self@.contains_key(vpn),
    {
        match self.find_slot(vpn) {
            Some(i) => self.slots[i],
            None => 0,
        }
    }

    /// Adds the leaf that holds `vpn`.
    fn add_leaf(&mut self, vpn: u64) -> (r: usize)
        requires
            old(self).wf(),
            !old(self).has_leaf(vpn),
        ensures
            final(self).wf(),
            final(self).has_leaf(vpn),
            r == final(self).slot_index(vpn),
            r < final(self).slots@.len(),
            final(self)@ == old(self)@,
    {
        let key = vpn / LEAF_SLOTS;
        let k = self.owners.len();
        assert(self.slots@.len() == k * 512);
        let ghost old_slots = self.slots@;
        let mut i: u64 = 0;
        while i < LEAF_SLOTS
            invariant
                i <= LEAF_SLOTS,
                self.slots@.len() == old_slots.len() + i,
                forall|j: int| 0 <= j < old_slots.len() ==> self.slots@[j] == old_slots[j],
                forall|j: int| old_slots.len() <= j < self.slots@.len() ==> self.slots@[j] == 0,
                self.top == old(self).top,
                self.owners == old(self).owners,
            decreases LEAF_SLOTS - i,
        {
            self.slots.push(0);
            i = i + 1;
        }
        self.owners.push(key);
        self.top.insert(key, k);
        assert(self.wf()) by {
            assert forall|kk: u64| #[trigger] self.top@.contains_key(kk) implies
                (self.top@[kk] as int) < self.owners@.len() && self.owners@[self.top@[kk] as int] == kk by {
                if kk != key {
                    assert(old(self).top@.contains_key(kk));
                }
            }
            assert forall|j: int| 0 <= j < self.owners@.len() implies
                self.top@.contains_key(#[trigger] self.owners@[j]) && self.top@[self.owners@[j]] == j by {
                if j < k {
                    assert(old(self).owners@[j] != key);
                }
            }
        }
        proof {
            self.lemma_slot_index(vpn);
        }
        let n = self.slots.len();
        assert(n == self.slots@.len());
        assert(self@ =~= old(self)@) by {
            assert forall|p: u64| #[trigger] self@.contains_key(p) == old(self)@.contains_key(p) && (
                self@.contains_key(p) ==> self@[p] == old(self)@[p]) by {
                if self.has_leaf(p) {
                    self.lemma_slot_index(p);
                    if p / LEAF_SLOTS != key {
                        assert(old(self).has_leaf(p));
                        old(self).lemma_slot_index(p);
                        assert(old(self).slot_index(p) == self.slot_index(p));
                    }
                }
            }
        }
        k * (LEAF_SLOTS as usize) + (vpn % LEAF_SLOTS) as usize
    }

    /// Stores `v` as the value of page `vpn`; zero unsets it.
    pub fn set_slot(&mut self, vpn: u64, v: u64)
        requires
            old(self).wf(),
        ensures
            final(self).wf(),
            final(self)@ == (if v != 0 { old(self)@.insert(vpn, v) } else { old(self)@.remove(vpn) }),
    {
        let i = match self.find_slot(vpn) {
            Some(i) => i,
            None => self.add_leaf(vpn),
        };
        let ghost mid = *self;
        assert(mid.has_leaf(vpn) && i == mid.slot_index(vpn));
        self.slots.set(i, v);
        assert(self.top@ == mid.top@ && self.owners@ == mid.owners@);
        let ghost want = if v != 0 { old(self)@.insert(vpn, v) } else { old(self)@.remove(vpn) };
        assert(self@ =~= want) by {
            assert forall|p: u64| #[trigger] self@.contains_key(p) == want.contains_key(p) && (
                self@.contains_key(p) ==> self@[p] == want[p]) by {
                if p != vpn && mid.has_leaf(p) {
                    mid.lemma_slots_distinct(p, vpn);
                    mid.lemma_slot_index(p);
                }
            }
        }
    }

    /// Maps the page of `va` to `pa`; zero unmaps it.
    pub fn map(&mut self, va: u64, pa: u64)
        requires
            old(self).wf(),
        ensures
            final(self).wf(),
            final(self)@ == (if pa != 0 { old(self)@.insert(vpn_of(va), pa) } else { old(self)@.remove(vpn_of(va)) }),
    {
        self.set_slot(va / PAGE_BYTES, pa);
    }
}

} // verus!
