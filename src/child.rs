//! The child side of a resumed process: the adopted descriptor, its remote
//! page table, and the decisions of the page-fault path and its prefetcher.

use vstd::prelude::*;
use crate::descriptors::Descriptor;
use crate::fast_descriptors::{fast_from_bytes, flat_entries, flatten, lemma_valid_offsets_inside, table_fits, FastDescriptor, FastView};
use crate::descriptors::entries_fit;
use crate::vma::PAGE_SIZE;
use crate::rdma::RDMADescriptor;
use crate::reg::RegDescriptor;
use crate::remote_mapping::{vpn_of, RemotePageTable, LEAF_SLOTS, PAGE_BYTES};
use crate::vma::VMADescriptor;

verus! {

/// Slot value of a page whose prefetch is posted but not complete. It is odd,
/// and no page-aligned address plus one equals it.
pub const IN_FLIGHT_MAGIC: u64 = 0xdead_beef_dead_beef;

/// Pages after a faulting one that the prefetcher looks at.
pub const PREFETCH_STEP: u64 = 2;

/// Entries of a flat page table as a map from virtual page to physical
/// address; a later entry for the same page wins, a zero address unmaps.
pub open spec fn entries_map(es: Seq<(u64, u64)>) -> Map<u64, u64>
    decreases es.len(),
{
    if es.len() == 0 {
        Map::empty()
    } else {
        let m = entries_map(es.drop_last());
        let e = es.last();
        if e.1 != 0 {
            m.insert(vpn_of(e.0), e.1)
        } else {
            m.remove(vpn_of(e.0))
        }
    }
}

/// Every entry names a non-zero page-aligned address.
pub open spec fn paddrs_aligned(es: Seq<(u64, u64)>) -> bool {
    forall|k: int| 0 <= k < es.len() ==> (#[trigger] es[k]).1 != 0 && es[k].1 % PAGE_BYTES == 0
}

/// Entries that fit their areas name page-aligned non-zero addresses.
pub proof fn lemma_fit_paddrs(vs: Seq<VMADescriptor>, es: Seq<(u64, u64)>)
    requires
        entries_fit(vs, es),
    ensures
        paddrs_aligned(es),
{
    assert forall|k: int| 0 <= k < es.len() implies (#[trigger] es[k]).1 != 0 && es[k].1 % PAGE_BYTES == 0 by {
        assert(es[k].1 % PAGE_SIZE == 0);
    }
}

/// Each page that the map of `es` holds comes from an entry of `es` on that
/// page with the same address.
pub proof fn lemma_entries_map_source(es: Seq<(u64, u64)>, vpn: u64)
    requires
        entries_map(es).contains_key(vpn),
    ensures
        exists|k: int| 0 <= k < es.len() && vpn_of((#[trigger] es[k]).0) == vpn && es[k].1 == entries_map(es)[vpn],
    decreases es.len(),
{
    let p = es.drop_last();
    let e = es.last();
    if e.1 != 0 && vpn_of(e.0) == vpn {
        assert(es[es.len() - 1] == e);
    } else {
        assert(entries_map(p).contains_key(vpn));
        lemma_entries_map_source(p, vpn);
        let k = choose|k: int| 0 <= k < p.len() && vpn_of((#[trigger] p[k]).0) == vpn && p[k].1 == entries_map(p)[vpn];
        assert(es[k] == p[k]);
    }
}

/// The entries of the first `n` page tables of a valid descriptor each lie in
/// one of the first `n` areas and name a non-zero address.
proof fn lemma_flat_entries_fit(d: FastView, n: nat, k: int)
    requires
        d.valid(),
        n <= d.vma.len(),
        0 <= k < flat_entries(d.vma, d.page_table, n).len(),
    ensures
        exists|i: int| 0 <= i < n && (#[trigger] d.vma[i]).contains(flat_entries(d.vma, d.page_table, n)[k].0 as int),
        flat_entries(d.vma, d.page_table, n)[k].1 != 0,
    decreases n,
{
    let m = (n - 1) as nat;
    let a = flat_entries(d.vma, d.page_table, m);
    let t = d.page_table[m as int];
    if k < a.len() {
        lemma_flat_entries_fit(d, m, k);
        let i = choose|i: int| 0 <= i < m && (#[trigger] d.vma[i]).contains(a[k].0 as int);
        assert(d.vma[i].contains(flat_entries(d.vma, d.page_table, n)[k].0 as int));
    } else {
        let j = k - a.len();
        assert(table_fits(d.vma[m as int], t));
        assert((t[j].0 as int) < d.vma[m as int].size());
        assert(d.vma[m as int].contains(flat_entries(d.vma, d.page_table, n)[k].0 as int));
    }
}

/// Every page that the child of a valid descriptor maps lies, at the address
/// of the entry it came from, in exactly one area, and its address is
/// non-zero.
pub proof fn lemma_child_page_in_one_area(d: FastView, vpn: u64)
    requires
        d.valid(),
        entries_map(flatten(d).page_table).contains_key(vpn),
    ensures
        entries_map(flatten(d).page_table)[vpn] != 0,
        exists|va: u64| vpn_of(va) == vpn && (exists|i: int| 0 <= i < d.vma.len() && (#[trigger] d.vma[i]).contains(va as int))
            && (forall|i: int, j: int| 0 <= i < d.vma.len() && 0 <= j < d.vma.len() && (#[trigger] d.vma[i]).contains(va as int)
                && (#[trigger] d.vma[j]).contains(va as int) ==> i == j),
{
    let es = flatten(d).page_table;
    lemma_entries_map_source(es, vpn);
    let k = choose|k: int| 0 <= k < es.len() && vpn_of((#[trigger] es[k]).0) == vpn && es[k].1 == entries_map(es)[vpn];
    lemma_flat_entries_fit(d, d.vma.len(), k);
    let va = es[k].0;
    assert forall|i: int, j: int| 0 <= i < d.vma.len() && 0 <= j < d.vma.len() && (#[trigger] d.vma[i]).contains(va as int)
        && (#[trigger] d.vma[j]).contains(va as int) implies i == j by {
        if i < j {
            assert(d.vma[i].end <= d.vma[j].start);
        } else if j < i {
            assert(d.vma[j].end <= d.vma[i].start);
        }
    }
}

/// The slot of `vpn` holds an address still to be read from the parent.
pub open spec fn pristine(m: Map<u64, u64>, vpn: u64) -> bool {
    m.contains_key(vpn) && m[vpn] % 2 == 0
}

/// The `j`-th page after `vpn` lies in the same leaf and is pristine.
pub open spec fn prefetchable(m: Map<u64, u64>, vpn: u64, j: int) -> bool {
    vpn % LEAF_SLOTS + j < LEAF_SLOTS && pristine(m, (vpn + j) as u64)
}

/// The pages among the `n` after `vpn` that the prefetcher would fetch, in order.
pub open spec fn prefetch_targets(m: Map<u64, u64>, vpn: u64, n: nat) -> Seq<u64>
    decreases n,
{
    if n == 0 {
        Seq::empty()
    } else if prefetchable(m, vpn, n as int) {
        prefetch_targets(m, vpn, (n - 1) as nat).push((vpn + n) as u64)
    } else {
        prefetch_targets(m, vpn, (n - 1) as nat)
    }
}

/// The page table after the first `r` posted prefetches completed, each page
/// then holding its local page address with the low bit set.
pub open spec fn completed(m: Map<u64, u64>, pending: Seq<(u64, u64)>, r: nat) -> Map<u64, u64>
    decreases r,
{
    if r == 0 {
        m
    } else {
        let e = pending[r - 1];
        completed(m, pending, (r - 1) as nat).insert(e.0, (e.1 + 1) as u64)
    }
}

/// After the oldest `r` pending prefetches complete, none of their pages holds
/// the in-flight value: each holds its local page address with the low bit
/// set. A page holds the in-flight value only while its prefetch is still
/// pending.
pub proof fn lemma_completed_not_in_flight(m: Map<u64, u64>, pending: Seq<(u64, u64)>, r: nat)
    requires
        prefetch_consistent(m, pending),
        r <= pending.len(),
    ensures
        forall|i: int| 0 <= i < r ==> {
            &&& completed(m, pending, r).contains_key((#[trigger] pending[i]).0)
            &&& completed(m, pending, r)[pending[i].0] == pending[i].1 + 1
            &&& completed(m, pending, r)[pending[i].0] != IN_FLIGHT_MAGIC
        },
        forall|vpn: u64| #[trigger] completed(m, pending, r).contains_key(vpn) && completed(m, pending, r)[vpn]
            == IN_FLIGHT_MAGIC ==> exists|i: int| r <= i < pending.len() && (#[trigger] pending[i]).0 == vpn,
    decreases r,
{
    if r > 0 {
        let q = (r - 1) as nat;
        lemma_completed_not_in_flight(m, pending, q);
        let c = completed(m, pending, r);
        let e = pending[q as int];
        assert(e.1 % PAGE_BYTES == 0);
        assert forall|i: int| 0 <= i < r implies {
            &&& c.contains_key((#[trigger] pending[i]).0)
            &&& c[pending[i].0] == pending[i].1 + 1
            &&& c[pending[i].0] != IN_FLIGHT_MAGIC
        } by {
            assert(pending[i].1 % PAGE_BYTES == 0);
            if i < q {
                assert(pending[i].0 != e.0);
            }
        }
        assert forall|vpn: u64| #[trigger] c.contains_key(vpn) && c[vpn] == IN_FLIGHT_MAGIC implies exists|i: int|
            r <= i < pending.len() && (#[trigger] pending[i]).0 == vpn by {
            assert(e.1 + 1 != IN_FLIGHT_MAGIC);
            assert(vpn != e.0);
            let c0 = completed(m, pending, q);
            assert(c0.contains_key(vpn) && c0[vpn] == IN_FLIGHT_MAGIC);
            let i = choose|i: int| q <= i < pending.len() && (#[trigger] pending[i]).0 == vpn;
            assert(i != q);
        }
    }
}

/// What the fault path does for one faulting address.
#[derive(Debug)]
pub enum FaultStep {
    /// No entry: the fault ends in a segmentation signal.
    Unmapped,
    /// A prefetch is posted for the page and not complete: poll and look again.
    InFlight,
    /// The page was prefetched into this local page: install it.
    Ready(u64),
    /// Read the page at `remote_pa` into a fresh local page, and post
    /// prefetches of the pages `prefetch`.
    Fetch { remote_pa: u64, prefetch: Vec<u64> },
}

/// `r` is what a fault on `va` does under page table `m`.
pub open spec fn fault_decided(m: Map<u64, u64>, va: u64, r: FaultStep) -> bool {
    let vpn = vpn_of(va);
    match r {
        FaultStep::Unmapped => !m.contains_key(vpn),
        FaultStep::InFlight => m.contains_key(vpn) && m[vpn] == IN_FLIGHT_MAGIC,
        FaultStep::Ready(local) => m.contains_key(vpn) && m[vpn] % 2 == 1 && m[vpn] != IN_FLIGHT_MAGIC
            && local == m[vpn] - 1,
        FaultStep::Fetch { remote_pa, prefetch } => pristine(m, vpn) && remote_pa == m[vpn]
            && prefetch@ == prefetch_targets(m, vpn, PREFETCH_STEP as nat),
    }
}

/// One area to create in the resuming address space.
#[derive(Clone, Copy, Debug, PartialEq, Eq, Structural)]
pub struct RegionPlan {
    pub start: u64,
    pub end: u64,
    pub prot: u64,
    /// The source area was allocator-owned: set that bit on the new one.
    pub set_alloc: bool,
}

/// The prefetches posted and not yet completed, as `(page, local page
/// address)` in the order they were posted.
#[derive(Debug)]
pub struct Prefetcher {
    pub pending: Vec<(u64, u64)>,
}

/// The resumed process image.
#[derive(Debug)]
pub struct ChildDescriptor {
    pub regs: RegDescriptor,
    pub page_table: RemotePageTable,
    pub vma: Vec<VMADescriptor>,
    pub machine_info: RDMADescriptor,
    pub prefetcher: Prefetcher,
}

/// Slots and pending prefetches agree: a slot holds the in-flight value
/// exactly while its page is pending, each page is pending once, and local
/// pages are page-aligned.
pub open spec fn prefetch_consistent(m: Map<u64, u64>, pending: Seq<(u64, u64)>) -> bool {
    &&& forall|i: int, j: int| 0 <= i < j < pending.len() ==> (#[trigger] pending[i]).0 != (#[trigger] pending[j]).0
    &&& forall|i: int| 0 <= i < pending.len() ==> {
        &&& m.contains_key((#[trigger] pending[i]).0)
        &&& m[pending[i].0] == IN_FLIGHT_MAGIC
        &&& pending[i].1 % PAGE_BYTES == 0
    }
    &&& forall|vpn: u64| #[trigger] m.contains_key(vpn) && m[vpn] == IN_FLIGHT_MAGIC ==> exists|i: int|
        0 <= i < pending.len() && (#[trigger] pending[i]).0 == vpn
}

impl ChildDescriptor {
    pub open spec fn wf(&self) -> bool {
        &&& self.page_table.wf()
        &&& prefetch_consistent(self.page_table@, self.prefetcher.pending@)
    }

    /// Adopts a parent's flat descriptor: the same registers, areas and
    /// endpoint, with its entries loaded into a remote page table and no
    /// prefetch pending.
    pub fn new(parent: &Descriptor) -> (r: ChildDescriptor)
        requires
            paddrs_aligned(parent@.page_table),
        ensures
            r.wf(),
            r.regs@ == parent@.regs,
            r.vma@ == parent@.vma,
            r.machine_info@ == parent@.machine_info,
            r.page_table@ == entries_map(parent@.page_table),
            r.prefetcher.pending@.len() == 0,
    {
        let ghost es = parent@.page_table;
        let mut pt = RemotePageTable::new();
        let mut k: usize = 0;
        while k < parent.page_table.entries.len()
            invariant
                es == parent@.page_table,
                paddrs_aligned(es),
                k <= es.len(),
                pt.wf(),
                pt@ == entries_map(es.subrange(0, k as int)),
                forall|p: u64| #[trigger] pt@.contains_key(p) ==> pt@[p] % PAGE_BYTES == 0,
            decreases es.len() - k,
        {
            let (va, pa) = parent.page_table.entries[k];
            pt.map(va, pa);
            assert(es.subrange(0, k + 1).drop_last() =~= es.subrange(0, k as int));
            k = k + 1;
        }
        assert(es.subrange(0, es.len() as int) =~= es);
        let r = ChildDescriptor {
            regs: parent.regs.duplicate(),
            page_table: pt,
            vma: parent.vma.clone(),
            machine_info: parent.machine_info.duplicate(),
            prefetcher: Prefetcher { pending: Vec::new() },
        };
        assert(prefetch_consistent(r.page_table@, r.prefetcher.pending@)) by {
            assert forall|vpn: u64| #[trigger] r.page_table@.contains_key(vpn) implies r.page_table@[vpn] != IN_FLIGHT_MAGIC by {
                assert(r.page_table@[vpn] % PAGE_BYTES == 0);
            }
        }
        r
    }

    /// Adopts a parent's valid compact descriptor: the same registers, areas
    /// and endpoint, with its flattened entries in the remote page table and
    /// no prefetch pending.
    pub fn from_fast(parent: &FastDescriptor) -> (r: ChildDescriptor)
        requires
            parent@.valid(),
        ensures
            r.wf(),
            r.regs@ == parent@.regs,
            r.vma@ == parent@.vma,
            r.machine_info@ == parent@.machine_info,
            r.page_table@ == entries_map(flatten(parent@).page_table),
            r.prefetcher.pending@.len() == 0,
    {
        proof {
            lemma_valid_offsets_inside(parent@);
        }
        let d = parent.to_descriptor();
        proof {
            lemma_fit_paddrs(d@.vma, d@.page_table);
        }
        ChildDescriptor::new(&d)
    }

    /// Reads a descriptor in the compact per-area format and adopts it;
    /// `None` where the bytes are truncated or malformed.
    pub fn deserialize(bytes: &[u8]) -> (r: Option<ChildDescriptor>)
        ensures
            r is Some <==> fast_from_bytes(bytes@) is Some,
            match (r, fast_from_bytes(bytes@)) {
                (Some(c), Some(f)) => {
                    &&& c.wf()
                    &&& c.regs@ == f.regs
                    &&& c.vma@ == f.vma
                    &&& c.machine_info@ == f.machine_info
                    &&& c.page_table@ == entries_map(flatten(f).page_table)
                    &&& c.prefetcher.pending@.len() == 0
                },
                _ => true,
            },
    {
        match FastDescriptor::deserialize(bytes) {
            Some(f) => Some(ChildDescriptor::from_fast(&f)),
            None => None,
        }
    }

    /// The value stored for the page of `virt`, where one is set.
    pub fn lookup_pg_table(&self, virt: u64) -> (r: Option<u64>)
        requires
            self.wf(),
        ensures
            r == (if self.page_table@.contains_key(vpn_of(virt)) {
                Some(self.page_table@[vpn_of(virt)])
            } else {
                None::<u64>
            }),
    {
        self.page_table.translate(virt)
    }

    /// The remote address to read the page of `va` from, where its slot still
    /// holds one; `None` where the page is unmapped or already local.
    pub fn read_remote_page_wo_prefetch(&self, va: u64) -> (r: Option<u64>)
        requires
            self.wf(),
        ensures
            r == (if pristine(self.page_table@, vpn_of(va)) {
                Some(self.page_table@[vpn_of(va)])
            } else {
                None::<u64>
            }),
    {
        let v = self.page_table.slot(va / PAGE_BYTES);
        if v != 0 && v % 2 == 0 {
            Some(v)
        } else {
            None
        }
    }

    /// The pages after `vpn` in its leaf that a prefetch should fetch.
    fn prefetch_candidates(&self, vpn: u64) -> (r: Vec<u64>)
        requires
            self.wf(),
        ensures
            r@ == prefetch_targets(self.page_table@, vpn, PREFETCH_STEP as nat),
    {
        let mut r: Vec<u64> = Vec::new();
        let mut j: u64 = 1;
        while j <= PREFETCH_STEP
            invariant
                self.wf(),
                1 <= j <= PREFETCH_STEP + 1,
                r@ == prefetch_targets(self.page_table@, vpn, (j - 1) as nat),
            decreases PREFETCH_STEP + 1 - j,
        {
            if vpn % LEAF_SLOTS + j < LEAF_SLOTS {
                assert(vpn + j <= u64::MAX) by {
                    assert(vpn == (vpn / LEAF_SLOTS) * LEAF_SLOTS + vpn % LEAF_SLOTS);
                }
                let v = self.page_table.slot(vpn + j);
                if v != 0 && v % 2 == 0 {
                    r.push(vpn + j);
                }
            }
            j = j + 1;
        }
        r
    }

    /// Decides what a fault on `va` does: nothing mapped, wait for a posted
    /// prefetch, install a prefetched page, or read the page from the parent
    /// together with prefetches of the pages after it.
    pub fn read_remote_page(&self, va: u64) -> (r: FaultStep)
        requires
            self.wf(),
        ensures
            fault_decided(self.page_table@, va, r),
    {
        let vpn = va / PAGE_BYTES;
        let v = self.page_table.slot(vpn);
        if v == 0 {
            FaultStep::Unmapped
        } else if v % 2 == 1 {
            if v == IN_FLIGHT_MAGIC {
                FaultStep::InFlight
            } else {
                FaultStep::Ready(v - 1)
            }
        } else {
            FaultStep::Fetch { remote_pa: v, prefetch: self.prefetch_candidates(vpn) }
        }
    }

    /// Claims page `vpn` for a prefetch into `local_page`: where its slot holds
    /// a remote address, marks it in flight, queues the prefetch and returns
    /// the address to read; otherwise changes nothing.
    pub fn mark_in_flight(&mut self, vpn: u64, local_page: u64) -> (r: Option<u64>)
        requires
            old(self).wf(),
            local_page % PAGE_BYTES == 0,
        ensures
            final(self).wf(),
            final(self).vma@ == old(self).vma@,
            match r {
                Some(pa) => {
                    &&& pristine(old(self).page_table@, vpn)
                    &&& pa == old(self).page_table@[vpn]
                    &&& final(self).page_table@ == old(self).page_table@.insert(vpn, IN_FLIGHT_MAGIC)
                    &&& final(self).prefetcher.pending@ == old(self).prefetcher.pending@.push((vpn, local_page))
                },
                None => {
                    &&& !pristine(old(self).page_table@, vpn)
                    &&& final(self).page_table@ == old(self).page_table@
                    &&& final(self).prefetcher.pending@ == old(self).prefetcher.pending@
                },
            },
    {
        let v = self.page_table.slot(vpn);
        if v == 0 || v % 2 == 1 {
            return None;
        }
        let ghost m0 = self.page_table@;
        let ghost p0 = self.prefetcher.pending@;
        self.page_table.set_slot(vpn, IN_FLIGHT_MAGIC);
        self.prefetcher.pending.push((vpn, local_page));
        assert(prefetch_consistent(self.page_table@, self.prefetcher.pending@)) by {
            let m = self.page_table@;
            let p = self.prefetcher.pending@;
            assert forall|i: int| 0 <= i < p0.len() implies (#[trigger] p0[i]).0 != vpn by {
                assert(m0[p0[i].0] == IN_FLIGHT_MAGIC);
            }
            assert forall|i: int| 0 <= i < p.len() implies {
                &&& m.contains_key((#[trigger] p[i]).0)
                &&& m[p[i].0] == IN_FLIGHT_MAGIC
                &&& p[i].1 % PAGE_BYTES == 0
            } by {
                if i < p0.len() {
                    assert(p[i] == p0[i]);
                }
            }
            assert forall|w: u64| #[trigger] m.contains_key(w) && m[w] == IN_FLIGHT_MAGIC implies exists|i: int|
                0 <= i < p.len() && (#[trigger] p[i]).0 == w by {
                if w == vpn {
                    assert(p[p0.len() as int].0 == w);
                } else {
                    let i = choose|i: int| 0 <= i < p0.len() && (#[trigger] p0[i]).0 == w;
                    assert(p[i] == p0[i]);
                }
            }
        }
        Some(v)
    }

    /// Withdraws the latest claim, made on page `vpn` for the remote address
    /// `remote_pa`, whose read could not be posted: the page holds
    /// `remote_pa` again and leaves the queue. `false`, changing nothing, where
    /// the latest claim is not on `vpn` or `remote_pa` is no remote address.
    pub fn unmark_in_flight(&mut self, vpn: u64, remote_pa: u64) -> (r: bool)
        requires
            old(self).wf(),
        ensures
            final(self).wf(),
            final(self).vma@ == old(self).vma@,
            r == (old(self).prefetcher.pending@.len() > 0 && old(self).prefetcher.pending@.last().0 == vpn
                && remote_pa != 0 && remote_pa % 2 == 0),
            r ==> final(self).page_table@ == old(self).page_table@.insert(vpn, remote_pa)
                && final(self).prefetcher.pending@ == old(self).prefetcher.pending@.drop_last(),
            !r ==> final(self).page_table@ == old(self).page_table@
                && final(self).prefetcher.pending@ == old(self).prefetcher.pending@,
    {
        let n = self.prefetcher.pending.len();
        if n == 0 || remote_pa == 0 || remote_pa % 2 != 0 {
            return false;
        }
        if self.prefetcher.pending[n - 1].0 != vpn {
            return false;
        }
        let ghost p0 = self.prefetcher.pending@;
        self.prefetcher.pending.pop();
        self.page_table.set_slot(vpn, remote_pa);
        assert(prefetch_consistent(self.page_table@, self.prefetcher.pending@)) by {
            let m = self.page_table@;
            let p = self.prefetcher.pending@;
            assert(p =~= p0.drop_last());
            assert(remote_pa != IN_FLIGHT_MAGIC);
            assert forall|i: int| 0 <= i < p.len() implies {
                &&& m.contains_key((#[trigger] p[i]).0)
                &&& m[p[i].0] == IN_FLIGHT_MAGIC
                &&& p[i].1 % PAGE_BYTES == 0
            } by {
                assert(p[i] == p0[i]);
                assert(p0[i].0 != p0[n - 1].0);
            }
            assert forall|i: int, j: int| 0 <= i < j < p.len() implies (#[trigger] p[i]).0 != (#[trigger] p[j]).0 by {
                assert(p[i] == p0[i] && p[j] == p0[j]);
            }
            assert forall|w: u64| #[trigger] m.contains_key(w) && m[w] == IN_FLIGHT_MAGIC implies exists|i: int|
                0 <= i < p.len() && (#[trigger] p[i]).0 == w by {
                let i = choose|i: int| 0 <= i < p0.len() && (#[trigger] p0[i]).0 == w;
                assert(i != n - 1);
                assert(p[i] == p0[i]);
            }
        }
        true
    }

    /// Records the completion of the oldest posted prefetch: its page now
    /// holds the local page address with the low bit set. Returns the page and
    /// the local page, or `None` where nothing is pending.
    fn complete_one(&mut self) -> (r: Option<(u64, u64)>)
        requires
            old(self).wf(),
        ensures
            final(self).wf(),
            final(self).vma@ == old(self).vma@,
            match r {
                Some(e) => {
                    &&& old(self).prefetcher.pending@.len() > 0
                    &&& e == old(self).prefetcher.pending@[0]
                    &&& final(self).prefetcher.pending@ == old(self).prefetcher.pending@.drop_first()
                    &&& final(self).page_table@ == old(self).page_table@.insert(e.0, (e.1 + 1) as u64)
                },
                None => {
                    &&& old(self).prefetcher.pending@.len() == 0
                    &&& final(self).page_table@ == old(self).page_table@
                    &&& final(self).prefetcher.pending@ == old(self).prefetcher.pending@
                },
            },
    {
        if self.prefetcher.pending.len() == 0 {
            return None;
        }
        let ghost m0 = self.page_table@;
        let ghost p0 = self.prefetcher.pending@;
        let (vpn, local) = self.prefetcher.pending.remove(0);
        assert((vpn, local) == p0[0]);
        assert(local % PAGE_BYTES == 0);
        let ready = local + 1;
        self.page_table.set_slot(vpn, ready);
        assert(prefetch_consistent(self.page_table@, self.prefetcher.pending@)) by {
            let m = self.page_table@;
            let p = self.prefetcher.pending@;
            assert(p =~= p0.drop_first());
            assert(ready != IN_FLIGHT_MAGIC);
            assert forall|i: int| 0 <= i < p.len() implies {
                &&& m.contains_key((#[trigger] p[i]).0)
                &&& m[p[i].0] == IN_FLIGHT_MAGIC
                &&& p[i].1 % PAGE_BYTES == 0
            } by {
                assert(p[i] == p0[i + 1]);
                assert(p0[0].0 != p0[i + 1].0);
            }
            assert forall|i: int, j: int| 0 <= i < j < p.len() implies (#[trigger] p[i]).0 != (#[trigger] p[j]).0 by {
                assert(p[i] == p0[i + 1] && p[j] == p0[j + 1]);
            }
            assert forall|w: u64| #[trigger] m.contains_key(w) && m[w] == IN_FLIGHT_MAGIC implies exists|i: int|
                0 <= i < p.len() && (#[trigger] p[i]).0 == w by {
                let i = choose|i: int| 0 <= i < p0.len() && (#[trigger] p0[i]).0 == w;
                assert(i != 0);
                assert(p[i - 1] == p0[i]);
            }
        }
        Some((vpn, local))
    }

    /// Records that the transport reported `ready` completions of posted
    /// prefetches. Completions arrive in posting order: the oldest `r` pending
    /// prefetches, `r` being `ready` or all that are pending, leave the queue
    /// and their pages become local. Returns `r`.
    pub fn poll_prefetcher(&mut self, ready: usize) -> (r: usize)
        requires
            old(self).wf(),
        ensures
            final(self).wf(),
            final(self).vma@ == old(self).vma@,
            r as int == (if (ready as int) < old(self).prefetcher.pending@.len() {
                ready as int
            } else {
                old(self).prefetcher.pending@.len() as int
            }),
            final(self).prefetcher.pending@ == old(self).prefetcher.pending@.subrange(r as int, old(self).prefetcher.pending@.len() as int),
            final(self).page_table@ == completed(old(self).page_table@, old(self).prefetcher.pending@, r as nat),
    {
        let ghost m0 = self.page_table@;
        let ghost p0 = self.prefetcher.pending@;
        let mut done: usize = 0;
        while done < ready && self.prefetcher.pending.len() > 0
            invariant
                self.wf(),
                self.vma@ == old(self).vma@,
                m0 == old(self).page_table@,
                p0 == old(self).prefetcher.pending@,
                done <= p0.len(),
                done <= ready,
                self.prefetcher.pending@ == p0.subrange(done as int, p0.len() as int),
                self.page_table@ == completed(m0, p0, done as nat),
            decreases ready - done,
        {
            match self.complete_one() {
                Some(e) => {
                    assert(e == p0[done as int]);
                    assert(p0.subrange(done as int, p0.len() as int).drop_first() =~= p0.subrange(done + 1, p0.len() as int));
                    done = done + 1;
                },
                None => {},
            }
        }
        done
    }

    /// The areas to create when resuming: each area's range and protection,
    /// with the allocator-owned bit set where the source had `alloc_flag`.
    pub fn apply_to(&self, alloc_flag: u64) -> (r: Vec<RegionPlan>)
        ensures
            r@.len() == self.vma@.len(),
            forall|i: int| 0 <= i < r@.len() ==> #[trigger] r@[i] == (RegionPlan {
                start: self.vma@[i].start,
                end: self.vma@[i].end,
                prot: self.vma@[i].prot,
                set_alloc: self.vma@[i].flags & alloc_flag != 0,
            }),
    {
        let mut r: Vec<RegionPlan> = Vec::new();
        let mut i: usize = 0;
        while i < self.vma.len()
            invariant
                i <= self.vma@.len(),
                r@.len() == i,
                forall|k: int| 0 <= k < i ==> #[trigger] r@[k] == (RegionPlan {
                    start: self.vma@[k].start,
                    end: self.vma@[k].end,
                    prot: self.vma@[k].prot,
                    set_alloc: self.vma@[k].flags & alloc_flag != 0,
                }),
            decreases self.vma@.len() - i,
        {
            let v = self.vma[i];
            r.push(RegionPlan { start: v.start, end: v.end, prot: v.prot, set_alloc: v.flags & alloc_flag != 0 });
            i = i + 1;
        }
        r
    }
}

} // verus!
