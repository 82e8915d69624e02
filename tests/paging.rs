use mitosis::child::{ChildDescriptor, FaultStep, IN_FLIGHT_MAGIC};
use mitosis::descriptors::Descriptor;
use mitosis::fast_descriptors::{FastDescriptor, VMAPageTable};
use mitosis::page_table::FlatPageTable;
use mitosis::rdma::RDMADescriptor;
use mitosis::reg::RegDescriptor;
use mitosis::remote_mapping::RemotePageTable;
use mitosis::vma::VMADescriptor;

const GID: &[u8] = b"fe80:0000:0000:0000:248a:0703:009c:7c94";
const V: u64 = 0x4000_0000;

fn endpoint() -> RDMADescriptor {
    RDMADescriptor { gid: GID.to_vec(), service_id: 1, qd_hint: 1, rkey: 9, dct_num: 2, dct_key: 3 }
}

/// One area of `pages` pages at `V`, page `i` at physical `0x100000 * (i + 1)`.
fn parent(pages: u64) -> Descriptor {
    let mut pt = FlatPageTable::new();
    for i in 0..pages {
        pt.add_one(V + 4096 * i, 0x100000 * (i + 1));
    }
    Descriptor {
        regs: RegDescriptor::zeroed(),
        page_table: pt,
        vma: vec![VMADescriptor { start: V, end: V + 4096 * pages, flags: 0, prot: 3, offset: 0 }],
        machine_info: endpoint(),
    }
}

fn fetch_of(step: FaultStep) -> (u64, Vec<u64>) {
    match step {
        FaultStep::Fetch { remote_pa, prefetch } => (remote_pa, prefetch),
        other => panic!("expected a fetch, got {:?}", other),
    }
}

#[test]
fn remote_page_table_maps_whole_pages() {
    let mut t = RemotePageTable::new();
    t.map(V, 0x10000);
    assert_eq!(t.translate(V), Some(0x10000));
    assert_eq!(t.translate(V + 0xfff), Some(0x10000));
    assert_eq!(t.translate(V + 0x1000), None);
    t.map(V + 0x20_0000, 0x30000);
    assert_eq!(t.translate(V + 0x20_0000), Some(0x30000));
    assert_eq!(t.translate(V), Some(0x10000));
    t.map(V, 0);
    assert_eq!(t.translate(V), None);
    assert_eq!(t.slot(V / 4096 + 512), 0x30000);
}

#[test]
fn child_from_parent_translates_pages() {
    let c = ChildDescriptor::new(&parent(2));
    assert_eq!(c.lookup_pg_table(V), Some(0x100000));
    assert_eq!(c.lookup_pg_table(V + 4096 + 17), Some(0x200000));
    assert_eq!(c.lookup_pg_table(V + 8192), None);
    assert_eq!(c.read_remote_page_wo_prefetch(V + 4096), Some(0x200000));
    assert_eq!(c.read_remote_page_wo_prefetch(V - 4096), None);
}

#[test]
fn fault_outside_the_table_is_unmapped() {
    let c = ChildDescriptor::new(&parent(1));
    assert!(matches!(c.read_remote_page(0x1000), FaultStep::Unmapped));
}

#[test]
fn prefetch_scenario_marks_then_completes() {
    let mut c = ChildDescriptor::new(&parent(3));
    // first fault: demand read of V, prefetch of the next two pages
    let (pa, prefetch) = fetch_of(c.read_remote_page(V));
    assert_eq!(pa, 0x100000);
    assert_eq!(prefetch, vec![V / 4096 + 1, V / 4096 + 2]);
    assert_eq!(c.mark_in_flight(prefetch[0], 0x7000_0000), Some(0x200000));
    assert_eq!(c.mark_in_flight(prefetch[1], 0x7000_1000), Some(0x300000));
    // a second claim of a page in flight changes nothing
    assert_eq!(c.mark_in_flight(prefetch[0], 0x7000_2000), None);
    // second fault: the page is in flight, no new read
    assert!(matches!(c.read_remote_page(V + 4096), FaultStep::InFlight));
    assert_eq!(c.lookup_pg_table(V + 4096), Some(IN_FLIGHT_MAGIC));
    // one completion arrives
    assert_eq!(c.poll_prefetcher(1), 1);
    assert_eq!(c.lookup_pg_table(V + 4096), Some(0x7000_0001));
    assert!(matches!(c.read_remote_page(V + 4096), FaultStep::Ready(0x7000_0000)));
    assert!(matches!(c.read_remote_page(V + 8192), FaultStep::InFlight));
    // the rest; asking for more than is pending completes what is there
    assert_eq!(c.poll_prefetcher(5), 1);
    assert!(matches!(c.read_remote_page(V + 8192), FaultStep::Ready(0x7000_1000)));
    assert_eq!(c.prefetcher.pending.len(), 0);
    assert_eq!(c.poll_prefetcher(1), 0);
}

#[test]
fn poll_leaves_no_completed_page_in_flight() {
    let mut c = ChildDescriptor::new(&parent(4));
    for i in 1..4u64 {
        assert!(c.mark_in_flight(V / 4096 + i, 0x8000_0000 + 4096 * i).is_some());
    }
    assert_eq!(c.poll_prefetcher(2), 2);
    assert_ne!(c.lookup_pg_table(V + 4096), Some(IN_FLIGHT_MAGIC));
    assert_ne!(c.lookup_pg_table(V + 8192), Some(IN_FLIGHT_MAGIC));
    assert_eq!(c.lookup_pg_table(V + 3 * 4096), Some(IN_FLIGHT_MAGIC));
    assert_eq!(c.prefetcher.pending, vec![(V / 4096 + 3, 0x8000_3000)]);
}

#[test]
fn prefetch_stays_inside_the_leaf() {
    // the last page of a 2 MiB leaf has no successors in its leaf
    let last = V + 511 * 4096;
    let mut pt = FlatPageTable::new();
    pt.add_one(last, 0x100000);
    pt.add_one(last + 4096, 0x200000);
    let d = Descriptor {
        regs: RegDescriptor::zeroed(),
        page_table: pt,
        vma: vec![VMADescriptor { start: V, end: V + 0x40_0000, flags: 0, prot: 3, offset: 0 }],
        machine_info: endpoint(),
    };
    let c = ChildDescriptor::new(&d);
    let (_, prefetch) = fetch_of(c.read_remote_page(last));
    assert!(prefetch.is_empty());
}

#[test]
fn prefetch_skips_unmapped_pages() {
    let mut pt = FlatPageTable::new();
    pt.add_one(V, 0x100000);
    pt.add_one(V + 8192, 0x300000);
    let d = Descriptor {
        regs: RegDescriptor::zeroed(),
        page_table: pt,
        vma: vec![VMADescriptor { start: V, end: V + 0x3000, flags: 0, prot: 3, offset: 0 }],
        machine_info: endpoint(),
    };
    let c = ChildDescriptor::new(&d);
    let (_, prefetch) = fetch_of(c.read_remote_page(V));
    assert_eq!(prefetch, vec![V / 4096 + 2]);
}

#[test]
fn child_deserialize_from_compact_format() {
    let mut t = VMAPageTable::new();
    t.add_one(0, 0x100000);
    t.add_one(0x1000, 0x200000);
    t.add_one(0x3000, 0x400000);
    let f = FastDescriptor {
        regs: RegDescriptor::zeroed(),
        page_table: vec![t],
        vma: vec![VMADescriptor { start: V, end: V + 0x4000, flags: 0, prot: 3, offset: 0 }],
        machine_info: endpoint(),
    };
    let mut buf = vec![0u8; f.serialization_buf_len()];
    assert!(f.serialize(&mut buf));
    let c = ChildDescriptor::deserialize(&buf).unwrap();
    assert_eq!(c.lookup_pg_table(V), Some(0x100000));
    assert_eq!(c.lookup_pg_table(V + 0x1000), Some(0x200000));
    assert_eq!(c.lookup_pg_table(V + 0x2000), None);
    assert_eq!(c.lookup_pg_table(V + 0x3000), Some(0x400000));
    assert_eq!(c.vma, f.vma);
    assert!(ChildDescriptor::deserialize(&buf[..buf.len() - 1]).is_none());
}

#[test]
fn apply_plan_keeps_ranges_and_alloc_bit() {
    let mut d = parent(1);
    d.vma = vec![
        VMADescriptor { start: V, end: V + 4096, flags: 0x22, prot: 3, offset: 0 },
        VMADescriptor { start: V + 8192, end: V + 16384, flags: 0x20, prot: 1, offset: 0 },
    ];
    let c = ChildDescriptor::new(&d);
    let plan = c.apply_to(0x2);
    assert_eq!(plan.len(), 2);
    assert_eq!((plan[0].start, plan[0].end, plan[0].prot, plan[0].set_alloc), (V, V + 4096, 3, true));
    assert_eq!((plan[1].start, plan[1].end, plan[1].prot, plan[1].set_alloc), (V + 8192, V + 16384, 1, false));
}

#[test]
fn withdrawn_claim_restores_the_remote_address() {
    let mut c = ChildDescriptor::new(&parent(3));
    let vpn = V / 4096 + 1;
    let pa = c.mark_in_flight(vpn, 0x7000_0000).unwrap();
    assert!(!c.unmark_in_flight(vpn + 1, pa));
    assert!(!c.unmark_in_flight(vpn, pa + 1));
    assert!(c.unmark_in_flight(vpn, pa));
    assert_eq!(c.lookup_pg_table(V + 4096), Some(0x200000));
    assert!(c.prefetcher.pending.is_empty());
    assert!(matches!(c.read_remote_page(V + 4096), FaultStep::Fetch { remote_pa: 0x200000, .. }));
}

#[test]
fn child_from_compact_descriptor() {
    let mut t = VMAPageTable::new();
    t.add_one(0x1000, 0x200000);
    let f = FastDescriptor {
        regs: RegDescriptor::zeroed(),
        page_table: vec![t],
        vma: vec![VMADescriptor { start: V, end: V + 0x2000, flags: 0, prot: 3, offset: 0 }],
        machine_info: endpoint(),
    };
    let c = ChildDescriptor::from_fast(&f);
    assert_eq!(c.lookup_pg_table(V + 0x1000), Some(0x200000));
    assert_eq!(c.lookup_pg_table(V), None);
}
