use mitosis::descriptors::Descriptor;
use mitosis::fast_descriptors::{FastDescriptor, VMAPageTable};
use mitosis::page_table::FlatPageTable;
use mitosis::rdma::{parse_gid, AccessInfo, RDMADescriptor};
use mitosis::reg::{RegDescriptor, REG_DESCRIPTOR_LEN};
use mitosis::rpc::{decode_query, encode_query, DescriptorLookupReply, RPCId};
use mitosis::vma::VMADescriptor;

const GID: &[u8] = b"fe80:0000:0000:0000:248a:0703:009c:7c94";

fn endpoint(gid: &[u8]) -> RDMADescriptor {
    RDMADescriptor { gid: gid.to_vec(), service_id: 7, qd_hint: 3, rkey: 0xabcd, dct_num: 12, dct_key: 73 }
}

fn regs() -> RegDescriptor {
    let bytes: Vec<u8> = (0..REG_DESCRIPTOR_LEN).map(|i| i as u8).collect();
    RegDescriptor::new(bytes).unwrap()
}

fn vma(start: u64, end: u64) -> VMADescriptor {
    VMADescriptor { start, end, flags: 0x73, prot: 3, offset: 0 }
}

fn table(entries: &[(u32, u64)]) -> VMAPageTable {
    let mut t = VMAPageTable::new();
    for &(o, p) in entries {
        t.add_one(o, p);
    }
    t
}

fn fast(vmas: Vec<VMADescriptor>, tables: Vec<VMAPageTable>) -> FastDescriptor {
    FastDescriptor { regs: regs(), page_table: tables, vma: vmas, machine_info: endpoint(GID) }
}

fn encode_fast(d: &FastDescriptor) -> Vec<u8> {
    let mut buf = vec![0u8; d.serialization_buf_len()];
    assert!(d.serialize(&mut buf));
    buf
}

fn same_fast(a: &FastDescriptor, b: &FastDescriptor) {
    assert_eq!(a.regs.bytes, b.regs.bytes);
    assert_eq!(a.vma, b.vma);
    assert_eq!(a.page_table.len(), b.page_table.len());
    for (x, y) in a.page_table.iter().zip(b.page_table.iter()) {
        assert_eq!(x.inner_pg_table, y.inner_pg_table);
    }
    assert_eq!(a.machine_info.gid, b.machine_info.gid);
    assert_eq!(a.machine_info.service_id, b.machine_info.service_id);
    assert_eq!(a.machine_info.qd_hint, b.machine_info.qd_hint);
    assert_eq!(a.machine_info.rkey, b.machine_info.rkey);
    assert_eq!(a.machine_info.dct_num, b.machine_info.dct_num);
    assert_eq!(a.machine_info.dct_key, b.machine_info.dct_key);
}

#[test]
fn page_table_with_odd_count_is_padded() {
    let t = table(&[(0x1000, 0x5000)]);
    assert_eq!(t.table_len(), 1);
    assert_eq!(t.serialization_buf_len(), 24);
    let mut buf = vec![0xffu8; 24];
    assert!(t.serialize(&mut buf));
    let want: Vec<u8> = vec![
        1, 0, 0, 0, 0, 0, 0, 0, // count
        0, 0, 0, 0, // pad
        0x00, 0x10, 0, 0, // offset
        0x00, 0x50, 0, 0, 0, 0, 0, 0, // address
    ];
    assert_eq!(buf, want);
}

#[test]
fn page_table_with_even_count_has_no_pad() {
    let t = table(&[(0, 0x1000), (0x1000, 0x2000)]);
    assert_eq!(t.serialization_buf_len(), 32);
    let mut buf = vec![0u8; 32];
    assert!(t.serialize(&mut buf));
    assert_eq!(&buf[0..8], &[2, 0, 0, 0, 0, 0, 0, 0]);
    // offsets column, then addresses column
    assert_eq!(&buf[8..16], &[0, 0, 0, 0, 0x00, 0x10, 0, 0]);
    assert_eq!(&buf[16..24], &[0x00, 0x10, 0, 0, 0, 0, 0, 0]);
    assert_eq!(&buf[24..32], &[0x00, 0x20, 0, 0, 0, 0, 0, 0]);
    let back = VMAPageTable::deserialize(&buf).unwrap();
    assert_eq!(back.inner_pg_table, vec![(0, 0x1000), (0x1000, 0x2000)]);
}

#[test]
fn page_table_serialize_into_short_buffer_fails() {
    let t = table(&[(0, 0x1000)]);
    let mut buf = vec![9u8; 23];
    assert!(!t.serialize(&mut buf));
    assert_eq!(buf, vec![9u8; 23]);
}

#[test]
fn page_table_truncated_is_none() {
    let t = table(&[(0, 0x1000), (0x1000, 0x2000), (0x2000, 0x3000)]);
    let mut buf = vec![0u8; t.serialization_buf_len()];
    assert!(t.serialize(&mut buf));
    assert!(VMAPageTable::deserialize(&buf[..buf.len() - 1]).is_none());
    assert!(VMAPageTable::deserialize(&buf).is_some());
}

#[test]
fn fast_descriptor_round_trip() {
    let d = fast(
        vec![vma(0x4000_0000, 0x4000_3000), vma(0x5000_0000, 0x5000_2000)],
        vec![table(&[(0, 0x10000), (0x1000, 0x20000), (0x2000, 0x30000)]), table(&[(0x1000, 0x40000)])],
    );
    assert!(d.is_valid());
    let mut buf = encode_fast(&d);
    buf.extend_from_slice(&[1, 2, 3]);
    let back = FastDescriptor::deserialize(&buf).unwrap();
    same_fast(&d, &back);
}

#[test]
fn fast_descriptor_length_and_layout() {
    let d = fast(vec![vma(0x4000_0000, 0x4000_2000)], vec![table(&[(0x1000, 0x20000)])]);
    // registers, area count, area, page table (count, pad, one entry), endpoint
    assert_eq!(d.serialization_buf_len(), REG_DESCRIPTOR_LEN + 8 + 40 + 24 + 71);
    let buf = encode_fast(&d);
    assert_eq!(&buf[0..REG_DESCRIPTOR_LEN], &d.regs.bytes[..]);
    let p = REG_DESCRIPTOR_LEN;
    assert_eq!(&buf[p..p + 8], &[1, 0, 0, 0, 0, 0, 0, 0]);
    assert_eq!(&buf[p + 8..p + 16], &0x4000_0000u64.to_le_bytes());
    assert_eq!(&buf[p + 16..p + 24], &0x4000_2000u64.to_le_bytes());
    assert_eq!(&buf[p + 48..p + 56], &1u64.to_le_bytes());
    assert_eq!(&buf[p + 56..p + 60], &[0, 0, 0, 0]);
    assert_eq!(&buf[p + 60..p + 64], &0x1000u32.to_le_bytes());
    assert_eq!(&buf[p + 64..p + 72], &0x20000u64.to_le_bytes());
    assert_eq!(&buf[p + 72..p + 72 + 39], GID);
    assert_eq!(d.vma_pg_table_serialization_buf_len(), 8 + 24);
}

#[test]
fn fast_descriptor_with_no_areas() {
    let d = fast(vec![], vec![]);
    assert_eq!(d.serialization_buf_len(), REG_DESCRIPTOR_LEN + 8 + 71);
    let back = FastDescriptor::deserialize(&encode_fast(&d)).unwrap();
    same_fast(&d, &back);
}

#[test]
fn fast_descriptor_area_without_pages() {
    let d = fast(vec![vma(0x1000, 0x3000)], vec![table(&[])]);
    let back = FastDescriptor::deserialize(&encode_fast(&d)).unwrap();
    same_fast(&d, &back);
    assert_eq!(back.page_table[0].table_len(), 0);
}

#[test]
fn fast_descriptor_serialize_into_short_buffer_fails() {
    let d = fast(vec![vma(0x1000, 0x3000)], vec![table(&[(0, 0x8000)])]);
    let mut buf = vec![5u8; d.serialization_buf_len() - 1];
    assert!(!d.serialize(&mut buf));
    assert!(buf.iter().all(|&b| b == 5));
}

#[test]
fn fast_descriptor_truncated_is_none() {
    let d = fast(vec![vma(0x1000, 0x3000)], vec![table(&[(0, 0x8000)])]);
    let buf = encode_fast(&d);
    for cut in [0, 10, REG_DESCRIPTOR_LEN + 8, buf.len() - 1] {
        assert!(FastDescriptor::deserialize(&buf[..cut]).is_none());
    }
}

#[test]
fn fast_descriptor_too_many_pages_is_malformed() {
    let d = fast(vec![vma(0x1000, 0x2000)], vec![table(&[(0, 0x8000), (0x800, 0x9000)])]);
    assert!(!d.is_valid());
    assert!(FastDescriptor::deserialize(&encode_fast(&d)).is_none());
}

#[test]
fn fast_descriptor_offset_outside_area_is_malformed() {
    let d = fast(vec![vma(0x1000, 0x3000)], vec![table(&[(0x2000, 0x8000)])]);
    assert!(FastDescriptor::deserialize(&encode_fast(&d)).is_none());
}

#[test]
fn fast_descriptor_bad_gid_is_malformed() {
    let mut d = fast(vec![vma(0x1000, 0x3000)], vec![table(&[(0, 0x8000)])]);
    d.machine_info = endpoint(b"fe80:0000:0000:0000:248a:0703:009c:7cZ4");
    assert!(FastDescriptor::deserialize(&encode_fast(&d)).is_none());
}

#[test]
fn fast_descriptor_overlapping_areas_are_malformed() {
    let d = fast(
        vec![vma(0x1000, 0x3000), vma(0x2000, 0x4000)],
        vec![table(&[]), table(&[])],
    );
    assert!(!d.is_valid());
    assert!(FastDescriptor::deserialize(&encode_fast(&d)).is_none());
}

#[test]
fn to_descriptor_flattens_per_area_tables() {
    let d = fast(
        vec![vma(0x4000_0000, 0x4000_2000), vma(0x5000_0000, 0x5000_1000)],
        vec![table(&[(0, 0x10000), (0x1000, 0x20000)]), table(&[(0, 0x30000)])],
    );
    let flat = d.to_descriptor();
    assert_eq!(
        flat.page_table.entries,
        vec![(0x4000_0000, 0x10000), (0x4000_1000, 0x20000), (0x5000_0000, 0x30000)]
    );
    assert_eq!(flat.vma, d.vma);
}

fn flat_descriptor() -> Descriptor {
    let mut pt = FlatPageTable::new();
    pt.add_one(0x4000_0000, 0x10000);
    pt.add_one(0x4000_1000, 0x20000);
    Descriptor { regs: regs(), page_table: pt, vma: vec![vma(0x4000_0000, 0x4000_2000)], machine_info: endpoint(GID) }
}

#[test]
fn flat_descriptor_round_trip() {
    let d = flat_descriptor();
    assert_eq!(d.serialization_buf_len(), REG_DESCRIPTOR_LEN + 8 + 32 + 8 + 40 + 71);
    let mut buf = vec![0u8; d.serialization_buf_len() + 4];
    assert!(d.serialize(&mut buf));
    let back = Descriptor::deserialize(&buf).unwrap();
    assert_eq!(back.regs.bytes, d.regs.bytes);
    assert_eq!(back.page_table.entries, d.page_table.entries);
    assert_eq!(back.vma, d.vma);
    assert_eq!(back.machine_info.gid, d.machine_info.gid);
    assert_eq!(back.machine_info.rkey, d.machine_info.rkey);
}

#[test]
fn flat_descriptor_entry_outside_areas_is_malformed() {
    let mut d = flat_descriptor();
    d.page_table.add_one(0x6000_0000, 0x30000);
    let mut buf = vec![0u8; d.serialization_buf_len()];
    assert!(d.serialize(&mut buf));
    assert!(Descriptor::deserialize(&buf).is_none());
}

#[test]
fn flat_descriptor_zero_address_is_malformed() {
    let mut d = flat_descriptor();
    d.page_table.add_one(0x4000_1000, 0);
    let mut buf = vec![0u8; d.serialization_buf_len()];
    assert!(d.serialize(&mut buf));
    assert!(Descriptor::deserialize(&buf).is_none());
}

#[test]
fn flat_descriptor_short_buffer() {
    let d = flat_descriptor();
    let mut buf = vec![0u8; 10];
    assert!(!d.serialize(&mut buf));
    assert!(Descriptor::deserialize(&buf).is_none());
}

#[test]
fn gid_text_parses_to_raw_bytes() {
    let raw = parse_gid(GID).unwrap();
    assert_eq!(raw, vec![0xfe, 0x80, 0, 0, 0, 0, 0, 0, 0x24, 0x8a, 0x07, 0x03, 0x00, 0x9c, 0x7c, 0x94]);
    let upper = parse_gid(b"FE80:0000:0000:0000:248A:0703:009C:7C94").unwrap();
    assert_eq!(upper, raw);
}

#[test]
fn gid_text_rejects_bad_shapes() {
    assert!(parse_gid(b"fe80:0000:0000:0000:248a:0703:009c:7c9").is_none());
    assert!(parse_gid(b"fe80-0000:0000:0000:248a:0703:009c:7c94").is_none());
    assert!(parse_gid(b"fe80:0000:0000:0000:248g:0703:009c:7c94").is_none());
}

#[test]
fn access_info_from_endpoint() {
    let a = AccessInfo::new(&endpoint(GID)).unwrap();
    assert_eq!(a.gid[0], 0xfe);
    assert_eq!(a.gid[15], 0x94);
    assert_eq!(a.rkey, 0xabcd);
    assert_eq!(a.dct_num, 12);
    assert_eq!(a.dct_key, 73);
    assert!(AccessInfo::new(&endpoint(b"not a gid")).is_none());
}

#[test]
fn lookup_reply_round_trip() {
    let r = DescriptorLookupReply { addr: 0x1122_3344_5566_7788, len: 512, rkey: 0xdead };
    let bytes = r.serialize();
    assert_eq!(bytes.len(), 20);
    assert_eq!(&bytes[0..8], &[0x88, 0x77, 0x66, 0x55, 0x44, 0x33, 0x22, 0x11]);
    assert_eq!(&bytes[16..20], &[0xad, 0xde, 0, 0]);
    assert_eq!(DescriptorLookupReply::deserialize(&bytes), Some(r));
    assert_eq!(DescriptorLookupReply::deserialize(&bytes[..19]), None);
}

#[test]
fn query_payload_and_rpc_ids() {
    let p = encode_query(42);
    assert_eq!(p, vec![42, 0, 0, 0, 0, 0, 0, 0]);
    assert_eq!(decode_query(&p), Some(42));
    assert_eq!(decode_query(&p[..7]), None);
    assert_eq!(RPCId::from_raw(1), Some(RPCId::Query));
    assert_eq!(RPCId::from_raw(2), None);
    assert_eq!(RPCId::Query.to_raw(), 1);
}

#[test]
fn register_record_needs_exact_length() {
    assert!(RegDescriptor::new(vec![0u8; REG_DESCRIPTOR_LEN - 1]).is_none());
    assert_eq!(RegDescriptor::zeroed().bytes, vec![0u8; REG_DESCRIPTOR_LEN]);
}

#[test]
fn deserialized_entries_lie_in_exactly_one_area() {
    let mut pt = FlatPageTable::new();
    pt.add_one(0x4000_0000, 0x10000);
    pt.add_one(0x4000_1000, 0x20000);
    pt.add_one(0x5000_0000, 0x30000);
    let d = Descriptor {
        regs: regs(),
        page_table: pt,
        vma: vec![vma(0x4000_0000, 0x4000_2000), vma(0x4000_2000, 0x4000_4000), vma(0x5000_0000, 0x5000_1000)],
        machine_info: endpoint(GID),
    };
    let mut buf = vec![0u8; d.serialization_buf_len()];
    assert!(d.serialize(&mut buf));
    let back = Descriptor::deserialize(&buf).unwrap();
    for &(va, pa) in back.page_table.entries.iter() {
        let holders = back.vma.iter().filter(|v| v.start <= va && va < v.end).count();
        assert_eq!(holders, 1);
        assert_ne!(pa, 0);
    }
}

#[test]
fn to_descriptor_with_fewer_tables_than_areas() {
    let mut d = fast(vec![vma(0x4000_0000, 0x4000_2000), vma(0x5000_0000, 0x5000_1000)], vec![table(&[(0x1000, 0x20000)])]);
    d.machine_info = endpoint(b"");
    let flat = d.to_descriptor();
    assert_eq!(flat.page_table.entries, vec![(0x4000_1000, 0x20000)]);
}

#[test]
fn compact_length_is_checked() {
    let d = fast(vec![vma(0x4000_0000, 0x4000_2000)], vec![table(&[(0x1000, 0x20000)])]);
    assert_eq!(d.checked_buf_len(), Some(d.serialization_buf_len()));
}
