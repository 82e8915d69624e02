//! The flat process descriptor that the registry publishes: registers, page
//! table, areas and endpoint.

use vstd::prelude::*;
use crate::codec::{
    copy_prefix, dec_seq, dec_u64, enc_seq, enc_u64, fits, holds_at, lemma_dec_enc_seq,
    lemma_dec_enc_u64, lemma_enc_seq_len, lemma_enc_seq_push, lemma_holds_split, push_u64,
    read_u64,
};
use crate::page_table::{
    lemma_pair_codec, pair_decoder, pair_encoder, write_pair, FlatPageTable,
    FLAT_ENTRY_LEN,
};
use crate::rdma::{
    check_gid_text, dec_rdma, enc_rdma, GID_TEXT_LEN, lemma_dec_enc_rdma, RDMADescriptor, RdmaView,
    RDMA_DESCRIPTOR_LEN,
};
use crate::reg::{RegDescriptor, REG_DESCRIPTOR_LEN};
use crate::vma::{
    check_vmas, lemma_vma_codec, read_vma, vma_decoder, vma_encoder, vmas_valid, write_vma,
    VMADescriptor, PAGE_SIZE, VMA_DESCRIPTOR_LEN,
};

verus! {

/// The descriptor as plain values.
pub struct DescriptorView {
    pub regs: Seq<u8>,
    pub page_table: Seq<(u64, u64)>,
    pub vma: Seq<VMADescriptor>,
    pub machine_info: RdmaView,
}

/// Index of an area that holds `va`, where one does.
pub open spec fn covers(vs: Seq<VMADescriptor>, va: int) -> bool {
    exists|i: int| 0 <= i < vs.len() && (#[trigger] vs[i]).contains(va)
}

/// Each entry lies in an area and names a non-zero page-aligned address.
pub open spec fn entries_fit(vs: Seq<VMADescriptor>, pt: Seq<(u64, u64)>) -> bool {
    forall|k: int| 0 <= k < pt.len() ==> {
        &&& covers(vs, (#[trigger] pt[k]).0 as int)
        &&& pt[k].1 != 0
        &&& pt[k].1 % PAGE_SIZE == 0
    }
}

impl DescriptorView {
    /// The fields have the widths that the wire format gives them.
    pub open spec fn shaped(self) -> bool {
        &&& self.regs.len() == REG_DESCRIPTOR_LEN
        &&& self.page_table.len() <= u64::MAX
        &&& self.vma.len() <= u64::MAX
        &&& self.machine_info.shaped()
    }

    /// Shaped, with valid sorted disjoint areas, each entry inside one of them,
    /// and a GID that parses.
    pub open spec fn valid(self) -> bool {
        &&& self.shaped()
        &&& vmas_valid(self.vma)
        &&& entries_fit(self.vma, self.page_table)
        &&& self.machine_info.valid()
    }
}

/// Registers, entry count, entries, area count, areas, endpoint.
pub open spec fn enc_desc(d: DescriptorView) -> Seq<u8> {
    d.regs + enc_u64(d.page_table.len() as u64) + enc_seq(d.page_table, pair_encoder()) + enc_u64(
        d.vma.len() as u64,
    ) + enc_seq(d.vma, vma_encoder()) + enc_rdma(d.machine_info)
}

pub open spec fn desc_len(d: DescriptorView) -> int {
    REG_DESCRIPTOR_LEN + 8 + FLAT_ENTRY_LEN * d.page_table.len() + 8 + VMA_DESCRIPTOR_LEN * d.vma.len()
        + RDMA_DESCRIPTOR_LEN
}

/// The descriptor that `s` starts with, well-formed or not.
pub open spec fn parse_desc(s: Seq<u8>) -> Option<DescriptorView> {
    let p1 = REG_DESCRIPTOR_LEN + 8;
    if !fits(s, 0, p1) {
        None
    } else {
        let n1 = dec_u64(s, REG_DESCRIPTOR_LEN as int) as int;
        let p2 = p1 + 16 * n1;
        if !fits(s, p1, 16 * n1 + 8) {
            None
        } else {
            let n2 = dec_u64(s, p2) as int;
            let p3 = p2 + 8;
            let p4 = p3 + 40 * n2;
            if !fits(s, p3, 40 * n2 + RDMA_DESCRIPTOR_LEN) {
                None
            } else {
                Some(
                    DescriptorView {
                        regs: s.subrange(0, REG_DESCRIPTOR_LEN as int),
                        page_table: dec_seq(s, p1, n1 as nat, 16, pair_decoder()),
                        vma: dec_seq(s, p3, n2 as nat, 40, vma_decoder()),
                        machine_info: dec_rdma(s, p4),
                    },
                )
            }
        }
    }
}

/// What deserializing `s` yields: the descriptor it starts with, where that
/// one is valid.
pub open spec fn desc_from_bytes(s: Seq<u8>) -> Option<DescriptorView> {
    match parse_desc(s) {
        Some(d) => if d.valid() {
            Some(d)
        } else {
            None
        },
        None => None,
    }
}

pub proof fn lemma_enc_desc_len(d: DescriptorView)
    requires
        d.shaped(),
    ensures
        enc_desc(d).len() == desc_len(d),
{
    lemma_pair_codec();
    lemma_vma_codec();
    lemma_enc_seq_len(d.page_table, pair_encoder(), 16);
    lemma_enc_seq_len(d.vma, vma_encoder(), 40);
}

proof fn lemma_dec_pairs(s: Seq<u8>, p: int, pt: Seq<(u64, u64)>)
    requires
        holds_at(s, p, enc_seq(pt, pair_encoder())),
    ensures
        dec_seq(s, p, pt.len(), 16, pair_decoder()) == pt,
{
    lemma_pair_codec();
    lemma_dec_enc_seq(s, p, pt, 16, pair_encoder(), pair_decoder());
}

proof fn lemma_dec_vmas(s: Seq<u8>, p: int, vs: Seq<VMADescriptor>)
    requires
        holds_at(s, p, enc_seq(vs, vma_encoder())),
    ensures
        dec_seq(s, p, vs.len(), 40, vma_decoder()) == vs,
{
    lemma_vma_codec();
    lemma_dec_enc_seq(s, p, vs, 40, vma_encoder(), vma_decoder());
}

/// Where the encoding of `d` stands at the front of `s`, each part stands at
/// its place.
proof fn lemma_desc_parts(s: Seq<u8>, d: DescriptorView)
    requires
        d.shaped(),
        holds_at(s, 0, enc_desc(d)),
    ensures
        holds_at(s, 0, d.regs),
        holds_at(s, REG_DESCRIPTOR_LEN as int, enc_u64(d.page_table.len() as u64)),
        holds_at(s, REG_DESCRIPTOR_LEN + 8, enc_seq(d.page_table, pair_encoder())),
        holds_at(s, REG_DESCRIPTOR_LEN + 8 + 16 * d.page_table.len(), enc_u64(d.vma.len() as u64)),
        holds_at(s, REG_DESCRIPTOR_LEN + 16 + 16 * d.page_table.len(), enc_seq(d.vma, vma_encoder())),
        holds_at(
            s,
            REG_DESCRIPTOR_LEN + 16 + 16 * d.page_table.len() + 40 * d.vma.len(),
            enc_rdma(d.machine_info),
        ),
{
    lemma_pair_codec();
    lemma_vma_codec();
    let a = d.regs;
    let b = enc_u64(d.page_table.len() as u64);
    let c = enc_seq(d.page_table, pair_encoder());
    let e = enc_u64(d.vma.len() as u64);
    let f = enc_seq(d.vma, vma_encoder());
    let g = enc_rdma(d.machine_info);
    lemma_enc_seq_len(d.page_table, pair_encoder(), 16);
    lemma_enc_seq_len(d.vma, vma_encoder(), 40);
    lemma_holds_split(s, 0, a + b + c + e + f, g);
    lemma_holds_split(s, 0, a + b + c + e, f);
    lemma_holds_split(s, 0, a + b + c, e);
    lemma_holds_split(s, 0, a + b, c);
    lemma_holds_split(s, 0, a, b);
}

#[verifier::spinoff_prover]
proof fn lemma_parse_desc_at(s: Seq<u8>, d: DescriptorView)
    requires
        d.shaped(),
        holds_at(s, 0, enc_desc(d)),
    ensures
        parse_desc(s) == Some(d),
{
    let n1 = d.page_table.len();
    let n2 = d.vma.len();
    lemma_desc_parts(s, d);
    let p1 = REG_DESCRIPTOR_LEN + 8;
    lemma_dec_enc_u64(s, REG_DESCRIPTOR_LEN as int, n1 as u64);
    lemma_dec_pairs(s, p1, d.page_table);
    let p2 = p1 + 16 * n1;
    lemma_dec_enc_u64(s, p2, n2 as u64);
    let p3 = p2 + 8;
    lemma_dec_vmas(s, p3, d.vma);
    let p4 = p3 + 40 * n2;
    lemma_dec_enc_rdma(s, p4, d.machine_info);
    assert(s.subrange(0, REG_DESCRIPTOR_LEN as int) == d.regs);
}

/// Parsing the encoding of a shaped descriptor, with anything after it, gives
/// the descriptor back.
pub proof fn lemma_parse_enc_desc(d: DescriptorView, rest: Seq<u8>)
    requires
        d.shaped(),
    ensures
        parse_desc(enc_desc(d) + rest) == Some(d),
{
    let s = enc_desc(d) + rest;
    assert(s.subrange(0, enc_desc(d).len() as int) =~= enc_desc(d));
    lemma_parse_desc_at(s, d);
}

/// Round trip: a valid descriptor, serialized into a buffer long enough for
/// it, deserializes to itself whatever the buffer held after the encoding.
pub proof fn lemma_descriptor_round_trip(d: DescriptorView, buf: Seq<u8>)
    requires
        d.valid(),
        buf.len() >= desc_len(d),
    ensures
        desc_from_bytes(enc_desc(d) + buf.subrange(desc_len(d), buf.len() as int)) == Some(d),
{
    lemma_parse_enc_desc(d, buf.subrange(desc_len(d), buf.len() as int));
}

/// Each entry of a valid descriptor lies in exactly one area, and its
/// physical address is non-zero.
pub proof fn lemma_entry_in_one_vma(d: DescriptorView, k: int)
    requires
        d.valid(),
        0 <= k < d.page_table.len(),
    ensures
        exists|i: int| 0 <= i < d.vma.len() && (#[trigger] d.vma[i]).contains(d.page_table[k].0 as int),
        forall|i: int, j: int|
            0 <= i < d.vma.len() && 0 <= j < d.vma.len() && (#[trigger] d.vma[i]).contains(d.page_table[k].0 as int)
                && (#[trigger] d.vma[j]).contains(d.page_table[k].0 as int) ==> i == j,
        d.page_table[k].1 != 0,
{
    let va = d.page_table[k].0 as int;
    assert(covers(d.vma, va));
    assert forall|i: int, j: int|
        0 <= i < d.vma.len() && 0 <= j < d.vma.len() && (#[trigger] d.vma[i]).contains(va)
            && (#[trigger] d.vma[j]).contains(va) implies i == j by {
        if i < j {
            assert(d.vma[i].end <= d.vma[j].start);
        } else if j < i {
            assert(d.vma[j].end <= d.vma[i].start);
        }
    }
}

/// Index of an area that holds `va`, or `None` where none does.
pub fn find_vma(vs: &Vec<VMADescriptor>, va: u64) -> (r: Option<usize>)
    ensures
        match r {
            Some(i) => i < vs@.len() && vs@[i as int].contains(va as int),
            None => !covers(vs@, va as int),
        },
{
    let mut i: usize = 0;
    while i < vs.len()
        invariant
            i <= vs@.len(),
            forall|j: int| 0 <= j < i ==> !(#[trigger] vs@[j]).contains(va as int),
        decreases vs@.len() - i,
    {
        if vs[i].start <= va && va < vs[i].end {
            return Some(i);
        }
        i = i + 1;
    }
    None
}

/// The process descriptor that the registry serializes and a resumer reads.
#[derive(Debug)]
pub struct Descriptor {
    pub regs: RegDescriptor,
    pub page_table: FlatPageTable,
    pub vma: Vec<VMADescriptor>,
    pub machine_info: RDMADescriptor,
}

impl View for Descriptor {
    type V = DescriptorView;

    open spec fn view(&self) -> DescriptorView {
        DescriptorView {
            regs: self.regs@,
            page_table: self.page_table@,
            vma: self.vma@,
            machine_info: self.machine_info@,
        }
    }
}

impl Descriptor {
    pub fn duplicate(&self) -> (r: Descriptor)
        ensures
            r@ == self@,
    {
        let mut vma: Vec<VMADescriptor> = Vec::new();
        let mut i: usize = 0;
        while i < self.vma.len()
            invariant
                i <= self.vma@.len(),
                vma@ =~= self.vma@.subrange(0, i as int),
            decreases self.vma@.len() - i,
        {
            vma.push(self.vma[i]);
            i = i + 1;
        }
        assert(vma@ =~= self.vma@);
        Descriptor {
            regs: self.regs.duplicate(),
            page_table: self.page_table.duplicate(),
            vma,
            machine_info: self.machine_info.duplicate(),
        }
    }

    /// Bytes that the encoding takes, where the fields have their wire
    /// widths and that length fits a `usize`; `None` otherwise.
    pub fn checked_buf_len(&self) -> (r: Option<usize>)
        ensures
            match r {
                Some(n) => self@.shaped() && desc_len(self@) <= usize::MAX && n == desc_len(self@),
                None => !(self@.shaped() && desc_len(self@) <= usize::MAX),
            },
    {
        if self.regs.bytes.len() != REG_DESCRIPTOR_LEN || self.machine_info.gid.len() != GID_TEXT_LEN {
            return None;
        }
        let n1 = self.page_table.entries.len();
        let n2 = self.vma.len();
        let fixed: usize = REG_DESCRIPTOR_LEN + 16 + RDMA_DESCRIPTOR_LEN;
        if n1 > (usize::MAX - fixed) / FLAT_ENTRY_LEN {
            return None;
        }
        let a = fixed + FLAT_ENTRY_LEN * n1;
        if n2 > (usize::MAX - a) / VMA_DESCRIPTOR_LEN {
            return None;
        }
        Some(a + VMA_DESCRIPTOR_LEN * n2)
    }

    /// Bytes that the encoding takes.
    pub fn serialization_buf_len(&self) -> (r: usize)
        requires
            desc_len(self@) <= usize::MAX,
        ensures
            r == desc_len(self@),
    {
        REG_DESCRIPTOR_LEN + 8 + FLAT_ENTRY_LEN * self.page_table.entries.len() + 8 + VMA_DESCRIPTOR_LEN
            * self.vma.len() + RDMA_DESCRIPTOR_LEN
    }

    /// Appends the encoding.
    pub fn write_to(&self, out: &mut Vec<u8>)
        requires
            self@.shaped(),
        ensures
            final(out)@ == old(out)@ + enc_desc(self@),
    {
        let ghost d = self@;
        self.regs.write_to(out);
        let n1 = self.page_table.entries.len();
        push_u64(out, n1 as u64);
        let ghost h1 = out@;
        let mut i: usize = 0;
        while i < n1
            invariant
                d == self@,
                n1 == d.page_table.len(),
                i <= n1,
                out@ == h1 + enc_seq(d.page_table.subrange(0, i as int), pair_encoder()),
            decreases n1 - i,
        {
            write_pair(out, self.page_table.entries[i]);
            proof {
                lemma_enc_seq_push(d.page_table.subrange(0, i as int), d.page_table[i as int], pair_encoder());
                assert(d.page_table.subrange(0, i as int).push(d.page_table[i as int]) =~= d.page_table.subrange(0, i + 1));
            }
            i = i + 1;
        }
        assert(d.page_table.subrange(0, n1 as int) =~= d.page_table);
        let n2 = self.vma.len();
        push_u64(out, n2 as u64);
        let ghost h2 = out@;
        let mut j: usize = 0;
        while j < n2
            invariant
                d == self@,
                n2 == d.vma.len(),
                j <= n2,
                out@ == h2 + enc_seq(d.vma.subrange(0, j as int), vma_encoder()),
            decreases n2 - j,
        {
            write_vma(out, &self.vma[j]);
            proof {
                lemma_enc_seq_push(d.vma.subrange(0, j as int), d.vma[j as int], vma_encoder());
                assert(d.vma.subrange(0, j as int).push(d.vma[j as int]) =~= d.vma.subrange(0, j + 1));
            }
            j = j + 1;
        }
        assert(d.vma.subrange(0, n2 as int) =~= d.vma);
        self.machine_info.write_to(out);
        assert(out@ =~= old(out)@ + enc_desc(d));
    }

    /// Writes the encoding at the front of `bytes`; `false`, with `bytes`
    /// untouched, where they are fewer than the encoding needs.
    pub fn serialize(&self, bytes: &mut Vec<u8>) -> (r: bool)
        requires
            self@.shaped(),
            desc_len(self@) <= usize::MAX,
        ensures
            r == (old(bytes)@.len() >= desc_len(self@)),
            r ==> final(bytes)@ == enc_desc(self@) + old(bytes)@.subrange(
                desc_len(self@),
                old(bytes)@.len() as int,
            ),
            !r ==> final(bytes)@ == old(bytes)@,
    {
        let need = self.serialization_buf_len();
        if bytes.len() < need {
            return false;
        }
        let mut out: Vec<u8> = Vec::new();
        self.write_to(&mut out);
        proof {
            lemma_enc_desc_len(self@);
        }
        copy_prefix(bytes, &out);
        true
    }

    /// The valid descriptor that `bytes` start with; `None` where they are
    /// truncated or what they hold is malformed.
    pub fn deserialize(bytes: &[u8]) -> (r: Option<Descriptor>)
        ensures
            match r {
                Some(d) => desc_from_bytes(bytes@) == Some(d@),
                None => desc_from_bytes(bytes@) is None,
            },
    {
        let ghost s = bytes@;
        let len = bytes.len();
        let regs = match RegDescriptor::read_from(bytes, 0) {
            Some(r) => r,
            None => return None,
        };
        let n1 = match read_u64(bytes, REG_DESCRIPTOR_LEN) {
            Some(n) => n,
            None => return None,
        };
        let p1: usize = REG_DESCRIPTOR_LEN + 8;
        if n1 > ((len - p1) / 16) as u64 || len - p1 - 16 * (n1 as usize) < 8 {
            return None;
        }
        let n1 = n1 as usize;
        let mut pt = FlatPageTable::new();
        let mut i: usize = 0;
        while i < n1
            invariant
                len == s.len(),
                s == bytes@,
                p1 == REG_DESCRIPTOR_LEN + 8,
                p1 + 16 * n1 + 8 <= len,
                i <= n1,
                pt@ =~= dec_seq(s, p1 as int, i as nat, 16, pair_decoder()),
            decreases n1 - i,
        {
            let va = read_u64(bytes, p1 + 16 * i).unwrap();
            let pa = read_u64(bytes, p1 + 16 * i + 8).unwrap();
            pt.add_one(va, pa);
            i = i + 1;
        }
        let p2 = p1 + 16 * n1;
        let n2 = read_u64(bytes, p2).unwrap();
        let p3 = p2 + 8;
        if n2 > ((len - p3) / 40) as u64 || len - p3 - 40 * (n2 as usize) < RDMA_DESCRIPTOR_LEN {
            return None;
        }
        let n2 = n2 as usize;
        let mut vma: Vec<VMADescriptor> = Vec::new();
        let mut j: usize = 0;
        while j < n2
            invariant
                len == s.len(),
                s == bytes@,
                p3 + 40 * n2 + RDMA_DESCRIPTOR_LEN <= len,
                j <= n2,
                vma@ =~= dec_seq(s, p3 as int, j as nat, 40, vma_decoder()),
            decreases n2 - j,
        {
            let v = read_vma(bytes, p3 + 40 * j).unwrap();
            vma.push(v);
            j = j + 1;
        }
        let machine_info = RDMADescriptor::read_from(bytes, p3 + 40 * n2).unwrap();
        let d = Descriptor { regs, page_table: pt, vma, machine_info };
        assert(parse_desc(s) == Some(d@));
        if d.check_valid() {
            Some(d)
        } else {
            None
        }
    }

    /// Tells whether the shaped descriptor is valid.
    pub fn check_valid(&self) -> (r: bool)
        requires
            self@.shaped(),
        ensures
            r == self@.valid(),
    {
        let ghost d = self@;
        if !check_vmas(&self.vma) {
            return false;
        }
        let mut k: usize = 0;
        while k < self.page_table.entries.len()
            invariant
                d == self@,
                k <= d.page_table.len(),
                forall|j: int| 0 <= j < k ==> {
                    &&& covers(d.vma, (#[trigger] d.page_table[j]).0 as int)
                    &&& d.page_table[j].1 != 0
                    &&& d.page_table[j].1 % PAGE_SIZE == 0
                },
            decreases d.page_table.len() - k,
        {
            let (va, pa) = self.page_table.entries[k];
            if pa == 0 || pa % PAGE_SIZE != 0 {
                return false;
            }
            match find_vma(&self.vma, va) {
                Some(_) => {},
                None => {
                    return false;
                },
            }
            k = k + 1;
        }
        check_gid_text(self.machine_info.gid.as_slice())
    }
}

} // verus!
