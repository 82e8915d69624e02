//! The parent-side descriptor, whose page table is kept per area as
//! `(offset, physical address)` entries, and its wire format.

use vstd::prelude::*;
use crate::codec::{
    dec_seq, dec_u64, enc_seq, enc_u32, enc_u64, fits, holds_at, lemma_dec_enc_seq,
    lemma_dec_enc_u64, lemma_enc_seq_len, lemma_enc_seq_push, lemma_holds_split, lemma_int_codecs,
    push_u32, push_u64, read_u32, read_u64, u32_decoder, u32_encoder, u64_decoder, u64_encoder,
    copy_prefix,
};
use crate::vma::{
    check_vmas, dec_vma, enc_vma, lemma_dec_enc_vma, read_vma, vmas_valid, write_vma, VMADescriptor,
    PAGE_SIZE, VMA_DESCRIPTOR_LEN,
};
use crate::rdma::{
    check_gid_text, dec_rdma, GID_TEXT_LEN, enc_rdma, lemma_dec_enc_rdma, RDMADescriptor, RdmaView,
    RDMA_DESCRIPTOR_LEN,
};
use crate::reg::{RegDescriptor, REG_DESCRIPTOR_LEN};
use crate::descriptors::{covers, entries_fit, Descriptor, DescriptorView};
use crate::page_table::FlatPageTable;

verus! {

/// Offset of a page from the start of its area.
pub type Offset = u32;

/// Physical address of a page at the parent.
pub type Value = u64;

/// Bytes of one entry on the wire: a `u32` offset and a `u64` address.
pub const PAGE_ENTRY_LEN: usize = 12;

/// The page table of one area: `(offset, physical address)` in insertion order.
#[derive(Debug)]
pub struct VMAPageTable {
    pub inner_pg_table: Vec<(Offset, Value)>,
}

impl View for VMAPageTable {
    type V = Seq<(Offset, Value)>;

    open spec fn view(&self) -> Seq<(Offset, Value)> {
        self.inner_pg_table@
    }
}

pub open spec fn offsets_of(t: Seq<(Offset, Value)>) -> Seq<u32> {
    t.map_values(|e: (Offset, Value)| e.0)
}

pub open spec fn paddrs_of(t: Seq<(Offset, Value)>) -> Seq<u64> {
    t.map_values(|e: (Offset, Value)| e.1)
}

/// The pad that keeps the offset column 8-byte aligned: one zero `u32` when
/// the entry count is odd.
pub open spec fn pad_for(n: int) -> Seq<u8> {
    if n % 2 == 1 {
        enc_u32(0)
    } else {
        Seq::empty()
    }
}

pub open spec fn pad_len(n: int) -> int {
    if n % 2 == 1 {
        4
    } else {
        0
    }
}

/// Entry count, pad, all offsets, then all physical addresses.
pub open spec fn enc_vpt(t: Seq<(Offset, Value)>) -> Seq<u8> {
    enc_u64(t.len() as u64) + pad_for(t.len() as int) + enc_seq(offsets_of(t), u32_encoder())
        + enc_seq(paddrs_of(t), u64_encoder())
}

pub open spec fn vpt_len(n: int) -> int {
    8 + pad_len(n) + 12 * n
}

/// The entries of two columns of equal length, pairwise.
pub open spec fn zip_columns(offs: Seq<u32>, pas: Seq<u64>) -> Seq<(Offset, Value)> {
    Seq::new(offs.len(), |i: int| (offs[i], pas[i]))
}

/// The page table encoded at `pos`, with the position after it.
pub open spec fn parse_vpt(s: Seq<u8>, pos: int) -> Option<(Seq<(Offset, Value)>, int)> {
    if !fits(s, pos, 8) {
        None
    } else {
        let n = dec_u64(s, pos) as int;
        let p1 = pos + 8 + pad_len(n);
        if !fits(s, p1, 12 * n) {
            None
        } else {
            Some(
                (
                    zip_columns(
                        dec_seq(s, p1, n as nat, 4, u32_decoder()),
                        dec_seq(s, p1 + 4 * n, n as nat, 8, u64_decoder()),
                    ),
                    p1 + 12 * n,
                ),
            )
        }
    }
}

pub proof fn lemma_enc_vpt_len(t: Seq<(Offset, Value)>)
    requires
        t.len() <= u64::MAX,
    ensures
        enc_vpt(t).len() == vpt_len(t.len() as int),
{
    lemma_int_codecs();
    lemma_enc_seq_len(offsets_of(t), u32_encoder(), 4);
    lemma_enc_seq_len(paddrs_of(t), u64_encoder(), 8);
}

/// A page table reads back where its encoding stands.
pub proof fn lemma_parse_enc_vpt(s: Seq<u8>, pos: int, t: Seq<(Offset, Value)>)
    requires
        t.len() <= u64::MAX,
        holds_at(s, pos, enc_vpt(t)),
    ensures
        parse_vpt(s, pos) == Some((t, pos + enc_vpt(t).len())),
{
    lemma_int_codecs();
    lemma_enc_vpt_len(t);
    let n = t.len() as int;
    let e0 = enc_u64(n as u64);
    let e1 = pad_for(n);
    let e2 = enc_seq(offsets_of(t), u32_encoder());
    let e3 = enc_seq(paddrs_of(t), u64_encoder());
    lemma_enc_seq_len(offsets_of(t), u32_encoder(), 4);
    lemma_enc_seq_len(paddrs_of(t), u64_encoder(), 8);
    lemma_holds_split(s, pos, e0 + e1 + e2, e3);
    lemma_holds_split(s, pos, e0 + e1, e2);
    lemma_holds_split(s, pos, e0, e1);
    lemma_dec_enc_u64(s, pos, n as u64);
    let p1 = pos + 8 + pad_len(n);
    lemma_dec_enc_seq(s, p1, offsets_of(t), 4, u32_encoder(), u32_decoder());
    lemma_dec_enc_seq(s, p1 + 4 * n, paddrs_of(t), 8, u64_encoder(), u64_decoder());
    assert(zip_columns(
        dec_seq(s, p1, n as nat, 4, u32_decoder()),
        dec_seq(s, p1 + 4 * n, n as nat, 8, u64_decoder()),
    ) =~= t);
}

impl Default for VMAPageTable {
    fn default() -> (r: VMAPageTable)
        ensures
            r@ == Seq::<(Offset, Value)>::empty(),
    {
        VMAPageTable::new()
    }
}

impl VMAPageTable {
    pub fn new() -> (r: VMAPageTable)
        ensures
            r@ == Seq::<(Offset, Value)>::empty(),
    {
        VMAPageTable { inner_pg_table: Vec::new() }
    }

    /// Records that the page at `offset` lives at `val`.
    pub fn add_one(&mut self, offset: Offset, val: Value)
        ensures
            final(self)@ == old(self)@.push((offset, val)),
    {
        self.inner_pg_table.push((offset, val))
    }

    pub fn table_len(&self) -> (r: usize)
        ensures
            r == self@.len(),
    {
        self.inner_pg_table.len()
    }

    pub fn duplicate(&self) -> (r: VMAPageTable)
        ensures
            r@ == self@,
    {
        let mut v: Vec<(Offset, Value)> = Vec::new();
        let mut i: usize = 0;
        while i < self.inner_pg_table.len()
            invariant
                i <= self@.len(),
                v@ =~= self@.subrange(0, i as int),
            decreases self@.len() - i,
        {
            v.push(self.inner_pg_table[i]);
            i = i + 1;
        }
        assert(v@ =~= self@);
        VMAPageTable { inner_pg_table: v }
    }

    /// Bytes that the encoding takes.
    pub fn serialization_buf_len(&self) -> (r: usize)
        requires
            vpt_len(self@.len() as int) <= usize::MAX,
        ensures
            r == vpt_len(self@.len() as int),
    {
        let n = self.inner_pg_table.len();
        let pad: usize = if n % 2 == 1 { 4 } else { 0 };
        8 + pad + 12 * n
    }

    /// Appends the encoding.
    pub fn write_to(&self, out: &mut Vec<u8>)
        requires
            self@.len() <= u64::MAX,
        ensures
            final(out)@ == old(out)@ + enc_vpt(self@),
    {
        let ghost t = self@;
        let n = self.inner_pg_table.len();
        push_u64(out, n as u64);
        if n % 2 == 1 {
            push_u32(out, 0);
        }
        let ghost head = out@;
        assert(head =~= old(out)@ + enc_u64(n as u64) + pad_for(n as int));
        let mut i: usize = 0;
        while i < n
            invariant
                n == t.len(),
                t == self@,
                i <= n,
                out@ == head + enc_seq(offsets_of(t).subrange(0, i as int), u32_encoder()),
            decreases n - i,
        {
            let ghost before = out@;
            push_u32(out, self.inner_pg_table[i].0);
            proof {
                lemma_enc_seq_push(offsets_of(t).subrange(0, i as int), offsets_of(t)[i as int], u32_encoder());
                assert(offsets_of(t).subrange(0, i as int).push(offsets_of(t)[i as int])
                    =~= offsets_of(t).subrange(0, i + 1));
            }
            i = i + 1;
        }
        assert(offsets_of(t).subrange(0, n as int) =~= offsets_of(t));
        let ghost mid = out@;
        let mut j: usize = 0;
        while j < n
            invariant
                n == t.len(),
                t == self@,
                j <= n,
                out@ == mid + enc_seq(paddrs_of(t).subrange(0, j as int), u64_encoder()),
            decreases n - j,
        {
            push_u64(out, self.inner_pg_table[j].1);
            proof {
                lemma_enc_seq_push(paddrs_of(t).subrange(0, j as int), paddrs_of(t)[j as int], u64_encoder());
                assert(paddrs_of(t).subrange(0, j as int).push(paddrs_of(t)[j as int])
                    =~= paddrs_of(t).subrange(0, j + 1));
            }
            j = j + 1;
        }
        assert(paddrs_of(t).subrange(0, n as int) =~= paddrs_of(t));
        assert(out@ =~= old(out)@ + enc_vpt(t));
    }

    /// Writes the encoding at the front of `bytes`; `false`, with `bytes`
    /// untouched, where they are fewer than the encoding needs.
    pub fn serialize(&self, bytes: &mut Vec<u8>) -> (r: bool)
        requires
            vpt_len(self@.len() as int) <= usize::MAX,
        ensures
            r == (old(bytes)@.len() >= vpt_len(self@.len() as int)),
            r ==> final(bytes)@ == enc_vpt(self@) + old(bytes)@.subrange(
                vpt_len(self@.len() as int),
                old(bytes)@.len() as int,
            ),
            !r ==> final(bytes)@ == old(bytes)@,
    {
        let need = self.serialization_buf_len();
        if bytes.len() < need {
            return false;
        }
        let mut out: Vec<u8> = Vec::new();
        self.write_to(&mut out);
        proof {
            lemma_enc_vpt_len(self@);
        }
        copy_prefix(bytes, &out);
        true
    }

    /// The page table that `bytes` start with; `None` where they are truncated.
    pub fn deserialize(bytes: &[u8]) -> (r: Option<VMAPageTable>)
        ensures
            match r {
                Some(t) => parse_vpt(bytes@, 0) matches Some((v, _)) && v == t@,
                None => parse_vpt(bytes@, 0) is None,
            },
    {
        match VMAPageTable::read_from(bytes, 0) {
            Some((t, _)) => Some(t),
            None => None,
        }
    }

    /// The page table encoded at `pos` and the position after it, or `None`
    /// where the bytes run out.
    pub fn read_from(b: &[u8], pos: usize) -> (r: Option<(VMAPageTable, usize)>)
        ensures
            match r {
                Some((t, end)) => parse_vpt(b@, pos as int) == Some((t@, end as int)),
                None => parse_vpt(b@, pos as int) is None,
            },
    {
        let len = b.len();
        let n = match read_u64(b, pos) {
            Some(n) => n,
            None => return None,
        };
        let pad: usize = if n % 2 == 1 { 4 } else { 0 };
        if len - pos - 8 < pad {
            return None;
        }
        let p1 = pos + 8 + pad;
        if n > ((len - p1) / 12) as u64 {
            return None;
        }
        let n = n as usize;
        let mut v: Vec<(Offset, Value)> = Vec::new();
        let ghost offs = dec_seq(b@, p1 as int, n as nat, 4, u32_decoder());
        let ghost pas = dec_seq(b@, p1 + 4 * n, n as nat, 8, u64_decoder());
        let mut i: usize = 0;
        while i < n
            invariant
                len == b@.len(),
                p1 + 12 * n <= len,
                i <= n,
                offs == dec_seq(b@, p1 as int, n as nat, 4, u32_decoder()),
                v@.len() == i,
                forall|k: int| 0 <= k < i ==> (#[trigger] v@[k]).0 == offs[k] && v@[k].1 == 0,
            decreases n - i,
        {
            let o = read_u32(b, p1 + 4 * i).unwrap();
            v.push((o, 0));
            i = i + 1;
        }
        let mut j: usize = 0;
        while j < n
            invariant
                len == b@.len(),
                p1 + 12 * n <= len,
                j <= n,
                offs == dec_seq(b@, p1 as int, n as nat, 4, u32_decoder()),
                pas == dec_seq(b@, p1 + 4 * n, n as nat, 8, u64_decoder()),
                v@.len() == n,
                forall|k: int| 0 <= k < n ==> (#[trigger] v@[k]).0 == offs[k],
                forall|k: int| 0 <= k < j ==> (#[trigger] v@[k]).1 == pas[k],
            decreases n - j,
        {
            let a = read_u64(b, p1 + 4 * n + 8 * j).unwrap();
            let e = (v[j].0, a);
            v.set(j, e);
            j = j + 1;
        }
        assert(v@ =~= zip_columns(offs, pas));
        Some((VMAPageTable { inner_pg_table: v }, p1 + 12 * n))
    }
}


/// The page table of an area fits it: no more entries than pages, each offset
/// inside the area, each address a non-zero page-aligned one.
pub open spec fn table_fits(v: VMADescriptor, t: Seq<(Offset, Value)>) -> bool {
    &&& t.len() <= v.size() / (PAGE_SIZE as int)
    &&& forall|k: int| 0 <= k < t.len() ==> {
        &&& ((#[trigger] t[k]).0 as int) < v.size()
        &&& t[k].1 != 0
        &&& t[k].1 % PAGE_SIZE == 0
    }
}

/// Tells whether `t` fits the valid area `v`.
pub fn check_table(v: &VMADescriptor, t: &VMAPageTable) -> (r: bool)
    requires
        v.valid(),
    ensures
        r == table_fits(*v, t@),
{
    let size = v.end - v.start;
    if t.inner_pg_table.len() as u64 > size / PAGE_SIZE {
        return false;
    }
    let mut k: usize = 0;
    while k < t.inner_pg_table.len()
        invariant
            size == v.size(),
            k <= t@.len(),
            forall|j: int| 0 <= j < k ==> {
                &&& ((#[trigger] t@[j]).0 as int) < v.size()
                &&& t@[j].1 != 0
                &&& t@[j].1 % PAGE_SIZE == 0
            },
        decreases t@.len() - k,
    {
        let (o, a) = t.inner_pg_table[k];
        if o as u64 >= size || a == 0 || a % PAGE_SIZE != 0 {
            assert(!table_fits(*v, t@)) by {
                assert(t@[k as int] == (o, a));
            }
            return false;
        }
        k = k + 1;
    }
    true
}

/// The descriptor as plain values.
pub struct FastView {
    pub regs: Seq<u8>,
    pub page_table: Seq<Seq<(Offset, Value)>>,
    pub vma: Seq<VMADescriptor>,
    pub machine_info: RdmaView,
}

impl FastView {
    /// The fields have the widths that the wire format gives them, and there
    /// is one page table per area.
    pub open spec fn shaped(self) -> bool {
        &&& self.regs.len() == REG_DESCRIPTOR_LEN
        &&& self.page_table.len() == self.vma.len()
        &&& self.vma.len() <= u64::MAX
        &&& forall|i: int| 0 <= i < self.page_table.len() ==> (#[trigger] self.page_table[i]).len() <= u64::MAX
        &&& self.machine_info.shaped()
    }

    /// Shaped, with valid sorted disjoint areas, page tables that fit their
    /// areas, and a GID that parses.
    pub open spec fn valid(self) -> bool {
        &&& self.shaped()
        &&& vmas_valid(self.vma)
        &&& forall|i: int| 0 <= i < self.vma.len() ==> table_fits(#[trigger] self.vma[i], self.page_table[i])
        &&& self.machine_info.valid()
    }
}

pub open spec fn tables_view(ts: Seq<VMAPageTable>) -> Seq<Seq<(Offset, Value)>> {
    ts.map_values(|t: VMAPageTable| t@)
}

/// The first `n` areas, each followed by its page table.
pub open spec fn enc_sections(vs: Seq<VMADescriptor>, ts: Seq<Seq<(Offset, Value)>>, n: nat) -> Seq<u8>
    decreases n,
{
    if n == 0 {
        Seq::empty()
    } else {
        enc_sections(vs, ts, (n - 1) as nat) + enc_vma(vs[n - 1]) + enc_vpt(ts[n - 1])
    }
}

/// Bytes of the first `n` page tables.
pub open spec fn tables_len(ts: Seq<Seq<(Offset, Value)>>, n: nat) -> int
    decreases n,
{
    if n == 0 {
        0
    } else {
        tables_len(ts, (n - 1) as nat) + vpt_len(ts[n - 1].len() as int)
    }
}

/// Registers, area count, each area with its page table, endpoint.
pub open spec fn enc_fast(d: FastView) -> Seq<u8> {
    d.regs + enc_u64(d.vma.len() as u64) + enc_sections(d.vma, d.page_table, d.vma.len()) + enc_rdma(
        d.machine_info,
    )
}

pub open spec fn fast_len(d: FastView) -> int {
    REG_DESCRIPTOR_LEN + 8 + 40 * d.vma.len() + tables_len(d.page_table, d.vma.len()) + RDMA_DESCRIPTOR_LEN
}

/// `n` sections read from `pos` on, with the position after them.
pub open spec fn parse_sections(s: Seq<u8>, pos: int, n: nat) -> Option<(Seq<VMADescriptor>, Seq<Seq<(Offset, Value)>>, int)>
    decreases n,
{
    if n == 0 {
        Some((Seq::empty(), Seq::empty(), pos))
    } else {
        match parse_sections(s, pos, (n - 1) as nat) {
            Some((vs, ts, p)) => if fits(s, p, 40) {
                match parse_vpt(s, p + 40) {
                    Some((t, q)) => Some((vs.push(dec_vma(s, p)), ts.push(t), q)),
                    None => None,
                }
            } else {
                None
            },
            None => None,
        }
    }
}

/// The descriptor that `s` starts with, well-formed or not.
pub open spec fn parse_fast(s: Seq<u8>) -> Option<FastView> {
    if !fits(s, 0, REG_DESCRIPTOR_LEN + 8) {
        None
    } else {
        match parse_sections(s, REG_DESCRIPTOR_LEN + 8, dec_u64(s, REG_DESCRIPTOR_LEN as int) as nat) {
            Some((vs, ts, p)) => if fits(s, p, RDMA_DESCRIPTOR_LEN as int) {
                Some(
                    FastView {
                        regs: s.subrange(0, REG_DESCRIPTOR_LEN as int),
                        page_table: ts,
                        vma: vs,
                        machine_info: dec_rdma(s, p),
                    },
                )
            } else {
                None
            },
            None => None,
        }
    }
}

/// What deserializing `s` yields: the descriptor it starts with, where that
/// one is valid.
pub open spec fn fast_from_bytes(s: Seq<u8>) -> Option<FastView> {
    match parse_fast(s) {
        Some(d) => if d.valid() {
            Some(d)
        } else {
            None
        },
        None => None,
    }
}

proof fn lemma_tables_len_mono(ts: Seq<Seq<(Offset, Value)>>, i: nat, n: nat)
    requires
        i <= n,
    ensures
        tables_len(ts, i) <= tables_len(ts, n),
    decreases n,
{
    if i < n {
        lemma_tables_len_mono(ts, i, (n - 1) as nat);
    }
}

proof fn lemma_enc_sections_len(vs: Seq<VMADescriptor>, ts: Seq<Seq<(Offset, Value)>>, n: nat)
    requires
        n <= ts.len(),
        forall|i: int| 0 <= i < ts.len() ==> (#[trigger] ts[i]).len() <= u64::MAX,
    ensures
        enc_sections(vs, ts, n).len() == 40 * n + tables_len(ts, n),
    decreases n,
{
    if n > 0 {
        lemma_enc_sections_len(vs, ts, (n - 1) as nat);
        lemma_enc_vpt_len(ts[n - 1]);
    }
}

pub proof fn lemma_enc_fast_len(d: FastView)
    requires
        d.shaped(),
    ensures
        enc_fast(d).len() == fast_len(d),
{
    lemma_enc_sections_len(d.vma, d.page_table, d.vma.len());
}

proof fn lemma_parse_sections_none(s: Seq<u8>, pos: int, k: nat, n: nat)
    requires
        k <= n,
        parse_sections(s, pos, k) is None,
    ensures
        parse_sections(s, pos, n) is None,
    decreases n,
{
    if k < n {
        lemma_parse_sections_none(s, pos, k, (n - 1) as nat);
    }
}

#[verifier::spinoff_prover]
proof fn lemma_parse_enc_sections(s: Seq<u8>, pos: int, vs: Seq<VMADescriptor>, ts: Seq<Seq<(Offset, Value)>>, n: nat)
    requires
        n <= vs.len(),
        n <= ts.len(),
        forall|i: int| 0 <= i < ts.len() ==> (#[trigger] ts[i]).len() <= u64::MAX,
        holds_at(s, pos, enc_sections(vs, ts, n)),
    ensures
        parse_sections(s, pos, n) == Some((vs.subrange(0, n as int), ts.subrange(0, n as int), pos + enc_sections(vs, ts, n).len())),
    decreases n,
{
    if n == 0 {
        assert(vs.subrange(0, 0) =~= Seq::<VMADescriptor>::empty());
        assert(ts.subrange(0, 0) =~= Seq::<Seq<(Offset, Value)>>::empty());
    } else {
        let m = (n - 1) as nat;
        let a = enc_sections(vs, ts, m);
        let b = enc_vma(vs[m as int]);
        let c = enc_vpt(ts[m as int]);
        assert(enc_sections(vs, ts, n) == a + b + c);
        lemma_holds_split(s, pos, a + b, c);
        lemma_holds_split(s, pos, a, b);
        lemma_parse_enc_sections(s, pos, vs, ts, m);
        let p = pos + a.len();
        assert(b.len() == 40);
        lemma_dec_enc_vma(s, p, vs[m as int]);
        assert(ts[m as int].len() <= u64::MAX);
        lemma_parse_enc_vpt(s, p + 40, ts[m as int]);
        assert(parse_sections(s, pos, m) == Some((vs.subrange(0, m as int), ts.subrange(0, m as int), p)));
        assert(fits(s, p, 40));
        assert(parse_vpt(s, p + 40) == Some((ts[m as int], p + 40 + c.len())));
        assert(vs.subrange(0, m as int).push(vs[m as int]) =~= vs.subrange(0, n as int));
        assert(ts.subrange(0, m as int).push(ts[m as int]) =~= ts.subrange(0, n as int));
    }
}

/// Parsing the encoding of a shaped descriptor, with anything after it, gives
/// the descriptor back.
#[verifier::spinoff_prover]
#[verifier::rlimit(60)]
pub proof fn lemma_parse_enc_fast(d: FastView, rest: Seq<u8>)
    requires
        d.shaped(),
    ensures
        parse_fast(enc_fast(d) + rest) == Some(d),
{
    let s = enc_fast(d) + rest;
    let n = d.vma.len();
    let a = d.regs;
    let b = enc_u64(n as u64);
    let c = enc_sections(d.vma, d.page_table, n);
    let e = enc_rdma(d.machine_info);
    assert(holds_at(s, 0, enc_fast(d))) by {
        assert(s.subrange(0, enc_fast(d).len() as int) =~= enc_fast(d));
    }
    lemma_holds_split(s, 0, a + b + c, e);
    lemma_holds_split(s, 0, a + b, c);
    lemma_holds_split(s, 0, a, b);
    lemma_dec_enc_u64(s, REG_DESCRIPTOR_LEN as int, n as u64);
    let p0 = REG_DESCRIPTOR_LEN + 8;
    assert(fits(s, 0, p0));
    assert(dec_u64(s, REG_DESCRIPTOR_LEN as int) as nat == n);
    lemma_parse_enc_sections(s, p0, d.vma, d.page_table, n);
    assert(d.vma.subrange(0, n as int) =~= d.vma);
    assert(d.page_table.subrange(0, n as int) =~= d.page_table);
    let p = p0 + c.len();
    assert(parse_sections(s, p0, n) == Some((d.vma, d.page_table, p)));
    lemma_dec_enc_rdma(s, p, d.machine_info);
    assert(fits(s, p, RDMA_DESCRIPTOR_LEN as int));
    assert(s.subrange(0, REG_DESCRIPTOR_LEN as int) == d.regs);
    let r = FastView {
        regs: s.subrange(0, REG_DESCRIPTOR_LEN as int),
        page_table: d.page_table,
        vma: d.vma,
        machine_info: dec_rdma(s, p),
    };
    assert(parse_fast(s) == Some(r));
    assert(r == d);
}

/// Round trip: a valid descriptor, serialized into a buffer long enough for
/// it, deserializes to itself whatever the buffer held after the encoding.
pub proof fn lemma_fast_round_trip(d: FastView, buf: Seq<u8>)
    requires
        d.valid(),
        buf.len() >= fast_len(d),
    ensures
        fast_from_bytes(enc_fast(d) + buf.subrange(fast_len(d), buf.len() as int)) == Some(d),
{
    lemma_parse_enc_fast(d, buf.subrange(fast_len(d), buf.len() as int));
}

/// The entries of page table `t` of the area starting at `start`, as
/// `(virtual address, physical address)`.
pub open spec fn area_entries(start: u64, t: Seq<(Offset, Value)>) -> Seq<(u64, u64)> {
    t.map_values(|e: (Offset, Value)| ((start + e.0) as u64, e.1))
}

/// The entries of the first `n` areas, area by area.
pub open spec fn flat_entries(vs: Seq<VMADescriptor>, ts: Seq<Seq<(Offset, Value)>>, n: nat) -> Seq<(u64, u64)>
    decreases n,
{
    if n == 0 {
        Seq::empty()
    } else {
        flat_entries(vs, ts, (n - 1) as nat) + area_entries(vs[n - 1].start, ts[n - 1])
    }
}

/// There is an area for each page table, and every offset lies inside its area.
pub open spec fn offsets_inside(d: FastView) -> bool {
    &&& d.page_table.len() <= d.vma.len()
    &&& forall|i: int, k: int| 0 <= i < d.page_table.len() && 0 <= k < d.page_table[i].len() ==> ((
        #[trigger] d.page_table[i][k]).0 as int) < d.vma[i].size()
}

pub proof fn lemma_valid_offsets_inside(d: FastView)
    requires
        d.valid(),
    ensures
        offsets_inside(d),
{
    assert forall|i: int, k: int| 0 <= i < d.page_table.len() && 0 <= k < d.page_table[i].len() implies ((
        #[trigger] d.page_table[i][k]).0 as int) < d.vma[i].size() by {
        assert(table_fits(d.vma[i], d.page_table[i]));
    }
}

/// The flat descriptor with the same registers, areas and endpoint.
pub open spec fn flatten(d: FastView) -> DescriptorView {
    DescriptorView {
        regs: d.regs,
        page_table: flat_entries(d.vma, d.page_table, d.page_table.len()),
        vma: d.vma,
        machine_info: d.machine_info,
    }
}

/// Each entry of a valid descriptor lies in its own area, and in no other;
/// its physical address is non-zero and page-aligned.
pub proof fn lemma_fast_entry_in_one_vma(d: FastView, i: int, k: int)
    requires
        d.valid(),
        0 <= i < d.vma.len(),
        0 <= k < d.page_table[i].len(),
    ensures
        d.vma[i].contains(d.vma[i].start + d.page_table[i][k].0),
        forall|j: int| 0 <= j < d.vma.len() && (#[trigger] d.vma[j]).contains(d.vma[i].start + d.page_table[i][k].0) ==> j == i,
        d.page_table[i][k].1 != 0,
        d.page_table[i][k].1 % PAGE_SIZE == 0,
{
    assert(table_fits(d.vma[i], d.page_table[i]));
    let va = d.vma[i].start + d.page_table[i][k].0;
    assert forall|j: int| 0 <= j < d.vma.len() && (#[trigger] d.vma[j]).contains(va) implies j == i by {
        if j < i {
            assert(d.vma[j].end <= d.vma[i].start);
        } else if j > i {
            assert(d.vma[i].end <= d.vma[j].start);
        }
    }
}

/// The encoding of a valid descriptor, on its own, deserializes to it.
pub proof fn lemma_fast_reads_back(d: FastView)
    requires
        d.valid(),
    ensures
        fast_from_bytes(enc_fast(d)) == Some(d),
{
    lemma_parse_enc_fast(d, Seq::<u8>::empty());
    assert(enc_fast(d) + Seq::<u8>::empty() =~= enc_fast(d));
}

/// The descriptor of a process whose page table is kept per area.
#[derive(Debug)]
pub struct FastDescriptor {
    pub regs: RegDescriptor,
    /// One page table per area, in the order of `vma`.
    pub page_table: Vec<VMAPageTable>,
    pub vma: Vec<VMADescriptor>,
    pub machine_info: RDMADescriptor,
}

impl View for FastDescriptor {
    type V = FastView;

    open spec fn view(&self) -> FastView {
        FastView {
            regs: self.regs@,
            page_table: tables_view(self.page_table@),
            vma: self.vma@,
            machine_info: self.machine_info@,
        }
    }
}

impl Default for FastDescriptor {
    /// Zero registers, no areas, a zero endpoint.
    fn default() -> (r: FastDescriptor)
        ensures
            r@.regs == Seq::new(REG_DESCRIPTOR_LEN as nat, |i: int| 0u8),
            r@.page_table.len() == 0,
            r@.vma.len() == 0,
            r@.machine_info.gid == Seq::new(GID_TEXT_LEN as nat, |i: int| 0u8),
            r@.shaped(),
    {
        let r = FastDescriptor {
            regs: RegDescriptor::zeroed(),
            page_table: Vec::new(),
            vma: Vec::new(),
            machine_info: RDMADescriptor::zeroed(),
        };
        assert(r@.page_table =~= Seq::<Seq<(Offset, Value)>>::empty());
        r
    }
}

impl FastDescriptor {
    /// Bytes of the area count and of all page tables.
    pub fn vma_pg_table_serialization_buf_len(&self) -> (r: usize)
        requires
            self@.shaped(),
            fast_len(self@) <= usize::MAX,
        ensures
            r == 8 + tables_len(self@.page_table, self@.vma.len()),
    {
        let ghost ts = self@.page_table;
        let n = self.page_table.len();
        let mut result: usize = 8;
        let mut i: usize = 0;
        while i < n
            invariant
                self@.shaped(),
                fast_len(self@) <= usize::MAX,
                ts == self@.page_table,
                n == ts.len(),
                n == self@.vma.len(),
                i <= n,
                result == 8 + tables_len(ts, i as nat),
            decreases n - i,
        {
            proof {
                lemma_tables_len_mono(ts, (i + 1) as nat, n as nat);
            }
            assert(self.page_table@[i as int]@ == ts[i as int]);
            result = result + self.page_table[i].serialization_buf_len();
            i = i + 1;
        }
        result
    }

    /// Bytes that the encoding takes, where that fits a `usize`; `None`
    /// otherwise.
    pub fn checked_buf_len(&self) -> (r: Option<usize>)
        requires
            self@.shaped(),
        ensures
            match r {
                Some(n) => fast_len(self@) <= usize::MAX && n == fast_len(self@),
                None => fast_len(self@) > usize::MAX,
            },
    {
        let ghost ts = self@.page_table;
        let n = self.vma.len();
        let fixed: usize = REG_DESCRIPTOR_LEN + 8 + RDMA_DESCRIPTOR_LEN;
        if n > (usize::MAX - fixed) / VMA_DESCRIPTOR_LEN {
            proof {
                lemma_tables_len_mono(ts, 0, n as nat);
            }
            return None;
        }
        let mut acc: usize = fixed + VMA_DESCRIPTOR_LEN * n;
        let mut i: usize = 0;
        while i < n
            invariant
                self@.shaped(),
                ts == self@.page_table,
                n == self@.vma.len(),
                n == ts.len(),
                i <= n,
                acc == REG_DESCRIPTOR_LEN + 8 + RDMA_DESCRIPTOR_LEN + 40 * n + tables_len(ts, i as nat),
            decreases n - i,
        {
            assert(self.page_table@[i as int]@ == ts[i as int]);
            let t = self.page_table[i].inner_pg_table.len();
            let pad: usize = if t % 2 == 1 { 4 } else { 0 };
            let rem = usize::MAX - acc;
            if t > rem / 12 || rem - 12 * t < 8 + pad {
                proof {
                    lemma_tables_len_mono(ts, (i + 1) as nat, n as nat);
                }
                return None;
            }
            acc = acc + 8 + pad + 12 * t;
            i = i + 1;
        }
        Some(acc)
    }

    /// Bytes that the encoding takes.
    pub fn serialization_buf_len(&self) -> (r: usize)
        requires
            self@.shaped(),
            fast_len(self@) <= usize::MAX,
        ensures
            r == fast_len(self@),
    {
        REG_DESCRIPTOR_LEN + self.vma_pg_table_serialization_buf_len() + VMA_DESCRIPTOR_LEN * self.vma.len()
            + RDMA_DESCRIPTOR_LEN
    }

    /// Appends the encoding.
    pub fn write_to(&self, out: &mut Vec<u8>)
        requires
            self@.shaped(),
        ensures
            final(out)@ == old(out)@ + enc_fast(self@),
    {
        let ghost d = self@;
        self.regs.write_to(out);
        push_u64(out, self.vma.len() as u64);
        let ghost head = out@;
        let n = self.vma.len();
        let mut i: usize = 0;
        while i < n
            invariant
                d == self@,
                d.shaped(),
                n == d.vma.len(),
                i <= n,
                out@ == head + enc_sections(d.vma, d.page_table, i as nat),
            decreases n - i,
        {
            write_vma(out, &self.vma[i]);
            assert(self.page_table@[i as int]@ == d.page_table[i as int]);
            self.page_table[i].write_to(out);
            assert(out@ =~= head + enc_sections(d.vma, d.page_table, (i + 1) as nat));
            i = i + 1;
        }
        self.machine_info.write_to(out);
        assert(out@ =~= old(out)@ + enc_fast(d));
    }

    /// Writes the encoding at the front of `bytes`; `false`, with `bytes`
    /// untouched, where they are fewer than the encoding needs.
    pub fn serialize(&self, bytes: &mut Vec<u8>) -> (r: bool)
        requires
            self@.shaped(),
            fast_len(self@) <= usize::MAX,
        ensures
            r == (old(bytes)@.len() >= fast_len(self@)),
            r ==> final(bytes)@ == enc_fast(self@) + old(bytes)@.subrange(
                fast_len(self@),
                old(bytes)@.len() as int,
            ),
            !r ==> final(bytes)@ == old(bytes)@,
    {
        let need = self.serialization_buf_len();
        if bytes.len() < need {
            return false;
        }
        let mut out: Vec<u8> = Vec::new();
        self.write_to(&mut out);
        proof {
            lemma_enc_fast_len(self@);
        }
        copy_prefix(bytes, &out);
        true
    }

    /// The valid descriptor that `bytes` start with; `None` where they are
    /// truncated or what they hold is malformed.
    pub fn deserialize(bytes: &[u8]) -> (r: Option<FastDescriptor>)
        ensures
            match r {
                Some(d) => fast_from_bytes(bytes@) == Some(d@),
                None => fast_from_bytes(bytes@) is None,
            },
    {
        let ghost s = bytes@;
        let len = bytes.len();
        let regs = match RegDescriptor::read_from(bytes, 0) {
            Some(r) => r,
            None => return None,
        };
        let n = match read_u64(bytes, REG_DESCRIPTOR_LEN) {
            Some(n) => n,
            None => return None,
        };
        let p0: usize = REG_DESCRIPTOR_LEN + 8;
        let mut vmas: Vec<VMADescriptor> = Vec::new();
        let mut pts: Vec<VMAPageTable> = Vec::new();
        let mut pos: usize = p0;
        let mut i: u64 = 0;
        while i < n
            invariant
                len == s.len(),
                s == bytes@,
                pos <= len,
                i <= n,
                fits(s, 0, REG_DESCRIPTOR_LEN + 8),
                n == dec_u64(s, REG_DESCRIPTOR_LEN as int),
                p0 == REG_DESCRIPTOR_LEN + 8,
                vmas@.len() == i,
                pts@.len() == i,
                parse_sections(s, p0 as int, i as nat) == Some((vmas@, tables_view(pts@), pos as int)),
            decreases n - i,
        {
            let v = match read_vma(bytes, pos) {
                Some(v) => v,
                None => {
                    proof {
                        lemma_parse_sections_none(s, p0 as int, (i + 1) as nat, n as nat);
                    }
                    return None;
                },
            };
            let (t, q) = match VMAPageTable::read_from(bytes, pos + VMA_DESCRIPTOR_LEN) {
                Some(x) => x,
                None => {
                    proof {
                        lemma_parse_sections_none(s, p0 as int, (i + 1) as nat, n as nat);
                    }
                    return None;
                },
            };
            vmas.push(v);
            let ghost old_pts = pts@;
            pts.push(t);
            assert(tables_view(pts@) =~= tables_view(old_pts).push(t@));
            pos = q;
            i = i + 1;
        }
        let machine_info = match RDMADescriptor::read_from(bytes, pos) {
            Some(m) => m,
            None => return None,
        };
        let d = FastDescriptor { regs, page_table: pts, vma: vmas, machine_info };
        assert(parse_fast(s) == Some(d@));
        if d.check_valid() {
            Some(d)
        } else {
            None
        }
    }

    /// Turns the per-area page tables into one flat table of
    /// `(virtual address, physical address)` entries.
    pub fn to_descriptor(&self) -> (r: Descriptor)
        requires
            offsets_inside(self@),
        ensures
            r@ == flatten(self@),
            forall|k: int| 0 <= k < r@.page_table.len() ==> covers(r@.vma, (#[trigger] r@.page_table[k]).0 as int),
            self@.valid() ==> vmas_valid(r@.vma) && entries_fit(r@.vma, r@.page_table),
    {
        let ghost d = self@;
        let mut page_table = FlatPageTable::new();
        let n = self.page_table.len();
        let mut i: usize = 0;
        while i < n
            invariant
                d == self@,
                offsets_inside(d),
                n == d.page_table.len(),
                i <= n,
                page_table@ == flat_entries(d.vma, d.page_table, i as nat),
                forall|k: int| 0 <= k < page_table@.len() ==> covers(d.vma, (#[trigger] page_table@[k]).0 as int),
                d.valid() ==> entries_fit(d.vma, page_table@),
            decreases n - i,
        {
            let start = self.vma[i].start;
            let t = &self.page_table[i];
            assert(t@ == d.page_table[i as int]);
            let ghost base = page_table@;
            let mut k: usize = 0;
            while k < t.inner_pg_table.len()
                invariant
                    d == self@,
                    offsets_inside(d),
                    i < n,
                    n == d.page_table.len(),
                    start == d.vma[i as int].start,
                    t@ == d.page_table[i as int],
                    k <= t@.len(),
                    page_table@ == base + area_entries(start, t@.subrange(0, k as int)),
                    forall|j: int| 0 <= j < page_table@.len() ==> covers(d.vma, (#[trigger] page_table@[j]).0 as int),
                    d.valid() ==> entries_fit(d.vma, page_table@),
                decreases t@.len() - k,
            {
                let (off, pa) = t.inner_pg_table[k];
                assert(t@[k as int] == (off, pa));
                assert(d.page_table[i as int][k as int] == (off, pa));
                assert((off as int) < d.vma[i as int].size());
                let va = start + off as u64;
                assert(d.vma[i as int].contains(va as int));
                page_table.add_one(va, pa);
                assert(area_entries(start, t@.subrange(0, k + 1)) =~= area_entries(start, t@.subrange(0, k as int)).push((va, pa)));
                assert(covers(d.vma, va as int));
                proof {
                    if d.valid() {
                        assert(table_fits(d.vma[i as int], t@));
                    }
                }
                k = k + 1;
            }
            assert(t@.subrange(0, t@.len() as int) =~= t@);
            i = i + 1;
        }
        Descriptor {
            regs: self.regs.duplicate(),
            page_table,
            vma: self.vma.clone(),
            machine_info: self.machine_info.duplicate(),
        }
    }

    /// Tells whether the descriptor is valid.
    pub fn is_valid(&self) -> (r: bool)
        ensures
            r == self@.valid(),
    {
        if self.regs.bytes.len() != REG_DESCRIPTOR_LEN || self.page_table.len() != self.vma.len()
            || self.machine_info.gid.len() != GID_TEXT_LEN {
            return false;
        }
        self.check_valid()
    }

    /// Tells whether the shaped descriptor is valid.
    fn check_valid(&self) -> (r: bool)
        requires
            self@.regs.len() == REG_DESCRIPTOR_LEN,
            self@.page_table.len() == self@.vma.len(),
            self@.machine_info.shaped(),
        ensures
            r == self@.valid(),
    {
        let ghost d = self@;
        if !check_vmas(&self.vma) {
            return false;
        }
        let mut i: usize = 0;
        while i < self.vma.len()
            invariant
                d == self@,
                vmas_valid(d.vma),
                d.page_table.len() == d.vma.len(),
                i <= d.vma.len(),
                forall|j: int| 0 <= j < i ==> table_fits(#[trigger] d.vma[j], d.page_table[j]),
            decreases d.vma.len() - i,
        {
            assert(d.vma[i as int].valid());
            if !check_table(&self.vma[i], &self.page_table[i]) {
                return false;
            }
            i = i + 1;
        }
        if !check_gid_text(self.machine_info.gid.as_slice()) {
            return false;
        }
        assert forall|j: int| 0 <= j < d.page_table.len() implies (#[trigger] d.page_table[j]).len() <= u64::MAX by {
            assert(d.page_table[j].len() <= d.vma[j].size() / 4096);
        }
        true
    }
}

} // verus!
