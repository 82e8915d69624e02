//! One virtual memory area of a published process.

use vstd::prelude::*;
use crate::codec::{
    dec_u64, enc_u64, holds_at, fits, decodes, fixed_width, lemma_dec_enc_u64, lemma_holds_split,
    push_u64, read_u64,
};

verus! {

/// Bytes in one page.
pub const PAGE_SIZE: u64 = 4096;

/// Bytes of one encoded area: five `u64`s.
pub const VMA_DESCRIPTOR_LEN: usize = 40;

/// One memory region `[start, end)` with its host flags, protection and file offset.
#[derive(Clone, Copy, Debug, PartialEq, Eq, Structural)]
pub struct VMADescriptor {
    pub start: u64,
    pub end: u64,
    pub flags: u64,
    pub prot: u64,
    pub offset: u64,
}

impl VMADescriptor {
    /// A non-empty range whose length is a whole number of pages.
    pub open spec fn valid(self) -> bool {
        self.start < self.end && (self.end - self.start) % (PAGE_SIZE as int) == 0
    }

    /// Bytes covered by the area.
    pub open spec fn size(self) -> int {
        self.end - self.start
    }

    /// `va` lies in the area.
    pub open spec fn contains(self, va: int) -> bool {
        self.start <= va < self.end
    }

    pub fn get_start(&self) -> (r: u64)
        ensures
            r == self.start,
    {
        self.start
    }

    pub fn get_end(&self) -> (r: u64)
        ensures
            r == self.end,
    {
        self.end
    }

    pub fn get_sz(&self) -> (r: u64)
        requires
            self.start <= self.end,
        ensures
            r == self.size(),
    {
        self.end - self.start
    }

    pub fn is_valid(&self) -> (r: bool)
        ensures
            r == self.valid(),
    {
        self.start < self.end && (self.end - self.start) % PAGE_SIZE == 0
    }
}

/// Start, end, flags, protection and offset, little-endian.
pub open spec fn enc_vma(v: VMADescriptor) -> Seq<u8> {
    enc_u64(v.start) + enc_u64(v.end) + enc_u64(v.flags) + enc_u64(v.prot) + enc_u64(v.offset)
}

/// The area whose encoding starts at `pos`.
pub open spec fn dec_vma(s: Seq<u8>, pos: int) -> VMADescriptor {
    VMADescriptor {
        start: dec_u64(s, pos),
        end: dec_u64(s, pos + 8),
        flags: dec_u64(s, pos + 16),
        prot: dec_u64(s, pos + 24),
        offset: dec_u64(s, pos + 32),
    }
}

pub open spec fn vma_encoder() -> spec_fn(VMADescriptor) -> Seq<u8> {
    |v: VMADescriptor| enc_vma(v)
}

pub open spec fn vma_decoder() -> spec_fn(Seq<u8>, int) -> VMADescriptor {
    |s: Seq<u8>, p: int| dec_vma(s, p)
}

/// Areas that are each valid, in ascending order and pairwise disjoint.
pub open spec fn vmas_valid(vs: Seq<VMADescriptor>) -> bool {
    &&& forall|i: int| 0 <= i < vs.len() ==> (#[trigger] vs[i]).valid()
    &&& forall|i: int, j: int| 0 <= i < j < vs.len() ==> (#[trigger] vs[i]).end <= (#[trigger] vs[j]).start
}

pub proof fn lemma_dec_enc_vma(s: Seq<u8>, pos: int, v: VMADescriptor)
    requires
        holds_at(s, pos, enc_vma(v)),
    ensures
        dec_vma(s, pos) == v,
{
    let e0 = enc_u64(v.start);
    let e1 = enc_u64(v.end);
    let e2 = enc_u64(v.flags);
    let e3 = enc_u64(v.prot);
    let e4 = enc_u64(v.offset);
    lemma_holds_split(s, pos, e0 + e1 + e2 + e3, e4);
    lemma_holds_split(s, pos, e0 + e1 + e2, e3);
    lemma_holds_split(s, pos, e0 + e1, e2);
    lemma_holds_split(s, pos, e0, e1);
    lemma_dec_enc_u64(s, pos, v.start);
    lemma_dec_enc_u64(s, pos + 8, v.end);
    lemma_dec_enc_u64(s, pos + 16, v.flags);
    lemma_dec_enc_u64(s, pos + 24, v.prot);
    lemma_dec_enc_u64(s, pos + 32, v.offset);
}

pub proof fn lemma_vma_codec()
    ensures
        fixed_width(vma_encoder(), 40),
        decodes(vma_encoder(), vma_decoder()),
{
    assert forall|s: Seq<u8>, p: int, x: VMADescriptor| #[trigger] holds_at(s, p, vma_encoder()(x))
        implies #[trigger] vma_decoder()(s, p) == x by {
        lemma_dec_enc_vma(s, p, x);
    }
}

/// Appends the encoding of `v`.
pub fn write_vma(out: &mut Vec<u8>, v: &VMADescriptor)
    ensures
        final(out)@ == old(out)@ + enc_vma(*v),
{
    push_u64(out, v.start);
    push_u64(out, v.end);
    push_u64(out, v.flags);
    push_u64(out, v.prot);
    push_u64(out, v.offset);
    assert(final(out)@ =~= old(out)@ + enc_vma(*v));
}

/// The area encoded at `pos`, or `None` where the bytes run out.
pub fn read_vma(b: &[u8], pos: usize) -> (r: Option<VMADescriptor>)
    ensures
        r == (if fits(b@, pos as int, 40) { Some(dec_vma(b@, pos as int)) } else { None::<VMADescriptor> }),
{
    if pos > b.len() || b.len() - pos < VMA_DESCRIPTOR_LEN {
        return None;
    }
    Some(VMADescriptor {
        start: read_u64(b, pos).unwrap(),
        end: read_u64(b, pos + 8).unwrap(),
        flags: read_u64(b, pos + 16).unwrap(),
        prot: read_u64(b, pos + 24).unwrap(),
        offset: read_u64(b, pos + 32).unwrap(),
    })
}

/// Tells whether the areas are valid, ascending and disjoint.
pub fn check_vmas(vs: &Vec<VMADescriptor>) -> (r: bool)
    ensures
        r == vmas_valid(vs@),
{
    let mut i: usize = 0;
    while i < vs.len()
        invariant
            i <= vs@.len(),
            vmas_valid(vs@.subrange(0, i as int)),
        decreases vs@.len() - i,
    {
        let v = vs[i];
        if !v.is_valid() {
            assert(!vmas_valid(vs@)) by {
                assert(!vs@[i as int].valid());
            }
            return false;
        }
        if i > 0 && vs[i - 1].end > v.start {
            assert(!vmas_valid(vs@)) by {
                assert(vs@[i - 1].end > vs@[i as int].start);
            }
            return false;
        }
        assert(vmas_valid(vs@.subrange(0, i + 1))) by {
            let p = vs@.subrange(0, i as int);
            let q = vs@.subrange(0, i + 1);
            assert forall|a: int, b: int| 0 <= a < b < q.len() implies (#[trigger] q[a]).end <= (#[trigger] q[b]).start by {
                if b < i {
                    assert(q[a] == p[a] && q[b] == p[b]);
                } else if a < i - 1 {
                    assert(p[a].end <= p[i - 1].start);
                    assert(p[i - 1].valid());
                }
            }
        }
        i = i + 1;
    }
    assert(vs@.subrange(0, vs@.len() as int) =~= vs@);
    true
}

} // verus!
