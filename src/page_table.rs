//! A flat page table: `(virtual address, physical address)` pairs.

use vstd::prelude::*;
use crate::codec::{dec_u64, enc_u64, holds_at, lemma_dec_enc_u64, lemma_holds_split, push_u64, decodes, fixed_width};

verus! {

/// Bytes of one encoded entry.
pub const FLAT_ENTRY_LEN: usize = 16;

/// Page entries in insertion order.
#[derive(Debug)]
pub struct FlatPageTable {
    pub entries: Vec<(u64, u64)>,
}

impl View for FlatPageTable {
    type V = Seq<(u64, u64)>;

    open spec fn view(&self) -> Seq<(u64, u64)> {
        self.entries@
    }
}

pub open spec fn enc_pair(e: (u64, u64)) -> Seq<u8> {
    enc_u64(e.0) + enc_u64(e.1)
}

pub open spec fn dec_pair(s: Seq<u8>, pos: int) -> (u64, u64) {
    (dec_u64(s, pos), dec_u64(s, pos + 8))
}

pub open spec fn pair_encoder() -> spec_fn((u64, u64)) -> Seq<u8> {
    |e: (u64, u64)| enc_pair(e)
}

pub open spec fn pair_decoder() -> spec_fn(Seq<u8>, int) -> (u64, u64) {
    |s: Seq<u8>, p: int| dec_pair(s, p)
}

pub proof fn lemma_pair_codec()
    ensures
        fixed_width(pair_encoder(), 16),
        decodes(pair_encoder(), pair_decoder()),
{
    assert forall|s: Seq<u8>, p: int, x: (u64, u64)| #[trigger] holds_at(s, p, pair_encoder()(x))
        implies #[trigger] pair_decoder()(s, p) == x by {
        lemma_holds_split(s, p, enc_u64(x.0), enc_u64(x.1));
        lemma_dec_enc_u64(s, p, x.0);
        lemma_dec_enc_u64(s, p + 8, x.1);
    }
}

pub fn write_pair(out: &mut Vec<u8>, e: (u64, u64))
    ensures
        final(out)@ == old(out)@ + enc_pair(e),
{
    push_u64(out, e.0);
    push_u64(out, e.1);
    assert(final(out)@ =~= old(out)@ + enc_pair(e));
}

impl FlatPageTable {
    pub fn new() -> (r: FlatPageTable)
        ensures
            r@ == Seq::<(u64, u64)>::empty(),
    {
        FlatPageTable { entries: Vec::new() }
    }

    /// Records that the page at `va` lives at `pa`.
    pub fn add_one(&mut self, va: u64, pa: u64)
        ensures
            final(self)@ == old(self)@.push((va, pa)),
    {
        self.entries.push((va, pa));
    }

    pub fn len(&self) -> (r: usize)
        ensures
            r == self@.len(),
    {
        self.entries.len()
    }

    pub fn duplicate(&self) -> (r: FlatPageTable)
        ensures
            r@ == self@,
    {
        let mut v: Vec<(u64, u64)> = Vec::new();
        let mut i: usize = 0;
        while i < self.entries.len()
            invariant
                i <= self@.len(),
                v@ =~= self@.subrange(0, i as int),
            decreases self@.len() - i,
        {
            v.push(self.entries[i]);
            i = i + 1;
        }
        assert(v@ =~= self@);
        FlatPageTable { entries: v }
    }
}

} // verus!
