//! The RDMA endpoint of a published descriptor, and what a reader needs to
//! post one-sided reads against it.

use vstd::prelude::*;
use crate::codec::{
    dec_u32, dec_u64, enc_u32, enc_u64, holds_at, fits, lemma_dec_enc_u32, lemma_dec_enc_u64,
    lemma_holds_split, push_u32, push_u64, read_u32, read_u64,
};

verus! {

/// Characters of a GID in text form: eight groups of four hex digits.
pub const GID_TEXT_LEN: usize = 39;

/// Bytes of a raw GID.
pub const GID_RAW_LEN: usize = 16;

/// Bytes of one encoded endpoint.
pub const RDMA_DESCRIPTOR_LEN: usize = 71;

pub open spec fn is_hex(c: u8) -> bool {
    (48 <= c <= 57) || (97 <= c <= 102) || (65 <= c <= 70)
}

pub open spec fn hex_val(c: u8) -> int {
    if 48 <= c <= 57 {
        c - 48
    } else if 97 <= c <= 102 {
        c - 87
    } else {
        c - 55
    }
}

/// `xxxx:xxxx:xxxx:xxxx:xxxx:xxxx:xxxx:xxxx` with hex digits `x`.
pub open spec fn gid_text_valid(g: Seq<u8>) -> bool {
    &&& g.len() == GID_TEXT_LEN
    &&& forall|i: int| 0 <= i < GID_TEXT_LEN ==> if i % 5 == 4 {
        #[trigger] g[i] == 58
    } else {
        is_hex(g[i])
    }
}

/// Position in the text of the high digit of raw byte `k`.
pub open spec fn gid_digit_pos(k: int) -> int {
    5 * (k / 2) + 2 * (k % 2)
}

/// The sixteen bytes that a valid GID text spells.
pub open spec fn gid_raw(g: Seq<u8>) -> Seq<u8> {
    Seq::new(
        GID_RAW_LEN as nat,
        |k: int| (hex_val(g[gid_digit_pos(k)]) * 16 + hex_val(g[gid_digit_pos(k) + 1])) as u8,
    )
}

fn hex_digit(c: u8) -> (r: u8)
    requires
        is_hex(c),
    ensures
        r == hex_val(c),
{
    if 48 <= c && c <= 57 {
        c - 48
    } else if 97 <= c && c <= 102 {
        c - 87
    } else {
        c - 55
    }
}

/// Tells whether `g` is a GID in text form.
pub fn check_gid_text(g: &[u8]) -> (r: bool)
    ensures
        r == gid_text_valid(g@),
{
    if g.len() != GID_TEXT_LEN {
        return false;
    }
    let mut i: usize = 0;
    while i < GID_TEXT_LEN
        invariant
            g@.len() == GID_TEXT_LEN,
            i <= GID_TEXT_LEN,
            forall|j: int| 0 <= j < i ==> if j % 5 == 4 {
                #[trigger] g@[j] == 58
            } else {
                is_hex(g@[j])
            },
        decreases GID_TEXT_LEN - i,
    {
        let c = g[i];
        let ok = if i % 5 == 4 {
            c == 58
        } else {
            (48 <= c && c <= 57) || (97 <= c && c <= 102) || (65 <= c && c <= 70)
        };
        if !ok {
            assert(!gid_text_valid(g@)) by {
                assert(g@[i as int] == c);
            }
            return false;
        }
        i = i + 1;
    }
    true
}

/// The raw GID that a text GID spells, or `None` where the text is no GID.
pub fn parse_gid(g: &[u8]) -> (r: Option<Vec<u8>>)
    ensures
        match r {
            Some(raw) => gid_text_valid(g@) && raw@ == gid_raw(g@),
            None => !gid_text_valid(g@),
        },
{
    if !check_gid_text(g) {
        return None;
    }
    let mut raw: Vec<u8> = Vec::new();
    let mut k: usize = 0;
    while k < GID_RAW_LEN
        invariant
            gid_text_valid(g@),
            k <= GID_RAW_LEN,
            raw@ =~= gid_raw(g@).subrange(0, k as int),
        decreases GID_RAW_LEN - k,
    {
        let p = 5 * (k / 2) + 2 * (k % 2);
        assert(p == gid_digit_pos(k as int));
        assert(p % 5 != 4 && (p + 1) % 5 != 4 && p + 1 < 39);
        let hi = hex_digit(g[p]);
        let lo = hex_digit(g[p + 1]);
        raw.push(hi * 16 + lo);
        k = k + 1;
    }
    Some(raw)
}

/// The peer endpoint: GID text, service id, queue-pair hint, remote key of the
/// exported descriptor buffer, and the DC target's number and key.
#[derive(Debug)]
pub struct RDMADescriptor {
    pub gid: Vec<u8>,
    pub service_id: u64,
    pub qd_hint: u64,
    pub rkey: u32,
    pub dct_num: u32,
    pub dct_key: u64,
}

/// What an endpoint is, as plain values.
pub struct RdmaView {
    pub gid: Seq<u8>,
    pub service_id: u64,
    pub qd_hint: u64,
    pub rkey: u32,
    pub dct_num: u32,
    pub dct_key: u64,
}

impl View for RDMADescriptor {
    type V = RdmaView;

    open spec fn view(&self) -> RdmaView {
        RdmaView {
            gid: self.gid@,
            service_id: self.service_id,
            qd_hint: self.qd_hint,
            rkey: self.rkey,
            dct_num: self.dct_num,
            dct_key: self.dct_key,
        }
    }
}

impl RdmaView {
    /// The GID field has the width of a GID text.
    pub open spec fn shaped(self) -> bool {
        self.gid.len() == GID_TEXT_LEN
    }

    /// The GID is a GID text.
    pub open spec fn valid(self) -> bool {
        gid_text_valid(self.gid)
    }
}

/// GID text, service id, queue-pair hint, rkey, DC number and DC key.
pub open spec fn enc_rdma(m: RdmaView) -> Seq<u8> {
    m.gid + enc_u64(m.service_id) + enc_u64(m.qd_hint) + enc_u32(m.rkey) + enc_u32(m.dct_num)
        + enc_u64(m.dct_key)
}

/// The endpoint whose encoding starts at `pos`.
pub open spec fn dec_rdma(s: Seq<u8>, pos: int) -> RdmaView {
    RdmaView {
        gid: s.subrange(pos, pos + 39),
        service_id: dec_u64(s, pos + 39),
        qd_hint: dec_u64(s, pos + 47),
        rkey: dec_u32(s, pos + 55),
        dct_num: dec_u32(s, pos + 59),
        dct_key: dec_u64(s, pos + 63),
    }
}

pub proof fn lemma_dec_enc_rdma(s: Seq<u8>, pos: int, m: RdmaView)
    requires
        m.shaped(),
        holds_at(s, pos, enc_rdma(m)),
    ensures
        dec_rdma(s, pos) == m,
{
    let e1 = enc_u64(m.service_id);
    let e2 = enc_u64(m.qd_hint);
    let e3 = enc_u32(m.rkey);
    let e4 = enc_u32(m.dct_num);
    let e5 = enc_u64(m.dct_key);
    lemma_holds_split(s, pos, m.gid + e1 + e2 + e3 + e4, e5);
    lemma_holds_split(s, pos, m.gid + e1 + e2 + e3, e4);
    lemma_holds_split(s, pos, m.gid + e1 + e2, e3);
    lemma_holds_split(s, pos, m.gid + e1, e2);
    lemma_holds_split(s, pos, m.gid, e1);
    lemma_dec_enc_u64(s, pos + 39, m.service_id);
    lemma_dec_enc_u64(s, pos + 47, m.qd_hint);
    lemma_dec_enc_u32(s, pos + 55, m.rkey);
    lemma_dec_enc_u32(s, pos + 59, m.dct_num);
    lemma_dec_enc_u64(s, pos + 63, m.dct_key);
}

impl RDMADescriptor {
    /// A GID of zero bytes and zero numbers.
    pub fn zeroed() -> (r: RDMADescriptor)
        ensures
            r@.gid == Seq::new(GID_TEXT_LEN as nat, |i: int| 0u8),
            r.service_id == 0 && r.qd_hint == 0 && r.rkey == 0 && r.dct_num == 0 && r.dct_key == 0,
    {
        let mut gid: Vec<u8> = Vec::new();
        let mut i: usize = 0;
        while i < GID_TEXT_LEN
            invariant
                i <= GID_TEXT_LEN,
                gid@ =~= Seq::new(i as nat, |k: int| 0u8),
            decreases GID_TEXT_LEN - i,
        {
            gid.push(0u8);
            i = i + 1;
        }
        RDMADescriptor { gid, service_id: 0, qd_hint: 0, rkey: 0, dct_num: 0, dct_key: 0 }
    }

    /// A copy with the same fields.
    pub fn duplicate(&self) -> (r: RDMADescriptor)
        ensures
            r@ == self@,
    {
        let mut gid: Vec<u8> = Vec::new();
        let mut i: usize = 0;
        while i < self.gid.len()
            invariant
                i <= self.gid@.len(),
                gid@ =~= self.gid@.subrange(0, i as int),
            decreases self.gid@.len() - i,
        {
            gid.push(self.gid[i]);
            i = i + 1;
        }
        assert(gid@ =~= self.gid@);
        RDMADescriptor {
            gid,
            service_id: self.service_id,
            qd_hint: self.qd_hint,
            rkey: self.rkey,
            dct_num: self.dct_num,
            dct_key: self.dct_key,
        }
    }

    /// Appends the encoding.
    pub fn write_to(&self, out: &mut Vec<u8>)
        ensures
            final(out)@ == old(out)@ + enc_rdma(self@),
    {
        let mut i: usize = 0;
        let ghost start = out@;
        while i < self.gid.len()
            invariant
                i <= self.gid@.len(),
                out@ =~= start + self.gid@.subrange(0, i as int),
            decreases self.gid@.len() - i,
        {
            out.push(self.gid[i]);
            i = i + 1;
        }
        assert(self.gid@.subrange(0, self.gid@.len() as int) =~= self.gid@);
        push_u64(out, self.service_id);
        push_u64(out, self.qd_hint);
        push_u32(out, self.rkey);
        push_u32(out, self.dct_num);
        push_u64(out, self.dct_key);
        assert(out@ =~= start + enc_rdma(self@));
    }

    /// The endpoint encoded at `pos`, or `None` where the bytes run out.
    pub fn read_from(b: &[u8], pos: usize) -> (r: Option<RDMADescriptor>)
        ensures
            match r {
                Some(m) => fits(b@, pos as int, RDMA_DESCRIPTOR_LEN as int) && m@ == dec_rdma(b@, pos as int),
                None => !fits(b@, pos as int, RDMA_DESCRIPTOR_LEN as int),
            },
    {
        if pos > b.len() || b.len() - pos < RDMA_DESCRIPTOR_LEN {
            return None;
        }
        let mut gid: Vec<u8> = Vec::new();
        let mut i: usize = 0;
        let n = b.len();
        while i < GID_TEXT_LEN
            invariant
                n == b@.len(),
                pos + RDMA_DESCRIPTOR_LEN <= b@.len(),
                i <= GID_TEXT_LEN,
                gid@ =~= b@.subrange(pos as int, pos + i),
            decreases GID_TEXT_LEN - i,
        {
            gid.push(b[pos + i]);
            i = i + 1;
        }
        Some(RDMADescriptor {
            gid,
            service_id: read_u64(b, pos + 39).unwrap(),
            qd_hint: read_u64(b, pos + 47).unwrap(),
            rkey: read_u32(b, pos + 55).unwrap(),
            dct_num: read_u32(b, pos + 59).unwrap(),
            dct_key: read_u64(b, pos + 63).unwrap(),
        })
    }
}

/// What a one-sided read against the endpoint needs: the raw GID to resolve an
/// address handle from, the remote key and the DC target's number and key.
#[derive(Clone, Debug)]
pub struct AccessInfo {
    pub gid: Vec<u8>,
    pub rkey: u32,
    pub dct_num: u32,
    pub dct_key: u64,
}

impl AccessInfo {
    /// Derives the access information of an endpoint; `None` where its GID is
    /// no GID text.
    pub fn new(m: &RDMADescriptor) -> (r: Option<AccessInfo>)
        ensures
            match r {
                Some(a) => m@.valid() && a.gid@ == gid_raw(m@.gid) && a.rkey == m.rkey
                    && a.dct_num == m.dct_num && a.dct_key == m.dct_key,
                None => !m@.valid(),
            },
    {
        match parse_gid(m.gid.as_slice()) {
            Some(raw) => Some(AccessInfo { gid: raw, rkey: m.rkey, dct_num: m.dct_num, dct_key: m.dct_key }),
            None => None,
        }
    }
}

} // verus!
