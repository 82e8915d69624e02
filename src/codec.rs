//! Little-endian primitives over byte sequences, and the list encodings that
//! the descriptor formats are built from.

use vstd::prelude::*;

verus! {

/// The eight little-endian bytes of `v`.
pub open spec fn enc_u64(v: u64) -> Seq<u8> {
    seq![
        (v & 0xff) as u8,
        ((v >> 8u64) & 0xff) as u8,
        ((v >> 16u64) & 0xff) as u8,
        ((v >> 24u64) & 0xff) as u8,
        ((v >> 32u64) & 0xff) as u8,
        ((v >> 40u64) & 0xff) as u8,
        ((v >> 48u64) & 0xff) as u8,
        ((v >> 56u64) & 0xff) as u8,
    ]
}

/// The four little-endian bytes of `v`.
pub open spec fn enc_u32(v: u32) -> Seq<u8> {
    seq![
        (v & 0xff) as u8,
        ((v >> 8u32) & 0xff) as u8,
        ((v >> 16u32) & 0xff) as u8,
        ((v >> 24u32) & 0xff) as u8,
    ]
}

/// The `u64` whose little-endian bytes start at `pos`.
pub open spec fn dec_u64(s: Seq<u8>, pos: int) -> u64 {
    (s[pos] as u64) | ((s[pos + 1] as u64) << 8u64) | ((s[pos + 2] as u64) << 16u64) | ((s[pos
        + 3] as u64) << 24u64) | ((s[pos + 4] as u64) << 32u64) | ((s[pos + 5] as u64) << 40u64)
        | ((s[pos + 6] as u64) << 48u64) | ((s[pos + 7] as u64) << 56u64)
}

/// The `u32` whose little-endian bytes start at `pos`.
pub open spec fn dec_u32(s: Seq<u8>, pos: int) -> u32 {
    (s[pos] as u32) | ((s[pos + 1] as u32) << 8u32) | ((s[pos + 2] as u32) << 16u32) | ((s[pos
        + 3] as u32) << 24u32)
}

/// `k` bytes are available at `pos`.
pub open spec fn fits(s: Seq<u8>, pos: int, k: int) -> bool {
    0 <= pos && pos + k <= s.len()
}

/// The bytes at `pos` are exactly `e`.
pub open spec fn holds_at(s: Seq<u8>, pos: int, e: Seq<u8>) -> bool {
    fits(s, pos, e.len() as int) && s.subrange(pos, pos + e.len()) == e
}

proof fn lemma_u64_bytes(v: u64, b0: u8, b1: u8, b2: u8, b3: u8, b4: u8, b5: u8, b6: u8, b7: u8)
    requires
        b0 == (v & 0xff) as u8,
        b1 == ((v >> 8u64) & 0xff) as u8,
        b2 == ((v >> 16u64) & 0xff) as u8,
        b3 == ((v >> 24u64) & 0xff) as u8,
        b4 == ((v >> 32u64) & 0xff) as u8,
        b5 == ((v >> 40u64) & 0xff) as u8,
        b6 == ((v >> 48u64) & 0xff) as u8,
        b7 == ((v >> 56u64) & 0xff) as u8,
    ensures
        (b0 as u64) | ((b1 as u64) << 8u64) | ((b2 as u64) << 16u64) | ((b3 as u64) << 24u64) | ((
        b4 as u64) << 32u64) | ((b5 as u64) << 40u64) | ((b6 as u64) << 48u64) | ((b7 as u64)
            << 56u64) == v,
{
    assert((b0 as u64) | ((b1 as u64) << 8u64) | ((b2 as u64) << 16u64) | ((b3 as u64) << 24u64)
        | ((b4 as u64) << 32u64) | ((b5 as u64) << 40u64) | ((b6 as u64) << 48u64) | ((
    b7 as u64) << 56u64) == v) by (bit_vector)
        requires
            b0 == (v & 0xff) as u8,
            b1 == ((v >> 8u64) & 0xff) as u8,
            b2 == ((v >> 16u64) & 0xff) as u8,
            b3 == ((v >> 24u64) & 0xff) as u8,
            b4 == ((v >> 32u64) & 0xff) as u8,
            b5 == ((v >> 40u64) & 0xff) as u8,
            b6 == ((v >> 48u64) & 0xff) as u8,
            b7 == ((v >> 56u64) & 0xff) as u8,
    ;
}

proof fn lemma_u32_bytes(v: u32, b0: u8, b1: u8, b2: u8, b3: u8)
    requires
        b0 == (v & 0xff) as u8,
        b1 == ((v >> 8u32) & 0xff) as u8,
        b2 == ((v >> 16u32) & 0xff) as u8,
        b3 == ((v >> 24u32) & 0xff) as u8,
    ensures
        (b0 as u32) | ((b1 as u32) << 8u32) | ((b2 as u32) << 16u32) | ((b3 as u32) << 24u32) == v,
{
    assert((b0 as u32) | ((b1 as u32) << 8u32) | ((b2 as u32) << 16u32) | ((b3 as u32) << 24u32)
        == v) by (bit_vector)
        requires
            b0 == (v & 0xff) as u8,
            b1 == ((v >> 8u32) & 0xff) as u8,
            b2 == ((v >> 16u32) & 0xff) as u8,
            b3 == ((v >> 24u32) & 0xff) as u8,
    ;
}

/// Reading a `u64` where its encoding stands gives it back.
pub proof fn lemma_dec_enc_u64(s: Seq<u8>, pos: int, v: u64)
    requires
        holds_at(s, pos, enc_u64(v)),
    ensures
        dec_u64(s, pos) == v,
{
    let e = enc_u64(v);
    assert forall|k: int| 0 <= k < 8 implies s[pos + k] == e[k] by {
        assert(s.subrange(pos, pos + 8)[k] == s[pos + k]);
    }
    lemma_u64_bytes(v, s[pos], s[pos + 1], s[pos + 2], s[pos + 3], s[pos + 4], s[pos + 5], s[pos + 6], s[pos + 7]);
}

/// Reading a `u32` where its encoding stands gives it back.
pub proof fn lemma_dec_enc_u32(s: Seq<u8>, pos: int, v: u32)
    requires
        holds_at(s, pos, enc_u32(v)),
    ensures
        dec_u32(s, pos) == v,
{
    let e = enc_u32(v);
    assert forall|k: int| 0 <= k < 4 implies s[pos + k] == e[k] by {
        assert(s.subrange(pos, pos + 4)[k] == s[pos + k]);
    }
    lemma_u32_bytes(v, s[pos], s[pos + 1], s[pos + 2], s[pos + 3]);
}

/// Where `a + b` stands at `pos`, `a` stands at `pos` and `b` right after it.
pub proof fn lemma_holds_split(s: Seq<u8>, pos: int, a: Seq<u8>, b: Seq<u8>)
    requires
        holds_at(s, pos, a + b),
    ensures
        holds_at(s, pos, a),
        holds_at(s, pos + a.len(), b),
{
    let ab = a + b;
    assert(s.subrange(pos, pos + a.len()) =~= a) by {
        assert forall|k: int| 0 <= k < a.len() implies s.subrange(pos, pos + a.len())[k] == a[k] by {
            assert(s.subrange(pos, pos + ab.len())[k] == ab[k]);
        }
    }
    assert(s.subrange(pos + a.len(), pos + a.len() + b.len()) =~= b) by {
        assert forall|k: int| 0 <= k < b.len() implies s.subrange(pos + a.len(), pos + a.len() + b.len())[k] == b[k] by {
            assert(s.subrange(pos, pos + ab.len())[a.len() + k] == ab[a.len() + k]);
        }
    }
}

/// The encoding of a list: the encodings of its items one after the other.
pub open spec fn enc_seq<T>(xs: Seq<T>, e: spec_fn(T) -> Seq<u8>) -> Seq<u8>
    decreases xs.len(),
{
    if xs.len() == 0 {
        Seq::empty()
    } else {
        enc_seq(xs.drop_last(), e) + e(xs.last())
    }
}

/// `n` items of `w` bytes each, read with `d` from `pos` on.
pub open spec fn dec_seq<T>(s: Seq<u8>, pos: int, n: nat, w: nat, d: spec_fn(Seq<u8>, int) -> T) -> Seq<T> {
    Seq::new(n, |i: int| d(s, pos + w * i))
}

/// Every item encodes to `w` bytes.
pub open spec fn fixed_width<T>(e: spec_fn(T) -> Seq<u8>, w: nat) -> bool {
    forall|x: T| #[trigger] e(x).len() == w
}

/// `d` reads back whatever `e` wrote.
pub open spec fn decodes<T>(e: spec_fn(T) -> Seq<u8>, d: spec_fn(Seq<u8>, int) -> T) -> bool {
    forall|s: Seq<u8>, p: int, x: T| #[trigger] holds_at(s, p, e(x)) ==> #[trigger] d(s, p) == x
}

pub proof fn lemma_enc_seq_len<T>(xs: Seq<T>, e: spec_fn(T) -> Seq<u8>, w: nat)
    requires
        fixed_width(e, w),
    ensures
        enc_seq(xs, e).len() == w * xs.len(),
    decreases xs.len(),
{
    if xs.len() > 0 {
        lemma_enc_seq_len(xs.drop_last(), e, w);
        assert(e(xs.last()).len() == w);
        assert(w * xs.len() == w * (xs.len() - 1) + w) by (nonlinear_arith);
    }
}

/// One more item appends its encoding.
pub proof fn lemma_enc_seq_push<T>(xs: Seq<T>, x: T, e: spec_fn(T) -> Seq<u8>)
    ensures
        enc_seq(xs.push(x), e) == enc_seq(xs, e) + e(x),
{
    assert(xs.push(x).drop_last() =~= xs);
}

/// A list read back where its encoding stands.
pub proof fn lemma_dec_enc_seq<T>(
    s: Seq<u8>,
    pos: int,
    xs: Seq<T>,
    w: nat,
    e: spec_fn(T) -> Seq<u8>,
    d: spec_fn(Seq<u8>, int) -> T,
)
    requires
        fixed_width(e, w),
        decodes(e, d),
        holds_at(s, pos, enc_seq(xs, e)),
    ensures
        dec_seq(s, pos, xs.len(), w, d) == xs,
    decreases xs.len(),
{
    if xs.len() == 0 {
        assert(dec_seq(s, pos, xs.len(), w, d) =~= xs);
    } else {
        let ys = xs.drop_last();
        let x = xs.last();
        lemma_holds_split(s, pos, enc_seq(ys, e), e(x));
        lemma_dec_enc_seq(s, pos, ys, w, e, d);
        lemma_enc_seq_len(ys, e, w);
        assert(d(s, pos + enc_seq(ys, e).len()) == x);
        assert forall|i: int| 0 <= i < xs.len() implies dec_seq(s, pos, xs.len(), w, d)[i] == xs[i] by {
            if i < ys.len() {
                assert(dec_seq(s, pos, ys.len(), w, d)[i] == ys[i]);
            } else {
                assert(i == ys.len());
            }
        }
        assert(dec_seq(s, pos, xs.len(), w, d) =~= xs);
    }
}

/// The bytes of `v`, appended.
pub fn push_u64(out: &mut Vec<u8>, v: u64)
    ensures
        final(out)@ == old(out)@ + enc_u64(v),
{
    out.push((v & 0xff) as u8);
    out.push(((v >> 8u64) & 0xff) as u8);
    out.push(((v >> 16u64) & 0xff) as u8);
    out.push(((v >> 24u64) & 0xff) as u8);
    out.push(((v >> 32u64) & 0xff) as u8);
    out.push(((v >> 40u64) & 0xff) as u8);
    out.push(((v >> 48u64) & 0xff) as u8);
    out.push(((v >> 56u64) & 0xff) as u8);
    assert(final(out)@ =~= old(out)@ + enc_u64(v));
}

/// The bytes of `v`, appended.
pub fn push_u32(out: &mut Vec<u8>, v: u32)
    ensures
        final(out)@ == old(out)@ + enc_u32(v),
{
    out.push((v & 0xff) as u8);
    out.push(((v >> 8u32) & 0xff) as u8);
    out.push(((v >> 16u32) & 0xff) as u8);
    out.push(((v >> 24u32) & 0xff) as u8);
    assert(final(out)@ =~= old(out)@ + enc_u32(v));
}

/// The `u64` at `pos`, or `None` where fewer than eight bytes are left.
pub fn read_u64(b: &[u8], pos: usize) -> (r: Option<u64>)
    ensures
        r == (if fits(b@, pos as int, 8) { Some(dec_u64(b@, pos as int)) } else { None::<u64> }),
{
    if pos > b.len() || b.len() - pos < 8 {
        return None;
    }
    Some((b[pos] as u64) | ((b[pos + 1] as u64) << 8u64) | ((b[pos + 2] as u64) << 16u64) | ((b[pos
        + 3] as u64) << 24u64) | ((b[pos + 4] as u64) << 32u64) | ((b[pos + 5] as u64) << 40u64)
        | ((b[pos + 6] as u64) << 48u64) | ((b[pos + 7] as u64) << 56u64))
}

/// The `u32` at `pos`, or `None` where fewer than four bytes are left.
pub fn read_u32(b: &[u8], pos: usize) -> (r: Option<u32>)
    ensures
        r == (if fits(b@, pos as int, 4) { Some(dec_u32(b@, pos as int)) } else { None::<u32> }),
{
    if pos > b.len() || b.len() - pos < 4 {
        return None;
    }
    Some((b[pos] as u32) | ((b[pos + 1] as u32) << 8u32) | ((b[pos + 2] as u32) << 16u32) | ((b[pos
        + 3] as u32) << 24u32))
}

/// Overwrites the front of `dst` with `src`, keeping the rest.
pub fn copy_prefix(dst: &mut Vec<u8>, src: &Vec<u8>)
    requires
        src@.len() <= old(dst)@.len(),
    ensures
        final(dst)@ == src@ + old(dst)@.subrange(src@.len() as int, old(dst)@.len() as int),
{
    let mut i: usize = 0;
    while i < src.len()
        invariant
            i <= src@.len() <= dst@.len(),
            dst@.len() == old(dst)@.len(),
            forall|k: int| 0 <= k < i ==> dst@[k] == src@[k],
            forall|k: int| i <= k < dst@.len() ==> dst@[k] == old(dst)@[k],
        decreases src@.len() - i,
    {
        dst.set(i, src[i]);
        i = i + 1;
    }
    assert(dst@ =~= src@ + old(dst)@.subrange(src@.len() as int, old(dst)@.len() as int));
}


pub open spec fn u64_encoder() -> spec_fn(u64) -> Seq<u8> {
    |v: u64| enc_u64(v)
}

pub open spec fn u64_decoder() -> spec_fn(Seq<u8>, int) -> u64 {
    |s: Seq<u8>, p: int| dec_u64(s, p)
}

pub open spec fn u32_encoder() -> spec_fn(u32) -> Seq<u8> {
    |v: u32| enc_u32(v)
}

pub open spec fn u32_decoder() -> spec_fn(Seq<u8>, int) -> u32 {
    |s: Seq<u8>, p: int| dec_u32(s, p)
}

pub proof fn lemma_int_codecs()
    ensures
        fixed_width(u64_encoder(), 8),
        decodes(u64_encoder(), u64_decoder()),
        fixed_width(u32_encoder(), 4),
        decodes(u32_encoder(), u32_decoder()),
{
    assert forall|s: Seq<u8>, p: int, x: u64| #[trigger] holds_at(s, p, u64_encoder()(x))
        implies #[trigger] u64_decoder()(s, p) == x by {
        lemma_dec_enc_u64(s, p, x);
    }
    assert forall|s: Seq<u8>, p: int, x: u32| #[trigger] holds_at(s, p, u32_encoder()(x))
        implies #[trigger] u32_decoder()(s, p) == x by {
        lemma_dec_enc_u32(s, p, x);
    }
}

/// Appends `src`.
pub fn push_bytes(out: &mut Vec<u8>, src: &Vec<u8>)
    ensures
        final(out)@ == old(out)@ + src@,
{
    let mut i: usize = 0;
    while i < src.len()
        invariant
            i <= src@.len(),
            out@ =~= old(out)@ + src@.subrange(0, i as int),
        decreases src@.len() - i,
    {
        out.push(src[i]);
        i = i + 1;
    }
    assert(src@.subrange(0, src@.len() as int) =~= src@);
}

/// The `n` bytes at `pos`, or `None` where the bytes run out.
pub fn read_bytes(b: &[u8], pos: usize, n: usize) -> (r: Option<Vec<u8>>)
    ensures
        match r {
            Some(v) => fits(b@, pos as int, n as int) && v@ == b@.subrange(pos as int, pos + n),
            None => !fits(b@, pos as int, n as int),
        },
{
    let len = b.len();
    if pos > len || len - pos < n {
        return None;
    }
    let mut v: Vec<u8> = Vec::new();
    let mut i: usize = 0;
    while i < n
        invariant
            len == b@.len(),
            pos + n <= len,
            i <= n,
            v@ =~= b@.subrange(pos as int, pos + i),
        decreases n - i,
    {
        v.push(b[pos + i]);
        i = i + 1;
    }
    Some(v)
}

} // verus!
