//! The discovery RPC: a `Query` names a published key, and its reply gives
//! where that key's serialized descriptor can be read with one-sided RDMA.

use vstd::prelude::*;
use crate::codec::{
    dec_u32, dec_u64, enc_u32, enc_u64, fits, lemma_dec_enc_u32, lemma_dec_enc_u64,
    lemma_holds_split, push_u32, push_u64, read_u32, read_u64,
};

verus! {

/// Bytes of an encoded reply.
pub const LOOKUP_REPLY_LEN: usize = 20;

/// The RPCs that the service answers.
#[derive(Clone, Copy, Debug, PartialEq, Eq, Structural)]
pub enum RPCId {
    /// Look a published descriptor up by key.
    Query,
}

impl RPCId {
    /// The id on the wire.
    pub fn to_raw(&self) -> (r: u32)
        ensures
            r == 1,
    {
        match self {
            RPCId::Query => 1,
        }
    }

    /// The RPC with this wire id; `None` for an unknown id, which the server
    /// answers with a negative status.
    pub fn from_raw(id: u32) -> (r: Option<RPCId>)
        ensures
            r == (if id == 1 { Some(RPCId::Query) } else { None::<RPCId> }),
    {
        if id == 1 {
            Some(RPCId::Query)
        } else {
            None
        }
    }
}

/// The payload of a `Query`: the key, little-endian.
pub fn encode_query(handler_id: u64) -> (r: Vec<u8>)
    ensures
        r@ == enc_u64(handler_id),
{
    let mut out: Vec<u8> = Vec::new();
    push_u64(&mut out, handler_id);
    out
}

/// The key that a `Query` payload names; `None` where it is shorter than a key.
pub fn decode_query(payload: &[u8]) -> (r: Option<u64>)
    ensures
        r == (if fits(payload@, 0, 8) { Some(dec_u64(payload@, 0)) } else { None::<u64> }),
{
    read_u64(payload, 0)
}

/// Where a published descriptor can be read: its address, its length in
/// bytes and the remote key of its region.
#[derive(Clone, Copy, Debug, PartialEq, Eq, Structural)]
pub struct DescriptorLookupReply {
    pub addr: u64,
    pub len: u64,
    pub rkey: u32,
}

pub open spec fn enc_reply(d: DescriptorLookupReply) -> Seq<u8> {
    enc_u64(d.addr) + enc_u64(d.len) + enc_u32(d.rkey)
}

/// The reply that `s` starts with, where it is long enough.
pub open spec fn reply_from_bytes(s: Seq<u8>) -> Option<DescriptorLookupReply> {
    if fits(s, 0, LOOKUP_REPLY_LEN as int) {
        Some(DescriptorLookupReply { addr: dec_u64(s, 0), len: dec_u64(s, 8), rkey: dec_u32(s, 16) })
    } else {
        None
    }
}

/// A reply reads back from its encoding, whatever follows it.
pub proof fn lemma_reply_round_trip(d: DescriptorLookupReply, rest: Seq<u8>)
    ensures
        reply_from_bytes(enc_reply(d) + rest) == Some(d),
{
    let s = enc_reply(d) + rest;
    assert(s.subrange(0, 20) =~= enc_reply(d));
    lemma_holds_split(s, 0, enc_u64(d.addr) + enc_u64(d.len), enc_u32(d.rkey));
    lemma_holds_split(s, 0, enc_u64(d.addr), enc_u64(d.len));
    lemma_dec_enc_u64(s, 0, d.addr);
    lemma_dec_enc_u64(s, 8, d.len);
    lemma_dec_enc_u32(s, 16, d.rkey);
}

impl DescriptorLookupReply {
    pub fn serialize(&self) -> (r: Vec<u8>)
        ensures
            r@ == enc_reply(*self),
    {
        let mut out: Vec<u8> = Vec::new();
        push_u64(&mut out, self.addr);
        push_u64(&mut out, self.len);
        push_u32(&mut out, self.rkey);
        assert(out@ =~= enc_reply(*self));
        out
    }

    /// The reply that `bytes` start with; `None` where they are too short.
    pub fn deserialize(bytes: &[u8]) -> (r: Option<DescriptorLookupReply>)
        ensures
            r == reply_from_bytes(bytes@),
    {
        if bytes.len() < LOOKUP_REPLY_LEN {
            return None;
        }
        Some(DescriptorLookupReply {
            addr: read_u64(bytes, 0).unwrap(),
            len: read_u64(bytes, 8).unwrap(),
            rkey: read_u32(bytes, 16).unwrap(),
        })
    }
}

} // verus!
