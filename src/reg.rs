//! The register file of a published process.

use vstd::prelude::*;
use crate::codec::{fits, push_bytes, read_bytes};

verus! {

/// Bytes of a register record: the 21 words of the user-mode register frame,
/// then the fs and gs bases.
pub const REG_DESCRIPTOR_LEN: usize = 184;

/// The user-mode register state at prepare time, kept as an opaque block that
/// is written and read verbatim.
#[derive(Debug)]
pub struct RegDescriptor {
    pub bytes: Vec<u8>,
}

impl View for RegDescriptor {
    type V = Seq<u8>;

    open spec fn view(&self) -> Seq<u8> {
        self.bytes@
    }
}

impl RegDescriptor {
    /// A record from its bytes; `None` where they are not exactly one record long.
    pub fn new(bytes: Vec<u8>) -> (r: Option<RegDescriptor>)
        ensures
            match r {
                Some(d) => d@ == bytes@,
                None => bytes@.len() != REG_DESCRIPTOR_LEN,
            },
            r is Some <==> bytes@.len() == REG_DESCRIPTOR_LEN,
    {
        if bytes.len() == REG_DESCRIPTOR_LEN {
            Some(RegDescriptor { bytes })
        } else {
            None
        }
    }

    /// All registers zero.
    pub fn zeroed() -> (r: RegDescriptor)
        ensures
            r@ == Seq::new(REG_DESCRIPTOR_LEN as nat, |i: int| 0u8),
    {
        let mut bytes: Vec<u8> = Vec::new();
        let mut i: usize = 0;
        while i < REG_DESCRIPTOR_LEN
            invariant
                i <= REG_DESCRIPTOR_LEN,
                bytes@ =~= Seq::new(i as nat, |k: int| 0u8),
            decreases REG_DESCRIPTOR_LEN - i,
        {
            bytes.push(0u8);
            i = i + 1;
        }
        RegDescriptor { bytes }
    }

    pub fn duplicate(&self) -> (r: RegDescriptor)
        ensures
            r@ == self@,
    {
        let mut bytes: Vec<u8> = Vec::new();
        push_bytes(&mut bytes, &self.bytes);
        assert(bytes@ =~= self@);
        RegDescriptor { bytes }
    }

    /// Appends the record verbatim.
    pub fn write_to(&self, out: &mut Vec<u8>)
        ensures
            final(out)@ == old(out)@ + self@,
    {
        push_bytes(out, &self.bytes);
    }

    /// The record at `pos`, or `None` where the bytes run out.
    pub fn read_from(b: &[u8], pos: usize) -> (r: Option<RegDescriptor>)
        ensures
            match r {
                Some(d) => fits(b@, pos as int, REG_DESCRIPTOR_LEN as int) && d@ == b@.subrange(
                    pos as int,
                    pos + REG_DESCRIPTOR_LEN,
                ),
                None => !fits(b@, pos as int, REG_DESCRIPTOR_LEN as int),
            },
    {
        match read_bytes(b, pos, REG_DESCRIPTOR_LEN) {
            Some(v) => Some(RegDescriptor { bytes: v }),
            None => None,
        }
    }
}

} // verus!
