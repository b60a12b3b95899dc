//! Logical addresses and their three fields.

use crate::text::{parse_u32, split, tokens, u32_of, Error};
use crate::{MASK_OFFSET, MASK_PAGE};
use vstd::prelude::*;
use vstd::std_specs::convert::FromSpecImpl;

verus! {

/// A 32-bit logical address, split into its fields: the offset in bits 0 to 7,
/// the page number in bits 8 to 15 and the remaining high bits, which take no
/// part in a translation but do count when two addresses are compared.
#[derive(PartialEq, Eq, Structural, Debug, Clone, Copy)]
pub struct VirtualAddress {
    pub number_page: u8,
    pub number_offset: u8,
    pub extra_bits: u16,
}

/// The fields of the address `value`.
pub open spec fn decode(value: u32) -> VirtualAddress {
    VirtualAddress {
        number_page: ((value >> 8) & 0xFF) as u8,
        number_offset: (value & 0xFF) as u8,
        extra_bits: (value >> 16) as u16,
    }
}

impl VirtualAddress {
    /// The number that the three fields spell.
    pub open spec fn raw(self) -> int {
        self.extra_bits * 0x1_0000 + self.number_page * 0x100 + self.number_offset
    }

    /// Puts the three fields back together.
    pub fn to_u32(&self) -> (value: u32)
        ensures
            value == self.raw(),
            decode(value) == *self,
    {
        let page = self.number_page;
        let offset = self.number_offset;
        let extra = self.extra_bits;
        let value = ((extra as u32) << 16) | ((page as u32) << 8) | (offset as u32);
        assert(value == extra * 0x1_0000 + page * 0x100 + offset && ((value >> 8) & 0xFF) as u8
            == page && (value & 0xFF) as u8 == offset && (value >> 16) as u16 == extra)
            by (bit_vector)
            requires
                value == ((extra as u32) << 16) | ((page as u32) << 8) | (offset as u32),
        ;
        value
    }
}

impl FromSpecImpl<u32> for VirtualAddress {
    open spec fn obeys_from_spec() -> bool {
        true
    }

    open spec fn from_spec(value: u32) -> Self {
        decode(value)
    }
}

impl From<u32> for VirtualAddress {
    /// Splits an address into its fields.
    fn from(value: u32) -> (address: Self) {
        let page = (value & MASK_PAGE) >> 8;
        let offset = value & MASK_OFFSET;
        let extra = ((!(MASK_OFFSET | MASK_PAGE)) & value) >> 16;
        assert(page == (value >> 8) & 0xFF && page < 0x100 && offset < 0x100 && extra == value
            >> 16 && extra < 0x1_0000) by (bit_vector)
            requires
                page == (value & 0x0000FF00) >> 8,
                offset == value & 0x000000FF,
                extra == ((!(0x000000FFu32 | 0x0000FF00u32)) & value) >> 16,
        ;
        Self { number_page: page as u8, number_offset: offset as u8, extra_bits: extra as u16 }
    }
}

/// What a line of an address trace says: the line holds one token, the
/// logical address as a number of 32 bits.
pub open spec fn address_of(line: Seq<u8>) -> Result<VirtualAddress, Error> {
    let found = tokens(line);
    if found.len() == 0 {
        Err(Error::TooFewTokens)
    } else if found.len() > 1 {
        Err(Error::NotANumber)
    } else {
        match u32_of(found[0]) {
            Some(value) => Ok(decode(value)),
            None => Err(Error::NotANumber),
        }
    }
}

/// Reads a line of an address trace.
pub fn parse_address(line: &[u8]) -> (result: Result<VirtualAddress, Error>)
    ensures
        result == address_of(line@),
{
    let found = split(line);
    if found.len() == 0 {
        Err(Error::TooFewTokens)
    } else if found.len() > 1 {
        Err(Error::NotANumber)
    } else {
        match parse_u32(found[0].as_slice()) {
            Some(value) => Ok(VirtualAddress::from(value)),
            None => Err(Error::NotANumber),
        }
    }
}

/// Decoding an address and putting the fields together again gives the
/// address back.
pub proof fn lemma_decode_round_trip(value: u32)
    ensures
        decode(value).raw() == value,
{
    let page = ((value >> 8) & 0xFF) as u8;
    let offset = (value & 0xFF) as u8;
    let extra = (value >> 16) as u16;
    assert(extra * 0x1_0000 + page * 0x100 + offset == value) by (bit_vector)
        requires
            page == ((value >> 8) & 0xFF) as u8,
            offset == (value & 0xFF) as u8,
            extra == (value >> 16) as u16,
    ;
}

/// The fields of a decoded address are the quotients and remainders of the
/// address by the powers of 256.
pub proof fn lemma_decode_fields(value: u32)
    ensures
        decode(value).number_offset == value % 0x100,
        decode(value).number_page == (value / 0x100) % 0x100,
        decode(value).extra_bits == value / 0x1_0000,
{
    assert(((value & 0xFF) as u8) == value % 0x100 && (((value >> 8) & 0xFF) as u8) == (value
        / 0x100) % 0x100 && ((value >> 16) as u16) == value / 0x1_0000) by (bit_vector);
}

} // verus!
