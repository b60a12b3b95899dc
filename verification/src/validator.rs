//! The records of a validation trace: what each access is expected to
//! return.

use crate::address::{decode, VirtualAddress};
use crate::text::{i8_of, parse_i8, parse_u32, split, tokens, u32_of, Error};
use crate::virtual_memory::AccessResult;
use vstd::prelude::*;

verus! {

/// The place, among the tokens of a record, of the logical address.
pub const FIELD_VIRTUAL: usize = 2;

/// The place, among the tokens of a record, of the physical address.
pub const FIELD_PHYSICAL: usize = 5;

/// The place, among the tokens of a record, of the value.
pub const FIELD_VALUE: usize = 7;

/// What a line of a validation trace says. The line has at least eight
/// tokens; the third is the logical address, the sixth the physical address,
/// and the eighth the value, a signed number of 8 bits.
pub open spec fn record_of(line: Seq<u8>) -> Result<AccessResult, Error> {
    let found = tokens(line);
    if found.len() <= FIELD_VALUE {
        Err(Error::TooFewTokens)
    } else {
        match (
            u32_of(found[FIELD_VIRTUAL as int]),
            u32_of(found[FIELD_PHYSICAL as int]),
            i8_of(found[FIELD_VALUE as int]),
        ) {
            (Some(address), Some(physical_address), Some(value)) => Ok(
                AccessResult { virtual_address: decode(address), physical_address, value },
            ),
            _ => Err(Error::NotANumber),
        }
    }
}

/// Reads a line of a validation trace.
pub fn parse_record(line: &[u8]) -> (result: Result<AccessResult, Error>)
    ensures
        result == record_of(line@),
{
    let found = split(line);
    if found.len() <= FIELD_VALUE {
        return Err(Error::TooFewTokens);
    }
    let address = parse_u32(found[FIELD_VIRTUAL].as_slice());
    let physical = parse_u32(found[FIELD_PHYSICAL].as_slice());
    let value = parse_i8(found[FIELD_VALUE].as_slice());
    match (address, physical, value) {
        (Some(address), Some(physical_address), Some(value)) => Ok(
            AccessResult {
                virtual_address: VirtualAddress::from(address),
                physical_address,
                value,
            },
        ),
        _ => Err(Error::NotANumber),
    }
}

} // verus!
