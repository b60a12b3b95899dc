//! The settings of a run, and what makes them acceptable.

use vstd::prelude::*;

verus! {

/// The settings of a run: where the three files are, how many frames and
/// cached translations there are, how long a frame is, and how long to pause
/// after each access.
#[derive(Debug)]
pub struct Config {
    pub file_storage: String,
    pub file_validation: String,
    pub file_address: String,
    pub size_table: u32,
    pub size_tlb: u32,
    pub size_frame: u32,
    pub delay_us: u32,
}

/// Why a configuration is refused.
#[derive(Debug, PartialEq, Eq, Structural, Clone, Copy)]
pub enum Error {
    /// `size_tlb` is zero, or greater than `size_table`.
    TlbSize,
    /// `size_frame` is not a power of two.
    FrameSize,
}

/// `n` is one of 1, 2, 4, 8 and so on.
pub open spec fn is_power_of_two(n: nat) -> bool
    decreases n,
{
    n == 1 || (n > 1 && n % 2 == 0 && is_power_of_two(n / 2))
}

/// Whether `n` is a power of two.
pub fn power_of_two(n: u32) -> (result: bool)
    ensures
        result == is_power_of_two(n as nat),
{
    let mut rest = n;
    while rest > 1 && rest % 2 == 0
        invariant
            is_power_of_two(rest as nat) == is_power_of_two(n as nat),
        decreases rest,
    {
        rest = rest / 2;
    }
    rest == 1
}

impl Config {
    /// The buffer of translations holds at least one entry and no more than
    /// there are frames.
    pub open spec fn tlb_fits(&self) -> bool {
        0 < self.size_tlb <= self.size_table
    }

    /// Whether the configuration is acceptable, and if not, what is wrong
    /// with it. The size of the buffer of translations is looked at first.
    pub open spec fn validate_spec(&self) -> Result<(), Error> {
        if !self.tlb_fits() {
            Err(Error::TlbSize)
        } else if !is_power_of_two(self.size_frame as nat) {
            Err(Error::FrameSize)
        } else {
            Ok(())
        }
    }

    /// Says whether the configuration is acceptable, and if not, what is wrong
    /// with it.
    pub fn validate(&self) -> (result: Result<(), Error>)
        ensures
            result == self.validate_spec(),
    {
        if self.size_tlb == 0 || self.size_tlb > self.size_table {
            Err(Error::TlbSize)
        } else if !power_of_two(self.size_frame) {
            Err(Error::FrameSize)
        } else {
            Ok(())
        }
    }
}

} // verus!
