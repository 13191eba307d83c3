//! A 32-bit set of connection-mode flags that keeps every bit it is given.

use vstd::prelude::*;

verus! {

/// Connect directly, with no proxy.
pub const DIRECT: u32 = 0x1;

/// Connect through the proxy server.
pub const PROXY: u32 = 0x2;

/// Use the automatic configuration script.
pub const AUTO_PROXY_URL: u32 = 0x4;

/// Detect the settings automatically.
pub const AUTO_DETECT: u32 = 0x8;

/// True when every bit of `mask` is set in `bits`.
pub open spec fn has_bits(bits: u32, mask: u32) -> bool {
    bits & mask == mask
}

/// `bits` with the bits of `mask` set or cleared; the other bits are kept.
pub open spec fn with_bits(bits: u32, mask: u32, value: bool) -> u32 {
    if value {
        bits | mask
    } else {
        bits & !mask
    }
}

/// The flag word. Bits outside the named ones are kept as they are.
#[derive(Clone, Copy, Debug, PartialEq, Eq, Structural)]
pub struct Flags {
    bits: u32,
}

impl View for Flags {
    type V = u32;

    closed spec fn view(&self) -> u32 {
        self.bits
    }
}

impl Flags {
    /// The flag set holding exactly `bits`, unknown bits included.
    pub fn from_bits_retain(bits: u32) -> (r: Flags)
        ensures
            r@ == bits,
    {
        Flags { bits }
    }

    /// The raw flag word.
    pub fn bits(&self) -> (r: u32)
        ensures
            r == self@,
    {
        self.bits
    }

    /// Whether every bit of `mask` is set.
    pub fn contains(&self, mask: u32) -> (r: bool)
        ensures
            r == has_bits(self@, mask),
    {
        self.bits & mask == mask
    }

    /// Sets (`value`) or clears the bits of `mask`, leaving every other bit alone.
    pub fn set(&mut self, mask: u32, value: bool)
        ensures
            final(self)@ == with_bits(old(self)@, mask, value),
            has_bits(final(self)@, mask) == (value || mask == 0),
            forall|i: u32|
                #![trigger (final(self)@ >> i)]
                i < 32 && (mask >> i) & 1 == 0 ==> (final(self)@ >> i) & 1 == (old(self)@ >> i)
                    & 1,
    {
        let ghost before = self.bits;
        if value {
            self.bits = self.bits | mask;
        } else {
            self.bits = self.bits & !mask;
        }
        let after = self.bits;
        assert(has_bits(after, mask) == (value || mask == 0)) by (bit_vector)
            requires
                after == (if value {
                    before | mask
                } else {
                    before & !mask
                }),
        ;
        assert forall|i: u32| i < 32 && (mask >> i) & 1 == 0 implies (after >> i) & 1 == (before
            >> i) & 1 by {
            assert(i < 32 && (mask >> i) & 1 == 0 ==> (after >> i) & 1 == (before >> i) & 1)
                by (bit_vector)
                requires
                    after == (if value {
                        before | mask
                    } else {
                        before & !mask
                    }),
            ;
        }
    }
}

} // verus!
