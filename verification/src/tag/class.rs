//! Class of a tag.

use vstd::prelude::*;

verus! {

/// Class of a tag: the two high bits of the leading octet.
#[derive(Clone, Copy, Debug, PartialEq, Eq, Structural, PartialOrd, Ord, Hash)]
pub enum Class {
    /// Types that mean the same in every application.
    Universal,
    /// Types that one application defines.
    Application,
    /// Types whose meaning follows from where they stand.
    ContextSpecific,
    /// Types that one organisation defines.
    Private,
}

impl Class {
    /// The class as the two high bits of an octet.
    pub open spec fn spec_bits(self) -> u8 {
        match self {
            Class::Universal => 0x00,
            Class::Application => 0x40,
            Class::ContextSpecific => 0x80,
            Class::Private => 0xC0,
        }
    }

    /// The class as the two high bits of an octet.
    #[verifier::when_used_as_spec(spec_bits)]
    pub fn bits(self) -> (bits: u8)
        ensures
            bits == self.spec_bits(),
    {
        match self {
            Class::Universal => 0x00,
            Class::Application => 0x40,
            Class::ContextSpecific => 0x80,
            Class::Private => 0xC0,
        }
    }
}

} // verus!
