//! Extended usages: a usage page and a usage ID together.

use vstd::prelude::*;

verus! {

/// A usage together with its usage page, as carried in 32-bit extended usage
/// items: the page in the upper 16 bits, the usage ID in the lower 16 bits.
#[derive(Debug, Clone, Copy, PartialEq, Eq, Structural)]
pub struct HidUsage {
    pub page: u16,
    pub id: u16,
}

/// The usage that a 32-bit extended usage value denotes: the page in the upper
/// 16 bits, the usage ID in the lower 16 bits.
pub open spec fn usage_from_u32(value: u32) -> HidUsage {
    HidUsage { page: (value / 0x10000) as u16, id: (value % 0x10000) as u16 }
}

/// The usage page of power devices.
pub const POWER_USAGE_PAGE: u16 = 0x84;

/// The usage ID of an uninterruptible power supply on the power device page.
pub const UPS_USAGE_ID: u16 = 0x04;

impl HidUsage {
    pub fn new(page: u16, id: u16) -> (usage: Self)
        ensures
            usage.page == page,
            usage.id == id,
    {
        HidUsage { page, id }
    }

    /// The page is the upper 16 bits of `value`, the usage ID the lower 16 bits.
    pub fn from_u32(value: u32) -> (usage: Self)
        ensures
            usage == usage_from_u32(value),
    {
        HidUsage { page: (value / 0x10000) as u16, id: (value % 0x10000) as u16 }
    }

    pub open spec fn spec_to_u32(self) -> u32 {
        (self.page as int * 0x10000 + self.id as int) as u32
    }

    /// The page in the upper 16 bits, the usage ID in the lower 16 bits.
    pub fn to_u32(&self) -> (value: u32)
        ensures
            value == self.spec_to_u32(),
    {
        (self.page as u32) * 0x10000 + (self.id as u32)
    }

    /// The usage of an uninterruptible power supply.
    pub fn ups() -> (usage: Self)
        ensures
            usage.page == POWER_USAGE_PAGE,
            usage.id == UPS_USAGE_ID,
    {
        HidUsage { page: POWER_USAGE_PAGE, id: UPS_USAGE_ID }
    }
}

/// Reading a 32-bit extended usage value and writing it back gives the value.
pub proof fn lemma_usage_u32_round_trip(value: u32)
    ensures
        usage_from_u32(value).spec_to_u32() == value,
{
}

/// Writing a usage as a 32-bit extended usage value and reading it back gives
/// the usage.
pub proof fn lemma_u32_usage_round_trip(usage: HidUsage)
    ensures
        usage_from_u32(usage.spec_to_u32()) == usage,
{
}

} // verus!
