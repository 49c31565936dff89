//! What the server knows of a UPS device, whatever bus it sits on.

use vstd::prelude::*;

verus! {

/// A UPS device: its configured name and what it says of itself.
pub trait UpsDevice {
    fn name(&self) -> String;

    fn manufacturer_name(&self) -> Option<String>;

    fn product_name(&self) -> Option<String>;

    fn serial_number(&self) -> Option<String>;
}

/// The text of an optional string.
pub open spec fn optional_text(s: Option<String>) -> Option<Seq<char>> {
    match s {
        Some(s) => Some(s@),
        None => None,
    }
}

/// A copy of an optional string.
pub fn copy_optional(s: &Option<String>) -> (r: Option<String>)
    ensures
        optional_text(r) == optional_text(*s),
{
    match s {
        Some(s) => Some(s.clone()),
        None => None,
    }
}

} // verus!
