//! Footprint pad numbering.

use vstd::prelude::*;

use crate::kicad::board::Pin;
use crate::text::{decimal, usize_to_string};

verus! {

/// What [`pin_number`] returns: the pin's explicit number, else its 1-based
/// index.
pub open spec fn pin_number_spec(pin: Pin, index: nat) -> Seq<char> {
    match pin.number {
        Some(n) => n@,
        None => decimal(index + 1),
    }
}

/// Resolve the physical pad number for a pin: the explicit `number` when
/// set, otherwise the 1-based pin index.
pub fn pin_number(pin: &Pin, index: usize) -> (r: String)
    requires
        index < usize::MAX,
    ensures
        r@ == pin_number_spec(*pin, index as nat),
{
    match &pin.number {
        Some(n) => n.clone(),
        None => usize_to_string(index + 1),
    }
}

} // verus!
