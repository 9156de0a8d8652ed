//! Authentication.
use vstd::prelude::*;

verus! {

pub const KIND: u8 = 0x9;

} // verus!
