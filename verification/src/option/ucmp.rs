//! UNSAFE Compression.
use vstd::prelude::*;

verus! {

pub const KIND: u8 = 192;

} // verus!
