//! UNSAFE Encryption.
use vstd::prelude::*;

verus! {

pub const KIND: u8 = 193;

} // verus!
