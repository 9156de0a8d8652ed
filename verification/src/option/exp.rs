//! RFC 3692-style experiments.
use vstd::prelude::*;

verus! {

pub const KIND: u8 = 0x7f;

} // verus!
