//! RFC 3692-style UNSAFE experiments.
use vstd::prelude::*;

verus! {

pub const KIND: u8 = 254;

} // verus!
