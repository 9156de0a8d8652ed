//! No Operation.
use vstd::prelude::*;

verus! {

pub const KIND: u8 = 0x1;

/// Error of `from_option` on another kind.
pub const KIND_MISMATCH: &'static str = "`nop` option kind mismatch.";

/// Error of `from_option` on an option that carries data.
pub const UNEXPECTED_DATA: &'static str = "`nop` option expected no data.";

/// Checks that an option is a no-operation.
pub fn from_option(tuple: (u8, &[u8])) -> (r: Result<(), &'static str>)
    ensures
        tuple.0 != KIND ==> r == Err::<(), &'static str>(KIND_MISMATCH),
        tuple.0 == KIND && tuple.1@.len() != 0 ==> r == Err::<(), &'static str>(UNEXPECTED_DATA),
        tuple.0 == KIND && tuple.1@.len() == 0 ==> r == Ok::<(), &'static str>(()),
{
    if tuple.0 != KIND {
        return Err(KIND_MISMATCH);
    } else if tuple.1.len() != 0 {
        return Err(UNEXPECTED_DATA);
    }
    Ok(())
}

/// The no-operation option: its kind and no data.
pub fn to_option() -> (r: Result<(u8, &'static [u8]), &'static str>)
    ensures
        r matches Ok((k, d)) && k == KIND && d@.len() == 0,
{
    let empty: &'static [u8] = &[];
    Ok((KIND, empty))
}

} // verus!
