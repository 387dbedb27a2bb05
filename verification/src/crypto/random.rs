//! Randomness from the operating system.

use vstd::prelude::*;

verus! {

/// `len` bytes from `getrandom::getrandom`, the operating system's random
/// source, or the (nonzero) code of the error that source reports. Nothing
/// is claimed of the bytes but their number.
#[verifier::external_body]
pub(crate) fn random_bytes(len: usize) -> (r: Result<Vec<u8>, u32>)
    ensures
        r matches Ok(v) ==> v@.len() == len,
        r matches Err(code) ==> code != 0,
{
    let mut buf = vec![0u8; len];
    match getrandom::getrandom(&mut buf) {
        Ok(()) => Ok(buf),
        Err(e) => Err(e.code().get()),
    }
}

} // verus!
