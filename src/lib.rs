use vstd::prelude::*;

pub mod flags;
pub mod id128;
pub mod entry;
pub mod journal;

verus! {

/// The outcome of a call into the journal library: the value on success, or
/// the negative status that the call reported.
pub type SdResult<T> = Result<T, i32>;

/// Maps a raw status to a result: a negative status is a failure that carries
/// the status itself, anything else is success.
pub fn checked(ret: i32) -> (r: SdResult<i32>)
    ensures
        ret < 0 ==> r == Err::<i32, i32>(ret),
        ret >= 0 ==> r == Ok::<i32, i32>(ret),
{
    if ret < 0 {
        Err(ret)
    } else {
        Ok(ret)
    }
}

} // verus!
