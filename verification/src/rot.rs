//! A rotation cipher over ASCII letters: letters advance by a fixed amount
//! within their case, every other byte passes through unchanged.
use vstd::prelude::*;
use vstd::slice::slice_index_get;

verus! {

/// The rotation of one byte: an ASCII letter advances by `rot` places within
/// its own case, wrapping around; any other byte is unchanged.
pub open spec fn spec_rot_byte(b: u8, rot: u8) -> u8 {
    if 65 <= b <= 90 {
        (65 + ((b - 65 + rot) % 26)) as u8
    } else if 97 <= b <= 122 {
        (97 + ((b - 97 + rot) % 26)) as u8
    } else {
        b
    }
}

/// Rotates one byte. The bound on `rot` keeps the intermediate sum within a
/// byte; every useful rotation amount lies far below it.
pub fn rot_byte(b: u8, rot: u8) -> (r: u8)
    requires
        rot <= 230,
    ensures
        r == spec_rot_byte(b, rot),
{
    if 65 <= b && b <= 90 {
        65 + (b - 65 + rot) % 26
    } else if 97 <= b && b <= 122 {
        97 + (b - 97 + rot) % 26
    } else {
        b
    }
}

/// Rotates every byte of `data` independently.
pub fn rot_apply(data: &[u8], rot: u8) -> (r: Vec<u8>)
    requires
        rot <= 230,
    ensures
        r@.len() == data@.len(),
        forall|i: int| 0 <= i < data@.len() ==> r@[i] == spec_rot_byte(data@[i], rot),
{
    let mut out: Vec<u8> = Vec::new();
    let mut i: usize = 0;
    while i < data.len()
        invariant
            rot <= 230,
            i <= data@.len(),
            out@.len() == i,
            forall|j: int| 0 <= j < i ==> out@[j] == spec_rot_byte(data@[j], rot),
        decreases data@.len() - i,
    {
        out.push(rot_byte(*slice_index_get(data, i), rot));
        i = i + 1;
    }
    out
}

} // verus!
