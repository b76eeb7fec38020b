//! Buffer shaping: interleaving two mono channels into one stereo buffer, and
//! the oversampling factor of the host's waveshaper.
use vstd::prelude::*;

verus! {

/// Interleave two equal-length mono buffers into stereo (L, R, L, R, …).
pub fn interleave<T: Copy>(left: &[T], right: &[T]) -> (out: Vec<T>)
    requires
        left.len() == right.len(),
        2 * left.len() <= usize::MAX,
    ensures
        out@.len() == 2 * left.len(),
        forall|i: int|
            0 <= i < left.len() ==> out@[2 * i] == left@[i] && out@[2 * i + 1] == right@[i],
{
    let mut out: Vec<T> = Vec::new();
    let mut i: usize = 0;
    while i < left.len()
        invariant
            left.len() == right.len(),
            i <= left.len(),
            out@.len() == 2 * i,
            forall|k: int| 0 <= k < i ==> out@[2 * k] == left@[k] && out@[2 * k + 1] == right@[k],
        decreases left.len() - i,
    {
        out.push(left[i]);
        out.push(right[i]);
        i = i + 1;
    }
    out
}

/// The oversampling factor a waveshaper runs at: 2 or 4 as asked, none (1)
/// for any other request.
pub fn oversample_factor(oversample: u8) -> (f: usize)
    ensures
        f == (if oversample == 2 {
            2usize
        } else if oversample == 4 {
            4usize
        } else {
            1usize
        }),
{
    match oversample {
        2 => 2,
        4 => 4,
        _ => 1,
    }
}

} // verus!
