//! What the host demands of a cartridge before trusting its output: that it
//! was authored at the device's sample rate, and that each render returns one
//! interleaved stereo pair per requested frame.
use vstd::prelude::*;

use crate::text::{decimal, decimal_string};

verus! {

pub open spec fn rate_mismatch_msg(cartridge: nat, device: nat) -> Seq<char> {
    "sample-rate mismatch: cartridge authored at "@ + decimal(cartridge) + " Hz, device at "@
        + decimal(device) + " Hz (v1 host does no resampling)"@
}

/// Accept a cartridge only if it was authored at the device's rate (the host
/// does no resampling).
pub fn check_sample_rate(cartridge_rate: u32, device_rate: u32) -> (r: Result<(), String>)
    ensures
        r is Ok <==> cartridge_rate == device_rate,
        r matches Err(m) ==> m@ == rate_mismatch_msg(cartridge_rate as nat, device_rate as nat),
{
    if cartridge_rate == device_rate {
        return Ok(());
    }
    let mut m = String::from_str("sample-rate mismatch: cartridge authored at ");
    let c = decimal_string(cartridge_rate as u64);
    m.append(c.as_str());
    m.append(" Hz, device at ");
    let d = decimal_string(device_rate as u64);
    m.append(d.as_str());
    m.append(" Hz (v1 host does no resampling)");
    Err(m)
}

pub open spec fn render_len_msg(got: nat, frames: nat) -> Seq<char> {
    "cartridge returned "@ + decimal(got) + " samples for "@ + decimal(frames) + " frames (expected "@
        + decimal(2 * frames) + " interleaved L/R)"@
}

/// Accept a rendered block only if it holds `2 * num_frames` samples
/// (interleaved L/R).
pub fn check_render_len(len: usize, num_frames: u32) -> (r: Result<(), String>)
    ensures
        r is Ok <==> len == 2 * num_frames,
        r matches Err(m) ==> m@ == render_len_msg(len as nat, num_frames as nat),
{
    let expected: u64 = num_frames as u64 * 2;
    if len as u64 == expected {
        return Ok(());
    }
    let mut m = String::from_str("cartridge returned ");
    let g = decimal_string(len as u64);
    m.append(g.as_str());
    m.append(" samples for ");
    let f = decimal_string(num_frames as u64);
    m.append(f.as_str());
    m.append(" frames (expected ");
    let e = decimal_string(expected);
    m.append(e.as_str());
    m.append(" interleaved L/R)");
    Err(m)
}

} // verus!
