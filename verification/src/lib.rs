//! blackcap: the verified core of a WebAssembly jukebox.
//!
//! - `song`: note names, tracker lanes, the play order of a song and its
//!   frame-sorted event timeline;
//! - `text`: characters, whitespace, words and decimal integers;
//! - `cli`: the host's command line and the settings it yields;
//! - `play`: the host's run loop, from time and events to the next step;
//! - `crossfade`: which sources the mixer plays and how far a crossfade got;
//! - `delay`: delay lines (circular histories with a read tap);
//! - `envelope`: the stages of an ADSR envelope;
//! - `noise`: the xorshift white-noise generator;
//! - `osc`: the oscillator waveforms;
//! - `fx`: interleaving stereo, the waveshaper's oversampling factor;
//! - `device`: choosing the audio device's output configuration;
//! - `player`: what the host demands of a cartridge;
//! - `front`: labels, list selection, keys and the texts shown to the user;
//! - `shared`: state shared between the audio threads and the front-end.
use vstd::prelude::*;

pub mod cli;
pub mod crossfade;
pub mod delay;
pub mod device;
pub mod envelope;
pub mod front;
pub mod fx;
pub mod noise;
pub mod osc;
pub mod play;
pub mod player;
pub mod shared;
pub mod song;
pub mod text;

verus! {

} // verus!
