//! State shared between the audio/mixer threads and the TUI: a VU level (as
//! the bits of an `f32`), the running frame count (for the timeline), and the
//! now-playing metadata.
//!
//! Other threads change these values at any time, so what a read returns is
//! whatever was last stored by anyone: no contract here promises a value.
use std::sync::atomic::AtomicU32;
use std::sync::atomic::AtomicU64;
use std::sync::atomic::Ordering;
use std::sync::Mutex;
use vstd::prelude::*;

verus! {

/// What is playing: shown by the front-end, set when a source becomes active.
#[derive(Clone)]
pub struct NowPlaying {
    pub title: String,
    pub artist: String,
    pub sample_rate: u32,
    /// 0 = generative / no fixed length.
    pub duration_frames: u64,
    /// `frames_played` at the moment this became the active source.
    pub origin_frame: u64,
    pub tags: Vec<String>,
}

impl Default for NowPlaying {
    /// Nothing playing: empty texts, zero numbers, no tags.
    fn default() -> (n: NowPlaying)
        ensures
            n.title@ == Seq::<char>::empty(),
            n.artist@ == Seq::<char>::empty(),
            n.sample_rate == 0,
            n.duration_frames == 0,
            n.origin_frame == 0,
            n.tags@ == Seq::<String>::empty(),
    {
        NowPlaying {
            title: String::new(),
            artist: String::new(),
            sample_rate: 0,
            duration_frames: 0,
            origin_frame: 0,
            tags: Vec::new(),
        }
    }
}

/// `std::sync::Mutex`, declared so that it can hold the now-playing record;
/// its contents are opaque to the proofs.
#[verifier::external_type_specification]
#[verifier::external_body]
#[verifier::reject_recursive_types(T)]
pub struct ExMutex<T: ?Sized>(Mutex<T>);

/// A mutex holding `v`, made by `std::sync::Mutex::new`. Nothing is claimed
/// about it: what a mutex holds is not visible to the proofs.
#[verifier::external_body]
fn new_mutex(v: NowPlaying) -> Mutex<NowPlaying> {
    Mutex::new(v)
}

/// Replaces what the mutex holds with `v`, through `std::sync::Mutex::lock`
/// (which panics if a thread panicked while holding it, as the host does).
/// Nothing is claimed: other threads may replace the value again at any time.
#[verifier::external_body]
fn store_locked(m: &Mutex<NowPlaying>, v: NowPlaying) {
    *m.lock().unwrap() = v;
}

/// A copy of what the mutex holds, through `std::sync::Mutex::lock` (which
/// panics if a thread panicked while holding it, as the host does) and the
/// derived `Clone`. Nothing is claimed of the copy: it is whatever any thread
/// stored last.
#[verifier::external_body]
fn load_locked(m: &Mutex<NowPlaying>) -> NowPlaying {
    m.lock().unwrap().clone()
}

pub struct Shared {
    vu: AtomicU32,
    frames_played: AtomicU64,
    now: Mutex<NowPlaying>,
}

impl Shared {
    pub fn new() -> Shared {
        Shared {
            vu: AtomicU32::new(0),
            frames_played: AtomicU64::new(0),
            now: new_mutex(NowPlaying::default()),
        }
    }

    /// Store the smoothed output peak, as the bits of an `f32`.
    pub fn set_vu_bits(&self, bits: u32) {
        self.vu.store(bits, Ordering::Relaxed);
    }

    /// The smoothed output peak, as the bits of an `f32`.
    pub fn vu_bits(&self) -> u32 {
        self.vu.load(Ordering::Relaxed)
    }

    /// Count `n` more frames played (wrapping, as `fetch_add` does).
    pub fn add_frames(&self, n: u64) {
        self.frames_played.fetch_add(n, Ordering::Relaxed);
    }

    pub fn frames_played(&self) -> u64 {
        self.frames_played.load(Ordering::Relaxed)
    }

    pub fn set_now(&self, now: NowPlaying) {
        store_locked(&self.now, now);
    }

    pub fn now(&self) -> NowPlaying {
        load_locked(&self.now)
    }
}

} // verus!
