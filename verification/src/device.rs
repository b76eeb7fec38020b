//! Choosing how to open the audio device: among the output configurations it
//! offers, one that runs at the wanted sample rate, preferring `f32` samples
//! and then stereo.
use vstd::prelude::*;

verus! {

/// The cartridge contract is 48 kHz by convention; ask the device for it.
pub const PREFERRED_SAMPLE_RATE: u32 = 48_000;

/// What the host reads of one range of output configurations a device offers.
#[derive(Clone, Copy, Debug, PartialEq, Eq, Structural)]
pub struct ConfigRange {
    pub min_rate: u32,
    pub max_rate: u32,
    /// Whether its samples are `f32`.
    pub is_f32: bool,
    pub channels: u16,
}

/// Whether the range can run at `rate`.
pub open spec fn admits(c: ConfigRange, rate: u32) -> bool {
    c.min_rate <= rate <= c.max_rate
}

/// How well a range fits: `f32` samples count 2, stereo counts 1.
pub open spec fn fit_score(c: ConfigRange) -> int {
    (if c.is_f32 {
        2int
    } else {
        0int
    }) + (if c.channels == 2 {
        1int
    } else {
        0int
    })
}

/// `i` is the first range admitting `rate` with the highest score among those
/// that admit it.
pub open spec fn is_best(cs: Seq<ConfigRange>, rate: u32, i: int) -> bool {
    &&& 0 <= i < cs.len()
    &&& admits(cs[i], rate)
    &&& forall|j: int| 0 <= j < i && admits(#[trigger] cs[j], rate) ==> fit_score(cs[j]) < fit_score(cs[i])
    &&& forall|j: int| i < j < cs.len() && admits(#[trigger] cs[j], rate) ==> fit_score(cs[j]) <= fit_score(cs[i])
}

fn score(c: &ConfigRange) -> (s: u8)
    ensures
        s == fit_score(*c),
{
    let mut s: u8 = 0;
    if c.is_f32 {
        s = s + 2;
    }
    if c.channels == 2 {
        s = s + 1;
    }
    s
}

/// The range to open the device with at `rate`: the first of the best
/// fitting ones, or none when no range runs at `rate` (the device's default
/// configuration is used then).
pub fn pick_config(cs: &[ConfigRange], rate: u32) -> (r: Option<usize>)
    ensures
        r matches Some(i) ==> is_best(cs@, rate, i as int),
        r is None ==> forall|j: int| 0 <= j < cs@.len() ==> !admits(#[trigger] cs@[j], rate),
{
    let mut best: Option<(u8, usize)> = None;
    let mut k: usize = 0;
    while k < cs.len()
        invariant
            k <= cs.len(),
            best matches Some((s, i)) ==> {
                &&& i < k
                &&& s == fit_score(cs@[i as int])
                &&& admits(cs@[i as int], rate)
                &&& forall|j: int| 0 <= j < i && admits(#[trigger] cs@[j], rate) ==> fit_score(cs@[j]) < s
                &&& forall|j: int| i < j < k && admits(#[trigger] cs@[j], rate) ==> fit_score(cs@[j]) <= s
            },
            best is None ==> forall|j: int| 0 <= j < k ==> !admits(#[trigger] cs@[j], rate),
        decreases cs.len() - k,
    {
        let c = &cs[k];
        if c.min_rate <= rate && rate <= c.max_rate {
            let s = score(c);
            let better = match best {
                None => true,
                Some((b, _)) => s > b,
            };
            if better {
                best = Some((s, k));
            }
        }
        k = k + 1;
    }
    match best {
        Some((_, i)) => Some(i),
        None => None,
    }
}

/// What the choice prefers: among the ranges that run at `rate`, `f32`
/// samples before any other, and then stereo; of ranges alike in both, the
/// first. So the chosen range is `f32` whenever some range at `rate` is, and
/// stereo whenever some range at `rate` with its sample type is.
pub proof fn lemma_prefers_f32_then_stereo(cs: Seq<ConfigRange>, rate: u32, i: int, j: int)
    requires
        is_best(cs, rate, i),
        0 <= j < cs.len(),
        admits(cs[j], rate),
    ensures
        cs[j].is_f32 ==> cs[i].is_f32,
        cs[j].is_f32 == cs[i].is_f32 && cs[j].channels == 2 ==> cs[i].channels == 2,
        j < i ==> (cs[j].is_f32 != cs[i].is_f32 || (cs[j].channels == 2) != (cs[i].channels == 2)),
{
    if j < i {
        assert(fit_score(cs[j]) < fit_score(cs[i]));
    } else if j > i {
        assert(fit_score(cs[j]) <= fit_score(cs[i]));
    }
}

} // verus!
