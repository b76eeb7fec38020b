//! The decisions of the host's playing loop. Each turn of the loop (about ten
//! a second) the host reports the time since it started and whether a new
//! cartridge was dropped into the watched directory; the step says whether to
//! stop, which faded-out sources to tear down, and what to crossfade to. The
//! host does the sleeping, polling, spawning and tearing down, and reports
//! whether a crossfade could start. Times are in nanoseconds since the start.
use vstd::prelude::*;

use crate::text::{chars_eq, chars_of};

verus! {

/// What the command line fixed for the whole run.
pub struct PlayPlan {
    /// Crossfade to any cartridge newly dropped into the watched directory.
    pub watch: bool,
    /// How many cartridges the command line names.
    pub n_cartridges: usize,
    /// Stop after this long (`--seconds`).
    pub stop_after_ns: Option<u64>,
    /// When the one-shot crossfade from the first to the second cartridge is
    /// due (`--fade-after`).
    pub fade_after_ns: u64,
    /// How long a faded-out source keeps running after the crossfade started
    /// (the fade plus a margin).
    pub retire_after_ns: u64,
}

/// What the loop has done so far.
pub struct PlayState {
    /// The two-cartridge crossfade has been made.
    pub demo_done: bool,
    /// A source is playing.
    pub has_active: bool,
    /// When each faded-out source, in the order they were faded out, is torn
    /// down.
    pub retire_at: Vec<u64>,
}

/// [`PlayState`] with its deadlines as a sequence.
pub struct PlayStateView {
    pub demo_done: bool,
    pub has_active: bool,
    pub retire_at: Seq<u64>,
}

impl View for PlayState {
    type V = PlayStateView;

    open spec fn view(&self) -> PlayStateView {
        PlayStateView {
            demo_done: self.demo_done,
            has_active: self.has_active,
            retire_at: self.retire_at@,
        }
    }
}

/// What to crossfade to.
#[derive(Clone, Copy, Debug, PartialEq, Eq, Structural)]
pub enum SwitchTarget {
    /// The second cartridge of the command line.
    SecondCartridge,
    /// The cartridge just dropped into the watched directory.
    NewDrop,
}

/// What the host does in one turn of the loop.
pub enum PlayAction {
    /// Leave the loop.
    Stop,
    /// Tear down the faded-out sources at these positions (ascending), then
    /// crossfade if asked.
    Step { retire: Vec<usize>, switch_to: Option<SwitchTarget> },
}

/// The loop ends when the host stops running or the run time is over.
pub open spec fn should_stop(plan: PlayPlan, now: u64, running: bool) -> bool {
    !running || (plan.stop_after_ns matches Some(limit) && now >= limit)
}

/// The two-cartridge crossfade is due: not made yet, not watching, two
/// cartridges named, its time come.
pub open spec fn demo_due(plan: PlayPlan, st: PlayStateView, now: u64) -> bool {
    &&& !st.demo_done
    &&& !plan.watch
    &&& plan.n_cartridges >= 2
    &&& now >= plan.fade_after_ns
}

/// What to crossfade to in this turn.
pub open spec fn switch_target(plan: PlayPlan, st: PlayStateView, now: u64, new_drop: bool) -> Option<
    SwitchTarget,
> {
    if demo_due(plan, st, now) {
        Some(SwitchTarget::SecondCartridge)
    } else if plan.watch && new_drop {
        Some(SwitchTarget::NewDrop)
    } else {
        None
    }
}

/// The positions of the deadlines that have come.
pub open spec fn due_indices(ds: Seq<u64>, now: u64) -> Seq<usize>
    decreases ds.len(),
{
    if ds.len() == 0 {
        Seq::empty()
    } else {
        let r = due_indices(ds.drop_last(), now);
        if ds.last() <= now {
            r.push((ds.len() - 1) as usize)
        } else {
            r
        }
    }
}

/// The deadlines still to come, in order.
pub open spec fn pending(ds: Seq<u64>, now: u64) -> Seq<u64>
    decreases ds.len(),
{
    if ds.len() == 0 {
        Seq::empty()
    } else {
        let r = pending(ds.drop_last(), now);
        if ds.last() <= now {
            r
        } else {
            r.push(ds.last())
        }
    }
}

/// The loop's state after a turn (before any crossfade it starts).
pub open spec fn next_state(
    plan: PlayPlan,
    st: PlayStateView,
    now: u64,
    running: bool,
    new_drop: bool,
) -> PlayStateView {
    if should_stop(plan, now, running) {
        st
    } else {
        PlayStateView {
            demo_done: st.demo_done || demo_due(plan, st, now),
            has_active: st.has_active,
            retire_at: pending(st.retire_at, now),
        }
    }
}

/// One turn of the playing loop at `now`.
pub fn play_step(plan: &PlayPlan, st: &mut PlayState, now: u64, running: bool, new_drop: bool) -> (a:
    PlayAction)
    ensures
        (a is Stop) == should_stop(*plan, now, running),
        a matches PlayAction::Step { retire, switch_to } ==> {
            &&& retire@ == due_indices(old(st)@.retire_at, now)
            &&& switch_to == switch_target(*plan, old(st)@, now, new_drop)
            &&& switch_to == Some(SwitchTarget::SecondCartridge) ==> plan.n_cartridges >= 2
                && !plan.watch
            &&& switch_to == Some(SwitchTarget::NewDrop) ==> plan.watch && new_drop
        },
        final(st)@ == next_state(*plan, old(st)@, now, running, new_drop),
{
    let stop = !running || match plan.stop_after_ns {
        Some(limit) => now >= limit,
        None => false,
    };
    if stop {
        return PlayAction::Stop;
    }
    let mut retire: Vec<usize> = Vec::new();
    let mut keep: Vec<u64> = Vec::new();
    let mut i: usize = 0;
    let ghost ds = st.retire_at@;
    assert(ds.take(0) =~= Seq::<u64>::empty());
    while i < st.retire_at.len()
        invariant
            ds == st.retire_at@,
            i <= ds.len(),
            retire@ == due_indices(ds.take(i as int), now),
            keep@ == pending(ds.take(i as int), now),
        decreases ds.len() - i,
    {
        let d = st.retire_at[i];
        assert(ds.take(i + 1).drop_last() == ds.take(i as int));
        assert(ds.take(i + 1).last() == d);
        if d <= now {
            retire.push(i);
        } else {
            keep.push(d);
        }
        i = i + 1;
    }
    assert(ds.take(i as int) == ds);
    let due = !st.demo_done && !plan.watch && plan.n_cartridges >= 2 && now >= plan.fade_after_ns;
    let switch_to = if due {
        Some(SwitchTarget::SecondCartridge)
    } else if plan.watch && new_drop {
        Some(SwitchTarget::NewDrop)
    } else {
        None
    };
    st.demo_done = st.demo_done || due;
    st.retire_at = keep;
    PlayAction::Step { retire, switch_to }
}

/// The state after a crossfade was tried at `now`: if it started, a source
/// plays, and the one it replaced (if any) is torn down `retire_after_ns`
/// later (the deadline capped at `u64::MAX`).
pub open spec fn switched_state(st: PlayStateView, now: u64, retire_after: u64, ok: bool) -> PlayStateView {
    if !ok {
        st
    } else {
        PlayStateView {
            demo_done: st.demo_done,
            has_active: true,
            retire_at: if st.has_active {
                st.retire_at.push(
                    if now + retire_after > u64::MAX {
                        u64::MAX
                    } else {
                        (now + retire_after) as u64
                    },
                )
            } else {
                st.retire_at
            },
        }
    }
}

/// Record the outcome of a crossfade tried at `now` (`ok`: the new source
/// started).
pub fn switched(plan: &PlayPlan, st: &mut PlayState, now: u64, ok: bool)
    ensures
        final(st)@ == switched_state(old(st)@, now, plan.retire_after_ns, ok),
{
    if ok {
        if st.has_active {
            st.retire_at.push(now.saturating_add(plan.retire_after_ns));
        }
        st.has_active = true;
    }
}

/// How long a faded-out source is kept after its fade began, past the fade.
pub const RETIRE_MARGIN_MS: u64 = 300;

/// When a faded-out source may be torn down, in nanoseconds after its
/// crossfade began: the fade (`fade_ms`) and the margin, capped at
/// `u64::MAX`.
pub fn retire_after_ns(fade_ms: u64) -> (ns: u64)
    ensures
        ns == (if (fade_ms + RETIRE_MARGIN_MS) * 1_000_000 <= u64::MAX {
            (fade_ms + RETIRE_MARGIN_MS) * 1_000_000
        } else {
            u64::MAX as int
        }),
{
    if fade_ms <= 18_446_744_073_409 {
        let ms: u64 = fade_ms + RETIRE_MARGIN_MS;
        assert(ms * 1_000_000 <= u64::MAX) by (nonlinear_arith)
            requires ms <= 18_446_744_073_709;
        ms * 1_000_000
    } else {
        assert((fade_ms + RETIRE_MARGIN_MS) * 1_000_000 > u64::MAX) by (nonlinear_arith)
            requires fade_ms > 18_446_744_073_409;
        u64::MAX
    }
}

/// The crossfade length for a new source: none for the first one.
pub fn fade_for(has_active: bool, fade_frames: usize) -> (f: usize)
    ensures
        f == (if has_active {
            fade_frames
        } else {
            0
        }),
{
    if has_active {
        fade_frames
    } else {
        0
    }
}

/// How a new source is announced: a crossfade, or the first source.
pub fn switch_verb(has_active: bool) -> (s: &'static str)
    ensures
        s@ == (if has_active {
            "crossfading"@
        } else {
            "now playing"@
        }),
{
    if has_active {
        "crossfading"
    } else {
        "now playing"
    }
}

/// Whether a file of the watched directory counts as a new drop: never seen
/// before, or modified after the time it was last seen with (times as signed
/// nanoseconds from any fixed origin).
pub fn is_new_drop(seen: Option<i128>, modified: i128) -> (r: bool)
    ensures
        r == (match seen {
            None => true,
            Some(prev) => modified > prev,
        }),
{
    match seen {
        None => true,
        Some(prev) => modified > prev,
    }
}

/// Whether a file is a cartridge: its extension is `wasm`.
pub fn is_cartridge_file(extension: Option<&str>) -> (r: bool)
    ensures
        r == (match extension {
            Some(e) => e@ == "wasm"@,
            None => false,
        }),
{
    match extension {
        Some(e) => {
            let a = chars_of(e);
            let b = chars_of("wasm");
            chars_eq(a.as_slice(), b.as_slice())
        },
        None => false,
    }
}

/// A faded-out source is torn down exactly when its deadline has come: a
/// position is retired iff its deadline is at or before `now`, and the
/// deadlines kept are the later ones.
pub proof fn lemma_retire_exactly_when_due(ds: Seq<u64>, now: u64)
    requires
        ds.len() <= usize::MAX,
    ensures
        forall|i: int|
            0 <= i < ds.len() ==> (due_indices(ds, now).contains(i as usize) <==> ds[i] <= now),
        forall|j: int| 0 <= j < pending(ds, now).len() ==> pending(ds, now)[j] > now,
        due_indices(ds, now).len() + pending(ds, now).len() == ds.len(),
    decreases ds.len(),
{
    if ds.len() > 0 {
        let u = ds.drop_last();
        lemma_retire_exactly_when_due(u, now);
        lemma_due_below(u, now);
        let r = due_indices(u, now);
        assert forall|i: int| 0 <= i < ds.len() implies (due_indices(ds, now).contains(i as usize)
            <==> ds[i] <= now) by {
            if i < ds.len() - 1 {
                assert(ds[i] == u[i]);
                if ds.last() <= now {
                    let d = r.push((ds.len() - 1) as usize);
                    if r.contains(i as usize) {
                        let k = choose|k: int| 0 <= k < r.len() && r[k] == i as usize;
                        assert(d[k] == i as usize);
                    }
                    if d.contains(i as usize) {
                        let k = choose|k: int| 0 <= k < d.len() && d[k] == i as usize;
                        if k < r.len() {
                            assert(r[k] == i as usize);
                        }
                    }
                }
            } else {
                if ds.last() <= now {
                    let d = r.push((ds.len() - 1) as usize);
                    assert(d[d.len() - 1] == (ds.len() - 1) as usize);
                } else {
                    if r.contains(i as usize) {
                        let k = choose|k: int| 0 <= k < r.len() && r[k] == i as usize;
                        assert(r[k] < u.len());
                    }
                }
            }
        }
    }
}

/// Every position retired from `ds` lies within it.
proof fn lemma_due_below(ds: Seq<u64>, now: u64)
    requires
        ds.len() <= usize::MAX,
    ensures
        forall|k: int| 0 <= k < due_indices(ds, now).len() ==> due_indices(ds, now)[k] < ds.len(),
    decreases ds.len(),
{
    if ds.len() > 0 {
        let u = ds.drop_last();
        lemma_due_below(u, now);
        let r = due_indices(u, now);
        if ds.last() <= now {
            let d = r.push((ds.len() - 1) as usize);
            assert forall|k: int| 0 <= k < d.len() implies d[k] < ds.len() by {
                if k < r.len() {
                    assert(d[k] == r[k]);
                }
            }
        }
    }
}

/// A turn crossfades only to what is there to play: to the second cartridge
/// exactly when the command line names at least two, no directory is watched,
/// that crossfade was not made yet and its time has come; to a dropped file
/// exactly when a directory is watched and a file was just dropped.
pub proof fn lemma_switch_only_to_what_exists(
    plan: PlayPlan,
    st: PlayStateView,
    now: u64,
    new_drop: bool,
)
    ensures
        switch_target(plan, st, now, new_drop) == Some(SwitchTarget::SecondCartridge) <==> {
            &&& plan.n_cartridges >= 2
            &&& !plan.watch
            &&& !st.demo_done
            &&& now >= plan.fade_after_ns
        },
        switch_target(plan, st, now, new_drop) == Some(SwitchTarget::NewDrop) <==> plan.watch
            && new_drop,
{
}

/// The loop stops exactly when the host stops running or the run time
/// (`--seconds`) is up, and a turn that stops changes nothing.
pub proof fn lemma_stops_when_time_is_up(
    plan: PlayPlan,
    st: PlayStateView,
    now: u64,
    running: bool,
    new_drop: bool,
)
    ensures
        should_stop(plan, now, running) <==> !running || (plan.stop_after_ns is Some && now
            >= plan.stop_after_ns->0),
        should_stop(plan, now, running) ==> next_state(plan, st, now, running, new_drop) == st,
{
}

/// A source replaced by a crossfade at `now` plays on through the fade: it is
/// torn down at the first turn at or after `now + retire_after_ns` (capped at
/// `u64::MAX`), and at no turn before. The first source replaces nothing, and a crossfade that did
/// not start changes nothing.
pub proof fn lemma_replaced_source_outlives_fade(plan: PlayPlan, st: PlayStateView, now: u64, later: u64)
    requires
        st.retire_at.len() < usize::MAX,
    ensures
        switched_state(st, now, plan.retire_after_ns, false) == st,
        !st.has_active ==> switched_state(st, now, plan.retire_after_ns, true).retire_at
            == st.retire_at,
        switched_state(st, now, plan.retire_after_ns, true).has_active,
        st.has_active ==> ({
            let ds = switched_state(st, now, plan.retire_after_ns, true).retire_at;
            let k = st.retire_at.len() as usize;
            let due_at = if now + plan.retire_after_ns > u64::MAX {
                u64::MAX as int
            } else {
                now + plan.retire_after_ns
            };
            &&& ds.len() == st.retire_at.len() + 1
            &&& later < due_at ==> !due_indices(ds, later).contains(k)
            &&& later >= due_at ==> due_indices(ds, later).contains(k)
        }),
{
    if st.has_active {
        let ds = switched_state(st, now, plan.retire_after_ns, true).retire_at;
        let k = st.retire_at.len() as int;
        lemma_retire_exactly_when_due(ds, later);
        assert(ds[k] == ds.last());
        assert(due_indices(ds, later).contains(k as usize) <==> ds[k] <= later);
    }
}

/// The two-cartridge crossfade happens at most once: once made, no later turn
/// asks for it again.
pub proof fn lemma_second_cartridge_once(
    plan: PlayPlan,
    st: PlayStateView,
    now: u64,
    running: bool,
    new_drop: bool,
    later: u64,
    later_drop: bool,
)
    requires
        !should_stop(plan, now, running),
        switch_target(plan, st, now, new_drop) == Some(SwitchTarget::SecondCartridge),
    ensures
        next_state(plan, st, now, running, new_drop).demo_done,
        switch_target(plan, next_state(plan, st, now, running, new_drop), later, later_drop)
            != Some(SwitchTarget::SecondCartridge),
{
}

} // verus!
