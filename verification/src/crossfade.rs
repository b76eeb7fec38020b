//! The mixer's source slots: the current source and, while a crossfade runs,
//! the incoming one. The mixer pulls a frame from each source it has; this
//! state machine decides which sources those are and how far the blend is.
//! The equal-power gains themselves are computed by the mixer.
use vstd::prelude::*;

verus! {

pub struct Crossfade<S> {
    /// The source heard outside a crossfade (none before the first switch).
    pub current: Option<S>,
    /// The source faded in during a crossfade.
    pub incoming: Option<S>,
    fade_pos: usize,
    fade_len: usize,
}

impl<S> Crossfade<S> {
    /// The current source.
    pub closed spec fn current_src(&self) -> Option<S> {
        self.current
    }

    /// The incoming source.
    pub closed spec fn incoming_src(&self) -> Option<S> {
        self.incoming
    }

    /// Frames of the running crossfade already blended.
    pub closed spec fn pos(&self) -> usize {
        self.fade_pos
    }

    /// Length in frames of the running crossfade (0 when none runs).
    pub closed spec fn span(&self) -> usize {
        self.fade_len
    }

    pub closed spec fn wf(&self) -> bool {
        self.span() > 0 ==> self.pos() < self.span()
    }

    /// Whether frames are being blended from both sources.
    pub closed spec fn fading(&self) -> bool {
        self.span() > 0 && self.incoming is Some
    }

    /// The slots after one frame.
    pub closed spec fn stepped(self) -> Self {
        if !self.fading() {
            self
        } else if self.fade_pos + 1 >= self.fade_len {
            Crossfade {
                current: self.incoming,
                incoming: None,
                fade_pos: (self.fade_pos + 1) as usize,
                fade_len: 0,
            }
        } else {
            Crossfade {
                current: self.current,
                incoming: self.incoming,
                fade_pos: (self.fade_pos + 1) as usize,
                fade_len: self.fade_len,
            }
        }
    }

    /// The slots after `k` frames.
    pub open spec fn run(self, k: nat) -> Self
        decreases k,
    {
        if k == 0 {
            self
        } else {
            self.run((k - 1) as nat).stepped()
        }
    }

    /// No source yet: the mixer plays silence.
    pub fn new() -> (x: Crossfade<S>)
        ensures
            x.wf(),
            x.current_src() is None,
            x.incoming_src() is None,
            x.span() == 0,
    {
        Crossfade { current: None, incoming: None, fade_pos: 0, fade_len: 0 }
    }

    /// Bring in `src`. With no fade (or nothing playing yet) it becomes the
    /// current source at once and any crossfade is dropped; otherwise a
    /// crossfade of `fade_frames` frames towards it starts (replacing an
    /// incoming source of a crossfade still running).
    pub fn switch(&mut self, src: S, fade_frames: usize)
        requires
            old(self).wf(),
        ensures
            final(self).wf(),
            fade_frames == 0 || old(self).current_src() is None ==> {
                &&& final(self).current_src() == Some(src)
                &&& final(self).incoming_src() is None
                &&& final(self).span() == 0
            },
            !(fade_frames == 0 || old(self).current_src() is None) ==> {
                &&& final(self).current_src() == old(self).current_src()
                &&& final(self).incoming_src() == Some(src)
                &&& final(self).pos() == 0
                &&& final(self).span() == fade_frames
            },
    {
        if fade_frames == 0 || self.current.is_none() {
            self.current = Some(src);
            self.incoming = None;
            self.fade_len = 0;
        } else {
            self.incoming = Some(src);
            self.fade_pos = 0;
            self.fade_len = fade_frames;
        }
    }

    /// Whether the next frame blends both sources.
    pub fn is_fading(&self) -> (r: bool)
        ensures
            r == self.fading(),
    {
        self.fade_len != 0 && self.incoming.is_some()
    }

    /// Move one frame on. While fading, returns the frame's place in the
    /// crossfade (`(pos, len)`, the blend being `pos / len` of the way in);
    /// after the last blended frame the incoming source becomes the current
    /// one. Outside a crossfade nothing changes.
    pub fn advance(&mut self) -> (r: Option<(usize, usize)>)
        requires
            old(self).wf(),
        ensures
            final(self).wf(),
            *final(self) == old(self).stepped(),
            !old(self).fading() ==> r is None && *final(self) == *old(self),
            old(self).fading() ==> r == Some((old(self).pos(), old(self).span())),
            old(self).fading() && old(self).pos() + 1 < old(self).span() ==> {
                &&& final(self).current_src() == old(self).current_src()
                &&& final(self).incoming_src() == old(self).incoming_src()
                &&& final(self).pos() == old(self).pos() + 1
                &&& final(self).span() == old(self).span()
            },
            old(self).fading() && old(self).pos() + 1 >= old(self).span() ==> {
                &&& final(self).current_src() == old(self).incoming_src()
                &&& final(self).incoming_src() is None
                &&& final(self).span() == 0
            },
    {
        if self.fade_len == 0 || self.incoming.is_none() {
            return None;
        }
        let at = (self.fade_pos, self.fade_len);
        self.fade_pos = self.fade_pos + 1;
        if self.fade_pos >= self.fade_len {
            self.current = self.incoming.take();
            self.fade_len = 0;
        }
        Some(at)
    }
}

/// A crossfade of `n` frames blends exactly `n` frames: for the first `n`
/// frames both sources are pulled and the current one stays, and after the
/// `n`-th the incoming source is the only one.
pub proof fn lemma_fade_lasts_its_length<S>(x: Crossfade<S>, k: nat)
    requires
        x.wf(),
        x.fading(),
        x.pos() == 0,
        k <= x.span(),
    ensures
        k < x.span() ==> {
            &&& x.run(k).fading()
            &&& x.run(k).pos() == k
            &&& x.run(k).span() == x.span()
            &&& x.run(k).current_src() == x.current_src()
            &&& x.run(k).incoming_src() == x.incoming_src()
        },
        k == x.span() ==> {
            &&& !x.run(k).fading()
            &&& x.run(k).current_src() == x.incoming_src()
            &&& x.run(k).incoming_src() is None
        },
    decreases k,
{
    if k > 0 {
        lemma_fade_lasts_its_length(x, (k - 1) as nat);
    }
}

} // verus!
