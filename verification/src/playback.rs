//! The transport of the playback engine, counted in frames of the output:
//! where it plays, whether it plays, loops or has finished, what a pending
//! seek will do, and which frame of the tracks sounds at each frame of an
//! output block. Also the one-shot previews that sound on top of it.
//!
//! Mixing the audio itself (gain, volume, clamping) is done by the caller
//! with the frames this module says are sounding.

use vstd::prelude::*;

verus! {

/// The transport's state.
#[derive(Debug, Clone, Copy, PartialEq, Eq, Structural)]
pub struct PlayState {
    /// Length in frames of the longest track.
    pub len: usize,
    /// Next frame to play.
    pub position: usize,
    /// Where the next block starts, if a seek is pending.
    pub seek_request: Option<usize>,
    pub playing: bool,
    pub looping: bool,
    /// Set once a run that does not loop has reached the end.
    pub finished: bool,
}

/// `a`, or `b` if it is smaller.
pub open spec fn at_most(a: usize, b: usize) -> usize {
    if a < b {
        a
    } else {
        b
    }
}

/// The position a block starts from: a pending seek (clamped to the
/// length), else where the last block ended.
pub open spec fn start_of_block(s: PlayState) -> PlayState {
    PlayState {
        position: match s.seek_request {
            Some(r) => at_most(r, s.len),
            None => s.position,
        },
        seek_request: None,
        ..s
    }
}

/// The frame of the tracks that sounds at the next output frame, if any.
pub open spec fn frame_sound(s: PlayState) -> Option<usize> {
    if s.playing && s.position < s.len {
        Some(s.position)
    } else {
        None
    }
}

/// The state after one output frame: the position moves on while playing;
/// at the end it wraps to the start when looping (and there is something
/// to loop), else playing stops and the run is marked finished.
pub open spec fn after_frame(s: PlayState) -> PlayState {
    let p = if s.playing && s.position < s.len {
        (s.position + 1) as usize
    } else {
        s.position
    };
    if s.playing && p >= s.len {
        if s.looping && s.len > 0 {
            PlayState { position: 0, ..s }
        } else {
            PlayState { position: p, playing: false, finished: true, ..s }
        }
    } else {
        PlayState { position: p, ..s }
    }
}

/// The state after `n` output frames.
pub open spec fn after_frames(s: PlayState, n: nat) -> PlayState
    decreases n,
{
    if n == 0 {
        s
    } else {
        after_frame(after_frames(s, (n - 1) as nat))
    }
}

/// The frames of the tracks that sound at each of `n` output frames.
pub open spec fn sounds(s: PlayState, n: nat) -> Seq<Option<usize>>
    decreases n,
{
    if n == 0 {
        Seq::empty()
    } else {
        sounds(s, (n - 1) as nat).push(frame_sound(after_frames(s, (n - 1) as nat)))
    }
}

/// The state after `play`.
pub open spec fn played(s: PlayState) -> PlayState {
    if s.finished {
        PlayState { playing: true, finished: false, seek_request: Some(0), ..s }
    } else {
        PlayState { playing: true, ..s }
    }
}

/// The state after `stop`.
pub open spec fn stopped(s: PlayState) -> PlayState {
    PlayState { playing: false, finished: false, seek_request: Some(0), ..s }
}

/// The state after seeking to `frame`.
pub open spec fn sought(s: PlayState, frame: usize) -> PlayState {
    PlayState { seek_request: Some(at_most(frame, s.len)), finished: false, ..s }
}

impl PlayState {
    /// A stopped transport at the start of `len` frames.
    pub fn new(len: usize) -> (r: PlayState)
        ensures
            r == (PlayState {
                len,
                position: 0,
                seek_request: None,
                playing: false,
                looping: false,
                finished: false,
            }),
    {
        PlayState { len, position: 0, seek_request: None, playing: false, looping: false, finished: false }
    }

    /// Starts (or resumes) playback. If the previous run reached the end,
    /// starts again from the beginning.
    pub fn play(&mut self)
        ensures
            *final(self) == played(*old(self)),
    {
        if self.finished {
            self.finished = false;
            self.seek_request = Some(0);
        }
        self.playing = true;
    }

    /// Pauses playback, keeping the position.
    pub fn pause(&mut self)
        ensures
            *final(self) == (PlayState { playing: false, ..*old(self) }),
    {
        self.playing = false;
    }

    /// Stops playback and rewinds to the start.
    pub fn stop(&mut self)
        ensures
            *final(self) == stopped(*old(self)),
    {
        self.playing = false;
        self.finished = false;
        self.seek_request = Some(0);
    }

    /// Jumps to `frame` (clamped to the length) from the next block on.
    pub fn seek_frame(&mut self, frame: usize)
        ensures
            *final(self) == sought(*old(self), frame),
    {
        let target = if frame < self.len {
            frame
        } else {
            self.len
        };
        self.seek_request = Some(target);
        self.finished = false;
    }

    pub fn set_looping(&mut self, looping: bool)
        ensures
            *final(self) == (PlayState { looping, ..*old(self) }),
    {
        self.looping = looping;
    }

    /// The position to show: a pending seek's target, else the position.
    pub fn current_position(&self) -> (r: usize)
        ensures
            r == start_of_block(*self).position,
    {
        match self.seek_request {
            Some(r) => if r < self.len {
                r
            } else {
                self.len
            },
            None => self.position,
        }
    }

    /// Starts a block of output: a pending seek takes effect.
    pub fn start_block(&mut self)
        ensures
            *final(self) == start_of_block(*old(self)),
    {
        self.position = self.current_position();
        self.seek_request = None;
    }

    /// Plays one output frame: moves on as [`after_frame`] says and returns
    /// the frame of the tracks that sounds there (`None`: silence).
    pub fn next_frame(&mut self) -> (r: Option<usize>)
        ensures
            r == frame_sound(*old(self)),
            *final(self) == after_frame(*old(self)),
    {
        let sound = if self.playing && self.position < self.len {
            let p = self.position;
            self.position = self.position + 1;
            Some(p)
        } else {
            None
        };
        if self.playing && self.position >= self.len {
            if self.looping && self.len > 0 {
                self.position = 0;
            } else {
                self.playing = false;
                self.finished = true;
            }
        }
        sound
    }

    /// Plays one block of `frames` output frames: takes a pending seek,
    /// then moves frame by frame. Returns, for each output frame, the frame
    /// of the tracks that sounds there (`None`: silence).
    pub fn fill(&mut self, frames: usize) -> (r: Vec<Option<usize>>)
        ensures
            *final(self) == after_frames(start_of_block(*old(self)), frames as nat),
            r@ == sounds(start_of_block(*old(self)), frames as nat),
    {
        let ghost start = start_of_block(*self);
        self.start_block();
        let mut out: Vec<Option<usize>> = Vec::new();
        let mut i: usize = 0;
        while i < frames
            invariant
                i <= frames,
                *self == after_frames(start, i as nat),
                out@ == sounds(start, i as nat),
            decreases frames - i,
        {
            let sound = self.next_frame();
            out.push(sound);
            i = i + 1;
        }
        out
    }
}

/// A one-shot sound and the next frame it will play, if it is sounding.
#[derive(Debug, Clone, Copy, PartialEq, Eq, Structural)]
pub struct Preview {
    /// Length in frames.
    pub len: usize,
    pub position: Option<usize>,
}

/// The frames a preview plays over `n` output frames, from `position`:
/// one frame each, until it has played its last one.
pub open spec fn preview_sounds(len: usize, position: Option<usize>, n: nat) -> Seq<Option<usize>>
    decreases n,
{
    if n == 0 {
        Seq::empty()
    } else {
        match position {
            Some(p) => seq![Some(p)] + preview_sounds(
                len,
                if p + 1 < len {
                    Some((p + 1) as usize)
                } else {
                    None
                },
                (n - 1) as nat,
            ),
            None => seq![None] + preview_sounds(len, None, (n - 1) as nat),
        }
    }
}

/// Where a preview is after `n` output frames.
pub open spec fn preview_after(len: usize, position: Option<usize>, n: nat) -> Option<usize>
    decreases n,
{
    if n == 0 {
        position
    } else {
        match position {
            Some(p) => preview_after(
                len,
                if p + 1 < len {
                    Some((p + 1) as usize)
                } else {
                    None
                },
                (n - 1) as nat,
            ),
            None => None,
        }
    }
}

impl Preview {
    /// A preview of `len` frames, not sounding.
    pub fn new(len: usize) -> (r: Preview)
        ensures
            r == (Preview { len, position: None }),
    {
        Preview { len, position: None }
    }

    /// Plays it from its start (restarting it if it is sounding).
    pub fn start(&mut self)
        ensures
            *final(self) == (Preview { position: Some(0), ..*old(self) }),
    {
        self.position = Some(0);
    }

    /// Whether it is sounding.
    pub fn is_active(&self) -> (r: bool)
        ensures
            r == self.position is Some,
    {
        self.position.is_some()
    }

    /// Plays one output frame of it: returns the frame of the preview that
    /// sounds there (`None`: silence) and moves on to the next, or stops
    /// after its last.
    pub fn next_frame(&mut self) -> (r: Option<usize>)
        ensures
            r == old(self).position,
            final(self).len == old(self).len,
            final(self).position == match old(self).position {
                Some(p) => if p + 1 < old(self).len {
                    Some((p + 1) as usize)
                } else {
                    None
                },
                None => None,
            },
    {
        let now = self.position;
        match now {
            Some(p) => {
                self.position = if self.len > 0 && p < self.len - 1 {
                    Some(p + 1)
                } else {
                    None
                };
            },
            None => {},
        }
        now
    }

    /// Plays `frames` output frames of it. Returns, for each, the frame of
    /// the preview that sounds there (`None`: silence).
    pub fn fill(&mut self, frames: usize) -> (r: Vec<Option<usize>>)
        ensures
            final(self).len == old(self).len,
            final(self).position == preview_after(old(self).len, old(self).position, frames as nat),
            r@ == preview_sounds(old(self).len, old(self).position, frames as nat),
    {
        let ghost p0 = self.position;
        let mut out: Vec<Option<usize>> = Vec::new();
        let mut i: usize = 0;
        while i < frames
            invariant
                i <= frames,
                self.len == old(self).len,
                preview_after(self.len, p0, frames as nat) == preview_after(self.len, self.position, (frames - i) as nat),
                preview_sounds(self.len, p0, frames as nat) == out@ + preview_sounds(self.len, self.position, (frames - i) as nat),
            decreases frames - i,
        {
            let ghost here = self.position;
            let ghost rest = preview_sounds(self.len, here, (frames - i) as nat);
            match self.position {
                Some(p) => {
                    out.push(Some(p));
                    self.position = if self.len > 0 && p < self.len - 1 {
                        Some(p + 1)
                    } else {
                        None
                    };
                },
                None => {
                    out.push(None);
                },
            }
            i = i + 1;
            proof {
                let tail = preview_sounds(self.len, self.position, (frames - i) as nat);
                assert(rest == seq![here] + tail);
                assert(out@ + tail =~= out@.drop_last() + rest);
            }
        }
        assert(preview_sounds(self.len, self.position, 0) =~= Seq::<Option<usize>>::empty());
        assert(out@ + Seq::<Option<usize>>::empty() =~= out@);
        out
    }
}

/// Starts preview `index`; out of range, nothing happens.
pub fn play_preview(previews: &mut Vec<Preview>, index: usize)
    ensures
        final(previews)@ == if index < old(previews)@.len() {
            old(previews)@.update(index as int, Preview { position: Some(0), ..old(previews)@[index as int] })
        } else {
            old(previews)@
        },
{
    if index < previews.len() {
        let mut p = previews[index];
        p.start();
        previews.set(index, p);
    }
}

/// Whether preview `index` is sounding (`false` out of range).
pub fn is_preview_playing(previews: &Vec<Preview>, index: usize) -> (r: bool)
    ensures
        r == (index < previews@.len() && previews@[index as int].position is Some),
{
    index < previews.len() && previews[index].is_active()
}

/// Whether any preview is sounding.
pub fn any_preview_playing(previews: &Vec<Preview>) -> (r: bool)
    ensures
        r == exists|i: int| 0 <= i < previews@.len() && (#[trigger] previews@[i]).position is Some,
{
    let mut i: usize = 0;
    while i < previews.len()
        invariant
            i <= previews@.len(),
            forall|k: int| 0 <= k < i ==> (#[trigger] previews@[k]).position is None,
        decreases previews.len() - i,
    {
        if previews[i].is_active() {
            return true;
        }
        i = i + 1;
    }
    false
}


// ----- laws of the transport -------------------------------------------------

/// What a block of `n` frames plays is, frame by frame, what the state at
/// that frame plays.
pub proof fn lemma_sounds_index(s: PlayState, n: nat, i: int)
    requires
        0 <= i < n,
    ensures
        sounds(s, n).len() == n,
        sounds(s, n)[i] == frame_sound(after_frames(s, i as nat)),
    decreases n,
{
    lemma_sounds_len(s, n);
    if i < n - 1 {
        lemma_sounds_index(s, (n - 1) as nat, i);
    }
}

proof fn lemma_sounds_len(s: PlayState, n: nat)
    ensures
        sounds(s, n).len() == n,
    decreases n,
{
    if n > 0 {
        lemma_sounds_len(s, (n - 1) as nat);
    }
}

/// A paused transport neither moves nor sounds.
pub proof fn lemma_paused_holds_still(s: PlayState, n: nat)
    requires
        !s.playing,
    ensures
        after_frames(s, n) == s,
        forall|i: int| 0 <= i < n ==> #[trigger] sounds(s, n)[i] == None::<usize>,
    decreases n,
{
    if n > 0 {
        lemma_paused_holds_still(s, (n - 1) as nat);
        assert forall|i: int| 0 <= i < n implies #[trigger] sounds(s, n)[i] == None::<usize> by {
            lemma_sounds_index(s, n, i);
            lemma_paused_holds_still(s, i as nat);
        }
    }
}

/// The position never goes past the end.
pub proof fn lemma_position_within_length(s: PlayState, n: nat)
    requires
        s.position <= s.len,
    ensures
        after_frames(s, n).position <= s.len,
        after_frames(s, n).len == s.len,
        after_frames(s, n).looping == s.looping,
    decreases n,
{
    if n > 0 {
        lemma_position_within_length(s, (n - 1) as nat);
    }
}

/// Playing without looping: after `n` frames (at least one) the position
/// is `n` frames on, but not past the end; reaching the end stops playback
/// and marks the run finished. Each frame plays the next frame of the
/// tracks until the end, then silence.
pub proof fn lemma_runs_to_the_end(s: PlayState, n: nat)
    requires
        s.playing,
        !s.looping || s.len == 0,
        s.position <= s.len,
        n >= 1,
    ensures
        after_frames(s, n).position == if s.position + n < s.len {
            s.position + n
        } else {
            s.len as int
        },
        after_frames(s, n).playing == (s.position + n < s.len),
        after_frames(s, n).finished == (s.finished || s.position + n >= s.len),
        after_frames(s, n).len == s.len,
        after_frames(s, n).looping == s.looping,
    decreases n,
{
    if n > 1 {
        lemma_runs_to_the_end(s, (n - 1) as nat);
    } else {
        assert(after_frames(s, 0) == s);
    }
}

/// Playing without looping, the `i`-th frame of a block plays frame
/// `position + i` of the tracks while that is before the end, else
/// nothing.
pub proof fn lemma_end_sounds(s: PlayState, n: nat, i: int)
    requires
        s.playing,
        !s.looping || s.len == 0,
        s.position <= s.len,
        0 <= i < n,
    ensures
        sounds(s, n)[i] == if s.position + i < s.len {
            Some((s.position + i) as usize)
        } else {
            None::<usize>
        },
{
    lemma_sounds_index(s, n, i);
    if i > 0 {
        lemma_runs_to_the_end(s, i as nat);
    }
}

proof fn lemma_mod_step(a: int, len: int)
    requires
        a >= 0,
        len > 0,
    ensures
        (a + 1) % len == if a % len + 1 == len {
            0
        } else {
            a % len + 1
        },
        0 <= a % len < len,
{
    assert(0 <= a % len < len) by (nonlinear_arith)
        requires
            a >= 0,
            len > 0,
    ;
    assert((a + 1) % len == if a % len + 1 == len {
        0
    } else {
        a % len + 1
    }) by (nonlinear_arith)
        requires
            a >= 0,
            len > 0,
            0 <= a % len < len,
    ;
}

/// Looping: the transport keeps playing, never finishes, and wraps around:
/// after `n` frames it is at `(position + n) % len`, and the `i`-th frame
/// of a block plays frame `(position + i) % len` of the tracks.
pub proof fn lemma_looping_wraps(s: PlayState, n: nat)
    requires
        s.playing,
        s.looping,
        s.len > 0,
        s.position < s.len,
    ensures
        after_frames(s, n).position == (s.position + n) % (s.len as int),
        after_frames(s, n).playing,
        after_frames(s, n).finished == s.finished,
        after_frames(s, n).len == s.len,
        after_frames(s, n).looping,
        forall|i: int| 0 <= i < n ==> #[trigger] sounds(s, n)[i] == Some(((s.position + i) % (s.len as int)) as usize),
    decreases n,
{
    if n == 0 {
        assert((s.position + 0) % (s.len as int) == s.position) by (nonlinear_arith)
            requires
                0 <= s.position < s.len,
        ;
    } else {
        lemma_looping_wraps(s, (n - 1) as nat);
        lemma_mod_step(s.position + n - 1, s.len as int);
        assert forall|i: int| 0 <= i < n implies #[trigger] sounds(s, n)[i] == Some(((s.position + i) % (s.len as int)) as usize) by {
            lemma_sounds_index(s, n, i);
            lemma_looping_wraps(s, i as nat);
        }
    }
}

/// Stopping rewinds: the next block starts at the first frame, and the
/// transport neither plays nor counts as finished.
pub proof fn lemma_stop_rewinds(s: PlayState)
    ensures
        start_of_block(stopped(s)).position == 0,
        !stopped(s).playing,
        !stopped(s).finished,
{
}

/// Playing again after a run reached its end starts from the first frame.
pub proof fn lemma_replay_starts_over(s: PlayState)
    requires
        s.finished,
    ensures
        start_of_block(played(s)).position == 0,
        played(s).playing,
        !played(s).finished,
{
}

/// A seek takes effect on the next block, at the frame asked for or at
/// the end if that is past it.
pub proof fn lemma_seek_takes_effect(s: PlayState, frame: usize)
    ensures
        start_of_block(sought(s, frame)).position == at_most(frame, s.len),
        start_of_block(sought(s, frame)).position <= s.len,
        !sought(s, frame).finished,
{
}


/// A preview sounding from frame `p` plays its frames in order, one per
/// output frame, up to its last one, then is silent and idle.
pub proof fn lemma_preview_plays_to_its_end(len: usize, p: usize, n: nat)
    requires
        p < len,
    ensures
        preview_sounds(len, Some(p), n).len() == n,
        forall|i: int| 0 <= i < n ==> #[trigger] preview_sounds(len, Some(p), n)[i] == if p + i < len {
            Some((p + i) as usize)
        } else {
            None::<usize>
        },
        preview_after(len, Some(p), n) == if p + n < len {
            Some((p + n) as usize)
        } else {
            None::<usize>
        },
    decreases n,
{
    if n > 0 {
        let next: Option<usize> = if p + 1 < len {
            Some((p + 1) as usize)
        } else {
            None
        };
        let rest = preview_sounds(len, next, (n - 1) as nat);
        if p + 1 < len {
            lemma_preview_plays_to_its_end(len, (p + 1) as usize, (n - 1) as nat);
        } else {
            lemma_idle_preview(len, (n - 1) as nat);
        }
        assert forall|i: int| 0 <= i < n implies #[trigger] preview_sounds(len, Some(p), n)[i] == if p + i < len {
            Some((p + i) as usize)
        } else {
            None::<usize>
        } by {
            if i > 0 {
                assert(preview_sounds(len, Some(p), n)[i] == rest[i - 1]);
            }
        }
    }
}

/// An idle preview stays idle and silent.
pub proof fn lemma_idle_preview(len: usize, n: nat)
    ensures
        preview_sounds(len, None, n).len() == n,
        forall|i: int| 0 <= i < n ==> #[trigger] preview_sounds(len, None, n)[i] == None::<usize>,
        preview_after(len, None, n) == None::<usize>,
    decreases n,
{
    if n > 0 {
        lemma_idle_preview(len, (n - 1) as nat);
        let rest = preview_sounds(len, None, (n - 1) as nat);
        assert forall|i: int| 0 <= i < n implies #[trigger] preview_sounds(len, None, n)[i] == None::<usize> by {
            if i > 0 {
                assert(preview_sounds(len, None, n)[i] == rest[i - 1]);
            }
        }
    }
}


/// Playing never moves the transport, except after a finished run: a
/// paused or stopped transport resumes where it was (or at a pending
/// seek), and only a run that reached its end starts over at frame 0.
/// Either way it plays afterwards and is no longer finished.
pub proof fn lemma_play_resumes_where_it_was(s: PlayState)
    ensures
        !s.finished ==> start_of_block(played(s)).position == start_of_block(s).position,
        !s.finished ==> played(s).seek_request == s.seek_request && played(s).position == s.position,
        s.finished ==> start_of_block(played(s)).position == 0,
        played(s).playing,
        !played(s).finished,
        played(s).len == s.len && played(s).looping == s.looping,
{
}

/// Pausing and playing again changes nothing but whether it plays: the
/// next block starts where it would have.
pub proof fn lemma_pause_then_play(s: PlayState)
    requires
        !s.finished,
    ensures
        start_of_block(played(PlayState { playing: false, ..s })).position == start_of_block(s).position,
{
}

} // verus!
