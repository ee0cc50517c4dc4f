//! The playback engine's state machine.
//!
//! The engine owns at most one playback session at a time. Sinks — the audio
//! output consumers a collaborator feeds — are identified here by numbers
//! handed out in strictly increasing order, so a sink once replaced is never
//! confused with a later one. Starting a clip hard-stops whatever sink was
//! current; fading is a single-flight background task on one identified
//! sink. Time enters as a millisecond count from a monotonic clock, so the
//! wall-clock playback position is exact arithmetic here.

use vstd::prelude::*;

verus! {

/// How long a fade-out ramp runs, in milliseconds.
pub const FADE_MS: u64 = 1000;

/// The one playback session: which button is sounding, which sink carries
/// it, when it started, and the clip's duration (bit pattern of a 32-bit
/// float, kept for the collaborator that polls progress).
#[derive(Clone, Copy, PartialEq, Eq, Structural, Debug)]
pub struct Session {
    pub tab: usize,
    pub slot: usize,
    pub sink: u64,
    pub start_ms: u64,
    pub duration_bits: u32,
}

/// What a play request asks the collaborator to do: hard-stop the old sink,
/// if any, and start the new one.
#[derive(Clone, Copy, PartialEq, Eq, Structural, Debug)]
pub struct PlayOutcome {
    pub stopped: Option<u64>,
    pub started: u64,
}

/// The engine: the current session, the sink a fade task is working on, if
/// one is in flight, and the next sink number to hand out.
#[derive(Clone, Copy, PartialEq, Eq, Structural, Debug)]
pub struct Engine {
    pub session: Option<Session>,
    pub fading: Option<u64>,
    pub next_sink: u64,
}

impl Engine {
    /// Sink numbers in the state were all handed out earlier.
    pub open spec fn wf(self) -> bool {
        &&& (self.session matches Some(s) ==> s.sink < self.next_sink)
        &&& (self.fading matches Some(f) ==> f < self.next_sink)
    }
}

/// A fresh engine: idle, no fade in flight.
pub open spec fn spec_new_engine() -> Engine {
    Engine { session: None, fading: None, next_sink: 0 }
}

/// Starting a clip: the current sink, playing or fading, is hard-stopped and
/// discarded; a fresh sink carries the new session. A fade in flight is left
/// to finish on the sink it holds.
pub open spec fn spec_play(
    e: Engine,
    tab: usize,
    slot: usize,
    now_ms: u64,
    duration_bits: u32,
) -> (Engine, PlayOutcome) {
    let started = e.next_sink;
    let stopped = match e.session {
        Some(s) => Some(s.sink),
        None => None,
    };
    (
        Engine {
            session: Some(
                Session { tab, slot, sink: started, start_ms: now_ms, duration_bits },
            ),
            fading: e.fading,
            next_sink: (e.next_sink + 1) as u64,
        },
        PlayOutcome { stopped, started },
    )
}

/// A hard stop: the current sink, if any, is stopped at once and the engine
/// goes idle. A fade task in flight keeps its own handle on whatever sink it
/// was given; its later volume writes on a stopped sink are no-ops.
pub open spec fn spec_stop(e: Engine) -> (Engine, Option<u64>) {
    (
        Engine { session: None, fading: e.fading, next_sink: e.next_sink },
        match e.session {
            Some(s) => Some(s.sink),
            None => None,
        },
    )
}

/// A fade request: it starts a fade task only when a sink exists and no fade
/// is already in flight; otherwise it is a no-op.
pub open spec fn spec_fade_out(e: Engine) -> (Engine, Option<u64>) {
    match e.session {
        Some(s) => {
            if e.fading is None {
                (Engine { session: e.session, fading: Some(s.sink), next_sink: e.next_sink }, Some(s.sink))
            } else {
                (e, None)
            }
        },
        None => (e, None),
    }
}

/// A fade task finishing: it has stopped its sink and clears the in-flight
/// flag. If the session still sits on that very sink, the sink is released
/// and the engine goes idle; a session on a newer sink is untouched.
pub open spec fn spec_fade_done(e: Engine) -> Engine {
    Engine {
        session: match (e.session, e.fading) {
            (Some(s), Some(f)) => if s.sink == f {
                None
            } else {
                e.session
            },
            _ => e.session,
        },
        fading: None,
        next_sink: e.next_sink,
    }
}

/// The wall-clock playback position: time since the session started, zero
/// when idle.
pub open spec fn spec_elapsed(e: Engine, now_ms: u64) -> u64 {
    match e.session {
        Some(s) => if now_ms >= s.start_ms {
            (now_ms - s.start_ms) as u64
        } else {
            0
        },
        None => 0,
    }
}

/// The fade ramp's volume, in thousandths of full volume, after a fade has
/// run for `t_ms` milliseconds.
pub open spec fn spec_fade_volume(t_ms: u64) -> u64 {
    if t_ms >= FADE_MS {
        0
    } else {
        (FADE_MS - t_ms) as u64
    }
}

impl Engine {
    /// A fresh engine in the idle state.
    pub fn new() -> (e: Engine)
        ensures
            e == spec_new_engine(),
            e.wf(),
    {
        Engine { session: None, fading: None, next_sink: 0 }
    }

    /// Starts playing the button at `(tab, slot)` now: tells the collaborator
    /// which sink to hard-stop, if any, and which fresh sink to start.
    pub fn play(&mut self, tab: usize, slot: usize, now_ms: u64, duration_bits: u32) -> (r:
        PlayOutcome)
        requires
            old(self).wf(),
            old(self).next_sink < u64::MAX,
        ensures
            (*final(self), r) == spec_play(*old(self), tab, slot, now_ms, duration_bits),
            final(self).wf(),
            r.started == old(self).next_sink,
            r.stopped == (match old(self).session {
                Some(s) => Some(s.sink),
                None => None::<u64>,
            }),
            final(self).session == Some(
                (Session { tab, slot, sink: r.started, start_ms: now_ms, duration_bits }),
            ),
            final(self).fading == old(self).fading,
    {
        let started = self.next_sink;
        let stopped = match self.session {
            Some(s) => Some(s.sink),
            None => None,
        };
        self.session = Some(Session { tab, slot, sink: started, start_ms: now_ms, duration_bits });
        self.next_sink = self.next_sink + 1;
        PlayOutcome { stopped, started }
    }

    /// Hard-stops the current sink, if any, and goes idle; returns the sink
    /// the collaborator must stop.
    pub fn stop(&mut self) -> (stopped: Option<u64>)
        requires
            old(self).wf(),
        ensures
            (*final(self), stopped) == spec_stop(*old(self)),
            final(self).wf(),
            final(self).session is None,
    {
        let stopped = match self.session {
            Some(s) => Some(s.sink),
            None => None,
        };
        self.session = None;
        stopped
    }

    /// Requests a fade-out. Returns the sink a new fade task must ramp down,
    /// or `None` when there is nothing to fade or a fade is already in
    /// flight — the single-flight guard.
    pub fn fade_out(&mut self) -> (target: Option<u64>)
        requires
            old(self).wf(),
        ensures
            (*final(self), target) == spec_fade_out(*old(self)),
            final(self).wf(),
            target is Some <==> (old(self).session is Some && old(self).fading is None),
    {
        match self.session {
            Some(s) => {
                if self.fading.is_none() {
                    self.fading = Some(s.sink);
                    Some(s.sink)
                } else {
                    None
                }
            },
            None => None,
        }
    }

    /// Records that the fade task finished: it has stopped its sink and the
    /// flag clears. A session still on that sink is released; one on a newer
    /// sink is untouched.
    pub fn fade_done(&mut self)
        requires
            old(self).wf(),
        ensures
            *final(self) == spec_fade_done(*old(self)),
            final(self).wf(),
            final(self).fading is None,
    {
        match (self.session, self.fading) {
            (Some(s), Some(f)) => {
                if s.sink == f {
                    self.session = None;
                }
            },
            _ => {},
        }
        self.fading = None;
    }

    /// The wall-clock playback position in milliseconds: time since the
    /// session started, zero when idle.
    pub fn elapsed(&self, now_ms: u64) -> (r: u64)
        ensures
            r == spec_elapsed(*self, now_ms),
    {
        match self.session {
            Some(s) => {
                if now_ms >= s.start_ms {
                    now_ms - s.start_ms
                } else {
                    0
                }
            },
            None => 0,
        }
    }
}

/// The volume a fade task must set after its ramp has run for `elapsed_ms`:
/// thousandths of full volume, falling to zero at `FADE_MS`.
pub fn fade_volume_permille(elapsed_ms: u64) -> (v: u64)
    ensures
        v == spec_fade_volume(elapsed_ms),
        v <= FADE_MS,
        elapsed_ms >= FADE_MS ==> v == 0,
{
    if elapsed_ms >= FADE_MS {
        0
    } else {
        FADE_MS - elapsed_ms
    }
}

/// The fade ramp only falls: a later moment of the ramp never has more
/// volume, and from `FADE_MS` on the volume is exactly zero — the sink ends
/// silent.
pub proof fn lemma_fade_monotone(t1: u64, t2: u64)
    requires
        t1 <= t2,
    ensures
        spec_fade_volume(t1) >= spec_fade_volume(t2),
        spec_fade_volume(t2) == 0 <==> t2 >= FADE_MS,
{
}

/// Single-flight fade: of two fade requests in a row, at most one starts a
/// fade task. When the first starts one, the second is a complete no-op:
/// the state is unchanged and no second task targets the sink.
pub proof fn lemma_fade_out_single_flight(e: Engine)
    ensures
        ({
            let (e1, t1) = spec_fade_out(e);
            let (e2, t2) = spec_fade_out(e1);
            &&& (t1 is Some ==> t2 is None && e2 == e1)
            &&& (t1 is Some <==> (e.session is Some && e.fading is None))
        }),
{
}

/// Playing twice with no stop between never lets the first playback touch
/// the second: the second play hard-stops the first sink, carries the new
/// session on a strictly fresh sink, and any fade in flight — started before
/// either play or between them — targets an older sink, never the new one.
pub proof fn lemma_play_play_detached(
    e: Engine,
    tab1: usize,
    slot1: usize,
    now1: u64,
    d1: u32,
    tab2: usize,
    slot2: usize,
    now2: u64,
    d2: u32,
)
    requires
        e.wf(),
        e.next_sink + 1 < u64::MAX,
    ensures
        ({
            let (e1, r1) = spec_play(e, tab1, slot1, now1, d1);
            let (e2, r2) = spec_play(e1, tab2, slot2, now2, d2);
            &&& r2.started != r1.started
            &&& r2.stopped == Some(r1.started)
            &&& (e2.session matches Some(s) && s.sink == r2.started)
            &&& (e2.fading matches Some(f) ==> f != r2.started)
            &&& e2.wf()
        }),
{
}

/// The same detachment holds when a fade is requested between the two
/// plays, as the interface does when one button replaces another: the fade
/// targets the first sink and never the second, and even its later
/// completion leaves the second playback's session untouched.
pub proof fn lemma_play_fade_play_detached(
    e: Engine,
    tab1: usize,
    slot1: usize,
    now1: u64,
    d1: u32,
    tab2: usize,
    slot2: usize,
    now2: u64,
    d2: u32,
)
    requires
        e.wf(),
        e.next_sink + 1 < u64::MAX,
    ensures
        ({
            let (e1, r1) = spec_play(e, tab1, slot1, now1, d1);
            let (ef, t) = spec_fade_out(e1);
            let (e2, r2) = spec_play(ef, tab2, slot2, now2, d2);
            &&& (t matches Some(f) ==> f == r1.started)
            &&& r2.started != r1.started
            &&& (e2.fading matches Some(f) ==> f != r2.started)
            &&& spec_fade_done(e2).session == e2.session
            &&& e2.wf()
        }),
{
}

} // verus!
