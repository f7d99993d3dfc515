//! The per-key state machine: ingests one clamped analog sample per tick
//! and decides which note events it causes.

use vstd::prelude::*;
use crate::events::NoteEvent;
use crate::keymap::{Key, KeyMap, Note};
use crate::types::{EngineConfig, Sample, ANALOG_MAX, spec_clamp_analog, clamp_analog};
use crate::velocity::{spec_velocity, velocity_of_window, lemma_velocity_range};

verus! {

/// Phase of one key's state machine.
///
/// `Idle`: below the onset threshold, nothing accumulates. `Attacking`:
/// the value crossed the onset threshold upward and samples accumulate in
/// the attack window; no note sounds yet. `Sustained`: the note is
/// active; fluctuations above the release threshold are ignored.
#[derive(Clone, Copy, Debug, PartialEq, Eq, Structural)]
pub enum Phase {
    Idle,
    Attacking,
    Sustained,
}

/// Per-key state: the phase, the bounded attack-window buffer, the last
/// sample seen while idle (the window's starting point once an attack
/// begins), and the time of the last Note-Off (for debounce).
#[derive(Debug)]
pub struct KeyState {
    pub phase: Phase,
    pub window: Vec<Sample>,
    pub prev: Option<Sample>,
    pub last_off: Option<u64>,
}

/// Mathematical model of a `KeyState`.
#[verifier::ext_equal]
pub struct StateModel {
    pub phase: Phase,
    pub window: Seq<Sample>,
    pub prev: Option<Sample>,
    pub last_off: Option<u64>,
}

impl View for KeyState {
    type V = StateModel;

    open spec fn view(&self) -> StateModel {
        StateModel {
            phase: self.phase,
            window: self.window@,
            prev: self.prev,
            last_off: self.last_off,
        }
    }
}

impl StateModel {
    /// The state of a key before any sample has been seen.
    pub open spec fn init() -> StateModel {
        StateModel { phase: Phase::Idle, window: Seq::empty(), prev: None, last_off: None }
    }

    /// Whether this key's note is sounding.
    pub open spec fn active(self) -> bool {
        self.phase is Sustained
    }

    /// Well-formedness relative to the configuration and a bound on all
    /// recorded timestamps (the tracker's last tick time): the window is
    /// bounded and time-ordered, holds samples exactly in the attacking
    /// phase, and every recorded value and time is in range.
    pub open spec fn wf(self, cfg: EngineConfig, t_bound: u64) -> bool {
        &&& self.window.len() <= cfg.window_cap
        &&& (self.phase is Attacking ==> self.window.len() >= 1)
        &&& (!(self.phase is Attacking) ==> self.window.len() == 0)
        &&& forall|i: int|
            0 <= i < self.window.len() ==> (#[trigger] self.window[i]).value <= ANALOG_MAX
                && self.window[i].time <= t_bound
        &&& forall|i: int, j: int|
            0 <= i <= j < self.window.len() ==> (#[trigger] self.window[i]).time <= (
            #[trigger] self.window[j]).time
        &&& (self.prev matches Some(p) ==> p.time <= t_bound && p.value <= ANALOG_MAX)
        &&& (self.last_off matches Some(t) ==> t <= t_bound)
    }
}

impl KeyState {
    /// A key that has never seen a sample.
    pub fn init() -> (s: KeyState)
        ensures
            s@ == StateModel::init(),
    {
        let s = KeyState { phase: Phase::Idle, window: Vec::new(), prev: None, last_off: None };
        proof {
            assert(s@ =~= StateModel::init());
        }
        s
    }
}

/// The attack window opened by a sample that crosses the onset threshold:
/// the last idle sample (if one was seen) followed by the crossing sample.
pub open spec fn spec_enter_window(st: StateModel, s: Sample) -> Seq<Sample> {
    match st.prev {
        Some(p) => seq![p, s],
        None => seq![s],
    }
}

/// Appends a sample to the bounded attack window, discarding the oldest
/// entry once the bound is reached.
pub open spec fn spec_push_window(w: Seq<Sample>, s: Sample, cap: usize) -> Seq<Sample> {
    if w.len() < cap {
        w.push(s)
    } else {
        w.drop_first().push(s)
    }
}

/// One step of a key's state machine on the (already clamped) value `v`
/// at tick time `now`: the successor state and the events emitted, in
/// order.
///
/// From `Idle`, a sample inside the debounce dwell after a Note-Off is
/// discarded; a sample at or above the onset threshold opens an attack
/// (and fires immediately if it also reaches the sustain threshold —
/// both crossings seen within one tick); anything else is merely
/// remembered as the window's future starting point. From `Attacking`,
/// reaching the sustain threshold fires the Note-On over the full window
/// including the current sample; a falling value fires the Note-On early
/// over the partial window ending at the peak, stamped with the peak's
/// time; otherwise the sample joins the window. From `Sustained`,
/// falling below the release threshold emits the Note-Off and returns to
/// `Idle`, starting the debounce dwell.
pub open spec fn spec_step(
    cfg: EngineConfig,
    note: Note,
    st: StateModel,
    v_raw: u32,
    now: u64,
) -> (StateModel, Seq<NoteEvent>) {
    let v = spec_clamp_analog(v_raw);
    let s = Sample { value: v, time: now };
    match st.phase {
        Phase::Idle => {
            if st.last_off matches Some(t) && now - t < cfg.d_min {
                (st, Seq::empty())
            } else if v >= cfg.t_onset {
                let w = spec_enter_window(st, s);
                if v >= cfg.t_sustain {
                    (
                        StateModel {
                            phase: Phase::Sustained,
                            window: Seq::empty(),
                            prev: None,
                            last_off: st.last_off,
                        },
                        seq![
                            NoteEvent::NoteOn {
                                note,
                                velocity: spec_velocity(w, cfg.k) as u8,
                                time: now,
                            },
                        ],
                    )
                } else {
                    (
                        StateModel {
                            phase: Phase::Attacking,
                            window: w,
                            prev: None,
                            last_off: st.last_off,
                        },
                        Seq::empty(),
                    )
                }
            } else {
                (
                    StateModel {
                        phase: Phase::Idle,
                        window: Seq::empty(),
                        prev: Some(s),
                        last_off: st.last_off,
                    },
                    Seq::empty(),
                )
            }
        },
        Phase::Attacking => {
            let peak = st.window[st.window.len() - 1];
            if v >= cfg.t_sustain {
                let w = spec_push_window(st.window, s, cfg.window_cap);
                (
                    StateModel {
                        phase: Phase::Sustained,
                        window: Seq::empty(),
                        prev: None,
                        last_off: st.last_off,
                    },
                    seq![
                        NoteEvent::NoteOn {
                            note,
                            velocity: spec_velocity(w, cfg.k) as u8,
                            time: now,
                        },
                    ],
                )
            } else if v < peak.value {
                let on = NoteEvent::NoteOn {
                    note,
                    velocity: spec_velocity(st.window, cfg.k) as u8,
                    time: peak.time,
                };
                if v < cfg.t_release {
                    (
                        StateModel {
                            phase: Phase::Idle,
                            window: Seq::empty(),
                            prev: Some(s),
                            last_off: Some(now),
                        },
                        seq![on, NoteEvent::NoteOff { note, time: now }],
                    )
                } else {
                    (
                        StateModel {
                            phase: Phase::Sustained,
                            window: Seq::empty(),
                            prev: None,
                            last_off: st.last_off,
                        },
                        seq![on],
                    )
                }
            } else {
                (
                    StateModel {
                        phase: Phase::Attacking,
                        window: spec_push_window(st.window, s, cfg.window_cap),
                        prev: None,
                        last_off: st.last_off,
                    },
                    Seq::empty(),
                )
            }
        },
        Phase::Sustained => {
            if v < cfg.t_release {
                (
                    StateModel {
                        phase: Phase::Idle,
                        window: Seq::empty(),
                        prev: Some(s),
                        last_off: Some(now),
                    },
                    seq![NoteEvent::NoteOff { note, time: now }],
                )
            } else {
                (st, Seq::empty())
            }
        },
    }
}

/// Copies a sample window.
fn copy_samples(w: &Vec<Sample>) -> (r: Vec<Sample>)
    ensures
        r@ == w@,
{
    let mut r: Vec<Sample> = Vec::new();
    let mut i: usize = 0;
    while i < w.len()
        invariant
            i <= w@.len(),
            r@ == w@.take(i as int),
        decreases w@.len() - i,
    {
        r.push(w[i]);
        proof {
            assert(w@.take(i as int).push(w@[i as int]) =~= w@.take(i as int + 1));
        }
        i += 1;
    }
    proof {
        assert(w@.take(w@.len() as int) =~= w@);
    }
    r
}

/// Executable counterpart of `spec_push_window`.
fn push_window(w: &Vec<Sample>, s: Sample, cap: usize) -> (r: Vec<Sample>)
    requires
        cap >= 1,
    ensures
        r@ == spec_push_window(w@, s, cap),
{
    let mut r = copy_samples(w);
    if r.len() >= cap {
        r.remove(0);
        proof {
            assert(w@.remove(0) =~= w@.drop_first());
        }
    }
    r.push(s);
    r
}

/// Runs one step of a key's state machine, exactly as `spec_step` reads
/// it, and keeps the state well formed with all recorded times bounded by
/// `now`.
pub(crate) fn step_key(
    cfg: &EngineConfig,
    note: Note,
    st: &KeyState,
    v_raw: u32,
    now: u64,
) -> (r: (KeyState, Vec<NoteEvent>))
    requires
        cfg.wf(),
        st@.wf(*cfg, now),
    ensures
        r.0@ == spec_step(*cfg, note, st@, v_raw, now).0,
        r.1@ == spec_step(*cfg, note, st@, v_raw, now).1,
        r.0@.wf(*cfg, now),
{
    let v = clamp_analog(v_raw);
    let s = Sample { value: v, time: now };
    let mut events: Vec<NoteEvent> = Vec::new();
    let next: KeyState = match st.phase {
        Phase::Idle => {
            let mut dwell = false;
            if let Some(t) = st.last_off {
                if now - t < cfg.d_min {
                    dwell = true;
                }
            }
            if dwell {
                KeyState {
                    phase: st.phase,
                    window: copy_samples(&st.window),
                    prev: st.prev,
                    last_off: st.last_off,
                }
            } else if v >= cfg.t_onset {
                let mut w: Vec<Sample> = Vec::new();
                if let Some(p) = st.prev {
                    w.push(p);
                }
                w.push(s);
                proof {
                    assert(w@ =~= spec_enter_window(st@, s));
                }
                if v >= cfg.t_sustain {
                    let vel = velocity_of_window(&w, cfg.k);
                    proof {
                        lemma_velocity_range(w@, cfg.k);
                    }
                    events.push(NoteEvent::NoteOn { note, velocity: vel, time: now });
                    KeyState {
                        phase: Phase::Sustained,
                        window: Vec::new(),
                        prev: None,
                        last_off: st.last_off,
                    }
                } else {
                    KeyState { phase: Phase::Attacking, window: w, prev: None, last_off: st.last_off }
                }
            } else {
                KeyState { phase: Phase::Idle, window: Vec::new(), prev: Some(s), last_off: st.last_off }
            }
        },
        Phase::Attacking => {
            let peak: Sample = st.window[st.window.len() - 1];
            if v >= cfg.t_sustain {
                let w = push_window(&st.window, s, cfg.window_cap);
                let vel = velocity_of_window(&w, cfg.k);
                proof {
                    lemma_velocity_range(w@, cfg.k);
                }
                events.push(NoteEvent::NoteOn { note, velocity: vel, time: now });
                KeyState {
                    phase: Phase::Sustained,
                    window: Vec::new(),
                    prev: None,
                    last_off: st.last_off,
                }
            } else if v < peak.value {
                let vel = velocity_of_window(&st.window, cfg.k);
                proof {
                    lemma_velocity_range(st.window@, cfg.k);
                }
                events.push(NoteEvent::NoteOn { note, velocity: vel, time: peak.time });
                if v < cfg.t_release {
                    events.push(NoteEvent::NoteOff { note, time: now });
                    KeyState {
                        phase: Phase::Idle,
                        window: Vec::new(),
                        prev: Some(s),
                        last_off: Some(now),
                    }
                } else {
                    KeyState {
                        phase: Phase::Sustained,
                        window: Vec::new(),
                        prev: None,
                        last_off: st.last_off,
                    }
                }
            } else {
                KeyState {
                    phase: Phase::Attacking,
                    window: push_window(&st.window, s, cfg.window_cap),
                    prev: None,
                    last_off: st.last_off,
                }
            }
        },
        Phase::Sustained => {
            if v < cfg.t_release {
                events.push(NoteEvent::NoteOff { note, time: now });
                KeyState { phase: Phase::Idle, window: Vec::new(), prev: Some(s), last_off: Some(now) }
            } else {
                KeyState {
                    phase: st.phase,
                    window: copy_samples(&st.window),
                    prev: st.prev,
                    last_off: st.last_off,
                }
            }
        },
    };
    proof {
        assert(next@ =~= spec_step(*cfg, note, st@, v_raw, now).0);
        assert(events@ =~= spec_step(*cfg, note, st@, v_raw, now).1);
    }
    (next, events)
}

/// One tracked key: its identifier, the note it plays, and its state
/// machine. The tracker holds one lane per keymap entry, allocated once
/// at engine start.
#[derive(Debug)]
pub struct KeyLane {
    pub key: Key,
    pub note: Note,
    pub state: KeyState,
}

/// Mathematical model of a `KeyLane`.
#[verifier::ext_equal]
pub struct LaneModel {
    pub key: Key,
    pub note: Note,
    pub state: StateModel,
}

impl View for KeyLane {
    type V = LaneModel;

    open spec fn view(&self) -> LaneModel {
        LaneModel { key: self.key, note: self.note, state: self.state@ }
    }
}

/// The engine's tracker: one state machine per mapped key, the
/// configuration, and the time of the last processed tick.
#[derive(Debug)]
pub struct Tracker {
    pub lanes: Vec<KeyLane>,
    pub config: EngineConfig,
    pub last_tick: u64,
}

/// Mathematical model of a `Tracker`.
#[verifier::ext_equal]
pub struct TrackerModel {
    pub lanes: Seq<LaneModel>,
    pub config: EngineConfig,
    pub last_tick: u64,
}

impl View for Tracker {
    type V = TrackerModel;

    open spec fn view(&self) -> TrackerModel {
        TrackerModel {
            lanes: self.lanes@.map_values(|l: KeyLane| l@),
            config: self.config,
            last_tick: self.last_tick,
        }
    }
}

impl TrackerModel {
    /// Well-formed tracker: ordered thresholds, one lane per key, valid
    /// MIDI notes, and every lane's timestamps bounded by the last tick.
    pub open spec fn wf(self) -> bool {
        &&& self.config.wf()
        &&& forall|i: int, j: int|
            0 <= i < j < self.lanes.len() ==> (#[trigger] self.lanes[i]).key != (
            #[trigger] self.lanes[j]).key
        &&& forall|i: int| 0 <= i < self.lanes.len() ==> (#[trigger] self.lanes[i]).note.0 <= 127
        &&& forall|i: int|
            0 <= i < self.lanes.len() ==> (#[trigger] self.lanes[i]).state.wf(
                self.config,
                self.last_tick,
            )
    }
}

/// The analog value a snapshot reports for key `k`: its first entry for
/// `k`, or zero when the key is not listed (an unlisted key exerts no
/// pressure).
pub open spec fn spec_lookup(snap: Seq<(Key, u32)>, k: Key) -> u32
    decreases snap.len(),
{
    if snap.len() == 0 {
        0
    } else if snap[0].0 == k {
        snap[0].1
    } else {
        spec_lookup(snap.drop_first(), k)
    }
}

/// Executable counterpart of `spec_lookup`.
fn lookup_value(snap: &Vec<(Key, u32)>, k: Key) -> (v: u32)
    ensures
        v == spec_lookup(snap@, k),
{
    proof {
        assert(snap@.skip(0) =~= snap@);
    }
    let mut i: usize = 0;
    while i < snap.len()
        invariant
            i <= snap@.len(),
            spec_lookup(snap@, k) == spec_lookup(snap@.skip(i as int), k),
        decreases snap@.len() - i,
    {
        proof {
            assert(snap@.skip(i as int).drop_first() =~= snap@.skip(i as int + 1));
        }
        if snap[i].0 == k {
            return snap[i].1;
        }
        i += 1;
    }
    0
}

/// One tick of a single lane: its key's snapshot value drives one step
/// of its state machine.
pub open spec fn spec_lane_step(
    cfg: EngineConfig,
    lane: LaneModel,
    snap: Seq<(Key, u32)>,
    now: u64,
) -> (LaneModel, Seq<NoteEvent>) {
    let r = spec_step(cfg, lane.note, lane.state, spec_lookup(snap, lane.key), now);
    (LaneModel { key: lane.key, note: lane.note, state: r.0 }, r.1)
}

/// The lanes after one tick: every lane steps independently.
pub open spec fn spec_advance_lanes(t: TrackerModel, snap: Seq<(Key, u32)>, now: u64) -> Seq<
    LaneModel,
> {
    Seq::new(t.lanes.len(), |i: int| spec_lane_step(t.config, t.lanes[i], snap, now).0)
}

/// The events of the first `n` lanes of one tick, concatenated in lane
/// order.
pub open spec fn spec_events_upto(
    t: TrackerModel,
    snap: Seq<(Key, u32)>,
    now: u64,
    n: int,
) -> Seq<NoteEvent>
    decreases n,
{
    if n <= 0 {
        Seq::empty()
    } else {
        spec_events_upto(t, snap, now, n - 1) + spec_lane_step(t.config, t.lanes[n - 1], snap, now).1
    }
}

/// One tick of the whole tracker: the successor tracker and the events
/// of all lanes, in lane order.
pub open spec fn spec_advance(t: TrackerModel, snap: Seq<(Key, u32)>, now: u64) -> (
    TrackerModel,
    Seq<NoteEvent>,
) {
    (
        TrackerModel {
            lanes: spec_advance_lanes(t, snap, now),
            config: t.config,
            last_tick: now,
        },
        spec_events_upto(t, snap, now, t.lanes.len() as int),
    )
}

/// Shutdown of a single lane: a sounding note is silenced with a
/// synthesized Note-Off and the lane returns to idle; a silent lane is
/// left as it is.
pub open spec fn spec_flush_lane(lane: LaneModel, now: u64) -> (LaneModel, Seq<NoteEvent>) {
    if lane.state.active() {
        (
            LaneModel {
                key: lane.key,
                note: lane.note,
                state: StateModel {
                    phase: Phase::Idle,
                    window: Seq::empty(),
                    prev: None,
                    last_off: Some(now),
                },
            },
            seq![NoteEvent::NoteOff { note: lane.note, time: now }],
        )
    } else {
        (lane, Seq::empty())
    }
}

/// The Note-Offs owed at shutdown by the first `n` lanes, in lane order.
pub open spec fn spec_flush_events_upto(t: TrackerModel, now: u64, n: int) -> Seq<NoteEvent>
    decreases n,
{
    if n <= 0 {
        Seq::empty()
    } else {
        spec_flush_events_upto(t, now, n - 1) + spec_flush_lane(t.lanes[n - 1], now).1
    }
}

/// Shutdown of the whole tracker.
pub open spec fn spec_flush(t: TrackerModel, now: u64) -> (TrackerModel, Seq<NoteEvent>) {
    (
        TrackerModel {
            lanes: Seq::new(t.lanes.len(), |i: int| spec_flush_lane(t.lanes[i], now).0),
            config: t.config,
            last_tick: now,
        },
        spec_flush_events_upto(t, now, t.lanes.len() as int),
    )
}

impl Tracker {
    /// Builds the tracker for a keymap: one idle lane per mapped key,
    /// allocated up front so the polling path never allocates per key.
    pub fn new(keymap: &KeyMap, config: EngineConfig) -> (t: Tracker)
        requires
            keymap.wf(),
            config.wf(),
        ensures
            t@.wf(),
            t@.config == config,
            t@.last_tick == 0,
            t@.lanes.len() == keymap.entries@.len(),
            forall|i: int|
                0 <= i < keymap.entries@.len() ==> (#[trigger] t@.lanes[i]) == (LaneModel {
                    key: keymap.entries@[i].0,
                    note: keymap.entries@[i].1,
                    state: StateModel::init(),
                }),
    {
        let mut lanes: Vec<KeyLane> = Vec::new();
        let mut i: usize = 0;
        while i < keymap.entries.len()
            invariant
                i <= keymap.entries@.len(),
                lanes@.len() == i,
                forall|j: int|
                    0 <= j < i ==> (#[trigger] lanes@[j])@ == (LaneModel {
                        key: keymap.entries@[j].0,
                        note: keymap.entries@[j].1,
                        state: StateModel::init(),
                    }),
            decreases keymap.entries@.len() - i,
        {
            let (key, note) = keymap.entries[i];
            lanes.push(KeyLane { key, note, state: KeyState::init() });
            i += 1;
        }
        let t = Tracker { lanes, config, last_tick: 0 };
        t
    }

    /// Processes one sampler tick: hands each lane its key's snapshot
    /// value and collects the emitted events in lane order. The result
    /// and the successor state are exactly `spec_advance` of the old
    /// state; ticks must carry monotone timestamps.
    pub fn advance(&mut self, snapshot: &Vec<(Key, u32)>, now: u64) -> (events: Vec<NoteEvent>)
        requires
            old(self)@.wf(),
            now >= old(self)@.last_tick,
        ensures
            final(self)@.wf(),
            final(self)@ == spec_advance(old(self)@, snapshot@, now).0,
            events@ == spec_advance(old(self)@, snapshot@, now).1,
    {
        let ghost t0 = self@;
        let mut events: Vec<NoteEvent> = Vec::new();
        let n: usize = self.lanes.len();
        let mut i: usize = 0;
        while i < n
            invariant
                t0.wf(),
                now >= t0.last_tick,
                i <= n,
                n == self.lanes@.len(),
                n == t0.lanes.len(),
                self.config == t0.config,
                self.last_tick == t0.last_tick,
                forall|j: int| i <= j < n ==> (#[trigger] self.lanes@[j])@ == t0.lanes[j],
                forall|j: int|
                    0 <= j < i ==> (#[trigger] self.lanes@[j])@ == spec_lane_step(
                        t0.config,
                        t0.lanes[j],
                        snapshot@,
                        now,
                    ).0,
                events@ == spec_events_upto(t0, snapshot@, now, i as int),
            decreases n - i,
        {
            let key = self.lanes[i].key;
            let note = self.lanes[i].note;
            let v = lookup_value(snapshot, key);
            proof {
                assert(self.lanes@[i as int]@ == t0.lanes[i as int]);
                assert(t0.lanes[i as int].state.wf(t0.config, t0.last_tick));
            }
            let (st2, mut evs) = step_key(&self.config, note, &self.lanes[i].state, v, now);
            self.lanes[i] = KeyLane { key, note, state: st2 };
            events.append(&mut evs);
            proof {
                assert(self.lanes@[i as int]@ == spec_lane_step(
                    t0.config,
                    t0.lanes[i as int],
                    snapshot@,
                    now,
                ).0);
            }
            i += 1;
        }
        self.last_tick = now;
        proof {
            assert(self@.lanes =~= spec_advance_lanes(t0, snapshot@, now));
            assert(self@ =~= spec_advance(t0, snapshot@, now).0);
        }
        events
    }

    /// Shuts the engine down: synthesizes a Note-Off for every lane whose
    /// note is sounding, so no downstream device is left with a stuck
    /// note, and returns those lanes to idle.
    pub fn flush(&mut self, now: u64) -> (events: Vec<NoteEvent>)
        requires
            old(self)@.wf(),
            now >= old(self)@.last_tick,
        ensures
            final(self)@.wf(),
            final(self)@ == spec_flush(old(self)@, now).0,
            events@ == spec_flush(old(self)@, now).1,
    {
        let ghost t0 = self@;
        let mut events: Vec<NoteEvent> = Vec::new();
        let n: usize = self.lanes.len();
        let mut i: usize = 0;
        while i < n
            invariant
                t0.wf(),
                now >= t0.last_tick,
                i <= n,
                n == self.lanes@.len(),
                n == t0.lanes.len(),
                self.config == t0.config,
                self.last_tick == t0.last_tick,
                forall|j: int| i <= j < n ==> (#[trigger] self.lanes@[j])@ == t0.lanes[j],
                forall|j: int|
                    0 <= j < i ==> (#[trigger] self.lanes@[j])@ == spec_flush_lane(
                        t0.lanes[j],
                        now,
                    ).0,
                events@ == spec_flush_events_upto(t0, now, i as int),
            decreases n - i,
        {
            proof {
                assert(self.lanes@[i as int]@ == t0.lanes[i as int]);
            }
            let active = match self.lanes[i].state.phase {
                Phase::Sustained => true,
                _ => false,
            };
            if active {
                let key = self.lanes[i].key;
                let note = self.lanes[i].note;
                events.push(NoteEvent::NoteOff { note, time: now });
                self.lanes[i] = KeyLane {
                    key,
                    note,
                    state: KeyState {
                        phase: Phase::Idle,
                        window: Vec::new(),
                        prev: None,
                        last_off: Some(now),
                    },
                };
            }
            proof {
                assert(self.lanes@[i as int]@ == spec_flush_lane(t0.lanes[i as int], now).0);
                assert(events@ =~= spec_flush_events_upto(t0, now, i as int + 1));
            }
            i += 1;
        }
        self.last_tick = now;
        proof {
            assert(self@.lanes =~= Seq::new(t0.lanes.len(), |i: int| spec_flush_lane(
                t0.lanes[i],
                now,
            ).0));
            assert(self@ =~= spec_flush(t0, now).0);
        }
        events
    }
}

} // verus!
