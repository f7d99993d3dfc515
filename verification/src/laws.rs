//! Engine-wide guarantees, proved over the tracker's transition
//! semantics: unmapped keys never cause events, Note-On and Note-Off
//! strictly alternate per key, every velocity lies in [1, 127], and the
//! engine is a pure function of the sample stream.
//!
//! `Tracker::advance` and `Tracker::flush` return exactly what
//! `spec_advance` and `spec_flush` read from the old state, so these
//! lemmas, stated over streams of such ticks, speak about every
//! reachable execution of the engine.

use vstd::prelude::*;
use crate::events::{NoteEvent, alternates, active_after, lemma_alternates_concat};
use crate::keymap::{Key, Note};
use crate::tracker::{
    spec_advance, spec_events_upto, spec_flush, spec_flush_lane, spec_lane_step, spec_lookup,
    spec_step, StateModel, TrackerModel,
};
use crate::types::{spec_clamp_analog, EngineConfig, Sample};
use crate::tracker::Phase;
use crate::velocity::lemma_velocity_range;

verus! {

/// The tracker after a whole stream of ticks, one snapshot and one tick
/// time per entry.
pub open spec fn spec_run_state(
    t: TrackerModel,
    snaps: Seq<Seq<(Key, u32)>>,
    nows: Seq<u64>,
) -> TrackerModel
    decreases snaps.len(),
{
    if snaps.len() == 0 {
        t
    } else {
        spec_run_state(
            spec_advance(t, snaps[0], nows[0]).0,
            snaps.drop_first(),
            nows.drop_first(),
        )
    }
}

/// Every event a whole stream of ticks produces, in order.
pub open spec fn spec_run_events(
    t: TrackerModel,
    snaps: Seq<Seq<(Key, u32)>>,
    nows: Seq<u64>,
) -> Seq<NoteEvent>
    decreases snaps.len(),
{
    if snaps.len() == 0 {
        Seq::empty()
    } else {
        spec_advance(t, snaps[0], nows[0]).1 + spec_run_events(
            spec_advance(t, snaps[0], nows[0]).0,
            snaps.drop_first(),
            nows.drop_first(),
        )
    }
}

/// The events lane `i` contributes over a whole stream of ticks, in
/// order: the per-key event history.
pub open spec fn spec_lane_run_events(
    t: TrackerModel,
    snaps: Seq<Seq<(Key, u32)>>,
    nows: Seq<u64>,
    i: int,
) -> Seq<NoteEvent>
    decreases snaps.len(),
{
    if snaps.len() == 0 {
        Seq::empty()
    } else {
        spec_lane_step(t.config, t.lanes[i], snaps[0], nows[0]).1 + spec_lane_run_events(
            spec_advance(t, snaps[0], nows[0]).0,
            snaps.drop_first(),
            nows.drop_first(),
            i,
        )
    }
}

/// Two snapshots agree on every key the tracker maps. Keys outside the
/// keymap may differ arbitrarily between them.
pub open spec fn snapshots_agree_on_tracked(
    t: TrackerModel,
    s1: Seq<(Key, u32)>,
    s2: Seq<(Key, u32)>,
) -> bool {
    forall|i: int|
        0 <= i < t.lanes.len() ==> spec_lookup(s1, (#[trigger] t.lanes[i]).key) == spec_lookup(
            s2,
            t.lanes[i].key,
        )
}

proof fn lemma_events_upto_agree(
    t: TrackerModel,
    s1: Seq<(Key, u32)>,
    s2: Seq<(Key, u32)>,
    now: u64,
    n: int,
)
    requires
        snapshots_agree_on_tracked(t, s1, s2),
        n <= t.lanes.len(),
    ensures
        spec_events_upto(t, s1, now, n) == spec_events_upto(t, s2, now, n),
    decreases n,
{
    if n > 0 {
        lemma_events_upto_agree(t, s1, s2, now, n - 1);
        assert(spec_lookup(s1, t.lanes[n - 1].key) == spec_lookup(s2, t.lanes[n - 1].key));
    }
}

/// A key the keymap does not list never causes an event and never
/// influences the tracker: a tick behaves identically under any two
/// snapshots that agree on the mapped keys, whatever the unmapped keys
/// report.
pub proof fn lemma_advance_ignores_unmapped(
    t: TrackerModel,
    s1: Seq<(Key, u32)>,
    s2: Seq<(Key, u32)>,
    now: u64,
)
    requires
        snapshots_agree_on_tracked(t, s1, s2),
    ensures
        spec_advance(t, s1, now).0 == spec_advance(t, s2, now).0,
        spec_advance(t, s1, now).1 == spec_advance(t, s2, now).1,
{
    assert forall|i: int| 0 <= i < t.lanes.len() implies spec_lane_step(
        t.config,
        #[trigger] t.lanes[i],
        s1,
        now,
    ) == spec_lane_step(t.config, t.lanes[i], s2, now) by {
        assert(spec_lookup(s1, t.lanes[i].key) == spec_lookup(s2, t.lanes[i].key));
    }
    assert(spec_advance(t, s1, now).0.lanes =~= spec_advance(t, s2, now).0.lanes);
    assert(spec_advance(t, s1, now).0 =~= spec_advance(t, s2, now).0);
    lemma_events_upto_agree(t, s1, s2, now, t.lanes.len() as int);
}

/// `lemma_advance_ignores_unmapped`, extended over a whole stream of
/// ticks: two snapshot streams that agree on the mapped keys at every
/// tick drive the engine to the same states and the same events.
pub proof fn lemma_run_ignores_unmapped(
    t: TrackerModel,
    snaps1: Seq<Seq<(Key, u32)>>,
    snaps2: Seq<Seq<(Key, u32)>>,
    nows: Seq<u64>,
)
    requires
        snaps1.len() == snaps2.len(),
        nows.len() == snaps1.len(),
        forall|j: int|
            0 <= j < snaps1.len() ==> snapshots_agree_on_tracked(
                spec_run_state(t, snaps1.take(j), nows.take(j)),
                #[trigger] snaps1[j],
                snaps2[j],
            ),
    ensures
        spec_run_state(t, snaps1, nows) == spec_run_state(t, snaps2, nows),
        spec_run_events(t, snaps1, nows) == spec_run_events(t, snaps2, nows),
    decreases snaps1.len(),
{
    if snaps1.len() > 0 {
        assert(snaps1.take(0) =~= Seq::<Seq<(Key, u32)>>::empty());
        assert(nows.take(0) =~= Seq::<u64>::empty());
        assert(snapshots_agree_on_tracked(t, snaps1[0], snaps2[0]));
        lemma_advance_ignores_unmapped(t, snaps1[0], snaps2[0], nows[0]);
        let t1 = spec_advance(t, snaps1[0], nows[0]).0;
        assert forall|j: int| 0 <= j < snaps1.drop_first().len() implies snapshots_agree_on_tracked(
            spec_run_state(t1, snaps1.drop_first().take(j), nows.drop_first().take(j)),
            #[trigger] snaps1.drop_first()[j],
            snaps2.drop_first()[j],
        ) by {
            assert(snaps1.take(j + 1).drop_first() =~= snaps1.drop_first().take(j));
            assert(nows.take(j + 1).drop_first() =~= nows.drop_first().take(j));
            assert(snaps1.take(j + 1)[0] == snaps1[0]);
            assert(nows.take(j + 1)[0] == nows[0]);
            assert(spec_run_state(t, snaps1.take(j + 1), nows.take(j + 1)) == spec_run_state(
                t1,
                snaps1.drop_first().take(j),
                nows.drop_first().take(j),
            ));
            assert(snaps1.drop_first()[j] == snaps1[j + 1]);
            assert(snaps2.drop_first()[j] == snaps2[j + 1]);
        }
        lemma_run_ignores_unmapped(t1, snaps1.drop_first(), snaps2.drop_first(), nows.drop_first());
    }
}

/// One step of one key emits a legal bit of event stream: a Note-On only
/// while the key's note is silent, a Note-Off only while it sounds, and
/// the key's activity afterwards is what the events say it is.
pub proof fn lemma_step_alternates(
    cfg: EngineConfig,
    note: Note,
    st: StateModel,
    v_raw: u32,
    now: u64,
)
    ensures
        alternates(spec_step(cfg, note, st, v_raw, now).1, st.active()),
        spec_step(cfg, note, st, v_raw, now).0.active() == active_after(
            spec_step(cfg, note, st, v_raw, now).1,
            st.active(),
        ),
{
    reveal_with_fuel(alternates, 4);
    let r = spec_step(cfg, note, st, v_raw, now);
    let evs = r.1;
    if evs.len() == 1 {
        assert(evs.drop_first() =~= Seq::<NoteEvent>::empty());
    }
    if evs.len() == 2 {
        assert(evs.drop_first() =~= seq![evs[1]]);
        assert(evs.drop_first().drop_first() =~= Seq::<NoteEvent>::empty());
    }
}

/// Per key, Note-On and Note-Off strictly alternate over any stream of
/// ticks, starting from the key's current activity: no re-entrant
/// Note-On while the note sounds, and never a Note-Off without a note
/// sounding — in particular never two Note-Offs in a row. For a freshly
/// built tracker every lane starts silent, so each lane's history starts
/// with a Note-On and pairs each Note-On with the one Note-Off after it.
pub proof fn lemma_lane_events_alternate(
    t: TrackerModel,
    snaps: Seq<Seq<(Key, u32)>>,
    nows: Seq<u64>,
    i: int,
)
    requires
        0 <= i < t.lanes.len(),
    ensures
        alternates(spec_lane_run_events(t, snaps, nows, i), t.lanes[i].state.active()),
        active_after(spec_lane_run_events(t, snaps, nows, i), t.lanes[i].state.active())
            == spec_run_state(t, snaps, nows).lanes[i].state.active(),
    decreases snaps.len(),
{
    if snaps.len() > 0 {
        let a = spec_lane_step(t.config, t.lanes[i], snaps[0], nows[0]).1;
        let t1 = spec_advance(t, snaps[0], nows[0]).0;
        lemma_step_alternates(
            t.config,
            t.lanes[i].note,
            t.lanes[i].state,
            spec_lookup(snaps[0], t.lanes[i].key),
            nows[0],
        );
        assert(t1.lanes[i] == spec_lane_step(t.config, t.lanes[i], snaps[0], nows[0]).0);
        lemma_lane_events_alternate(t1, snaps.drop_first(), nows.drop_first(), i);
        lemma_alternates_concat(
            a,
            spec_lane_run_events(t1, snaps.drop_first(), nows.drop_first(), i),
            t.lanes[i].state.active(),
        );
    }
}

/// A Note-On event carries a velocity in [1, 127].
pub open spec fn event_velocity_ok(e: NoteEvent) -> bool {
    e matches NoteEvent::NoteOn { velocity, .. } ==> 1 <= velocity <= 127
}

proof fn lemma_step_velocity_range(
    cfg: EngineConfig,
    note: Note,
    st: StateModel,
    v_raw: u32,
    now: u64,
)
    ensures
        forall|j: int|
            0 <= j < spec_step(cfg, note, st, v_raw, now).1.len() ==> event_velocity_ok(
                #[trigger] spec_step(cfg, note, st, v_raw, now).1[j],
            ),
{
    let v = spec_clamp_analog(v_raw);
    let s = Sample { value: v, time: now };
    match st.phase {
        Phase::Idle => {
            lemma_velocity_range(crate::tracker::spec_enter_window(st, s), cfg.k);
        },
        Phase::Attacking => {
            lemma_velocity_range(
                crate::tracker::spec_push_window(st.window, s, cfg.window_cap),
                cfg.k,
            );
            lemma_velocity_range(st.window, cfg.k);
        },
        Phase::Sustained => {
        },
    }
}

proof fn lemma_events_upto_velocity_range(
    t: TrackerModel,
    snap: Seq<(Key, u32)>,
    now: u64,
    n: int,
)
    ensures
        forall|j: int|
            0 <= j < spec_events_upto(t, snap, now, n).len() ==> event_velocity_ok(
                #[trigger] spec_events_upto(t, snap, now, n)[j],
            ),
    decreases n,
{
    if n > 0 {
        lemma_events_upto_velocity_range(t, snap, now, n - 1);
        lemma_step_velocity_range(
            t.config,
            t.lanes[n - 1].note,
            t.lanes[n - 1].state,
            spec_lookup(snap, t.lanes[n - 1].key),
            now,
        );
        let a = spec_events_upto(t, snap, now, n - 1);
        let b = spec_step(
            t.config,
            t.lanes[n - 1].note,
            t.lanes[n - 1].state,
            spec_lookup(snap, t.lanes[n - 1].key),
            now,
        ).1;
        assert(spec_events_upto(t, snap, now, n) == a + b);
        assert forall|j: int|
            0 <= j < spec_events_upto(t, snap, now, n).len() implies event_velocity_ok(
            #[trigger] spec_events_upto(t, snap, now, n)[j],
        ) by {
            if j < a.len() {
                assert(spec_events_upto(t, snap, now, n)[j] == spec_events_upto(
                    t,
                    snap,
                    now,
                    n - 1,
                )[j]);
            } else {
                assert(spec_events_upto(t, snap, now, n)[j] == b[j - a.len()]);
                assert(event_velocity_ok(
                    spec_step(
                        t.config,
                        t.lanes[n - 1].note,
                        t.lanes[n - 1].state,
                        spec_lookup(snap, t.lanes[n - 1].key),
                        now,
                    ).1[j - a.len()],
                ));
            }
        }
    }
}

/// Every Note-On a tick emits carries a velocity in [1, 127]; velocity
/// zero never occurs, it would read as a Note-Off on the wire.
pub proof fn lemma_advance_velocity_range(t: TrackerModel, snap: Seq<(Key, u32)>, now: u64)
    ensures
        forall|j: int|
            0 <= j < spec_advance(t, snap, now).1.len() ==> event_velocity_ok(
                #[trigger] spec_advance(t, snap, now).1[j],
            ),
{
    lemma_events_upto_velocity_range(t, snap, now, t.lanes.len() as int);
}

/// Every Note-On the engine ever emits, over any stream of ticks,
/// carries a velocity in [1, 127].
pub proof fn lemma_run_velocity_range(t: TrackerModel, snaps: Seq<Seq<(Key, u32)>>, nows: Seq<u64>)
    ensures
        forall|j: int|
            0 <= j < spec_run_events(t, snaps, nows).len() ==> event_velocity_ok(
                #[trigger] spec_run_events(t, snaps, nows)[j],
            ),
    decreases snaps.len(),
{
    if snaps.len() > 0 {
        lemma_advance_velocity_range(t, snaps[0], nows[0]);
        lemma_run_velocity_range(
            spec_advance(t, snaps[0], nows[0]).0,
            snaps.drop_first(),
            nows.drop_first(),
        );
        assert forall|j: int|
            0 <= j < spec_run_events(t, snaps, nows).len() implies event_velocity_ok(
            #[trigger] spec_run_events(t, snaps, nows)[j],
        ) by {
            let a = spec_advance(t, snaps[0], nows[0]).1;
            let b = spec_run_events(
                spec_advance(t, snaps[0], nows[0]).0,
                snaps.drop_first(),
                nows.drop_first(),
            );
            if j < a.len() {
                assert(spec_run_events(t, snaps, nows)[j] == a[j]);
            } else {
                assert(spec_run_events(t, snaps, nows)[j] == b[j - a.len()]);
            }
        }
    }
}

/// Shutdown silences everything: a flush leaves no lane's note
/// sounding, and per lane it emits exactly one Note-Off if the note was
/// sounding and nothing otherwise — a legal end to the lane's event
/// stream.
pub proof fn lemma_flush_silences_all(t: TrackerModel, now: u64)
    ensures
        spec_flush(t, now).0.lanes.len() == t.lanes.len(),
        forall|i: int|
            0 <= i < t.lanes.len() ==> !(#[trigger] spec_flush(t, now).0.lanes[i]).state.active(),
        forall|i: int|
            0 <= i < t.lanes.len() ==> alternates(
                (#[trigger] spec_flush_lane(t.lanes[i], now)).1,
                t.lanes[i].state.active(),
            ) && !active_after(spec_flush_lane(t.lanes[i], now).1, t.lanes[i].state.active()),
{
    reveal_with_fuel(alternates, 3);
    assert forall|i: int| 0 <= i < t.lanes.len() implies alternates(
        (#[trigger] spec_flush_lane(t.lanes[i], now)).1,
        t.lanes[i].state.active(),
    ) && !active_after(spec_flush_lane(t.lanes[i], now).1, t.lanes[i].state.active()) by {
        let evs = spec_flush_lane(t.lanes[i], now).1;
        if t.lanes[i].state.active() {
            assert(evs.drop_first() =~= Seq::<NoteEvent>::empty());
        }
    }
}

/// Replaying the identical recorded sample stream through an engine in
/// the identical starting state produces the identical event sequence
/// and the identical final state: the engine is a pure function of its
/// input stream, with no hidden dependence on time, chance or
/// environment.
pub proof fn lemma_replay_deterministic(
    t1: TrackerModel,
    t2: TrackerModel,
    snaps: Seq<Seq<(Key, u32)>>,
    nows: Seq<u64>,
)
    requires
        t1 == t2,
    ensures
        spec_run_events(t1, snaps, nows) == spec_run_events(t2, snaps, nows),
        spec_run_state(t1, snaps, nows) == spec_run_state(t2, snaps, nows),
{
}

} // verus!
