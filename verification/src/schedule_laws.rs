//! Properties of the indicator scheduler that span transitions.
use vstd::prelude::*;
use crate::indicator::{BlinkCount, Cadence, IdlePolicy, Policy};
use crate::schedule::{
    IndicatorState, activity_in_progress, commands_started, drive_measure, edge_ready, is_due, lemma_drive, max_time, lemma_start_activity_wf, lemma_step, next_time, rest_times, sat_add,
    spec_drive, spec_observe, spec_start_activity, spec_step, state_wf, spec_start_idle,
    spec_attention_ended, lemma_start_idle_wf,
};

verus! {

/// Whether `k` renderer calls starting from level `lit` include an on call.
pub open spec fn renders_on(lit: bool, k: nat) -> bool {
    (k >= 1 && !lit) || k >= 2
}

/// Whether an activity on phase is still owed: an on edge pending, an off
/// separator scheduled before it, or an extra pulse retained.
pub open spec fn owes_on_phase(s: IndicatorState) -> bool {
    s.pending_activity_edge || s.mode is ActivitySeparator || s.pending_activity_pulse
}

/// The state with its observed epoch replaced.
pub open spec fn with_epoch(s: IndicatorState, epoch: u64) -> IndicatorState {
    IndicatorState { seen_epoch: epoch, ..s }
}

/// No replay of missed transitions: however late the transitions due at
/// `now` are run, they make at most 16 renderer calls.
pub proof fn lemma_no_replay(p: Policy, s: IndicatorState, now: u128, ts: Seq<u128>)
    requires
        state_wf(p, s),
        now < u128::MAX,
    ensures
        spec_drive(p, s, now, ts).1 <= 16,
{
    lemma_drive(p, s, now, ts);
}

/// The level of the indicator agrees with the mode: idle blinking restarts
/// from off and its on phase is lit, settling off and separating start from
/// on, and a pending activity edge is an on edge.
pub proof fn lemma_levels_follow_mode(p: Policy, s: IndicatorState)
    requires
        state_wf(p, s),
    ensures
        s.mode is IdleOff ==> !s.lit,
        s.mode is IdleOn ==> s.lit,
        s.mode is SettleOff ==> s.lit,
        s.mode is ActivitySeparator ==> s.lit,
        s.pending_activity_edge ==> !s.lit,
{
}

proof fn lemma_step_keeps_owed(p: Policy, s: IndicatorState, now: u128, t: u128)
    requires
        state_wf(p, s),
        is_due(s, now),
        now < u128::MAX,
        s.attention is None,
        owes_on_phase(s),
    ensures
        ({
            let (s1, u) = spec_step(p, s, now, t);
            (u == 1 && s1.lit && !s.lit) || owes_on_phase(s1)
        }),
{
    lemma_step(p, s, now, t);
}

proof fn lemma_drive_keeps_owed(p: Policy, s: IndicatorState, now: u128, ts: Seq<u128>)
    requires
        state_wf(p, s),
        now < u128::MAX,
        s.attention is None,
        owes_on_phase(s),
    ensures
        ({
            let (s2, k) = spec_drive(p, s, now, ts);
            renders_on(s.lit, k) || owes_on_phase(s2)
        }),
    decreases drive_measure(s, now),
{
    if is_due(s, now) {
        let t = next_time(ts, now);
        let (s1, u) = spec_step(p, s, now, t);
        lemma_step(p, s, now, t);
        lemma_step_keeps_owed(p, s, now, t);
        if !(u == 1 && s1.lit && !s.lit) {
            lemma_drive_keeps_owed(p, s1, now, rest_times(ts, u));
        }
    }
}

/// Activity always establishes an on phase: when a new command is observed
/// while scheduling is enabled and no attention cadence runs, the call
/// either makes an on renderer call or leaves an on phase owed (an on edge
/// pending, a separating off edge scheduled, or an extra pulse retained).
pub proof fn lemma_activity_establishes_on_phase(
    p: Policy,
    s: IndicatorState,
    active: bool,
    epoch: u64,
    now: u128,
    ts: Seq<u128>,
)
    requires
        state_wf(p, s),
        s.enabled,
        s.attention is None,
        commands_started(s, epoch) != 0,
        now < u128::MAX,
    ensures
        ({
            let (s2, k) = spec_observe(p, s, active, epoch, now, ts);
            renders_on(s.lit, k) || owes_on_phase(s2)
        }),
{
    let s1 = IndicatorState { command_active: active, seen_epoch: epoch, ..s };
    if activity_in_progress(s1) {
        lemma_drive_keeps_owed(p, IndicatorState { pending_activity_pulse: true, ..s1 }, now, ts);
    } else {
        let sa = spec_start_activity(p, s1, now);
        lemma_start_activity_wf(p, s1, now);
        lemma_drive(p, sa, now, ts);
        lemma_drive_keeps_owed(p, sa, now, ts);
        let (s3, k1) = spec_drive(p, sa, now, ts);
        let s4 = if commands_started(s, epoch) > 1 {
            IndicatorState { pending_activity_pulse: true, ..s3 }
        } else {
            s3
        };
        let ts2 = ts.skip(k1 as int);
        lemma_drive(p, s4, now, ts2);
        if owes_on_phase(s3) {
            lemma_drive_keeps_owed(p, s4, now, ts2);
        }
    }
}

proof fn lemma_step_ignores_epoch(p: Policy, s: IndicatorState, x: u64, now: u128, t: u128)
    ensures
        spec_step(p, with_epoch(s, x), now, t) == (
            with_epoch(spec_step(p, s, now, t).0, x),
            spec_step(p, s, now, t).1,
        ),
{
}

proof fn lemma_drive_ignores_epoch(p: Policy, s: IndicatorState, x: u64, now: u128, ts: Seq<u128>)
    requires
        state_wf(p, s),
        now < u128::MAX,
    ensures
        spec_drive(p, with_epoch(s, x), now, ts) == (
            with_epoch(spec_drive(p, s, now, ts).0, x),
            spec_drive(p, s, now, ts).1,
        ),
    decreases drive_measure(s, now),
{
    assert(state_wf(p, with_epoch(s, x)));
    if is_due(s, now) {
        let t = next_time(ts, now);
        let (s1, u) = spec_step(p, s, now, t);
        lemma_step(p, s, now, t);
        lemma_step_ignores_epoch(p, s, x, now, t);
        lemma_drive_ignores_epoch(p, s1, x, now, rest_times(ts, u));
        assert(with_epoch(with_epoch(s1, x), s1.seen_epoch) == s1);
    }
}

/// Activity coalesces rather than building a replay queue: observing two or
/// more new commands has the same effect whatever their number, apart from
/// the epoch recorded.
pub proof fn lemma_burst_coalesces(
    p: Policy,
    s: IndicatorState,
    active: bool,
    epoch1: u64,
    epoch2: u64,
    now: u128,
    ts: Seq<u128>,
)
    requires
        state_wf(p, s),
        commands_started(s, epoch1) > 1,
        commands_started(s, epoch2) > 1,
        now < u128::MAX,
    ensures
        with_epoch(spec_observe(p, s, active, epoch1, now, ts).0, 0) == with_epoch(
            spec_observe(p, s, active, epoch2, now, ts).0,
            0,
        ),
        spec_observe(p, s, active, epoch1, now, ts).1 == spec_observe(
            p,
            s,
            active,
            epoch2,
            now,
            ts,
        ).1,
{
    let s1 = IndicatorState { command_active: active, seen_epoch: epoch1, ..s };
    let s2 = IndicatorState { command_active: active, seen_epoch: epoch2, ..s };
    assert(s2 == with_epoch(s1, epoch2));
    if s1.enabled && s1.attention is None {
        if activity_in_progress(s1) {
            let q = IndicatorState { pending_activity_pulse: true, ..s1 };
            assert(state_wf(p, q));
            lemma_drive_ignores_epoch(p, q, epoch2, now, ts);
            lemma_drive_ignores_epoch(p, q, 0, now, ts);
            lemma_drive_ignores_epoch(p, with_epoch(q, epoch2), 0, now, ts);
            assert(with_epoch(q, epoch2) == IndicatorState { pending_activity_pulse: true, ..s2 });
        } else {
            let sa = spec_start_activity(p, s1, now);
            lemma_start_activity_wf(p, s1, now);
            lemma_drive(p, sa, now, ts);
            lemma_drive_ignores_epoch(p, sa, epoch2, now, ts);
            assert(with_epoch(sa, epoch2) == spec_start_activity(p, s2, now));
            let (s3, k1) = spec_drive(p, sa, now, ts);
            let s4 = IndicatorState { pending_activity_pulse: true, ..s3 };
            let ts2 = ts.skip(k1 as int);
            assert(state_wf(p, s4));
            lemma_drive_ignores_epoch(p, s4, epoch2, now, ts2);
            lemma_drive_ignores_epoch(p, s4, 0, now, ts2);
            lemma_drive_ignores_epoch(p, with_epoch(s4, epoch2), 0, now, ts2);
            assert(with_epoch(s4, epoch2) == IndicatorState {
                pending_activity_pulse: true,
                ..with_epoch(s3, epoch2)
            });
        }
    }
}

/// A short command finishes off and a sustained command continues into the
/// busy cadence: from a quiet, enabled state whose next edge is ready, one
/// new command renders one on call at `ts[0]`; a finished command then
/// settles off `minimum_edge` later, a running one toggles after the busy
/// on time. (With a zero minimum edge a finished command may also settle
/// off within the same call, so that case is left out.)
pub proof fn lemma_short_and_sustained_commands(
    p: Policy,
    s: IndicatorState,
    active: bool,
    epoch: u64,
    now: u128,
    ts: Seq<u128>,
)
    requires
        state_wf(p, s),
        s.enabled,
        s.attention is None,
        !s.lit,
        !s.pending_activity_edge,
        !s.pending_activity_pulse,
        s.mode is Rest,
        edge_ready(p, s, now) == now,
        commands_started(s, epoch) == 1,
        p.minimum_edge > 0,
        now < u128::MAX,
        ts.len() >= 1,
        ts[0] >= now,
    ensures
        ({
            let (s2, k) = spec_observe(p, s, active, epoch, now, ts);
            &&& k == 1
            &&& s2.lit
            &&& s2.last_edge == Some(ts[0])
            &&& active ==> s2.mode is Busy && s2.deadline == Some(sat_add(ts[0], p.busy.on))
            &&& !active ==> s2.mode is SettleOff && s2.deadline == Some(
                sat_add(ts[0], p.minimum_edge),
            )
        }),
{
    let s1 = IndicatorState { command_active: active, seen_epoch: epoch, ..s };
    let sa = spec_start_activity(p, s1, now);
    lemma_start_activity_wf(p, s1, now);
    let t = next_time(ts, now);
    assert(t == ts[0]);
    assert(edge_ready(p, s1, now) == now);
    assert(is_due(sa, now));
    let (s3, u) = spec_step(p, sa, now, t);
    lemma_step(p, sa, now, t);
    assert(u == 1);
    assert(!is_due(s3, now));
    assert(spec_drive(p, s3, now, rest_times(ts, u)) == (s3, 0nat));
    assert(spec_drive(p, sa, now, ts) == (s3, 1nat));
    assert(spec_drive(p, s3, now, ts.skip(1)) == (s3, 0nat));
}


/// An off separator comes before the activity on edge when the indicator
/// is already on (from idle blinking): a new command observed while lit and
/// with no pulse under way either schedules the separator or renders the off
/// edge at its first call time; the on edge then waits at least `minimum_edge` after the
/// start of that off call. (With a zero minimum edge the on call may follow
/// at once, so that case is left out.)
pub proof fn lemma_separator_before_activity_on(
    p: Policy,
    s: IndicatorState,
    active: bool,
    epoch: u64,
    now: u128,
    ts: Seq<u128>,
)
    requires
        state_wf(p, s),
        s.enabled,
        s.attention is None,
        s.lit,
        !activity_in_progress(s),
        commands_started(s, epoch) != 0,
        p.minimum_edge > 0,
        now < u128::MAX,
        forall|i: int| 0 <= i < ts.len() ==> #[trigger] ts[i] >= now,
    ensures
        ({
            let (s2, k) = spec_observe(p, s, active, epoch, now, ts);
            &&& k <= 1
            &&& k == 0 ==> s2.lit && s2.mode is ActivitySeparator && s2.deadline == Some(
                edge_ready(p, s, now),
            )
            &&& k == 1 ==> !s2.lit && s2.pending_activity_edge && s2.deadline == Some(
                max_time(sat_add(next_time(ts, now), p.minimum_edge), now),
            )
        }),
{
    let s1 = IndicatorState { command_active: active, seen_epoch: epoch, ..s };
    let sa = spec_start_activity(p, s1, now);
    lemma_start_activity_wf(p, s1, now);
    let t = next_time(ts, now);
    if is_due(sa, now) {
        let (s3, u) = spec_step(p, sa, now, t);
        lemma_step(p, sa, now, t);
        assert(u == 1);
        assert(!is_due(s3, now));
        assert(spec_drive(p, s3, now, rest_times(ts, u)) == (s3, 0nat));
        assert(spec_drive(p, sa, now, ts) == (s3, 1nat));
        let s4 = if commands_started(s, epoch) > 1 {
            IndicatorState { pending_activity_pulse: true, ..s3 }
        } else {
            s3
        };
        assert(state_wf(p, s4));
        assert(spec_drive(p, s4, now, ts.skip(1)) == (s4, 0nat));
    } else {
        assert(spec_drive(p, sa, now, ts) == (sa, 0nat));
        let s4 = if commands_started(s, epoch) > 1 {
            IndicatorState { pending_activity_pulse: true, ..sa }
        } else {
            sa
        };
        assert(state_wf(p, s4));
        assert(spec_drive(p, s4, now, ts.skip(0)) == (s4, 0nat));
    }
}


/// The transitions run one after another, the `i`th at time `ts[i]` (its
/// renderer call, if any, starting then too): the state reached and the
/// levels rendered, in order.
pub open spec fn run_steps(p: Policy, s: IndicatorState, ts: Seq<u128>) -> (IndicatorState, Seq<bool>)
    decreases ts.len(),
{
    if ts.len() == 0 {
        (s, Seq::empty())
    } else {
        let (s1, u) = spec_step(p, s, ts[0], ts[0]);
        let (s2, levels) = run_steps(p, s1, ts.drop_first());
        (s2, if u == 1 { seq![s1.lit] + levels } else { levels })
    }
}

/// `n` blinks: on, off, repeated `n` times.
pub open spec fn blinks(n: nat) -> Seq<bool> {
    Seq::new(2 * n, |i: int| i % 2 == 0)
}

proof fn lemma_idle_blinks_from(p: Policy, c: Cadence, count: u32, s: IndicatorState, m: nat, ts: Seq<u128>)
    requires
        p.idle == (IdlePolicy::Blink { cadence: c, count: BlinkCount::Finite(count) }),
        1 <= m <= u32::MAX,
        s.mode is IdleOff,
        s.idle_blinks_remaining == Some(m as u32),
        !s.lit,
        !s.pending_activity_edge,
        ts.len() == 2 * m,
    ensures
        run_steps(p, s, ts).1 == blinks(m),
        run_steps(p, s, ts).0.mode is Rest,
        !run_steps(p, s, ts).0.lit,
        run_steps(p, s, ts).0.deadline is None,
    decreases m,
{
    let (s1, u1) = spec_step(p, s, ts[0], ts[0]);
    assert(u1 == 1 && s1.lit && s1.mode is IdleOn && s1.idle_blinks_remaining == Some(m as u32));
    let rest1 = ts.drop_first();
    let (s2, u2) = spec_step(p, s1, rest1[0], rest1[0]);
    assert(u2 == 1 && !s2.lit);
    let rest2 = rest1.drop_first();
    if m == 1 {
        assert(s2.mode is Rest && s2.deadline is None);
        assert(rest2.len() == 0);
        assert(run_steps(p, s2, rest2) == (s2, Seq::<bool>::empty()));
        assert(run_steps(p, s1, rest1).1 =~= seq![false]);
        assert(run_steps(p, s, ts).1 =~= seq![true, false]);
        assert(blinks(1) =~= seq![true, false]);
    } else {
        assert(s2.mode is IdleOff && s2.idle_blinks_remaining == Some((m - 1) as u32));
        lemma_idle_blinks_from(p, c, count, s2, (m - 1) as nat, rest2);
        assert(run_steps(p, s1, rest1).1 =~= seq![false] + blinks((m - 1) as nat));
        assert(run_steps(p, s, ts).1 =~= seq![true] + (seq![false] + blinks((m - 1) as nat)));
        assert(blinks(m) =~= seq![true] + (seq![false] + blinks((m - 1) as nat)));
    }
}

/// A finite idle blink count is honoured exactly: leaving activity unlit
/// under `Blink { count: Finite(n) }` with `n >= 1`, the next `2n`
/// transitions (whenever they run) render on and off `n` times, and the
/// scheduler then rests, off, with nothing scheduled.
pub proof fn lemma_finite_idle_blinks(
    p: Policy,
    c: Cadence,
    n: u32,
    s: IndicatorState,
    now: u128,
    ts: Seq<u128>,
)
    requires
        p.idle == (IdlePolicy::Blink { cadence: c, count: BlinkCount::Finite(n) }),
        n >= 1,
        !s.lit,
        !s.pending_activity_edge,
        !s.pending_activity_pulse,
        ts.len() == 2 * n,
    ensures
        run_steps(p, spec_start_idle(p, s, now), ts).1 == blinks(n as nat),
        run_steps(p, spec_start_idle(p, s, now), ts).0.mode is Rest,
        !run_steps(p, spec_start_idle(p, s, now), ts).0.lit,
        run_steps(p, spec_start_idle(p, s, now), ts).0.deadline is None,
{
    lemma_idle_blinks_from(p, c, n, spec_start_idle(p, s, now), n as nat, ts);
}


/// A lit indicator always has a transition ahead: a deadline is scheduled
/// and the scheduler is not resting.
pub open spec fn lit_is_scheduled(s: IndicatorState) -> bool {
    s.lit ==> s.deadline is Some && !(s.mode is Rest)
}

proof fn lemma_start_idle_scheduled(p: Policy, s: IndicatorState, now: u128)
    ensures
        lit_is_scheduled(spec_start_idle(p, s, now)),
{
}

proof fn lemma_step_scheduled(p: Policy, s: IndicatorState, now: u128, t: u128)
    requires
        lit_is_scheduled(s),
    ensures
        lit_is_scheduled(spec_step(p, s, now, t).0),
{
    let s_on = IndicatorState { pending_activity_edge: false, ..spec_set_lit_on(s, t) };
    lemma_start_idle_scheduled(p, s_on, now);
    lemma_start_idle_scheduled(p, s, now);
    let s_off = spec_step_off(s, t);
    lemma_start_idle_scheduled(p, s_off, now);
    lemma_start_idle_scheduled(p, IndicatorState { pending_activity_pulse: false, ..s_off }, now);
}

spec fn spec_set_lit_on(s: IndicatorState, t: u128) -> IndicatorState {
    crate::schedule::spec_set_lit(s, true, t).0
}

spec fn spec_step_off(s: IndicatorState, t: u128) -> IndicatorState {
    crate::schedule::spec_set_lit(s, false, t).0
}

proof fn lemma_drive_scheduled(p: Policy, s: IndicatorState, now: u128, ts: Seq<u128>)
    requires
        state_wf(p, s),
        now < u128::MAX,
        lit_is_scheduled(s),
    ensures
        lit_is_scheduled(spec_drive(p, s, now, ts).0),
    decreases drive_measure(s, now),
{
    if is_due(s, now) {
        let (s1, u) = spec_step(p, s, now, next_time(ts, now));
        lemma_step(p, s, now, next_time(ts, now));
        lemma_step_scheduled(p, s, now, next_time(ts, now));
        lemma_drive_scheduled(p, s1, now, rest_times(ts, u));
    }
}

/// Ending attention with no command running leaves activity as a finished
/// command does: a lit indicator is either rendered off in the same call or
/// settles off at the next ready edge, and in no case is the indicator left
/// lit with nothing scheduled.
pub proof fn lemma_attention_end_settles(p: Policy, s: IndicatorState, now: u128, ts: Seq<u128>)
    requires
        state_wf(p, s),
        s.enabled,
        !s.command_active,
        now < u128::MAX,
    ensures
        ({
            let (s2, k) = spec_attention_ended(p, s, now, ts);
            &&& lit_is_scheduled(s2)
            &&& !(s2.lit && s2.deadline is None)
            &&& s.lit ==> k >= 1 || (s2.lit && s2.mode is SettleOff && s2.deadline == Some(
                edge_ready(p, s, now),
            ))
        }),
{
    let s1 = IndicatorState { attention: None, ..s };
    let si = spec_start_idle(p, s1, now);
    lemma_start_idle_wf(p, s1, now);
    lemma_start_idle_scheduled(p, s1, now);
    lemma_drive_scheduled(p, si, now, ts);
    lemma_drive(p, si, now, ts);
    if s.lit {
        let (s2, k) = spec_drive(p, si, now, ts);
        if k == 0 {
            if is_due(si, now) {
                let (s3, u) = spec_step(p, si, now, next_time(ts, now));
                lemma_step(p, si, now, next_time(ts, now));
                assert(u == 1);
            }
        }
    }
}

} // verus!
