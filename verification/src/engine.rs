//! The activity-indicator scheduler: a state machine over the caller's
//! clock that drives a renderer supplied by the application.
use vstd::prelude::*;
use std::time::Duration;
use std::time::Instant;
use crate::indicator::{BlinkCount, Cadence, IdlePolicy, Policy, cadence_valid, policy_valid};
use crate::schedule::{
    IndicatorState, Mode, attention_cadence, edge_ready, edge_time, idle_cadence, initial_state,
    is_due, lemma_start_activity_wf, lemma_start_idle_wf, lemma_step, next_time,
    rest_times, sat_add, spec_attention_ended, spec_attention_started, spec_drive, spec_observe,
    spec_set_enabled, spec_set_lit, spec_start_activity, spec_start_idle, spec_start_initial_idle,
    spec_step, state_wf, drive_measure, activity_in_progress,
};

verus! {

/// Declares `std::time::Instant` (opaque): the engine keeps the instant its
/// clock counts from.
#[verifier::external_type_specification]
#[verifier::external_body]
pub struct ExInstant(Instant);

/// Declares `std::io::Error` (opaque): renderer failures are carried
/// through unchanged.
#[verifier::external_type_specification]
#[verifier::external_body]
pub struct ExIoError(std::io::Error);

/// Trusted: `std::time::Instant::now`. The reading depends on the clock, so
/// nothing is stated of it.
#[verifier::external_body]
fn instant_now() -> Instant {
    Instant::now()
}

/// Trusted: `std::time::Instant::elapsed`. The reading depends on the
/// clock, so nothing is stated of it.
#[verifier::external_body]
fn instant_elapsed(origin: &Instant) -> Duration {
    origin.elapsed()
}

/// Trusted: `std::time::Duration::as_nanos`. `Duration` is opaque here, so
/// nothing is stated of the result.
#[verifier::external_body]
fn duration_as_nanos(duration: Duration) -> u128 {
    duration.as_nanos()
}

/// The engine time of a clock reading of `nanos` nanoseconds: the reading
/// itself, held below `u128::MAX` so that a later instant always exists.
pub fn clock_reading(nanos: u128) -> (r: u128)
    ensures
        r == if nanos >= u128::MAX - 1 {
            (u128::MAX - 1) as u128
        } else {
            nanos
        },
{
    if nanos >= u128::MAX - 1 {
        u128::MAX - 1
    } else {
        nanos
    }
}

/// Applies the scheduler's single logical indicator bit.
///
/// Implementations may select complete frames, update a display region, or
/// drive a physical LED. The scheduler never powers down the containing
/// display. An error stops the transition that asked for the level.
///
/// The trait is implemented by the library's users and its contract is not
/// checked here; the engine's proofs rest on it. An implementation is
/// modelled by `shown`, the levels it has displayed so far: a successful call
/// displays exactly the level it was given, and a failed call displays
/// nothing. Implementations written outside Verus cannot define `shown` and
/// inherit the default body, which only lets them compile; for them `shown`
/// stands for the levels they physically displayed, and the contract is the
/// obligation they take on.
pub trait IndicatorRenderer {
    /// The levels displayed so far, in order.
    closed spec fn shown(&self) -> Seq<bool> {
        Seq::empty()
    }

    fn set_indicator(&mut self, lit: bool) -> (r: Result<(), std::io::Error>)
        ensures
            r is Ok ==> final(self).shown() == old(self).shown().push(lit),
            r is Err ==> final(self).shown() == old(self).shown(),
    ;
}

/// `k` levels that each flip the one before, starting from `lit`.
pub open spec fn toggles(lit: bool, k: nat) -> Seq<bool> {
    Seq::new(k, |i: int| if i % 2 == 0 { !lit } else { lit })
}

/// `n` levels that alternate, starting with on.
pub open spec fn on_first(n: nat) -> Seq<bool> {
    Seq::new(n, |i: int| i % 2 == 0)
}

/// A result of a run of transitions with `k` more renderer calls counted.
pub open spec fn shifted(r: (IndicatorState, nat), k: nat) -> (IndicatorState, nat) {
    (r.0, r.1 + k)
}

/// A transition that makes no renderer call does not depend on the time a
/// call would have started.
pub proof fn lemma_step_time_free(p: Policy, s: IndicatorState, now: u128, t1: u128, t2: u128)
    requires
        spec_step(p, s, now, t1).1 == 0,
    ensures
        spec_step(p, s, now, t2) == spec_step(p, s, now, t1),
{
}

/// Unfolding one due transition of a run of transitions.
pub proof fn lemma_drive_step(p: Policy, s: IndicatorState, now: u128, t: u128, fut: Seq<u128>)
    requires
        state_wf(p, s),
        is_due(s, now),
        now < u128::MAX,
    ensures
        ({
            let (s1, u) = spec_step(p, s, now, t);
            spec_drive(p, s, now, step_times(u, t) + fut) == shifted(spec_drive(p, s1, now, fut), u)
        }),
{
    let (s1, u) = spec_step(p, s, now, t);
    lemma_step(p, s, now, t);
    let ts = step_times(u, t) + fut;
    if u == 0 {
        assert(ts =~= fut);
        lemma_step_time_free(p, s, now, t, next_time(ts, now));
    } else {
        assert(next_time(ts, now) == t);
        assert(rest_times(ts, 1) =~= fut);
    }
}

/// Starting the pulse of `started` new commands when none is under way,
/// renderer calls starting at the times `ts`: the pulse runs, and several
/// commands then retain one extra pulse, which runs too.
pub open spec fn spec_new_pulse(p: Policy, s: IndicatorState, started: u64, now: u128, ts: Seq<u128>) -> (
    IndicatorState,
    nat,
) {
    let (s3, k1) = spec_drive(p, spec_start_activity(p, s, now), now, ts);
    let s4 = if started > 1 {
        IndicatorState { pending_activity_pulse: true, ..s3 }
    } else {
        s3
    };
    let (s5, k2) = spec_drive(p, s4, now, ts.skip(k1 as int));
    (s5, k1 + k2)
}

/// Observing `started` new commands while enabled and without attention:
/// a pulse under way retains one extra pulse, otherwise a new pulse starts.
pub open spec fn spec_observe_started(
    p: Policy,
    s: IndicatorState,
    started: u64,
    now: u128,
    ts: Seq<u128>,
) -> (IndicatorState, nat) {
    if activity_in_progress(s) {
        spec_drive(p, IndicatorState { pending_activity_pulse: true, ..s }, now, ts)
    } else {
        spec_new_pulse(p, s, started, now, ts)
    }
}

/// The renderer-call start times of a transition with `u` calls at `t`.
pub open spec fn step_times(u: nat, t: u128) -> Seq<u128> {
    if u == 1 {
        seq![t]
    } else {
        Seq::empty()
    }
}

proof fn lemma_extend_run(
    p: Policy,
    s0: IndicatorState,
    s: IndicatorState,
    now: u128,
    t: u128,
    h0: Seq<(bool, u128)>,
    h: Seq<(bool, u128)>,
    h2: Seq<(bool, u128)>,
)
    requires
        state_wf(p, s),
        is_due(s, now),
        now < u128::MAX,
        h.len() >= h0.len(),
        h2 == if spec_step(p, s, now, t).1 == 1 {
            h.push((spec_step(p, s, now, t).0.lit, t))
        } else {
            h
        },
        forall|fut: Seq<u128>|
            #[trigger] spec_drive(p, s0, now, new_edge_times(h0, h) + fut) == shifted(
                spec_drive(p, s, now, fut),
                (h.len() - h0.len()) as nat,
            ),
    ensures
        forall|fut: Seq<u128>|
            #[trigger] spec_drive(p, s0, now, new_edge_times(h0, h2) + fut) == shifted(
                spec_drive(p, spec_step(p, s, now, t).0, now, fut),
                (h2.len() - h0.len()) as nat,
            ),
{
    let (s1, u) = spec_step(p, s, now, t);
    lemma_step(p, s, now, t);
    let e = new_edge_times(h0, h);
    assert(new_edge_times(h0, h2) =~= e + step_times(u, t));
    assert forall|fut: Seq<u128>| #[trigger] spec_drive(p, s0, now, new_edge_times(h0, h2) + fut)
        == shifted(spec_drive(p, s1, now, fut), (h2.len() - h0.len()) as nat) by {
        let ts = step_times(u, t) + fut;
        assert(new_edge_times(h0, h2) + fut =~= e + ts);
        lemma_drive_step(p, s, now, t, fut);
        assert(spec_drive(p, s0, now, e + ts) == shifted(spec_drive(p, s, now, ts), (h.len() - h0.len()) as nat));
    }
}

proof fn lemma_compose_runs(
    p: Policy,
    sa: IndicatorState,
    s3: IndicatorState,
    s4: IndicatorState,
    s5: IndicatorState,
    now: u128,
    h0: Seq<(bool, u128)>,
    h1: Seq<(bool, u128)>,
    h2: Seq<(bool, u128)>,
)
    requires
        h0.len() <= h1.len() <= h2.len(),
        forall|i: int| 0 <= i < h1.len() ==> #[trigger] h2[i] == h1[i],
        forall|fut: Seq<u128>|
            #[trigger] spec_drive(p, sa, now, new_edge_times(h0, h1) + fut) == (
                s3,
                (h1.len() - h0.len()) as nat,
            ),
        spec_drive(p, s4, now, new_edge_times(h1, h2)) == (s5, (h2.len() - h1.len()) as nat),
    ensures
        ({
            let ts = new_edge_times(h0, h2);
            let (s3x, k1) = spec_drive(p, sa, now, ts);
            &&& s3x == s3
            &&& k1 == h1.len() - h0.len()
            &&& spec_drive(p, s4, now, ts.skip(k1 as int)) == (s5, (h2.len() - h1.len()) as nat)
        }),
{
    let e1 = new_edge_times(h0, h1);
    let e2 = new_edge_times(h1, h2);
    let all = new_edge_times(h0, h2);
    assert(all =~= e1 + e2);
    assert(spec_drive(p, sa, now, e1 + e2) == (s3, (h1.len() - h0.len()) as nat));
    assert(all.skip(e1.len() as int) =~= e2);
}

/// The start times of the renderer calls recorded in `after` beyond `before`.
pub open spec fn new_edge_times(before: Seq<(bool, u128)>, after: Seq<(bool, u128)>) -> Seq<u128> {
    after.skip(before.len() as int).map_values(|e: (bool, u128)| e.1)
}

/// The history of successful renderer calls (level, start) agrees with the
/// state: levels alternate starting with on, and the last one is the
/// current level, started at the last edge.
pub open spec fn history_wf(h: Seq<(bool, u128)>, s: IndicatorState) -> bool {
    &&& (h.len() == 0 ==> !s.lit && s.last_edge is None)
    &&& (h.len() > 0 ==> h.last().0 == s.lit && s.last_edge == Some(h.last().1))
    &&& forall|i: int| 0 <= i < h.len() ==> #[trigger] h[i].0 == (i % 2 == 0)
}

/// The scheduler engine: the policy, the renderer, the clock origin, the
/// state, the history of successful renderer calls, and the levels the
/// renderer refused.
pub struct Engine<R: IndicatorRenderer> {
    policy: Policy,
    renderer: R,
    origin: Instant,
    state: IndicatorState,
    history: Ghost<Seq<(bool, u128)>>,
    refusals: Ghost<Seq<bool>>,
    before: Ghost<Seq<bool>>,
}

impl<R: IndicatorRenderer> Engine<R> {
    pub closed spec fn spec_policy(&self) -> Policy {
        self.policy
    }

    pub closed spec fn spec_state(&self) -> IndicatorState {
        self.state
    }

    /// The successful renderer calls so far: the level and the start time.
    pub closed spec fn history(&self) -> Seq<(bool, u128)> {
        self.history@
    }

    /// The levels the renderer has shown.
    pub closed spec fn shown(&self) -> Seq<bool> {
        self.renderer.shown()
    }

    /// The levels the renderer had shown before it joined this engine.
    pub closed spec fn shown_before(&self) -> Seq<bool> {
        self.before@
    }

    /// The renderer has shown, since it joined this engine, exactly the
    /// levels of the successful calls in the history.
    pub open spec fn shown_wf(&self) -> bool {
        self.shown() == self.shown_before() + on_first(self.history().len())
    }

    /// The levels whose renderer calls returned an error, in order.
    pub closed spec fn refusals(&self) -> Seq<bool> {
        self.refusals@
    }

    /// How the refusals went from `old` to `self`: when `failed`, the
    /// renderer refused exactly one more level, one that differs from the
    /// level still shown; otherwise it refused nothing.
    pub open spec fn refusal_step(&self, old: &Self, failed: bool) -> bool {
        if failed {
            &&& self.refusals().len() == old.refusals().len() + 1
            &&& self.refusals().drop_last() == old.refusals()
            &&& self.refusals().last() != self.spec_state().lit
        } else {
            self.refusals() == old.refusals()
        }
    }

    pub open spec fn inv(&self) -> bool {
        &&& state_wf(self.spec_policy(), self.spec_state())
        &&& history_wf(self.history(), self.spec_state())
        &&& self.shown_wf()
    }

    /// Whether the engine went from `old` to `self` keeping its policy and
    /// extending its history with calls that started no earlier than `now`;
    /// the renderer was sent exactly those calls' levels, each the opposite
    /// of the level before it.
    pub open spec fn continues(&self, old: &Self, now: u128) -> bool {
        &&& self.inv()
        &&& self.renders_since(old)
        &&& self.shown_before() == old.shown_before()
        &&& self.spec_policy() == old.spec_policy()
        &&& self.history().len() >= old.history().len()
        &&& forall|i: int| 0 <= i < old.history().len() ==> #[trigger] self.history()[i] == old.history()[i]
        &&& forall|i: int|
            old.history().len() <= i < self.history().len() ==> #[trigger] self.history()[i].1
                >= now
    }

    /// The start times of this engine's renderer calls since `old`.
    pub open spec fn edges_since(&self, old: &Self) -> Seq<u128> {
        new_edge_times(old.history(), self.history())
    }

    /// The renderer has shown, since `old`, one level per successful call,
    /// each flipping the level before it.
    pub open spec fn renders_since(&self, old: &Self) -> bool {
        self.shown() == old.shown() + toggles(old.spec_state().lit, self.calls_since(old))
    }

    /// When the transition `expected` (run without call times) renders
    /// nothing, the engine made no renderer call: it succeeded, kept its
    /// history and reached the transition's state.
    pub open spec fn quiet(&self, old: &Self, ok: bool, expected: (IndicatorState, nat)) -> bool {
        expected.1 == 0 ==> {
            &&& ok
            &&& self.history() == old.history()
            &&& self.spec_state() == expected.0
        }
    }

    /// The number of this engine's renderer calls since `old`.
    pub open spec fn calls_since(&self, old: &Self) -> nat {
        (self.history().len() - old.history().len()) as nat
    }

    /// A disabled engine with a valid policy; nothing is rendered.
    pub fn new(policy: Policy, renderer: R) -> (r: Self)
        requires
            policy_valid(policy),
        ensures
            r.inv(),
            r.spec_policy() == policy,
            r.spec_state() == initial_state(),
            r.history() == Seq::<(bool, u128)>::empty(),
            r.refusals() == Seq::<bool>::empty(),
            r.shown() == renderer.shown(),
    {
        let ghost shown = renderer.shown();
        let engine = Engine {
            policy,
            renderer,
            origin: instant_now(),
            state: IndicatorState {
                enabled: false,
                lit: false,
                command_active: false,
                seen_epoch: 0,
                pending_activity_edge: false,
                pending_activity_pulse: false,
                idle_blinks_remaining: Some(0),
                attention: None,
                mode: Mode::Rest,
                deadline: None,
                last_edge: None,
            },
            history: Ghost(Seq::empty()),
            refusals: Ghost(Seq::empty()),
            before: Ghost(shown),
        };
        proof {
            assert(engine.shown() =~= engine.shown_before() + on_first(0));
        }
        engine
    }

    /// The scheduler's state.
    pub fn state(&self) -> (r: IndicatorState)
        ensures
            r == self.spec_state(),
    {
        self.state
    }

    /// The policy.
    pub fn policy(&self) -> (r: Policy)
        ensures
            r == self.spec_policy(),
    {
        self.policy
    }

    /// The engine's clock: nanoseconds since the engine was created, read
    /// from the system clock and passed through `clock_reading`.
    pub fn now(&self) -> (r: u128)
        ensures
            r < u128::MAX,
    {
        clock_reading(duration_as_nanos(instant_elapsed(&self.origin)))
    }

    fn edge_ready(&self, now: u128) -> (r: u128)
        ensures
            r == edge_ready(self.policy, self.state, now),
    {
        match self.state.last_edge {
            Some(edge) => {
                let ready = edge.saturating_add(self.policy.minimum_edge);
                if ready >= now {
                    ready
                } else {
                    now
                }
            },
            None => now,
        }
    }

    fn edge_time(&self, now: u128) -> (r: u128)
        ensures
            r == edge_time(self.state, now),
    {
        match self.state.last_edge {
            Some(edge) => if edge >= now {
                edge
            } else {
                now
            },
            None => now,
        }
    }

    fn idle_cadence(&self) -> (r: Cadence)
        ensures
            r == idle_cadence(self.policy),
    {
        match self.policy.idle {
            IdlePolicy::Blink { cadence, .. } => cadence,
            IdlePolicy::Off => Cadence { on: 0, off: 0 },
        }
    }

    fn attention_cadence(&self) -> (r: Cadence)
        ensures
            r == attention_cadence(self.state),
    {
        match self.state.attention {
            Some(cadence) => cadence,
            None => Cadence { on: 0, off: 0 },
        }
    }

    fn due(&self, now: u128) -> (r: bool)
        ensures
            r == is_due(self.state, now),
    {
        match self.state.deadline {
            Some(deadline) => self.state.enabled && deadline <= now,
            None => false,
        }
    }

    /// Renders `lit` if it differs from the current level. Returns the
    /// start time used for the call (`now` when no call is made).
    fn set_lit(&mut self, lit: bool, now: u128) -> (r: Result<u128, std::io::Error>)
        requires
            history_wf(old(self).history(), old(self).spec_state()),
            old(self).shown_wf(),
        ensures
            final(self).spec_policy() == old(self).spec_policy(),
            final(self).shown_before() == old(self).shown_before(),
            final(self).shown_wf(),
            final(self).shown() == if r is Ok && old(self).spec_state().lit != lit {
                old(self).shown().push(lit)
            } else {
                old(self).shown()
            },
            r is Err ==> final(self).spec_state() == old(self).spec_state() && final(self).history() == old(self).history(),
            final(self).refusals() == if r is Err {
                old(self).refusals().push(lit)
            } else {
                old(self).refusals()
            },
            r is Err ==> old(self).spec_state().lit != lit,
            final(self).refusal_step(old(self), r is Err),
            r matches Ok(t) ==> {
                &&& t >= now
                &&& final(self).spec_state() == spec_set_lit(old(self).spec_state(), lit, t).0
                &&& final(self).history() == if old(self).spec_state().lit != lit {
                    old(self).history().push((lit, t))
                } else {
                    old(self).history()
                }
                &&& history_wf(final(self).history(), final(self).spec_state())
            },
    {
        if self.state.lit != lit {
            let reading = self.now();
            let edge_started = if reading >= now {
                reading
            } else {
                now
            };
            match self.renderer.set_indicator(lit) {
                Ok(()) => {},
                Err(error) => {
                    let ghost before = self.refusals@;
                    proof {
                        self.refusals@ = self.refusals@.push(lit);
                        assert(self.refusals@.drop_last() =~= before);
                    }
                    return Err(error);
                },
            }
            self.state.lit = lit;
            self.state.last_edge = Some(edge_started);
            let ghost old_history = self.history@;
            proof {
                let n = old_history.len();
                if n > 0 {
                    assert(old_history[n - 1].0 == ((n - 1) % 2 == 0));
                }
                assert(lit == (n % 2 == 0));
                assert(on_first(n + 1) =~= on_first(n).push(lit));
                assert(self.shown() =~= self.shown_before() + on_first(n + 1));
                self.history@ = self.history@.push((lit, edge_started));
                assert forall|i: int| 0 <= i < self.history@.len() implies #[trigger] self.history@[i].0
                    == (i % 2 == 0) by {
                    if i < n {
                        assert(self.history@[i] == old_history[i]);
                    }
                }
            }
            Ok(edge_started)
        } else {
            Ok(now)
        }
    }

    fn start_activity(&mut self, now: u128)
        ensures
            final(self).spec_state() == spec_start_activity(
                old(self).spec_policy(),
                old(self).spec_state(),
                now,
            ),
            final(self).spec_policy() == old(self).spec_policy(),
            final(self).history() == old(self).history(),
            final(self).refusals() == old(self).refusals(),
            final(self).shown() == old(self).shown(),
            final(self).shown_before() == old(self).shown_before(),
    {
        let ready = self.edge_ready(now);
        if self.state.lit {
            self.state.mode = Mode::ActivitySeparator;
        } else {
            self.state.pending_activity_edge = true;
            self.state.mode = Mode::Rest;
        }
        self.state.deadline = Some(ready);
    }

    fn start_pending_pulse(&mut self, now: u128)
        ensures
            final(self).spec_state() == crate::schedule::spec_start_pending_pulse(
                old(self).spec_policy(),
                old(self).spec_state(),
                now,
            ),
            final(self).spec_policy() == old(self).spec_policy(),
            final(self).history() == old(self).history(),
            final(self).refusals() == old(self).refusals(),
            final(self).shown() == old(self).shown(),
            final(self).shown_before() == old(self).shown_before(),
    {
        self.state.pending_activity_pulse = false;
        self.start_activity(now);
    }

    fn start_idle(&mut self, now: u128)
        ensures
            final(self).spec_state() == spec_start_idle(
                old(self).spec_policy(),
                old(self).spec_state(),
                now,
            ),
            final(self).spec_policy() == old(self).spec_policy(),
            final(self).history() == old(self).history(),
            final(self).refusals() == old(self).refusals(),
            final(self).shown() == old(self).shown(),
            final(self).shown_before() == old(self).shown_before(),
    {
        if self.state.lit {
            let ready = self.edge_ready(now);
            self.state.mode = Mode::SettleOff;
            self.state.deadline = Some(ready);
            return ;
        }
        if self.state.pending_activity_pulse {
            self.start_pending_pulse(now);
            return ;
        }
        match self.policy.idle {
            IdlePolicy::Off => {
                self.state.mode = Mode::Rest;
                self.state.deadline = None;
            },
            IdlePolicy::Blink { cadence: _, count: BlinkCount::Finite(count) } => {
                let ready = self.edge_ready(now);
                self.state.idle_blinks_remaining = Some(count);
                self.state.mode = Mode::IdleOff;
                self.state.deadline = Some(ready);
            },
            IdlePolicy::Blink { cadence, count: BlinkCount::Forever } => {
                let start = self.edge_time(now);
                self.state.idle_blinks_remaining = None;
                self.state.mode = Mode::IdleOff;
                self.state.deadline = Some(start.saturating_add(cadence.off));
            },
        }
    }

    fn start_initial_idle(&mut self, now: u128)
        ensures
            final(self).spec_state() == spec_start_initial_idle(
                old(self).spec_policy(),
                old(self).spec_state(),
                now,
            ),
            final(self).spec_policy() == old(self).spec_policy(),
            final(self).history() == old(self).history(),
            final(self).refusals() == old(self).refusals(),
            final(self).shown() == old(self).shown(),
            final(self).shown_before() == old(self).shown_before(),
    {
        match self.policy.idle {
            IdlePolicy::Blink { cadence, count: BlinkCount::Forever } => {
                self.state.idle_blinks_remaining = None;
                self.state.mode = Mode::IdleOff;
                self.state.deadline = Some(now.saturating_add(cadence.off));
            },
            _ => {
                self.state.idle_blinks_remaining = Some(0);
                self.state.mode = Mode::Rest;
                self.state.deadline = None;
            },
        }
    }

    /// The level shown after the history's calls: on after an odd number.
    proof fn lemma_lit_parity(&self)
        requires
            history_wf(self.history(), self.spec_state()),
        ensures
            self.spec_state().lit == (self.history().len() % 2 == 1),
    {
        let n = self.history().len();
        if n > 0 {
            assert(self.history()[n - 1].0 == ((n - 1) % 2 == 0));
        }
    }

    /// Between two well-formed engines with the same renderer origin, the
    /// renderer has shown one flipped level per call in between.
    proof fn lemma_renders(old: &Self, new: &Self)
        requires
            old.inv(),
            new.inv(),
            new.shown_before() == old.shown_before(),
            old.history().len() <= new.history().len(),
        ensures
            new.renders_since(old),
    {
        old.lemma_lit_parity();
        let n0 = old.history().len();
        let k = new.calls_since(old);
        let lit = old.spec_state().lit;
        assert forall|i: int| 0 <= i < k implies #[trigger] on_first(new.history().len())[n0 + i]
            == toggles(lit, k)[i] by {
            assert((n0 + i) % 2 == 0 <==> (n0 % 2 == 0) == (i % 2 == 0));
        }
        assert(on_first(new.history().len()) =~= on_first(n0) + toggles(lit, k));
        assert(new.shown() =~= old.shown() + toggles(lit, k));
    }

    /// Whether `new` results from `old` by the due transition at `now`,
    /// with its renderer call (if any) started at the returned time.
    pub open spec fn stepped(new: &Self, old: &Self, now: u128, r: Result<u128, std::io::Error>) -> bool {
        &&& new.spec_policy() == old.spec_policy()
        &&& history_wf(new.history(), new.spec_state())
        &&& new.shown_wf()
        &&& new.shown_before() == old.shown_before()
        &&& new.refusal_step(old, r is Err)
        &&& spec_step(old.spec_policy(), old.spec_state(), now, now).1 == 0 ==> r is Ok
        &&& r is Err ==> new.spec_state() == old.spec_state() && new.history() == old.history()
        &&& r matches Ok(t) ==> {
            let (s1, u) = spec_step(old.spec_policy(), old.spec_state(), now, t);
            &&& t >= now
            &&& new.spec_state() == s1
            &&& new.history() == if u == 1 {
                old.history().push((new.spec_state().lit, t))
            } else {
                old.history()
            }
        }
    }

    /// One due transition. Returns the start time of its renderer call
    /// (`now` when it makes none).
    fn step(&mut self, now: u128) -> (r: Result<u128, std::io::Error>)
        requires
            old(self).inv(),
            is_due(old(self).spec_state(), now),
            now < u128::MAX,
        ensures
            Self::stepped(final(self), old(self), now, r),
            final(self).inv(),
    {
        let ghost p = self.policy;
        let ghost s = self.state;
        let r = if self.state.pending_activity_edge && self.state.attention.is_none() {
            self.step_activity_edge(now)
        } else {
            match self.state.mode {
                Mode::ActivitySeparator => self.step_separator(now),
                Mode::Busy => self.step_busy(now),
                Mode::SettleOff => self.step_settle_off(now),
                Mode::IdleOff => self.step_idle_off(now),
                Mode::IdleOn => self.step_idle_on(now),
                Mode::AttentionWaitingOn => self.step_attention_waiting(now),
                Mode::Attention => self.step_attention(now),
                Mode::Rest => {
                    self.state.deadline = None;
                    Ok(now)
                },
            }
        };
        proof {
            if let Ok(t) = r {
                lemma_step(p, s, now, t);
            }
        }
        r
    }

    fn step_activity_edge(&mut self, now: u128) -> (r: Result<u128, std::io::Error>)
        requires
            old(self).inv(),
            old(self).spec_state().pending_activity_edge,
            old(self).spec_state().attention is None,
        ensures
            Self::stepped(final(self), old(self), now, r),
    {
        let t = self.set_lit(true, now)?;
        self.state.pending_activity_edge = false;
        if self.state.command_active {
            let start = self.edge_time(now);
            let delay = self.policy.busy.delay(self.state.lit);
            self.state.mode = Mode::Busy;
            self.state.deadline = Some(start.saturating_add(delay));
        } else {
            self.start_idle(now);
        }
        Ok(t)
    }

    fn step_separator(&mut self, now: u128) -> (r: Result<u128, std::io::Error>)
        requires
            old(self).inv(),
            !(old(self).spec_state().pending_activity_edge && old(self).spec_state().attention is None),
            old(self).spec_state().mode is ActivitySeparator,
        ensures
            Self::stepped(final(self), old(self), now, r),
    {
        let t = self.set_lit(false, now)?;
        let ready = self.edge_ready(now);
        self.state.pending_activity_edge = true;
        self.state.mode = Mode::Rest;
        self.state.deadline = Some(ready);
        Ok(t)
    }

    fn step_busy(&mut self, now: u128) -> (r: Result<u128, std::io::Error>)
        requires
            old(self).inv(),
            !(old(self).spec_state().pending_activity_edge && old(self).spec_state().attention is None),
            old(self).spec_state().mode is Busy,
        ensures
            Self::stepped(final(self), old(self), now, r),
    {
        if self.state.command_active {
            let t = self.set_lit(!self.state.lit, now)?;
            let start = self.edge_time(now);
            let delay = self.policy.busy.delay(self.state.lit);
            self.state.deadline = Some(start.saturating_add(delay));
            Ok(t)
        } else {
            self.start_idle(now);
            Ok(now)
        }
    }

    fn step_settle_off(&mut self, now: u128) -> (r: Result<u128, std::io::Error>)
        requires
            old(self).inv(),
            !(old(self).spec_state().pending_activity_edge && old(self).spec_state().attention is None),
            old(self).spec_state().mode is SettleOff,
        ensures
            Self::stepped(final(self), old(self), now, r),
    {
        let t = self.set_lit(false, now)?;
        if self.state.pending_activity_pulse {
            self.start_pending_pulse(now);
        } else {
            self.start_idle(now);
        }
        Ok(t)
    }

    fn step_idle_off(&mut self, now: u128) -> (r: Result<u128, std::io::Error>)
        requires
            old(self).inv(),
            !(old(self).spec_state().pending_activity_edge && old(self).spec_state().attention is None),
            old(self).spec_state().mode is IdleOff,
        ensures
            Self::stepped(final(self), old(self), now, r),
    {
        let t = self.set_lit(true, now)?;
        let start = self.edge_time(now);
        let on = self.idle_cadence().on;
        self.state.mode = Mode::IdleOn;
        self.state.deadline = Some(start.saturating_add(on));
        Ok(t)
    }

    fn step_idle_on(&mut self, now: u128) -> (r: Result<u128, std::io::Error>)
        requires
            old(self).inv(),
            !(old(self).spec_state().pending_activity_edge && old(self).spec_state().attention is None),
            old(self).spec_state().mode is IdleOn,
        ensures
            Self::stepped(final(self), old(self), now, r),
    {
        let t = self.set_lit(false, now)?;
        let start = self.edge_time(now);
        let off = self.idle_cadence().off;
        match self.state.idle_blinks_remaining {
            None => {
                self.state.mode = Mode::IdleOff;
                self.state.deadline = Some(start.saturating_add(off));
            },
            Some(remaining) => {
                if remaining > 1 {
                    self.state.idle_blinks_remaining = Some(remaining - 1);
                    self.state.mode = Mode::IdleOff;
                    self.state.deadline = Some(start.saturating_add(off));
                } else {
                    self.state.idle_blinks_remaining = Some(0);
                    self.state.mode = Mode::Rest;
                    self.state.deadline = None;
                }
            },
        }
        Ok(t)
    }

    fn step_attention_waiting(&mut self, now: u128) -> (r: Result<u128, std::io::Error>)
        requires
            old(self).inv(),
            !(old(self).spec_state().pending_activity_edge && old(self).spec_state().attention is None),
            old(self).spec_state().mode is AttentionWaitingOn,
        ensures
            Self::stepped(final(self), old(self), now, r),
    {
        let cadence = self.attention_cadence();
        let t = self.set_lit(true, now)?;
        let start = self.edge_time(now);
        self.state.mode = Mode::Attention;
        self.state.deadline = Some(start.saturating_add(cadence.on));
        Ok(t)
    }

    fn step_attention(&mut self, now: u128) -> (r: Result<u128, std::io::Error>)
        requires
            old(self).inv(),
            !(old(self).spec_state().pending_activity_edge && old(self).spec_state().attention is None),
            old(self).spec_state().mode is Attention,
        ensures
            Self::stepped(final(self), old(self), now, r),
    {
        let cadence = self.attention_cadence();
        let t = self.set_lit(!self.state.lit, now)?;
        let start = self.edge_time(now);
        let delay = cadence.delay(self.state.lit);
        self.state.deadline = Some(start.saturating_add(delay));
        Ok(t)
    }

    /// Runs every transition due at `now`.
    fn drive_due(&mut self, now: u128) -> (r: Result<(), std::io::Error>)
        requires
            old(self).inv(),
            now < u128::MAX,
        ensures
            final(self).continues(old(self), now),
            final(self).refusal_step(old(self), r is Err),
            r is Ok ==> !is_due(final(self).spec_state(), now),
            r is Err ==> is_due(final(self).spec_state(), now),
            final(self).spec_state().enabled == old(self).spec_state().enabled,
            final(self).spec_state().command_active == old(self).spec_state().command_active,
            final(self).spec_state().seen_epoch == old(self).spec_state().seen_epoch,
            final(self).spec_state().attention == old(self).spec_state().attention,
            !old(self).spec_state().pending_activity_pulse
                ==> !final(self).spec_state().pending_activity_pulse,
            r is Ok ==> spec_drive(
                old(self).spec_policy(),
                old(self).spec_state(),
                now,
                final(self).edges_since(old(self)),
            ) == (final(self).spec_state(), final(self).calls_since(old(self))),
            r is Ok ==> forall|fut: Seq<u128>|
                #[trigger] spec_drive(
                    old(self).spec_policy(),
                    old(self).spec_state(),
                    now,
                    final(self).edges_since(old(self)) + fut,
                ) == (final(self).spec_state(), final(self).calls_since(old(self))),
            spec_drive(old(self).spec_policy(), old(self).spec_state(), now, Seq::<u128>::empty()).1
                == 0 ==> {
                &&& r is Ok
                &&& final(self).history() == old(self).history()
                &&& final(self).spec_state() == spec_drive(
                    old(self).spec_policy(),
                    old(self).spec_state(),
                    now,
                    Seq::<u128>::empty(),
                ).0
            },
    {
        let ghost e0 = *self;
        let ghost p = self.policy;
        let ghost s0 = self.state;
        let ghost h0 = self.history@;
        let ghost r0 = self.refusals@;
        let ghost quiet = spec_drive(p, s0, now, Seq::<u128>::empty());
        proof {
            assert forall|fut: Seq<u128>| #[trigger] spec_drive(p, s0, now, new_edge_times(h0, self.history@) + fut)
                == shifted(spec_drive(p, self.state, now, fut), 0) by {
                assert(new_edge_times(h0, self.history@) + fut =~= fut);
            }
        }
        while self.due(now)
            invariant
                self.inv(),
                self.policy == p,
                p == old(self).policy,
                s0 == old(self).state,
                h0 == old(self).history@,
                r0 == old(self).refusals@,
                self.refusals@ == r0,
                self.before@ == old(self).before@,
                e0 == *old(self),
                e0.inv(),
                quiet == spec_drive(p, s0, now, Seq::<u128>::empty()),
                quiet.1 == 0 ==> self.history@ == h0 && spec_drive(
                    p,
                    self.state,
                    now,
                    Seq::<u128>::empty(),
                ) == quiet,
                self.state.enabled == s0.enabled,
                self.state.command_active == s0.command_active,
                self.state.seen_epoch == s0.seen_epoch,
                self.state.attention == s0.attention,
                !s0.pending_activity_pulse ==> !self.state.pending_activity_pulse,
                now < u128::MAX,
                self.history@.len() >= h0.len(),
                forall|i: int| 0 <= i < h0.len() ==> #[trigger] self.history@[i] == h0[i],
                forall|i: int| h0.len() <= i < self.history@.len() ==> #[trigger] self.history@[i].1 >= now,
                forall|fut: Seq<u128>|
                    #[trigger] spec_drive(p, s0, now, new_edge_times(h0, self.history@) + fut)
                        == shifted(
                        spec_drive(p, self.state, now, fut),
                        (self.history@.len() - h0.len()) as nat,
                    ),
            decreases drive_measure(self.state, now),
        {
            let ghost s = self.state;
            let ghost h = self.history@;
            proof {
                lemma_step(p, s, now, now);
            }
            let t = match self.step(now) {
                Ok(t) => t,
                Err(e) => {
                    proof {
                        assert(self.state == s);
                        assert(self.history@ == h);
                        Self::lemma_renders(&e0, self);
                    }
                    return Err(e);
                },
            };
            proof {
                let (s1, u) = spec_step(p, s, now, t);
                lemma_step(p, s, now, t);
                lemma_extend_run(p, s0, s, now, t, h0, h, self.history@);
                if quiet.1 == 0 {
                    lemma_step_time_free(p, s, now, now, t);
                }
            }
        }
        proof {
            Self::lemma_renders(&e0, self);
            assert forall|fut: Seq<u128>| #[trigger] spec_drive(p, self.state, now, fut) == (self.state, 0nat) by {}
            assert(new_edge_times(h0, self.history@) + Seq::<u128>::empty() =~= new_edge_times(h0, self.history@));
        }
        Ok(())
    }

    /// Enables or disables scheduling at `now`: every request and schedule
    /// is dropped and the indicator rendered off; enabling then starts the
    /// initial idle. The containing display's power is not touched.
    pub fn set_enabled(&mut self, enabled: bool, now: u128) -> (r: Result<(), std::io::Error>)
        requires
            old(self).inv(),
        ensures
            final(self).continues(old(self), now),
            final(self).refusal_step(old(self), r is Err),
            r is Ok ==> (final(self).spec_state(), final(self).calls_since(old(self))) == spec_set_enabled(
                old(self).spec_policy(),
                old(self).spec_state(),
                enabled,
                now,
                next_time(final(self).edges_since(old(self)), now),
            ),
            r is Ok ==> !final(self).spec_state().lit,
            final(self).spec_state().enabled == enabled,
            !final(self).spec_state().pending_activity_edge,
            !final(self).spec_state().pending_activity_pulse,
            final(self).spec_state().attention is None,
            r is Err ==> {
                &&& final(self).spec_state().mode is Rest
                &&& final(self).spec_state().deadline is None
                &&& final(self).spec_state().idle_blinks_remaining == Some(0u32)
            },
            final(self).quiet(
                old(self),
                r is Ok,
                spec_set_enabled(old(self).spec_policy(), old(self).spec_state(), enabled, now, now),
            ),
            r is Ok && !enabled ==> final(self).spec_state().mode is Rest && final(self).spec_state().deadline is None,
            r is Ok && enabled ==> match old(self).spec_policy().idle {
                IdlePolicy::Blink { cadence, count: BlinkCount::Forever } => final(self).spec_state().mode is IdleOff && final(self).spec_state().deadline == Some(
                    sat_add(now, cadence.off),
                ),
                _ => final(self).spec_state().mode is Rest && final(self).spec_state().deadline is None,
            },
    {
        let ghost e0 = *self;
        let ghost h0 = self.history@;
        self.state.enabled = enabled;
        self.state.pending_activity_edge = false;
        self.state.pending_activity_pulse = false;
        self.state.idle_blinks_remaining = Some(0);
        self.state.attention = None;
        self.state.mode = Mode::Rest;
        self.state.deadline = None;
        let t = match self.set_lit(false, now) {
            Ok(t) => t,
            Err(e) => {
                proof {
                    Self::lemma_renders(&e0, self);
                }
                return Err(e);
            },
        };
        if enabled {
            self.start_initial_idle(now);
        }
        proof {
            Self::lemma_renders(&e0, self);
            if self.history@.len() > h0.len() {
                assert(new_edge_times(h0, self.history@) =~= seq![t]);
            }
        }
        Ok(())
    }

    /// Observes the worker's command flag and command epoch at `now`.
    pub fn observe_activity(&mut self, active: bool, epoch: u64, now: u128) -> (r: Result<
        (),
        std::io::Error,
    >)
        requires
            old(self).inv(),
            now < u128::MAX,
        ensures
            final(self).continues(old(self), now),
            final(self).refusal_step(old(self), r is Err),
            r is Ok ==> (final(self).spec_state(), final(self).calls_since(old(self))) == spec_observe(
                old(self).spec_policy(),
                old(self).spec_state(),
                active,
                epoch,
                now,
                final(self).edges_since(old(self)),
            ),
            final(self).spec_state().seen_epoch == epoch,
            final(self).spec_state().command_active == active,
            final(self).quiet(
                old(self),
                r is Ok,
                spec_observe(
                    old(self).spec_policy(),
                    old(self).spec_state(),
                    active,
                    epoch,
                    now,
                    Seq::<u128>::empty(),
                ),
            ),
    {
        let ghost h0 = self.history@;
        let was_active = self.state.command_active;
        self.state.command_active = active;
        let started = epoch.wrapping_sub(self.state.seen_epoch);
        self.state.seen_epoch = epoch;
        if !self.state.enabled || self.state.attention.is_some() {
            proof {
                assert(new_edge_times(h0, self.history@) =~= Seq::<u128>::empty());
            }
            return Ok(());
        }
        if started != 0 {
            return self.observe_started(started, now);
        }
        if active {
            if self.state.mode != Mode::Busy {
                let delay = self.policy.busy.delay(self.state.lit);
                self.state.mode = Mode::Busy;
                self.state.deadline = Some(now.saturating_add(delay));
            }
            proof {
                assert(new_edge_times(h0, self.history@) =~= Seq::<u128>::empty());
            }
            return Ok(());
        }
        if was_active && !self.state.pending_activity_edge && self.state.mode
            != Mode::ActivitySeparator {
            proof {
                lemma_start_idle_wf(self.policy, self.state, now);
            }
            self.start_idle(now);
            return self.drive_due(now);
        }
        proof {
            assert(new_edge_times(h0, self.history@) =~= Seq::<u128>::empty());
        }
        Ok(())
    }

    /// Handles `started` new commands while enabled and not in attention.
    fn observe_started(&mut self, started: u64, now: u128) -> (r: Result<(), std::io::Error>)
        requires
            old(self).inv(),
            now < u128::MAX,
            started != 0,
            old(self).spec_state().enabled,
            old(self).spec_state().attention is None,
        ensures
            final(self).continues(old(self), now),
            final(self).refusal_step(old(self), r is Err),
            final(self).spec_state().command_active == old(self).spec_state().command_active,
            final(self).spec_state().seen_epoch == old(self).spec_state().seen_epoch,
            r is Ok ==> (final(self).spec_state(), final(self).calls_since(old(self)))
                == spec_observe_started(
                old(self).spec_policy(),
                old(self).spec_state(),
                started,
                now,
                final(self).edges_since(old(self)),
            ),
            final(self).quiet(
                old(self),
                r is Ok,
                spec_observe_started(
                    old(self).spec_policy(),
                    old(self).spec_state(),
                    started,
                    now,
                    Seq::<u128>::empty(),
                ),
            ),
    {
        let in_progress = self.state.pending_activity_edge || matches!(
            self.state.mode,
            Mode::ActivitySeparator | Mode::Busy | Mode::SettleOff
        );
        if in_progress {
            self.state.pending_activity_pulse = true;
            self.drive_due(now)
        } else {
            self.start_new_pulse(started, now)
        }
    }

    /// Starts the pulse of `started` new commands when no pulse is under
    /// way; several commands retain one extra pulse.
    #[verifier::rlimit(40)]
    fn start_new_pulse(&mut self, started: u64, now: u128) -> (r: Result<(), std::io::Error>)
        requires
            old(self).inv(),
            now < u128::MAX,
            old(self).spec_state().enabled,
            old(self).spec_state().attention is None,
        ensures
            final(self).continues(old(self), now),
            final(self).refusal_step(old(self), r is Err),
            final(self).spec_state().command_active == old(self).spec_state().command_active,
            final(self).spec_state().seen_epoch == old(self).spec_state().seen_epoch,
            r is Ok ==> (final(self).spec_state(), final(self).calls_since(old(self))) == spec_new_pulse(
                old(self).spec_policy(),
                old(self).spec_state(),
                started,
                now,
                final(self).edges_since(old(self)),
            ),
            final(self).quiet(
                old(self),
                r is Ok,
                spec_new_pulse(
                    old(self).spec_policy(),
                    old(self).spec_state(),
                    started,
                    now,
                    Seq::<u128>::empty(),
                ),
            ),
    {
        let ghost e0 = *self;
        let ghost p = self.policy;
        let ghost h0 = self.history@;
        proof {
            lemma_start_activity_wf(p, self.state, now);
        }
        self.start_activity(now);
        let ghost sa = self.state;
        match self.drive_due(now) {
            Ok(()) => {},
            Err(e) => {
                proof {
                    Self::lemma_renders(&e0, self);
                }
                return Err(e);
            },
        }
        let ghost s3 = self.state;
        let ghost h1 = self.history@;
        if started > 1 {
            self.state.pending_activity_pulse = true;
        }
        let ghost s4 = self.state;
        proof {
            assert(Seq::<u128>::empty().skip(0) =~= Seq::<u128>::empty());
        }
        let r = self.drive_due(now);
        proof {
            Self::lemma_renders(&e0, self);
            if r is Ok {
                lemma_compose_runs(p, sa, s3, s4, self.state, now, h0, h1, self.history@);
            }
        }
        r
    }

    /// Lets an attention cadence override command and idle scheduling.
    pub fn attention_started(&mut self, cadence: Cadence, now: u128) -> (r: Result<(), std::io::Error>)
        requires
            old(self).inv(),
            cadence_valid(cadence),
            now < u128::MAX,
        ensures
            final(self).continues(old(self), now),
            final(self).refusal_step(old(self), r is Err),
            final(self).spec_state().attention == Some(cadence),
            !final(self).spec_state().pending_activity_edge,
            !final(self).spec_state().pending_activity_pulse,
            r is Ok ==> (final(self).spec_state(), final(self).calls_since(old(self)))
                == spec_attention_started(
                old(self).spec_policy(),
                old(self).spec_state(),
                cadence,
                now,
                final(self).edges_since(old(self)),
            ),
            final(self).quiet(
                old(self),
                r is Ok,
                spec_attention_started(
                    old(self).spec_policy(),
                    old(self).spec_state(),
                    cadence,
                    now,
                    Seq::<u128>::empty(),
                ),
            ),
    {
        let ghost p = self.policy;
        let ghost h0 = self.history@;
        self.state.attention = Some(cadence);
        self.state.pending_activity_edge = false;
        self.state.pending_activity_pulse = false;
        if !self.state.enabled {
            proof {
                assert(new_edge_times(h0, self.history@) =~= Seq::<u128>::empty());
            }
            return Ok(());
        }
        if self.state.lit {
            self.state.mode = Mode::Attention;
            self.state.deadline = Some(now.saturating_add(cadence.on));
            proof {
                assert(new_edge_times(h0, self.history@) =~= Seq::<u128>::empty());
            }
            return Ok(());
        }
        let ready = self.edge_ready(now);
        self.state.mode = Mode::AttentionWaitingOn;
        self.state.deadline = Some(ready);
        let ghost sw = self.state;
        let r = self.drive_due(now);
        proof {
            if r is Ok {
                assert(new_edge_times(h0, self.history@) + Seq::<u128>::empty() =~= new_edge_times(
                    h0,
                    self.history@,
                ));
                assert(spec_drive(p, sw, now, new_edge_times(h0, self.history@) + Seq::<u128>::empty())
                    == (self.state, (self.history@.len() - h0.len()) as nat));
            }
        }
        r
    }

    /// Ends the attention cadence: a running command resumes the busy
    /// cadence, otherwise activity is left as after a command.
    pub fn attention_ended(&mut self, now: u128) -> (r: Result<(), std::io::Error>)
        requires
            old(self).inv(),
            now < u128::MAX,
        ensures
            final(self).continues(old(self), now),
            final(self).refusal_step(old(self), r is Err),
            final(self).spec_state().attention is None,
            r is Ok ==> (final(self).spec_state(), final(self).calls_since(old(self)))
                == spec_attention_ended(
                old(self).spec_policy(),
                old(self).spec_state(),
                now,
                final(self).edges_since(old(self)),
            ),
            final(self).quiet(
                old(self),
                r is Ok,
                spec_attention_ended(
                    old(self).spec_policy(),
                    old(self).spec_state(),
                    now,
                    Seq::<u128>::empty(),
                ),
            ),
    {
        let ghost p = self.policy;
        let ghost h0 = self.history@;
        self.state.attention = None;
        if !self.state.enabled {
            proof {
                assert(new_edge_times(h0, self.history@) =~= Seq::<u128>::empty());
            }
            return Ok(());
        }
        if self.state.command_active {
            let delay = self.policy.busy.delay(self.state.lit);
            self.state.mode = Mode::Busy;
            self.state.deadline = Some(now.saturating_add(delay));
            proof {
                assert(new_edge_times(h0, self.history@) =~= Seq::<u128>::empty());
            }
            return Ok(());
        }
        proof {
            lemma_start_idle_wf(p, self.state, now);
        }
        self.start_idle(now);
        let ghost si = self.state;
        let r = self.drive_due(now);
        proof {
            if r is Ok {
                assert(new_edge_times(h0, self.history@) + Seq::<u128>::empty() =~= new_edge_times(
                    h0,
                    self.history@,
                ));
                assert(spec_drive(p, si, now, new_edge_times(h0, self.history@) + Seq::<u128>::empty())
                    == (self.state, (self.history@.len() - h0.len()) as nat));
            }
        }
        r
    }

    /// Runs the transitions due at `now`.
    pub fn timeout(&mut self, now: u128) -> (r: Result<(), std::io::Error>)
        requires
            old(self).inv(),
            now < u128::MAX,
        ensures
            final(self).continues(old(self), now),
            final(self).refusal_step(old(self), r is Err),
            r is Ok ==> (final(self).spec_state(), final(self).calls_since(old(self))) == spec_drive(
                old(self).spec_policy(),
                old(self).spec_state(),
                now,
                final(self).edges_since(old(self)),
            ),
            r is Ok <==> !is_due(final(self).spec_state(), now),
            final(self).quiet(
                old(self),
                r is Ok,
                spec_drive(old(self).spec_policy(), old(self).spec_state(), now, Seq::<u128>::empty()),
            ),
    {
        let ghost h0 = self.history@;
        let r = self.drive_due(now);
        proof {
            if r is Ok {
                assert(new_edge_times(h0, self.history@) + Seq::<u128>::empty() =~= new_edge_times(
                    h0,
                    self.history@,
                ));
            }
        }
        r
    }
}

} // verus!
