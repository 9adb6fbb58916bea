//! The indicator scheduler's state and its transitions, as spec functions.
use vstd::prelude::*;
use crate::indicator::{BlinkCount, Cadence, IdlePolicy, Policy, cadence_valid, policy_valid};

verus! {

/// What the scheduler is doing.
#[derive(Clone, Copy, Debug, PartialEq, Eq, Structural)]
pub enum Mode {
    /// Nothing scheduled (or only a pending activity edge).
    Rest,
    /// The indicator is on from earlier blinking; an off edge separates it
    /// from the activity's on edge.
    ActivitySeparator,
    /// A command is running: the busy cadence toggles the indicator.
    Busy,
    /// Activity finished while on: the indicator turns off next.
    SettleOff,
    /// Idle blinking, currently off.
    IdleOff,
    /// Idle blinking, currently on.
    IdleOn,
    /// Attention requested while off: the indicator turns on next.
    AttentionWaitingOn,
    /// Attention cadence running.
    Attention,
}

/// The scheduler's state. Instants are nanoseconds on the caller's clock.
#[derive(Clone, Copy, Debug, PartialEq, Eq, Structural)]
pub struct IndicatorState {
    pub enabled: bool,
    /// The level last rendered successfully.
    pub lit: bool,
    pub command_active: bool,
    /// The command epoch last observed.
    pub seen_epoch: u64,
    /// An activity on edge waits for its deadline.
    pub pending_activity_edge: bool,
    /// One more activity pulse follows the current one.
    pub pending_activity_pulse: bool,
    /// Idle blinks left (`None`: forever).
    pub idle_blinks_remaining: Option<u32>,
    pub attention: Option<Cadence>,
    pub mode: Mode,
    pub deadline: Option<u128>,
    /// When the last successful renderer call started.
    pub last_edge: Option<u128>,
}

/// `a + b`, or `u128::MAX` when that overflows.
pub open spec fn sat_add(a: u128, b: u128) -> u128 {
    if a + b > u128::MAX {
        u128::MAX
    } else {
        (a + b) as u128
    }
}

pub open spec fn max_time(a: u128, b: u128) -> u128 {
    if a >= b {
        a
    } else {
        b
    }
}

/// The earliest time for an activity edge: `minimum_edge` after the start
/// of the last edge, and not before `now`.
pub open spec fn edge_ready(p: Policy, s: IndicatorState, now: u128) -> u128 {
    match s.last_edge {
        Some(e) => max_time(sat_add(e, p.minimum_edge), now),
        None => now,
    }
}

/// The time a cadence interval is measured from: the start of the last
/// edge, and not before `now`.
pub open spec fn edge_time(s: IndicatorState, now: u128) -> u128 {
    match s.last_edge {
        Some(e) => max_time(e, now),
        None => now,
    }
}

/// The idle blink cadence (meaningful only for a blinking idle policy).
pub open spec fn idle_cadence(p: Policy) -> Cadence {
    match p.idle {
        IdlePolicy::Blink { cadence, .. } => cadence,
        IdlePolicy::Off => Cadence { on: 0, off: 0 },
    }
}

/// The state before any policy is enabled.
pub open spec fn initial_state() -> IndicatorState {
    IndicatorState {
        enabled: false,
        lit: false,
        command_active: false,
        seen_epoch: 0,
        pending_activity_edge: false,
        pending_activity_pulse: false,
        idle_blinks_remaining: Some(0),
        attention: None,
        mode: Mode::Rest,
        deadline: None,
        last_edge: None,
    }
}

/// Rendering `lit` with the renderer call starting at `t`: a level equal
/// to the current one renders nothing. Returns the state and the number of
/// renderer calls (0 or 1).
pub open spec fn spec_set_lit(s: IndicatorState, lit: bool, t: u128) -> (IndicatorState, nat) {
    if s.lit != lit {
        (IndicatorState { lit, last_edge: Some(t), ..s }, 1)
    } else {
        (s, 0)
    }
}

/// Starting an activity pulse: an on edge when off, a separating off edge
/// first when on; either waits until an edge is ready.
pub open spec fn spec_start_activity(p: Policy, s: IndicatorState, now: u128) -> IndicatorState {
    if s.lit {
        IndicatorState {
            mode: Mode::ActivitySeparator,
            deadline: Some(edge_ready(p, s, now)),
            ..s
        }
    } else {
        IndicatorState {
            pending_activity_edge: true,
            mode: Mode::Rest,
            deadline: Some(edge_ready(p, s, now)),
            ..s
        }
    }
}

/// Starting the retained pulse.
pub open spec fn spec_start_pending_pulse(p: Policy, s: IndicatorState, now: u128) -> IndicatorState {
    spec_start_activity(p, IndicatorState { pending_activity_pulse: false, ..s }, now)
}

/// Leaving activity: finish off, run a retained pulse, then idle per policy
/// (a finite blink count starts from off once an edge is ready; forever
/// blinking waits one off interval).
pub open spec fn spec_start_idle(p: Policy, s: IndicatorState, now: u128) -> IndicatorState {
    if s.lit {
        IndicatorState { mode: Mode::SettleOff, deadline: Some(edge_ready(p, s, now)), ..s }
    } else if s.pending_activity_pulse {
        spec_start_pending_pulse(p, s, now)
    } else {
        match p.idle {
            IdlePolicy::Off => IndicatorState { mode: Mode::Rest, deadline: None, ..s },
            IdlePolicy::Blink { cadence: _, count: BlinkCount::Finite(count) } => IndicatorState {
                idle_blinks_remaining: Some(count),
                mode: Mode::IdleOff,
                deadline: Some(edge_ready(p, s, now)),
                ..s
            },
            IdlePolicy::Blink { cadence, count: BlinkCount::Forever } => IndicatorState {
                idle_blinks_remaining: None,
                mode: Mode::IdleOff,
                deadline: Some(sat_add(edge_time(s, now), cadence.off)),
                ..s
            },
        }
    }
}

/// Idle right after enabling: forever blinking starts one off interval
/// from now; otherwise nothing is scheduled.
pub open spec fn spec_start_initial_idle(p: Policy, s: IndicatorState, now: u128) -> IndicatorState {
    match p.idle {
        IdlePolicy::Blink { cadence, count: BlinkCount::Forever } => IndicatorState {
            idle_blinks_remaining: None,
            mode: Mode::IdleOff,
            deadline: Some(sat_add(now, cadence.off)),
            ..s
        },
        _ => IndicatorState {
            idle_blinks_remaining: Some(0),
            mode: Mode::Rest,
            deadline: None,
            ..s
        },
    }
}

/// Whether the scheduler has a transition due at `now`.
pub open spec fn is_due(s: IndicatorState, now: u128) -> bool {
    s.enabled && (s.deadline matches Some(d) && d <= now)
}

/// The attention cadence (meaningful only while attention is requested).
pub open spec fn attention_cadence(s: IndicatorState) -> Cadence {
    match s.attention {
        Some(c) => c,
        None => Cadence { on: 0, off: 0 },
    }
}

/// One due transition at `now`, a renderer call (if any) starting at `t`.
/// Returns the state and the number of renderer calls (0 or 1).
pub open spec fn spec_step(p: Policy, s: IndicatorState, now: u128, t: u128) -> (IndicatorState, nat) {
    if s.pending_activity_edge && s.attention is None {
        let (s1, u) = spec_set_lit(s, true, t);
        let s2 = IndicatorState { pending_activity_edge: false, ..s1 };
        if s2.command_active {
            (
                IndicatorState {
                    mode: Mode::Busy,
                    deadline: Some(sat_add(edge_time(s2, now), p.busy.spec_delay(s2.lit))),
                    ..s2
                },
                u,
            )
        } else {
            (spec_start_idle(p, s2, now), u)
        }
    } else {
        match s.mode {
            Mode::ActivitySeparator => {
                let (s1, u) = spec_set_lit(s, false, t);
                (
                    IndicatorState {
                        pending_activity_edge: true,
                        mode: Mode::Rest,
                        deadline: Some(edge_ready(p, s1, now)),
                        ..s1
                    },
                    u,
                )
            },
            Mode::Busy => {
                if s.command_active {
                    let (s1, u) = spec_set_lit(s, !s.lit, t);
                    (
                        IndicatorState {
                            deadline: Some(sat_add(edge_time(s1, now), p.busy.spec_delay(s1.lit))),
                            ..s1
                        },
                        u,
                    )
                } else {
                    (spec_start_idle(p, s, now), 0)
                }
            },
            Mode::SettleOff => {
                let (s1, u) = spec_set_lit(s, false, t);
                if s1.pending_activity_pulse {
                    (spec_start_pending_pulse(p, s1, now), u)
                } else {
                    (spec_start_idle(p, s1, now), u)
                }
            },
            Mode::IdleOff => {
                let (s1, u) = spec_set_lit(s, true, t);
                (
                    IndicatorState {
                        mode: Mode::IdleOn,
                        deadline: Some(sat_add(edge_time(s1, now), idle_cadence(p).on)),
                        ..s1
                    },
                    u,
                )
            },
            Mode::IdleOn => {
                let (s1, u) = spec_set_lit(s, false, t);
                match s1.idle_blinks_remaining {
                    None => (
                        IndicatorState {
                            mode: Mode::IdleOff,
                            deadline: Some(sat_add(edge_time(s1, now), idle_cadence(p).off)),
                            ..s1
                        },
                        u,
                    ),
                    Some(remaining) => if remaining > 1 {
                        (
                            IndicatorState {
                                idle_blinks_remaining: Some((remaining - 1) as u32),
                                mode: Mode::IdleOff,
                                deadline: Some(sat_add(edge_time(s1, now), idle_cadence(p).off)),
                                ..s1
                            },
                            u,
                        )
                    } else {
                        (
                            IndicatorState {
                                idle_blinks_remaining: Some(0),
                                mode: Mode::Rest,
                                deadline: None,
                                ..s1
                            },
                            u,
                        )
                    },
                }
            },
            Mode::AttentionWaitingOn => {
                let (s1, u) = spec_set_lit(s, true, t);
                (
                    IndicatorState {
                        mode: Mode::Attention,
                        deadline: Some(sat_add(edge_time(s1, now), attention_cadence(s).on)),
                        ..s1
                    },
                    u,
                )
            },
            Mode::Attention => {
                let (s1, u) = spec_set_lit(s, !s.lit, t);
                (
                    IndicatorState {
                        deadline: Some(
                            sat_add(edge_time(s1, now), attention_cadence(s).spec_delay(s1.lit)),
                        ),
                        ..s1
                    },
                    u,
                )
            },
            Mode::Rest => (IndicatorState { deadline: None, ..s }, 0),
        }
    }
}

/// The well-formed states under a policy: the policy and any attention
/// cadence are valid, and the mode agrees with the level and the requests.
pub open spec fn state_wf(p: Policy, s: IndicatorState) -> bool {
    &&& policy_valid(p)
    &&& (s.attention matches Some(c) ==> cadence_valid(c))
    &&& (s.mode is IdleOff || s.mode is IdleOn) ==> p.idle is Blink
    &&& (s.mode is Attention || s.mode is AttentionWaitingOn) ==> s.attention is Some
    &&& (s.enabled && s.attention is Some) ==> (s.mode is Attention || s.mode is AttentionWaitingOn)
    &&& s.pending_activity_edge ==> s.attention is None && !s.lit
    &&& !s.enabled ==> s.mode is Rest && s.deadline is None && !s.pending_activity_edge
        && !s.pending_activity_pulse
    &&& s.mode is IdleOff ==> !s.lit
    &&& s.mode is IdleOn ==> s.lit
    &&& s.mode is SettleOff ==> s.lit
    &&& s.mode is ActivitySeparator ==> s.lit
    &&& s.mode is AttentionWaitingOn ==> !s.lit
}

/// The work left for a run of due transitions at `now`: each transition
/// either leaves nothing due or lowers it.
pub open spec fn drive_measure(s: IndicatorState, now: u128) -> int {
    if is_due(s, now) {
        let pulse = if s.pending_activity_pulse {
            10int
        } else {
            0int
        };
        let stage = if s.pending_activity_edge && s.attention is None {
            4int
        } else {
            match s.mode {
                Mode::ActivitySeparator => 5int,
                Mode::Busy => 3int,
                Mode::SettleOff => 2int,
                Mode::IdleOff => 1int,
                _ => 0int,
            }
        };
        pulse + stage + 1
    } else {
        0
    }
}

/// The renderer-call start time that a run of transitions uses next.
pub open spec fn next_time(ts: Seq<u128>, now: u128) -> u128 {
    if ts.len() > 0 {
        ts[0]
    } else {
        now
    }
}

/// The renderer-call start times left after `used` calls.
pub open spec fn rest_times(ts: Seq<u128>, used: nat) -> Seq<u128> {
    if used == 0 || ts.len() == 0 {
        ts
    } else {
        ts.drop_first()
    }
}

/// Runs every transition due at `now`, the renderer calls starting at the
/// times `ts` in order. Returns the state and the number of renderer calls.
pub open spec fn spec_drive(p: Policy, s: IndicatorState, now: u128, ts: Seq<u128>) -> (
    IndicatorState,
    nat,
)
    decreases drive_measure(s, now),
    when state_wf(p, s) && now < u128::MAX
    via drive_decreases
{
    if is_due(s, now) {
        let (s1, u) = spec_step(p, s, now, next_time(ts, now));
        let (s2, k) = spec_drive(p, s1, now, rest_times(ts, u));
        (s2, u + k)
    } else {
        (s, 0)
    }
}

#[via_fn]
proof fn drive_decreases(p: Policy, s: IndicatorState, now: u128, ts: Seq<u128>) {
    if is_due(s, now) {
        lemma_step(p, s, now, next_time(ts, now));
    }
}

proof fn lemma_edge_times(p: Policy, s: IndicatorState, now: u128)
    ensures
        edge_time(s, now) >= now,
        edge_ready(p, s, now) >= now,
{
}

/// A due transition keeps the state well formed, renders at most once,
/// keeps `enabled`, and lowers the remaining work.
pub proof fn lemma_step(p: Policy, s: IndicatorState, now: u128, t: u128)
    requires
        state_wf(p, s),
        is_due(s, now),
        now < u128::MAX,
    ensures
        ({
            let (s1, u) = spec_step(p, s, now, t);
            &&& state_wf(p, s1)
            &&& u <= 1
            &&& s1.enabled == s.enabled
            &&& s1.command_active == s.command_active
            &&& s1.seen_epoch == s.seen_epoch
            &&& s1.attention == s.attention
            &&& !s.pending_activity_pulse ==> !s1.pending_activity_pulse
            &&& s1.lit == (if u == 1 { !s.lit } else { s.lit })
            &&& drive_measure(s1, now) < drive_measure(s, now)
        }),
{
    let (s1, u) = spec_step(p, s, now, t);
    lemma_edge_times(p, s, now);
    let s_on = spec_set_lit(s, true, t).0;
    let s_off = spec_set_lit(s, false, t).0;
    let s_tog = spec_set_lit(s, !s.lit, t).0;
    lemma_edge_times(p, s_on, now);
    lemma_edge_times(p, s_off, now);
    lemma_edge_times(p, s_tog, now);
    let s_on2 = IndicatorState { pending_activity_edge: false, ..s_on };
    lemma_edge_times(p, s_on2, now);
    if !(s.pending_activity_edge && s.attention is None) {
        match s.mode {
            Mode::IdleOff | Mode::IdleOn => {
                assert(p.idle is Blink);
            },
            _ => {},
        }
    }
}

/// The level after `k` renderer calls, each of which flips it.
pub open spec fn flip(lit: bool, k: nat) -> bool {
    if k % 2 == 0 {
        lit
    } else {
        !lit
    }
}

/// A run of due transitions keeps the state well formed, keeps `enabled`,
/// and ends with nothing due.
pub proof fn lemma_drive(p: Policy, s: IndicatorState, now: u128, ts: Seq<u128>)
    requires
        state_wf(p, s),
        now < u128::MAX,
    ensures
        ({
            let (s2, k) = spec_drive(p, s, now, ts);
            &&& state_wf(p, s2)
            &&& !is_due(s2, now)
            &&& s2.enabled == s.enabled
            &&& s2.command_active == s.command_active
            &&& s2.seen_epoch == s.seen_epoch
            &&& s2.attention == s.attention
            &&& s2.lit == flip(s.lit, k)
            &&& k <= drive_measure(s, now)
        }),
    decreases drive_measure(s, now),
{
    if is_due(s, now) {
        let (s1, u) = spec_step(p, s, now, next_time(ts, now));
        lemma_step(p, s, now, next_time(ts, now));
        lemma_drive(p, s1, now, rest_times(ts, u));
    }
}


/// Enabling or disabling: every request and schedule is dropped and the
/// indicator rendered off (a renderer call starting at `t` if it was on);
/// enabling then starts the initial idle.
pub open spec fn spec_set_enabled(p: Policy, s: IndicatorState, enabled: bool, now: u128, t: u128) -> (
    IndicatorState,
    nat,
) {
    let s1 = IndicatorState {
        enabled,
        pending_activity_edge: false,
        pending_activity_pulse: false,
        idle_blinks_remaining: Some(0),
        attention: None,
        mode: Mode::Rest,
        deadline: None,
        ..s
    };
    let (s2, u) = spec_set_lit(s1, false, t);
    if enabled {
        (spec_start_initial_idle(p, s2, now), u)
    } else {
        (s2, u)
    }
}

/// The number of commands that started since the epoch last seen.
pub open spec fn commands_started(s: IndicatorState, epoch: u64) -> u64 {
    epoch.wrapping_sub(s.seen_epoch)
}

/// Whether an activity pulse is under way (scheduled, separating, busy or
/// settling off).
pub open spec fn activity_in_progress(s: IndicatorState) -> bool {
    s.pending_activity_edge || s.mode is ActivitySeparator || s.mode is Busy || s.mode is SettleOff
}

/// Observing the command flag and epoch at `now`, renderer calls starting
/// at the times `ts`. A new command starts a pulse, or retains one extra
/// pulse when a pulse is under way or several commands started; a running
/// command switches to the busy cadence; a finished command leaves activity.
pub open spec fn spec_observe(
    p: Policy,
    s: IndicatorState,
    active: bool,
    epoch: u64,
    now: u128,
    ts: Seq<u128>,
) -> (IndicatorState, nat) {
    let was_active = s.command_active;
    let started = commands_started(s, epoch);
    let s1 = IndicatorState { command_active: active, seen_epoch: epoch, ..s };
    if !s1.enabled || s1.attention is Some {
        (s1, 0)
    } else if started != 0 {
        if activity_in_progress(s1) {
            spec_drive(p, IndicatorState { pending_activity_pulse: true, ..s1 }, now, ts)
        } else {
            let (s3, k1) = spec_drive(p, spec_start_activity(p, s1, now), now, ts);
            let s4 = if started > 1 {
                IndicatorState { pending_activity_pulse: true, ..s3 }
            } else {
                s3
            };
            let (s5, k2) = spec_drive(p, s4, now, ts.skip(k1 as int));
            (s5, k1 + k2)
        }
    } else if active {
        if s1.mode != Mode::Busy {
            (
                IndicatorState {
                    mode: Mode::Busy,
                    deadline: Some(sat_add(now, p.busy.spec_delay(s1.lit))),
                    ..s1
                },
                0,
            )
        } else {
            (s1, 0)
        }
    } else if was_active && !s1.pending_activity_edge && s1.mode != Mode::ActivitySeparator {
        spec_drive(p, spec_start_idle(p, s1, now), now, ts)
    } else {
        (s1, 0)
    }
}

/// Starting attention: activity requests are dropped; while enabled the
/// attention cadence takes over, from the current level.
pub open spec fn spec_attention_started(
    p: Policy,
    s: IndicatorState,
    cadence: Cadence,
    now: u128,
    ts: Seq<u128>,
) -> (IndicatorState, nat) {
    let s1 = IndicatorState {
        attention: Some(cadence),
        pending_activity_edge: false,
        pending_activity_pulse: false,
        ..s
    };
    if !s1.enabled {
        (s1, 0)
    } else if s1.lit {
        (
            IndicatorState {
                mode: Mode::Attention,
                deadline: Some(sat_add(now, cadence.on)),
                ..s1
            },
            0,
        )
    } else {
        spec_drive(
            p,
            IndicatorState {
                mode: Mode::AttentionWaitingOn,
                deadline: Some(edge_ready(p, s1, now)),
                ..s1
            },
            now,
            ts,
        )
    }
}

/// Ending attention: a running command resumes the busy cadence; otherwise
/// activity is left as after a command.
pub open spec fn spec_attention_ended(p: Policy, s: IndicatorState, now: u128, ts: Seq<u128>) -> (
    IndicatorState,
    nat,
) {
    let s1 = IndicatorState { attention: None, ..s };
    if !s1.enabled {
        (s1, 0)
    } else if s1.command_active {
        (
            IndicatorState {
                mode: Mode::Busy,
                deadline: Some(sat_add(now, p.busy.spec_delay(s1.lit))),
                ..s1
            },
            0,
        )
    } else {
        spec_drive(p, spec_start_idle(p, s1, now), now, ts)
    }
}

/// Leaving activity while enabled and without attention leads to a
/// well-formed state.
pub proof fn lemma_start_idle_wf(p: Policy, s: IndicatorState, now: u128)
    requires
        policy_valid(p),
        s.enabled,
        s.attention is None,
        s.pending_activity_edge ==> !s.lit,
    ensures
        state_wf(p, spec_start_idle(p, s, now)),
{
}

/// Starting activity while enabled and without attention leads to a
/// well-formed state.
pub proof fn lemma_start_activity_wf(p: Policy, s: IndicatorState, now: u128)
    requires
        policy_valid(p),
        s.enabled,
        s.attention is None,
        s.pending_activity_edge ==> !s.lit,
    ensures
        state_wf(p, spec_start_activity(p, s, now)),
{
}

} // verus!
