//! The scheduler's promises stated over what the renderer is sent: each
//! law takes an engine before and after a call, related as the call's own
//! contract relates them on success.
use vstd::prelude::*;
use crate::engine::{Engine, IndicatorRenderer, toggles};
use crate::schedule::{
    commands_started, activity_in_progress, edge_ready, is_due, lemma_start_activity_wf,
    lemma_step, max_time, next_time, rest_times, sat_add, spec_drive, spec_observe,
    spec_start_activity, spec_step,
};
use crate::schedule_laws::{
    lemma_activity_establishes_on_phase, lemma_no_replay, lemma_separator_before_activity_on,
    lemma_short_and_sustained_commands, owes_on_phase,
};

verus! {

/// The start time of the first renderer call since `old` is not before
/// `now`, and there are as many start times as calls.
proof fn lemma_edges<R: IndicatorRenderer>(old: &Engine<R>, new: &Engine<R>, now: u128)
    requires
        new.continues(old, now),
    ensures
        new.edges_since(old).len() == new.calls_since(old),
        forall|i: int|
            0 <= i < new.edges_since(old).len() ==> #[trigger] new.edges_since(old)[i] >= now,
{
    let n0 = old.history().len() as int;
    assert forall|i: int| 0 <= i < new.edges_since(old).len() implies #[trigger] new.edges_since(
        old,
    )[i] >= now by {
        assert(new.edges_since(old)[i] == new.history()[n0 + i].1);
    }
}

/// No replay at the renderer: however late the transitions due at `now`
/// are run (as `timeout` runs them), the renderer is sent at most 16
/// levels, each the opposite of the one before.
pub proof fn lemma_renderer_no_replay<R: IndicatorRenderer>(
    old: &Engine<R>,
    new: &Engine<R>,
    now: u128,
)
    requires
        old.inv(),
        now < u128::MAX,
        new.continues(old, now),
        (new.spec_state(), new.calls_since(old)) == spec_drive(
            old.spec_policy(),
            old.spec_state(),
            now,
            new.edges_since(old),
        ),
    ensures
        new.shown() == old.shown() + toggles(old.spec_state().lit, new.calls_since(old)),
        new.calls_since(old) <= 16,
{
    lemma_no_replay(old.spec_policy(), old.spec_state(), now, new.edges_since(old));
}

/// Missed busy toggles are not replayed: when a running command's busy
/// cadence is due at `now`, however late, the due transitions send the
/// renderer exactly one level, the opposite of the one shown, and the next
/// toggle is scheduled one busy interval after that call, later than `now`.
pub proof fn lemma_busy_toggles_once<R: IndicatorRenderer>(
    old: &Engine<R>,
    new: &Engine<R>,
    now: u128,
)
    requires
        old.inv(),
        now < u128::MAX,
        new.continues(old, now),
        (new.spec_state(), new.calls_since(old)) == spec_drive(
            old.spec_policy(),
            old.spec_state(),
            now,
            new.edges_since(old),
        ),
        old.spec_state().mode is Busy,
        old.spec_state().command_active,
        !old.spec_state().pending_activity_edge,
        is_due(old.spec_state(), now),
    ensures
        new.shown() == old.shown().push(!old.spec_state().lit),
        new.spec_state().lit == !old.spec_state().lit,
        new.spec_state().last_edge matches Some(e) && new.spec_state().deadline == Some(
            sat_add(e, old.spec_policy().busy.spec_delay(new.spec_state().lit)),
        ),
        new.spec_state().deadline matches Some(d) && d > now,
{
    let p = old.spec_policy();
    let s = old.spec_state();
    let ts = new.edges_since(old);
    lemma_edges(old, new, now);
    let t = next_time(ts, now);
    let (s1, u) = spec_step(p, s, now, t);
    lemma_step(p, s, now, t);
    assert(t >= now);
    assert(u == 1);
    assert(!is_due(s1, now));
    assert(spec_drive(p, s1, now, rest_times(ts, u)) == (s1, 0nat));
    assert(toggles(s.lit, 1) =~= seq![!s.lit]);
    assert(old.shown() + seq![!s.lit] =~= old.shown().push(!s.lit));
}

/// A command from a quiet state shows one on level: from an enabled, unlit
/// state with nothing scheduled whose next edge is ready, observing one new
/// command sends the renderer exactly one level, on; a finished command
/// then settles off `minimum_edge` after that call, a running one toggles
/// after the busy on time. (With a zero minimum edge a finished command may
/// settle off within the same call, so that case is left out.)
pub proof fn lemma_command_shows_on<R: IndicatorRenderer>(
    old: &Engine<R>,
    new: &Engine<R>,
    active: bool,
    epoch: u64,
    now: u128,
)
    requires
        old.inv(),
        now < u128::MAX,
        new.continues(old, now),
        (new.spec_state(), new.calls_since(old)) == spec_observe(
            old.spec_policy(),
            old.spec_state(),
            active,
            epoch,
            now,
            new.edges_since(old),
        ),
        old.spec_state().enabled,
        old.spec_state().attention is None,
        !old.spec_state().lit,
        !old.spec_state().pending_activity_edge,
        !old.spec_state().pending_activity_pulse,
        old.spec_state().mode is Rest,
        edge_ready(old.spec_policy(), old.spec_state(), now) == now,
        commands_started(old.spec_state(), epoch) == 1,
        old.spec_policy().minimum_edge > 0,
    ensures
        new.shown() == old.shown().push(true),
        new.spec_state().lit,
        new.spec_state().last_edge matches Some(e) && {
            &&& active ==> new.spec_state().mode is Busy && new.spec_state().deadline == Some(
                sat_add(e, old.spec_policy().busy.on),
            )
            &&& !active ==> new.spec_state().mode is SettleOff && new.spec_state().deadline
                == Some(sat_add(e, old.spec_policy().minimum_edge))
        },
{
    let p = old.spec_policy();
    let s = old.spec_state();
    let ts = new.edges_since(old);
    lemma_edges(old, new, now);
    if ts.len() == 0 {
        // A run without call times still makes the on call.
        let s1 = crate::schedule::IndicatorState { command_active: active, seen_epoch: epoch, ..s };
        let sa = spec_start_activity(p, s1, now);
        lemma_start_activity_wf(p, s1, now);
        assert(is_due(sa, now));
        lemma_step(p, sa, now, now);
        assert(spec_step(p, sa, now, now).1 == 1);
        assert(spec_drive(p, sa, now, ts).1 >= 1);
        assert(false);
    }
    lemma_short_and_sustained_commands(p, s, active, epoch, now, ts);
    assert(toggles(false, 1) =~= seq![true]);
    assert(old.shown() + seq![true] =~= old.shown().push(true));
}

/// An off separator comes before the activity on level: a new command
/// observed while the indicator is on and no pulse is under way sends the
/// renderer at most one level, off; until it is sent the separator stays
/// scheduled, and once it is sent the on edge waits `minimum_edge` after
/// the off call started. (With a zero minimum edge the on level may follow
/// at once, so that case is left out.)
pub proof fn lemma_separator_shows_off<R: IndicatorRenderer>(
    old: &Engine<R>,
    new: &Engine<R>,
    active: bool,
    epoch: u64,
    now: u128,
)
    requires
        old.inv(),
        now < u128::MAX,
        new.continues(old, now),
        (new.spec_state(), new.calls_since(old)) == spec_observe(
            old.spec_policy(),
            old.spec_state(),
            active,
            epoch,
            now,
            new.edges_since(old),
        ),
        old.spec_state().enabled,
        old.spec_state().attention is None,
        old.spec_state().lit,
        !activity_in_progress(old.spec_state()),
        commands_started(old.spec_state(), epoch) != 0,
        old.spec_policy().minimum_edge > 0,
    ensures
        new.calls_since(old) == 0 ==> {
            &&& new.shown() == old.shown()
            &&& new.spec_state().mode is ActivitySeparator
            &&& new.spec_state().deadline == Some(
                edge_ready(old.spec_policy(), old.spec_state(), now),
            )
        },
        new.calls_since(old) == 1 ==> {
            &&& new.shown() == old.shown().push(false)
            &&& new.spec_state().pending_activity_edge
            &&& new.spec_state().last_edge matches Some(e) && new.spec_state().deadline == Some(
                max_time(sat_add(e, old.spec_policy().minimum_edge), now),
            )
        },
        new.calls_since(old) <= 1,
{
    let ts = new.edges_since(old);
    lemma_edges(old, new, now);
    lemma_separator_before_activity_on(old.spec_policy(), old.spec_state(), active, epoch, now, ts);
    assert(toggles(true, 0) =~= Seq::<bool>::empty());
    assert(old.shown() + Seq::<bool>::empty() =~= old.shown());
    assert(toggles(true, 1) =~= seq![false]);
    assert(old.shown() + seq![false] =~= old.shown().push(false));
}

/// Activity always shows an on phase: when a new command is observed while
/// scheduling is enabled and no attention cadence runs, the renderer is
/// sent an on level, or an on phase stays owed (an on edge pending, a
/// separating off edge scheduled, or an extra pulse retained).
pub proof fn lemma_activity_shows_on<R: IndicatorRenderer>(
    old: &Engine<R>,
    new: &Engine<R>,
    active: bool,
    epoch: u64,
    now: u128,
)
    requires
        old.inv(),
        now < u128::MAX,
        new.continues(old, now),
        (new.spec_state(), new.calls_since(old)) == spec_observe(
            old.spec_policy(),
            old.spec_state(),
            active,
            epoch,
            now,
            new.edges_since(old),
        ),
        old.spec_state().enabled,
        old.spec_state().attention is None,
        commands_started(old.spec_state(), epoch) != 0,
    ensures
        new.shown().skip(old.shown().len() as int).contains(true) || owes_on_phase(
            new.spec_state(),
        ),
{
    let s = old.spec_state();
    let k = new.calls_since(old);
    lemma_activity_establishes_on_phase(old.spec_policy(), s, active, epoch, now, new.edges_since(old));
    let sent = new.shown().skip(old.shown().len() as int);
    assert(sent =~= toggles(s.lit, k));
    if k >= 1 && !s.lit {
        assert(sent[0] == true);
    } else if k >= 2 {
        assert(sent[1] == s.lit);
        assert(sent[0] == !s.lit);
    }
}

} // verus!
