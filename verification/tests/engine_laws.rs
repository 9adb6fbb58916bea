use display_backends::{
    clock_reading, BlinkCount, Cadence, Engine, IdlePolicy, IndicatorRenderer, Mode, Policy,
};
use std::sync::{Arc, Mutex};

fn ms(value: u128) -> u128 {
    value * 1_000_000
}

#[derive(Clone, Default)]
struct Recorder(Arc<Mutex<Vec<bool>>>);

impl IndicatorRenderer for Recorder {
    fn set_indicator(&mut self, lit: bool) -> std::io::Result<()> {
        self.0.lock().unwrap().push(lit);
        Ok(())
    }
}

struct Failing;

impl IndicatorRenderer for Failing {
    fn set_indicator(&mut self, _lit: bool) -> std::io::Result<()> {
        Err(std::io::Error::from_raw_os_error(5))
    }
}

fn policy(idle: IdlePolicy) -> Policy {
    Policy::new(Cadence::new(ms(67), ms(33)), idle, ms(8))
}

#[test]
fn enabling_starts_off_and_only_forever_idle_blinks_at_once() {
    let mut engine = Engine::new(policy(IdlePolicy::Off), Recorder::default());
    engine.set_enabled(true, 1_000).unwrap();
    assert!(!engine.state().lit);
    assert_eq!(engine.state().mode, Mode::Rest);
    assert_eq!(engine.state().deadline, None);

    let forever = IdlePolicy::Blink {
        cadence: Cadence::new(ms(10), ms(20)),
        count: BlinkCount::Forever,
    };
    let mut engine = Engine::new(policy(forever), Recorder::default());
    engine.set_enabled(true, 1_000).unwrap();
    assert_eq!(engine.state().mode, Mode::IdleOff);
    assert_eq!(engine.state().deadline, Some(1_000 + ms(20)));

    let finite = IdlePolicy::Blink {
        cadence: Cadence::new(ms(10), ms(20)),
        count: BlinkCount::Finite(3),
    };
    let mut engine = Engine::new(policy(finite), Recorder::default());
    engine.set_enabled(true, 1_000).unwrap();
    assert_eq!(engine.state().mode, Mode::Rest);
}

#[test]
fn sustained_command_enters_busy_cadence_directly() {
    let recorder = Recorder::default();
    let output = recorder.0.clone();
    let mut engine = Engine::new(policy(IdlePolicy::Off), recorder);
    let start = engine.now();
    engine.set_enabled(true, start).unwrap();
    engine.observe_activity(true, 1, start).unwrap();
    assert_eq!(*output.lock().unwrap(), vec![true]);
    let state = engine.state();
    assert!(state.lit);
    assert_eq!(state.mode, Mode::Busy);
    assert_eq!(state.deadline, Some(state.last_edge.unwrap() + ms(67)));
}

#[test]
fn late_timeout_does_not_replay_missed_toggles() {
    let recorder = Recorder::default();
    let output = recorder.0.clone();
    let mut engine = Engine::new(policy(IdlePolicy::Off), recorder);
    let start = engine.now();
    engine.set_enabled(true, start).unwrap();
    engine.observe_activity(true, 1, start).unwrap();
    engine.timeout(start + ms(10_000)).unwrap();
    assert_eq!(*output.lock().unwrap(), vec![true, false]);
    assert!(engine.state().deadline.unwrap() > start + ms(10_000));
}

#[test]
fn activity_ignored_while_disabled_or_in_attention() {
    let recorder = Recorder::default();
    let output = recorder.0.clone();
    let mut engine = Engine::new(policy(IdlePolicy::Off), recorder);
    engine.observe_activity(false, 3, 10).unwrap();
    assert_eq!(engine.state().seen_epoch, 3);
    assert!(output.lock().unwrap().is_empty());

    engine.set_enabled(true, 20).unwrap();
    engine
        .attention_started(Cadence::new(ms(5), ms(5)), 20)
        .unwrap();
    let rendered = output.lock().unwrap().len();
    engine.observe_activity(true, 4, 30).unwrap();
    assert_eq!(output.lock().unwrap().len(), rendered);
    assert!(matches!(
        engine.state().mode,
        Mode::Attention | Mode::AttentionWaitingOn
    ));
}

#[test]
fn renderer_failure_keeps_the_last_rendered_level() {
    let mut engine = Engine::new(policy(IdlePolicy::Off), Failing);
    engine.set_enabled(true, 0).unwrap();
    assert!(engine.observe_activity(false, 1, 0).is_err());
    assert!(!engine.state().lit);
    assert_eq!(engine.state().last_edge, None);
}

#[test]
fn many_commands_coalesce_into_one_extra_pulse() {
    let first = Recorder::default();
    let first_output = first.0.clone();
    let mut engine = Engine::new(policy(IdlePolicy::Off), first);
    engine.set_enabled(true, 0).unwrap();
    engine.observe_activity(false, 2, 0).unwrap();
    let two = engine.state();

    let second = Recorder::default();
    let mut other = Engine::new(policy(IdlePolicy::Off), second);
    other.set_enabled(true, 0).unwrap();
    other.observe_activity(false, 9, 0).unwrap();
    let nine = other.state();
    assert_eq!(two.pending_activity_pulse, nine.pending_activity_pulse);
    assert_eq!(two.mode, nine.mode);
    assert_eq!(two.lit, nine.lit);
    assert_eq!(*first_output.lock().unwrap(), vec![true]);
}

#[test]
fn disabling_renders_off_once_and_only_when_lit() {
    let recorder = Recorder::default();
    let output = recorder.0.clone();
    let mut engine = Engine::new(policy(IdlePolicy::Off), recorder);
    let start = engine.now();
    engine.set_enabled(true, start).unwrap();
    assert!(output.lock().unwrap().is_empty());
    engine.set_enabled(false, start).unwrap();
    assert!(output.lock().unwrap().is_empty());
    engine.set_enabled(true, start).unwrap();
    engine.observe_activity(true, 1, start).unwrap();
    assert_eq!(*output.lock().unwrap(), vec![true]);
    engine.set_enabled(false, start).unwrap();
    assert_eq!(*output.lock().unwrap(), vec![true, false]);
    assert!(!engine.state().lit);
    assert_eq!(engine.state().mode, Mode::Rest);
}

#[test]
fn quiet_transitions_succeed_even_with_a_failing_renderer() {
    let mut engine = Engine::new(policy(IdlePolicy::Off), Failing);
    assert!(engine.set_enabled(true, 0).is_ok());
    assert!(engine.timeout(0).is_ok());
    assert!(engine.observe_activity(true, 0, 0).is_ok());
    assert!(engine.attention_ended(0).is_ok());
    assert_eq!(engine.state().mode, Mode::Busy);
}

#[test]
fn clock_readings_stay_below_the_largest_instant() {
    assert_eq!(clock_reading(0), 0);
    assert_eq!(clock_reading(1_500), 1_500);
    assert_eq!(clock_reading(u128::MAX - 2), u128::MAX - 2);
    assert_eq!(clock_reading(u128::MAX - 1), u128::MAX - 1);
    assert_eq!(clock_reading(u128::MAX), u128::MAX - 1);
}

#[test]
fn cadences_longer_than_five_centuries_are_kept_exactly() {
    // Six hundred years of nanoseconds do not fit a u64.
    let long = 600u128 * 365 * 24 * 3_600 * 1_000_000_000;
    assert!(long > u128::from(u64::MAX));
    let forever = IdlePolicy::Blink {
        cadence: Cadence::new(ms(10), long),
        count: BlinkCount::Forever,
    };
    let mut engine = Engine::new(policy(forever), Recorder::default());
    engine.set_enabled(true, 1_000).unwrap();
    assert_eq!(engine.state().deadline, Some(1_000 + long));
}

#[test]
fn requests_are_recorded_even_when_the_renderer_fails() {
    let mut engine = Engine::new(policy(IdlePolicy::Off), Failing);
    engine.set_enabled(true, 0).unwrap();
    assert!(engine.observe_activity(true, 7, 0).is_err());
    assert_eq!(engine.state().seen_epoch, 7);
    assert!(engine.state().command_active);
    assert!(!engine.state().lit);

    let cadence = Cadence::new(ms(5), ms(5));
    assert!(engine.attention_started(cadence, 0).is_err());
    assert_eq!(engine.state().attention, Some(cadence));
    assert!(!engine.state().pending_activity_edge);
    assert!(!engine.state().pending_activity_pulse);
    assert!(engine.attention_ended(0).is_ok());
    assert_eq!(engine.state().attention, None);
}

#[test]
fn a_refused_transition_stays_due() {
    let mut engine = Engine::new(policy(IdlePolicy::Off), Failing);
    engine.set_enabled(true, 0).unwrap();
    assert!(engine.observe_activity(false, 1, 0).is_err());
    assert!(engine.timeout(0).is_err());
    assert!(engine.state().pending_activity_edge);
    assert_eq!(engine.state().deadline, Some(0));
}
