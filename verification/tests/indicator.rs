use display_backends::{
    validate_policy, BlinkCount, Cadence, Engine, IdlePolicy, IndicatorRenderer, Mode, Policy,
    PolicyError,
};
use std::sync::{Arc, Mutex};

fn ms(value: u128) -> u128 {
    value * 1_000_000
}

#[derive(Clone, Default)]
struct RecordingRenderer(Arc<Mutex<Vec<bool>>>);

impl IndicatorRenderer for RecordingRenderer {
    fn set_indicator(&mut self, lit: bool) -> std::io::Result<()> {
        self.0.lock().unwrap().push(lit);
        Ok(())
    }
}

fn policy(idle: IdlePolicy) -> Policy {
    Policy::new(Cadence::new(ms(67), ms(33)), idle, ms(8))
}

#[test]
fn completed_short_command_is_followed_by_one_counted_idle_blink() {
    let renderer = RecordingRenderer::default();
    let output = renderer.0.clone();
    let idle = Cadence::new(ms(1_500), ms(1_500));
    let mut engine = Engine::new(
        policy(IdlePolicy::Blink {
            cadence: idle,
            count: BlinkCount::Finite(1),
        }),
        renderer,
    );
    let start = engine.now();
    engine.set_enabled(true, start).unwrap();
    engine.observe_activity(false, 1, start).unwrap();
    assert_eq!(*output.lock().unwrap(), vec![true]);
    assert_eq!(engine.state().mode, Mode::SettleOff);

    let activity_off = engine.state().deadline.unwrap();
    engine.timeout(activity_off).unwrap();
    assert_eq!(*output.lock().unwrap(), vec![true, false]);

    let idle_on = engine.state().deadline.unwrap();
    engine.timeout(idle_on).unwrap();
    assert_eq!(*output.lock().unwrap(), vec![true, false, true]);
    let idle_off = engine.state().deadline.unwrap();
    engine.timeout(idle_off).unwrap();
    assert_eq!(*output.lock().unwrap(), vec![true, false, true, false]);
    assert_eq!(engine.state().mode, Mode::Rest);
}

#[test]
fn sustained_command_uses_asymmetric_busy_cadence_then_counted_idle() {
    let renderer = RecordingRenderer::default();
    let output = renderer.0.clone();
    let idle = Cadence::new(ms(1_500), ms(1_500));
    let mut engine = Engine::new(
        policy(IdlePolicy::Blink {
            cadence: idle,
            count: BlinkCount::Finite(1),
        }),
        renderer,
    );
    let start = engine.now();
    engine.set_enabled(true, start).unwrap();
    engine.observe_activity(true, 1, start).unwrap();
    assert_eq!(*output.lock().unwrap(), vec![true]);

    let off_due = engine.state().deadline.unwrap();
    engine.timeout(off_due).unwrap();
    assert_eq!(*output.lock().unwrap(), vec![true, false]);
    let on_due = engine.state().deadline.unwrap();
    engine.timeout(on_due).unwrap();
    assert_eq!(*output.lock().unwrap(), vec![true, false, true]);

    let end = start + ms(110);
    engine.observe_activity(false, 1, end).unwrap();
    assert_eq!(*output.lock().unwrap(), vec![true, false, true, false]);
    let idle_on = engine.state().deadline.unwrap();
    engine.timeout(idle_on).unwrap();
    assert_eq!(
        *output.lock().unwrap(),
        vec![true, false, true, false, true]
    );
}

#[test]
fn periodic_idle_continues_but_disable_only_forces_indicator_off() {
    let renderer = RecordingRenderer::default();
    let output = renderer.0.clone();
    let mut engine = Engine::new(
        policy(IdlePolicy::Blink {
            cadence: Cadence::new(ms(1_500), ms(1_500)),
            count: BlinkCount::Forever,
        }),
        renderer,
    );
    let start = engine.now();
    engine.set_enabled(true, start).unwrap();
    let idle_due = engine.state().deadline.unwrap();
    engine.timeout(idle_due).unwrap();
    assert_eq!(*output.lock().unwrap(), vec![true]);

    engine.set_enabled(false, start + ms(2_000)).unwrap();
    assert_eq!(*output.lock().unwrap(), vec![true, false]);
    assert!(!engine.state().enabled);
}

#[test]
fn activity_burst_retains_only_one_additional_pulse() {
    let renderer = RecordingRenderer::default();
    let output = renderer.0.clone();
    let mut engine = Engine::new(policy(IdlePolicy::Off), renderer);
    let start = engine.now();
    engine.set_enabled(true, start).unwrap();
    engine.observe_activity(false, 4, start).unwrap();
    assert_eq!(*output.lock().unwrap(), vec![true]);
    assert_eq!(engine.state().seen_epoch, 4);
    assert!(!engine.state().pending_activity_edge);
    assert!(engine.state().pending_activity_pulse);

    let first_off = engine.state().deadline.unwrap();
    engine.timeout(first_off).unwrap();
    assert_eq!(*output.lock().unwrap(), vec![true, false]);
    assert!(engine.state().pending_activity_edge);
    assert!(!engine.state().pending_activity_pulse);

    let second_on = engine.state().deadline.unwrap();
    engine.timeout(second_on).unwrap();
    assert_eq!(*output.lock().unwrap(), vec![true, false, true]);
    let second_off = engine.state().deadline.unwrap();
    engine.timeout(second_off).unwrap();
    assert_eq!(*output.lock().unwrap(), vec![true, false, true, false]);
    assert_eq!(engine.state().mode, Mode::Rest);
}

#[test]
fn periodic_idle_short_command_finishes_off_before_idle_restarts() {
    let renderer = RecordingRenderer::default();
    let output = renderer.0.clone();
    let idle = Cadence::new(ms(1_500), ms(1_500));
    let mut engine = Engine::new(
        policy(IdlePolicy::Blink {
            cadence: idle,
            count: BlinkCount::Forever,
        }),
        renderer,
    );
    let start = engine.now();
    engine.set_enabled(true, start).unwrap();
    engine.observe_activity(false, 1, start).unwrap();
    assert_eq!(*output.lock().unwrap(), vec![true]);

    let completion = engine.state().deadline.unwrap();
    engine.timeout(completion).unwrap();
    assert_eq!(*output.lock().unwrap(), vec![true, false]);
    assert_eq!(engine.state().mode, Mode::IdleOff);
}

#[test]
fn periodic_idle_on_inserts_an_off_separator_before_activity_on() {
    let renderer = RecordingRenderer::default();
    let output = renderer.0.clone();
    let idle = Cadence::new(ms(1_500), ms(1_500));
    let mut engine = Engine::new(
        policy(IdlePolicy::Blink {
            cadence: idle,
            count: BlinkCount::Forever,
        }),
        renderer,
    );
    let start = engine.now();
    engine.set_enabled(true, start).unwrap();
    let idle_on = engine.state().deadline.unwrap();
    engine.timeout(idle_on).unwrap();
    engine.observe_activity(false, 1, idle_on).unwrap();

    for _ in 0..3 {
        let deadline = engine.state().deadline.unwrap();
        engine.timeout(deadline).unwrap();
    }
    assert_eq!(*output.lock().unwrap(), vec![true, false, true, false]);
    assert_eq!(engine.state().mode, Mode::IdleOff);
}

#[test]
fn periodic_idle_burst_retains_only_one_complete_extra_pulse() {
    let renderer = RecordingRenderer::default();
    let output = renderer.0.clone();
    let idle = Cadence::new(ms(1_500), ms(1_500));
    let mut engine = Engine::new(
        policy(IdlePolicy::Blink {
            cadence: idle,
            count: BlinkCount::Forever,
        }),
        renderer,
    );
    let start = engine.now();
    engine.set_enabled(true, start).unwrap();
    engine.observe_activity(false, 8, start).unwrap();

    for _ in 0..3 {
        let deadline = engine.state().deadline.unwrap();
        engine.timeout(deadline).unwrap();
    }
    assert_eq!(*output.lock().unwrap(), vec![true, false, true, false]);
    assert_eq!(engine.state().mode, Mode::IdleOff);
}

#[test]
fn activity_during_a_visible_pulse_retains_one_more_pulse() {
    let renderer = RecordingRenderer::default();
    let output = renderer.0.clone();
    let mut engine = Engine::new(policy(IdlePolicy::Off), renderer);
    let start = engine.now();
    engine.set_enabled(true, start).unwrap();
    engine.observe_activity(false, 1, start).unwrap();
    assert_eq!(*output.lock().unwrap(), vec![true]);

    engine.observe_activity(false, 2, start + ms(1)).unwrap();
    engine.observe_activity(false, 8, start + ms(2)).unwrap();
    assert!(engine.state().pending_activity_pulse);

    for _ in 0..3 {
        let deadline = engine.state().deadline.unwrap();
        engine.timeout(deadline).unwrap();
    }
    assert_eq!(*output.lock().unwrap(), vec![true, false, true, false]);
    assert_eq!(engine.state().mode, Mode::Rest);
}

#[test]
fn attention_overrides_busy_and_resumes_it() {
    let renderer = RecordingRenderer::default();
    let output = renderer.0.clone();
    let mut engine = Engine::new(policy(IdlePolicy::Off), renderer);
    let start = engine.now();
    let attention = Cadence::new(ms(384), ms(384));
    engine.set_enabled(true, start).unwrap();
    engine.observe_activity(true, 1, start).unwrap();
    engine.attention_started(attention, start).unwrap();
    let attention_due = engine.state().deadline.unwrap();
    engine.timeout(attention_due).unwrap();
    assert_eq!(*output.lock().unwrap(), vec![true, false]);
    engine.attention_ended(start + ms(400)).unwrap();
    assert_eq!(engine.state().mode, Mode::Busy);
}

#[test]
fn zero_length_cadences_are_rejected() {
    let policy = Policy::new(Cadence::new(0, ms(1)), IdlePolicy::Off, 0);
    assert_eq!(validate_policy(policy), Err(PolicyError::InvalidCadence));
}
