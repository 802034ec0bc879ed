use pockyplocky::envelope::{Envelope, EnvelopeAction, EnvelopeCurve, EnvelopeStage};
use pockyplocky::params::{BreathAttackCurve, BreathDecayCurve};

/// Follows the actions with the value arithmetic of a linear attack.
fn linear_attack_values(env: &mut Envelope, steps: u32) -> Vec<f32> {
    let mut value = 0.0f32;
    let increment = 1.0 / steps as f32;
    let mut values = Vec::new();
    for _ in 0..steps {
        match env.process_sample() {
            EnvelopeAction::Step(EnvelopeCurve::Linear) => value += increment,
            EnvelopeAction::Land => value = 1.0,
            other => panic!("unexpected action {:?}", other),
        }
        values.push(value);
    }
    values
}

#[test]
fn new_envelope_is_idle() {
    let mut env = Envelope::new();
    assert_eq!(env.stage(), EnvelopeStage::Idle);
    assert_eq!(env.attack_curve(), EnvelopeCurve::Linear);
    assert_eq!(env.process_sample(), EnvelopeAction::Rest);
}

#[test]
fn linear_attack_rises_to_exactly_one() {
    let mut env = Envelope::new();
    env.set_attack_steps(7);
    env.set_attack_curve(BreathAttackCurve::Linear);
    env.start();
    let values = linear_attack_values(&mut env, 7);
    assert_eq!(values.len(), 7);
    for (k, v) in values.iter().enumerate() {
        assert!((v - (k + 1) as f32 / 7.0).abs() < 1e-6);
    }
    assert_eq!(
        env.process_sample(),
        EnvelopeAction::BeginDecay { steps: 0, curve: EnvelopeCurve::Exponential }
    );
    assert!(values.windows(2).all(|w| w[0] <= w[1]));
    assert!(values[0] > 0.0);
    assert_eq!(*values.last().unwrap(), 1.0);
}

#[test]
fn attack_then_decay_then_idle() {
    let mut env = Envelope::new();
    env.set_attack_steps(3);
    env.set_attack_curve(BreathAttackCurve::Exponential);
    env.set_decay_steps(2);
    env.set_decay_curve(BreathDecayCurve::Linear);
    env.start();
    assert_eq!(env.stage(), EnvelopeStage::Attack);
    let actions: Vec<EnvelopeAction> = (0..8).map(|_| env.process_sample()).collect();
    assert_eq!(
        actions,
        vec![
            EnvelopeAction::Step(EnvelopeCurve::Exponential),
            EnvelopeAction::Step(EnvelopeCurve::Exponential),
            EnvelopeAction::Land,
            EnvelopeAction::BeginDecay { steps: 2, curve: EnvelopeCurve::Linear },
            EnvelopeAction::Step(EnvelopeCurve::Linear),
            EnvelopeAction::Land,
            EnvelopeAction::Rest,
            EnvelopeAction::Rest,
        ]
    );
    assert_eq!(env.stage(), EnvelopeStage::Idle);
}

#[test]
fn instant_attack_goes_straight_to_decay() {
    let mut env = Envelope::new();
    env.set_attack_steps(0);
    env.set_decay_steps(4);
    env.start();
    assert_eq!(
        env.process_sample(),
        EnvelopeAction::BeginDecay { steps: 4, curve: EnvelopeCurve::Exponential }
    );
    assert_eq!(env.stage(), EnvelopeStage::Decay);
}

#[test]
fn logarithmic_attack_curve_is_kept() {
    let mut env = Envelope::new();
    env.set_attack_steps(2);
    env.set_attack_curve(BreathAttackCurve::Logarithmic);
    assert_eq!(env.attack_curve(), EnvelopeCurve::Logarithmic);
    assert_eq!(env.attack_steps(), 2);
    env.start();
    assert_eq!(env.process_sample(), EnvelopeAction::Step(EnvelopeCurve::Logarithmic));
    assert_eq!(env.process_sample(), EnvelopeAction::Land);
}

#[test]
fn reset_forces_idle() {
    let mut env = Envelope::new();
    env.set_attack_steps(10);
    env.start();
    env.process_sample();
    env.reset();
    assert_eq!(env.stage(), EnvelopeStage::Idle);
    assert_eq!(env.process_sample(), EnvelopeAction::Rest);
    // A new start runs the whole attack again.
    env.start();
    let actions: Vec<EnvelopeAction> = (0..10).map(|_| env.process_sample()).collect();
    assert_eq!(actions[9], EnvelopeAction::Land);
    assert!(actions[..9].iter().all(|a| *a == EnvelopeAction::Step(EnvelopeCurve::Linear)));
}
