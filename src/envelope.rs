use vstd::prelude::*;
use crate::params::{BreathAttackCurve, BreathDecayCurve};

verus! {

/// Shape of one envelope stage.
#[derive(Clone, Copy, Debug, PartialEq, Eq, Structural)]
pub enum EnvelopeCurve {
    Linear,
    Logarithmic,
    Exponential,
}

/// Stage of the attack-then-decay envelope.
#[derive(Clone, Copy, Debug, PartialEq, Eq, Structural)]
pub enum EnvelopeStage {
    Attack,
    Decay,
    Idle,
}

/// What the envelope's value does on one sample.
#[derive(Clone, Copy, Debug, PartialEq, Eq, Structural)]
pub enum EnvelopeAction {
    /// One step along the curve toward the stage's target.
    Step(EnvelopeCurve),
    /// The stage's last step: the value lands exactly on its target.
    Land,
    /// The attack is over: the value stands at 1 and the decay toward 0
    /// begins, over `steps` samples along `curve`.
    BeginDecay { steps: u32, curve: EnvelopeCurve },
    /// The value is 0.
    Rest,
}

pub open spec fn attack_curve_of(c: BreathAttackCurve) -> EnvelopeCurve {
    match c {
        BreathAttackCurve::Linear => EnvelopeCurve::Linear,
        BreathAttackCurve::Logarithmic => EnvelopeCurve::Logarithmic,
        BreathAttackCurve::Exponential => EnvelopeCurve::Exponential,
    }
}

pub open spec fn decay_curve_of(c: BreathDecayCurve) -> EnvelopeCurve {
    match c {
        BreathDecayCurve::Linear => EnvelopeCurve::Linear,
        BreathDecayCurve::Exponential => EnvelopeCurve::Exponential,
    }
}

/// The envelope's position and settings, as plain values.
#[derive(Clone, Copy, Debug, PartialEq, Eq, Structural)]
pub struct EnvelopeState {
    pub stage: EnvelopeStage,
    pub steps_left: u32,
    pub attack_steps: u32,
    pub attack_curve: EnvelopeCurve,
    pub decay_steps: u32,
    pub decay_curve: EnvelopeCurve,
}

/// The curve that a step in the current stage follows.
pub open spec fn stage_curve(e: EnvelopeState) -> EnvelopeCurve {
    match e.stage {
        EnvelopeStage::Attack => e.attack_curve,
        EnvelopeStage::Decay => e.decay_curve,
        EnvelopeStage::Idle => EnvelopeCurve::Linear,
    }
}

/// One sample of the envelope: a stage counts its steps down and lands on
/// its target on the last one; then the attack gives way to the decay, and
/// the decay to silence.
pub open spec fn envelope_step(e: EnvelopeState) -> (EnvelopeState, EnvelopeAction) {
    if e.steps_left > 0 {
        let next = EnvelopeState { steps_left: (e.steps_left - 1) as u32, ..e };
        if e.steps_left == 1 {
            (next, EnvelopeAction::Land)
        } else {
            (next, EnvelopeAction::Step(stage_curve(e)))
        }
    } else {
        match e.stage {
            EnvelopeStage::Attack => (
                EnvelopeState { stage: EnvelopeStage::Decay, steps_left: e.decay_steps, ..e },
                EnvelopeAction::BeginDecay { steps: e.decay_steps, curve: e.decay_curve },
            ),
            EnvelopeStage::Decay => (
                EnvelopeState { stage: EnvelopeStage::Idle, steps_left: 0, ..e },
                EnvelopeAction::Rest,
            ),
            EnvelopeStage::Idle => (e, EnvelopeAction::Rest),
        }
    }
}

/// The state after `k` samples.
pub open spec fn envelope_after(e: EnvelopeState, k: nat) -> EnvelopeState
    decreases k,
{
    if k == 0 {
        e
    } else {
        envelope_step(envelope_after(e, (k - 1) as nat)).0
    }
}

/// The action of the sample that follows the first `k`.
pub open spec fn envelope_action_at(e: EnvelopeState, k: nat) -> EnvelopeAction {
    envelope_step(envelope_after(e, k)).1
}

/// Within a stage, each sample takes one step off the count.
proof fn lemma_stage_counts_down(e: EnvelopeState, j: nat)
    requires
        j <= e.steps_left,
    ensures
        envelope_after(e, j) == (EnvelopeState { steps_left: (e.steps_left - j) as u32, ..e }),
    decreases j,
{
    if j > 0 {
        lemma_stage_counts_down(e, (j - 1) as nat);
    }
}

/// A stage with `n >= 1` steps to go takes `n - 1` steps along its curve,
/// then lands exactly on its target.
proof fn lemma_stage_actions(e: EnvelopeState)
    requires
        e.steps_left >= 1,
    ensures
        forall|j: nat| j < e.steps_left - 1 ==> #[trigger] envelope_action_at(e, j)
            == EnvelopeAction::Step(stage_curve(e)),
        envelope_action_at(e, (e.steps_left - 1) as nat) == EnvelopeAction::Land,
        envelope_after(e, e.steps_left as nat) == (EnvelopeState { steps_left: 0, ..e }),
{
    assert forall|j: nat| j < e.steps_left - 1 implies #[trigger] envelope_action_at(e, j)
        == EnvelopeAction::Step(stage_curve(e)) by {
        lemma_stage_counts_down(e, j);
    }
    lemma_stage_counts_down(e, (e.steps_left - 1) as nat);
    lemma_stage_counts_down(e, e.steps_left as nat);
}

/// A started attack of `n >= 1` samples takes `n - 1` steps along the attack
/// curve from 0, lands exactly on 1 on sample `n`, and the decay begins on
/// the sample after.
pub proof fn lemma_attack_lands_on_target(e: EnvelopeState)
    requires
        e.stage == EnvelopeStage::Attack,
        e.steps_left == e.attack_steps,
        e.attack_steps >= 1,
    ensures
        forall|j: nat| j < e.attack_steps - 1 ==> #[trigger] envelope_action_at(e, j)
            == EnvelopeAction::Step(e.attack_curve),
        envelope_action_at(e, (e.attack_steps - 1) as nat) == EnvelopeAction::Land,
        envelope_action_at(e, e.attack_steps as nat) == (EnvelopeAction::BeginDecay {
            steps: e.decay_steps,
            curve: e.decay_curve,
        }),
{
    lemma_stage_actions(e);
}

/// A decay that begins with `m >= 1` samples takes `m - 1` steps along the
/// decay curve from 1, lands exactly on 0 on sample `m`, and the envelope is
/// idle and silent from then on.
pub proof fn lemma_decay_ends_idle(e: EnvelopeState, k: nat)
    requires
        e.stage == EnvelopeStage::Decay,
        e.steps_left == e.decay_steps,
        e.decay_steps >= 1,
        k > e.decay_steps,
    ensures
        forall|j: nat| j < e.decay_steps - 1 ==> #[trigger] envelope_action_at(e, j)
            == EnvelopeAction::Step(e.decay_curve),
        envelope_action_at(e, (e.decay_steps - 1) as nat) == EnvelopeAction::Land,
        envelope_action_at(e, e.decay_steps as nat) == EnvelopeAction::Rest,
        envelope_after(e, k).stage == EnvelopeStage::Idle,
        envelope_action_at(e, k) == EnvelopeAction::Rest,
    decreases k,
{
    lemma_stage_actions(e);
    if k == e.decay_steps + 1 {
    } else {
        lemma_decay_ends_idle(e, (k - 1) as nat);
    }
}

/// A two-stage (attack, then decay) envelope, counted in samples.
pub struct Envelope {
    current_stage: EnvelopeStage,
    steps_left: u32,
    attack_steps: u32,
    attack_curve: EnvelopeCurve,
    decay_steps: u32,
    decay_curve: EnvelopeCurve,
}

impl View for Envelope {
    type V = EnvelopeState;

    closed spec fn view(&self) -> EnvelopeState {
        EnvelopeState {
            stage: self.current_stage,
            steps_left: self.steps_left,
            attack_steps: self.attack_steps,
            attack_curve: self.attack_curve,
            decay_steps: self.decay_steps,
            decay_curve: self.decay_curve,
        }
    }
}

impl Envelope {
    /// An idle envelope with a linear attack and an exponential decay, both
    /// of no length until set.
    pub fn new() -> (r: Envelope)
        ensures
            r@ == (EnvelopeState {
                stage: EnvelopeStage::Idle,
                steps_left: 0,
                attack_steps: 0,
                attack_curve: EnvelopeCurve::Linear,
                decay_steps: 0,
                decay_curve: EnvelopeCurve::Exponential,
            }),
    {
        Envelope {
            current_stage: EnvelopeStage::Idle,
            steps_left: 0,
            attack_steps: 0,
            attack_curve: EnvelopeCurve::Linear,
            decay_steps: 0,
            decay_curve: EnvelopeCurve::Exponential,
        }
    }

    /// Forces the envelope idle.
    pub fn reset(&mut self)
        ensures
            final(self)@ == (EnvelopeState { stage: EnvelopeStage::Idle, steps_left: 0, ..old(self)@ }),
    {
        self.current_stage = EnvelopeStage::Idle;
        self.steps_left = 0;
    }

    /// Sets the length of the attack, in samples, for the next start.
    pub fn set_attack_steps(&mut self, steps: u32)
        ensures
            final(self)@ == (EnvelopeState { attack_steps: steps, ..old(self)@ }),
    {
        self.attack_steps = steps;
    }

    pub fn set_attack_curve(&mut self, curve: BreathAttackCurve)
        ensures
            final(self)@ == (EnvelopeState { attack_curve: attack_curve_of(curve), ..old(self)@ }),
    {
        self.attack_curve = match curve {
            BreathAttackCurve::Linear => EnvelopeCurve::Linear,
            BreathAttackCurve::Logarithmic => EnvelopeCurve::Logarithmic,
            BreathAttackCurve::Exponential => EnvelopeCurve::Exponential,
        };
    }

    /// Sets the length of the decay, in samples.
    pub fn set_decay_steps(&mut self, steps: u32)
        ensures
            final(self)@ == (EnvelopeState { decay_steps: steps, ..old(self)@ }),
    {
        self.decay_steps = steps;
    }

    pub fn set_decay_curve(&mut self, curve: BreathDecayCurve)
        ensures
            final(self)@ == (EnvelopeState { decay_curve: decay_curve_of(curve), ..old(self)@ }),
    {
        self.decay_curve = match curve {
            BreathDecayCurve::Linear => EnvelopeCurve::Linear,
            BreathDecayCurve::Exponential => EnvelopeCurve::Exponential,
        };
    }

    pub fn stage(&self) -> (r: EnvelopeStage)
        ensures
            r == self@.stage,
    {
        self.current_stage
    }

    pub fn attack_steps(&self) -> (r: u32)
        ensures
            r == self@.attack_steps,
    {
        self.attack_steps
    }

    pub fn attack_curve(&self) -> (r: EnvelopeCurve)
        ensures
            r == self@.attack_curve,
    {
        self.attack_curve
    }

    /// Re-arms the envelope: the attack from 0 toward 1 begins.
    pub fn start(&mut self)
        ensures
            final(self)@ == (EnvelopeState {
                stage: EnvelopeStage::Attack,
                steps_left: old(self)@.attack_steps,
                ..old(self)@
            }),
    {
        self.current_stage = EnvelopeStage::Attack;
        self.steps_left = self.attack_steps;
    }

    /// Moves on by one sample and says what the value does on it.
    pub fn process_sample(&mut self) -> (r: EnvelopeAction)
        ensures
            (final(self)@, r) == envelope_step(old(self)@),
    {
        if self.steps_left > 0 {
            let old_steps_left = self.steps_left;
            self.steps_left = self.steps_left - 1;
            if old_steps_left == 1 {
                EnvelopeAction::Land
            } else {
                let curve = match self.current_stage {
                    EnvelopeStage::Attack => self.attack_curve,
                    EnvelopeStage::Decay => self.decay_curve,
                    EnvelopeStage::Idle => EnvelopeCurve::Linear,
                };
                EnvelopeAction::Step(curve)
            }
        } else {
            match self.current_stage {
                EnvelopeStage::Attack => {
                    self.current_stage = EnvelopeStage::Decay;
                    self.steps_left = self.decay_steps;
                    EnvelopeAction::BeginDecay { steps: self.decay_steps, curve: self.decay_curve }
                },
                EnvelopeStage::Decay => {
                    self.current_stage = EnvelopeStage::Idle;
                    self.steps_left = 0;
                    EnvelopeAction::Rest
                },
                EnvelopeStage::Idle => EnvelopeAction::Rest,
            }
        }
    }
}

} // verus!
