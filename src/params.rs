use vstd::prelude::*;

verus! {

/// Instrument profile whose mode table a voice uses.
#[derive(Clone, Copy, Debug, PartialEq, Eq, Structural)]
pub enum Timbre {
    Xylophone,
    MetalPan,
    GlassMarimba,
    Piano,
    WoodBlocks,
    SteelDrum,
    MetalCup,
}

/// Shape of the breath envelope's attack.
#[derive(Clone, Copy, Debug, PartialEq, Eq, Structural)]
pub enum BreathAttackCurve {
    Linear,
    Logarithmic,
    Exponential,
}

/// Shape of the breath envelope's decay.
#[derive(Clone, Copy, Debug, PartialEq, Eq, Structural)]
pub enum BreathDecayCurve {
    Linear,
    Exponential,
}

} // verus!
