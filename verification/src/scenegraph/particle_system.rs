use vstd::prelude::*;

verus! {

/// How spawned particles are turned: towards the viewer, or at random.
#[derive(PartialEq, Eq, Structural, Clone, Copy)]
pub enum ParticleRotation {
    Billboard,
    Random,
}

} // verus!
