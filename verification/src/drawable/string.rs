use vstd::prelude::*;

verus! {

/// How a rendered string is placed relative to its anchor point.
#[derive(PartialEq, Eq, Structural, Clone, Copy)]
pub enum StringAlignment {
    LEFT,
    RIGHT,
    CENTERED,
}

} // verus!
