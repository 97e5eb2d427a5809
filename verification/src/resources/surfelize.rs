use vstd::prelude::*;

verus! {

/// Where the base color of a material comes from: an image, by index, or a
/// constant RGBA color.
#[derive(Clone, Copy)]
pub enum BaseColorData {
    ImageIndex(usize),
    Color([u8; 4]),
}

} // verus!
