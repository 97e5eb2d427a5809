use vstd::prelude::*;

use crate::scenegraph::{Entity, NULL_ENTITY};

verus! {

/// Links of an entity in the scene tree: its first child, its next and
/// previous siblings, and its parent (`NULL_ENTITY` where there is none).
#[derive(Clone, Copy, PartialEq, Eq, Structural)]
pub struct SceneNode {
    pub first: Entity,
    pub next: Entity,
    pub prev: Entity,
    pub parent: Entity,
}

/// A node with no links at all.
pub open spec fn detached_node() -> SceneNode {
    SceneNode { first: NULL_ENTITY, next: NULL_ENTITY, prev: NULL_ENTITY, parent: NULL_ENTITY }
}

impl Default for SceneNode {
    fn default() -> (s: Self)
        ensures
            s == detached_node(),
    {
        SceneNode { first: NULL_ENTITY, next: NULL_ENTITY, prev: NULL_ENTITY, parent: NULL_ENTITY }
    }
}

} // verus!
