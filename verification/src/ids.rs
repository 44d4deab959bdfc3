//! Identifier and handle types shared by the local and remote diff models.

use vstd::prelude::*;

verus! {

/// Globally unique 64-bit entity id. Assigned randomly when an entity first
/// comes under some peer's authority; it names the entity across the whole
/// mesh, independent of which peer currently owns it. Collisions are only
/// probabilistically avoided, never prevented.
#[derive(Debug, Clone, Copy, Hash, PartialEq, Eq, Structural)]
pub struct Gid(pub u64);

/// Stream-local 32-bit entity id. Allocated monotonically by one
/// `LocalDiffModel` and only meaningful inside the update stream that model
/// produces; every observer keeps its own `Lid` mappings.
#[derive(Debug, Clone, Copy, Hash, PartialEq, Eq, Structural)]
pub struct Lid(pub u32);

/// Identifies one peer of the mesh.
#[derive(Debug, Clone, Copy, Hash, PartialEq, Eq, Structural)]
pub struct PeerId(pub u64);

/// Handle to a live entity in the simulation engine. The replication core
/// never looks inside it: it only correlates handles with `Lid`/`Gid`
/// entries and hands them back to the embedder when an engine-side action
/// is due.
#[derive(Debug, Clone, Copy, Hash, PartialEq, Eq, Structural)]
pub struct EntityHandle(pub i64);

/// Coarse integer world position, used for interest management and for the
/// periodic lightweight position broadcast.
#[derive(Debug, Clone, Copy, Hash, PartialEq, Eq, Structural)]
pub struct WorldPos {
    pub x: i32,
    pub y: i32,
}

impl View for EntityHandle {
    type V = EntityHandle;

    open spec fn view(&self) -> EntityHandle {
        *self
    }
}

impl View for Gid {
    type V = Gid;

    open spec fn view(&self) -> Gid {
        *self
    }
}

impl DeepView for WorldPos {
    type V = WorldPos;

    open spec fn deep_view(&self) -> WorldPos {
        *self
    }
}

impl DeepView for Gid {
    type V = Gid;

    open spec fn deep_view(&self) -> Gid {
        *self
    }
}

impl DeepView for Lid {
    type V = Lid;

    open spec fn deep_view(&self) -> Lid {
        *self
    }
}

impl DeepView for PeerId {
    type V = PeerId;

    open spec fn deep_view(&self) -> PeerId {
        *self
    }
}

impl DeepView for EntityHandle {
    type V = EntityHandle;

    open spec fn deep_view(&self) -> EntityHandle {
        *self
    }
}

} // verus!
