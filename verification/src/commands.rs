//! What the pipeline asks of the scene graph. A step hands its requests back
//! in the order in which they are to be carried out, before the next step runs.
use vstd::prelude::*;

verus! {

/// One request to the scene graph.
#[derive(Clone, Copy, Debug, PartialEq, Eq, Structural)]
pub enum Command {
    /// Instantiate the sub-scene with the index `scene` of the template as new
    /// children of `entity`, at the anchor's own placement or, where
    /// `identity_placement` is set, at the identity.
    SpawnScene { entity: u64, scene: usize, identity_placement: bool },
    /// Keep the animation clips that the template names in a table of `entity`.
    CaptureAnimations { entity: u64 },
    /// Show or hide `entity`.
    SetVisibility { entity: u64, visible: bool },
    /// Make `child` the last child of `parent`, taking it from the parent it had.
    AddChild { parent: u64, child: u64 },
    /// Copy every attribute of `source` onto `destination`, but for the links
    /// to parent and children: an attribute that `destination` has is replaced,
    /// one that it lacks is added.
    CopyComponents { source: u64, destination: u64 },
    /// Destroy `entity` and everything below it.
    Despawn { entity: u64 },
    /// Destroy everything below `entity`, and keep `entity`.
    DespawnDescendants { entity: u64 },
    /// Record on `entity` that `root` is its nearest enclosing instance.
    TrackRoot { entity: u64, root: u64 },
}

} // verus!
