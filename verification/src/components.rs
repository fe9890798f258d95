//! The attributes that mark an object as a blueprint instance, and the
//! notifications the pipeline sends out.
use vstd::prelude::*;

verus! {

/// Marks the object that stands for the game world: instances that ask for it
/// are attached below this object.
#[derive(Clone, Copy, Debug, PartialEq, Eq, Structural)]
pub struct GameWorldTag;

/// Names a blueprint: `name` identifies it, `path` is where its scene asset
/// lives. It does not change once it is attached to a request.
#[derive(Debug)]
pub struct BlueprintInfo {
    pub name: String,
    pub path: String,
}

/// What the contracts read of a [`BlueprintInfo`].
pub struct BlueprintInfoView {
    pub name: Seq<char>,
    pub path: Seq<char>,
}

impl View for BlueprintInfo {
    type V = BlueprintInfoView;

    open spec fn view(&self) -> BlueprintInfoView {
        BlueprintInfoView { name: self.name@, path: self.path@ }
    }
}

impl BlueprintInfo {
    /// A copy with the same name and path.
    pub fn duplicate(&self) -> (copy: BlueprintInfo)
        ensures
            copy == *self,
            copy@ == self@,
    {
        BlueprintInfo { name: self.name.clone(), path: self.path.clone() }
    }
}

/// Asks for a blueprint to be spawned on the object that carries it.
#[derive(Clone, Copy, Debug, PartialEq, Eq, Structural)]
pub struct SpawnHere;

/// Marks a scene that was spawned at run time.
#[derive(Clone, Copy, Debug, PartialEq, Eq, Structural)]
pub struct Spawned;

/// Present once an instance is ready: its assets are loaded, its scene is
/// spawned and merged into the anchor, and all nested instances are ready.
#[derive(Clone, Copy, Debug, PartialEq, Eq, Structural)]
pub struct BlueprintInstanceReady;

/// Marks an object that was spawned as part of a blueprint.
#[derive(Clone, Copy, Debug, PartialEq, Eq, Structural)]
pub struct InBlueprint;

/// Keeps the spawned children of an object from being marked [`InBlueprint`].
#[derive(Clone, Copy, Debug, PartialEq, Eq, Structural)]
pub struct NoInBlueprint;

/// The path type of std, carried through and never looked into.
#[verifier::external_type_specification]
#[verifier::external_body]
pub struct ExPathBuf(std::path::PathBuf);

/// Overrides the library path for one object.
#[derive(Debug)]
pub struct Library(pub std::path::PathBuf);

/// Asks for the anchor to be attached below the game world once its scene is
/// requested.
#[derive(Clone, Copy, Debug, PartialEq, Eq, Structural)]
pub struct AddToGameWorld;

/// Asks for the anchor to stay hidden until the instance is ready.
#[derive(Clone, Copy, Debug, PartialEq, Eq, Structural)]
pub struct HideUntilReady;

/// Marks an instance as dynamic, so that it is kept when the world is saved.
#[derive(Clone, Copy, Debug, PartialEq, Eq, Structural)]
pub struct DynamicBlueprintInstance;

/// Present from the moment an instance starts spawning until it is ready.
#[derive(Clone, Copy, Debug, PartialEq, Eq, Structural)]
pub struct BlueprintSpawning;

/// The nearest enclosing instance of a nested instance. It is a plain
/// identifier: the nested instance does not own its root.
#[derive(Clone, Copy, Debug, PartialEq, Eq, Structural)]
pub struct SpawnTrackRoot(pub u64);

/// Present once the scene of an instance exists below its anchor.
#[derive(Clone, Copy, Debug, PartialEq, Eq, Structural)]
pub struct BlueprintSceneSpawned;

/// Present once every nested instance of an instance is done.
#[derive(Clone, Copy, Debug, PartialEq, Eq, Structural)]
pub struct BlueprintChildrenReady;

/// Present once the wrapper node is merged into the anchor: collaborators that
/// post-process an instance take their turn on this marker.
#[derive(Clone, Copy, Debug, PartialEq, Eq, Structural)]
pub struct BlueprintReadyForPostProcess;

/// Set by post-processing collaborators when they are done with an instance.
#[derive(Clone, Copy, Debug, PartialEq, Eq, Structural)]
pub struct BlueprintReadyForFinalizing;

/// The children that an anchor had before its scene was spawned.
#[derive(Debug)]
pub struct OriginalChildren(pub Vec<u64>);

/// A notification about one instance.
#[derive(Debug)]
pub enum BlueprintEvent {
    /// The assets of the blueprint are loaded; spawning has not started.
    AssetsLoaded { entity: u64, blueprint_name: String, blueprint_path: String },
    /// The scene of the blueprint is spawned.
    Spawned { entity: u64, blueprint_name: String, blueprint_path: String },
    /// The instance is ready.
    InstanceReady { entity: u64, blueprint_name: String, blueprint_path: String },
}

/// What the contracts read of a [`BlueprintEvent`].
pub enum BlueprintEventView {
    AssetsLoaded { entity: u64, blueprint_name: Seq<char>, blueprint_path: Seq<char> },
    Spawned { entity: u64, blueprint_name: Seq<char>, blueprint_path: Seq<char> },
    InstanceReady { entity: u64, blueprint_name: Seq<char>, blueprint_path: Seq<char> },
}

impl View for BlueprintEvent {
    type V = BlueprintEventView;

    open spec fn view(&self) -> BlueprintEventView {
        match *self {
            BlueprintEvent::AssetsLoaded { entity, blueprint_name, blueprint_path } => {
                BlueprintEventView::AssetsLoaded {
                    entity,
                    blueprint_name: blueprint_name@,
                    blueprint_path: blueprint_path@,
                }
            },
            BlueprintEvent::Spawned { entity, blueprint_name, blueprint_path } => {
                BlueprintEventView::Spawned {
                    entity,
                    blueprint_name: blueprint_name@,
                    blueprint_path: blueprint_path@,
                }
            },
            BlueprintEvent::InstanceReady { entity, blueprint_name, blueprint_path } => {
                BlueprintEventView::InstanceReady {
                    entity,
                    blueprint_name: blueprint_name@,
                    blueprint_path: blueprint_path@,
                }
            },
        }
    }
}

/// The views of a sequence of events, in order.
pub open spec fn event_views(events: Seq<BlueprintEvent>) -> Seq<BlueprintEventView> {
    events.map_values(|e: BlueprintEvent| e@)
}

} // verus!
