//! One blueprint instance: the stage it has reached, what it carries at that
//! stage, and the steps that take it from one stage to the next.
use crate::assets::{
    all_assets_loaded, asset_views, lemma_loaded_count_full, pending_assets, AssetLoadTracker,
    AssetStatus, AssetView, BlueprintAssetsLoadState, LoadStateView,
};
use crate::components::{
    AddToGameWorld, BlueprintChildrenReady, BlueprintInfo, BlueprintInfoView,
    BlueprintInstanceReady, BlueprintReadyForPostProcess, BlueprintSceneSpawned,
    BlueprintSpawning, HideUntilReady, OriginalChildren, SpawnHere, SpawnTrackRoot,
};
use crate::hierarchy::{
    all_pending, all_spawned, distinct_entries, find_nearest_instance, nearest_instance,
    with_spawned, HierarchyNode, SubBlueprintsSpawnTracker,
};
use vstd::prelude::*;

verus! {

/// The stages of an instance, in the order in which it passes through them.
#[derive(Clone, Copy, Debug, PartialEq, Eq, Structural)]
pub enum Stage {
    /// A spawn was asked for and nothing has been done yet.
    Requested,
    /// Some of the assets are not loaded yet.
    AssetsLoading,
    /// Nothing is left to load.
    AssetsReady,
    /// The scene exists below the anchor.
    SceneSpawned,
    /// Every nested instance is done.
    ChildrenReady,
    /// The wrapper node is merged into the anchor.
    PostProcessReady,
    /// The instance is ready.
    Ready,
}

impl Stage {
    /// The place of the stage in the order of the stages.
    pub open spec fn rank(self) -> nat {
        match self {
            Stage::Requested => 0,
            Stage::AssetsLoading => 1,
            Stage::AssetsReady => 2,
            Stage::SceneSpawned => 3,
            Stage::ChildrenReady => 4,
            Stage::PostProcessReady => 5,
            Stage::Ready => 6,
        }
    }

    /// `next` is the stage that follows `self`. Only loading may be passed
    /// over, by an instance that has nothing to load.
    pub open spec fn precedes(self, next: Stage) -> bool {
        next.rank() == self.rank() + 1 || (self == Stage::Requested && next == Stage::AssetsReady)
    }

    /// A step of the pipeline leaves an instance at its stage or takes it to
    /// the stage that follows.
    pub open spec fn steps_to(self, next: Stage) -> bool {
        next == self || self.precedes(next)
    }
}

/// The marker attributes that an instance carries at one stage.
#[derive(Clone, Copy, Debug, PartialEq, Eq, Structural)]
pub struct MarkerSet {
    pub spawn_here: Option<SpawnHere>,
    pub spawning: Option<BlueprintSpawning>,
    pub scene_spawned: Option<BlueprintSceneSpawned>,
    pub children_ready: Option<BlueprintChildrenReady>,
    pub ready_for_post_process: Option<BlueprintReadyForPostProcess>,
    pub instance_ready: Option<BlueprintInstanceReady>,
}

impl Stage {
    /// The request is carried until the instance is ready; the spawning marker
    /// from the first step until then; each later marker from its stage on;
    /// the post-process marker only while that stage lasts.
    pub open spec fn marker_set(self) -> MarkerSet {
        MarkerSet {
            spawn_here: if self.rank() < 6 {
                Some(SpawnHere)
            } else {
                None
            },
            spawning: if 1 <= self.rank() < 6 {
                Some(BlueprintSpawning)
            } else {
                None
            },
            scene_spawned: if self.rank() >= 3 {
                Some(BlueprintSceneSpawned)
            } else {
                None
            },
            children_ready: if self.rank() >= 4 {
                Some(BlueprintChildrenReady)
            } else {
                None
            },
            ready_for_post_process: if self.rank() == 5 {
                Some(BlueprintReadyForPostProcess)
            } else {
                None
            },
            instance_ready: if self.rank() == 6 {
                Some(BlueprintInstanceReady)
            } else {
                None
            },
        }
    }

    /// The marker attributes of an instance at this stage.
    pub fn markers(self) -> (set: MarkerSet)
        ensures
            set == self.marker_set(),
    {
        let mut set = MarkerSet {
            spawn_here: Some(SpawnHere),
            spawning: Some(BlueprintSpawning),
            scene_spawned: None,
            children_ready: None,
            ready_for_post_process: None,
            instance_ready: None,
        };
        match self {
            Stage::Requested => {
                set.spawning = None;
            },
            Stage::AssetsLoading => {},
            Stage::AssetsReady => {},
            Stage::SceneSpawned => {
                set.scene_spawned = Some(BlueprintSceneSpawned);
            },
            Stage::ChildrenReady => {
                set.scene_spawned = Some(BlueprintSceneSpawned);
                set.children_ready = Some(BlueprintChildrenReady);
            },
            Stage::PostProcessReady => {
                set.scene_spawned = Some(BlueprintSceneSpawned);
                set.children_ready = Some(BlueprintChildrenReady);
                set.ready_for_post_process = Some(BlueprintReadyForPostProcess);
            },
            Stage::Ready => {
                set.spawn_here = None;
                set.spawning = None;
                set.scene_spawned = Some(BlueprintSceneSpawned);
                set.children_ready = Some(BlueprintChildrenReady);
                set.instance_ready = Some(BlueprintInstanceReady);
            },
        }
        set
    }
}

/// A blueprint instance: an anchor object that names a blueprint, with the
/// stage it has reached and what it carries there.
#[derive(Debug)]
pub struct BlueprintInstance {
    /// The anchor.
    pub entity: u64,
    pub info: BlueprintInfo,
    pub hide_until_ready: Option<HideUntilReady>,
    pub add_to_game_world: Option<AddToGameWorld>,
    /// The request came with a placement of its own.
    pub placed: bool,
    pub stage: Stage,
    /// The assets being loaded. It is kept after loading, so that a change of
    /// one of the assets can be traced back to the instance.
    pub load_state: Option<BlueprintAssetsLoadState>,
    /// The children of the anchor before its scene was asked for.
    pub original_children: Option<OriginalChildren>,
    /// The instances nested directly in this one.
    pub sub_blueprints: Option<SubBlueprintsSpawnTracker>,
    /// The nearest enclosing instance.
    pub track_root: Option<SpawnTrackRoot>,
}

/// What the contracts read of a [`BlueprintInstance`].
pub struct InstanceView {
    pub entity: u64,
    pub info: BlueprintInfoView,
    pub hide_until_ready: bool,
    pub add_to_game_world: bool,
    pub placed: bool,
    pub stage: Stage,
    pub load_state: Option<LoadStateView>,
    pub original_children: Option<Seq<u64>>,
    pub sub_blueprints: Option<Seq<(u64, bool)>>,
    pub track_root: Option<u64>,
}

impl View for BlueprintInstance {
    type V = InstanceView;

    open spec fn view(&self) -> InstanceView {
        InstanceView {
            entity: self.entity,
            info: self.info@,
            hide_until_ready: self.hide_until_ready.is_some(),
            add_to_game_world: self.add_to_game_world.is_some(),
            placed: self.placed,
            stage: self.stage,
            load_state: match self.load_state {
                Some(state) => Some(state@),
                None => None,
            },
            original_children: match self.original_children {
                Some(children) => Some(children.0@),
                None => None,
            },
            sub_blueprints: match self.sub_blueprints {
                Some(tracker) => Some(tracker@),
                None => None,
            },
            track_root: match self.track_root {
                Some(root) => Some(root.0),
                None => None,
            },
        }
    }
}

/// The asset that holds the scene of the blueprint `info`, as a candidate for
/// loading.
pub open spec fn root_asset(info: BlueprintInfoView, id: u64, loaded: bool) -> AssetView {
    AssetView { name: info.name, path: info.path, id, loaded }
}

impl InstanceView {
    /// A fresh request.
    pub open spec fn requested(
        entity: u64,
        info: BlueprintInfoView,
        hide_until_ready: bool,
        add_to_game_world: bool,
        placed: bool,
        track_root: Option<u64>,
    ) -> InstanceView {
        InstanceView {
            entity,
            info,
            hide_until_ready,
            add_to_game_world,
            placed,
            stage: Stage::Requested,
            load_state: None,
            original_children: None,
            sub_blueprints: None,
            track_root,
        }
    }

    /// The first step. Of the candidates, those not loaded yet are kept,
    /// and the instance starts loading; with none of them it is past loading
    /// at once.
    pub open spec fn prepared(self, candidates: Seq<AssetView>) -> InstanceView {
        if self.stage != Stage::Requested {
            self
        } else if pending_assets(candidates).len() > 0 {
            InstanceView {
                stage: Stage::AssetsLoading,
                load_state: Some(LoadStateView::started(candidates)),
                ..self
            }
        } else {
            InstanceView { stage: Stage::AssetsReady, load_state: None, ..self }
        }
    }

    /// One poll of the loader. When every asset is resolved, loading is over.
    pub open spec fn polled(self, statuses: Seq<AssetStatus>) -> InstanceView {
        match self.load_state {
            Some(state) if self.stage == Stage::AssetsLoading => {
                let next = state.polled(statuses);
                InstanceView {
                    stage: if all_assets_loaded(next.asset_infos) {
                        Stage::AssetsReady
                    } else {
                        Stage::AssetsLoading
                    },
                    load_state: Some(next),
                    ..self
                }
            },
            _ => self,
        }
    }

    /// The instance is past loading and its scene was not asked for yet.
    pub open spec fn awaits_scene(self) -> bool {
        self.stage == Stage::AssetsReady && self.original_children.is_none()
    }

    /// The scene is asked for: the children that the anchor has now are noted.
    pub open spec fn scene_requested(self, children: Seq<u64>) -> InstanceView {
        if self.awaits_scene() {
            InstanceView { original_children: Some(children), ..self }
        } else {
            self
        }
    }

    /// The scene was asked for and the scene graph has not confirmed it yet.
    pub open spec fn awaits_confirmation(self) -> bool {
        self.stage == Stage::AssetsReady && self.original_children.is_some()
    }

    /// The scene graph confirms that the scene exists below the anchor.
    pub open spec fn scene_confirmed(self) -> InstanceView {
        if self.awaits_confirmation() {
            InstanceView { stage: Stage::SceneSpawned, ..self }
        } else {
            self
        }
    }

    /// The scene exists and the instances nested in it were not looked for yet.
    pub open spec fn awaits_survey(self) -> bool {
        self.stage == Stage::SceneSpawned && self.sub_blueprints.is_none()
    }

    /// The nested instances are looked for. An instance without a root takes
    /// its nearest enclosing instance as root. With nested instances it waits
    /// for them, all pending; without, its children are ready.
    pub open spec fn surveyed(self, ancestors: Seq<HierarchyNode>, nested: Seq<u64>) -> InstanceView {
        if self.awaits_survey() {
            let track_root = if self.track_root.is_none() {
                nearest_instance(ancestors)
            } else {
                self.track_root
            };
            if nested.len() > 0 {
                InstanceView { sub_blueprints: Some(all_pending(nested)), track_root, ..self }
            } else {
                InstanceView { stage: Stage::ChildrenReady, track_root, ..self }
            }
        } else {
            self
        }
    }

    /// The instance is found to be nested directly in `root`.
    pub open spec fn adopted(self, root: u64) -> InstanceView {
        InstanceView { track_root: Some(root), ..self }
    }

    /// The children that the anchor had before its scene was asked for.
    pub open spec fn snapshot(self) -> Seq<u64> {
        match self.original_children {
            Some(children) => children,
            None => Seq::empty(),
        }
    }

    /// The wrapper node is merged into the anchor: the note of the former
    /// children is used up.
    pub open spec fn transferred(self) -> InstanceView {
        if self.stage == Stage::ChildrenReady {
            InstanceView { stage: Stage::PostProcessReady, original_children: None, ..self }
        } else {
            self
        }
    }

    /// The nested instance `child` reports that it is done. When that leaves
    /// no entry pending, the children of a waiting instance are ready.
    pub open spec fn child_reported(self, child: u64) -> InstanceView {
        match self.sub_blueprints {
            Some(entries) => {
                let next = with_spawned(entries, child);
                InstanceView {
                    stage: if self.stage == Stage::SceneSpawned && all_spawned(next) {
                        Stage::ChildrenReady
                    } else {
                        self.stage
                    },
                    sub_blueprints: Some(next),
                    ..self
                }
            },
            None => self,
        }
    }

    /// The last step: the instance is ready.
    pub open spec fn finalized(self) -> InstanceView {
        if self.stage == Stage::PostProcessReady {
            InstanceView { stage: Stage::Ready, ..self }
        } else {
            self
        }
    }

    /// The instance tracks an asset that lives at `path`.
    pub open spec fn depends_on(self, path: Seq<char>) -> bool {
        match self.load_state {
            Some(state) => state.mentions(path),
            None => false,
        }
    }

    /// An asset at `path` has changed. An instance that tracks it starts
    /// over: it is a fresh request again, and keeps only its root.
    pub open spec fn reloaded(self, path: Seq<char>) -> InstanceView {
        if self.depends_on(path) {
            InstanceView {
                stage: Stage::Requested,
                load_state: None,
                original_children: None,
                sub_blueprints: None,
                ..self
            }
        } else {
            self
        }
    }

    /// What holds of an instance at every stage.
    pub open spec fn wf(self) -> bool {
        &&& self.stage == Stage::Requested ==> self.load_state.is_none()
        &&& self.stage == Stage::AssetsLoading ==> self.load_state.is_some()
        &&& self.load_state matches Some(state) ==> {
            &&& state.consistent()
            &&& state.asset_infos.len() > 0
            &&& state.all_loaded <==> all_assets_loaded(state.asset_infos)
            &&& state.all_loaded <==> self.stage != Stage::AssetsLoading
        }
        &&& self.original_children.is_some() ==> 2 <= self.stage.rank() <= 4
        &&& 3 <= self.stage.rank() <= 4 ==> self.original_children.is_some()
        &&& self.sub_blueprints matches Some(entries) ==> {
            &&& entries.len() > 0
            &&& distinct_entries(entries)
            &&& self.stage.rank() >= 3
            &&& self.stage == Stage::SceneSpawned <==> !all_spawned(entries)
        }
    }
}

impl BlueprintInstance {
    /// A fresh request on the anchor `entity`.
    pub fn new(
        entity: u64,
        info: BlueprintInfo,
        hide_until_ready: Option<HideUntilReady>,
        add_to_game_world: Option<AddToGameWorld>,
        placed: bool,
        track_root: Option<SpawnTrackRoot>,
    ) -> (instance: BlueprintInstance)
        ensures
            instance@ == InstanceView::requested(
                entity,
                info@,
                hide_until_ready.is_some(),
                add_to_game_world.is_some(),
                placed,
                match track_root {
                    Some(root) => Some(root.0),
                    None => None,
                },
            ),
    {
        BlueprintInstance {
            entity,
            info,
            hide_until_ready,
            add_to_game_world,
            placed,
            stage: Stage::Requested,
            load_state: None,
            original_children: None,
            sub_blueprints: None,
            track_root,
        }
    }

    /// The first step: starts loading, or finds that nothing is left to load.
    pub fn prepare(&mut self, candidates: &Vec<AssetLoadTracker>)
        ensures
            final(self)@ == old(self)@.prepared(asset_views(candidates@)),
    {
        if self.stage == Stage::Requested {
            match BlueprintAssetsLoadState::start(candidates) {
                Some(state) => {
                    self.stage = Stage::AssetsLoading;
                    self.load_state = Some(state);
                },
                None => {
                    self.stage = Stage::AssetsReady;
                    self.load_state = None;
                },
            }
        }
    }

    /// One poll of the loader, with its answers in the order of the assets.
    pub fn poll(&mut self, statuses: &Vec<AssetStatus>)
        ensures
            final(self)@ == old(self)@.polled(statuses@),
    {
        if self.stage == Stage::AssetsLoading {
            let mut done: bool = false;
            match &mut self.load_state {
                Some(state) => {
                    state.poll(statuses);
                    proof {
                        lemma_loaded_count_full(state@.asset_infos);
                    }
                    done = state.progress.loaded == state.progress.total;
                },
                None => {},
            }
            if done {
                self.stage = Stage::AssetsReady;
            }
        }
    }
    /// The scene is asked for: notes the children that the anchor has now.
    pub fn request_scene(&mut self, children: &Vec<u64>)
        ensures
            final(self)@ == old(self)@.scene_requested(children@),
    {
        if self.stage == Stage::AssetsReady && self.original_children.is_none() {
            self.original_children = Some(OriginalChildren(copy_entities(children)));
        }
    }

    /// The scene graph confirms that the scene exists below the anchor.
    pub fn confirm_scene(&mut self)
        ensures
            final(self)@ == old(self)@.scene_confirmed(),
    {
        if self.stage == Stage::AssetsReady && self.original_children.is_some() {
            self.stage = Stage::SceneSpawned;
        }
    }

    /// Takes the outcome of the search for nested instances.
    pub fn survey(&mut self, ancestors: &Vec<HierarchyNode>, nested: &Vec<u64>)
        ensures
            final(self)@ == old(self)@.surveyed(ancestors@, nested@),
    {
        if self.stage == Stage::SceneSpawned && self.sub_blueprints.is_none() {
            if self.track_root.is_none() {
                self.track_root = match find_nearest_instance(ancestors) {
                    Some(root) => Some(SpawnTrackRoot(root)),
                    None => None,
                };
            }
            if nested.len() > 0 {
                self.sub_blueprints = Some(SubBlueprintsSpawnTracker::new(nested));
            } else {
                self.stage = Stage::ChildrenReady;
            }
        }
    }

    /// Notes that the instance is nested directly in `root`.
    pub fn adopt(&mut self, root: u64)
        ensures
            final(self)@ == old(self)@.adopted(root),
    {
        self.track_root = Some(SpawnTrackRoot(root));
    }

    /// The wrapper node is merged into the anchor.
    pub fn transfer(&mut self)
        ensures
            final(self)@ == old(self)@.transferred(),
    {
        if self.stage == Stage::ChildrenReady {
            self.stage = Stage::PostProcessReady;
            self.original_children = None;
        }
    }

    /// The nested instance `child` reports that it is done.
    pub fn report_child(&mut self, child: u64)
        ensures
            final(self)@ == old(self)@.child_reported(child),
    {
        let mut all: bool = false;
        match &mut self.sub_blueprints {
            Some(tracker) => {
                all = tracker.mark_spawned(child);
            },
            None => {},
        }
        if all && self.stage == Stage::SceneSpawned {
            self.stage = Stage::ChildrenReady;
        }
    }

    /// The last step: the instance is ready.
    pub fn finalize(&mut self)
        ensures
            final(self)@ == old(self)@.finalized(),
    {
        if self.stage == Stage::PostProcessReady {
            self.stage = Stage::Ready;
        }
    }

    /// Whether the instance waits, or has waited, for an asset at `path`.
    pub fn depends_on(&self, path: &str) -> (found: bool)
        ensures
            found == self@.depends_on(path@),
    {
        match &self.load_state {
            Some(state) => state.mentions(path),
            None => false,
        }
    }

    /// An asset at `path` has changed: an instance that depends on it starts
    /// over. Says whether it did.
    pub fn reload(&mut self, path: &str) -> (restarted: bool)
        ensures
            final(self)@ == old(self)@.reloaded(path@),
            restarted == old(self)@.depends_on(path@),
    {
        if self.depends_on(path) {
            self.stage = Stage::Requested;
            self.load_state = None;
            self.original_children = None;
            self.sub_blueprints = None;
            true
        } else {
            false
        }
    }
}

/// A copy of `entities`.
pub fn copy_entities(entities: &Vec<u64>) -> (copy: Vec<u64>)
    ensures
        copy@ == entities@,
{
    let mut copy: Vec<u64> = Vec::new();
    for i in 0..entities.len()
        invariant
            copy@ =~= entities@.take(i as int),
    {
        copy.push(entities[i]);
    }
    proof {
        assert(entities@.take(entities@.len() as int) =~= entities@);
    }
    copy
}

} // verus!
