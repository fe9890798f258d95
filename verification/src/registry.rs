//! The instances that are alive, and the steps of the pipeline. Each step is
//! run once per tick for the instances it concerns; what it needs to know of
//! the scene graph and of the asset loader is handed to it, and what it wants
//! done there is handed back as commands.
use crate::assets::{AssetStatus, AssetView, LoadProgress};
use crate::commands::Command;
use crate::components::{
    event_views, AddToGameWorld, BlueprintEvent, BlueprintEventView, BlueprintInfo, BlueprintInfoView, HideUntilReady,
    SpawnTrackRoot,
};
use crate::hierarchy::{
    nested_instances, wrapper_root, DescendantView, ChildNodeView, HierarchyNode,
};
use crate::instance::{root_asset, BlueprintInstance, InstanceView, MarkerSet, Stage};
use crate::metadata::TemplateFormatError;
use vstd::prelude::*;

verus! {

/// Why the scene of an instance could not be asked for.
#[derive(Clone, Copy, Debug, PartialEq, Eq, Structural)]
pub enum SpawnError {
    /// The template does not meet the format.
    Template(TemplateFormatError),
    /// The instance is to be attached below the game world, and there is none.
    NoGameWorld,
}

/// The scene graph is not yet in the state that the merge of the wrapper node
/// needs. The instance stays as it is, and the step is tried again next tick.
#[derive(Clone, Copy, Debug, PartialEq, Eq, Structural)]
pub enum TimingAnomaly {
    /// The anchor has no children.
    NoChildren,
    /// Every child of the anchor was there before the scene was asked for.
    NoWrapperRoot,
}

/// The instances that are alive, and the notifications not yet collected.
#[derive(Debug)]
pub struct BlueprintRegistry {
    pub instances: Vec<BlueprintInstance>,
    pub events: Vec<BlueprintEvent>,
}

/// What the contracts read of a [`BlueprintRegistry`].
pub struct RegistryView {
    pub instances: Seq<InstanceView>,
    pub events: Seq<BlueprintEventView>,
}

/// The views of a sequence of instances, in order.
pub open spec fn instance_views(instances: Seq<BlueprintInstance>) -> Seq<InstanceView> {
    instances.map_values(|i: BlueprintInstance| i@)
}

impl View for BlueprintRegistry {
    type V = RegistryView;

    open spec fn view(&self) -> RegistryView {
        RegistryView {
            instances: instance_views(self.instances@),
            events: event_views(self.events@),
        }
    }
}

/// The assets that an instance of `info` may have to load: the scene asset of
/// the blueprint first, then the auxiliary assets that the template declares.
pub open spec fn candidates(
    info: BlueprintInfoView,
    root_id: u64,
    root_loaded: bool,
    auxiliary: Seq<AssetView>,
) -> Seq<AssetView> {
    seq![root_asset(info, root_id, root_loaded)] + auxiliary
}

/// The notification that the assets of `instance` are loaded.
pub open spec fn loaded_event(instance: InstanceView) -> BlueprintEventView {
    BlueprintEventView::AssetsLoaded {
        entity: instance.entity,
        blueprint_name: instance.info.name,
        blueprint_path: instance.info.path,
    }
}

/// The notification that the scene of `instance` is spawned.
pub open spec fn spawned_event(instance: InstanceView) -> BlueprintEventView {
    BlueprintEventView::Spawned {
        entity: instance.entity,
        blueprint_name: instance.info.name,
        blueprint_path: instance.info.path,
    }
}

/// The notifications that go with a step that took an instance from the stage
/// `was` to where `instance` is: one when nothing is left to load, one when
/// the scene exists.
pub open spec fn announcements(was: Stage, instance: InstanceView) -> Seq<BlueprintEventView> {
    if was != Stage::AssetsReady && instance.stage == Stage::AssetsReady {
        seq![loaded_event(instance)]
    } else if was != Stage::SceneSpawned && instance.stage == Stage::SceneSpawned {
        seq![spawned_event(instance)]
    } else {
        Seq::empty()
    }
}

/// The notification that `instance` is ready.
pub open spec fn ready_event(instance: InstanceView) -> BlueprintEventView {
    BlueprintEventView::InstanceReady {
        entity: instance.entity,
        blueprint_name: instance.info.name,
        blueprint_path: instance.info.path,
    }
}

/// One notification for each of `instances` that is about to become ready, in
/// order.
pub open spec fn ready_events(instances: Seq<InstanceView>) -> Seq<BlueprintEventView>
    decreases instances.len(),
{
    if instances.len() == 0 {
        Seq::empty()
    } else if instances.last().stage == Stage::PostProcessReady {
        ready_events(instances.drop_last()).push(ready_event(instances.last()))
    } else {
        ready_events(instances.drop_last())
    }
}

/// The commands that show again each of `instances` that is about to become
/// ready and was hidden until then, in order.
pub open spec fn reveal_commands(instances: Seq<InstanceView>) -> Seq<Command>
    decreases instances.len(),
{
    if instances.len() == 0 {
        Seq::empty()
    } else if instances.last().stage == Stage::PostProcessReady
        && instances.last().hide_until_ready {
        reveal_commands(instances.drop_last()).push(
            Command::SetVisibility { entity: instances.last().entity, visible: true },
        )
    } else {
        reveal_commands(instances.drop_last())
    }
}

/// The commands that destroy what is below each of `instances` that depends
/// on an asset at `path`, in order.
pub open spec fn reload_commands(instances: Seq<InstanceView>, path: Seq<char>) -> Seq<Command>
    decreases instances.len(),
{
    if instances.len() == 0 {
        Seq::empty()
    } else if instances.last().depends_on(path) {
        reload_commands(instances.drop_last(), path).push(
            Command::DespawnDescendants { entity: instances.last().entity },
        )
    } else {
        reload_commands(instances.drop_last(), path)
    }
}

/// The anchors of those of `instances` that are at `stage`, in order.
pub open spec fn anchors_at(instances: Seq<InstanceView>, stage: Stage) -> Seq<u64>
    decreases instances.len(),
{
    if instances.len() == 0 {
        Seq::empty()
    } else if instances.last().stage == stage {
        anchors_at(instances.drop_last(), stage).push(instances.last().entity)
    } else {
        anchors_at(instances.drop_last(), stage)
    }
}

/// The commands that ask for the scene of `instance`, or why it cannot be
/// asked for: the template must have a named sub-scene, of which the first is
/// taken, and an instance that is to be attached below the game world needs
/// one. Only an anchor that has a parent is attached there.
pub open spec fn scene_plan(
    instance: InstanceView,
    named_scenes: nat,
    has_parent: bool,
    game_world: Option<u64>,
) -> Result<Seq<Command>, SpawnError> {
    if named_scenes == 0 {
        Err(SpawnError::Template(TemplateFormatError::NoNamedScene))
    } else if instance.add_to_game_world && has_parent && game_world.is_none() {
        Err(SpawnError::NoGameWorld)
    } else {
        Ok(
            seq![
                Command::SpawnScene {
                    entity: instance.entity,
                    scene: 0,
                    identity_placement: !instance.placed,
                },
                Command::CaptureAnimations { entity: instance.entity },
            ] + (if instance.hide_until_ready {
                seq![Command::SetVisibility { entity: instance.entity, visible: false }]
            } else {
                Seq::empty()
            }) + (if instance.add_to_game_world && has_parent {
                seq![Command::AddChild { parent: game_world.unwrap(), child: instance.entity }]
            } else {
                Seq::empty()
            }),
        )
    }
}

/// The commands that record `root` on each of its nested instances.
pub open spec fn track_commands(nested: Seq<u64>, root: u64) -> Seq<Command> {
    Seq::new(nested.len(), |i: int| Command::TrackRoot { entity: nested[i], root })
}

/// The commands that merge the wrapper node into `anchor`: its attributes are
/// copied onto the anchor, its children move up to the anchor in their order,
/// and the wrapper node is destroyed.
pub open spec fn transfer_commands(anchor: u64, wrapper: ChildNodeView) -> Seq<Command> {
    seq![Command::CopyComponents { source: wrapper.entity, destination: anchor }] + Seq::new(
        wrapper.children.len(),
        |i: int| Command::AddChild { parent: anchor, child: wrapper.children[i] },
    ) + seq![Command::Despawn { entity: wrapper.entity }]
}

impl RegistryView {
    /// The instance on `entity` is at position `i`.
    pub open spec fn is_at(self, entity: u64, i: int) -> bool {
        &&& 0 <= i < self.instances.len()
        &&& self.instances[i].entity == entity
        &&& forall|j: int| 0 <= j < i ==> (#[trigger] self.instances[j]).entity != entity
    }

    /// The position of the instance on `entity`.
    pub open spec fn index_of(self, entity: u64) -> Option<int> {
        if exists|i: int| self.is_at(entity, i) {
            Some(choose|i: int| self.is_at(entity, i))
        } else {
            None
        }
    }

    /// The instance on `entity`.
    pub open spec fn instance_of(self, entity: u64) -> Option<InstanceView> {
        match self.index_of(entity) {
            Some(i) => Some(self.instances[i]),
            None => None,
        }
    }

    /// The registry with `instance` at position `i`.
    pub open spec fn with_instance(self, i: int, instance: InstanceView) -> RegistryView {
        RegistryView { instances: self.instances.update(i, instance), events: self.events }
    }

    /// The registry with `instance` at position `i`, and the notifications that
    /// go with the step that took it there queued.
    pub open spec fn advanced(self, i: int, instance: InstanceView) -> RegistryView {
        RegistryView {
            instances: self.instances.update(i, instance),
            events: self.events + announcements(self.instances[i].stage, instance),
        }
    }

    /// No two instances are on one anchor, and each instance is well formed.
    pub open spec fn wf(self) -> bool {
        &&& forall|i: int, j: int|
            0 <= i < self.instances.len() && 0 <= j < self.instances.len() && i != j ==> (
            #[trigger] self.instances[i]).entity != (#[trigger] self.instances[j]).entity
        &&& forall|i: int| 0 <= i < self.instances.len() ==> (#[trigger] self.instances[i]).wf()
    }

    /// A request is registered, unless its anchor has an instance already.
    pub open spec fn registered(self, instance: InstanceView) -> RegistryView {
        if self.index_of(instance.entity).is_some() {
            self
        } else {
            RegistryView { instances: self.instances.push(instance), events: self.events }
        }
    }

    /// The instance on `entity` is forgotten.
    pub open spec fn unregistered(self, entity: u64) -> RegistryView {
        match self.index_of(entity) {
            Some(i) => RegistryView { instances: self.instances.remove(i), events: self.events },
            None => self,
        }
    }

    /// The first step for the instance on `entity`. Where nothing is left to
    /// load, that is announced.
    pub open spec fn after_prepare(
        self,
        entity: u64,
        root_id: u64,
        root_loaded: bool,
        auxiliary: Seq<AssetView>,
    ) -> RegistryView {
        match self.index_of(entity) {
            Some(i) => self.advanced(
                i,
                self.instances[i].prepared(
                    candidates(self.instances[i].info, root_id, root_loaded, auxiliary),
                ),
            ),
            None => self,
        }
    }

    /// One poll of the loader for the instance on `entity`. Where that leaves
    /// nothing to load, that is announced.
    pub open spec fn after_poll(self, entity: u64, statuses: Seq<AssetStatus>) -> RegistryView {
        match self.index_of(entity) {
            Some(i) => self.advanced(i, self.instances[i].polled(statuses)),
            None => self,
        }
    }

    /// What asking for the scene of the instance on `entity` comes to. For an
    /// instance that does not await its scene there is nothing to do.
    pub open spec fn scene_outcome(
        self,
        entity: u64,
        named_scenes: nat,
        has_parent: bool,
        game_world: Option<u64>,
    ) -> Result<Seq<Command>, SpawnError> {
        match self.instance_of(entity) {
            Some(instance) if instance.awaits_scene() => scene_plan(
                instance,
                named_scenes,
                has_parent,
                game_world,
            ),
            _ => Ok(Seq::empty()),
        }
    }

    /// The scene of the instance on `entity` is asked for, unless that fails.
    pub open spec fn after_assets_ready(
        self,
        entity: u64,
        named_scenes: nat,
        children: Seq<u64>,
        has_parent: bool,
        game_world: Option<u64>,
    ) -> RegistryView {
        match self.index_of(entity) {
            Some(i) if self.scene_outcome(entity, named_scenes, has_parent, game_world).is_ok() => {
                self.with_instance(i, self.instances[i].scene_requested(children))
            },
            _ => self,
        }
    }

    /// The scene of the instance on `entity` is confirmed, and that is
    /// announced.
    pub open spec fn after_scene_added(self, entity: u64) -> RegistryView {
        match self.index_of(entity) {
            Some(i) => self.advanced(i, self.instances[i].scene_confirmed()),
            None => self,
        }
    }

    /// The instances that the search below `entity` finds nested directly in
    /// it. An instance that does not await the search finds none.
    pub open spec fn nested_found(self, entity: u64, descendants: Seq<DescendantView>) -> Seq<u64> {
        match self.instance_of(entity) {
            Some(instance) if instance.awaits_survey() => nested_instances(descendants, entity),
            _ => Seq::empty(),
        }
    }

    /// The search for the instances nested in the instance on `entity`: it
    /// takes the outcome, and each nested instance that is registered takes
    /// `entity` as its root.
    pub open spec fn after_scenes_spawned(
        self,
        entity: u64,
        ancestors: Seq<HierarchyNode>,
        descendants: Seq<DescendantView>,
    ) -> RegistryView {
        match self.index_of(entity) {
            Some(i) if self.instances[i].awaits_survey() => {
                let nested = nested_instances(descendants, entity);
                let surveyed = self.with_instance(i, self.instances[i].surveyed(ancestors, nested));
                RegistryView {
                    instances: Seq::new(
                        self.instances.len(),
                        |j: int|
                            if nested.contains(surveyed.instances[j].entity) {
                                surveyed.instances[j].adopted(entity)
                            } else {
                                surveyed.instances[j]
                            },
                    ),
                    events: self.events,
                }
            },
            _ => self,
        }
    }

    /// What merging the wrapper node of the instance on `entity` comes to. For
    /// an instance whose children are not just ready there is nothing to do.
    pub open spec fn transfer_outcome(self, entity: u64, children: Seq<ChildNodeView>) -> Result<
        Seq<Command>,
        TimingAnomaly,
    > {
        match self.instance_of(entity) {
            Some(instance) if instance.stage == Stage::ChildrenReady => {
                match wrapper_root(children, instance.snapshot()) {
                    Some(w) => Ok(transfer_commands(entity, children[w])),
                    None => if children.len() == 0 {
                        Err(TimingAnomaly::NoChildren)
                    } else {
                        Err(TimingAnomaly::NoWrapperRoot)
                    },
                }
            },
            _ => Ok(Seq::empty()),
        }
    }

    /// The instance on `child` is done: the root of `child`, where it is
    /// registered, takes note.
    pub open spec fn after_report(self, root: Option<u64>, child: u64) -> RegistryView {
        match root {
            Some(r) => match self.index_of(r) {
                Some(k) => self.with_instance(k, self.instances[k].child_reported(child)),
                None => self,
            },
            None => self,
        }
    }

    /// The wrapper node of the instance on `entity` is merged, unless the
    /// scene graph is not ready for it, and the root of the instance takes
    /// note.
    pub open spec fn after_transfer(self, entity: u64, children: Seq<ChildNodeView>) -> RegistryView {
        match self.index_of(entity) {
            Some(i) if self.instances[i].stage == Stage::ChildrenReady && self.transfer_outcome(
                entity,
                children,
            ).is_ok() => {
                self.with_instance(i, self.instances[i].transferred()).after_report(
                    self.instances[i].track_root,
                    entity,
                )
            },
            _ => self,
        }
    }

    /// Every instance that is due becomes ready, and a notification is queued
    /// for each.
    pub open spec fn after_finalize(self) -> RegistryView {
        RegistryView {
            instances: Seq::new(self.instances.len(), |i: int| self.instances[i].finalized()),
            events: self.events + ready_events(self.instances),
        }
    }

    /// An asset at `path` has changed: every instance that depends on it
    /// starts over.
    pub open spec fn after_reload(self, path: Seq<char>) -> RegistryView {
        RegistryView {
            instances: Seq::new(self.instances.len(), |i: int| self.instances[i].reloaded(path)),
            events: self.events,
        }
    }

    /// The position of an instance is the only one at which it is found.
    pub proof fn lemma_index_of(self, entity: u64, i: int)
        requires
            self.is_at(entity, i),
        ensures
            self.index_of(entity) == Some(i),
    {
        let k = choose|k: int| self.is_at(entity, k);
        assert(self.is_at(entity, k));
        if k < i {
            assert(self.instances[k].entity != entity);
        }
        if i < k {
            assert(self.instances[i].entity != entity);
        }
    }

    /// An anchor without an instance has no position.
    pub proof fn lemma_index_of_none(self, entity: u64)
        requires
            forall|j: int| 0 <= j < self.instances.len() ==> (#[trigger] self.instances[j]).entity != entity,
        ensures
            self.index_of(entity).is_none(),
    {
    }

    /// A position that is found holds an instance on the anchor asked for.
    pub proof fn lemma_index_of_some(self, entity: u64)
        requires
            self.index_of(entity).is_some(),
        ensures
            self.is_at(entity, self.index_of(entity).unwrap()),
    {
    }
}

impl BlueprintRegistry {
    /// A registry without instances.
    pub fn new() -> (registry: BlueprintRegistry)
        ensures
            registry@.instances.len() == 0,
            registry@.events.len() == 0,
            registry@.wf(),
    {
        BlueprintRegistry { instances: Vec::new(), events: Vec::new() }
    }

    /// The position of the instance on `entity`.
    pub fn find(&self, entity: u64) -> (found: Option<usize>)
        ensures
            match found {
                Some(i) => self@.index_of(entity) == Some(i as int) && i < self.instances@.len(),
                None => self@.index_of(entity).is_none(),
            },
    {
        for i in 0..self.instances.len()
            invariant
                forall|j: int| 0 <= j < i ==> (#[trigger] self@.instances[j]).entity != entity,
        {
            if self.instances[i].entity == entity {
                proof {
                    assert(self@.instances[i as int].entity == entity);
                    self@.lemma_index_of(entity, i as int);
                }
                return Some(i);
            }
        }
        proof {
            self@.lemma_index_of_none(entity);
        }
        None
    }

    /// The stage of the instance on `entity`.
    pub fn stage_of(&self, entity: u64) -> (stage: Option<Stage>)
        ensures
            stage == match self@.instance_of(entity) {
                Some(instance) => Some(instance.stage),
                None => None,
            },
    {
        match self.find(entity) {
            Some(i) => Some(self.instances[i].stage),
            None => None,
        }
    }

    /// The marker attributes that the instance on `entity` carries.
    pub fn markers_of(&self, entity: u64) -> (markers: Option<MarkerSet>)
        ensures
            markers == match self@.instance_of(entity) {
                Some(instance) => Some(instance.stage.marker_set()),
                None => None,
            },
    {
        match self.find(entity) {
            Some(i) => Some(self.instances[i].stage.markers()),
            None => None,
        }
    }

    /// How far loading has come for the instance on `entity`.
    pub fn progress_of(&self, entity: u64) -> (progress: Option<LoadProgress>)
        ensures
            progress == match self@.instance_of(entity) {
                Some(instance) => match instance.load_state {
                    Some(state) => Some(state.progress),
                    None => None,
                },
                None => None,
            },
    {
        match self.find(entity) {
            Some(i) => match &self.instances[i].load_state {
                Some(state) => Some(state.progress),
                None => None,
            },
            None => None,
        }
    }

    /// The anchors of the instances that are at `stage`: those that the step
    /// for that stage concerns in this tick.
    pub fn entities_at(&self, stage: Stage) -> (anchors: Vec<u64>)
        ensures
            anchors@ == anchors_at(self@.instances, stage),
    {
        let ghost all = self@.instances;
        let mut anchors: Vec<u64> = Vec::new();
        for i in 0..self.instances.len()
            invariant
                all == self@.instances,
                anchors@ == anchors_at(all.take(i as int), stage),
        {
            proof {
                assert(all.take(i + 1).drop_last() =~= all.take(i as int));
                assert(all.take(i + 1).last() == self.instances@[i as int]@);
            }
            if self.instances[i].stage == stage {
                anchors.push(self.instances[i].entity);
            }
        }
        proof {
            assert(all.take(self.instances@.len() as int) =~= all);
        }
        anchors
    }

    /// The root of the instance on `entity`.
    pub fn track_root_of(&self, entity: u64) -> (root: Option<SpawnTrackRoot>)
        ensures
            match root {
                Some(r) => self@.instance_of(entity).is_some() && self@.instance_of(
                    entity,
                ).unwrap().track_root == Some(r.0),
                None => self@.instance_of(entity).is_none() || self@.instance_of(
                    entity,
                ).unwrap().track_root.is_none(),
            },
    {
        match self.find(entity) {
            Some(i) => self.instances[i].track_root,
            None => None,
        }
    }

    /// Queues the notifications that go with a step that took the instance at
    /// position `i` from the stage `was` to where it is now.
    pub(crate) fn announce(&mut self, i: usize, was: Stage)
        requires
            i < old(self).instances@.len(),
        ensures
            final(self).instances == old(self).instances,
            final(self)@.instances == old(self)@.instances,
            final(self)@.events == old(self)@.events + announcements(was, old(self)@.instances[i as int]),
    {
        let ghost queued = event_views(self.events@);
        let now = self.instances[i].stage;
        if was != Stage::AssetsReady && now == Stage::AssetsReady {
            let event = BlueprintEvent::AssetsLoaded {
                entity: self.instances[i].entity,
                blueprint_name: self.instances[i].info.name.clone(),
                blueprint_path: self.instances[i].info.path.clone(),
            };
            assert(event@ == loaded_event(self@.instances[i as int]));
            self.events.push(event);
            proof {
                assert(event_views(self.events@) =~= queued.push(event@));
                assert(queued.push(event@) =~= queued + seq![event@]);
            }
        } else if was != Stage::SceneSpawned && now == Stage::SceneSpawned {
            let event = BlueprintEvent::Spawned {
                entity: self.instances[i].entity,
                blueprint_name: self.instances[i].info.name.clone(),
                blueprint_path: self.instances[i].info.path.clone(),
            };
            assert(event@ == spawned_event(self@.instances[i as int]));
            self.events.push(event);
            proof {
                assert(event_views(self.events@) =~= queued.push(event@));
                assert(queued.push(event@) =~= queued + seq![event@]);
            }
        } else {
            proof {
                assert(queued =~= queued + Seq::<BlueprintEventView>::empty());
            }
        }
    }

    /// Registers a request on the anchor `entity`. An anchor has one instance:
    /// a second request on it is turned down, which the result says.
    pub fn register(
        &mut self,
        entity: u64,
        info: BlueprintInfo,
        hide_until_ready: Option<HideUntilReady>,
        add_to_game_world: Option<AddToGameWorld>,
        placed: bool,
        track_root: Option<SpawnTrackRoot>,
    ) -> (added: bool)
        ensures
            added == old(self)@.index_of(entity).is_none(),
            final(self)@ == old(self)@.registered(
                InstanceView::requested(
                    entity,
                    info@,
                    hide_until_ready.is_some(),
                    add_to_game_world.is_some(),
                    placed,
                    match track_root {
                        Some(root) => Some(root.0),
                        None => None,
                    },
                ),
            ),
            old(self)@.wf() ==> final(self)@.wf(),
    {
        match self.find(entity) {
            Some(_) => false,
            None => {
                let instance = BlueprintInstance::new(
                    entity,
                    info,
                    hide_until_ready,
                    add_to_game_world,
                    placed,
                    track_root,
                );
                self.instances.push(instance);
                proof {
                    assert(self@.instances =~= old(self)@.instances.push(instance@));
                    if old(self)@.wf() {
                        crate::laws::lemma_register_wf(old(self)@, instance@);
                    }
                }
                true
            },
        }
    }

    /// Forgets the instance on `entity`, which the scene graph has destroyed.
    /// Says whether there was one.
    pub fn unregister(&mut self, entity: u64) -> (removed: bool)
        ensures
            removed == old(self)@.index_of(entity).is_some(),
            final(self)@ == old(self)@.unregistered(entity),
            old(self)@.wf() ==> final(self)@.wf(),
    {
        proof {
            if old(self)@.wf() {
                crate::laws::lemma_unregister_wf(old(self)@, entity);
            }
        }
        match self.find(entity) {
            Some(i) => {
                let _ = self.instances.remove(i);
                proof {
                    assert(self@.instances =~= old(self)@.instances.remove(i as int));
                }
                true
            },
            None => false,
        }
    }

    /// Collects the notifications that were queued since the last call, in the
    /// order in which they were queued.
    pub fn drain_events(&mut self) -> (events: Vec<BlueprintEvent>)
        ensures
            event_views(events@) == old(self)@.events,
            final(self)@.events.len() == 0,
            final(self)@.instances == old(self)@.instances,
            old(self)@.wf() ==> final(self)@.wf(),
    {
        let mut events: Vec<BlueprintEvent> = Vec::new();
        std::mem::swap(&mut events, &mut self.events);
        events
    }
}

} // verus!
