//! The steps of the pipeline, in the order in which a tick runs them.
use crate::assets::{asset_views, AssetLoadTracker, AssetStatus};
use crate::commands::Command;
use crate::components::{event_views, BlueprintEvent, BlueprintInfo};
use crate::hierarchy::{
    child_views, contains_entity, descendant_views, find_nested_instances, find_wrapper_root,
    ChildNode, Descendant, HierarchyNode,
};
use crate::instance::{root_asset, Stage};
use crate::laws::{
    lemma_loading_wf, lemma_prepare_wf, lemma_scenes_spawned_wf, lemma_sweeps_wf,
    lemma_transfer_wf,
};
use crate::metadata::TemplateFormatError;
use crate::registry::{
    candidates, ready_event, ready_events, reload_commands, reveal_commands,
    scene_plan, track_commands, transfer_commands, BlueprintRegistry, SpawnError, TimingAnomaly,
};
use vstd::prelude::*;

verus! {

/// The assets that an instance of `info` may have to load: the scene asset of
/// the blueprint first, then the auxiliary assets.
pub fn collect_candidates(
    info: &BlueprintInfo,
    root_id: u64,
    root_loaded: bool,
    auxiliary: &Vec<AssetLoadTracker>,
) -> (all: Vec<AssetLoadTracker>)
    ensures
        asset_views(all@) == candidates(info@, root_id, root_loaded, asset_views(auxiliary@)),
{
    let mut all: Vec<AssetLoadTracker> = Vec::new();
    all.push(
        AssetLoadTracker {
            name: info.name.clone(),
            path: info.path.clone(),
            id: root_id,
            loaded: root_loaded,
        },
    );
    for i in 0..auxiliary.len()
        invariant
            all@.len() == i + 1,
            all@[0]@ == root_asset(info@, root_id, root_loaded),
            forall|k: int| 0 <= k < i ==> (#[trigger] all@[k + 1])@ == auxiliary@[k]@,
    {
        let entry = auxiliary[i].duplicate();
        all.push(entry);
    }
    proof {
        let wanted = candidates(info@, root_id, root_loaded, asset_views(auxiliary@));
        assert forall|m: int| 0 <= m < wanted.len() implies asset_views(all@)[m] == wanted[m] by {
            if m > 0 {
                assert(all@[(m - 1) + 1]@ == auxiliary@[m - 1]@);
            }
        }
        assert(asset_views(all@) =~= wanted);
    }
    all
}

impl BlueprintRegistry {
    /// Starts the instance on `entity`, a fresh request.
    ///
    /// The loader was asked for the scene asset of the blueprint, which gave
    /// `root_id` and `root_loaded`, and for each auxiliary asset that the
    /// template declares, which gave the identifier and the `loaded` flag of
    /// each entry of `auxiliary`. The assets that are not loaded yet are
    /// tracked, and the instance starts loading; with none of them it is past
    /// loading at once, which is announced.
    pub fn blueprints_prepare_spawn(
        &mut self,
        entity: u64,
        root_id: u64,
        root_loaded: bool,
        auxiliary: &Vec<AssetLoadTracker>,
    )
        ensures
            final(self)@ == old(self)@.after_prepare(
                entity,
                root_id,
                root_loaded,
                asset_views(auxiliary@),
            ),
            old(self)@.wf() ==> final(self)@.wf(),
    {
        match self.find(entity) {
            Some(i) => {
                let all = collect_candidates(&self.instances[i].info, root_id, root_loaded, auxiliary);
                let total = all.len();
                let was = self.instances[i].stage;
                self.instances[i].prepare(&all);
                self.announce(i, was);
                proof {
                    assert(asset_views(all@).len() == total);
                    assert(asset_views(all@).len() == asset_views(auxiliary@).len() + 1);
                    if old(self)@.wf() {
                        lemma_prepare_wf(
                            old(self)@,
                            entity,
                            root_id,
                            root_loaded,
                            asset_views(auxiliary@),
                        );
                    }
                    assert(self@.instances =~= old(self)@.instances.update(
                        i as int,
                        self@.instances[i as int],
                    ));
                }
            },
            None => {},
        }
    }

    /// Polls the loader for the instance on `entity`, which is loading.
    ///
    /// `statuses` holds the loader's answers in the order of the assets of the
    /// instance. An asset is resolved when it is loaded with all it depends
    /// on, or when loading it has failed: a failed asset does not hold the
    /// instance up. When every asset is resolved, the instance is past
    /// loading, which is announced.
    pub fn blueprints_check_assets_loading(&mut self, entity: u64, statuses: &Vec<AssetStatus>)
        ensures
            final(self)@ == old(self)@.after_poll(entity, statuses@),
            old(self)@.wf() ==> final(self)@.wf(),
    {
        proof {
            if old(self)@.wf() {
                lemma_loading_wf(old(self)@, entity, statuses@, 0, Seq::empty(), false, None);
            }
        }
        match self.find(entity) {
            Some(i) => {
                let was = self.instances[i].stage;
                self.instances[i].poll(statuses);
                self.announce(i, was);
                proof {
                    assert(self@.instances =~= old(self)@.instances.update(
                        i as int,
                        self@.instances[i as int],
                    ));
                }
            },
            None => {},
        }
    }

    /// Asks for the scene of the instance on `entity`, which is past loading.
    ///
    /// `named_scenes` are the named sub-scenes of the template, `children` the
    /// children that the anchor has now, `has_parent` says whether the anchor
    /// has a parent, and `game_world` is the object that stands for the game
    /// world. The step is taken once: the children are noted, and the commands
    /// spawn the first named sub-scene, hide the anchor where the request asks
    /// for it, and attach the anchor below the game world where the request
    /// asks for it and the anchor has a parent. On an error the instance is as
    /// it was.
    pub fn blueprints_assets_ready(
        &mut self,
        entity: u64,
        named_scenes: &Vec<String>,
        children: &Vec<u64>,
        has_parent: bool,
        game_world: Option<u64>,
    ) -> (outcome: Result<Vec<Command>, SpawnError>)
        ensures
            match outcome {
                Ok(commands) => old(self)@.scene_outcome(
                    entity,
                    named_scenes@.len(),
                    has_parent,
                    game_world,
                ) == Ok::<Seq<Command>, SpawnError>(commands@),
                Err(e) => old(self)@.scene_outcome(
                    entity,
                    named_scenes@.len(),
                    has_parent,
                    game_world,
                ) == Err::<Seq<Command>, SpawnError>(e),
            },
            final(self)@ == old(self)@.after_assets_ready(
                entity,
                named_scenes@.len(),
                children@,
                has_parent,
                game_world,
            ),
            old(self)@.wf() ==> final(self)@.wf(),
    {
        proof {
            if old(self)@.wf() {
                lemma_loading_wf(
                    old(self)@,
                    entity,
                    Seq::empty(),
                    named_scenes@.len(),
                    children@,
                    has_parent,
                    game_world,
                );
            }
        }
        let mut commands: Vec<Command> = Vec::new();
        match self.find(entity) {
            Some(i) => {
                let awaits = self.instances[i].stage == Stage::AssetsReady
                    && self.instances[i].original_children.is_none();
                if awaits {
                    if named_scenes.len() == 0 {
                        return Err(SpawnError::Template(TemplateFormatError::NoNamedScene));
                    }
                    let attach = self.instances[i].add_to_game_world.is_some() && has_parent;
                    if attach && game_world.is_none() {
                        return Err(SpawnError::NoGameWorld);
                    }
                    commands.push(
                        Command::SpawnScene {
                            entity,
                            scene: 0,
                            identity_placement: !self.instances[i].placed,
                        },
                    );
                    commands.push(Command::CaptureAnimations { entity });
                    if self.instances[i].hide_until_ready.is_some() {
                        commands.push(Command::SetVisibility { entity, visible: false });
                    }
                    match game_world {
                        Some(world) => {
                            if attach {
                                commands.push(Command::AddChild { parent: world, child: entity });
                            }
                        },
                        None => {},
                    }
                    self.instances[i].request_scene(children);
                    proof {
                        old(self)@.lemma_index_of_some(entity);
                        assert(self@.instances =~= old(self)@.instances.update(
                            i as int,
                            self@.instances[i as int],
                        ));
                        let plan = scene_plan(
                            old(self)@.instances[i as int],
                            named_scenes@.len(),
                            has_parent,
                            game_world,
                        );
                        assert(plan.is_ok());
                        assert(commands@ =~= plan.unwrap());
                    }
                } else {
                    proof {
                        assert(self@.instances =~= old(self)@.instances.update(
                            i as int,
                            self@.instances[i as int],
                        ));
                    }
                }
            },
            None => {},
        }
        Ok(commands)
    }

    /// Takes the scene graph's word that the scene of the instance on `entity`
    /// exists below its anchor, and announces it.
    pub fn scene_instance_added(&mut self, entity: u64)
        ensures
            final(self)@ == old(self)@.after_scene_added(entity),
            old(self)@.wf() ==> final(self)@.wf(),
    {
        proof {
            if old(self)@.wf() {
                lemma_loading_wf(old(self)@, entity, Seq::empty(), 0, Seq::empty(), false, None);
            }
        }
        match self.find(entity) {
            Some(i) => {
                let was = self.instances[i].stage;
                self.instances[i].confirm_scene();
                self.announce(i, was);
                proof {
                    assert(self@.instances =~= old(self)@.instances.update(
                        i as int,
                        self@.instances[i as int],
                    ));
                }
            },
            None => {},
        }
    }

    /// Looks for the instances nested in the instance on `entity`, whose scene
    /// was just spawned.
    ///
    /// `ancestors` are the objects above the anchor, from its parent upwards,
    /// and `descendants` the objects below it, each with its own ancestors. An
    /// instance without a root takes the nearest instance above it as root. A
    /// descendant is nested directly in this instance when it is an instance
    /// and, on the way up from it, this instance is the first: such a
    /// descendant takes this instance as its root, and a command records that
    /// on it. With nested instances the instance waits for them; without, its
    /// children are ready.
    pub fn blueprints_scenes_spawned(
        &mut self,
        entity: u64,
        ancestors: &Vec<HierarchyNode>,
        descendants: &Vec<Descendant>,
    ) -> (commands: Vec<Command>)
        ensures
            commands@ == track_commands(
                old(self)@.nested_found(entity, descendant_views(descendants@)),
                entity,
            ),
            final(self)@ == old(self)@.after_scenes_spawned(
                entity,
                ancestors@,
                descendant_views(descendants@),
            ),
            old(self)@.wf() ==> final(self)@.wf(),
    {
        proof {
            if old(self)@.wf() {
                lemma_scenes_spawned_wf(
                    old(self)@,
                    entity,
                    ancestors@,
                    descendant_views(descendants@),
                );
            }
        }
        let mut commands: Vec<Command> = Vec::new();
        match self.find(entity) {
            Some(i) => {
                let awaits = self.instances[i].stage == Stage::SceneSpawned
                    && self.instances[i].sub_blueprints.is_none();
                if awaits {
                    let nested = find_nested_instances(descendants, entity);
                    self.instances[i].survey(ancestors, &nested);
                    let ghost surveyed = self@;
                    proof {
                        old(self)@.lemma_index_of_some(entity);
                        assert(surveyed.instances =~= old(self)@.instances.update(
                            i as int,
                            old(self)@.instances[i as int].surveyed(ancestors@, nested@),
                        ));
                    }
                    let total = self.instances.len();
                    for j in 0..total
                        invariant
                            total == self.instances@.len(),
                            total == surveyed.instances.len(),
                            self.events == old(self).events,
                            forall|k: int|
                                0 <= k < j ==> (#[trigger] self.instances@[k])@ == (if nested@.contains(
                                    surveyed.instances[k].entity,
                                ) {
                                    surveyed.instances[k].adopted(entity)
                                } else {
                                    surveyed.instances[k]
                                }),
                            forall|k: int|
                                j <= k < total ==> (#[trigger] self.instances@[k])@
                                    == surveyed.instances[k],
                    {
                        if contains_entity(&nested, self.instances[j].entity) {
                            self.instances[j].adopt(entity);
                        }
                    }
                    for j in 0..nested.len()
                        invariant
                            commands@ =~= track_commands(nested@.take(j as int), entity),
                    {
                        commands.push(Command::TrackRoot { entity: nested[j], root: entity });
                    }
                    proof {
                        assert(nested@.take(nested@.len() as int) =~= nested@);
                        assert(self@.instances =~= old(self)@.after_scenes_spawned(
                            entity,
                            ancestors@,
                            descendant_views(descendants@),
                        ).instances);
                    }
                } else {
                    proof {
                        old(self)@.lemma_index_of_some(entity);
                        assert(commands@ =~= track_commands(Seq::empty(), entity));
                    }
                }
            },
            None => {
                proof {
                    assert(commands@ =~= track_commands(Seq::empty(), entity));
                }
            },
        }
        commands
    }

    /// Merges the wrapper node of the instance on `entity`, whose children are
    /// ready, into its anchor.
    ///
    /// `children` are the children that the anchor has now, each with its own
    /// children. The wrapper node is the first child that the anchor did not
    /// have before its scene was asked for. The commands copy its attributes
    /// onto the anchor, move its children up to the anchor, and destroy it.
    /// The instance is then ready for post-processing, and its root, if it has
    /// one that waits for nested instances, takes note: when that leaves no
    /// nested instance pending, the children of the root are ready. Where the
    /// anchor has no child that is new, the scene graph is late: nothing
    /// changes, and the step is to be tried again.
    pub fn blueprints_transfer_components(&mut self, entity: u64, children: &Vec<ChildNode>) -> (outcome:
        Result<Vec<Command>, TimingAnomaly>)
        ensures
            match outcome {
                Ok(commands) => old(self)@.transfer_outcome(entity, child_views(children@))
                    == Ok::<Seq<Command>, TimingAnomaly>(commands@),
                Err(e) => old(self)@.transfer_outcome(entity, child_views(children@))
                    == Err::<Seq<Command>, TimingAnomaly>(e),
            },
            final(self)@ == old(self)@.after_transfer(entity, child_views(children@)),
            old(self)@.wf() ==> final(self)@.wf(),
    {
        proof {
            if old(self)@.wf() {
                lemma_transfer_wf(old(self)@, entity, child_views(children@));
            }
        }
        let mut commands: Vec<Command> = Vec::new();
        match self.find(entity) {
            Some(i) => {
                proof {
                    old(self)@.lemma_index_of_some(entity);
                }
                if self.instances[i].stage == Stage::ChildrenReady {
                    let found = match &self.instances[i].original_children {
                        Some(original) => find_wrapper_root(children, &original.0),
                        None => {
                            let nothing: Vec<u64> = Vec::new();
                            assert(nothing@ =~= old(self)@.instances[i as int].snapshot());
                            find_wrapper_root(children, &nothing)
                        },
                    };
                    match found {
                        Some(w) => {
                            let wrapper = &children[w];
                            let ghost wanted = transfer_commands(entity, wrapper@);
                            commands.push(
                                Command::CopyComponents {
                                    source: wrapper.entity,
                                    destination: entity,
                                },
                            );
                            for k in 0..wrapper.children.len()
                                invariant
                                    wanted == transfer_commands(entity, wrapper@),
                                    commands@.len() == k + 1,
                                    forall|m: int| 0 <= m < k + 1 ==> commands@[m] == wanted[m],
                            {
                                commands.push(
                                    Command::AddChild { parent: entity, child: wrapper.children[k] },
                                );
                            }
                            commands.push(Command::Despawn { entity: wrapper.entity });
                            proof {
                                assert(commands@ =~= wanted);
                            }
                            let root = self.instances[i].track_root;
                            self.instances[i].transfer();
                            let ghost merged = self@;
                            proof {
                                assert(merged.instances =~= old(self)@.instances.update(
                                    i as int,
                                    old(self)@.instances[i as int].transferred(),
                                ));
                            }
                            match root {
                                Some(r) => {
                                    match self.find(r.0) {
                                        Some(k) => {
                                            self.instances[k].report_child(entity);
                                            proof {
                                                assert(self@.instances =~= merged.instances.update(
                                                    k as int,
                                                    merged.instances[k as int].child_reported(
                                                        entity,
                                                    ),
                                                ));
                                            }
                                        },
                                        None => {},
                                    }
                                },
                                None => {},
                            }
                            Ok(commands)
                        },
                        None => {
                            if children.len() == 0 {
                                Err(TimingAnomaly::NoChildren)
                            } else {
                                Err(TimingAnomaly::NoWrapperRoot)
                            }
                        },
                    }
                } else {
                    Ok(commands)
                }
            },
            None => Ok(commands),
        }
    }

    /// Finishes every instance that is ready for it.
    ///
    /// Each such instance becomes ready for good, a notification with its
    /// anchor and the name and path of its blueprint is queued, and an anchor
    /// that was hidden until now is shown again.
    pub fn blueprints_finalize_instances(&mut self) -> (commands: Vec<Command>)
        ensures
            commands@ == reveal_commands(old(self)@.instances),
            final(self)@ == old(self)@.after_finalize(),
            old(self)@.wf() ==> final(self)@.wf(),
    {
        proof {
            if old(self)@.wf() {
                lemma_sweeps_wf(old(self)@, Seq::empty());
            }
        }
        let ghost before = self@;
        let mut commands: Vec<Command> = Vec::new();
        let total = self.instances.len();
        for i in 0..total
            invariant
                before == old(self)@,
                total == self.instances@.len(),
                total == before.instances.len(),
                forall|k: int|
                    0 <= k < i ==> (#[trigger] self.instances@[k])@ == before.instances[k].finalized(),
                forall|k: int| i <= k < total ==> (#[trigger] self.instances@[k])@ == before.instances[k],
                event_views(self.events@) =~= before.events + ready_events(
                    before.instances.take(i as int),
                ),
                commands@ == reveal_commands(before.instances.take(i as int)),
        {
            proof {
                assert(before.instances.take(i + 1).drop_last() =~= before.instances.take(i as int));
                assert(before.instances.take(i + 1).last() == before.instances[i as int]);
            }
            if self.instances[i].stage == Stage::PostProcessReady {
                let event = BlueprintEvent::InstanceReady {
                    entity: self.instances[i].entity,
                    blueprint_name: self.instances[i].info.name.clone(),
                    blueprint_path: self.instances[i].info.path.clone(),
                };
                assert(event@ == ready_event(before.instances[i as int]));
                let ghost queued = event_views(self.events@);
                self.events.push(event);
                proof {
                    let due = ready_events(before.instances.take(i as int));
                    assert(event_views(self.events@) =~= queued.push(event@));
                    assert((before.events + due).push(event@) =~= before.events + due.push(
                        event@,
                    ));
                }
                if self.instances[i].hide_until_ready.is_some() {
                    commands.push(
                        Command::SetVisibility { entity: self.instances[i].entity, visible: true },
                    );
                }
                self.instances[i].finalize();
            }
        }
        proof {
            assert(before.instances.take(total as int) =~= before.instances);
            assert(self@.instances =~= before.after_finalize().instances);
        }
        commands
    }

    /// Reacts to a change of the asset at `path`.
    ///
    /// Every instance that waits, or has waited, for an asset at that path
    /// starts over: what is below its anchor is destroyed, what it carried is
    /// dropped, and it is a fresh request again. The other instances stay as
    /// they are.
    pub fn react_to_asset_changes(&mut self, path: &str) -> (commands: Vec<Command>)
        ensures
            commands@ == reload_commands(old(self)@.instances, path@),
            final(self)@ == old(self)@.after_reload(path@),
            old(self)@.wf() ==> final(self)@.wf(),
    {
        proof {
            if old(self)@.wf() {
                lemma_sweeps_wf(old(self)@, path@);
            }
        }
        let ghost before = self@;
        let mut commands: Vec<Command> = Vec::new();
        let total = self.instances.len();
        for i in 0..total
            invariant
                before == old(self)@,
                total == self.instances@.len(),
                total == before.instances.len(),
                self.events == old(self).events,
                forall|k: int|
                    0 <= k < i ==> (#[trigger] self.instances@[k])@ == before.instances[k].reloaded(
                        path@,
                    ),
                forall|k: int| i <= k < total ==> (#[trigger] self.instances@[k])@ == before.instances[k],
                commands@ == reload_commands(before.instances.take(i as int), path@),
        {
            proof {
                assert(before.instances.take(i + 1).drop_last() =~= before.instances.take(i as int));
                assert(before.instances.take(i + 1).last() == before.instances[i as int]);
            }
            let entity = self.instances[i].entity;
            if self.instances[i].reload(path) {
                commands.push(Command::DespawnDescendants { entity });
            }
        }
        proof {
            assert(before.instances.take(total as int) =~= before.instances);
            assert(self@.instances =~= before.after_reload(path@).instances);
        }
        commands
    }
}

} // verus!
