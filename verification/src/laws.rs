//! What holds of the pipeline whatever the scene graph and the asset loader
//! report.
use crate::assets::{
    lemma_loaded_count_bound, lemma_loaded_count_full, lemma_pending_bound,
    loaded_count, pending_assets, polled_assets, resolved_at, AssetStatus, AssetView,
    LoadStateView,
};
use crate::commands::Command;
use crate::hierarchy::{
    all_pending, all_spawned, distinct_entries, lemma_nested_instances_distinct,
    nested_instances, with_spawned, ChildNodeView, DescendantView, HierarchyNode,
};
use crate::instance::{InstanceView, Stage};
use crate::registry::{candidates, reload_commands, RegistryView};
use crate::components::BlueprintInfoView;
use vstd::prelude::*;

verus! {

/// Marking more assets as loaded does not lower the count.
pub proof fn lemma_loaded_count_monotone(before: Seq<AssetView>, after: Seq<AssetView>)
    requires
        before.len() == after.len(),
        forall|i: int| 0 <= i < before.len() && (#[trigger] before[i]).loaded ==> after[i].loaded,
    ensures
        loaded_count(before) <= loaded_count(after),
    decreases before.len(),
{
    if before.len() > 0 {
        assert(before[before.len() - 1].loaded ==> after[after.len() - 1].loaded);
        assert forall|i: int|
            0 <= i < before.drop_last().len() && (#[trigger] before.drop_last()[i]).loaded implies after.drop_last()[i].loaded by {
            assert(before[i].loaded ==> after[i].loaded);
        }
        lemma_loaded_count_monotone(before.drop_last(), after.drop_last());
    }
}

/// None of the assets that are kept as pending is marked as loaded.
pub proof fn lemma_pending_none_loaded(assets: Seq<AssetView>)
    ensures
        forall|i: int|
            0 <= i < pending_assets(assets).len() ==> !(#[trigger] pending_assets(assets)[i]).loaded,
        loaded_count(pending_assets(assets)) == 0,
    decreases assets.len(),
{
    if assets.len() > 0 {
        lemma_pending_none_loaded(assets.drop_last());
        if !assets.last().loaded {
            let kept = pending_assets(assets);
            assert(kept.drop_last() =~= pending_assets(assets.drop_last()));
        }
    }
}

/// Across polls the progress of an instance does not fall, as long as the
/// loader does not take back that an asset is resolved; the number of assets
/// stays the same in any case.
pub proof fn law_progress_never_falls(state: LoadStateView, statuses: Seq<AssetStatus>)
    requires
        state.consistent(),
        forall|i: int|
            0 <= i < state.asset_infos.len() && (#[trigger] state.asset_infos[i]).loaded
                ==> resolved_at(statuses, i),
    ensures
        state.polled(statuses).consistent(),
        state.polled(statuses).progress.total == state.progress.total,
        state.polled(statuses).progress.loaded >= state.progress.loaded,
{
    let after = polled_assets(state.asset_infos, statuses);
    lemma_loaded_count_bound(after);
    lemma_loaded_count_monotone(state.asset_infos, after);
}

/// The progress of an instance is one exactly when all its assets are noted
/// as loaded.
pub proof fn law_progress_complete_iff_all_loaded(instance: InstanceView)
    requires
        instance.wf(),
        instance.load_state.is_some(),
    ensures
        instance.load_state.unwrap().all_loaded <==> instance.load_state.unwrap().progress.complete(),
{
    lemma_loaded_count_full(instance.load_state.unwrap().asset_infos);
}

/// Every step leaves a well-formed instance well formed.
pub proof fn law_instance_stays_well_formed(
    instance: InstanceView,
    candidates: Seq<AssetView>,
    statuses: Seq<AssetStatus>,
    children: Seq<u64>,
    ancestors: Seq<HierarchyNode>,
    nested: Seq<u64>,
    root: u64,
    child: u64,
    path: Seq<char>,
)
    requires
        instance.wf(),
        candidates.len() <= usize::MAX,
        nested.no_duplicates(),
    ensures
        instance.prepared(candidates).wf(),
        instance.polled(statuses).wf(),
        instance.scene_requested(children).wf(),
        instance.scene_confirmed().wf(),
        instance.surveyed(ancestors, nested).wf(),
        instance.adopted(root).wf(),
        instance.transferred().wf(),
        instance.child_reported(child).wf(),
        instance.finalized().wf(),
        instance.reloaded(path).wf(),
{
    assert(instance.prepared(candidates).wf()) by {
        lemma_pending_bound(candidates);
        lemma_pending_none_loaded(candidates);
        let kept = pending_assets(candidates);
        if kept.len() > 0 {
            assert(!kept[0].loaded);
        }
    }
    assert(instance.polled(statuses).wf()) by {
        if instance.stage == Stage::AssetsLoading {
            let state = instance.load_state.unwrap();
            let after = polled_assets(state.asset_infos, statuses);
            lemma_loaded_count_bound(after);
        }
    }
    assert(instance.surveyed(ancestors, nested).wf()) by {
        if instance.awaits_survey() && nested.len() > 0 {
            let entries = all_pending(nested);
            assert(!entries[0].1);
            assert(distinct_entries(entries));
        }
    }
    assert(instance.child_reported(child).wf()) by {
        if instance.sub_blueprints.is_some() {
            let entries = instance.sub_blueprints.unwrap();
            let next = with_spawned(entries, child);
            assert(distinct_entries(next));
            if all_spawned(entries) {
                assert forall|i: int| 0 <= i < next.len() implies (#[trigger] next[i]).1 by {
                    assert(entries[i].1);
                }
            }
        }
    }
}

/// A step takes an instance to the stage it is at or to the stage that
/// follows: no stage is passed over, but for loading, which is passed over
/// exactly by an instance that has nothing to load. Only a change of an asset
/// takes an instance back, and then to the start.
pub proof fn law_stages_in_order(
    instance: InstanceView,
    candidates: Seq<AssetView>,
    statuses: Seq<AssetStatus>,
    children: Seq<u64>,
    ancestors: Seq<HierarchyNode>,
    nested: Seq<u64>,
    root: u64,
    child: u64,
    path: Seq<char>,
)
    ensures
        instance.stage.steps_to(instance.prepared(candidates).stage),
        instance.stage == Stage::Requested ==> (instance.prepared(candidates).stage
            == Stage::AssetsReady <==> pending_assets(candidates).len() == 0),
        instance.stage.steps_to(instance.polled(statuses).stage),
        instance.stage.steps_to(instance.scene_requested(children).stage),
        instance.stage.steps_to(instance.scene_confirmed().stage),
        instance.stage.steps_to(instance.surveyed(ancestors, nested).stage),
        instance.stage.steps_to(instance.adopted(root).stage),
        instance.stage.steps_to(instance.transferred().stage),
        instance.stage.steps_to(instance.child_reported(child).stage),
        instance.stage.steps_to(instance.finalized().stage),
        instance.reloaded(path).stage == instance.stage || instance.reloaded(path).stage
            == Stage::Requested,
{
}

/// An instance that waits for nested instances has its children ready only
/// once every nested instance is done.
pub proof fn law_children_ready_needs_all_spawned(instance: InstanceView)
    requires
        instance.wf(),
        instance.sub_blueprints.is_some(),
        instance.stage.rank() >= Stage::ChildrenReady.rank(),
    ensures
        all_spawned(instance.sub_blueprints.unwrap()),
{
}

/// When a nested instance reports that it is done, the children of the
/// waiting instance become ready exactly if that report leaves no entry
/// pending: the entry of the reporting instance was the last one.
pub proof fn law_last_report_makes_children_ready(instance: InstanceView, child: u64)
    requires
        instance.wf(),
        instance.stage == Stage::SceneSpawned,
        instance.sub_blueprints.is_some(),
    ensures
        instance.child_reported(child).stage == Stage::ChildrenReady <==> forall|i: int|
            0 <= i < instance.sub_blueprints.unwrap().len() ==> (
            #[trigger] instance.sub_blueprints.unwrap()[i]).1 || instance.sub_blueprints.unwrap()[i].0
                == child,
        instance.child_reported(child).stage == Stage::ChildrenReady ==> exists|i: int|
            0 <= i < instance.sub_blueprints.unwrap().len() && (
            #[trigger] instance.sub_blueprints.unwrap()[i]) == (child, false),
        instance.child_reported(child).stage != Stage::ChildrenReady ==> instance.child_reported(
            child,
        ).stage == Stage::SceneSpawned,
{
    let entries = instance.sub_blueprints.unwrap();
    let next = with_spawned(entries, child);
    if all_spawned(next) {
        assert forall|i: int| 0 <= i < entries.len() implies (#[trigger] entries[i]).1
            || entries[i].0 == child by {
            assert(next[i].1);
        }
        let k = choose|k: int| 0 <= k < entries.len() && !(#[trigger] entries[k]).1;
        assert(next[k].1);
        assert(entries[k] == (child, false));
    }
    if forall|i: int| 0 <= i < entries.len() ==> (#[trigger] entries[i]).1 || entries[i].0 == child {
        assert forall|i: int| 0 <= i < next.len() implies (#[trigger] next[i]).1 by {
            assert(entries[i].1 || entries[i].0 == child);
        }
    }
}

/// The command that destroys what is below an instance is among the commands
/// of a reload exactly for the instances that depend on the changed asset.
pub proof fn lemma_reload_commands(instances: Seq<InstanceView>, path: Seq<char>, entity: u64)
    ensures
        reload_commands(instances, path).contains(Command::DespawnDescendants { entity })
            <==> exists|i: int|
            0 <= i < instances.len() && (#[trigger] instances[i]).entity == entity
                && instances[i].depends_on(path),
    decreases instances.len(),
{
    let wanted = Command::DespawnDescendants { entity };
    if instances.len() == 0 {
        assert(!reload_commands(instances, path).contains(wanted));
    } else {
        let rest = instances.drop_last();
        let last = instances.last();
        lemma_reload_commands(rest, path, entity);
        let before = reload_commands(rest, path);
        if before.contains(wanted) {
            let i = choose|i: int|
                0 <= i < rest.len() && (#[trigger] rest[i]).entity == entity && rest[i].depends_on(
                    path,
                );
            assert(instances[i] == rest[i]);
            let k = choose|k: int| 0 <= k < before.len() && before[k] == wanted;
            if last.depends_on(path) {
                assert(before.push(Command::DespawnDescendants { entity: last.entity })[k]
                    == wanted);
            }
        }
        if exists|i: int|
            0 <= i < instances.len() && (#[trigger] instances[i]).entity == entity
                && instances[i].depends_on(path) {
            let i = choose|i: int|
                0 <= i < instances.len() && (#[trigger] instances[i]).entity == entity
                    && instances[i].depends_on(path);
            if i < rest.len() {
                assert(rest[i] == instances[i]);
                assert(before.contains(wanted));
            } else {
                let all = before.push(wanted);
                assert(all[before.len() as int] == wanted);
            }
        }
        if reload_commands(instances, path).contains(wanted) && !before.contains(wanted) {
            let all = reload_commands(instances, path);
            let k = choose|k: int| 0 <= k < all.len() && all[k] == wanted;
            if last.depends_on(path) {
                if k < before.len() {
                    assert(before[k] == wanted);
                }
                assert(last.entity == entity);
                assert(instances[instances.len() - 1] == last);
            }
        }
    }
}

/// A change of the asset at `path` takes every instance that depends on it
/// back to the start, with nothing left of what it carried, and has
/// everything below its anchor destroyed. An instance that does not depend on
/// the asset is untouched, and nothing below it is destroyed on its account.
pub proof fn law_reload_restarts_dependents_only(registry: RegistryView, path: Seq<char>, i: int)
    requires
        registry.wf(),
        0 <= i < registry.instances.len(),
    ensures
        registry.after_reload(path).instances.len() == registry.instances.len(),
        registry.after_reload(path).events == registry.events,
        registry.instances[i].depends_on(path) ==> {
            let after = registry.after_reload(path).instances[i];
            &&& after.entity == registry.instances[i].entity
            &&& after.info == registry.instances[i].info
            &&& after.stage == Stage::Requested
            &&& after.load_state.is_none()
            &&& after.original_children.is_none()
            &&& after.sub_blueprints.is_none()
            &&& reload_commands(registry.instances, path).contains(
                Command::DespawnDescendants { entity: after.entity },
            )
        },
        !registry.instances[i].depends_on(path) ==> {
            &&& registry.after_reload(path).instances[i] == registry.instances[i]
            &&& !reload_commands(registry.instances, path).contains(
                Command::DespawnDescendants { entity: registry.instances[i].entity },
            )
        },
{
    let entity = registry.instances[i].entity;
    lemma_reload_commands(registry.instances, path, entity);
    if !registry.instances[i].depends_on(path) {
        if reload_commands(registry.instances, path).contains(
            Command::DespawnDescendants { entity },
        ) {
            let k = choose|k: int|
                0 <= k < registry.instances.len() && (#[trigger] registry.instances[k]).entity
                    == entity && registry.instances[k].depends_on(path);
            assert(k == i);
        }
    }
}

/// After a reload, the first step gives an instance that depended on the
/// changed asset a fresh record of the assets it waits for.
pub proof fn law_reload_then_prepare_tracks_afresh(
    instance: InstanceView,
    path: Seq<char>,
    candidates: Seq<AssetView>,
)
    requires
        instance.depends_on(path),
    ensures
        instance.reloaded(path).prepared(candidates).load_state == (if pending_assets(
            candidates,
        ).len() > 0 {
            Some(LoadStateView::started(candidates))
        } else {
            None
        }),
{
}

/// An anchor that some instance is on has a position.
pub proof fn lemma_known_has_index(registry: RegistryView, entity: u64, j: int)
    requires
        0 <= j < registry.instances.len(),
        registry.instances[j].entity == entity,
    ensures
        registry.index_of(entity).is_some(),
    decreases j,
{
    if forall|k: int| 0 <= k < j ==> (#[trigger] registry.instances[k]).entity != entity {
        assert(registry.is_at(entity, j));
    } else {
        let k = choose|k: int| 0 <= k < j && (#[trigger] registry.instances[k]).entity == entity;
        lemma_known_has_index(registry, entity, k);
    }
}

/// Putting a well-formed instance in the place of one on the same anchor
/// leaves a well-formed registry well formed.
pub proof fn lemma_with_instance_wf(registry: RegistryView, i: int, instance: InstanceView)
    requires
        registry.wf(),
        0 <= i < registry.instances.len(),
        instance.wf(),
        instance.entity == registry.instances[i].entity,
    ensures
        registry.with_instance(i, instance).wf(),
{
    let after = registry.with_instance(i, instance);
    assert forall|a: int, b: int|
        0 <= a < after.instances.len() && 0 <= b < after.instances.len() && a != b implies (
    #[trigger] after.instances[a]).entity != (#[trigger] after.instances[b]).entity by {
        assert(after.instances[a].entity == registry.instances[a].entity);
        assert(after.instances[b].entity == registry.instances[b].entity);
    }
    assert forall|a: int| 0 <= a < after.instances.len() implies (#[trigger] after.instances[a]).wf() by {
        if a != i {
            assert(after.instances[a] == registry.instances[a]);
        }
    }
}

/// A registry whose instances are, place by place, well formed and on the
/// anchors of a well-formed registry is well formed.
pub proof fn lemma_same_anchors_wf(registry: RegistryView, after: RegistryView)
    requires
        registry.wf(),
        after.instances.len() == registry.instances.len(),
        forall|a: int|
            0 <= a < after.instances.len() ==> (#[trigger] after.instances[a]).entity
                == registry.instances[a].entity && after.instances[a].wf(),
    ensures
        after.wf(),
{
    assert forall|a: int, b: int|
        0 <= a < after.instances.len() && 0 <= b < after.instances.len() && a != b implies (
    #[trigger] after.instances[a]).entity != (#[trigger] after.instances[b]).entity by {
        assert(after.instances[a].entity == registry.instances[a].entity);
        assert(after.instances[b].entity == registry.instances[b].entity);
    }
}

/// Registering a request leaves a well-formed registry well formed.
pub proof fn lemma_register_wf(registry: RegistryView, fresh: InstanceView)
    requires
        registry.wf(),
        fresh.wf(),
    ensures
        registry.registered(fresh).wf(),
{
    let entity = fresh.entity;
    if registry.index_of(entity).is_none() {
        let after = registry.registered(fresh);
        assert forall|j: int| 0 <= j < registry.instances.len() implies (
        #[trigger] registry.instances[j]).entity != entity by {
            if registry.instances[j].entity == entity {
                lemma_known_has_index(registry, entity, j);
            }
        }
        assert forall|a: int, b: int|
            0 <= a < after.instances.len() && 0 <= b < after.instances.len() && a != b implies (
        #[trigger] after.instances[a]).entity != (#[trigger] after.instances[b]).entity by {
            if a < registry.instances.len() {
                assert(after.instances[a] == registry.instances[a]);
            }
            if b < registry.instances.len() {
                assert(after.instances[b] == registry.instances[b]);
            }
        }
        assert forall|a: int| 0 <= a < after.instances.len() implies (
        #[trigger] after.instances[a]).wf() by {
            if a < registry.instances.len() {
                assert(after.instances[a] == registry.instances[a]);
            }
        }
    }
}

/// Forgetting an instance leaves a well-formed registry well formed.
pub proof fn lemma_unregister_wf(registry: RegistryView, entity: u64)
    requires
        registry.wf(),
    ensures
        registry.unregistered(entity).wf(),
{
    if registry.index_of(entity).is_some() {
        let i = registry.index_of(entity).unwrap();
        registry.lemma_index_of_some(entity);
        let after = registry.unregistered(entity);
        assert forall|a: int, b: int|
            0 <= a < after.instances.len() && 0 <= b < after.instances.len() && a != b implies (
        #[trigger] after.instances[a]).entity != (#[trigger] after.instances[b]).entity by {
            let from_a = if a < i { a } else { a + 1 };
            let from_b = if b < i { b } else { b + 1 };
            assert(after.instances[a] == registry.instances[from_a]);
            assert(after.instances[b] == registry.instances[from_b]);
        }
        assert forall|a: int| 0 <= a < after.instances.len() implies (
        #[trigger] after.instances[a]).wf() by {
            let from_a = if a < i { a } else { a + 1 };
            assert(after.instances[a] == registry.instances[from_a]);
        }
    }
}

/// The first step leaves a well-formed registry well formed.
pub proof fn lemma_prepare_wf(
    registry: RegistryView,
    entity: u64,
    root_id: u64,
    root_loaded: bool,
    auxiliary: Seq<AssetView>,
)
    requires
        registry.wf(),
        auxiliary.len() < usize::MAX,
    ensures
        registry.after_prepare(entity, root_id, root_loaded, auxiliary).wf(),
{
    if registry.index_of(entity).is_some() {
        let i = registry.index_of(entity).unwrap();
        registry.lemma_index_of_some(entity);
        let instance = registry.instances[i];
        let all = candidates(instance.info, root_id, root_loaded, auxiliary);
        law_instance_stays_well_formed(
            instance,
            all,
            Seq::empty(),
            Seq::empty(),
            Seq::empty(),
            Seq::empty(),
            entity,
            entity,
            Seq::empty(),
        );
        lemma_with_instance_wf(registry, i, instance.prepared(all));
        assert(registry.advanced(i, instance.prepared(all)).instances == registry.with_instance(
            i,
            instance.prepared(all),
        ).instances);
    }
}

/// A poll, the request for a scene and its confirmation leave a well-formed
/// registry well formed.
pub proof fn lemma_loading_wf(
    registry: RegistryView,
    entity: u64,
    statuses: Seq<AssetStatus>,
    named_scenes: nat,
    children: Seq<u64>,
    has_parent: bool,
    game_world: Option<u64>,
)
    requires
        registry.wf(),
    ensures
        registry.after_poll(entity, statuses).wf(),
        registry.after_assets_ready(entity, named_scenes, children, has_parent, game_world).wf(),
        registry.after_scene_added(entity).wf(),
{
    if registry.index_of(entity).is_some() {
        let i = registry.index_of(entity).unwrap();
        registry.lemma_index_of_some(entity);
        let instance = registry.instances[i];
        law_instance_stays_well_formed(
            instance,
            Seq::empty(),
            statuses,
            children,
            Seq::empty(),
            Seq::empty(),
            entity,
            entity,
            Seq::empty(),
        );
        lemma_with_instance_wf(registry, i, instance.polled(statuses));
        lemma_with_instance_wf(registry, i, instance.scene_requested(children));
        lemma_with_instance_wf(registry, i, instance.scene_confirmed());
        assert(registry.advanced(i, instance.polled(statuses)).instances == registry.with_instance(
            i,
            instance.polled(statuses),
        ).instances);
        assert(registry.advanced(i, instance.scene_confirmed()).instances
            == registry.with_instance(i, instance.scene_confirmed()).instances);
    }
}

/// The search for nested instances leaves a well-formed registry well formed.
pub proof fn lemma_scenes_spawned_wf(
    registry: RegistryView,
    entity: u64,
    ancestors: Seq<HierarchyNode>,
    descendants: Seq<DescendantView>,
)
    requires
        registry.wf(),
    ensures
        registry.after_scenes_spawned(entity, ancestors, descendants).wf(),
{
    if registry.index_of(entity).is_some() {
        let i = registry.index_of(entity).unwrap();
        registry.lemma_index_of_some(entity);
        let instance = registry.instances[i];
        if instance.awaits_survey() {
            let nested = nested_instances(descendants, entity);
            lemma_nested_instances_distinct(descendants, entity);
            law_instance_stays_well_formed(
                instance,
                Seq::empty(),
                Seq::empty(),
                Seq::empty(),
                ancestors,
                nested,
                entity,
                entity,
                Seq::empty(),
            );
            let surveyed = registry.with_instance(i, instance.surveyed(ancestors, nested));
            lemma_with_instance_wf(registry, i, instance.surveyed(ancestors, nested));
            let after = registry.after_scenes_spawned(entity, ancestors, descendants);
            assert forall|a: int| 0 <= a < after.instances.len() implies (
            #[trigger] after.instances[a]).entity == registry.instances[a].entity
                && after.instances[a].wf() by {
                assert(surveyed.instances[a].wf());
                assert(surveyed.instances[a].adopted(entity).wf());
                if a != i {
                    assert(surveyed.instances[a] == registry.instances[a]);
                }
            }
            lemma_same_anchors_wf(registry, after);
        }
    }
}

/// The merge of a wrapper node leaves a well-formed registry well formed.
pub proof fn lemma_transfer_wf(registry: RegistryView, entity: u64, current: Seq<ChildNodeView>)
    requires
        registry.wf(),
    ensures
        registry.after_transfer(entity, current).wf(),
{
    if registry.index_of(entity).is_some() {
        let i = registry.index_of(entity).unwrap();
        registry.lemma_index_of_some(entity);
        let instance = registry.instances[i];
        if instance.stage == Stage::ChildrenReady && registry.transfer_outcome(entity, current).is_ok() {
            law_instance_stays_well_formed(
                instance,
                Seq::empty(),
                Seq::empty(),
                Seq::empty(),
                Seq::empty(),
                Seq::empty(),
                entity,
                entity,
                Seq::empty(),
            );
            let merged = registry.with_instance(i, instance.transferred());
            lemma_with_instance_wf(registry, i, instance.transferred());
            match instance.track_root {
                Some(r) => {
                    if merged.index_of(r).is_some() {
                        let k = merged.index_of(r).unwrap();
                        merged.lemma_index_of_some(r);
                        law_instance_stays_well_formed(
                            merged.instances[k],
                            Seq::empty(),
                            Seq::empty(),
                            Seq::empty(),
                            Seq::empty(),
                            Seq::empty(),
                            entity,
                            entity,
                            Seq::empty(),
                        );
                        lemma_with_instance_wf(merged, k, merged.instances[k].child_reported(entity));
                    }
                },
                None => {},
            }
        }
    }
}

/// The last step and a reload leave a well-formed registry well formed.
pub proof fn lemma_sweeps_wf(registry: RegistryView, path: Seq<char>)
    requires
        registry.wf(),
    ensures
        registry.after_finalize().wf(),
        registry.after_reload(path).wf(),
{
    assert forall|a: int| 0 <= a < registry.instances.len() implies (
    #[trigger] registry.instances[a]).finalized().wf() && registry.instances[a].reloaded(path).wf() by {
        law_instance_stays_well_formed(
            registry.instances[a],
            Seq::empty(),
            Seq::empty(),
            Seq::empty(),
            Seq::empty(),
            Seq::empty(),
            0,
            0,
            path,
        );
    }
    let finalized = registry.after_finalize();
    assert forall|a: int| 0 <= a < finalized.instances.len() implies (
    #[trigger] finalized.instances[a]).entity == registry.instances[a].entity
        && finalized.instances[a].wf() by {
        assert(registry.instances[a].finalized().wf());
    }
    lemma_same_anchors_wf(registry, finalized);
    let reloaded = registry.after_reload(path);
    assert forall|a: int| 0 <= a < reloaded.instances.len() implies (
    #[trigger] reloaded.instances[a]).entity == registry.instances[a].entity
        && reloaded.instances[a].wf() by {
        assert(registry.instances[a].reloaded(path).wf());
    }
    lemma_same_anchors_wf(registry, reloaded);
}

/// Every step leaves a well-formed registry well formed: no two instances
/// are on one anchor, and each instance is well formed.
pub proof fn law_registry_stays_well_formed(
    registry: RegistryView,
    entity: u64,
    info: BlueprintInfoView,
    hide_until_ready: bool,
    add_to_game_world: bool,
    placed: bool,
    track_root: Option<u64>,
    root_id: u64,
    root_loaded: bool,
    auxiliary: Seq<AssetView>,
    statuses: Seq<AssetStatus>,
    named_scenes: nat,
    children: Seq<u64>,
    has_parent: bool,
    game_world: Option<u64>,
    ancestors: Seq<HierarchyNode>,
    descendants: Seq<DescendantView>,
    current: Seq<ChildNodeView>,
    path: Seq<char>,
)
    requires
        registry.wf(),
        auxiliary.len() < usize::MAX,
    ensures
        registry.registered(
            InstanceView::requested(
                entity,
                info,
                hide_until_ready,
                add_to_game_world,
                placed,
                track_root,
            ),
        ).wf(),
        registry.unregistered(entity).wf(),
        registry.after_prepare(entity, root_id, root_loaded, auxiliary).wf(),
        registry.after_poll(entity, statuses).wf(),
        registry.after_assets_ready(entity, named_scenes, children, has_parent, game_world).wf(),
        registry.after_scene_added(entity).wf(),
        registry.after_scenes_spawned(entity, ancestors, descendants).wf(),
        registry.after_transfer(entity, current).wf(),
        registry.after_finalize().wf(),
        registry.after_reload(path).wf(),
{
    lemma_register_wf(
        registry,
        InstanceView::requested(
            entity,
            info,
            hide_until_ready,
            add_to_game_world,
            placed,
            track_root,
        ),
    );
    lemma_unregister_wf(registry, entity);
    lemma_prepare_wf(registry, entity, root_id, root_loaded, auxiliary);
    lemma_loading_wf(registry, entity, statuses, named_scenes, children, has_parent, game_world);
    lemma_scenes_spawned_wf(registry, entity, ancestors, descendants);
    lemma_transfer_wf(registry, entity, current);
    lemma_sweeps_wf(registry, path);
}

/// In a step of the registry every instance stays at its stage or moves to
/// the stage that follows; a change of an asset takes an instance to the
/// start or leaves it where it is. No step but registering and forgetting
/// changes which instances there are.
pub proof fn law_registry_stages_in_order(
    registry: RegistryView,
    entity: u64,
    root_id: u64,
    root_loaded: bool,
    auxiliary: Seq<AssetView>,
    statuses: Seq<AssetStatus>,
    named_scenes: nat,
    children: Seq<u64>,
    has_parent: bool,
    game_world: Option<u64>,
    ancestors: Seq<HierarchyNode>,
    descendants: Seq<DescendantView>,
    current: Seq<ChildNodeView>,
    path: Seq<char>,
    i: int,
)
    requires
        0 <= i < registry.instances.len(),
    ensures
        stays_or_advances(registry, registry.after_prepare(entity, root_id, root_loaded, auxiliary), i),
        stays_or_advances(registry, registry.after_poll(entity, statuses), i),
        stays_or_advances(
            registry,
            registry.after_assets_ready(entity, named_scenes, children, has_parent, game_world),
            i,
        ),
        stays_or_advances(registry, registry.after_scene_added(entity), i),
        stays_or_advances(registry, registry.after_scenes_spawned(entity, ancestors, descendants), i),
        stays_or_advances(registry, registry.after_transfer(entity, current), i),
        stays_or_advances(registry, registry.after_finalize(), i),
        registry.after_reload(path).instances.len() == registry.instances.len(),
        registry.after_reload(path).instances[i].entity == registry.instances[i].entity,
        registry.after_reload(path).instances[i].stage == registry.instances[i].stage
            || registry.after_reload(path).instances[i].stage == Stage::Requested,
{
    if registry.index_of(entity).is_some() {
        registry.lemma_index_of_some(entity);
        let k = registry.index_of(entity).unwrap();
        let instance = registry.instances[k];
        if instance.stage == Stage::ChildrenReady && registry.transfer_outcome(entity, current).is_ok() {
            let merged = registry.with_instance(k, instance.transferred());
            match instance.track_root {
                Some(r) => {
                    if merged.index_of(r).is_some() {
                        merged.lemma_index_of_some(r);
                    }
                },
                None => {},
            }
        }
    }
}

/// When the wrapper node of a nested instance is merged, the instance is
/// ready for post-processing, its root takes the report, and no other
/// instance changes. The children of the root become ready in that step
/// exactly if the report leaves no entry of the root pending.
pub proof fn law_transfer_reports_to_root(
    registry: RegistryView,
    entity: u64,
    current: Seq<ChildNodeView>,
    root: u64,
    i: int,
    k: int,
)
    requires
        registry.wf(),
        registry.is_at(entity, i),
        registry.is_at(root, k),
        registry.instances[i].stage == Stage::ChildrenReady,
        registry.instances[i].track_root == Some(root),
        registry.transfer_outcome(entity, current).is_ok(),
        root != entity,
    ensures
        ({
            let after = registry.after_transfer(entity, current);
            &&& after.instances.len() == registry.instances.len()
            &&& after.instances[i] == registry.instances[i].transferred()
            &&& after.instances[i].stage == Stage::PostProcessReady
            &&& after.instances[k] == registry.instances[k].child_reported(entity)
            &&& forall|j: int|
                0 <= j < after.instances.len() && j != i && j != k ==> after.instances[j]
                    == registry.instances[j]
            &&& registry.instances[k].stage == Stage::SceneSpawned
                && registry.instances[k].sub_blueprints.is_some() ==> (after.instances[k].stage
                == Stage::ChildrenReady <==> all_spawned(
                with_spawned(registry.instances[k].sub_blueprints.unwrap(), entity),
            ))
            &&& registry.instances[k].stage != Stage::SceneSpawned ==> after.instances[k].stage
                == registry.instances[k].stage
        }),
{
    registry.lemma_index_of(entity, i);
    registry.lemma_index_of(root, k);
    let merged = registry.with_instance(i, registry.instances[i].transferred());
    assert(merged.is_at(root, k)) by {
        assert forall|j: int| 0 <= j < k implies (#[trigger] merged.instances[j]).entity != root by {
            assert(registry.instances[j].entity != root);
        }
    }
    merged.lemma_index_of(root, k);
}

/// Between `before` and `after` the instance at position `i` is on the same
/// anchor, and is at the same stage or at the stage that follows.
pub open spec fn stays_or_advances(before: RegistryView, after: RegistryView, i: int) -> bool {
    &&& after.instances.len() == before.instances.len()
    &&& after.instances[i].entity == before.instances[i].entity
    &&& before.instances[i].stage.steps_to(after.instances[i].stage)
}

} // verus!
