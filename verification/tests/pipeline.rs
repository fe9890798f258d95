use blueprints::assets::{AssetLoadTracker, AssetStatus, LoadProgress, LoadState};
use blueprints::commands::Command;
use blueprints::components::{
    AddToGameWorld, BlueprintChildrenReady, BlueprintEvent, BlueprintInfo,
    BlueprintInstanceReady, BlueprintReadyForPostProcess, BlueprintSceneSpawned,
    BlueprintSpawning, HideUntilReady, SpawnHere, SpawnTrackRoot,
};
use blueprints::hierarchy::{ChildNode, Descendant, HierarchyNode};
use blueprints::instance::{MarkerSet, Stage};
use blueprints::metadata::TemplateFormatError;
use blueprints::registry::{BlueprintRegistry, SpawnError, TimingAnomaly};

fn info(name: &str, path: &str) -> BlueprintInfo {
    BlueprintInfo { name: name.to_string(), path: path.to_string() }
}

fn asset(name: &str, path: &str, id: u64, loaded: bool) -> AssetLoadTracker {
    AssetLoadTracker { name: name.to_string(), path: path.to_string(), id, loaded }
}

fn loaded() -> AssetStatus {
    AssetStatus { loaded_with_dependencies: true, load_state: LoadState::Loaded }
}

fn loading() -> AssetStatus {
    AssetStatus { loaded_with_dependencies: false, load_state: LoadState::Loading }
}

fn failed() -> AssetStatus {
    AssetStatus { loaded_with_dependencies: false, load_state: LoadState::Failed }
}

fn node(entity: u64, templated: bool) -> HierarchyNode {
    HierarchyNode { entity, templated }
}

fn described(events: &Vec<BlueprintEvent>) -> Vec<(&'static str, u64, String, String)> {
    events
        .iter()
        .map(|event| match event {
            BlueprintEvent::AssetsLoaded { entity, blueprint_name, blueprint_path } => {
                ("assets loaded", *entity, blueprint_name.clone(), blueprint_path.clone())
            }
            BlueprintEvent::Spawned { entity, blueprint_name, blueprint_path } => {
                ("spawned", *entity, blueprint_name.clone(), blueprint_path.clone())
            }
            BlueprintEvent::InstanceReady { entity, blueprint_name, blueprint_path } => {
                ("ready", *entity, blueprint_name.clone(), blueprint_path.clone())
            }
        })
        .collect()
}

fn scenes() -> Vec<String> {
    vec!["Scene".to_string()]
}

fn plain(registry: &mut BlueprintRegistry, entity: u64, name: &str, path: &str) {
    assert!(registry.register(entity, info(name, path), None, None, false, None));
}

/// Takes the instance on `entity` from a fresh request to a spawned scene,
/// with one asset that loads in one poll.
fn spawn_scene(registry: &mut BlueprintRegistry, entity: u64, children: &Vec<u64>) {
    registry.blueprints_prepare_spawn(entity, 100 + entity, false, &Vec::new());
    assert_eq!(registry.stage_of(entity), Some(Stage::AssetsLoading));
    registry.blueprints_check_assets_loading(entity, &vec![loaded()]);
    assert_eq!(registry.stage_of(entity), Some(Stage::AssetsReady));
    registry.blueprints_assets_ready(entity, &scenes(), children, false, None).unwrap();
    registry.scene_instance_added(entity);
    assert_eq!(registry.stage_of(entity), Some(Stage::SceneSpawned));
}

#[test]
fn a_new_registry_is_empty() {
    let registry = BlueprintRegistry::new();
    assert!(registry.instances.is_empty());
    assert!(registry.events.is_empty());
    assert_eq!(registry.find(1), None);
    assert_eq!(registry.stage_of(1), None);
    assert_eq!(registry.markers_of(1), None);
    assert_eq!(registry.progress_of(1), None);
    assert_eq!(registry.track_root_of(1), None);
}

#[test]
fn register_adds_a_fresh_request() {
    let mut registry = BlueprintRegistry::new();
    assert!(registry.register(
        7,
        info("Tree", "tree.glb"),
        Some(HideUntilReady),
        Some(AddToGameWorld),
        true,
        Some(SpawnTrackRoot(3)),
    ));
    assert_eq!(registry.find(7), Some(0));
    assert_eq!(registry.stage_of(7), Some(Stage::Requested));
    assert_eq!(registry.track_root_of(7), Some(SpawnTrackRoot(3)));
    let instance = &registry.instances[0];
    assert_eq!(instance.entity, 7);
    assert_eq!(instance.info.name, "Tree");
    assert_eq!(instance.info.path, "tree.glb");
    assert_eq!(instance.hide_until_ready, Some(HideUntilReady));
    assert_eq!(instance.add_to_game_world, Some(AddToGameWorld));
    assert!(instance.placed);
    assert!(instance.load_state.is_none());
    assert!(instance.original_children.is_none());
    assert!(instance.sub_blueprints.is_none());
}

#[test]
fn a_second_request_on_an_anchor_is_turned_down() {
    let mut registry = BlueprintRegistry::new();
    plain(&mut registry, 7, "Tree", "tree.glb");
    assert!(!registry.register(7, info("Rock", "rock.glb"), None, None, false, None));
    assert_eq!(registry.instances.len(), 1);
    assert_eq!(registry.instances[0].info.name, "Tree");
}

#[test]
fn unregister_forgets_an_instance() {
    let mut registry = BlueprintRegistry::new();
    plain(&mut registry, 7, "Tree", "tree.glb");
    plain(&mut registry, 8, "Rock", "rock.glb");
    plain(&mut registry, 9, "Bush", "bush.glb");
    assert!(registry.unregister(8));
    assert!(!registry.unregister(8));
    assert_eq!(registry.find(7), Some(0));
    assert_eq!(registry.find(8), None);
    assert_eq!(registry.find(9), Some(1));
}

#[test]
fn prepare_tracks_the_assets_that_are_not_loaded() {
    let mut registry = BlueprintRegistry::new();
    plain(&mut registry, 7, "Tree", "tree.glb");
    let auxiliary = vec![asset("bark", "bark.png", 21, true), asset("leaf", "leaf.png", 22, false)];
    registry.blueprints_prepare_spawn(7, 20, false, &auxiliary);
    assert_eq!(registry.stage_of(7), Some(Stage::AssetsLoading));
    assert_eq!(registry.progress_of(7), Some(LoadProgress { loaded: 0, total: 2 }));
    let state = registry.instances[0].load_state.as_ref().unwrap();
    assert!(!state.all_loaded);
    assert_eq!(state.asset_infos.len(), 2);
    assert_eq!(state.asset_infos[0].name, "Tree");
    assert_eq!(state.asset_infos[0].path, "tree.glb");
    assert_eq!(state.asset_infos[0].id, 20);
    assert_eq!(state.asset_infos[1].name, "leaf");
    assert_eq!(state.asset_infos[1].path, "leaf.png");
    assert_eq!(state.asset_infos[1].id, 22);
}

#[test]
fn prepare_leaves_out_a_loaded_scene_asset() {
    let mut registry = BlueprintRegistry::new();
    plain(&mut registry, 7, "Tree", "tree.glb");
    registry.blueprints_prepare_spawn(7, 20, true, &vec![asset("leaf", "leaf.png", 22, false)]);
    let state = registry.instances[0].load_state.as_ref().unwrap();
    assert_eq!(state.asset_infos.len(), 1);
    assert_eq!(state.asset_infos[0].name, "leaf");
    assert_eq!(state.progress, LoadProgress { loaded: 0, total: 1 });
}

#[test]
fn prepare_is_the_first_step_only() {
    let mut registry = BlueprintRegistry::new();
    plain(&mut registry, 7, "Tree", "tree.glb");
    registry.blueprints_prepare_spawn(7, 20, false, &Vec::new());
    registry.blueprints_check_assets_loading(7, &vec![loaded()]);
    assert_eq!(registry.stage_of(7), Some(Stage::AssetsReady));
    registry.blueprints_prepare_spawn(7, 20, false, &Vec::new());
    assert_eq!(registry.stage_of(7), Some(Stage::AssetsReady));
    registry.blueprints_prepare_spawn(99, 20, false, &Vec::new());
    assert_eq!(registry.instances.len(), 1);
}

#[test]
fn template_with_loaded_auxiliary_assets_skips_loading() {
    let mut registry = BlueprintRegistry::new();
    plain(&mut registry, 1, "A", "a.glb");
    let auxiliary = vec![asset("one", "one.png", 11, true), asset("two", "two.png", 12, true)];
    registry.blueprints_prepare_spawn(1, 10, true, &auxiliary);
    assert_eq!(registry.stage_of(1), Some(Stage::AssetsReady));
    assert!(registry.instances[0].load_state.is_none());
    assert_eq!(registry.progress_of(1), None);
    let commands = registry.blueprints_assets_ready(1, &scenes(), &Vec::new(), false, None);
    assert_eq!(
        commands,
        Ok(vec![
            Command::SpawnScene { entity: 1, scene: 0, identity_placement: true },
            Command::CaptureAnimations { entity: 1 },
        ])
    );
    registry.scene_instance_added(1);
    assert_eq!(registry.stage_of(1), Some(Stage::SceneSpawned));
}

#[test]
fn a_failed_asset_does_not_hold_the_instance_up() {
    let mut registry = BlueprintRegistry::new();
    plain(&mut registry, 7, "Tree", "tree.glb");
    registry.blueprints_prepare_spawn(7, 20, false, &vec![asset("leaf", "leaf.png", 22, false)]);
    registry.blueprints_check_assets_loading(7, &vec![loading(), failed()]);
    assert_eq!(registry.stage_of(7), Some(Stage::AssetsLoading));
    assert_eq!(registry.progress_of(7), Some(LoadProgress { loaded: 1, total: 2 }));
    registry.blueprints_check_assets_loading(7, &vec![loaded(), failed()]);
    assert_eq!(registry.stage_of(7), Some(Stage::AssetsReady));
    assert_eq!(registry.progress_of(7), Some(LoadProgress { loaded: 2, total: 2 }));
    assert!(registry.instances[0].load_state.as_ref().unwrap().all_loaded);
}

#[test]
fn a_poll_after_loading_changes_nothing() {
    let mut registry = BlueprintRegistry::new();
    plain(&mut registry, 7, "Tree", "tree.glb");
    registry.blueprints_prepare_spawn(7, 20, false, &Vec::new());
    registry.blueprints_check_assets_loading(7, &vec![loaded()]);
    registry.blueprints_check_assets_loading(7, &vec![loading()]);
    assert_eq!(registry.stage_of(7), Some(Stage::AssetsReady));
    assert_eq!(registry.progress_of(7), Some(LoadProgress { loaded: 1, total: 1 }));
}

#[test]
fn assets_ready_hides_and_attaches_on_request() {
    let mut registry = BlueprintRegistry::new();
    assert!(registry.register(
        7,
        info("Tree", "tree.glb"),
        Some(HideUntilReady),
        Some(AddToGameWorld),
        true,
        None,
    ));
    registry.blueprints_prepare_spawn(7, 20, true, &Vec::new());
    let commands = registry.blueprints_assets_ready(7, &scenes(), &vec![30, 31], true, Some(2));
    assert_eq!(
        commands,
        Ok(vec![
            Command::SpawnScene { entity: 7, scene: 0, identity_placement: false },
            Command::CaptureAnimations { entity: 7 },
            Command::SetVisibility { entity: 7, visible: false },
            Command::AddChild { parent: 2, child: 7 },
        ])
    );
    assert_eq!(registry.instances[0].original_children.as_ref().unwrap().0, vec![30, 31]);
    assert_eq!(registry.stage_of(7), Some(Stage::AssetsReady));
}

#[test]
fn an_anchor_without_a_parent_is_not_attached_to_the_world() {
    let mut registry = BlueprintRegistry::new();
    assert!(registry.register(7, info("Tree", "tree.glb"), None, Some(AddToGameWorld), false, None));
    registry.blueprints_prepare_spawn(7, 20, true, &Vec::new());
    let commands = registry.blueprints_assets_ready(7, &scenes(), &Vec::new(), false, None);
    assert_eq!(
        commands,
        Ok(vec![
            Command::SpawnScene { entity: 7, scene: 0, identity_placement: true },
            Command::CaptureAnimations { entity: 7 },
        ])
    );
}

#[test]
fn assets_ready_fires_once() {
    let mut registry = BlueprintRegistry::new();
    plain(&mut registry, 7, "Tree", "tree.glb");
    registry.blueprints_prepare_spawn(7, 20, true, &Vec::new());
    let first = registry.blueprints_assets_ready(7, &scenes(), &vec![30], false, None).unwrap();
    assert_eq!(first.len(), 2);
    let second = registry.blueprints_assets_ready(7, &scenes(), &vec![30, 40], false, None);
    assert_eq!(second, Ok(Vec::new()));
    assert_eq!(registry.instances[0].original_children.as_ref().unwrap().0, vec![30]);
}

#[test]
fn assets_ready_before_loading_is_over_does_nothing() {
    let mut registry = BlueprintRegistry::new();
    plain(&mut registry, 7, "Tree", "tree.glb");
    assert_eq!(registry.blueprints_assets_ready(7, &Vec::new(), &Vec::new(), false, None), Ok(Vec::new()));
    registry.blueprints_prepare_spawn(7, 20, false, &Vec::new());
    assert_eq!(registry.blueprints_assets_ready(7, &scenes(), &Vec::new(), false, None), Ok(Vec::new()));
    assert!(registry.instances[0].original_children.is_none());
    assert_eq!(registry.blueprints_assets_ready(99, &scenes(), &Vec::new(), false, None), Ok(Vec::new()));
}

#[test]
fn a_template_without_a_named_scene_is_a_format_error() {
    let mut registry = BlueprintRegistry::new();
    plain(&mut registry, 7, "Tree", "tree.glb");
    registry.blueprints_prepare_spawn(7, 20, true, &Vec::new());
    let outcome = registry.blueprints_assets_ready(7, &Vec::new(), &vec![30], false, None);
    assert_eq!(outcome, Err(SpawnError::Template(TemplateFormatError::NoNamedScene)));
    assert_eq!(registry.stage_of(7), Some(Stage::AssetsReady));
    assert!(registry.instances[0].original_children.is_none());
}

#[test]
fn attaching_to_a_missing_game_world_is_an_error() {
    let mut registry = BlueprintRegistry::new();
    assert!(registry.register(7, info("Tree", "tree.glb"), None, Some(AddToGameWorld), false, None));
    registry.blueprints_prepare_spawn(7, 20, true, &Vec::new());
    let outcome = registry.blueprints_assets_ready(7, &scenes(), &Vec::new(), true, None);
    assert_eq!(outcome, Err(SpawnError::NoGameWorld));
    assert!(registry.instances[0].original_children.is_none());
    let retried = registry.blueprints_assets_ready(7, &scenes(), &Vec::new(), true, Some(2));
    assert_eq!(retried.unwrap().len(), 3);
}

#[test]
fn the_scene_is_confirmed_only_after_it_was_asked_for() {
    let mut registry = BlueprintRegistry::new();
    plain(&mut registry, 7, "Tree", "tree.glb");
    registry.scene_instance_added(7);
    assert_eq!(registry.stage_of(7), Some(Stage::Requested));
    registry.blueprints_prepare_spawn(7, 20, true, &Vec::new());
    registry.scene_instance_added(7);
    assert_eq!(registry.stage_of(7), Some(Stage::AssetsReady));
    registry.blueprints_assets_ready(7, &scenes(), &Vec::new(), false, None).unwrap();
    registry.scene_instance_added(7);
    assert_eq!(registry.stage_of(7), Some(Stage::SceneSpawned));
}

#[test]
fn an_instance_without_nested_instances_has_its_children_ready() {
    let mut registry = BlueprintRegistry::new();
    plain(&mut registry, 7, "Tree", "tree.glb");
    spawn_scene(&mut registry, 7, &Vec::new());
    let descendants = vec![
        Descendant { entity: 50, templated: false, ancestors: vec![node(7, true)] },
        Descendant { entity: 51, templated: false, ancestors: vec![node(50, false), node(7, true)] },
    ];
    let commands = registry.blueprints_scenes_spawned(7, &Vec::new(), &descendants);
    assert_eq!(commands, Vec::new());
    assert_eq!(registry.stage_of(7), Some(Stage::ChildrenReady));
    assert!(registry.instances[0].sub_blueprints.is_none());
    assert_eq!(registry.track_root_of(7), None);
}

#[test]
fn an_instance_takes_the_nearest_instance_above_as_root() {
    let mut registry = BlueprintRegistry::new();
    plain(&mut registry, 7, "Tree", "tree.glb");
    spawn_scene(&mut registry, 7, &Vec::new());
    let ancestors = vec![node(6, false), node(5, true), node(4, true)];
    registry.blueprints_scenes_spawned(7, &ancestors, &Vec::new());
    assert_eq!(registry.track_root_of(7), Some(SpawnTrackRoot(5)));
}

#[test]
fn a_root_that_is_known_is_kept() {
    let mut registry = BlueprintRegistry::new();
    assert!(registry.register(7, info("Tree", "tree.glb"), None, None, false, Some(SpawnTrackRoot(4))));
    spawn_scene(&mut registry, 7, &Vec::new());
    registry.blueprints_scenes_spawned(7, &vec![node(5, true), node(4, true)], &Vec::new());
    assert_eq!(registry.track_root_of(7), Some(SpawnTrackRoot(4)));
}

#[test]
fn nested_instances_are_tracked_and_take_the_root() {
    let mut registry = BlueprintRegistry::new();
    plain(&mut registry, 1, "A", "a.glb");
    plain(&mut registry, 11, "B", "b.glb");
    plain(&mut registry, 13, "D", "d.glb");
    spawn_scene(&mut registry, 1, &Vec::new());
    let descendants = vec![
        Descendant { entity: 10, templated: false, ancestors: vec![node(1, true)] },
        Descendant { entity: 11, templated: true, ancestors: vec![node(10, false), node(1, true)] },
        Descendant { entity: 12, templated: true, ancestors: vec![node(10, false), node(1, true)] },
        Descendant {
            entity: 13,
            templated: true,
            ancestors: vec![node(11, true), node(10, false), node(1, true)],
        },
    ];
    let commands = registry.blueprints_scenes_spawned(1, &Vec::new(), &descendants);
    assert_eq!(
        commands,
        vec![Command::TrackRoot { entity: 11, root: 1 }, Command::TrackRoot { entity: 12, root: 1 }]
    );
    assert_eq!(registry.stage_of(1), Some(Stage::SceneSpawned));
    assert_eq!(
        registry.instances[0].sub_blueprints.as_ref().unwrap().sub_blueprint_instances,
        vec![(11, false), (12, false)]
    );
    assert_eq!(registry.track_root_of(11), Some(SpawnTrackRoot(1)));
    assert_eq!(registry.track_root_of(13), None);
    assert_eq!(registry.track_root_of(1), None);
}

#[test]
fn the_search_for_nested_instances_fires_once() {
    let mut registry = BlueprintRegistry::new();
    plain(&mut registry, 1, "A", "a.glb");
    spawn_scene(&mut registry, 1, &Vec::new());
    let first = vec![Descendant { entity: 11, templated: true, ancestors: vec![node(1, true)] }];
    let second = vec![Descendant { entity: 12, templated: true, ancestors: vec![node(1, true)] }];
    assert_eq!(registry.blueprints_scenes_spawned(1, &Vec::new(), &first).len(), 1);
    assert_eq!(registry.blueprints_scenes_spawned(1, &Vec::new(), &second), Vec::new());
    assert_eq!(
        registry.instances[0].sub_blueprints.as_ref().unwrap().sub_blueprint_instances,
        vec![(11, false)]
    );
    assert_eq!(registry.blueprints_scenes_spawned(99, &Vec::new(), &second), Vec::new());
}

#[test]
fn transfer_merges_the_wrapper_node() {
    let mut registry = BlueprintRegistry::new();
    plain(&mut registry, 7, "Tree", "tree.glb");
    spawn_scene(&mut registry, 7, &vec![30, 31]);
    registry.blueprints_scenes_spawned(7, &Vec::new(), &Vec::new());
    let children = vec![
        ChildNode { entity: 30, children: vec![300] },
        ChildNode { entity: 31, children: Vec::new() },
        ChildNode { entity: 40, children: vec![41, 42, 43] },
    ];
    let commands = registry.blueprints_transfer_components(7, &children);
    assert_eq!(
        commands,
        Ok(vec![
            Command::CopyComponents { source: 40, destination: 7 },
            Command::AddChild { parent: 7, child: 41 },
            Command::AddChild { parent: 7, child: 42 },
            Command::AddChild { parent: 7, child: 43 },
            Command::Despawn { entity: 40 },
        ])
    );
    assert_eq!(registry.stage_of(7), Some(Stage::PostProcessReady));
    assert!(registry.instances[0].original_children.is_none());
}

#[test]
fn transfer_fires_once() {
    let mut registry = BlueprintRegistry::new();
    plain(&mut registry, 7, "Tree", "tree.glb");
    spawn_scene(&mut registry, 7, &Vec::new());
    let children = vec![ChildNode { entity: 40, children: Vec::new() }];
    assert_eq!(registry.blueprints_transfer_components(7, &children), Ok(Vec::new()));
    assert_eq!(registry.stage_of(7), Some(Stage::SceneSpawned));
    registry.blueprints_scenes_spawned(7, &Vec::new(), &Vec::new());
    assert_eq!(registry.blueprints_transfer_components(7, &children).unwrap().len(), 2);
    assert_eq!(registry.blueprints_transfer_components(7, &children), Ok(Vec::new()));
    assert_eq!(registry.blueprints_transfer_components(99, &children), Ok(Vec::new()));
    assert_eq!(registry.stage_of(7), Some(Stage::PostProcessReady));
}

#[test]
fn an_anchor_without_children_is_tried_again() {
    let mut registry = BlueprintRegistry::new();
    plain(&mut registry, 7, "Tree", "tree.glb");
    spawn_scene(&mut registry, 7, &Vec::new());
    registry.blueprints_scenes_spawned(7, &Vec::new(), &Vec::new());
    let outcome = registry.blueprints_transfer_components(7, &Vec::new());
    assert_eq!(outcome, Err(TimingAnomaly::NoChildren));
    assert_eq!(registry.stage_of(7), Some(Stage::ChildrenReady));
    assert!(registry.instances[0].original_children.is_some());
    let children = vec![ChildNode { entity: 40, children: vec![41] }];
    assert_eq!(registry.blueprints_transfer_components(7, &children).unwrap().len(), 3);
    assert_eq!(registry.stage_of(7), Some(Stage::PostProcessReady));
}

#[test]
fn an_anchor_with_old_children_only_is_tried_again() {
    let mut registry = BlueprintRegistry::new();
    plain(&mut registry, 7, "Tree", "tree.glb");
    spawn_scene(&mut registry, 7, &vec![30]);
    registry.blueprints_scenes_spawned(7, &Vec::new(), &Vec::new());
    let children = vec![ChildNode { entity: 30, children: Vec::new() }];
    let outcome = registry.blueprints_transfer_components(7, &children);
    assert_eq!(outcome, Err(TimingAnomaly::NoWrapperRoot));
    assert_eq!(registry.stage_of(7), Some(Stage::ChildrenReady));
}

#[test]
fn finalize_makes_ready_reveals_and_notifies() {
    let mut registry = BlueprintRegistry::new();
    assert!(registry.register(7, info("Tree", "tree.glb"), Some(HideUntilReady), None, false, None));
    plain(&mut registry, 8, "Rock", "rock.glb");
    plain(&mut registry, 9, "Bush", "bush.glb");
    for entity in [7u64, 8u64] {
        spawn_scene(&mut registry, entity, &Vec::new());
        registry.blueprints_scenes_spawned(entity, &Vec::new(), &Vec::new());
        let children = vec![ChildNode { entity: entity + 100, children: Vec::new() }];
        registry.blueprints_transfer_components(entity, &children).unwrap();
    }
    let commands = registry.blueprints_finalize_instances();
    assert_eq!(commands, vec![Command::SetVisibility { entity: 7, visible: true }]);
    assert_eq!(registry.stage_of(7), Some(Stage::Ready));
    assert_eq!(registry.stage_of(8), Some(Stage::Ready));
    assert_eq!(registry.stage_of(9), Some(Stage::Requested));
    let events = registry.drain_events();
    assert_eq!(
        described(&events),
        vec![
            ("assets loaded", 7, "Tree".to_string(), "tree.glb".to_string()),
            ("spawned", 7, "Tree".to_string(), "tree.glb".to_string()),
            ("assets loaded", 8, "Rock".to_string(), "rock.glb".to_string()),
            ("spawned", 8, "Rock".to_string(), "rock.glb".to_string()),
            ("ready", 7, "Tree".to_string(), "tree.glb".to_string()),
            ("ready", 8, "Rock".to_string(), "rock.glb".to_string()),
        ]
    );
    assert!(registry.drain_events().is_empty());
    assert_eq!(registry.blueprints_finalize_instances(), Vec::new());
    assert!(registry.drain_events().is_empty());
}

#[test]
fn stages_follow_one_another() {
    let mut registry = BlueprintRegistry::new();
    plain(&mut registry, 7, "Tree", "tree.glb");
    let mut seen = vec![registry.stage_of(7).unwrap()];
    registry.blueprints_prepare_spawn(7, 20, false, &Vec::new());
    seen.push(registry.stage_of(7).unwrap());
    registry.blueprints_check_assets_loading(7, &vec![loading()]);
    seen.push(registry.stage_of(7).unwrap());
    registry.blueprints_check_assets_loading(7, &vec![loaded()]);
    seen.push(registry.stage_of(7).unwrap());
    registry.blueprints_assets_ready(7, &scenes(), &Vec::new(), false, None).unwrap();
    seen.push(registry.stage_of(7).unwrap());
    registry.scene_instance_added(7);
    seen.push(registry.stage_of(7).unwrap());
    registry.blueprints_scenes_spawned(7, &Vec::new(), &Vec::new());
    seen.push(registry.stage_of(7).unwrap());
    let children = vec![ChildNode { entity: 40, children: Vec::new() }];
    registry.blueprints_transfer_components(7, &children).unwrap();
    seen.push(registry.stage_of(7).unwrap());
    registry.blueprints_finalize_instances();
    seen.push(registry.stage_of(7).unwrap());
    assert_eq!(
        seen,
        vec![
            Stage::Requested,
            Stage::AssetsLoading,
            Stage::AssetsLoading,
            Stage::AssetsReady,
            Stage::AssetsReady,
            Stage::SceneSpawned,
            Stage::ChildrenReady,
            Stage::PostProcessReady,
            Stage::Ready,
        ]
    );
}

#[test]
fn markers_of_each_stage() {
    let none = MarkerSet {
        spawn_here: None,
        spawning: None,
        scene_spawned: None,
        children_ready: None,
        ready_for_post_process: None,
        instance_ready: None,
    };
    assert_eq!(Stage::Requested.markers(), MarkerSet { spawn_here: Some(SpawnHere), ..none });
    let loading = MarkerSet {
        spawn_here: Some(SpawnHere),
        spawning: Some(BlueprintSpawning),
        ..none
    };
    assert_eq!(Stage::AssetsLoading.markers(), loading);
    assert_eq!(Stage::AssetsReady.markers(), loading);
    let spawned = MarkerSet { scene_spawned: Some(BlueprintSceneSpawned), ..loading };
    assert_eq!(Stage::SceneSpawned.markers(), spawned);
    let children = MarkerSet { children_ready: Some(BlueprintChildrenReady), ..spawned };
    assert_eq!(Stage::ChildrenReady.markers(), children);
    assert_eq!(
        Stage::PostProcessReady.markers(),
        MarkerSet { ready_for_post_process: Some(BlueprintReadyForPostProcess), ..children }
    );
    assert_eq!(
        Stage::Ready.markers(),
        MarkerSet {
            scene_spawned: Some(BlueprintSceneSpawned),
            children_ready: Some(BlueprintChildrenReady),
            instance_ready: Some(BlueprintInstanceReady),
            ..none
        }
    );
    let mut registry = BlueprintRegistry::new();
    plain(&mut registry, 7, "Tree", "tree.glb");
    assert_eq!(registry.markers_of(7), Some(Stage::Requested.markers()));
}

#[test]
fn three_levels_complete_bottom_up() {
    let mut registry = BlueprintRegistry::new();
    plain(&mut registry, 1, "Root", "root.glb");
    plain(&mut registry, 2, "Child", "child.glb");
    plain(&mut registry, 3, "Grandchild", "grandchild.glb");
    spawn_scene(&mut registry, 1, &Vec::new());
    registry.blueprints_scenes_spawned(
        1,
        &Vec::new(),
        &vec![
            Descendant { entity: 10, templated: false, ancestors: vec![node(1, true)] },
            Descendant { entity: 2, templated: true, ancestors: vec![node(10, false), node(1, true)] },
        ],
    );
    spawn_scene(&mut registry, 2, &Vec::new());
    registry.blueprints_scenes_spawned(
        2,
        &vec![node(10, false), node(1, true)],
        &vec![
            Descendant { entity: 20, templated: false, ancestors: vec![node(2, true)] },
            Descendant {
                entity: 3,
                templated: true,
                ancestors: vec![node(20, false), node(2, true), node(10, false), node(1, true)],
            },
        ],
    );
    spawn_scene(&mut registry, 3, &Vec::new());
    registry.blueprints_scenes_spawned(
        3,
        &vec![node(20, false), node(2, true), node(10, false), node(1, true)],
        &vec![Descendant { entity: 30, templated: false, ancestors: vec![node(3, true)] }],
    );
    assert_eq!(registry.track_root_of(2), Some(SpawnTrackRoot(1)));
    assert_eq!(registry.track_root_of(3), Some(SpawnTrackRoot(2)));
    assert_eq!(registry.stage_of(1), Some(Stage::SceneSpawned));
    assert_eq!(registry.stage_of(2), Some(Stage::SceneSpawned));
    assert_eq!(registry.stage_of(3), Some(Stage::ChildrenReady));

    // The parents wait: a merge that is asked for too early does nothing.
    let wrapper_of_root = vec![ChildNode { entity: 10, children: vec![2] }];
    assert_eq!(registry.blueprints_transfer_components(1, &wrapper_of_root), Ok(Vec::new()));
    assert_eq!(registry.stage_of(1), Some(Stage::SceneSpawned));

    let wrapper_of_grandchild = vec![ChildNode { entity: 30, children: Vec::new() }];
    registry.blueprints_transfer_components(3, &wrapper_of_grandchild).unwrap();
    assert_eq!(registry.stage_of(3), Some(Stage::PostProcessReady));
    assert_eq!(registry.stage_of(2), Some(Stage::ChildrenReady));
    assert_eq!(registry.stage_of(1), Some(Stage::SceneSpawned));
    assert_eq!(
        registry.instances[1].sub_blueprints.as_ref().unwrap().sub_blueprint_instances,
        vec![(3, true)]
    );

    let wrapper_of_child = vec![ChildNode { entity: 20, children: vec![3] }];
    registry.blueprints_transfer_components(2, &wrapper_of_child).unwrap();
    assert_eq!(registry.stage_of(2), Some(Stage::PostProcessReady));
    assert_eq!(registry.stage_of(1), Some(Stage::ChildrenReady));

    registry.blueprints_transfer_components(1, &wrapper_of_root).unwrap();
    assert_eq!(registry.stage_of(1), Some(Stage::PostProcessReady));
}

#[test]
fn a_root_waits_for_every_nested_instance() {
    let mut registry = BlueprintRegistry::new();
    plain(&mut registry, 1, "A", "a.glb");
    plain(&mut registry, 11, "B", "b.glb");
    plain(&mut registry, 12, "C", "c.glb");
    spawn_scene(&mut registry, 1, &Vec::new());
    registry.blueprints_scenes_spawned(
        1,
        &Vec::new(),
        &vec![
            Descendant { entity: 11, templated: true, ancestors: vec![node(1, true)] },
            Descendant { entity: 12, templated: true, ancestors: vec![node(1, true)] },
        ],
    );
    for entity in [11u64, 12u64] {
        spawn_scene(&mut registry, entity, &Vec::new());
        registry.blueprints_scenes_spawned(entity, &vec![node(1, true)], &Vec::new());
    }
    let wrapper = vec![ChildNode { entity: 500, children: Vec::new() }];
    registry.blueprints_transfer_components(12, &wrapper).unwrap();
    assert_eq!(registry.stage_of(1), Some(Stage::SceneSpawned));
    assert_eq!(
        registry.instances[0].sub_blueprints.as_ref().unwrap().sub_blueprint_instances,
        vec![(11, false), (12, true)]
    );
    registry.blueprints_transfer_components(11, &wrapper).unwrap();
    assert_eq!(registry.stage_of(1), Some(Stage::ChildrenReady));
}

#[test]
fn nested_template_is_ready_before_its_parent() {
    let mut registry = BlueprintRegistry::new();
    plain(&mut registry, 1, "A", "a.glb");
    plain(&mut registry, 2, "B", "b.glb");
    // Both start loading in the same tick.
    registry.blueprints_prepare_spawn(1, 101, false, &Vec::new());
    registry.blueprints_prepare_spawn(2, 102, false, &Vec::new());
    assert_eq!(registry.stage_of(1), Some(Stage::AssetsLoading));
    assert_eq!(registry.stage_of(2), Some(Stage::AssetsLoading));
    let mut ready: Vec<u64> = Vec::new();
    let mut ticks = 0;
    while ready.len() < 2 {
        ticks += 1;
        assert!(ticks < 20);
        for entity in registry.entities_at(Stage::AssetsLoading) {
            registry.blueprints_check_assets_loading(entity, &vec![loaded()]);
        }
        for entity in registry.entities_at(Stage::AssetsReady) {
            registry.blueprints_assets_ready(entity, &scenes(), &Vec::new(), false, None).unwrap();
        }
        for entity in registry.entities_at(Stage::AssetsReady) {
            registry.scene_instance_added(entity);
            if entity == 1 {
                registry.blueprints_scenes_spawned(
                    1,
                    &Vec::new(),
                    &vec![
                        Descendant { entity: 10, templated: false, ancestors: vec![node(1, true)] },
                        Descendant {
                            entity: 2,
                            templated: true,
                            ancestors: vec![node(10, false), node(1, true)],
                        },
                    ],
                );
            } else {
                registry.blueprints_scenes_spawned(
                    2,
                    &vec![node(10, false), node(1, true)],
                    &vec![Descendant { entity: 20, templated: false, ancestors: vec![node(2, true)] }],
                );
            }
        }
        for entity in registry.entities_at(Stage::ChildrenReady) {
            let wrapper = vec![ChildNode { entity: entity * 10, children: Vec::new() }];
            registry.blueprints_transfer_components(entity, &wrapper).unwrap();
        }
        registry.blueprints_finalize_instances();
        for event in registry.drain_events() {
            if let BlueprintEvent::InstanceReady { entity, .. } = event {
                ready.push(entity);
            }
        }
        if registry.stage_of(1) == Some(Stage::Ready) {
            assert_eq!(registry.stage_of(2), Some(Stage::Ready));
        }
    }
    assert_eq!(ready, vec![2, 1]);
}

#[test]
fn a_changed_asset_restarts_the_instances_that_depend_on_it() {
    let mut registry = BlueprintRegistry::new();
    plain(&mut registry, 1, "A", "a.glb");
    plain(&mut registry, 2, "B", "b.glb");
    plain(&mut registry, 3, "C", "c.glb");
    registry.blueprints_prepare_spawn(1, 101, false, &vec![asset("tex", "shared.png", 110, false)]);
    registry.blueprints_prepare_spawn(2, 102, false, &Vec::new());
    registry.blueprints_prepare_spawn(3, 103, false, &vec![asset("tex", "shared.png", 110, false)]);
    registry.blueprints_check_assets_loading(1, &vec![loaded(), loaded()]);
    registry.blueprints_assets_ready(1, &scenes(), &vec![5], false, None).unwrap();
    registry.scene_instance_added(1);
    registry.blueprints_scenes_spawned(
        1,
        &Vec::new(),
        &vec![Descendant { entity: 2, templated: true, ancestors: vec![node(1, true)] }],
    );
    assert_eq!(registry.stage_of(1), Some(Stage::SceneSpawned));
    assert!(registry.instances[0].sub_blueprints.is_some());

    let commands = registry.react_to_asset_changes("shared.png");
    assert_eq!(
        commands,
        vec![Command::DespawnDescendants { entity: 1 }, Command::DespawnDescendants { entity: 3 }]
    );
    for index in [0usize, 2usize] {
        let instance = &registry.instances[index];
        assert_eq!(instance.stage, Stage::Requested);
        assert!(instance.load_state.is_none());
        assert!(instance.original_children.is_none());
        assert!(instance.sub_blueprints.is_none());
    }
    assert_eq!(registry.instances[0].info.path, "a.glb");
    let untouched = &registry.instances[1];
    assert_eq!(untouched.stage, Stage::AssetsLoading);
    assert_eq!(untouched.load_state.as_ref().unwrap().asset_infos.len(), 1);
    assert_eq!(untouched.track_root, Some(SpawnTrackRoot(1)));

    // The instance goes through the first step again, with a fresh record.
    registry.blueprints_prepare_spawn(1, 101, true, &vec![asset("tex", "shared.png", 110, false)]);
    assert_eq!(registry.stage_of(1), Some(Stage::AssetsLoading));
    assert_eq!(registry.progress_of(1), Some(LoadProgress { loaded: 0, total: 1 }));
}

#[test]
fn a_change_of_an_unknown_asset_restarts_nothing() {
    let mut registry = BlueprintRegistry::new();
    plain(&mut registry, 1, "A", "a.glb");
    registry.blueprints_prepare_spawn(1, 101, false, &Vec::new());
    assert_eq!(registry.react_to_asset_changes("other.glb"), Vec::new());
    assert_eq!(registry.stage_of(1), Some(Stage::AssetsLoading));
    plain(&mut registry, 2, "B", "b.glb");
    assert_eq!(registry.react_to_asset_changes("b.glb"), Vec::new());
    assert_eq!(registry.stage_of(2), Some(Stage::Requested));
}

#[test]
fn each_change_restarts_the_instance_again() {
    let mut registry = BlueprintRegistry::new();
    plain(&mut registry, 1, "A", "a.glb");
    for _ in 0..3 {
        registry.blueprints_prepare_spawn(1, 101, false, &Vec::new());
        assert_eq!(registry.stage_of(1), Some(Stage::AssetsLoading));
        assert_eq!(
            registry.react_to_asset_changes("a.glb"),
            vec![Command::DespawnDescendants { entity: 1 }]
        );
        assert_eq!(registry.stage_of(1), Some(Stage::Requested));
    }
}

#[test]
fn a_ready_instance_is_restarted_by_a_change() {
    let mut registry = BlueprintRegistry::new();
    plain(&mut registry, 7, "Tree", "tree.glb");
    spawn_scene(&mut registry, 7, &Vec::new());
    registry.blueprints_scenes_spawned(7, &Vec::new(), &Vec::new());
    let children = vec![ChildNode { entity: 40, children: Vec::new() }];
    registry.blueprints_transfer_components(7, &children).unwrap();
    registry.blueprints_finalize_instances();
    assert_eq!(registry.stage_of(7), Some(Stage::Ready));
    assert_eq!(
        registry.react_to_asset_changes("tree.glb"),
        vec![Command::DespawnDescendants { entity: 7 }]
    );
    assert_eq!(registry.stage_of(7), Some(Stage::Requested));
}

#[test]
fn entities_at_lists_the_instances_of_a_stage() {
    let mut registry = BlueprintRegistry::new();
    plain(&mut registry, 5, "A", "a.glb");
    plain(&mut registry, 3, "B", "b.glb");
    plain(&mut registry, 9, "C", "c.glb");
    assert_eq!(registry.entities_at(Stage::Requested), vec![5, 3, 9]);
    assert_eq!(registry.entities_at(Stage::AssetsLoading), Vec::<u64>::new());
    registry.blueprints_prepare_spawn(3, 30, false, &Vec::new());
    registry.blueprints_prepare_spawn(9, 90, true, &Vec::new());
    assert_eq!(registry.entities_at(Stage::Requested), vec![5]);
    assert_eq!(registry.entities_at(Stage::AssetsLoading), vec![3]);
    assert_eq!(registry.entities_at(Stage::AssetsReady), vec![9]);
    assert_eq!(registry.entities_at(Stage::Ready), Vec::<u64>::new());
}

#[test]
fn loaded_assets_are_announced_once() {
    let mut registry = BlueprintRegistry::new();
    plain(&mut registry, 7, "Tree", "tree.glb");
    plain(&mut registry, 8, "Rock", "rock.glb");
    registry.blueprints_prepare_spawn(7, 20, true, &Vec::new());
    assert_eq!(
        described(&registry.drain_events()),
        vec![("assets loaded", 7, "Tree".to_string(), "tree.glb".to_string())]
    );
    registry.blueprints_prepare_spawn(8, 21, false, &Vec::new());
    registry.blueprints_check_assets_loading(8, &vec![loading()]);
    assert!(registry.drain_events().is_empty());
    registry.blueprints_check_assets_loading(8, &vec![loaded()]);
    assert_eq!(
        described(&registry.drain_events()),
        vec![("assets loaded", 8, "Rock".to_string(), "rock.glb".to_string())]
    );
    registry.blueprints_check_assets_loading(8, &vec![loaded()]);
    registry.blueprints_prepare_spawn(8, 21, true, &Vec::new());
    registry.blueprints_assets_ready(8, &scenes(), &Vec::new(), false, None).unwrap();
    assert!(registry.drain_events().is_empty());
}

#[test]
fn a_spawned_scene_is_announced_once() {
    let mut registry = BlueprintRegistry::new();
    plain(&mut registry, 7, "Tree", "tree.glb");
    registry.blueprints_prepare_spawn(7, 20, true, &Vec::new());
    registry.scene_instance_added(7);
    registry.blueprints_assets_ready(7, &scenes(), &Vec::new(), false, None).unwrap();
    registry.drain_events();
    registry.scene_instance_added(7);
    assert_eq!(
        described(&registry.drain_events()),
        vec![("spawned", 7, "Tree".to_string(), "tree.glb".to_string())]
    );
    registry.scene_instance_added(7);
    registry.blueprints_scenes_spawned(7, &Vec::new(), &Vec::new());
    assert!(registry.drain_events().is_empty());
}
