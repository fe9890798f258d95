use std::path::PathBuf;

use blueprints::components::{BlueprintEvent, BlueprintInfo, Library, OriginalChildren, SpawnTrackRoot};

#[test]
fn duplicate_keeps_name_and_path() {
    let info = BlueprintInfo { name: "Tree".to_string(), path: "tree.glb".to_string() };
    let copy = info.duplicate();
    assert_eq!(copy.name, "Tree");
    assert_eq!(copy.path, "tree.glb");
    assert_eq!(info.name, "Tree");
}

#[test]
fn a_library_holds_a_path() {
    let library = Library(PathBuf::from("assets/library"));
    assert_eq!(library.0, PathBuf::from("assets/library"));
}

#[test]
fn a_track_root_holds_its_root() {
    assert_eq!(SpawnTrackRoot(4).0, 4);
    assert_eq!(SpawnTrackRoot(4), SpawnTrackRoot(4));
    assert_ne!(SpawnTrackRoot(4), SpawnTrackRoot(5));
}

#[test]
fn original_children_hold_the_snapshot() {
    assert_eq!(OriginalChildren(vec![3, 1, 2]).0, vec![3, 1, 2]);
}

#[test]
fn events_carry_anchor_name_and_path() {
    let event = BlueprintEvent::AssetsLoaded {
        entity: 3,
        blueprint_name: "Tree".to_string(),
        blueprint_path: "tree.glb".to_string(),
    };
    match event {
        BlueprintEvent::AssetsLoaded { entity, blueprint_name, blueprint_path } => {
            assert_eq!(entity, 3);
            assert_eq!(blueprint_name, "Tree");
            assert_eq!(blueprint_path, "tree.glb");
        }
        other => panic!("unexpected event {:?}", other),
    }
}
