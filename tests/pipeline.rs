use gltf_blueprints::aabb::{compute_scene_aabbs, compute_scene_bounds, AabbCache};
use gltf_blueprints::config::{
    aabbs_enabled, check_library_environment, BlueprintError, BlueprintsLibrary, BlueprintsPlugin,
    GltfBlueprintsSet, GltfFormat,
};
use gltf_blueprints::graph::{Aabb, Components, Vec3, World};
use gltf_blueprints::pipeline::{run_tick, tick_phases};
use gltf_blueprints::post_spawn::{cleanup_scene_instances, update_spawned_root_first_child};
use gltf_blueprints::resolver::{folder_blueprint_path, resolve_blueprint, stem_matches};
use gltf_blueprints::spawn::{
    instantiate_scene, spawn_from_blueprints, AssetStore, BluePrintBundle, SceneAsset, SceneNode,
};

fn v(x: i64, y: i64, z: i64) -> Vec3 {
    Vec3 { x, y, z }
}

fn bx(min: Vec3, max: Vec3) -> Aabb {
    Aabb { min, max }
}

/// A chair: a seat node at (10, 0, 0) and a back node below it at (0, 5, 0).
fn chair_nodes() -> Vec<SceneNode> {
    vec![
        SceneNode { parent: None, translation: v(10, 0, 0), geometry: Some(bx(v(-1, -1, -1), v(1, 1, 1))) },
        SceneNode { parent: Some(0), translation: v(0, 5, 0), geometry: Some(bx(v(0, 0, 0), v(2, 2, 2))) },
    ]
}

fn folder_config(aabbs: bool) -> gltf_blueprints::config::BluePrintsConfig {
    BlueprintsPlugin {
        format: GltfFormat::GLB,
        library: BlueprintsLibrary::Folder("models/library".to_string()),
        aabbs,
    }
    .build_config()
}

fn chair_store(ready: bool) -> AssetStore {
    let mut store = AssetStore::new();
    store.assets.push(SceneAsset {
        path: "models/library/chair.glb".to_string(),
        ready,
        nodes: if ready { chair_nodes() } else { Vec::new() },
    });
    store
}

fn folder_files() -> Vec<String> {
    vec!["models/library/chair.glb".to_string(), "models/library/table.glb".to_string()]
}

fn live_children(w: &World, p: usize) -> Vec<usize> {
    (0..w.entities.len())
        .filter(|&c| w.entities[c].alive && w.entities[c].parent == Some(p))
        .collect()
}

fn placeholder(w: &mut World, name: &str) -> usize {
    w.spawn_placeholder(None, BluePrintBundle::new(name.to_string(), v(0, 0, 0)))
}

#[test]
fn format_extensions() {
    assert_eq!(GltfFormat::GLB.to_string(), "glb");
    assert_eq!(GltfFormat::GLTF.to_string(), "gltf");
    assert_eq!(GltfFormat::default(), GltfFormat::GLB);
}

#[test]
fn plugin_defaults() {
    let p = BlueprintsPlugin::default();
    assert_eq!(p.format, GltfFormat::GLB);
    assert!(!p.aabbs);
    match &p.library {
        BlueprintsLibrary::Folder(f) => assert_eq!(f, "models/library"),
        BlueprintsLibrary::Files(_) => panic!("expected a folder library"),
    }
    let c = p.build_config();
    assert!(!aabbs_enabled(&c));
    assert!(c.aabb_cache.entries.is_empty());
}

#[test]
fn bundle_default() {
    let b = BluePrintBundle::default();
    assert_eq!(b.blueprint, "default");
    assert!(b.spawn_here);
    assert_eq!(b.translation, v(0, 0, 0));
}

#[test]
fn phases_in_order() {
    assert_eq!(tick_phases(), vec![GltfBlueprintsSet::Spawn, GltfBlueprintsSet::AfterSpawn]);
}

#[test]
fn folder_library_unsupported_environment() {
    let folder = BlueprintsLibrary::Folder("models".to_string());
    let files = BlueprintsLibrary::Files(vec![]);
    assert_eq!(check_library_environment(&folder, false), Err(BlueprintError::EnvironmentUnsupported));
    assert_eq!(check_library_environment(&folder, true), Ok(()));
    assert_eq!(check_library_environment(&files, false), Ok(()));
}

#[test]
fn stems() {
    assert!(stem_matches("models/chair.glb", "chair"));
    assert!(stem_matches("a/b.c/d", "d"));
    assert!(stem_matches(".hidden", ".hidden"));
    assert!(stem_matches("x.tar.gz", "x.tar"));
    assert!(stem_matches("plain", "plain"));
    assert!(!stem_matches("models/chair.glb", "chair.glb"));
    assert!(!stem_matches("models/chair.glb", "models"));
}

#[test]
fn folder_path_layout() {
    let p = folder_blueprint_path(&"lib".to_string(), &"tree".to_string(), GltfFormat::GLTF);
    assert_eq!(p, "lib/tree.gltf");
}

#[test]
fn resolve_in_folder() {
    let lib = BlueprintsLibrary::Folder("models/library".to_string());
    let r = resolve_blueprint(&lib, GltfFormat::GLB, &"chair".to_string(), &folder_files());
    assert_eq!(r, Ok("models/library/chair.glb".to_string()));
    let r = resolve_blueprint(&lib, GltfFormat::GLTF, &"chair".to_string(), &folder_files());
    assert_eq!(r, Err(BlueprintError::UnknownBlueprint));
    let r = resolve_blueprint(&lib, GltfFormat::GLB, &"missing_item".to_string(), &folder_files());
    assert_eq!(r, Err(BlueprintError::UnknownBlueprint));
}

#[test]
fn resolve_in_file_list() {
    let lib = BlueprintsLibrary::Files(vec![
        "a/lamp.gltf".to_string(),
        "b/chair.glb".to_string(),
        "c/chair.gltf".to_string(),
    ]);
    let r = resolve_blueprint(&lib, GltfFormat::GLB, &"chair".to_string(), &Vec::new());
    assert_eq!(r, Ok("b/chair.glb".to_string()));
    let r = resolve_blueprint(&lib, GltfFormat::GLB, &"sofa".to_string(), &Vec::new());
    assert_eq!(r, Err(BlueprintError::UnknownBlueprint));
}

#[test]
fn request_reuses_handles() {
    let mut store = chair_store(false);
    assert_eq!(store.request("models/library/chair.glb".to_string()), 0);
    assert_eq!(store.request("models/library/table.glb".to_string()), 1);
    assert_eq!(store.request("models/library/table.glb".to_string()), 1);
    assert_eq!(store.assets.len(), 2);
    assert!(!store.assets[1].ready);
}

#[test]
fn chair_spawns_in_one_tick() {
    let mut world = World::new();
    let e = placeholder(&mut world, "chair");
    let mut store = chair_store(true);
    let mut config = folder_config(false);
    let reports = run_tick(&mut world, &mut store, &mut config, &folder_files());
    assert!(reports.is_empty());
    assert!(!world.entities[e].components.spawn_here);
    let kids = live_children(&world, e);
    assert_eq!(kids.len(), 1);
    let seat = kids[0];
    assert_eq!(world.entities[seat].components.translation, v(10, 0, 0));
    let back = live_children(&world, seat);
    assert_eq!(back.len(), 1);
    assert_eq!(world.entities[back[0]].components.translation, v(0, 5, 0));
    assert!(live_children(&world, back[0]).is_empty());
    assert!(world.entities.iter().all(|x| !(x.alive && x.components.scene_wrapper)));
}

#[test]
fn spawn_waits_for_load() {
    let mut world = World::new();
    let e = placeholder(&mut world, "chair");
    let mut store = AssetStore::new();
    let mut config = folder_config(false);
    run_tick(&mut world, &mut store, &mut config, &folder_files());
    assert!(world.entities[e].components.spawn_here);
    assert_eq!(world.entities[e].components.scene, Some(0));
    assert_eq!(store.assets[0].path, "models/library/chair.glb");
    assert!(live_children(&world, e).is_empty());
    run_tick(&mut world, &mut store, &mut config, &folder_files());
    assert!(world.entities[e].components.spawn_here);
    store.assets[0].ready = true;
    store.assets[0].nodes = chair_nodes();
    run_tick(&mut world, &mut store, &mut config, &folder_files());
    assert!(!world.entities[e].components.spawn_here);
    assert_eq!(world.entities[e].components.scene, None);
    assert_eq!(live_children(&world, e).len(), 1);
}

#[test]
fn missing_blueprint_reported_once() {
    let mut world = World::new();
    let e = placeholder(&mut world, "missing_item");
    let mut store = chair_store(true);
    let mut config = folder_config(false);
    let first = run_tick(&mut world, &mut store, &mut config, &folder_files());
    assert_eq!(first, vec![e]);
    for _ in 0..3 {
        let again = run_tick(&mut world, &mut store, &mut config, &folder_files());
        assert!(again.is_empty());
    }
    assert!(world.entities[e].components.spawn_here);
    assert!(live_children(&world, e).is_empty());
    assert_eq!(world.entities.len(), 1);
}

#[test]
fn wrapper_is_created_then_removed() {
    let mut world = World::new();
    let e = placeholder(&mut world, "chair");
    let mut store = chair_store(true);
    let config = folder_config(false);
    spawn_from_blueprints(&mut world, &mut store, &config, &folder_files());
    let kids = live_children(&world, e);
    assert_eq!(kids.len(), 1);
    let wrapper = kids[0];
    assert!(world.entities[wrapper].components.scene_wrapper);
    update_spawned_root_first_child(&mut world);
    assert!(live_children(&world, wrapper).is_empty());
    cleanup_scene_instances(&mut world);
    assert!(!world.entities[wrapper].alive);
    assert_eq!(live_children(&world, e).len(), 1);
}

#[test]
fn bounding_box_of_chair() {
    let mut world = World::new();
    let e = placeholder(&mut world, "chair");
    let mut store = chair_store(true);
    let mut config = folder_config(true);
    run_tick(&mut world, &mut store, &mut config, &folder_files());
    let expected = bx(v(9, -1, -1), v(12, 7, 2));
    assert_eq!(world.entities[e].components.aabb, Some(expected));
    assert_eq!(config.aabb_cache.get(&"chair".to_string()), Some(expected));
}

#[test]
fn second_chair_reuses_cached_box() {
    let mut world = World::new();
    let e1 = placeholder(&mut world, "chair");
    let mut store = chair_store(true);
    let mut config = folder_config(true);
    spawn_from_blueprints(&mut world, &mut store, &config, &folder_files());
    assert_eq!(compute_scene_aabbs(&mut world, &mut config), 1);
    update_spawned_root_first_child(&mut world);
    cleanup_scene_instances(&mut world);
    let e2 = placeholder(&mut world, "chair");
    spawn_from_blueprints(&mut world, &mut store, &config, &folder_files());
    assert_eq!(compute_scene_aabbs(&mut world, &mut config), 0);
    assert_eq!(world.entities[e1].components.aabb, world.entities[e2].components.aabb);
    assert!(world.entities[e2].components.aabb.is_some());
}

#[test]
fn two_chairs_in_one_tick_measure_once() {
    let mut world = World::new();
    let e1 = placeholder(&mut world, "chair");
    let e2 = placeholder(&mut world, "chair");
    let mut store = chair_store(true);
    let mut config = folder_config(true);
    spawn_from_blueprints(&mut world, &mut store, &config, &folder_files());
    assert_eq!(compute_scene_aabbs(&mut world, &mut config), 1);
    assert_eq!(world.entities[e1].components.aabb, world.entities[e2].components.aabb);
}

#[test]
fn bounds_are_deterministic() {
    let mut world = World::new();
    let e = placeholder(&mut world, "chair");
    instantiate_scene(&mut world, e, &chair_nodes());
    let a = compute_scene_bounds(&world.entities, e);
    let b = compute_scene_bounds(&world.entities, e);
    assert_eq!(a, b);
    assert_eq!(a, Some(bx(v(9, -1, -1), v(12, 7, 2))));
}

#[test]
fn no_geometry_no_box() {
    let mut world = World::new();
    let e = placeholder(&mut world, "empty");
    world.spawn(Some(e), Components::empty());
    assert_eq!(compute_scene_bounds(&world.entities, e), None);
}

#[test]
fn overflowing_bounds_give_none() {
    let mut world = World::new();
    let e = placeholder(&mut world, "far");
    let mut c = Components::empty();
    c.translation = v(i64::MAX, 0, 0);
    c.geometry = Some(bx(v(0, 0, 0), v(1, 1, 1)));
    world.spawn(Some(e), c);
    assert_eq!(compute_scene_bounds(&world.entities, e), None);
}

#[test]
fn disabled_boxes_attach_nothing() {
    let mut world = World::new();
    placeholder(&mut world, "chair");
    placeholder(&mut world, "chair");
    let mut store = chair_store(true);
    let mut config = folder_config(false);
    run_tick(&mut world, &mut store, &mut config, &folder_files());
    run_tick(&mut world, &mut store, &mut config, &folder_files());
    assert!(world.entities.iter().all(|x| x.components.aabb.is_none()));
    assert!(config.aabb_cache.entries.is_empty());
    assert_eq!(compute_scene_aabbs(&mut world, &mut config), 0);
    assert!(world.entities.iter().all(|x| x.components.aabb.is_none()));
}

#[test]
fn cache_keeps_first_entry() {
    let mut cache = AabbCache::new();
    assert_eq!(cache.get(&"a".to_string()), None);
    cache.insert("a".to_string(), bx(v(0, 0, 0), v(1, 1, 1)));
    cache.insert("b".to_string(), bx(v(0, 0, 0), v(2, 2, 2)));
    assert_eq!(cache.get(&"a".to_string()), Some(bx(v(0, 0, 0), v(1, 1, 1))));
    assert_eq!(cache.get(&"b".to_string()), Some(bx(v(0, 0, 0), v(2, 2, 2))));
    assert_eq!(cache.get(&"c".to_string()), None);
}
