use gltf_blueprints::graph::{Aabb, Components, Vec3, World};

fn live_descendants(w: &World, root: usize) -> usize {
    let mut count = 0;
    for i in 0..w.entities.len() {
        if i == root || !w.entities[i].alive {
            continue;
        }
        let mut cur = w.entities[i].parent;
        while let Some(p) = cur {
            if p == root {
                count += 1;
                break;
            }
            cur = w.entities[p].parent;
        }
    }
    count
}

fn tagged(x: i64) -> Components {
    let mut c = Components::empty();
    c.translation = Vec3 { x, y: 0, z: 0 };
    c
}

/// root(0) -> a(1) -> b(2); root -> c(3); and an unrelated entity (4).
fn sample() -> World {
    let mut w = World::new();
    let mut rc = tagged(0);
    rc.blueprint = Some("crate".to_string());
    rc.geometry = Some(Aabb { min: Vec3 { x: 0, y: 0, z: 0 }, max: Vec3 { x: 1, y: 1, z: 1 } });
    let root = w.spawn(None, rc);
    let a = w.spawn(Some(root), tagged(1));
    w.spawn(Some(a), tagged(2));
    w.spawn(Some(root), tagged(3));
    w.spawn(None, tagged(4));
    w
}

#[test]
fn clone_copies_subtree() {
    let mut w = sample();
    assert_eq!(live_descendants(&w, 0), 3);
    let copy = w.clone_entity(0);
    assert_eq!(copy, 5);
    assert_eq!(w.entities.len(), 9);
    assert_eq!(live_descendants(&w, copy), 3);
    assert_eq!(w.entities[copy].parent, None);
    assert_eq!(w.entities[copy].components.blueprint.as_deref(), Some("crate"));
    assert_eq!(w.entities[copy].components.geometry, w.entities[0].components.geometry);
    assert_eq!(w.entities[6].parent, Some(copy));
    assert_eq!(w.entities[6].components.translation.x, 1);
    assert_eq!(w.entities[7].parent, Some(6));
    assert_eq!(w.entities[7].components.translation.x, 2);
    assert_eq!(w.entities[8].parent, Some(copy));
    assert_eq!(w.entities[8].components.translation.x, 3);
}

#[test]
fn clone_survives_despawn_of_source() {
    let mut w = sample();
    let copy = w.clone_entity(0);
    w.despawn_recursive(0);
    assert!(!w.entities[0].alive && !w.entities[1].alive && !w.entities[2].alive && !w.entities[3].alive);
    assert!(w.entities[4].alive);
    assert!((copy..w.entities.len()).all(|i| w.entities[i].alive));
    assert_eq!(live_descendants(&w, copy), 3);
}

#[test]
fn clone_skips_dead_members() {
    let mut w = sample();
    w.despawn_recursive(1);
    assert_eq!(live_descendants(&w, 0), 1);
    let copy = w.clone_entity(0);
    assert_eq!(w.entities.len(), copy + 2);
    assert_eq!(live_descendants(&w, copy), 1);
    assert_eq!(w.entities[copy + 1].components.translation.x, 3);
}

#[test]
fn clone_of_leaf() {
    let mut w = sample();
    let copy = w.clone_entity(2);
    assert_eq!(w.entities.len(), copy + 1);
    assert_eq!(live_descendants(&w, copy), 0);
    assert_eq!(w.entities[copy].components.translation.x, 2);
}

#[test]
fn component_copy_is_independent() {
    let mut c = tagged(7);
    c.blueprint = Some("x".to_string());
    let mut d = c.copy();
    d.blueprint.as_mut().unwrap().push('y');
    assert_eq!(c.blueprint.as_deref(), Some("x"));
    assert_eq!(d.blueprint.as_deref(), Some("xy"));
}
