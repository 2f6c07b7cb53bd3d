use vstd::prelude::*;
use crate::aabb::axis;
use crate::graph::{EntityData, Vec3, World, graph_wf};
use crate::spawn::has_live_child;

verus! {

/// A live scene wrapper that adds no offset of its own: its children can be lifted to its
/// parent with their world positions unchanged.
pub open spec fn is_open_wrapper(e: EntityData) -> bool {
    &&& e.alive
    &&& e.components@.scene_wrapper
    &&& e.components@.translation == (Vec3 { x: 0, y: 0, z: 0 })
}

/// The live entity `j` sits directly below an open wrapper.
pub open spec fn under_open_wrapper(w: Seq<EntityData>, j: int) -> bool {
    &&& w[j].alive
    &&& w[j].parent is Some
    &&& is_open_wrapper(w[w[j].parent.unwrap() as int])
}

/// What the root fix-up does: every live child of an open wrapper is lifted to the
/// wrapper's (already lifted) parent; nothing else changes, and no live entity is left
/// directly below an open wrapper.
pub open spec fn normalize_post(w0: Seq<EntityData>, w1: Seq<EntityData>) -> bool {
    &&& graph_wf(w1)
    &&& w1.len() == w0.len()
    &&& forall|j: int|
        #![trigger w1[j]]
        0 <= j < w0.len() ==> {
            &&& w1[j].alive == w0[j].alive
            &&& w1[j].components == w0[j].components
            &&& w1[j].parent == if under_open_wrapper(w0, j) {
                w1[w0[j].parent.unwrap() as int].parent
            } else {
                w0[j].parent
            }
            &&& !under_open_wrapper(w1, j)
        }
}

/// What cleanup does: every live scene wrapper left without live children is despawned.
pub open spec fn cleanup_post(w1: Seq<EntityData>, w2: Seq<EntityData>) -> bool {
    &&& graph_wf(w2)
    &&& w2.len() == w1.len()
    &&& forall|j: int|
        #![trigger w2[j]]
        0 <= j < w1.len() ==> {
            &&& w2[j].parent == w1[j].parent
            &&& w2[j].components == w1[j].components
            &&& w2[j].alive == (w1[j].alive && !(w1[j].components@.scene_wrapper
                && !has_live_child(w1, j)))
        }
}

/// Lifts the content of every instantiated scene out of its synthetic wrapper, so that the
/// scene's roots hang directly below the entity that spawned it.
pub fn update_spawned_root_first_child(world: &mut World)
    requires
        old(world).wf(),
    ensures
        normalize_post(old(world).entities@, final(world).entities@),
{
    let ghost w0 = world.entities@;
    let n = world.entities.len();
    let mut i: usize = 0;
    while i < n
        invariant
            graph_wf(world.entities@),
            graph_wf(w0),
            n == w0.len(),
            world.entities@.len() == n,
            i <= n,
            forall|j: int|
                #![trigger world.entities@[j]]
                0 <= j < n ==> {
                    let w1 = world.entities@;
                    &&& w1[j].alive == w0[j].alive
                    &&& w1[j].components == w0[j].components
                    &&& j >= i ==> w1[j].parent == w0[j].parent
                    &&& j < i ==> w1[j].parent == if under_open_wrapper(w0, j) {
                        w1[w0[j].parent.unwrap() as int].parent
                    } else {
                        w0[j].parent
                    }
                    &&& j < i ==> !under_open_wrapper(w1, j)
                },
        decreases n - i,
    {
        let ghost prev = world.entities@;
        if world.entities[i].alive {
            match world.entities[i].parent {
                Some(wr) => {
                    let t = world.entities[wr].components.translation;
                    if world.entities[wr].alive && world.entities[wr].components.scene_wrapper && t.x
                        == 0 && t.y == 0 && t.z == 0 {
                        let up = world.entities[wr].parent;
                        world.entities[i].parent = up;
                        proof {
                            assert(wr < i);
                            assert(prev[wr as int] == world.entities@[wr as int]);
                            assert(!under_open_wrapper(prev, wr as int));
                            if up is Some {
                                let u = up.unwrap() as int;
                                assert(u < wr);
                                assert(prev[u] == world.entities@[u]);
                            }
                            assert(!under_open_wrapper(world.entities@, i as int));
                        }
                    }
                },
                None => {},
            }
        }
        proof {
            let w1 = world.entities@;
            assert forall|j: int| 0 <= j < n && j != i implies #[trigger] w1[j] == prev[j] by {}
            assert(w1[i as int].alive == w0[i as int].alive);
            assert(w1[i as int].components == w0[i as int].components);
            assert(prev[i as int].parent == w0[i as int].parent);
            if under_open_wrapper(w0, i as int) {
                let wr = w0[i as int].parent.unwrap() as int;
                assert(prev[wr].alive == w0[wr].alive);
                assert(prev[wr].components == w0[wr].components);
            } else if prev[i as int].parent is Some {
                let wr = prev[i as int].parent.unwrap() as int;
                assert(prev[wr].alive == w0[wr].alive);
                assert(prev[wr].components == w0[wr].components);
                assert(w1[i as int] == prev[i as int]);
                assert(w1[wr] == prev[wr]);
            }
            assert forall|j: int| 0 <= j < i implies {
                &&& w1[j].parent == if under_open_wrapper(w0, j) {
                    w1[w0[j].parent.unwrap() as int].parent
                } else {
                    w0[j].parent
                }
                &&& !under_open_wrapper(w1, j)
            } by {
                assert(w1[j] == prev[j]);
                if w0[j].parent is Some {
                    let q = w0[j].parent.unwrap() as int;
                    assert(q < j);
                    assert(w1[q] == prev[q]);
                }
                if prev[j].parent is Some {
                    let q = prev[j].parent.unwrap() as int;
                    assert(q < j);
                    assert(w1[q] == prev[q]);
                }
            }
        }
        i = i + 1;
    }
}

/// Whether `p` has a live child.
pub(crate) fn live_child_exists(w: &Vec<EntityData>, p: usize) -> (r: bool)
    ensures
        r == has_live_child(w@, p as int),
{
    let mut c: usize = 0;
    while c < w.len()
        invariant
            c <= w@.len(),
            forall|k: int|
                0 <= k < c ==> !(#[trigger] w@[k].parent == Some(p) && w@[k].alive),
        decreases w@.len() - c,
    {
        if w[c].alive && w[c].parent == Some(p) {
            return true;
        }
        c = c + 1;
    }
    false
}

/// Despawns every scene wrapper that the root fix-up has emptied.
pub fn cleanup_scene_instances(world: &mut World)
    requires
        old(world).wf(),
    ensures
        cleanup_post(old(world).entities@, final(world).entities@),
{
    let ghost w1 = world.entities@;
    let n = world.entities.len();
    let mut i: usize = 0;
    while i < n
        invariant
            graph_wf(world.entities@),
            graph_wf(w1),
            n == w1.len(),
            world.entities@.len() == n,
            i <= n,
            forall|j: int|
                #![trigger world.entities@[j]]
                0 <= j < n ==> {
                    let w = world.entities@;
                    &&& w[j].parent == w1[j].parent
                    &&& w[j].components == w1[j].components
                    &&& w[j].alive == if j < i {
                        w1[j].alive && !(w1[j].components@.scene_wrapper && !has_live_child(w1, j))
                    } else {
                        w1[j].alive
                    }
                },
        decreases n - i,
    {
        let ghost prev = world.entities@;
        if world.entities[i].alive && world.entities[i].components.scene_wrapper {
            let busy = live_child_exists(&world.entities, i);
            proof {
                assert(has_live_child(prev, i as int) == has_live_child(w1, i as int)) by {
                    if has_live_child(prev, i as int) {
                        let c = choose|c: int|
                            0 <= c < prev.len() && #[trigger] prev[c].parent == Some(i) && prev[c].alive;
                        assert(w1[c].parent == Some(i));
                    }
                    if has_live_child(w1, i as int) {
                        let c = choose|c: int|
                            0 <= c < w1.len() && #[trigger] w1[c].parent == Some(i) && w1[c].alive;
                        assert(prev[c].parent == Some(i));
                    }
                }
            }
            if !busy {
                world.entities[i].alive = false;
                proof {
                    let w = world.entities@;
                    assert forall|j: int| 0 <= j < n && w[j].parent is Some implies {
                        &&& w[j].parent.unwrap() < j
                        &&& (w[j].alive ==> w[w[j].parent.unwrap() as int].alive)
                    } by {
                        assert(w[j].parent == prev[j].parent);
                        if w[j].parent == Some(i) && w[j].alive {
                            assert(prev[j].alive);
                        }
                    }
                }
            }
        }
        i = i + 1;
    }
}

/// After the root fix-up and cleanup, no open scene wrapper is left alive: the
/// instantiation's bookkeeping entities do not leak.
pub proof fn lemma_no_wrapper_left(w0: Seq<EntityData>, w1: Seq<EntityData>, w2: Seq<EntityData>)
    requires
        w0.len() <= usize::MAX,
        normalize_post(w0, w1),
        cleanup_post(w1, w2),
    ensures
        forall|j: int| 0 <= j < w2.len() ==> !is_open_wrapper(#[trigger] w2[j]),
{
    assert forall|j: int| 0 <= j < w2.len() implies !is_open_wrapper(#[trigger] w2[j]) by {
        if is_open_wrapper(w2[j]) {
            assert(w2[j].components == w1[j].components);
            assert(w1[j].alive);
            if has_live_child(w1, j) {
                let c = choose|c: int|
                    0 <= c < w1.len() && #[trigger] w1[c].parent == Some(j as usize) && w1[c].alive;
                assert(under_open_wrapper(w1, c));
            }
        }
    }
}


/// Position of `j` along axis `a` in the frame of its topmost ancestor.
pub open spec fn world_offset(w: Seq<EntityData>, j: int, a: int) -> int
    decreases j,
{
    if 0 <= j < w.len() && w[j].parent is Some && w[j].parent.unwrap() < j {
        world_offset(w, w[j].parent.unwrap() as int, a) + axis(w[j].components@.translation, a)
    } else if 0 <= j < w.len() {
        axis(w[j].components@.translation, a)
    } else {
        0
    }
}

/// The root fix-up moves no entity: every entity keeps its position in the frame of its
/// topmost ancestor.
pub proof fn lemma_normalize_keeps_positions(w0: Seq<EntityData>, w1: Seq<EntityData>, j: int, a: int)
    requires
        graph_wf(w0),
        normalize_post(w0, w1),
        0 <= j < w0.len(),
    ensures
        world_offset(w1, j, a) == world_offset(w0, j, a),
    decreases j,
{
    assert(w1[j].components == w0[j].components);
    if under_open_wrapper(w0, j) {
        let wr = w0[j].parent.unwrap() as int;
        lemma_normalize_keeps_positions(w0, w1, wr, a);
        assert(w1[wr].components == w0[wr].components);
        if w1[wr].parent is Some {
            let up = w1[wr].parent.unwrap() as int;
            assert(up < wr);
            assert(world_offset(w1, wr, a) == world_offset(w1, up, a));
        }
    } else if w0[j].parent is Some {
        lemma_normalize_keeps_positions(w0, w1, w0[j].parent.unwrap() as int, a);
    }
}

} // verus!
