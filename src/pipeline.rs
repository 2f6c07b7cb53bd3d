use vstd::prelude::*;
use crate::aabb::{AabbCache, aabb_pass_post, compute_scene_aabbs};
use crate::config::{BluePrintsConfig, BlueprintsLibrary, GltfBlueprintsSet, GltfFormat};
use crate::graph::{EntityData, World, graph_wf};
use crate::post_spawn::{
    cleanup_post,
    cleanup_scene_instances,
    is_open_wrapper,
    lemma_no_wrapper_left,
    normalize_post,
    update_spawned_root_first_child,
};
use crate::resolver::{library_wf, resolved_path};
use crate::spawn::{
    AssetStore,
    SceneAsset,
    asset_at,
    asset_ready,
    fresh_entity,
    is_pending,
    store_wf,
    reports_unknown,
    spawn_from_blueprints,
    spawn_outcome,
    spawn_pass_post,
};

verus! {

/// The steps of one tick, in the order they run; a barrier follows each step that
/// changes the graph.
pub fn tick_phases() -> (r: Vec<GltfBlueprintsSet>)
    ensures
        r@ == seq![GltfBlueprintsSet::Spawn, GltfBlueprintsSet::AfterSpawn],
{
    let mut r = Vec::new();
    r.push(GltfBlueprintsSet::Spawn);
    r.push(GltfBlueprintsSet::AfterSpawn);
    r
}

/// What a full tick does to the old entity `j` (`e0` before, `w[j]` after), given the asset
/// table `a0` before the tick and `a` after it.
pub open spec fn tick_outcome(
    e0: EntityData,
    w: Seq<EntityData>,
    j: int,
    a0: Seq<SceneAsset>,
    a: Seq<SceneAsset>,
    library: BlueprintsLibrary,
    format: GltfFormat,
    folder_files: Seq<String>,
) -> bool {
    let c0 = e0.components@;
    let c1 = w[j].components@;
    &&& c1.blueprint == c0.blueprint
    &&& c1.scene_wrapper == c0.scene_wrapper
    &&& c1.translation == c0.translation
    &&& !is_pending(e0) ==> {
        &&& c1.spawn_here == c0.spawn_here
        &&& c1.scene == c0.scene
        &&& c1.unknown_reported == c0.unknown_reported
    }
    &&& is_pending(e0) ==> {
        let rp = resolved_path(library, format, c0.blueprint.unwrap(), folder_files);
        match c0.scene {
            None => match rp {
                None => c1.spawn_here && c1.scene is None && c1.unknown_reported,
                Some(p) => if asset_ready(a0, p) {
                    &&& !c1.spawn_here
                    &&& c1.scene is None
                } else {
                    &&& c1.spawn_here
                    &&& c1.unknown_reported == c0.unknown_reported
                    &&& c1.scene is Some
                    &&& c1.scene.unwrap() < a.len()
                    &&& a[c1.scene.unwrap() as int].path@ == p
                },
            },
            Some(h) => if h < a0.len() && a0[h as int].ready {
                &&& !c1.spawn_here
                &&& c1.scene is None
            } else {
                &&& c1.spawn_here
                &&& c1.scene == c0.scene
                &&& c1.unknown_reported == c0.unknown_reported
            },
        }
    }
}

/// One tick of the pipeline: spawn pending blueprints, attach bounding boxes when enabled,
/// lift instantiated scenes out of their wrappers, then despawn the emptied wrappers.
/// Returns the entities newly reported as naming an unknown blueprint.
pub fn run_tick(
    world: &mut World,
    store: &mut AssetStore,
    config: &mut BluePrintsConfig,
    folder_files: &Vec<String>,
) -> (reports: Vec<usize>)
    requires
        old(world).wf(),
        old(store).wf(),
        library_wf(old(config).library),
    ensures
        final(world).wf(),
        final(store).wf(),
        final(config).library == old(config).library,
        final(config).format == old(config).format,
        final(config).aabbs == old(config).aabbs,
        !old(config).aabbs ==> final(config).aabb_cache == old(config).aabb_cache,
        old(world).entities@.len() <= final(world).entities@.len(),
        exists|w1: Seq<EntityData>, w2: Seq<EntityData>, w3: Seq<EntityData>|
            #![trigger spawn_pass_post(old(world).entities@, old(store).assets@, w1, final(store).assets@, old(config).library, old(config).format, folder_files@, reports@), normalize_post(w2, w3)]
            {
                &&& spawn_pass_post(
                    old(world).entities@,
                    old(store).assets@,
                    w1,
                    final(store).assets@,
                    old(config).library,
                    old(config).format,
                    folder_files@,
                    reports@,
                )
                &&& aabb_pass_post(
                    w1,
                    old(config).aabb_cache,
                    w2,
                    final(config).aabb_cache,
                    old(config).aabbs,
                )
                &&& normalize_post(w2, w3)
                &&& cleanup_post(w3, final(world).entities@)
            },
        forall|j: int|
            0 <= j < old(world).entities@.len() ==> tick_outcome(
                #[trigger] old(world).entities@[j],
                final(world).entities@,
                j,
                old(store).assets@,
                final(store).assets@,
                old(config).library,
                old(config).format,
                folder_files@,
            ),
        forall|j: int|
            0 <= j < old(world).entities@.len() ==> (reports@.contains(j as usize)
                <==> reports_unknown(
                #[trigger] old(world).entities@[j],
                old(config).library,
                old(config).format,
                folder_files@,
            )),
        forall|c: int|
            old(world).entities@.len() <= c < final(world).entities@.len() ==> !(#[trigger] final(
                world).entities@[c].alive && final(world).entities@[c].components@.scene_wrapper),
        forall|j: int|
            0 <= j < final(world).entities@.len() ==> !is_open_wrapper(
                #[trigger] final(world).entities@[j],
            ),
        !old(config).aabbs ==> forall|j: int|
            #![trigger final(world).entities@[j]]
            0 <= j < final(world).entities@.len() && final(world).entities@[j].components@.aabb is Some
                ==> j < old(world).entities@.len() && final(world).entities@[j].components@.aabb
                == old(world).entities@[j].components@.aabb,
{
    let ghost w0 = world.entities@;
    let ghost a0 = store.assets@;
    let reports = spawn_from_blueprints(world, store, config, folder_files);
    let ghost w1 = world.entities@;
    compute_scene_aabbs(world, config);
    let ghost w2 = world.entities@;
    update_spawned_root_first_child(world);
    let ghost w3 = world.entities@;
    cleanup_scene_instances(world);
    let ghost w4 = world.entities@;
    let ghost a = store.assets@;
    let len = world.entities.len();
    proof {
        let lib = config.library;
        let fmt = config.format;
        let ff = folder_files@;
        assert(len == w4.len());
        lemma_no_wrapper_left(w2, w3, w4);
        lemma_tick_no_box(w0, a0, w1, a, config.aabb_cache, w2, w3, w4, lib, fmt, ff, reports@, config.aabbs, old(config).aabb_cache);
        lemma_tick_no_new_wrapper(w0, a0, w1, a, w2, w3, w4, lib, fmt, ff, reports@);
        lemma_tick_outcomes(w0, a0, w1, a, w2, w3, w4, lib, fmt, ff, reports@);
    }
    reports
}


/// The four steps of a tick, as their contracts give them.
pub open spec fn tick_steps(
    w0: Seq<EntityData>,
    a0: Seq<SceneAsset>,
    w1: Seq<EntityData>,
    a: Seq<SceneAsset>,
    w2: Seq<EntityData>,
    w3: Seq<EntityData>,
    w4: Seq<EntityData>,
    library: BlueprintsLibrary,
    format: GltfFormat,
    folder_files: Seq<String>,
    reports: Seq<usize>,
) -> bool {
    &&& graph_wf(w0)
    &&& store_wf(a0)
    &&& w4.len() <= usize::MAX
    &&& spawn_pass_post(w0, a0, w1, a, library, format, folder_files, reports)
    &&& graph_wf(w2)
    &&& w2.len() == w1.len()
    &&& forall|i: int|
        #![trigger w2[i]]
        0 <= i < w1.len() ==> {
            &&& w2[i].alive == w1[i].alive
            &&& w2[i].parent == w1[i].parent
            &&& w2[i].components@ == (crate::graph::ComponentsView {
                aabb: w2[i].components@.aabb,
                ..w1[i].components@
            })
            &&& w1[i].components@.blueprint is None ==> w2[i] == w1[i]
        }
    &&& normalize_post(w2, w3)
    &&& cleanup_post(w3, w4)
}

proof fn lemma_tick_no_box(
    w0: Seq<EntityData>,
    a0: Seq<SceneAsset>,
    w1: Seq<EntityData>,
    a: Seq<SceneAsset>,
    c1: AabbCache,
    w2: Seq<EntityData>,
    w3: Seq<EntityData>,
    w4: Seq<EntityData>,
    library: BlueprintsLibrary,
    format: GltfFormat,
    folder_files: Seq<String>,
    reports: Seq<usize>,
    aabbs: bool,
    c0: AabbCache,
)
    requires
        tick_steps(w0, a0, w1, a, w2, w3, w4, library, format, folder_files, reports),
        aabb_pass_post(w1, c0, w2, c1, aabbs),
    ensures
        !aabbs ==> forall|j: int|
            #![trigger w4[j]]
            0 <= j < w4.len() && w4[j].components@.aabb is Some ==> j < w0.len()
                && w4[j].components@.aabb == w0[j].components@.aabb,
{
    if !aabbs {
        assert forall|j: int|
            0 <= j < w4.len() && (#[trigger] w4[j]).components@.aabb is Some implies j < w0.len()
                && w4[j].components@.aabb == w0[j].components@.aabb by {
            assert(w4[j].components == w3[j].components);
            assert(w3[j].components == w2[j].components);
            assert(w2[j] == w1[j]);
            if j < w0.len() {
                assert(spawn_outcome(w0[j], w1, j, a0, a, library, format, folder_files));
            } else {
                assert(fresh_entity(w0.len() as int, w1, j));
            }
        }
    }
}

proof fn lemma_tick_no_new_wrapper(
    w0: Seq<EntityData>,
    a0: Seq<SceneAsset>,
    w1: Seq<EntityData>,
    a: Seq<SceneAsset>,
    w2: Seq<EntityData>,
    w3: Seq<EntityData>,
    w4: Seq<EntityData>,
    library: BlueprintsLibrary,
    format: GltfFormat,
    folder_files: Seq<String>,
    reports: Seq<usize>,
)
    requires
        tick_steps(w0, a0, w1, a, w2, w3, w4, library, format, folder_files, reports),
    ensures
        forall|c: int|
            w0.len() <= c < w4.len() ==> !(#[trigger] w4[c].alive && w4[c].components@.scene_wrapper),
{
    lemma_no_wrapper_left(w2, w3, w4);
    assert forall|c: int| w0.len() <= c < w4.len() implies !(#[trigger] w4[c].alive
        && w4[c].components@.scene_wrapper) by {
        assert(fresh_entity(w0.len() as int, w1, c));
        assert(w4[c].components == w3[c].components);
        assert(w3[c].components == w2[c].components);
        assert(w3[c].alive == w2[c].alive);
        if w4[c].alive && w4[c].components@.scene_wrapper {
            assert(is_open_wrapper(w4[c]));
        }
    }
}

proof fn lemma_tick_outcomes(
    w0: Seq<EntityData>,
    a0: Seq<SceneAsset>,
    w1: Seq<EntityData>,
    a: Seq<SceneAsset>,
    w2: Seq<EntityData>,
    w3: Seq<EntityData>,
    w4: Seq<EntityData>,
    library: BlueprintsLibrary,
    format: GltfFormat,
    folder_files: Seq<String>,
    reports: Seq<usize>,
)
    requires
        tick_steps(w0, a0, w1, a, w2, w3, w4, library, format, folder_files, reports),
    ensures
        forall|j: int|
            0 <= j < w0.len() ==> tick_outcome(
                #[trigger] w0[j],
                w4,
                j,
                a0,
                a,
                library,
                format,
                folder_files,
            ),
{
    assert forall|j: int| 0 <= j < w0.len() implies tick_outcome(
        #[trigger] w0[j],
        w4,
        j,
        a0,
        a,
        library,
        format,
        folder_files,
    ) by {
        assert(spawn_outcome(w0[j], w1, j, a0, a, library, format, folder_files));
        assert(w4[j].components == w3[j].components);
        assert(w3[j].components == w2[j].components);
        assert(w2[j].components@.blueprint == w1[j].components@.blueprint);
    }
}

/// A placeholder whose blueprint name is unknown stays pending and, once reported by a
/// tick, is never reported again by a later one.
pub proof fn lemma_unknown_reported_once(
    e0: EntityData,
    w: Seq<EntityData>,
    j: int,
    a0: Seq<SceneAsset>,
    a: Seq<SceneAsset>,
    library: BlueprintsLibrary,
    format: GltfFormat,
    folder_files: Seq<String>,
)
    requires
        tick_outcome(e0, w, j, a0, a, library, format, folder_files),
        reports_unknown(e0, library, format, folder_files),
    ensures
        w[j].components@.spawn_here,
        w[j].components@.scene is None,
        !reports_unknown(w[j], library, format, folder_files),
{
}

} // verus!
