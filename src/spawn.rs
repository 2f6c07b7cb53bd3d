use vstd::prelude::*;
use crate::config::{BluePrintsConfig, BlueprintsLibrary, BlueprintError, GltfFormat};
use crate::graph::{Aabb, Components, EntityData, Vec3, World, graph_wf};
use crate::resolver::{library_wf, resolve_blueprint, resolved_path};

verus! {

/// One node of a loaded scene; a node's parent comes before it.
pub struct SceneNode {
    pub parent: Option<usize>,
    pub translation: Vec3,
    pub geometry: Option<Aabb>,
}

/// A scene asset as the loader holds it: pending until `ready`, then its nodes.
pub struct SceneAsset {
    pub path: String,
    pub ready: bool,
    pub nodes: Vec<SceneNode>,
}

/// The asset loader's table of requested scenes; a handle is an index into it.
pub struct AssetStore {
    pub assets: Vec<SceneAsset>,
}

pub open spec fn nodes_wf(nodes: Seq<SceneNode>) -> bool {
    forall|k: int|
        0 <= k < nodes.len() && (#[trigger] nodes[k].parent) is Some ==> nodes[k].parent.unwrap()
            < k
}

/// Paths are unique, and every scene's nodes are ordered parents first.
pub open spec fn store_wf(a: Seq<SceneAsset>) -> bool {
    &&& forall|h: int| 0 <= h < a.len() ==> nodes_wf(#[trigger] a[h].nodes@)
    &&& forall|h1: int, h2: int|
        0 <= h1 < a.len() && 0 <= h2 < a.len() && h1 != h2 ==> (#[trigger] a[h1].path)@
            != (#[trigger] a[h2].path)@
}

/// The asset at path `p` has finished loading.
pub open spec fn asset_ready(a: Seq<SceneAsset>, p: Seq<char>) -> bool {
    exists|h: int| 0 <= h < a.len() && (#[trigger] a[h].path)@ == p && a[h].ready
}

/// The live entity `j` has a live child.
pub open spec fn has_live_child(w: Seq<EntityData>, j: int) -> bool {
    exists|c: int| 0 <= c < w.len() && #[trigger] w[c].parent == Some(j as usize) && w[c].alive
}

impl AssetStore {
    pub open spec fn wf(&self) -> bool {
        store_wf(self.assets@)
    }

    /// An empty store.
    pub fn new() -> (r: AssetStore)
        ensures
            r.wf(),
            r.assets@.len() == 0,
    {
        AssetStore { assets: Vec::new() }
    }

    /// Requests the scene at `path`: the handle of the entry already there, or of a new
    /// pending entry.
    pub fn request(&mut self, path: String) -> (r: usize)
        requires
            old(self).wf(),
        ensures
            final(self).wf(),
            r < final(self).assets@.len(),
            final(self).assets@[r as int].path@ == path@,
            old(self).assets@.len() <= final(self).assets@.len(),
            forall|h: int|
                0 <= h < old(self).assets@.len() ==> #[trigger] final(self).assets@[h]
                    == old(self).assets@[h],
            r >= old(self).assets@.len() ==> !final(self).assets@[r as int].ready,
            final(self).assets@.len() == old(self).assets@.len() || (final(self).assets@.len()
                == old(self).assets@.len() + 1 && r == old(self).assets@.len()),
            (exists|h: int|
                0 <= h < old(self).assets@.len() && (#[trigger] old(self).assets@[h].path)@
                    == path@) ==> r < old(self).assets@.len(),
    {
        let mut i: usize = 0;
        while i < self.assets.len()
            invariant
                store_wf(self.assets@),
                i <= self.assets@.len(),
                forall|j: int| 0 <= j < i ==> (#[trigger] self.assets@[j].path)@ != path@,
            decreases self.assets@.len() - i,
        {
            if self.assets[i].path == path {
                return i;
            }
            i = i + 1;
        }
        let r = self.assets.len();
        self.assets.push(SceneAsset { path, ready: false, nodes: Vec::new() });
        proof {
            assert(nodes_wf(self.assets@[r as int].nodes@));
        }
        r
    }
}

/// The entity made for node `k` of a scene instantiated with wrapper `wr`.
pub open spec fn node_entity(nodes: Seq<SceneNode>, k: int, wr: int, e: EntityData) -> bool {
    &&& e.alive
    &&& e.parent == match nodes[k].parent {
        None => Some(wr as usize),
        Some(p) => Some((wr + 1 + p) as usize),
    }
    &&& e.components@.translation == nodes[k].translation
    &&& e.components@.geometry == nodes[k].geometry
    &&& e.components@.blueprint is None
    &&& !e.components@.spawn_here
    &&& e.components@.scene is None
    &&& !e.components@.scene_wrapper
    &&& e.components@.aabb is None
}

/// Instantiates `nodes` below `e`: a synthetic wrapper as `e`'s child, the scene's roots
/// below it and every other node below its parent node. Returns the wrapper's id.
pub fn instantiate_scene(world: &mut World, e: usize, nodes: &Vec<SceneNode>) -> (wr: usize)
    requires
        old(world).wf(),
        e < old(world).entities@.len(),
        old(world).entities@[e as int].alive,
        nodes_wf(nodes@),
    ensures
        final(world).wf(),
        wr == old(world).entities@.len(),
        final(world).entities@.len() == wr + 1 + nodes@.len(),
        forall|j: int|
            0 <= j < old(world).entities@.len() ==> #[trigger] final(world).entities@[j]
                == old(world).entities@[j],
        final(world).entities@[wr as int].alive,
        final(world).entities@[wr as int].parent == Some(e),
        final(world).entities@[wr as int].components@.scene_wrapper,
        final(world).entities@[wr as int].components@.translation == (Vec3 { x: 0, y: 0, z: 0 }),
        !final(world).entities@[wr as int].components@.spawn_here,
        final(world).entities@[wr as int].components@.geometry is None,
        final(world).entities@[wr as int].components@.aabb is None,
        forall|k: int|
            0 <= k < nodes@.len() ==> node_entity(
                nodes@,
                k,
                wr as int,
                #[trigger] final(world).entities@[wr + 1 + k],
            ),
{
    let ghost w0 = world.entities@;
    let mut c = Components::empty();
    c.scene_wrapper = true;
    let wr = world.spawn(Some(e), c);
    let mut k: usize = 0;
    while k < nodes.len()
        invariant
            graph_wf(world.entities@),
            nodes_wf(nodes@),
            wr == w0.len(),
            k <= nodes@.len(),
            world.entities@.len() == wr + 1 + k,
            forall|j: int| 0 <= j < w0.len() ==> #[trigger] world.entities@[j] == w0[j],
            world.entities@[wr as int].alive,
            world.entities@[wr as int].parent == Some(e),
            world.entities@[wr as int].components@.scene_wrapper,
            world.entities@[wr as int].components@.translation == (Vec3 { x: 0, y: 0, z: 0 }),
            !world.entities@[wr as int].components@.spawn_here,
            world.entities@[wr as int].components@.geometry is None,
            world.entities@[wr as int].components@.aabb is None,
            forall|q: int|
                0 <= q < k ==> node_entity(nodes@, q, wr as int, #[trigger] world.entities@[wr + 1 + q]),
        decreases nodes@.len() - k,
    {
        let cur = world.entities.len();
        let parent = match nodes[k].parent {
            None => wr,
            Some(p) => {
                assert(p < k);
                wr + 1 + p
            },
        };
        assert(world.entities@[parent as int].alive) by {
            if parent != wr {
                let q = (parent - wr - 1) as int;
                assert(node_entity(nodes@, q, wr as int, world.entities@[wr + 1 + q]));
            }
        }
        let mut c = Components::empty();
        c.translation = nodes[k].translation;
        c.geometry = nodes[k].geometry;
        let ghost before = world.entities@;
        world.spawn(Some(parent), c);
        assert(forall|q: int| 0 <= q < before.len() ==> world.entities@[q] == before[q]);
        k = k + 1;
    }
    wr
}


/// The entity is waiting for its blueprint: live, flagged to spawn, named, and not itself a
/// scene wrapper.
pub open spec fn is_pending(e: EntityData) -> bool {
    &&& e.alive
    &&& e.components@.spawn_here
    &&& e.components@.blueprint is Some
    &&& !e.components@.scene_wrapper
}

/// The handle of the asset at path `p`.
pub open spec fn asset_at(a: Seq<SceneAsset>, p: Seq<char>) -> int {
    choose|h: int| 0 <= h < a.len() && (#[trigger] a[h].path)@ == p
}

/// Scene `nodes` stands instantiated below `j`: the wrapper `wr` is a live child of `j` with
/// no offset, and after it comes one entity per node, in node order.
pub open spec fn placed_scene(w: Seq<EntityData>, j: int, wr: int, nodes: Seq<SceneNode>) -> bool {
    &&& j < wr
    &&& wr + 1 + nodes.len() <= w.len()
    &&& w[wr].alive
    &&& w[wr].parent == Some(j as usize)
    &&& w[wr].components@.scene_wrapper
    &&& w[wr].components@.translation == (Vec3 { x: 0, y: 0, z: 0 })
    &&& forall|k: int| 0 <= k < nodes.len() ==> node_entity(nodes, k, wr, #[trigger] w[wr + 1 + k])
}

/// The entity's blueprint, the scene `nodes`, has been instantiated below it.
pub open spec fn is_spawned(w: Seq<EntityData>, j: int, nodes: Seq<SceneNode>) -> bool {
    &&& !w[j].components@.spawn_here
    &&& w[j].components@.scene is None
    &&& has_live_child(w, j)
    &&& exists|wr: int| #[trigger] placed_scene(w, j, wr, nodes)
}

/// What one spawn pass does to entity `j` (`e0` before, `w1[j]` after), given the
/// asset table `a0` at the start of the pass and `a1` at its end.
pub open spec fn spawn_outcome(
    e0: EntityData,
    w1: Seq<EntityData>,
    j: int,
    a0: Seq<SceneAsset>,
    a1: Seq<SceneAsset>,
    library: BlueprintsLibrary,
    format: GltfFormat,
    folder_files: Seq<String>,
) -> bool {
    let e1 = w1[j];
    let c0 = e0.components@;
    let c1 = e1.components@;
    &&& e1.alive == e0.alive
    &&& e1.parent == e0.parent
    &&& c1.blueprint == c0.blueprint
    &&& c1.scene_wrapper == c0.scene_wrapper
    &&& c1.translation == c0.translation
    &&& c1.geometry == c0.geometry
    &&& c1.aabb == c0.aabb
    &&& !is_pending(e0) ==> e1 == e0
    &&& is_pending(e0) ==> {
        let rp = resolved_path(library, format, c0.blueprint.unwrap(), folder_files);
        match c0.scene {
            None => match rp {
                None => c1.spawn_here && c1.scene is None && c1.unknown_reported,
                Some(p) => if asset_ready(a0, p) {
                    is_spawned(w1, j, a0[asset_at(a0, p)].nodes@)
                } else {
                    &&& c1.spawn_here
                    &&& c1.unknown_reported == c0.unknown_reported
                    &&& c1.scene is Some
                    &&& c1.scene.unwrap() < a1.len()
                    &&& a1[c1.scene.unwrap() as int].path@ == p
                },
            },
            Some(h) => if h < a0.len() && a0[h as int].ready {
                is_spawned(w1, j, a0[h as int].nodes@)
            } else {
                e1 == e0
            },
        }
    }
}

/// Whether one spawn pass reports entity `e` as naming an unknown blueprint: the first
/// time its name fails to resolve.
pub open spec fn reports_unknown(
    e: EntityData,
    library: BlueprintsLibrary,
    format: GltfFormat,
    folder_files: Seq<String>,
) -> bool {
    &&& is_pending(e)
    &&& e.components@.scene is None
    &&& !e.components@.unknown_reported
    &&& resolved_path(library, format, e.components@.blueprint.unwrap(), folder_files) is None
}

/// What holds of an entity `c` created by a spawn pass over a world of `n` entities: it is
/// live and has no box; a wrapper adds no offset; and an older parent is an entity that the
/// pass spawned, of which `c` is the wrapper.
pub open spec fn fresh_entity(n: int, w: Seq<EntityData>, c: int) -> bool {
    &&& w[c].alive
    &&& w[c].components@.aabb is None
    &&& w[c].components@.scene_wrapper ==> w[c].components@.translation == (Vec3 { x: 0, y: 0, z: 0 })
    &&& w[c].parent is Some && w[c].parent.unwrap() < n ==> {
        &&& w[c].components@.scene_wrapper
        &&& !w[w[c].parent.unwrap() as int].components@.spawn_here
    }
}

/// Advances entity `i` through its spawn states; returns whether it was reported as naming
/// an unknown blueprint.
fn spawn_entity(
    world: &mut World,
    store: &mut AssetStore,
    library: &BlueprintsLibrary,
    format: GltfFormat,
    folder_files: &Vec<String>,
    i: usize,
) -> (reported: bool)
    requires
        old(world).wf(),
        old(store).wf(),
        library_wf(*library),
        i < old(world).entities@.len(),
    ensures
        final(world).wf(),
        final(store).wf(),
        old(world).entities@.len() <= final(world).entities@.len(),
        forall|j: int|
            0 <= j < old(world).entities@.len() && j != i ==> #[trigger] final(world).entities@[j]
                == old(world).entities@[j],
        forall|j: int|
            old(world).entities@.len() <= j < final(world).entities@.len() ==> fresh_entity(
                old(world).entities@.len() as int,
                final(world).entities@,
                j,
            ),
        old(store).assets@.len() <= final(store).assets@.len(),
        forall|h: int|
            0 <= h < old(store).assets@.len() ==> #[trigger] final(store).assets@[h]
                == old(store).assets@[h],
        forall|h: int|
            old(store).assets@.len() <= h < final(store).assets@.len() ==> !final(store).assets@[h].ready,
        spawn_outcome(
            old(world).entities@[i as int],
            final(world).entities@,
            i as int,
            old(store).assets@,
            final(store).assets@,
            *library,
            format,
            folder_files@,
        ),
        reported == reports_unknown(old(world).entities@[i as int], *library, format, folder_files@),
{
    let ghost w0 = world.entities@;
    let pending = world.entities[i].alive && world.entities[i].components.spawn_here
        && world.entities[i].components.blueprint.is_some()
        && !world.entities[i].components.scene_wrapper;
    if !pending {
        return false;
    }
    if world.entities[i].components.scene.is_none() {
        let res = match &world.entities[i].components.blueprint {
            Some(name) => resolve_blueprint(library, format, name, folder_files),
            None => Err(BlueprintError::UnknownBlueprint),
        };
        match res {
            Err(_) => {
                if world.entities[i].components.unknown_reported {
                    return false;
                }
                world.entities[i].components.unknown_reported = true;
                return true;
            },
            Ok(path) => {
                let ghost p = path@;
                let h = store.request(path);
                world.entities[i].components.scene = Some(h);
                proof {
                    if asset_ready(old(store).assets@, p) {
                        let h0 = choose|h0: int|
                            0 <= h0 < old(store).assets@.len()
                                && (#[trigger] old(store).assets@[h0].path)@ == p
                                && old(store).assets@[h0].ready;
                        assert(store.assets@[h0] == old(store).assets@[h0]);
                        assert(h as int == h0);
                        let hc = asset_at(old(store).assets@, p);
                        assert(old(store).assets@[hc].path@ == p);
                        assert(hc == h0);
                    }
                }
            },
        }
    }
    let h = world.entities[i].components.scene.unwrap();
    if h < store.assets.len() && store.assets[h].ready {
        let wr = instantiate_scene(world, i, &store.assets[h].nodes);
        let _len = world.entities.len();
        world.entities[i].components.spawn_here = false;
        world.entities[i].components.scene = None;
        assert(world.entities@[wr as int].parent == Some(i));
        assert(has_live_child(world.entities@, i as int));
        assert(h < old(store).assets@.len());
        assert(placed_scene(world.entities@, i as int, wr as int, store.assets@[h as int].nodes@));
        assert forall|j: int| wr <= j < world.entities@.len() implies fresh_entity(
            w0.len() as int,
            world.entities@,
            j,
        ) by {
            if j > wr {
                let k = j - wr - 1;
                assert(node_entity(store.assets@[h as int].nodes@, k, wr as int, world.entities@[wr + 1 + k]));
                assert(world.entities@[j].parent.unwrap() >= wr);
            } else {
                assert(world.entities@[j].parent == Some(i));
                assert(!world.entities@[i as int].components@.spawn_here);
            }
        }
    }
    false
}


proof fn lemma_live_child_kept(prev: Seq<EntityData>, w: Seq<EntityData>, j: int)
    requires
        prev.len() <= w.len(),
        forall|c: int|
            0 <= c < prev.len() ==> (#[trigger] w[c]).parent == prev[c].parent && w[c].alive
                == prev[c].alive,
        has_live_child(prev, j),
    ensures
        has_live_child(w, j),
{
    let c = choose|c: int| 0 <= c < prev.len() && #[trigger] prev[c].parent == Some(j as usize) && prev[c].alive;
    assert(w[c].parent == prev[c].parent);
}

/// A placed scene survives a step that changes entity `i` only as a spawn outcome does.
proof fn lemma_placed_kept(
    prev: Seq<EntityData>,
    w: Seq<EntityData>,
    i: int,
    j: int,
    wr: int,
    nodes: Seq<SceneNode>,
)
    requires
        prev.len() <= w.len(),
        0 <= i < prev.len(),
        0 <= j,
        forall|c: int| 0 <= c < prev.len() && c != i ==> #[trigger] w[c] == prev[c],
        w[i].alive == prev[i].alive,
        w[i].parent == prev[i].parent,
        w[i].components@.scene_wrapper == prev[i].components@.scene_wrapper,
        w[i].components@.translation == prev[i].components@.translation,
        prev[i].components@.blueprint is None ==> w[i] == prev[i],
        placed_scene(prev, j, wr, nodes),
    ensures
        placed_scene(w, j, wr, nodes),
{
    if wr != i {
        assert(w[wr] == prev[wr]);
    }
    assert forall|k: int| 0 <= k < nodes.len() implies node_entity(nodes, k, wr, #[trigger] w[wr + 1 + k]) by {
        let c = wr + 1 + k;
        assert(node_entity(nodes, k, wr, prev[c]));
        if c == i {
            assert(prev[i].components@.blueprint is None);
            assert(w[i] == prev[i]);
        } else {
            assert(w[c] == prev[c]);
        }
    }
}

proof fn lemma_asset_at_kept(a0: Seq<SceneAsset>, a1: Seq<SceneAsset>, p: Seq<char>)
    requires
        store_wf(a0),
        store_wf(a1),
        a0.len() <= a1.len(),
        forall|h: int| 0 <= h < a0.len() ==> #[trigger] a1[h] == a0[h],
        asset_ready(a0, p),
    ensures
        asset_ready(a1, p),
        asset_at(a1, p) == asset_at(a0, p),
        0 <= asset_at(a0, p) < a0.len(),
{
    let h = choose|h: int| 0 <= h < a0.len() && (#[trigger] a0[h].path)@ == p && a0[h].ready;
    assert(a1[h] == a0[h]);
    let h0 = asset_at(a0, p);
    let h1 = asset_at(a1, p);
    assert(a0[h0].path@ == p);
    assert(a1[h1].path@ == p);
}

/// What a spawn pass leaves, from world `w0` and asset table `a0`: each old entity moved
/// through its spawn states, the reports of unknown names, and the facts of the new entities.
pub open spec fn spawn_pass_post(
    w0: Seq<EntityData>,
    a0: Seq<SceneAsset>,
    w1: Seq<EntityData>,
    a1: Seq<SceneAsset>,
    library: BlueprintsLibrary,
    format: GltfFormat,
    folder_files: Seq<String>,
    reports: Seq<usize>,
) -> bool {
    &&& graph_wf(w1)
    &&& store_wf(a1)
    &&& w0.len() <= w1.len()
    &&& a0.len() <= a1.len()
    &&& forall|h: int| 0 <= h < a0.len() ==> #[trigger] a1[h] == a0[h]
    &&& forall|j: int|
        0 <= j < w0.len() ==> spawn_outcome(
            #[trigger] w0[j],
            w1,
            j,
            a0,
            a1,
            library,
            format,
            folder_files,
        )
    &&& forall|j: int|
        0 <= j < w0.len() ==> (reports.contains(j as usize) <==> reports_unknown(
            #[trigger] w0[j],
            library,
            format,
            folder_files,
        ))
    &&& forall|k: int| 0 <= k < reports.len() ==> reports[k] < w0.len()
    &&& forall|c: int| w0.len() <= c < w1.len() ==> #[trigger] fresh_entity(w0.len() as int, w1, c)
}

/// One spawn pass: every pending entity resolves its blueprint, requests its scene, and is
/// instantiated as soon as the scene has loaded. Returns the entities reported as naming an
/// unknown blueprint, each the first time only.
pub fn spawn_from_blueprints(
    world: &mut World,
    store: &mut AssetStore,
    config: &BluePrintsConfig,
    folder_files: &Vec<String>,
) -> (reports: Vec<usize>)
    requires
        old(world).wf(),
        old(store).wf(),
        library_wf(config.library),
    ensures
        spawn_pass_post(
            old(world).entities@,
            old(store).assets@,
            final(world).entities@,
            final(store).assets@,
            config.library,
            config.format,
            folder_files@,
            reports@,
        ),
{
    let ghost w0 = world.entities@;
    let ghost a0 = store.assets@;
    let n = world.entities.len();
    let mut reports: Vec<usize> = Vec::new();
    let mut i: usize = 0;
    while i < n
        invariant
            graph_wf(world.entities@),
            store_wf(store.assets@),
            store_wf(a0),
            library_wf(config.library),
            n == w0.len(),
            i <= n,
            n <= world.entities@.len(),
            forall|j: int| i <= j < n ==> #[trigger] world.entities@[j] == w0[j],
            forall|j: int|
                0 <= j < n ==> (#[trigger] world.entities@[j]).parent == w0[j].parent
                    && world.entities@[j].alive == w0[j].alive,
            forall|c: int| n <= c < world.entities@.len() ==> #[trigger] fresh_entity(n as int, world.entities@, c),
            a0.len() <= store.assets@.len(),
            forall|h: int| 0 <= h < a0.len() ==> #[trigger] store.assets@[h] == a0[h],
            forall|h: int| a0.len() <= h < store.assets@.len() ==> !(#[trigger] store.assets@[h]).ready,
            forall|j: int|
                0 <= j < i ==> spawn_outcome(
                    #[trigger] w0[j],
                    world.entities@,
                    j,
                    a0,
                    store.assets@,
                    config.library,
                    config.format,
                    folder_files@,
                ),
            forall|j: int|
                0 <= j < n ==> (reports@.contains(j as usize) <==> (j < i && reports_unknown(
                    #[trigger] w0[j],
                    config.library,
                    config.format,
                    folder_files@,
                ))),
            forall|k: int| 0 <= k < reports@.len() ==> reports@[k] < i,
        decreases n - i,
    {
        let ghost prev = world.entities@;
        let ghost aprev = store.assets@;
        let ghost rprev = reports@;
        let reported = spawn_entity(world, store, &config.library, config.format, folder_files, i);
        if reported {
            reports.push(i);
        }
        proof {
            let w = world.entities@;
            let a = store.assets@;
            let ii = i as int;
            assert(prev[ii] == w0[ii]);
            assert forall|j: int| 0 <= j < n implies (reports@.contains(j as usize) <==> (j < i + 1
                && reports_unknown(
                #[trigger] w0[j],
                config.library,
                config.format,
                folder_files@,
            ))) by {
                if reports@.contains(j as usize) {
                    let k = choose|k: int| 0 <= k < reports@.len() && reports@[k] == j as usize;
                    if k < rprev.len() {
                        assert(rprev[k] == j as usize);
                        assert(rprev.contains(j as usize));
                    }
                }
                if j < i + 1 && reports_unknown(w0[j], config.library, config.format, folder_files@) {
                    if j < i {
                        let k = choose|k: int| 0 <= k < rprev.len() && rprev[k] == j as usize;
                        assert(reports@[k] == j as usize);
                    } else {
                        assert(reports@[rprev.len() as int] == i);
                    }
                }
            }
            assert forall|c: int| 0 <= c < prev.len() implies (#[trigger] w[c]).parent
                == prev[c].parent && w[c].alive == prev[c].alive by {
                if c != i {
                    assert(w[c] == prev[c]);
                }
            }
            assert forall|c: int| n <= c < w.len() implies #[trigger] fresh_entity(n as int, w, c) by {
                if c < prev.len() {
                    assert(w[c] == prev[c]);
                    assert(fresh_entity(n as int, prev, c));
                    if w[c].parent is Some && w[c].parent.unwrap() < n {
                        let q = w[c].parent.unwrap() as int;
                        if q != ii {
                            assert(w[q] == prev[q]);
                        } else {
                            assert(!prev[q].components@.spawn_here);
                            assert(!is_pending(w0[ii]));
                        }
                    }
                } else {
                    assert(fresh_entity(prev.len() as int, w, c));
                }
            }
            assert forall|j: int| 0 <= j < i + 1 implies spawn_outcome(
                #[trigger] w0[j],
                w,
                j,
                a0,
                a,
                config.library,
                config.format,
                folder_files@,
            ) by {
                if j < i {
                    assert(w[j] == prev[j]);
                    assert(spawn_outcome(w0[j], prev, j, a0, aprev, config.library, config.format, folder_files@));
                    if has_live_child(prev, j) {
                        lemma_live_child_kept(prev, w, j);
                    }
                    if is_pending(w0[j]) && prev[j].components@.scene is Some {
                        let h = prev[j].components@.scene.unwrap() as int;
                        if h < aprev.len() {
                            assert(a[h] == aprev[h]) by {
                                if h < a0.len() {
                                    assert(aprev[h] == a0[h]);
                                }
                            }
                        }
                    }
                    if is_pending(w0[j]) && !prev[j].components@.spawn_here {
                        let nodes = if w0[j].components@.scene is Some {
                            a0[w0[j].components@.scene.unwrap() as int].nodes@
                        } else {
                            a0[asset_at(
                                a0,
                                resolved_path(
                                    config.library,
                                    config.format,
                                    w0[j].components@.blueprint.unwrap(),
                                    folder_files@,
                                ).unwrap(),
                            )].nodes@
                        };
                        let wr = choose|wr: int| #[trigger] placed_scene(prev, j, wr, nodes);
                        lemma_placed_kept(prev, w, ii, j, wr, nodes);
                    }
                } else {
                    let rp = resolved_path(
                        config.library,
                        config.format,
                        w0[j].components@.blueprint.unwrap(),
                        folder_files@,
                    );
                    if is_pending(w0[j]) && w0[j].components@.scene is None && rp is Some
                        && asset_ready(a0, rp.unwrap()) {
                        lemma_asset_at_kept(a0, aprev, rp.unwrap());
                        assert(aprev[asset_at(aprev, rp.unwrap())] == a0[asset_at(a0, rp.unwrap())]);
                    }
                    if is_pending(w0[j]) && w0[j].components@.scene is None && rp is Some
                        && !asset_ready(a0, rp.unwrap()) {
                        assert(!asset_ready(aprev, rp.unwrap())) by {
                            if asset_ready(aprev, rp.unwrap()) {
                                let h = choose|h: int|
                                    0 <= h < aprev.len() && (#[trigger] aprev[h].path)@ == rp.unwrap()
                                        && aprev[h].ready;
                                assert(h < a0.len());
                                assert(aprev[h] == a0[h]);
                            }
                        }
                    }
                    if is_pending(w0[j]) && w0[j].components@.scene is Some {
                        let h = w0[j].components@.scene.unwrap() as int;
                        if h < aprev.len() && h < a0.len() {
                            assert(aprev[h] == a0[h]);
                        }
                    }
                }
            }
        }
        i = i + 1;
    }
    reports
}

/// What a scene author places: a blueprint name, the spawn flag and a position.
pub struct BluePrintBundle {
    pub blueprint: String,
    pub spawn_here: bool,
    pub translation: Vec3,
}

impl BluePrintBundle {
    /// A placeholder for the blueprint named "default", at the origin, flagged to spawn.
    pub fn default() -> (r: BluePrintBundle)
        ensures
            r.blueprint@ == "default"@,
            r.spawn_here,
            r.translation == (Vec3 { x: 0, y: 0, z: 0 }),
    {
        BluePrintBundle {
            blueprint: String::from_str("default"),
            spawn_here: true,
            translation: Vec3 { x: 0, y: 0, z: 0 },
        }
    }

    /// A placeholder for blueprint `name` at `translation`, flagged to spawn.
    pub fn new(name: String, translation: Vec3) -> (r: BluePrintBundle)
        ensures
            r.blueprint@ == name@,
            r.spawn_here,
            r.translation == translation,
    {
        BluePrintBundle { blueprint: name, spawn_here: true, translation }
    }
}

impl World {
    /// Adds a placeholder entity carrying `bundle` and returns its id.
    pub fn spawn_placeholder(&mut self, parent: Option<usize>, bundle: BluePrintBundle) -> (r: usize)
        requires
            old(self).wf(),
            parent is Some ==> parent.unwrap() < old(self).entities@.len()
                && old(self).entities@[parent.unwrap() as int].alive,
        ensures
            final(self).wf(),
            r == old(self).entities@.len(),
            final(self).entities@.len() == r + 1,
            forall|j: int| 0 <= j < r ==> #[trigger] final(self).entities@[j] == old(self).entities@[j],
            final(self).entities@[r as int].alive,
            final(self).entities@[r as int].parent == parent,
            final(self).entities@[r as int].components@.blueprint == Some(bundle.blueprint@),
            final(self).entities@[r as int].components@.spawn_here == bundle.spawn_here,
            final(self).entities@[r as int].components@.translation == bundle.translation,
            final(self).entities@[r as int].components@.scene is None,
            !final(self).entities@[r as int].components@.scene_wrapper,
            final(self).entities@[r as int].components@.geometry is None,
            final(self).entities@[r as int].components@.aabb is None,
            !final(self).entities@[r as int].components@.unknown_reported,
    {
        let mut c = Components::empty();
        c.blueprint = Some(bundle.blueprint);
        c.spawn_here = bundle.spawn_here;
        c.translation = bundle.translation;
        self.spawn(parent, c)
    }
}


/// A pending entity whose blueprint resolves to a loaded scene is spawned by one pass, and a
/// spawned entity is left as it is by every later pass.
pub proof fn lemma_ready_blueprint_spawns(
    e0: EntityData,
    w1: Seq<EntityData>,
    j: int,
    a0: Seq<SceneAsset>,
    a1: Seq<SceneAsset>,
    library: BlueprintsLibrary,
    format: GltfFormat,
    folder_files: Seq<String>,
    w2: Seq<EntityData>,
    a2: Seq<SceneAsset>,
)
    requires
        is_pending(e0),
        e0.components@.scene is None,
        resolved_path(library, format, e0.components@.blueprint.unwrap(), folder_files) is Some,
        asset_ready(
            a0,
            resolved_path(library, format, e0.components@.blueprint.unwrap(), folder_files).unwrap(),
        ),
        spawn_outcome(e0, w1, j, a0, a1, library, format, folder_files),
        spawn_outcome(w1[j], w2, j, a1, a2, library, format, folder_files),
    ensures
        !w1[j].components@.spawn_here,
        has_live_child(w1, j),
        exists|wr: int|
            #[trigger] placed_scene(
                w1,
                j,
                wr,
                a0[asset_at(
                    a0,
                    resolved_path(library, format, e0.components@.blueprint.unwrap(), folder_files).unwrap(),
                )].nodes@,
            ),
        w2[j] == w1[j],
{
}

} // verus!
