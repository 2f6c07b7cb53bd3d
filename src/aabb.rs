use vstd::prelude::*;
use crate::spawn::has_live_child;
use crate::config::BluePrintsConfig;
use crate::graph::{Aabb, ComponentsView, EntityData, Vec3, World, graph_wf, in_subtree, live_in_subtree, subtree_marks};

verus! {

/// Bounding boxes already computed, by blueprint name; the first entry of a name counts.
pub struct AabbCache {
    pub entries: Vec<(String, Aabb)>,
}

/// The box cached under `name`, if any.
pub open spec fn cache_lookup(entries: Seq<(String, Aabb)>, name: Seq<char>) -> Option<Aabb>
    decreases entries.len(),
{
    if entries.len() == 0 {
        None
    } else {
        match cache_lookup(entries.drop_last(), name) {
            Some(b) => Some(b),
            None => if entries.last().0@ == name {
                Some(entries.last().1)
            } else {
                None
            },
        }
    }
}

impl AabbCache {
    pub open spec fn lookup(&self, name: Seq<char>) -> Option<Aabb> {
        cache_lookup(self.entries@, name)
    }

    /// An empty cache.
    pub fn new() -> (r: AabbCache)
        ensures
            r.entries@.len() == 0,
            forall|n: Seq<char>| r.lookup(n) is None,
    {
        AabbCache { entries: Vec::new() }
    }

    /// The box cached under `name`, if any.
    pub fn get(&self, name: &String) -> (r: Option<Aabb>)
        ensures
            r == self.lookup(name@),
    {
        let mut i: usize = 0;
        while i < self.entries.len()
            invariant
                i <= self.entries@.len(),
                cache_lookup(self.entries@.subrange(0, i as int), name@) is None,
            decreases self.entries@.len() - i,
        {
            assert(self.entries@.subrange(0, i + 1).drop_last() =~= self.entries@.subrange(0, i as int));
            if self.entries[i].0 == *name {
                proof {
                    lemma_lookup_prefix(self.entries@, name@, i as int);
                }
                return Some(self.entries[i].1);
            }
            i = i + 1;
        }
        assert(self.entries@.subrange(0, i as int) =~= self.entries@);
        None
    }

    /// Caches `b` under `name`, which has no entry yet.
    pub fn insert(&mut self, name: String, b: Aabb)
        requires
            old(self).lookup(name@) is None,
        ensures
            forall|n: Seq<char>|
                #[trigger] final(self).lookup(n) == if n == name@ {
                    Some(b)
                } else {
                    old(self).lookup(n)
                },
    {
        let ghost e0 = self.entries@;
        self.entries.push((name, b));
        assert(self.entries@.drop_last() =~= e0);
    }
}

proof fn lemma_lookup_prefix(entries: Seq<(String, Aabb)>, name: Seq<char>, i: int)
    requires
        0 <= i < entries.len(),
        cache_lookup(entries.subrange(0, i), name) is None,
        entries[i].0@ == name,
    ensures
        cache_lookup(entries, name) == Some(entries[i].1),
    decreases entries.len(),
{
    let pre = entries.subrange(0, i + 1);
    assert(pre.drop_last() =~= entries.subrange(0, i));
    if entries.len() > i + 1 {
        assert(entries.drop_last().subrange(0, i) =~= entries.subrange(0, i));
        lemma_lookup_prefix(entries.drop_last(), name, i);
    } else {
        assert(pre =~= entries);
    }
}


/// Coordinate `a` (0, 1 or 2) of `v`.
pub open spec fn axis(v: Vec3, a: int) -> int {
    if a == 0 {
        v.x as int
    } else if a == 1 {
        v.y as int
    } else {
        v.z as int
    }
}

/// Offset of `d` from `root` along axis `a`: the translations on the path below `root`.
pub open spec fn offset(w: Seq<EntityData>, root: int, d: int, a: int) -> int
    decreases d,
{
    if d == root {
        0
    } else if 0 <= d < w.len() && w[d].parent is Some && w[d].parent.unwrap() < d {
        offset(w, root, w[d].parent.unwrap() as int, a) + axis(w[d].components@.translation, a)
    } else {
        0
    }
}

/// `d` is a live member of the subtree of `root` with geometry of its own.
pub open spec fn has_geometry(w: Seq<EntityData>, root: int, d: int) -> bool {
    live_in_subtree(w, root, d) && w[d].components@.geometry is Some
}

/// The low and high corner of `d`'s geometry along axis `a`, in `root`'s frame.
pub open spec fn geom_lo(w: Seq<EntityData>, root: int, d: int, a: int) -> int {
    offset(w, root, d, a) + axis(w[d].components@.geometry.unwrap().min, a)
}

pub open spec fn geom_hi(w: Seq<EntityData>, root: int, d: int, a: int) -> int {
    offset(w, root, d, a) + axis(w[d].components@.geometry.unwrap().max, a)
}

/// Some member below id `k` has geometry.
pub open spec fn any_geometry(w: Seq<EntityData>, root: int, k: int) -> bool
    decreases k,
{
    k > 0 && (any_geometry(w, root, k - 1) || has_geometry(w, root, k - 1))
}

/// The least low corner along axis `a` over the members below id `k` with geometry.
pub open spec fn bound_lo(w: Seq<EntityData>, root: int, k: int, a: int) -> int
    decreases k,
{
    if k <= 0 {
        0
    } else if has_geometry(w, root, k - 1) {
        if any_geometry(w, root, k - 1) {
            vstd::math::min(bound_lo(w, root, k - 1, a), geom_lo(w, root, k - 1, a))
        } else {
            geom_lo(w, root, k - 1, a)
        }
    } else {
        bound_lo(w, root, k - 1, a)
    }
}

/// The greatest high corner along axis `a` over the members below id `k` with geometry.
pub open spec fn bound_hi(w: Seq<EntityData>, root: int, k: int, a: int) -> int
    decreases k,
{
    if k <= 0 {
        0
    } else if has_geometry(w, root, k - 1) {
        if any_geometry(w, root, k - 1) {
            vstd::math::max(bound_hi(w, root, k - 1, a), geom_hi(w, root, k - 1, a))
        } else {
            geom_hi(w, root, k - 1, a)
        }
    } else {
        bound_hi(w, root, k - 1, a)
    }
}

pub open spec fn fits_i64(x: int) -> bool {
    i64::MIN <= x <= i64::MAX
}

/// Every offset and corner met while measuring the subtree of `root` fits in `i64`.
pub open spec fn bounds_fit(w: Seq<EntityData>, root: int) -> bool {
    forall|d: int, a: int|
        0 <= a < 3 && #[trigger] live_in_subtree(w, root, d) ==> {
            &&& fits_i64(#[trigger] offset(w, root, d, a))
            &&& has_geometry(w, root, d) ==> fits_i64(geom_lo(w, root, d, a)) && fits_i64(
                geom_hi(w, root, d, a),
            )
        }
}

/// The box that encloses the geometry of the subtree of `root`, in `root`'s frame: `None`
/// where the subtree has no geometry or its coordinates do not fit.
pub open spec fn scene_bounds(w: Seq<EntityData>, root: int) -> Option<Aabb> {
    let n = w.len() as int;
    if bounds_fit(w, root) && any_geometry(w, root, n) {
        Some(
            Aabb {
                min: Vec3 {
                    x: bound_lo(w, root, n, 0) as i64,
                    y: bound_lo(w, root, n, 1) as i64,
                    z: bound_lo(w, root, n, 2) as i64,
                },
                max: Vec3 {
                    x: bound_hi(w, root, n, 0) as i64,
                    y: bound_hi(w, root, n, 1) as i64,
                    z: bound_hi(w, root, n, 2) as i64,
                },
            },
        )
    } else {
        None
    }
}

/// The sum of two vectors, or `None` where a coordinate overflows.
fn add_vec(a: Vec3, b: Vec3) -> (r: Option<Vec3>)
    ensures
        r is Some <==> forall|k: int| 0 <= k < 3 ==> fits_i64(#[trigger] axis(a, k) + axis(b, k)),
        r is Some ==> forall|k: int| 0 <= k < 3 ==> #[trigger] axis(r->Some_0, k) == axis(a, k) + axis(b, k),
{
    let x = a.x.checked_add(b.x);
    let y = a.y.checked_add(b.y);
    let z = a.z.checked_add(b.z);
    let r = match (x, y, z) {
        (Some(x), Some(y), Some(z)) => Some(Vec3 { x, y, z }),
        _ => None,
    };
    proof {
        if r is None {
            if x is None {
                assert(!fits_i64(axis(a, 0) + axis(b, 0)));
            } else if y is None {
                assert(!fits_i64(axis(a, 1) + axis(b, 1)));
            } else {
                assert(!fits_i64(axis(a, 2) + axis(b, 2)));
            }
        }
    }
    r
}


/// `lo` and `hi` are the corners of the bounds over the members below id `k`.
pub open spec fn box_matches(lo: Vec3, hi: Vec3, w: Seq<EntityData>, root: int, k: int) -> bool {
    forall|a: int|
        0 <= a < 3 ==> #[trigger] axis(lo, a) == bound_lo(w, root, k, a) && axis(hi, a) == bound_hi(
            w,
            root,
            k,
            a,
        )
}

proof fn lemma_bounds_step_empty(w: Seq<EntityData>, root: int, d: int)
    requires
        d >= 0,
        !has_geometry(w, root, d),
    ensures
        any_geometry(w, root, d + 1) == any_geometry(w, root, d),
        forall|a: int|
            #![trigger bound_lo(w, root, d + 1, a)]
            #![trigger bound_hi(w, root, d + 1, a)]
            bound_lo(w, root, d + 1, a) == bound_lo(w, root, d, a) && bound_hi(w, root, d + 1, a)
                == bound_hi(w, root, d, a),
{
}

proof fn lemma_box_step_empty(lo: Vec3, hi: Vec3, w: Seq<EntityData>, root: int, d: int, found: bool)
    requires
        d >= 0,
        !has_geometry(w, root, d),
        found == any_geometry(w, root, d),
        found ==> box_matches(lo, hi, w, root, d),
    ensures
        found == any_geometry(w, root, d + 1),
        found ==> box_matches(lo, hi, w, root, d + 1),
{
    lemma_bounds_step_empty(w, root, d);
    if found {
        assert forall|a: int| 0 <= a < 3 implies #[trigger] axis(lo, a) == bound_lo(w, root, d + 1, a)
            && axis(hi, a) == bound_hi(w, root, d + 1, a) by {
            assert(axis(lo, a) == bound_lo(w, root, d, a));
        }
    }
}

fn min_vec(a: Vec3, b: Vec3) -> (r: Vec3)
    ensures
        forall|k: int| 0 <= k < 3 ==> #[trigger] axis(r, k) == vstd::math::min(axis(a, k), axis(b, k)),
{
    Vec3 {
        x: if a.x <= b.x { a.x } else { b.x },
        y: if a.y <= b.y { a.y } else { b.y },
        z: if a.z <= b.z { a.z } else { b.z },
    }
}

fn max_vec(a: Vec3, b: Vec3) -> (r: Vec3)
    ensures
        forall|k: int| 0 <= k < 3 ==> #[trigger] axis(r, k) == vstd::math::max(axis(a, k), axis(b, k)),
{
    Vec3 {
        x: if a.x >= b.x { a.x } else { b.x },
        y: if a.y >= b.y { a.y } else { b.y },
        z: if a.z >= b.z { a.z } else { b.z },
    }
}

/// Measures the geometry of the subtree of `root`: the least box, in `root`'s frame, that
/// encloses every live member's geometry moved by the member's offset from `root`.
pub fn compute_scene_bounds(w: &Vec<EntityData>, root: usize) -> (r: Option<Aabb>)
    requires
        graph_wf(w@),
    ensures
        r == scene_bounds(w@, root as int),
{
    let ghost ws = w@;
    let ghost rt = root as int;
    let n = w.len();
    let marks = subtree_marks(w, root);
    let zero = Vec3 { x: 0, y: 0, z: 0 };
    let mut offs: Vec<Vec3> = Vec::new();
    let mut found = false;
    let mut lo = zero;
    let mut hi = zero;
    let mut d: usize = 0;
    while d < n
        invariant
            graph_wf(ws),
            ws == w@,
            n == ws.len(),
            rt == root,
            zero == (Vec3 { x: 0, y: 0, z: 0 }),
            d <= n,
            marks@.len() == n,
            forall|j: int| 0 <= j < n ==> #[trigger] marks@[j] == in_subtree(ws, rt, j),
            offs@.len() == d,
            forall|e: int, a: int|
                #![trigger axis(offs@[e], a)]
                #![trigger offset(ws, rt, e, a)]
                0 <= e < d && 0 <= a < 3 && live_in_subtree(ws, rt, e) ==> axis(offs@[e], a)
                    == offset(ws, rt, e, a),
            forall|e: int, a: int|
                0 <= e < d && 0 <= a < 3 && #[trigger] live_in_subtree(ws, rt, e) ==> {
                    &&& fits_i64(#[trigger] offset(ws, rt, e, a))
                    &&& has_geometry(ws, rt, e) ==> fits_i64(geom_lo(ws, rt, e, a)) && fits_i64(
                        geom_hi(ws, rt, e, a),
                    )
                },
            found == any_geometry(ws, rt, d as int),
            found ==> box_matches(lo, hi, ws, rt, d as int),
        decreases n - d,
    {
        if marks[d] && w[d].alive {
            let off = if d == root {
                zero
            } else {
                let p = w[d].parent.unwrap();
                assert(live_in_subtree(ws, rt, p as int));
                let v = match add_vec(offs[p], w[d].components.translation) {
                    Some(v) => v,
                    None => {
                        proof {
                            let a = choose|a: int|
                                0 <= a < 3 && !fits_i64(
                                    #[trigger] axis(offs@[p as int], a) + axis(
                                        ws[d as int].components@.translation,
                                        a,
                                    ),
                                );
                            assert(axis(offs@[p as int], a) == offset(ws, rt, p as int, a));
                            assert(!fits_i64(offset(ws, rt, d as int, a)));
                            assert(live_in_subtree(ws, rt, d as int));
                        }
                        return None;
                    },
                };
                proof {
                    assert forall|a: int| 0 <= a < 3 implies #[trigger] axis(v, a) == offset(
                        ws,
                        rt,
                        d as int,
                        a,
                    ) by {
                        assert(axis(offs@[p as int], a) == offset(ws, rt, p as int, a));
                    }
                }
                v
            };
            assert forall|a: int| 0 <= a < 3 implies #[trigger] axis(off, a) == offset(ws, rt, d as int, a)
                by {
                if d == root {
                    assert(offset(ws, rt, d as int, a) == 0);
                    assert(axis(off, a) == 0);
                }
            }
            match w[d].components.geometry {
                Some(g) => {
                    let l = add_vec(off, g.min);
                    let h = add_vec(off, g.max);
                    if l.is_none() || h.is_none() {
                        proof {
                            assert(live_in_subtree(ws, rt, d as int));
                            assert(has_geometry(ws, rt, d as int));
                            if l is None {
                                let a = choose|a: int|
                                    0 <= a < 3 && !fits_i64(#[trigger] axis(off, a) + axis(g.min, a));
                                assert(!fits_i64(geom_lo(ws, rt, d as int, a)));
                            } else {
                                let a = choose|a: int|
                                    0 <= a < 3 && !fits_i64(#[trigger] axis(off, a) + axis(g.max, a));
                                assert(!fits_i64(geom_hi(ws, rt, d as int, a)));
                            }
                        }
                        return None;
                    }
                    let l = l.unwrap();
                    let h = h.unwrap();
                    assert(forall|a: int|
                        0 <= a < 3 ==> #[trigger] axis(l, a) == geom_lo(ws, rt, d as int, a) && axis(h, a)
                            == geom_hi(ws, rt, d as int, a));
                    let ghost lo0 = lo;
                    let ghost hi0 = hi;
                    let ghost f0 = found;
                    if found {
                        lo = min_vec(lo, l);
                        hi = max_vec(hi, h);
                    } else {
                        lo = l;
                        hi = h;
                    }
                    found = true;
                    proof {
                        let dd = d as int;
                        assert(has_geometry(ws, rt, dd));
                        assert forall|a: int| 0 <= a < 3 implies #[trigger] axis(lo, a) == bound_lo(
                            ws,
                            rt,
                            dd + 1,
                            a,
                        ) && axis(hi, a) == bound_hi(ws, rt, dd + 1, a) by {
                            assert(axis(l, a) == geom_lo(ws, rt, dd, a));
                            assert(axis(h, a) == geom_hi(ws, rt, dd, a));
                            assert(f0 == any_geometry(ws, rt, dd));
                            if f0 {
                                assert(axis(lo0, a) == bound_lo(ws, rt, dd, a));
                                assert(axis(hi0, a) == bound_hi(ws, rt, dd, a));
                            }
                        }
                        assert(box_matches(lo, hi, ws, rt, dd + 1));
                    }
                },
                None => {
                    proof {
                        lemma_box_step_empty(lo, hi, ws, rt, d as int, found);
                    }
                },
            }
            offs.push(off);
            proof {
                let dd = d as int;
                assert forall|e: int, a: int|
                    0 <= e < dd + 1 && 0 <= a < 3 && #[trigger] live_in_subtree(ws, rt, e) implies {
                        &&& fits_i64(#[trigger] offset(ws, rt, e, a))
                        &&& has_geometry(ws, rt, e) ==> fits_i64(geom_lo(ws, rt, e, a)) && fits_i64(
                            geom_hi(ws, rt, e, a),
                        )
                    } by {
                    if e == dd {
                        assert(axis(off, a) == offset(ws, rt, dd, a));
                    }
                }
            }
        } else {
            offs.push(zero);
            proof {
                lemma_box_step_empty(lo, hi, ws, rt, d as int, found);
            }
        }
        d = d + 1;
    }
    if found {
        assert(axis(lo, 0) == bound_lo(ws, rt, n as int, 0));
        assert(axis(lo, 1) == bound_lo(ws, rt, n as int, 1));
        assert(axis(lo, 2) == bound_lo(ws, rt, n as int, 2));
        assert(axis(hi, 0) == bound_hi(ws, rt, n as int, 0));
        assert(axis(hi, 1) == bound_hi(ws, rt, n as int, 1));
        assert(axis(hi, 2) == bound_hi(ws, rt, n as int, 2));
    }
    assert(bounds_fit(ws, rt)) by {
        assert forall|e: int, a: int|
            0 <= a < 3 && #[trigger] live_in_subtree(ws, rt, e) implies {
                &&& fits_i64(#[trigger] offset(ws, rt, e, a))
                &&& has_geometry(ws, rt, e) ==> fits_i64(geom_lo(ws, rt, e, a)) && fits_i64(
                    geom_hi(ws, rt, e, a),
                )
            } by {
            assert(0 <= e < n);
        }
    }
    if found {
        Some(Aabb { min: lo, max: hi })
    } else {
        None
    }
}


/// A spawned blueprint root that has no bounding box yet.
pub open spec fn aabb_candidate(w: Seq<EntityData>, j: int) -> bool {
    &&& 0 <= j < w.len()
    &&& w[j].alive
    &&& w[j].components@.blueprint is Some
    &&& !w[j].components@.spawn_here
    &&& w[j].components@.aabb is None
    &&& has_live_child(w, j)
}

/// What the bounding-box step leaves, from world `w0` and cache `c0`: when enabled, every
/// candidate gets the box cached under its blueprint name, or else the box of its own
/// subtree, which is then cached; nothing else changes.
pub open spec fn aabb_pass_post(
    w0: Seq<EntityData>,
    c0: AabbCache,
    w1: Seq<EntityData>,
    c1: AabbCache,
    enabled: bool,
) -> bool {
    &&& graph_wf(w1)
    &&& w1.len() == w0.len()
    &&& !enabled ==> w1 == w0 && c1 == c0
    &&& forall|j: int|
        #![trigger w1[j]]
        0 <= j < w0.len() ==> {
            &&& w1[j].alive == w0[j].alive
            &&& w1[j].parent == w0[j].parent
            &&& w1[j].components@ == (ComponentsView {
                aabb: w1[j].components@.aabb,
                ..w0[j].components@
            })
            &&& !(enabled && aabb_candidate(w0, j)) ==> w1[j] == w0[j]
            &&& enabled && aabb_candidate(w0, j) ==> {
                let n = w0[j].components@.blueprint.unwrap();
                let b = w1[j].components@.aabb;
                &&& c0.lookup(n) is Some ==> b == c0.lookup(n)
                &&& b is Some ==> c1.lookup(n) == b
                &&& b is None ==> scene_bounds(w0, j) is None
            }
        }
    &&& forall|n: Seq<char>| #[trigger] c0.lookup(n) is Some ==> c1.lookup(n) == c0.lookup(n)
    &&& forall|n: Seq<char>|
        c0.lookup(n) is None && (#[trigger] c1.lookup(n)) is Some ==> exists|j: int|
            #![trigger w0[j]]
            aabb_candidate(w0, j) && w0[j].components@.blueprint == Some(n) && scene_bounds(w0, j)
                == c1.lookup(n)
}

/// Attaches a bounding box to every spawned blueprint root that has none, reusing the box
/// cached under its blueprint name and measuring (and caching) only on a miss. Does nothing
/// when bounding boxes are disabled. Returns how many subtrees were measured.
pub fn compute_scene_aabbs(world: &mut World, config: &mut BluePrintsConfig) -> (measured: usize)
    requires
        old(world).wf(),
    ensures
        aabb_pass_post(
            old(world).entities@,
            old(config).aabb_cache,
            final(world).entities@,
            final(config).aabb_cache,
            old(config).aabbs,
        ),
        final(config).aabbs == old(config).aabbs,
        final(config).format == old(config).format,
        final(config).library == old(config).library,
        (forall|j: int|
            #![trigger old(world).entities@[j]]
            aabb_candidate(old(world).entities@, j) ==> old(config).aabb_cache.lookup(
                old(world).entities@[j].components@.blueprint.unwrap(),
            ) is Some) ==> measured == 0,
{
    if !config.aabbs {
        return 0;
    }
    let ghost w0 = world.entities@;
    let ghost c0 = config.aabb_cache;
    let n = world.entities.len();
    let mut attach: Vec<Option<Aabb>> = Vec::new();
    let mut measured: usize = 0;
    let mut i: usize = 0;
    while i < n
        invariant
            w0 == world.entities@,
            graph_wf(w0),
            config.aabbs == old(config).aabbs,
            config.format == old(config).format,
            config.library == old(config).library,
            n == w0.len(),
            i <= n,
            attach@.len() == i,
            measured <= i,
            (forall|j: int|
                #![trigger w0[j]]
                0 <= j < i && aabb_candidate(w0, j) ==> c0.lookup(
                    w0[j].components@.blueprint.unwrap(),
                ) is Some) ==> measured == 0,
            forall|j: int|
                #![trigger attach@[j]]
                0 <= j < i ==> {
                    &&& !aabb_candidate(w0, j) ==> attach@[j] is None
                    &&& aabb_candidate(w0, j) ==> {
                        let nm = w0[j].components@.blueprint.unwrap();
                        &&& c0.lookup(nm) is Some ==> attach@[j] == c0.lookup(nm)
                        &&& attach@[j] is Some ==> config.aabb_cache.lookup(nm) == attach@[j]
                        &&& attach@[j] is None ==> scene_bounds(w0, j) is None
                    }
                },
            forall|nm: Seq<char>|
                #[trigger] c0.lookup(nm) is Some ==> config.aabb_cache.lookup(nm) == c0.lookup(nm),
            forall|nm: Seq<char>|
                c0.lookup(nm) is None && (#[trigger] config.aabb_cache.lookup(nm)) is Some ==> exists|
                    j: int,
                |
                    #![trigger w0[j]]
                    aabb_candidate(w0, j) && w0[j].components@.blueprint == Some(nm) && scene_bounds(
                        w0,
                        j,
                    ) == config.aabb_cache.lookup(nm),
        decreases n - i,
    {
        let ghost cprev = config.aabb_cache;
        let e = &world.entities[i];
        let mut a: Option<Aabb> = None;
        if e.alive && e.components.blueprint.is_some() && !e.components.spawn_here
            && e.components.aabb.is_none() {
            let busy = crate::post_spawn::live_child_exists(&world.entities, i);
            if busy {
                let name = e.components.blueprint.as_ref().unwrap();
                match config.aabb_cache.get(name) {
                    Some(b) => {
                        a = Some(b);
                    },
                    None => {
                        measured = measured + 1;
                        let bounds = compute_scene_bounds(&world.entities, i);
                        match bounds {
                            Some(b) => {
                                config.aabb_cache.insert(name.clone(), b);
                                a = Some(b);
                            },
                            None => {},
                        }
                    },
                }
            }
        }
        attach.push(a);
        proof {
            let c = config.aabb_cache;
            assert forall|j: int| 0 <= j < i implies {
                let nm = w0[j].components@.blueprint.unwrap();
                aabb_candidate(w0, j) && (#[trigger] attach@[j]) is Some ==> c.lookup(nm) == attach@[j]
            } by {
                let nm = w0[j].components@.blueprint.unwrap();
                if aabb_candidate(w0, j) && attach@[j] is Some {
                    assert(cprev.lookup(nm) == attach@[j]);
                }
            }
            assert forall|nm: Seq<char>|
                c0.lookup(nm) is None && (#[trigger] c.lookup(nm)) is Some implies exists|j: int|
                #![trigger w0[j]]
                aabb_candidate(w0, j) && w0[j].components@.blueprint == Some(nm) && scene_bounds(w0, j)
                    == c.lookup(nm) by {
                if cprev.lookup(nm) is None {
                    assert(aabb_candidate(w0, i as int));
                } else {
                    assert(c.lookup(nm) == cprev.lookup(nm));
                }
            }
        }
        i = i + 1;
    }
    let mut k: usize = 0;
    while k < n
        invariant
            graph_wf(w0),
            graph_wf(world.entities@),
            n == w0.len(),
            world.entities@.len() == n,
            k <= n,
            attach@.len() == n,
            forall|j: int| 0 <= j < n && !aabb_candidate(w0, j) ==> #[trigger] attach@[j] is None,
            forall|j: int|
                #![trigger world.entities@[j]]
                0 <= j < n ==> {
                    &&& world.entities@[j].alive == w0[j].alive
                    &&& world.entities@[j].parent == w0[j].parent
                    &&& world.entities@[j].components@ == (ComponentsView {
                        aabb: world.entities@[j].components@.aabb,
                        ..w0[j].components@
                    })
                    &&& (j >= k || attach@[j] is None) ==> world.entities@[j] == w0[j]
                    &&& j < k && attach@[j] is Some ==> world.entities@[j].components@.aabb
                        == attach@[j]
                },
        decreases n - k,
    {
        let ghost prev = world.entities@;
        match attach[k] {
            Some(b) => {
                world.entities[k].components.aabb = Some(b);
                proof {
                    let w = world.entities@;
                    assert forall|j: int| 0 <= j < n && w[j].parent is Some implies {
                        &&& w[j].parent.unwrap() < j
                        &&& (w[j].alive ==> w[w[j].parent.unwrap() as int].alive)
                    } by {
                        assert(prev[j].parent == w[j].parent);
                        let p = w[j].parent.unwrap() as int;
                        assert(prev[p].alive == w[p].alive);
                    }
                }
            },
            None => {},
        }
        k = k + 1;
    }
    proof {
        let w1 = world.entities@;
        assert forall|j: int| 0 <= j < n && aabb_candidate(w0, j) && attach@[j] is None implies w1[j].components@.aabb is None by {
            assert(w1[j] == w0[j]);
        }
    }
    measured
}


/// A blueprint's box is the same whether the cache was cold or warm: the box a first pass
/// attaches to one instance is the box any later pass attaches to another instance of the
/// same blueprint.
pub proof fn lemma_cached_box_reused(
    w0: Seq<EntityData>,
    c0: AabbCache,
    w1: Seq<EntityData>,
    c1: AabbCache,
    v1: Seq<EntityData>,
    v2: Seq<EntityData>,
    c2: AabbCache,
    j1: int,
    j2: int,
)
    requires
        aabb_pass_post(w0, c0, w1, c1, true),
        aabb_pass_post(v1, c1, v2, c2, true),
        aabb_candidate(w0, j1),
        aabb_candidate(v1, j2),
        v1[j2].components@.blueprint == w0[j1].components@.blueprint,
        w1[j1].components@.aabb is Some,
    ensures
        v2[j2].components@.aabb == w1[j1].components@.aabb,
        c2.lookup(w0[j1].components@.blueprint.unwrap()) == w1[j1].components@.aabb,
{
}

} // verus!
