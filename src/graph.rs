use vstd::prelude::*;

verus! {

/// An integer 3-vector (translations and box corners, in fixed units).
#[derive(Debug, Clone, Copy, PartialEq, Eq, Structural)]
pub struct Vec3 {
    pub x: i64,
    pub y: i64,
    pub z: i64,
}

/// An axis-aligned box given by its two corners.
#[derive(Debug, Clone, Copy, PartialEq, Eq, Structural)]
pub struct Aabb {
    pub min: Vec3,
    pub max: Vec3,
}

/// The components an entity may carry.
pub struct Components {
    /// The blueprint name this entity refers to.
    pub blueprint: Option<String>,
    /// Set while the entity's blueprint is still to be instantiated.
    pub spawn_here: bool,
    /// The scene asset being loaded for this entity (index into the asset store).
    pub scene: Option<usize>,
    /// Marks the synthetic wrapper created when a scene is instantiated.
    pub scene_wrapper: bool,
    /// Local translation relative to the parent.
    pub translation: Vec3,
    /// Local bounds of the entity's own geometry, if it has any.
    pub geometry: Option<Aabb>,
    /// Bounding box attached to a spawned blueprint root.
    pub aabb: Option<Aabb>,
    /// Set once an unknown blueprint name on this entity has been reported.
    pub unknown_reported: bool,
}

pub struct ComponentsView {
    pub blueprint: Option<Seq<char>>,
    pub spawn_here: bool,
    pub scene: Option<usize>,
    pub scene_wrapper: bool,
    pub translation: Vec3,
    pub geometry: Option<Aabb>,
    pub aabb: Option<Aabb>,
    pub unknown_reported: bool,
}

pub open spec fn name_view(n: Option<String>) -> Option<Seq<char>> {
    match n {
        Some(s) => Some(s@),
        None => None,
    }
}

impl View for Components {
    type V = ComponentsView;

    open spec fn view(&self) -> ComponentsView {
        ComponentsView {
            blueprint: name_view(self.blueprint),
            spawn_here: self.spawn_here,
            scene: self.scene,
            scene_wrapper: self.scene_wrapper,
            translation: self.translation,
            geometry: self.geometry,
            aabb: self.aabb,
            unknown_reported: self.unknown_reported,
        }
    }
}

impl Components {
    /// Components of a bare entity at the origin.
    pub fn empty() -> (r: Components)
        ensures
            r@.blueprint is None,
            !r@.spawn_here,
            r@.scene is None,
            !r@.scene_wrapper,
            r@.translation == (Vec3 { x: 0, y: 0, z: 0 }),
            r@.geometry is None,
            r@.aabb is None,
            !r@.unknown_reported,
    {
        Components {
            blueprint: None,
            spawn_here: false,
            scene: None,
            scene_wrapper: false,
            translation: Vec3 { x: 0, y: 0, z: 0 },
            geometry: None,
            aabb: None,
            unknown_reported: false,
        }
    }

    /// A deep copy: equal in every component, sharing nothing.
    pub fn copy(&self) -> (r: Components)
        ensures
            r@ == self@,
    {
        let blueprint = match &self.blueprint {
            Some(s) => Some(s.clone()),
            None => None,
        };
        Components {
            blueprint,
            spawn_here: self.spawn_here,
            scene: self.scene,
            scene_wrapper: self.scene_wrapper,
            translation: self.translation,
            geometry: self.geometry,
            aabb: self.aabb,
            unknown_reported: self.unknown_reported,
        }
    }
}

pub struct EntityData {
    /// False once the entity has been despawned.
    pub alive: bool,
    pub parent: Option<usize>,
    pub components: Components,
}

/// The entity graph: entity `i` is `entities[i]`; ids are never reused.
pub struct World {
    pub entities: Vec<EntityData>,
}

/// Parents are created before their children, and a live entity has a live parent.
pub open spec fn graph_wf(w: Seq<EntityData>) -> bool {
    forall|i: int|
        #![trigger w[i].parent]
        0 <= i < w.len() && w[i].parent is Some ==> {
            &&& w[i].parent.unwrap() < i
            &&& (w[i].alive ==> w[w[i].parent.unwrap() as int].alive)
        }
}

/// `i` is `root` or lies below it.
pub open spec fn in_subtree(w: Seq<EntityData>, root: int, i: int) -> bool
    decreases i,
{
    if i == root {
        true
    } else if 0 <= i < w.len() && w[i].parent is Some && w[i].parent.unwrap() < i {
        in_subtree(w, root, w[i].parent.unwrap() as int)
    } else {
        false
    }
}

/// `i` is a live member of the subtree rooted at `root`.
pub open spec fn live_in_subtree(w: Seq<EntityData>, root: int, i: int) -> bool {
    0 <= i < w.len() && w[i].alive && in_subtree(w, root, i)
}

/// Number of live members of the subtree of `root` among ids below `k`.
pub open spec fn live_count(w: Seq<EntityData>, root: int, k: int) -> nat
    decreases k,
{
    if k <= 0 {
        0
    } else {
        live_count(w, root, k - 1) + if live_in_subtree(w, root, k - 1) {
            1nat
        } else {
            0nat
        }
    }
}

/// Number of live descendants of `root`, the root itself not counted.
pub open spec fn descendant_count(w: Seq<EntityData>, root: int) -> int {
    live_count(w, root, w.len() as int) - 1
}

pub proof fn lemma_subtree_root_le(w: Seq<EntityData>, root: int, i: int)
    requires
        in_subtree(w, root, i),
    ensures
        root <= i,
    decreases i,
{
    if i != root {
        lemma_subtree_root_le(w, root, w[i].parent.unwrap() as int);
    }
}

/// Membership depends only on the parent links at and below `i`.
pub proof fn lemma_subtree_same_links(w1: Seq<EntityData>, w2: Seq<EntityData>, root: int, i: int)
    requires
        0 <= i < w1.len(),
        i < w2.len(),
        forall|j: int| 0 <= j <= i ==> #[trigger] w1[j].parent == w2[j].parent,
    ensures
        in_subtree(w1, root, i) == in_subtree(w2, root, i),
    decreases i,
{
    if i != root && w1[i].parent is Some && w1[i].parent.unwrap() < i {
        lemma_subtree_same_links(w1, w2, root, w1[i].parent.unwrap() as int);
    }
}

pub proof fn lemma_live_count_zero(w: Seq<EntityData>, root: int, k: int)
    requires
        k <= root,
    ensures
        live_count(w, root, k) == 0,
    decreases k,
{
    if k > 0 {
        lemma_live_count_zero(w, root, k - 1);
        if in_subtree(w, root, k - 1) {
            lemma_subtree_root_le(w, root, k - 1);
        }
    }
}

/// Marks, for every id, whether it lies in the subtree of `root`.
pub fn subtree_marks(w: &Vec<EntityData>, root: usize) -> (m: Vec<bool>)
    requires
        graph_wf(w@),
    ensures
        m@.len() == w@.len(),
        forall|i: int| 0 <= i < w@.len() ==> #[trigger] m@[i] == in_subtree(w@, root as int, i),
{
    let mut m: Vec<bool> = Vec::new();
    let mut i: usize = 0;
    while i < w.len()
        invariant
            graph_wf(w@),
            i <= w@.len(),
            m@.len() == i,
            forall|j: int| 0 <= j < i ==> #[trigger] m@[j] == in_subtree(w@, root as int, j),
        decreases w@.len() - i,
    {
        let b = if i == root {
            true
        } else {
            match w[i].parent {
                Some(p) => {
                    assert(w@[i as int].parent.unwrap() < i);
                    m[p]
                },
                None => false,
            }
        };
        m.push(b);
        i = i + 1;
    }
    m
}


pub proof fn lemma_live_count_mono(w: Seq<EntityData>, root: int, a: int, b: int)
    requires
        a <= b,
    ensures
        live_count(w, root, a) <= live_count(w, root, b),
    decreases b - a,
{
    if a < b {
        lemma_live_count_mono(w, root, a, b - 1);
    }
}

/// The copy map of a clone: each live member `j` of the source subtree has the copy `m[j]`,
/// equal in its components, with the parent links mirrored and the source order kept.
pub open spec fn clone_map(w0: Seq<EntityData>, src: int, w1: Seq<EntityData>, m: Seq<usize>) -> bool {
    &&& m.len() == w0.len()
    &&& forall|j: int|
        #![trigger m[j]]
        live_in_subtree(w0, src, j) ==> {
            &&& w0.len() <= m[j] < w1.len()
            &&& w1[m[j] as int].alive
            &&& w1[m[j] as int].components@ == w0[j].components@
            &&& w1[m[j] as int].parent == if j == src {
                None::<usize>
            } else {
                Some(m[w0[j].parent.unwrap() as int])
            }
        }
    &&& forall|j1: int, j2: int|
        #![trigger m[j1], m[j2]]
        live_in_subtree(w0, src, j1) && live_in_subtree(w0, src, j2) && j1 < j2 ==> m[j1] < m[j2]
}

/// What a deep clone of the subtree at `src` leaves: the old entities as they were, and after
/// them one new live entity per live member of the subtree, forming a subtree rooted at `r`.
pub open spec fn clone_post(w0: Seq<EntityData>, src: int, w1: Seq<EntityData>, r: int) -> bool {
    &&& graph_wf(w1)
    &&& r == w0.len()
    &&& w1.len() == w0.len() + live_count(w0, src, w0.len() as int)
    &&& forall|j: int| 0 <= j < w0.len() ==> #[trigger] w1[j] == w0[j]
    &&& forall|k: int|
        #![trigger w1[k]]
        w0.len() <= k < w1.len() ==> {
            &&& w1[k].alive
            &&& in_subtree(w1, r, k)
            &&& (w1[k].parent is None <==> k == r)
            &&& (w1[k].parent is Some ==> w0.len() <= w1[k].parent.unwrap())
        }
    &&& exists|m: Seq<usize>| #[trigger] clone_map(w0, src, w1, m)
}

/// What despawning the subtree at `e` leaves: only liveness changes, and exactly the
/// subtree's members die.
pub open spec fn despawn_post(w0: Seq<EntityData>, e: int, w1: Seq<EntityData>) -> bool {
    &&& graph_wf(w1)
    &&& w1.len() == w0.len()
    &&& forall|i: int|
        #![trigger w1[i]]
        0 <= i < w0.len() ==> {
            &&& w1[i].parent == w0[i].parent
            &&& w1[i].components == w0[i].components
            &&& w1[i].alive == (w0[i].alive && !in_subtree(w0, e, i))
        }
}

impl World {
    pub open spec fn wf(&self) -> bool {
        graph_wf(self.entities@)
    }

    /// An empty world.
    pub fn new() -> (r: World)
        ensures
            r.wf(),
            r.entities@.len() == 0,
    {
        World { entities: Vec::new() }
    }

    /// Adds a live entity under `parent` (or as a root) and returns its id.
    pub fn spawn(&mut self, parent: Option<usize>, components: Components) -> (r: usize)
        requires
            old(self).wf(),
            parent is Some ==> parent.unwrap() < old(self).entities@.len()
                && old(self).entities@[parent.unwrap() as int].alive,
        ensures
            final(self).wf(),
            r == old(self).entities@.len(),
            final(self).entities@ == old(self).entities@.push(
                EntityData { alive: true, parent, components },
            ),
    {
        let r = self.entities.len();
        self.entities.push(EntityData { alive: true, parent, components });
        r
    }

    /// Despawns `e` and everything below it.
    pub fn despawn_recursive(&mut self, e: usize)
        requires
            old(self).wf(),
        ensures
            despawn_post(old(self).entities@, e as int, final(self).entities@),
    {
        let ghost w0 = self.entities@;
        let marks = subtree_marks(&self.entities, e);
        let mut i: usize = 0;
        while i < self.entities.len()
            invariant
                graph_wf(w0),
                marks@.len() == w0.len(),
                forall|j: int| 0 <= j < w0.len() ==> #[trigger] marks@[j] == in_subtree(w0, e as int, j),
                self.entities@.len() == w0.len(),
                i <= w0.len(),
                forall|j: int|
                    #![trigger self.entities@[j]]
                    0 <= j < w0.len() ==> {
                        &&& self.entities@[j].parent == w0[j].parent
                        &&& self.entities@[j].components == w0[j].components
                        &&& self.entities@[j].alive == if j < i {
                            w0[j].alive && !in_subtree(w0, e as int, j)
                        } else {
                            w0[j].alive
                        }
                    },
            decreases w0.len() - i,
        {
            if marks[i] {
                self.entities[i].alive = false;
            }
            i = i + 1;
        }
        proof {
            let w1 = self.entities@;
            assert forall|j: int| 0 <= j < w1.len() && w1[j].parent is Some implies {
                &&& w1[j].parent.unwrap() < j
                &&& (w1[j].alive ==> w1[w1[j].parent.unwrap() as int].alive)
            } by {
                assert(w0[j].parent == w1[j].parent);
                let p = w0[j].parent.unwrap() as int;
                assert(w1[p].parent == w0[p].parent);
                if w1[j].alive && in_subtree(w0, e as int, p) {
                    assert(in_subtree(w0, e as int, j));
                }
            }
        }
    }

    /// Deep-copies the live subtree at `src` as a new root entity and returns the copy's id.
    pub fn clone_entity(&mut self, src: usize) -> (r: usize)
        requires
            old(self).wf(),
            src < old(self).entities@.len(),
            old(self).entities@[src as int].alive,
        ensures
            clone_post(old(self).entities@, src as int, final(self).entities@, r as int),
    {
        let ghost w0 = self.entities@;
        let n = self.entities.len();
        let marks = subtree_marks(&self.entities, src);
        let mut map: Vec<usize> = Vec::new();
        let mut i: usize = 0;
        proof {
            lemma_live_count_zero(w0, src as int, src as int);
        }
        while i < n
            invariant
                graph_wf(w0),
                n == w0.len(),
                src < n,
                w0[src as int].alive,
                marks@.len() == n,
                forall|j: int| 0 <= j < n ==> #[trigger] marks@[j] == in_subtree(w0, src as int, j),
                i <= n,
                live_count(w0, src as int, src as int) == 0,
                map@.len() == i,
                graph_wf(self.entities@),
                self.entities@.len() == n + live_count(w0, src as int, i as int),
                forall|j: int| 0 <= j < n ==> #[trigger] self.entities@[j] == w0[j],
                forall|j: int|
                    #![trigger map@[j]]
                    0 <= j < i && live_in_subtree(w0, src as int, j) ==> map@[j] == n + live_count(
                        w0,
                        src as int,
                        j,
                    ),
                forall|j: int|
                    #![trigger map@[j]]
                    0 <= j < i && live_in_subtree(w0, src as int, j) ==> {
                        let w1 = self.entities@;
                        &&& n <= map@[j] < w1.len()
                        &&& w1[map@[j] as int].alive
                        &&& w1[map@[j] as int].components@ == w0[j].components@
                        &&& w1[map@[j] as int].parent == if j == src {
                            None::<usize>
                        } else {
                            Some(map@[w0[j].parent.unwrap() as int])
                        }
                    },
                forall|k: int|
                    #![trigger self.entities@[k]]
                    n <= k < self.entities@.len() ==> {
                        let w1 = self.entities@;
                        &&& w1[k].alive
                        &&& in_subtree(w1, n as int, k)
                        &&& (w1[k].parent is None <==> k == n)
                        &&& (w1[k].parent is Some ==> n <= w1[k].parent.unwrap())
                    },
            decreases n - i,
        {
            let ghost before = self.entities@;
            if marks[i] && self.entities[i].alive {
                let parent = if i == src {
                    None
                } else {
                    let p = self.entities[i].parent.unwrap();
                    assert(live_in_subtree(w0, src as int, p as int));
                    Some(map[p])
                };
                let c = self.entities[i].components.copy();
                let id = self.entities.len();
                self.entities.push(EntityData { alive: true, parent, components: c });
                map.push(id);
                proof {
                    let w1 = self.entities@;
                    assert forall|k: int| n <= k < w1.len() implies #[trigger] in_subtree(
                        w1,
                        n as int,
                        k,
                    ) by {
                        if k < id {
                            assert(before[k].alive);
                            lemma_subtree_same_links(before, w1, n as int, k);
                        } else if i != src {
                            let q = map@[w0[i as int].parent.unwrap() as int] as int;
                            assert(before[q].alive);
                            lemma_subtree_same_links(before, w1, n as int, q);
                        } else {
                            lemma_live_count_zero(w0, src as int, i as int);
                        }
                    }
                }
            } else {
                map.push(0);
            }
            i = i + 1;
        }
        proof {
            let w1 = self.entities@;
            assert forall|j1: int, j2: int|
                live_in_subtree(w0, src as int, j1) && live_in_subtree(w0, src as int, j2) && j1
                    < j2 implies #[trigger] map@[j1] < #[trigger] map@[j2] by {
                lemma_live_count_mono(w0, src as int, j1 + 1, j2);
            }
            assert(clone_map(w0, src as int, w1, map@));
        }
        n
    }
}


proof fn lemma_count_fresh_block(w: Seq<EntityData>, n: int, k: int)
    requires
        0 <= n <= k <= w.len(),
        forall|j: int| n <= j < w.len() ==> #[trigger] w[j].alive && in_subtree(w, n, j),
    ensures
        live_count(w, n, k) == k - n,
    decreases k,
{
    if k == n {
        lemma_live_count_zero(w, n, k);
    } else {
        lemma_count_fresh_block(w, n, k - 1);
    }
}

proof fn lemma_fresh_not_below_old(w: Seq<EntityData>, n: int, src: int, k: int)
    requires
        src < n <= k < w.len(),
        forall|j: int|
            n <= j < w.len() && (#[trigger] w[j].parent) is Some ==> n <= w[j].parent.unwrap(),
    ensures
        !in_subtree(w, src, k),
    decreases k,
{
    if w[k].parent is Some && w[k].parent.unwrap() < k {
        lemma_fresh_not_below_old(w, n, src, w[k].parent.unwrap() as int);
    }
}

/// A clone of an entity with N live descendants has N live descendants, and despawning the
/// source afterwards leaves every entity of the clone exactly as it was.
pub proof fn lemma_clone_independent(
    w0: Seq<EntityData>,
    src: int,
    w1: Seq<EntityData>,
    r: int,
    w2: Seq<EntityData>,
)
    requires
        graph_wf(w0),
        0 <= src < w0.len(),
        clone_post(w0, src, w1, r),
        despawn_post(w1, src, w2),
    ensures
        descendant_count(w1, r) == descendant_count(w0, src),
        forall|k: int| w0.len() <= k < w1.len() ==> #[trigger] w2[k] == w1[k],
        descendant_count(w2, r) == descendant_count(w0, src),
{
    let n = w0.len() as int;
    lemma_count_fresh_block(w1, n, w1.len() as int);
    assert forall|k: int| n <= k < w1.len() implies #[trigger] w2[k] == w1[k] by {
        assert(w1[k].alive);
        lemma_fresh_not_below_old(w1, n, src, k);
    }
    assert forall|j: int| n <= j < w2.len() implies #[trigger] w2[j].alive && in_subtree(
        w2,
        n,
        j,
    ) by {
        assert(w2[j] == w1[j]);
        assert forall|i: int| 0 <= i <= j implies #[trigger] w1[i].parent == w2[i].parent by {
            assert(w2[i].parent == w1[i].parent);
        }
        lemma_subtree_same_links(w1, w2, n, j);
    }
    lemma_count_fresh_block(w2, n, w2.len() as int);
}

} // verus!
