//! Closest-hit search over a scene of spheres.
//!
//! A ray–sphere test yields up to two quadratic roots, the near one not
//! beyond the far one. The renderer computes the roots numerically and
//! hands this module each entity's pair as *order keys*: unsigned integers
//! whose numeric order matches the order of the parametric distances
//! (the caller owes that mapping; a missing root maps to the largest key).
//! Over those keys this module is exact: which root a sphere reports
//! inside an open interval, and which entity the scene-wide scan selects.
//!
//! The scan visits the entities once, in insertion order, tightening the
//! upper bound to the closest hit found so far, so only a strictly closer
//! hit overwrites the record: on equal distances the first entity wins.

use vstd::prelude::*;

verus! {

/// The two quadratic roots of one entity's ray test, as order keys.
#[derive(Clone, Copy, PartialEq, Eq, Structural, Debug)]
pub struct RootPair {
    /// The smaller root (the first crossing along the ray).
    pub near: u64,
    /// The larger root (the second crossing along the ray).
    pub far: u64,
}

/// Which root a sphere reports for the open interval `(t_min, t_max)`:
/// the near root when it lies strictly inside, else the far root when it
/// does, else no hit. Both bounds are strict, so a root exactly at either
/// end — tangency at the interval's edge included — is a miss.
pub open spec fn spec_select_root(roots: RootPair, t_min: u64, t_max: u64) -> Option<u64> {
    if t_min < roots.near && roots.near < t_max {
        Some(roots.near)
    } else if t_min < roots.far && roots.far < t_max {
        Some(roots.far)
    } else {
        None
    }
}

/// One entity's hit test against the open interval `(t_min, t_max)`.
pub fn select_root(roots: RootPair, t_min: u64, t_max: u64) -> (r: Option<u64>)
    ensures
        r == spec_select_root(roots, t_min, t_max),
{
    if roots.near < t_max && roots.near > t_min {
        Some(roots.near)
    } else if roots.far < t_max && roots.far > t_min {
        Some(roots.far)
    } else {
        None
    }
}

/// The scan's record: which entity was struck, and at which distance key.
#[derive(Clone, Copy, PartialEq, Eq, Structural, Debug)]
pub struct SceneHit {
    pub index: usize,
    pub t: u64,
}

/// The closest-so-far scan over the entities, in insertion order: each
/// entity is tested against `(t_min, m)` where `m` is the closest hit
/// found before it (initially `t_max`), and a hit overwrites the record.
pub open spec fn spec_closest_hit(entities: Seq<RootPair>, t_min: u64, t_max: u64) -> Option<
    SceneHit,
>
    decreases entities.len(),
{
    if entities.len() == 0 {
        None
    } else {
        let prev = spec_closest_hit(entities.drop_last(), t_min, t_max);
        let m = match prev {
            Some(h) => h.t,
            None => t_max,
        };
        match spec_select_root(entities.last(), t_min, m) {
            Some(t) => Some(SceneHit { index: (entities.len() - 1) as usize, t }),
            None => prev,
        }
    }
}

/// Scans every entity once and returns the closest hit strictly inside
/// `(t_min, t_max)`, ties keeping the first entity in insertion order.
pub fn closest_hit(entities: &Vec<RootPair>, t_min: u64, t_max: u64) -> (r: Option<SceneHit>)
    ensures
        r == spec_closest_hit(entities@, t_min, t_max),
{
    let mut best: Option<SceneHit> = None;
    let mut i: usize = 0;
    proof {
        assert(entities@.subrange(0, 0) =~= Seq::<RootPair>::empty());
    }
    while i < entities.len()
        invariant
            i <= entities@.len(),
            best == spec_closest_hit(entities@.subrange(0, i as int), t_min, t_max),
        decreases entities@.len() - i,
    {
        let m = match best {
            Some(h) => h.t,
            None => t_max,
        };
        match select_root(entities[i], t_min, m) {
            Some(t) => {
                best = Some(SceneHit { index: i, t });
            },
            None => {},
        }
        proof {
            let post = entities@.subrange(0, i + 1);
            assert(post.drop_last() =~= entities@.subrange(0, i as int));
            assert(post.last() == entities@[i as int]);
        }
        i = i + 1;
    }
    proof {
        assert(entities@.subrange(0, entities@.len() as int) =~= entities@);
    }
    best
}

/// The first crossing of one entity strictly past `t_min`, ignoring any
/// upper bound: the near root when it lies past `t_min`, else the far
/// root when it does, else none.
pub open spec fn spec_first_root(roots: RootPair, t_min: u64) -> Option<u64> {
    if t_min < roots.near {
        Some(roots.near)
    } else if t_min < roots.far {
        Some(roots.far)
    } else {
        None
    }
}

/// Each entity's roots are in order: the near root not beyond the far one.
pub open spec fn roots_ordered(entities: Seq<RootPair>) -> bool {
    forall|j: int| 0 <= j < entities.len() ==> (#[trigger] entities[j]).near <= entities[j].far
}

/// The entity `roots` has no first crossing strictly inside
/// `(t_min, t_max)`.
pub open spec fn no_crossing_inside(roots: RootPair, t_min: u64, t_max: u64) -> bool {
    match spec_first_root(roots, t_min) {
        Some(c) => c >= t_max,
        None => true,
    }
}

/// The entity `roots`, standing at position `j`, does not beat the hit
/// `h`: its first crossing inside `(t_min, t_max)`, if any, is farther
/// than `h.t`, or as far with `h` the earlier entity.
pub open spec fn does_not_beat(h: SceneHit, roots: RootPair, j: int, t_min: u64, t_max: u64) -> bool {
    match spec_first_root(roots, t_min) {
        Some(c) => c < t_max ==> h.t < c || (h.t == c && h.index <= j),
        None => true,
    }
}

/// What the closest-so-far scan selects. When the scan reports a hit, the
/// struck entity is struck at its own first crossing, that crossing lies
/// strictly inside `(t_min, t_max)`, and no entity's first crossing inside
/// the interval is closer — on equal distances the struck entity is the
/// earliest in insertion order. When the scan reports a miss, no entity
/// has a first crossing strictly inside the interval.
pub proof fn lemma_closest_hit_minimal(entities: Seq<RootPair>, t_min: u64, t_max: u64)
    requires
        roots_ordered(entities),
        entities.len() <= usize::MAX,
    ensures
        match spec_closest_hit(entities, t_min, t_max) {
            Some(h) => h.index < entities.len() && spec_first_root(entities[h.index as int], t_min)
                == Some(h.t) && t_min < h.t < t_max && (forall|j: int|
                0 <= j < entities.len() ==> does_not_beat(
                    h,
                    #[trigger] entities[j],
                    j,
                    t_min,
                    t_max,
                )),
            None => forall|j: int|
                0 <= j < entities.len() ==> no_crossing_inside(
                    #[trigger] entities[j],
                    t_min,
                    t_max,
                ),
        },
    decreases entities.len(),
{
    if entities.len() == 0 {
    } else {
        let rest = entities.drop_last();
        let e = entities.last();
        let n = entities.len() as int;
        assert(forall|j: int| 0 <= j < n - 1 ==> #[trigger] entities[j] == rest[j]);
        assert(e == entities[n - 1]);
        assert(roots_ordered(rest));
        lemma_closest_hit_minimal(rest, t_min, t_max);
        let prev = spec_closest_hit(rest, t_min, t_max);
        match prev {
            None => {
                match spec_select_root(e, t_min, t_max) {
                    Some(t) => {
                        // The new entity is struck at its first crossing:
                        // were the near root at or beyond `t_max`, the far
                        // root would be too, and nothing would be selected.
                        assert(spec_first_root(e, t_min) == Some(t));
                        let h = SceneHit { index: (n - 1) as usize, t };
                        assert(spec_closest_hit(entities, t_min, t_max) == Some(h));
                        assert(h.index as int == n - 1);
                        assert(forall|j: int|
                            0 <= j < n - 1 ==> no_crossing_inside(
                                #[trigger] entities[j],
                                t_min,
                                t_max,
                            ));
                        assert(forall|j: int|
                            0 <= j < n ==> does_not_beat(
                                h,
                                #[trigger] entities[j],
                                j,
                                t_min,
                                t_max,
                            ));
                    },
                    None => {
                        // A first crossing inside the interval would have
                        // been selected, so the new entity has none either.
                        assert(no_crossing_inside(e, t_min, t_max));
                        assert(forall|j: int|
                            0 <= j < n ==> no_crossing_inside(#[trigger] entities[j], t_min, t_max));
                    },
                }
            },
            Some(hp) => {
                assert(entities[hp.index as int] == rest[hp.index as int]);
                match spec_select_root(e, t_min, hp.t) {
                    Some(t) => {
                        // Strictly closer: the new entity overwrites the
                        // record, and no earlier candidate can tie with it.
                        assert(spec_first_root(e, t_min) == Some(t));
                        assert(t < hp.t);
                        let h = SceneHit { index: (n - 1) as usize, t };
                        assert(spec_closest_hit(entities, t_min, t_max) == Some(h));
                        assert(h.index as int == n - 1);
                        assert(forall|j: int|
                            0 <= j < n ==> does_not_beat(
                                h,
                                #[trigger] entities[j],
                                j,
                                t_min,
                                t_max,
                            ));
                    },
                    None => {
                        // Not strictly closer: the record stands, and the
                        // new entity's first crossing, if any, is at or
                        // beyond it, so the record is not beaten.
                        assert(does_not_beat(hp, e, n - 1, t_min, t_max));
                        assert(forall|j: int|
                            0 <= j < n ==> does_not_beat(
                                hp,
                                #[trigger] entities[j],
                                j,
                                t_min,
                                t_max,
                            ));
                    },
                }
            },
        }
    }
}

/// An empty scene misses every ray: the scan reports no hit.
pub proof fn lemma_empty_world_misses(t_min: u64, t_max: u64)
    ensures
        spec_closest_hit(Seq::<RootPair>::empty(), t_min, t_max) is None,
{
}

} // verus!
