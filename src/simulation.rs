//! One tick of the world: detection of every intersecting pair, then the
//! reactions of the entities involved.
use vstd::prelude::*;

use crate::collision::{
    bounded_depth, collides, collision_spec, Collidable, Collider, CollisionInfo, CollisionMask,
};
use crate::math::fits_i64;

verus! {

/// An ordered pair: `first` and `second` are never swapped.
#[derive(Debug, Clone, Copy)]
pub struct Pair<T> {
    pub first: T,
    pub second: T,
}

/// One intersecting pair found during detection.
#[derive(Debug, Clone, Copy)]
pub struct SymulationCollisionInfo {
    pub collided_objects_indices: Pair<usize>,
    /// The correction for the entity at `collided_objects_indices.first`.
    pub info: CollisionInfo,
    pub masks: Pair<CollisionMask>,
}

/// One call of `Collidable::react_to_collision`: on the entity at `index`,
/// with `info` and the category of the other party.
#[derive(Debug, Clone, Copy, PartialEq, Eq, Structural)]
pub struct Reaction {
    pub index: usize,
    pub info: CollisionInfo,
    pub other_mask: CollisionMask,
}

/// The pairs `(i, j)`, `i < j < n`, of row `i`, by ascending `j`.
pub open spec fn row(n: int, i: int) -> Seq<(int, int)> {
    Seq::new((n - i - 1) as nat, |k: int| (i, i + 1 + k))
}

/// The rows `0 .. i` one after the other.
pub open spec fn rows_before(n: int, i: int) -> Seq<(int, int)>
    decreases i,
{
    if i <= 0 {
        seq![]
    } else {
        rows_before(n, i - 1) + row(n, i - 1)
    }
}

/// Every pair `(i, j)` with `i < j < n`, in ascending `(i, j)` order.
pub open spec fn candidate_pairs(n: int) -> Seq<(int, int)> {
    rows_before(n, n)
}

/// The pairs of `pairs` whose colliders intersect, in the same order.
pub open spec fn colliding_pairs(colliders: Seq<Collider>, pairs: Seq<(int, int)>) -> Seq<(int, int)>
    decreases pairs.len(),
{
    if pairs.len() == 0 {
        seq![]
    } else {
        let earlier = colliding_pairs(colliders, pairs.drop_last());
        let p = pairs.last();
        if collides(colliders[p.0], colliders[p.1]) {
            earlier.push(p)
        } else {
            earlier
        }
    }
}

/// `record` describes the intersection of the entities of pair `p`.
pub open spec fn records_pair(
    record: SymulationCollisionInfo,
    p: (int, int),
    colliders: Seq<Collider>,
    masks: Seq<CollisionMask>,
) -> bool {
    &&& record.collided_objects_indices.first == p.0
    &&& record.collided_objects_indices.second == p.1
    &&& collision_spec(colliders[p.0], colliders[p.1]) == Some(record.info.collision_depth@)
    &&& record.masks.first == masks[p.0]
    &&& record.masks.second == masks[p.1]
}

/// `records` holds one record for each pair of `pairs` whose colliders
/// intersect, in the order of `pairs`.
pub open spec fn describes(
    records: Seq<SymulationCollisionInfo>,
    colliders: Seq<Collider>,
    masks: Seq<CollisionMask>,
    pairs: Seq<(int, int)>,
) -> bool {
    let hits = colliding_pairs(colliders, pairs);
    &&& records.len() == hits.len()
    &&& forall|k: int| 0 <= k < hits.len() ==> records_pair(#[trigger] records[k], hits[k], colliders, masks)
}

/// `records` holds one record for each intersecting pair of `colliders`, in
/// ascending `(i, j)` order.
pub open spec fn records_detection(
    records: Seq<SymulationCollisionInfo>,
    colliders: Seq<Collider>,
    masks: Seq<CollisionMask>,
) -> bool {
    describes(records, colliders, masks, candidate_pairs(colliders.len() as int))
}

/// The pairs met before `(i, j)` in ascending order.
pub open spec fn pairs_before(n: int, i: int, j: int) -> Seq<(int, int)> {
    rows_before(n, i) + row(n, i).take(j - i - 1)
}

proof fn lemma_pairs_before_step(n: int, i: int, j: int)
    requires
        0 <= i < j < n,
    ensures
        pairs_before(n, i, j + 1) == pairs_before(n, i, j).push((i, j)),
        pairs_before(n, i, j + 1).drop_last() == pairs_before(n, i, j),
        pairs_before(n, i, j + 1).last() == (i, j),
{
    assert(pairs_before(n, i, j + 1) =~= pairs_before(n, i, j).push((i, j)));
    assert(pairs_before(n, i, j).push((i, j)).drop_last() =~= pairs_before(n, i, j));
}

proof fn lemma_pairs_before_row_end(n: int, i: int)
    requires
        0 <= i < n,
    ensures
        pairs_before(n, i, n) == rows_before(n, i + 1),
{
    assert(row(n, i).take(n - i - 1) =~= row(n, i));
}

/// The order in which the reactions of `n` records are dispatched: the
/// record each call comes from and whether it is the second party's call.
/// Every first party reacts, in list order, before any second party does.
pub open spec fn dispatch_order(n: int) -> Seq<(int, bool)> {
    Seq::new((2 * n) as nat, |k: int| if k < n { (k, false) } else { (k - n, true) })
}

/// The depth of `info` can be negated without overflow.
pub open spec fn negatable(info: CollisionInfo) -> bool {
    fits_i64(-info.collision_depth.x) && fits_i64(-info.collision_depth.y)
}

/// `reaction` is the call that `record` asks of its first party, or, when
/// `second_role` holds, of its second party with the opposite correction.
pub open spec fn is_reaction(
    reaction: Reaction,
    record: SymulationCollisionInfo,
    second_role: bool,
) -> bool {
    if second_role {
        &&& reaction.index == record.collided_objects_indices.second
        &&& reaction.info.collision_depth@ == (
            -record.info.collision_depth.x,
            -record.info.collision_depth.y,
        )
        &&& reaction.other_mask == record.masks.first
    } else {
        &&& reaction.index == record.collided_objects_indices.first
        &&& reaction.info == record.info
        &&& reaction.other_mask == record.masks.second
    }
}

/// `a` comes before `b` in ascending `(i, j)` order.
pub open spec fn lex_less(a: (int, int), b: (int, int)) -> bool {
    a.0 < b.0 || (a.0 == b.0 && a.1 < b.1)
}

/// Each element of `s` comes before every later one.
pub open spec fn strictly_ascending(s: Seq<(int, int)>) -> bool {
    forall|a: int, b: int| 0 <= a < b < s.len() ==> lex_less(#[trigger] s[a], #[trigger] s[b])
}

proof fn lemma_rows_before(n: int, i: int)
    requires
        0 <= i <= n,
    ensures
        2 * rows_before(n, i).len() == i * (2 * n - i - 1),
        forall|k: int|
            0 <= k < rows_before(n, i).len() ==> {
                let p = #[trigger] rows_before(n, i)[k];
                0 <= p.0 < i && p.0 < p.1 < n
            },
        strictly_ascending(rows_before(n, i)),
        forall|x: int, y: int|
            0 <= x < i && x < y < n ==> #[trigger] rows_before(n, i).contains((x, y)),
    decreases i,
{
    if i > 0 {
        lemma_rows_before(n, i - 1);
        let s = rows_before(n, i - 1);
        let r = row(n, i - 1);
        let t = rows_before(n, i);
        assert(t == s + r);
        assert(2 * t.len() == i * (2 * n - i - 1)) by (nonlinear_arith)
            requires
                2 * s.len() == (i - 1) * (2 * n - (i - 1) - 1),
                t.len() == s.len() + (n - i),
        ;
        assert forall|k: int| 0 <= k < t.len() implies {
            let p = #[trigger] t[k];
            0 <= p.0 < i && p.0 < p.1 < n
        } by {
            if k < s.len() {
                assert(t[k] == s[k]);
            } else {
                assert(t[k] == r[k - s.len()]);
            }
        }
        assert forall|a: int, b: int| 0 <= a < b < t.len() implies lex_less(
            #[trigger] t[a],
            #[trigger] t[b],
        ) by {
            if b < s.len() {
                assert(t[a] == s[a] && t[b] == s[b]);
            } else if a < s.len() {
                assert(t[a] == s[a] && t[b] == r[b - s.len()]);
                let _ = s[a];
            } else {
                assert(t[a] == r[a - s.len()] && t[b] == r[b - s.len()]);
            }
        }
        assert forall|x: int, y: int| 0 <= x < i && x < y < n implies #[trigger] t.contains(
            (x, y),
        ) by {
            if x < i - 1 {
                assert(s.contains((x, y)));
                let k = choose|k: int| 0 <= k < s.len() && s[k] == (x, y);
                assert(t[k] == (x, y));
            } else {
                let k = s.len() + y - i;
                assert(t[k] == r[y - i]);
                assert(t[k] == (x, y));
            }
        }
    }
}

proof fn lemma_colliding_pairs(colliders: Seq<Collider>, pairs: Seq<(int, int)>)
    ensures
        forall|k: int|
            0 <= k < colliding_pairs(colliders, pairs).len() ==> {
                let p = #[trigger] colliding_pairs(colliders, pairs)[k];
                pairs.contains(p) && collides(colliders[p.0], colliders[p.1])
            },
        forall|p: (int, int)|
            pairs.contains(p) && collides(colliders[p.0], colliders[p.1]) ==> #[trigger] colliding_pairs(
                colliders,
                pairs,
            ).contains(p),
        strictly_ascending(pairs) ==> strictly_ascending(colliding_pairs(colliders, pairs)),
    decreases pairs.len(),
{
    if pairs.len() > 0 {
        let front = pairs.drop_last();
        let last = pairs.last();
        lemma_colliding_pairs(colliders, front);
        let earlier = colliding_pairs(colliders, front);
        let hits = colliding_pairs(colliders, pairs);
        assert forall|k: int| 0 <= k < hits.len() implies {
            let p = #[trigger] hits[k];
            pairs.contains(p) && collides(colliders[p.0], colliders[p.1])
        } by {
            if k < earlier.len() {
                assert(hits[k] == earlier[k]);
                let p = earlier[k];
                let i = choose|i: int| 0 <= i < front.len() && front[i] == p;
                assert(pairs[i] == p);
            } else {
                assert(pairs[pairs.len() - 1] == last);
            }
        }
        assert forall|p: (int, int)|
            pairs.contains(p) && collides(colliders[p.0], colliders[p.1]) implies #[trigger] hits.contains(
            p,
        ) by {
            let i = choose|i: int| 0 <= i < pairs.len() && pairs[i] == p;
            if i < pairs.len() - 1 {
                assert(front[i] == p);
                assert(front.contains(p));
                assert(earlier.contains(p));
                let k = choose|k: int| 0 <= k < earlier.len() && earlier[k] == p;
                assert(hits[k] == p);
            } else {
                assert(hits[hits.len() - 1] == p);
            }
        }
        if strictly_ascending(pairs) {
            assert(strictly_ascending(front)) by {
                assert forall|a: int, b: int| 0 <= a < b < front.len() implies lex_less(
                    #[trigger] front[a],
                    #[trigger] front[b],
                ) by {
                    assert(front[a] == pairs[a] && front[b] == pairs[b]);
                }
            }
            assert forall|a: int, b: int| 0 <= a < b < hits.len() implies lex_less(
                #[trigger] hits[a],
                #[trigger] hits[b],
            ) by {
                if b < earlier.len() {
                    assert(hits[a] == earlier[a] && hits[b] == earlier[b]);
                } else {
                    assert(hits[a] == earlier[a]);
                    assert(hits[b] == last);
                    let p = earlier[a];
                    assert(front.contains(p));
                    let i = choose|i: int| 0 <= i < front.len() && front[i] == p;
                    assert(pairs[i] == p);
                    assert(pairs[pairs.len() - 1] == last);
                }
            }
        }
    }
}

/// Detection over `n` entities considers exactly `n * (n - 1) / 2`
/// candidate pairs, each `(i, j)` with `i < j < n`, in ascending `(i, j)`
/// order; the pairs it records are exactly the intersecting ones, in the
/// same order.
pub proof fn lemma_detection_enumerates_pairs(colliders: Seq<Collider>)
    ensures
        ({
            let n = colliders.len() as int;
            let candidates = candidate_pairs(n);
            &&& 2 * candidates.len() == n * (n - 1)
            &&& forall|k: int|
                0 <= k < candidates.len() ==> {
                    let p = #[trigger] candidates[k];
                    0 <= p.0 < p.1 < n
                }
            &&& strictly_ascending(candidates)
            &&& forall|i: int, j: int| 0 <= i < j < n ==> #[trigger] candidates.contains((i, j))
        }),
        ({
            let n = colliders.len() as int;
            let hits = colliding_pairs(colliders, candidate_pairs(n));
            &&& strictly_ascending(hits)
            &&& forall|k: int|
                0 <= k < hits.len() ==> {
                    let p = #[trigger] hits[k];
                    0 <= p.0 < p.1 < n && collides(colliders[p.0], colliders[p.1])
                }
            &&& forall|i: int, j: int|
                0 <= i < j < n && collides(colliders[i], colliders[j]) ==> #[trigger] hits.contains(
                    (i, j),
                )
        }),
{
    let n = colliders.len() as int;
    let candidates = candidate_pairs(n);
    lemma_rows_before(n, n);
    assert(2 * candidates.len() == n * (n - 1)) by (nonlinear_arith)
        requires
            2 * candidates.len() == n * (2 * n - n - 1),
    ;
    lemma_colliding_pairs(colliders, candidates);
    let hits = colliding_pairs(colliders, candidates);
    assert forall|k: int| 0 <= k < hits.len() implies {
        let p = #[trigger] hits[k];
        0 <= p.0 < p.1 < n && collides(colliders[p.0], colliders[p.1])
    } by {
        let p = hits[k];
        let i = choose|i: int| 0 <= i < candidates.len() && candidates[i] == p;
        let _ = candidates[i];
    }
    assert forall|i: int, j: int|
        0 <= i < j < n && collides(colliders[i], colliders[j]) implies #[trigger] hits.contains(
        (i, j),
    ) by {
        assert(candidates.contains((i, j)));
    }
}

/// A detection over at most one entity leaves the records as they were.
pub proof fn lemma_detection_over_one_entity_records_nothing(
    before: Seq<SymulationCollisionInfo>,
    after: Seq<SymulationCollisionInfo>,
    colliders: Seq<Collider>,
    masks: Seq<CollisionMask>,
)
    requires
        appends_detection(before, after, colliders, masks),
        colliders.len() <= 1,
    ensures
        after == before,
{
    let n = colliders.len() as int;
    lemma_rows_before(n, n);
    assert(candidate_pairs(n).len() == 0) by (nonlinear_arith)
        requires
            2 * candidate_pairs(n).len() == n * (2 * n - n - 1),
            0 <= n <= 1,
    ;
    assert(colliding_pairs(colliders, candidate_pairs(n)) == Seq::<(int, int)>::empty());
    assert(after =~= after.take(before.len() as int) + after.skip(before.len() as int));
    assert(after =~= before);
}

/// Reactions are dispatched in two passes: every first party reacts, in
/// list order, before any second party does, and each record gets exactly
/// one call in each role.
pub proof fn lemma_first_roles_before_second_roles(n: nat)
    ensures
        dispatch_order(n as int).len() == 2 * n,
        forall|a: int, b: int|
            0 <= a < b < 2 * n && (#[trigger] dispatch_order(n as int)[a]).1 ==> (
            #[trigger] dispatch_order(n as int)[b]).1,
        forall|i: int|
            0 <= i < n ==> #[trigger] dispatch_order(n as int)[i] == (i, false) && dispatch_order(
                n as int,
            )[n + i] == (i, true),
{
}

/// Every record names entities below `n` and has a correction that can be
/// negated: `react_to_collisionss` can dispatch it.
pub open spec fn dispatchable(records: Seq<SymulationCollisionInfo>, n: int) -> bool {
    forall|k: int|
        0 <= k < records.len() ==> {
            let record = #[trigger] records[k];
            &&& record.collided_objects_indices.first < n
            &&& record.collided_objects_indices.second < n
            &&& negatable(record.info)
        }
}

/// `before` became `after` by appending one record for each intersecting
/// pair of `colliders`, in ascending `(i, j)` order.
pub open spec fn appends_detection(
    before: Seq<SymulationCollisionInfo>,
    after: Seq<SymulationCollisionInfo>,
    colliders: Seq<Collider>,
    masks: Seq<CollisionMask>,
) -> bool {
    &&& after.len() >= before.len()
    &&& after.take(before.len() as int) == before
    &&& records_detection(after.skip(before.len() as int), colliders, masks)
    &&& dispatchable(after.skip(before.len() as int), colliders.len() as int)
}

/// The outcome of a detection over the snapshots `colliders`: `Err(e)` when
/// snapshot `e` is the first outside the coordinate limit, nothing recorded;
/// `Ok` when all lie within it, with every intersecting pair appended.
pub open spec fn checked_detection(
    r: Result<(), usize>,
    before: Seq<SymulationCollisionInfo>,
    after: Seq<SymulationCollisionInfo>,
    colliders: Seq<Collider>,
    masks: Seq<CollisionMask>,
) -> bool {
    match r {
        Err(e) => {
            &&& e < colliders.len()
            &&& !colliders[e as int].within_bounds()
            &&& forall|i: int| 0 <= i < e ==> (#[trigger] colliders[i]).within_bounds()
            &&& after == before
        },
        Ok(()) => {
            &&& forall|i: int| 0 <= i < colliders.len() ==> (#[trigger] colliders[i]).within_bounds()
            &&& appends_detection(before, after, colliders, masks)
        },
    }
}

pub struct WordSymulation {
    pub symulation_collisions_info: Vec<SymulationCollisionInfo>,
}

impl WordSymulation {
    pub fn new() -> (s: Self)
        ensures
            s.symulation_collisions_info@.len() == 0,
    {
        Self { symulation_collisions_info: Vec::new() }
    }

    /// Appends a record for every intersecting pair `(i, j)`, `i < j`, of
    /// the snapshots, in ascending `(i, j)` order.
    pub fn detect_collisions(&mut self, colliders: &Vec<Collider>, masks: &Vec<CollisionMask>)
        requires
            colliders.len() == masks.len(),
            forall|i: int| 0 <= i < colliders.len() ==> (#[trigger] colliders[i]).within_bounds(),
        ensures
            appends_detection(
                old(self).symulation_collisions_info@,
                final(self).symulation_collisions_info@,
                colliders@,
                masks@,
            ),
    {
        let ghost earlier = self.symulation_collisions_info@;
        let ghost mut found: Seq<SymulationCollisionInfo> = seq![];
        let n = colliders.len();
        let mut i: usize = 0;
        while i < n
            invariant
                n == colliders.len() == masks.len(),
                forall|k: int| 0 <= k < colliders.len() ==> (#[trigger] colliders[k]).within_bounds(),
                i <= n,
                self.symulation_collisions_info@ == earlier + found,
                describes(found, colliders@, masks@, rows_before(n as int, i as int)),
                dispatchable(found, n as int),
            decreases n - i,
        {
            let mut j: usize = i + 1;
            proof {
                assert(row(n as int, i as int).take(0) =~= Seq::<(int, int)>::empty());
                assert(pairs_before(n as int, i as int, j as int) =~= rows_before(n as int, i as int));
            }
            while j < n
                invariant
                    n == colliders.len() == masks.len(),
                    forall|k: int| 0 <= k < colliders.len() ==> (#[trigger] colliders[k]).within_bounds(),
                    i < n,
                    i < j <= n,
                    self.symulation_collisions_info@ == earlier + found,
                    describes(found, colliders@, masks@, pairs_before(n as int, i as int, j as int)),
                    dispatchable(found, n as int),
                decreases n - j,
            {
                let first = colliders[i];
                let second = colliders[j];
                let did_collide = Collider::collide(first, second);
                proof {
                    lemma_pairs_before_step(n as int, i as int, j as int);
                }
                match did_collide {
                    Some(collision_info) => {
                        let record = SymulationCollisionInfo {
                            collided_objects_indices: Pair { first: i, second: j },
                            info: collision_info,
                            masks: Pair { first: masks[i], second: masks[j] },
                        };
                        self.symulation_collisions_info.push(record);
                        proof {
                            let hits = colliding_pairs(colliders@, pairs_before(n as int, i as int, j as int));
                            let before = found;
                            found = found.push(record);
                            assert(self.symulation_collisions_info@ =~= earlier + found);
                            assert forall|k: int| 0 <= k < hits.len() + 1 implies records_pair(
                                #[trigger] found[k],
                                hits.push((i as int, j as int))[k],
                                colliders@,
                                masks@,
                            ) by {
                                if k < hits.len() {
                                    assert(found[k] == before[k]);
                                }
                            }
                            assert forall|k: int| 0 <= k < found.len() implies {
                                let r = #[trigger] found[k];
                                &&& r.collided_objects_indices.first < n
                                &&& r.collided_objects_indices.second < n
                                &&& negatable(r.info)
                            } by {
                                if k < before.len() {
                                    assert(found[k] == before[k]);
                                }
                            }
                        }
                    },
                    None => {},
                }
                j = j + 1;
            }
            proof {
                lemma_pairs_before_row_end(n as int, i as int);
            }
            i = i + 1;
        }
        proof {
            assert(self.symulation_collisions_info@.take(earlier.len() as int) =~= earlier);
            assert(self.symulation_collisions_info@.skip(earlier.len() as int) =~= found);
        }
    }

    /// Records every intersecting pair of the snapshots when all of them lie
    /// within the coordinate limit; otherwise fails with the index of the
    /// first that does not, recording nothing.
    pub fn detect_checked(&mut self, colliders: &Vec<Collider>, masks: &Vec<CollisionMask>) -> (r:
        Result<(), usize>)
        requires
            colliders.len() == masks.len(),
        ensures
            checked_detection(
                r,
                old(self).symulation_collisions_info@,
                final(self).symulation_collisions_info@,
                colliders@,
                masks@,
            ),
    {
        let n = colliders.len();
        let mut k: usize = 0;
        while k < n
            invariant
                n == colliders.len(),
                k <= n,
                forall|i: int| 0 <= i < k ==> (#[trigger] colliders[i]).within_bounds(),
            decreases n - k,
        {
            if !colliders[k].is_within_bounds() {
                return Err(k);
            }
            k = k + 1;
        }
        self.detect_collisions(colliders, masks);
        Ok(())
    }

    /// Snapshots the collider and the mask of every entity, one call each,
    /// then runs `detect_checked` on the snapshots.
    pub fn collision_detection<C: Collidable + ?Sized>(&mut self, collidables: &Vec<&mut C>) -> (r:
        Result<(), usize>)
        ensures
            exists|colliders: Seq<Collider>, masks: Seq<CollisionMask>|
                {
                    &&& colliders.len() == collidables.len()
                    &&& masks.len() == collidables.len()
                    &&& checked_detection(
                        r,
                        old(self).symulation_collisions_info@,
                        final(self).symulation_collisions_info@,
                        colliders,
                        masks,
                    )
                },
    {
        let n = collidables.len();
        let mut colliders: Vec<Collider> = Vec::new();
        let mut masks: Vec<CollisionMask> = Vec::new();
        let mut k: usize = 0;
        while k < n
            invariant
                n == collidables.len(),
                k <= n,
                colliders.len() == k,
                masks.len() == k,
            decreases n - k,
        {
            colliders.push(collidables[k].get_collider());
            masks.push(collidables[k].get_mask());
            k = k + 1;
        }
        self.detect_checked(&colliders, &masks)
    }

    /// Drops every record.
    pub fn clear_collisions(&mut self)
        ensures
            final(self).symulation_collisions_info@.len() == 0,
    {
        self.symulation_collisions_info.clear();
    }

    /// The calls that the reactions make, in `dispatch_order`.
    pub fn reaction_schedule(records: &Vec<SymulationCollisionInfo>) -> (r: Vec<Reaction>)
        requires
            forall|k: int| 0 <= k < records.len() ==> negatable(#[trigger] records[k].info),
        ensures
            r.len() == 2 * records.len(),
            forall|k: int|
                0 <= k < r.len() ==> is_reaction(
                    #[trigger] r[k],
                    records[dispatch_order(records.len() as int)[k].0],
                    dispatch_order(records.len() as int)[k].1,
                ),
    {
        let n = records.len();
        let ghost order = dispatch_order(n as int);
        let mut schedule: Vec<Reaction> = Vec::new();
        let mut k: usize = 0;
        while k < n
            invariant
                n == records.len(),
                order == dispatch_order(n as int),
                k <= n,
                schedule.len() == k,
                forall|i: int| 0 <= i < records.len() ==> negatable(#[trigger] records[i].info),
                forall|i: int|
                    0 <= i < k ==> is_reaction(#[trigger] schedule[i], records[order[i].0], order[i].1),
            decreases n - k,
        {
            let record = records[k];
            schedule.push(
                Reaction {
                    index: record.collided_objects_indices.first,
                    info: record.info,
                    other_mask: record.masks.second,
                },
            );
            k = k + 1;
        }
        let mut k: usize = 0;
        while k < n
            invariant
                n == records.len(),
                order == dispatch_order(n as int),
                k <= n,
                schedule.len() == n + k,
                forall|i: int| 0 <= i < records.len() ==> negatable(#[trigger] records[i].info),
                forall|i: int|
                    0 <= i < n + k ==> is_reaction(#[trigger] schedule[i], records[order[i].0], order[i].1),
            decreases n - k,
        {
            let record = records[k];
            schedule.push(
                Reaction {
                    index: record.collided_objects_indices.second,
                    info: record.info.symetrical(),
                    other_mask: record.masks.first,
                },
            );
            k = k + 1;
        }
        schedule
    }

    /// Dispatches the reactions of every record, in `dispatch_order`: each
    /// call of `reaction_schedule` goes to the entity at its index.
    pub fn react_to_collisionss<C: Collidable + ?Sized>(&mut self, collidables: &mut Vec<&mut C>)
        requires
            dispatchable(old(self).symulation_collisions_info@, old(collidables).len() as int),
        ensures
            *final(self) == *old(self),
            final(collidables).len() == old(collidables).len(),
    {
        Self::react_to_collisions(collidables, &self.symulation_collisions_info);
    }

    fn react_to_collisions<C: Collidable + ?Sized>(
        collidables: &mut Vec<&mut C>,
        symulation_collisions_info: &Vec<SymulationCollisionInfo>,
    )
        requires
            dispatchable(symulation_collisions_info@, old(collidables).len() as int),
        ensures
            final(collidables).len() == old(collidables).len(),
    {
        let schedule = Self::reaction_schedule(symulation_collisions_info);
        let ghost order = dispatch_order(symulation_collisions_info.len() as int);
        let mut k: usize = 0;
        while k < schedule.len()
            invariant
                collidables.len() == old(collidables).len(),
                schedule.len() == 2 * symulation_collisions_info.len(),
                order == dispatch_order(symulation_collisions_info.len() as int),
                forall|i: int|
                    0 <= i < schedule.len() ==> is_reaction(
                        #[trigger] schedule[i],
                        symulation_collisions_info[order[i].0],
                        order[i].1,
                    ),
                forall|i: int|
                    0 <= i < symulation_collisions_info.len() ==> {
                        let record = #[trigger] symulation_collisions_info[i];
                        &&& record.collided_objects_indices.first < old(collidables).len()
                        &&& record.collided_objects_indices.second < old(collidables).len()
                    },
            decreases schedule.len() - k,
        {
            let reaction = schedule[k];
            proof {
                let _ = symulation_collisions_info[order[k as int].0];
            }
            collidables[reaction.index].react_to_collision(reaction.info, reaction.other_mask);
            k = k + 1;
        }
    }
}

} // verus!
