//! Collision detection: the triangular pairwise scan over the entity store,
//! raw box overlaps for event reporting, and margin-adjusted overlaps for
//! physical resolution.

use vstd::prelude::*;
use crate::entity::Entity;
use crate::geom::WorldRect;
use crate::geom::WORLD_LIMIT;
use crate::geom::intersection;
use crate::geom::spec_intersection;

verus! {

/// A collision event: the two entity ids and their overlap box.
pub type CollisionEvent = (String, String, WorldRect);

/// The entity's geometry is within the world bounds, so overlap arithmetic
/// cannot overflow.
pub open spec fn entity_geom_ok(e: Entity) -> bool {
    &&& e.position.bounded(WORLD_LIMIT as int)
    &&& e.spec_size().0 <= WORLD_LIMIT
    &&& e.spec_size().1 <= WORLD_LIMIT
}

/// The raw overlap of two entities' full boxes.
pub open spec fn spec_raw_overlap(a: Entity, b: Entity) -> Option<WorldRect> {
    spec_intersection(a.spec_bounds(), b.spec_bounds())
}

/// The margin-adjusted overlap of two entities' solid boxes; a pair with a
/// ghost participant never has one.
pub open spec fn spec_solid_overlap(a: Entity, b: Entity) -> Option<WorldRect> {
    if a.physics.ghost_flag || b.physics.ghost_flag {
        None
    } else {
        spec_intersection(
            a.spec_hitbox_with_margin(a.physics.solid_box_margin),
            b.spec_hitbox_with_margin(b.physics.solid_box_margin),
        )
    }
}

/// A partner the scan tests against: collision-enabled and not queued for
/// deletion.
pub open spec fn spec_partner_eligible(b: Entity) -> bool {
    b.physics.collision_enabled && !b.deletion_flag
}

/// The raw hit the scan records for the pair `(i, j)`, if any.
pub open spec fn spec_raw_at(s: Seq<Entity>, i: int, j: int) -> Option<WorldRect> {
    if spec_partner_eligible(s[j]) {
        spec_raw_overlap(s[i], s[j])
    } else {
        None
    }
}

/// The margin-adjusted hit the scan records for the pair `(i, j)`, if any:
/// only pairs whose raw boxes already overlap are solid-tested.
pub open spec fn spec_solid_at(s: Seq<Entity>, i: int, j: int) -> Option<WorldRect> {
    if spec_partner_eligible(s[j]) && spec_raw_overlap(s[i], s[j]) is Some {
        spec_solid_overlap(s[i], s[j])
    } else {
        None
    }
}

/// The raw hits of entity `i` against partners in `[lo, hi)`, in store
/// order: pairs of partner index and overlap box.
pub open spec fn spec_raw_hits(s: Seq<Entity>, i: int, lo: int, hi: int) -> Seq<(int, WorldRect)>
    decreases hi - lo,
{
    if lo >= hi {
        Seq::empty()
    } else {
        let rest = spec_raw_hits(s, i, lo + 1, hi);
        match spec_raw_at(s, i, lo) {
            Some(r) => seq![(lo, r)] + rest,
            None => rest,
        }
    }
}

/// The margin-adjusted hits of entity `i` against partners in `[lo, hi)`.
pub open spec fn spec_solid_hits(s: Seq<Entity>, i: int, lo: int, hi: int) -> Seq<
    (int, WorldRect),
>
    decreases hi - lo,
{
    if lo >= hi {
        Seq::empty()
    } else {
        let rest = spec_solid_hits(s, i, lo + 1, hi);
        match spec_solid_at(s, i, lo) {
            Some(r) => seq![(lo, r)] + rest,
            None => rest,
        }
    }
}

/// Extending the partner range by one appends that partner's hit, if any.
pub proof fn lemma_raw_hits_extend(s: Seq<Entity>, i: int, lo: int, hi: int)
    requires
        lo <= hi,
    ensures
        spec_raw_hits(s, i, lo, hi + 1) == spec_raw_hits(s, i, lo, hi) + (match spec_raw_at(
            s,
            i,
            hi,
        ) {
            Some(r) => seq![(hi, r)],
            None => Seq::<(int, WorldRect)>::empty(),
        }),
    decreases hi - lo,
{
    if lo >= hi {
        assert(spec_raw_hits(s, i, lo, hi) == Seq::<(int, WorldRect)>::empty());
        assert(spec_raw_hits(s, i, lo + 1, hi + 1) == Seq::<(int, WorldRect)>::empty());
        assert(spec_raw_hits(s, i, lo, hi + 1) =~= spec_raw_hits(s, i, lo, hi)
            + (match spec_raw_at(s, i, hi) {
            Some(r) => seq![(hi, r)],
            None => Seq::<(int, WorldRect)>::empty(),
        }));
    } else {
        lemma_raw_hits_extend(s, i, lo + 1, hi);
        assert(spec_raw_hits(s, i, lo, hi + 1) =~= spec_raw_hits(s, i, lo, hi)
            + (match spec_raw_at(s, i, hi) {
            Some(r) => seq![(hi, r)],
            None => Seq::<(int, WorldRect)>::empty(),
        }));
    }
}

/// Extending the partner range by one appends that partner's solid hit, if
/// any.
pub proof fn lemma_solid_hits_extend(s: Seq<Entity>, i: int, lo: int, hi: int)
    requires
        lo <= hi,
    ensures
        spec_solid_hits(s, i, lo, hi + 1) == spec_solid_hits(s, i, lo, hi) + (match spec_solid_at(
            s,
            i,
            hi,
        ) {
            Some(r) => seq![(hi, r)],
            None => Seq::<(int, WorldRect)>::empty(),
        }),
    decreases hi - lo,
{
    if lo >= hi {
        assert(spec_solid_hits(s, i, lo, hi) == Seq::<(int, WorldRect)>::empty());
        assert(spec_solid_hits(s, i, lo + 1, hi + 1) == Seq::<(int, WorldRect)>::empty());
        assert(spec_solid_hits(s, i, lo, hi + 1) =~= spec_solid_hits(s, i, lo, hi)
            + (match spec_solid_at(s, i, hi) {
            Some(r) => seq![(hi, r)],
            None => Seq::<(int, WorldRect)>::empty(),
        }));
    } else {
        lemma_solid_hits_extend(s, i, lo + 1, hi);
        assert(spec_solid_hits(s, i, lo, hi + 1) =~= spec_solid_hits(s, i, lo, hi)
            + (match spec_solid_at(s, i, hi) {
            Some(r) => seq![(hi, r)],
            None => Seq::<(int, WorldRect)>::empty(),
        }));
    }
}

/// The raw hits the scan records for entity `i`: nothing when it has
/// collision disabled, otherwise its hits against all later entries.
pub open spec fn spec_check_raw(s: Seq<Entity>, i: int) -> Seq<(int, WorldRect)> {
    if s[i].physics.collision_enabled {
        spec_raw_hits(s, i, i + 1, s.len() as int)
    } else {
        Seq::empty()
    }
}

/// The margin-adjusted hits the scan records for entity `i`.
pub open spec fn spec_check_solid(s: Seq<Entity>, i: int) -> Seq<(int, WorldRect)> {
    if s[i].physics.collision_enabled {
        spec_solid_hits(s, i, i + 1, s.len() as int)
    } else {
        Seq::empty()
    }
}

/// An event tuple carries the two ids of the hit's pair and its overlap.
pub open spec fn event_matches(ev: CollisionEvent, s: Seq<Entity>, i: int, hit: (int, WorldRect)) -> bool {
    &&& ev.0@ == s[i].id@
    &&& 0 <= hit.0 < s.len()
    &&& ev.1@ == s[hit.0].id@
    &&& ev.2 == hit.1
}

/// An event list mirrors a hit list entry for entry.
pub open spec fn events_match(evs: Seq<CollisionEvent>, s: Seq<Entity>, i: int, hits: Seq<(int, WorldRect)>) -> bool {
    &&& evs.len() == hits.len()
    &&& forall|k: int| 0 <= k < evs.len() ==> event_matches(#[trigger] evs[k], s, i, hits[k])
}

/// Partner indices recorded by the scan lie inside the scanned range and
/// rise strictly, so no pair is recorded twice.
pub proof fn lemma_raw_hits_indices(s: Seq<Entity>, i: int, lo: int, hi: int)
    ensures
        forall|k: int| 0 <= k < spec_raw_hits(s, i, lo, hi).len() ==> lo <= (
        #[trigger] spec_raw_hits(s, i, lo, hi)[k]).0 < hi,
        forall|k1: int, k2: int|
            0 <= k1 < k2 < spec_raw_hits(s, i, lo, hi).len() ==> spec_raw_hits(s, i, lo, hi)[k1].0
                < spec_raw_hits(s, i, lo, hi)[k2].0,
    decreases hi - lo,
{
    if lo < hi {
        lemma_raw_hits_indices(s, i, lo + 1, hi);
        let rest = spec_raw_hits(s, i, lo + 1, hi);
        let cur = spec_raw_hits(s, i, lo, hi);
        match spec_raw_at(s, i, lo) {
            Some(r) => {
                assert(cur == seq![(lo, r)] + rest);
                assert forall|k: int| 0 <= k < cur.len() implies lo <= (#[trigger] cur[k]).0
                    < hi by {
                    if k == 0 {
                        assert(cur[k] == (lo, r));
                    } else {
                        assert(cur[k] == rest[k - 1]);
                    }
                }
                assert forall|k1: int, k2: int| 0 <= k1 < k2 < cur.len() implies cur[k1].0
                    < cur[k2].0 by {
                    assert(cur[k2] == rest[k2 - 1]);
                    if k1 == 0 {
                        assert(cur[k1] == (lo, r));
                    } else {
                        assert(cur[k1] == rest[k1 - 1]);
                    }
                }
            },
            None => {
                assert(cur == rest);
            },
        }
    }
}

/// Partner indices recorded by the solid scan lie inside the scanned range
/// and rise strictly.
pub proof fn lemma_solid_hits_indices(s: Seq<Entity>, i: int, lo: int, hi: int)
    ensures
        forall|k: int| 0 <= k < spec_solid_hits(s, i, lo, hi).len() ==> lo <= (
        #[trigger] spec_solid_hits(s, i, lo, hi)[k]).0 < hi,
        forall|k1: int, k2: int|
            0 <= k1 < k2 < spec_solid_hits(s, i, lo, hi).len() ==> spec_solid_hits(
                s,
                i,
                lo,
                hi,
            )[k1].0 < spec_solid_hits(s, i, lo, hi)[k2].0,
    decreases hi - lo,
{
    if lo < hi {
        lemma_solid_hits_indices(s, i, lo + 1, hi);
        let rest = spec_solid_hits(s, i, lo + 1, hi);
        let cur = spec_solid_hits(s, i, lo, hi);
        match spec_solid_at(s, i, lo) {
            Some(r) => {
                assert(cur == seq![(lo, r)] + rest);
                assert forall|k: int| 0 <= k < cur.len() implies lo <= (#[trigger] cur[k]).0
                    < hi by {
                    if k == 0 {
                        assert(cur[k] == (lo, r));
                    } else {
                        assert(cur[k] == rest[k - 1]);
                    }
                }
                assert forall|k1: int, k2: int| 0 <= k1 < k2 < cur.len() implies cur[k1].0
                    < cur[k2].0 by {
                    assert(cur[k2] == rest[k2 - 1]);
                    if k1 == 0 {
                        assert(cur[k1] == (lo, r));
                    } else {
                        assert(cur[k1] == rest[k1 - 1]);
                    }
                }
            },
            None => {
                assert(cur == rest);
            },
        }
    }
}

/// Two stores whose scanned suffix is identical, and whose scanning entity
/// agrees in position, source rectangle and physics, yield the same hits:
/// detection reads nothing else of the scanning entity.
pub proof fn lemma_hits_equiv(s1: Seq<Entity>, s2: Seq<Entity>, i: int, lo: int, hi: int)
    requires
        0 <= i < s1.len(),
        s1.len() == s2.len(),
        hi <= s1.len(),
        forall|j: int| lo <= j < hi ==> s1[j] == s2[j],
        s1[i].position == s2[i].position,
        s1[i].texture_rect == s2[i].texture_rect,
        s1[i].physics == s2[i].physics,
    ensures
        spec_raw_hits(s1, i, lo, hi) == spec_raw_hits(s2, i, lo, hi),
        spec_solid_hits(s1, i, lo, hi) == spec_solid_hits(s2, i, lo, hi),
    decreases hi - lo,
{
    if lo < hi {
        lemma_hits_equiv(s1, s2, i, lo + 1, hi);
        assert(s1[i].spec_bounds() == s2[i].spec_bounds());
        assert(s1[i].spec_hitbox_with_margin(s1[i].physics.solid_box_margin)
            == s2[i].spec_hitbox_with_margin(s2[i].physics.solid_box_margin));
        assert(spec_raw_at(s1, i, lo) == spec_raw_at(s2, i, lo));
        assert(spec_solid_at(s1, i, lo) == spec_solid_at(s2, i, lo));
    }
}

/// One detection pass: the entity at `entity_index`, when collision-enabled,
/// is tested against every later entry that is collision-enabled and not
/// deletion-flagged. Every raw box overlap yields an event; pairs without a
/// ghost whose margin-shrunk boxes also overlap yield a solid event.
pub fn check_collisions(entities: &Vec<Entity>, entity_index: usize) -> (r: (
    Vec<CollisionEvent>,
    Vec<CollisionEvent>,
))
    requires
        entity_index < entities@.len(),
        forall|k: int| entity_index <= k < entities@.len() ==> entity_geom_ok(
            #[trigger] entities@[k],
        ),
        forall|k: int| entity_index <= k < entities@.len() ==> (
        #[trigger] entities@[k]).physics.wf(),
    ensures
        events_match(r.0@, entities@, entity_index as int, spec_check_raw(entities@, entity_index as int)),
        events_match(r.1@, entities@, entity_index as int, spec_check_solid(entities@, entity_index as int)),
{
    let ghost s = entities@;
    let ghost i = entity_index as int;
    let n = entities.len();

    if !entities[entity_index].physics.collision_enabled || entity_index + 1 >= n {
        proof {
            if entities@[i].physics.collision_enabled {
                assert(spec_raw_hits(s, i, i + 1, n as int) =~= Seq::<(int, WorldRect)>::empty());
                assert(spec_solid_hits(s, i, i + 1, n as int) =~= Seq::<(int, WorldRect)>::empty());
            }
        }
        return (Vec::new(), Vec::new());
    }

    let mut collisions: Vec<CollisionEvent> = Vec::new();
    let mut solid_collisions: Vec<CollisionEvent> = Vec::new();

    let mut j = entity_index + 1;
    while j < n
        invariant
            entity_index < entities@.len(),
            entity_index + 1 <= j <= n,
            n == entities@.len(),
            s == entities@,
            i == entity_index as int,
            forall|k: int| entity_index <= k < entities@.len() ==> entity_geom_ok(
                #[trigger] entities@[k],
            ),
            forall|k: int| entity_index <= k < entities@.len() ==> (
            #[trigger] entities@[k]).physics.wf(),
            events_match(collisions@, s, i, spec_raw_hits(s, i, i + 1, j as int)),
            events_match(solid_collisions@, s, i, spec_solid_hits(s, i, i + 1, j as int)),
        decreases n - j,
    {
        let e2_enabled = entities[j].physics.collision_enabled;
        let e2_deleted = entities[j].deletion_flag;
        if e2_enabled && !e2_deleted {
            let b1 = entities[entity_index].global_bounds();
            let b2 = entities[j].global_bounds();
            if let Some(inter) = intersection(&b1, &b2) {
                collisions.push((entities[entity_index].id.clone(), entities[j].id.clone(), inter));

                let g1 = entities[entity_index].physics.ghost_flag;
                let g2 = entities[j].physics.ghost_flag;
                if !g1 && !g2 {
                    let m1 = entities[entity_index].physics.solid_box_margin;
                    let m2 = entities[j].physics.solid_box_margin;
                    let h1 = entities[entity_index].get_hitbox_with_margin(m1);
                    let h2 = entities[j].get_hitbox_with_margin(m2);
                    if let Some(solid_inter) = intersection(&h1, &h2) {
                        solid_collisions.push(
                            (entities[entity_index].id.clone(), entities[j].id.clone(), solid_inter),
                        );
                    }
                }
            }
        }
        proof {
            lemma_raw_hits_extend(s, i, i + 1, j as int);
            lemma_solid_hits_extend(s, i, i + 1, j as int);
        }
        j = j + 1;
    }

    (collisions, solid_collisions)
}


/// A pair with a ghost participant never contributes a margin-adjusted
/// hit: ghosts report raw overlaps but are never pushed.
pub proof fn lemma_ghost_pairs_never_solid(s: Seq<Entity>, i: int, lo: int, hi: int)
    ensures
        forall|k: int| 0 <= k < spec_solid_hits(s, i, lo, hi).len() ==> !s[i].physics.ghost_flag
            && !s[(#[trigger] spec_solid_hits(s, i, lo, hi)[k]).0].physics.ghost_flag,
    decreases hi - lo,
{
    if lo < hi {
        lemma_ghost_pairs_never_solid(s, i, lo + 1, hi);
        let rest = spec_solid_hits(s, i, lo + 1, hi);
        let cur = spec_solid_hits(s, i, lo, hi);
        match spec_solid_at(s, i, lo) {
            Some(r) => {
                assert(spec_solid_overlap(s[i], s[lo]) is Some);
                assert(!s[i].physics.ghost_flag && !s[lo].physics.ghost_flag);
                assert(cur == seq![(lo, r)] + rest);
                assert forall|k: int| 0 <= k < cur.len() implies !s[i].physics.ghost_flag && !s[(
                #[trigger] cur[k]).0].physics.ghost_flag by {
                    if k == 0 {
                        assert(cur[k] == (lo, r));
                    } else {
                        assert(cur[k] == rest[k - 1]);
                    }
                }
            },
            None => {
                assert(cur == rest);
            },
        }
    }
}

/// The index pairs one entity's scan visits: `(i, j)` for `j` in `[j0, n)`,
/// in order.
pub open spec fn spec_scan_pairs_row(i: int, j: int, n: int) -> Seq<(int, int)>
    decreases n - j,
{
    if j < n {
        seq![(i, j)] + spec_scan_pairs_row(i, j + 1, n)
    } else {
        Seq::empty()
    }
}

/// The index pairs a whole tick's scan visits from entity `i` on, in visit
/// order: each entity against all later entries.
pub open spec fn spec_scan_pairs(i: int, n: int) -> Seq<(int, int)>
    decreases n - i,
{
    if i < n {
        spec_scan_pairs_row(i, i + 1, n) + spec_scan_pairs(i + 1, n)
    } else {
        Seq::empty()
    }
}

/// One row enumerates its range in order.
proof fn lemma_scan_pairs_row_shape(i: int, j: int, n: int)
    requires
        j <= n,
    ensures
        spec_scan_pairs_row(i, j, n).len() == n - j,
        forall|k: int| 0 <= k < n - j ==> spec_scan_pairs_row(i, j, n)[k] == (i, j + k),
    decreases n - j,
{
    if j < n {
        lemma_scan_pairs_row_shape(i, j + 1, n);
        let rest = spec_scan_pairs_row(i, j + 1, n);
        let cur = spec_scan_pairs_row(i, j, n);
        assert(cur == seq![(i, j)] + rest);
        assert forall|k: int| 0 <= k < n - j implies cur[k] == (i, j + k) by {
            if k == 0 {
            } else {
                assert(cur[k] == rest[k - 1]);
            }
        }
    }
}

/// The scan from entity `i` visits `(n-i)(n-i-1)/2` pairs.
proof fn lemma_scan_pairs_len(i: int, n: int)
    requires
        0 <= i <= n,
    ensures
        spec_scan_pairs(i, n).len() * 2 == (n - i) * (n - i - 1),
    decreases n - i,
{
    if i == n {
        assert((n - i) * (n - i - 1) == 0) by (nonlinear_arith)
            requires
                i == n,
        ;
    }
    if i < n {
        lemma_scan_pairs_len(i + 1, n);
        lemma_scan_pairs_row_shape(i, i + 1, n);
        assert(spec_scan_pairs(i, n).len() * 2 == (n - i) * (n - i - 1)) by (nonlinear_arith)
            requires
                spec_scan_pairs(i, n).len() == (n - i - 1) + spec_scan_pairs(i + 1, n).len(),
                spec_scan_pairs(i + 1, n).len() * 2 == (n - i - 1) * (n - i - 2),
    ;
    }
}

/// The pair enumeration over `n` entities produces exactly `n(n-1)/2`
/// candidate pairs.
pub proof fn lemma_candidate_pair_count(n: int)
    requires
        0 <= n,
    ensures
        spec_scan_pairs(0, n).len() * 2 == n * (n - 1),
{
    lemma_scan_pairs_len(0, n);
}

/// Every enumerated pair is an unordered pair of distinct indices, and the
/// enumeration rises strictly in lexicographic order, so no pair is visited
/// twice.
pub proof fn lemma_candidate_pairs_distinct(i0: int, n: int)
    requires
        0 <= i0,
    ensures
        forall|k: int| 0 <= k < spec_scan_pairs(i0, n).len() ==> i0 <= (
        #[trigger] spec_scan_pairs(i0, n)[k]).0 && spec_scan_pairs(i0, n)[k].0
            < spec_scan_pairs(i0, n)[k].1 < n,
        forall|k1: int, k2: int|
            0 <= k1 < k2 < spec_scan_pairs(i0, n).len() ==> (spec_scan_pairs(i0, n)[k1].0
                < spec_scan_pairs(i0, n)[k2].0 || (spec_scan_pairs(i0, n)[k1].0
                == spec_scan_pairs(i0, n)[k2].0 && spec_scan_pairs(i0, n)[k1].1
                < spec_scan_pairs(i0, n)[k2].1)),
    decreases n - i0,
{
    if i0 < n {
        lemma_candidate_pairs_distinct(i0 + 1, n);
        lemma_scan_pairs_row_shape(i0, i0 + 1, n);
        let row = spec_scan_pairs_row(i0, i0 + 1, n);
        let rest = spec_scan_pairs(i0 + 1, n);
        let cur = spec_scan_pairs(i0, n);
        assert(cur == row + rest);
        assert forall|k: int| 0 <= k < cur.len() implies i0 <= (#[trigger] cur[k]).0 && cur[k].0
            < cur[k].1 < n by {
            if k < row.len() {
                assert(cur[k] == row[k]);
                assert(row[k] == (i0, i0 + 1 + k));
            } else {
                assert(cur[k] == rest[k - row.len()]);
            }
        }
        assert forall|k1: int, k2: int| 0 <= k1 < k2 < cur.len() implies (cur[k1].0 < cur[k2].0
            || (cur[k1].0 == cur[k2].0 && cur[k1].1 < cur[k2].1)) by {
            if k2 < row.len() {
                assert(cur[k1] == row[k1] && cur[k2] == row[k2]);
                assert(row[k1] == (i0, i0 + 1 + k1) && row[k2] == (i0, i0 + 1 + k2));
            } else if k1 < row.len() {
                assert(cur[k1] == row[k1] && row[k1] == (i0, i0 + 1 + k1));
                assert(cur[k2] == rest[k2 - row.len()]);
                assert(i0 + 1 <= cur[k2].0);
            } else {
                assert(cur[k1] == rest[k1 - row.len()] && cur[k2] == rest[k2 - row.len()]);
            }
        }
    }
}

/// Every unordered pair of distinct indices below `n` appears in the
/// enumeration: together with the strict ordering, each is visited exactly
/// once.
pub proof fn lemma_candidate_pairs_complete(i0: int, n: int, p: (int, int))
    requires
        i0 <= p.0 < p.1 < n,
    ensures
        spec_scan_pairs(i0, n).contains(p),
    decreases n - i0,
{
    let row = spec_scan_pairs_row(i0, i0 + 1, n);
    let rest = spec_scan_pairs(i0 + 1, n);
    let cur = spec_scan_pairs(i0, n);
    assert(cur == row + rest);
    if p.0 == i0 {
        lemma_scan_pairs_row_shape(i0, i0 + 1, n);
        let k = p.1 - i0 - 1;
        assert(row[k] == (i0, p.1));
        assert(cur[k] == row[k]);
        assert(cur[k] == p);
    } else {
        lemma_candidate_pairs_complete(i0 + 1, n, p);
        let k = choose|k: int| 0 <= k < rest.len() && rest[k] == p;
        assert(cur[row.len() + k] == rest[k]);
        assert(cur[row.len() + k] == p);
    }
}

} // verus!
