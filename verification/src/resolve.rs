//! Collision resolution: positional push-back for pairs whose solid boxes
//! overlap, rectangular (axis-aligned) or vectoral (radial), weighted by
//! mass and overridden by static bodies.

use vstd::prelude::*;
use crate::collision::CollisionEvent;
use crate::entity::Entity;
use crate::entity::store_has;
use crate::entity::store_index;
use crate::geom::Vec2;
use crate::geom::WorldRect;
use crate::geom::WORLD_LIMIT;
use crate::geom::isqrt64;
use crate::geom::spec_isqrt;
use crate::geom::spec_min;
use crate::physical::CollisionType;
use crate::physical::TICK_LIMIT;

verus! {

/// The absolute value.
pub open spec fn spec_abs(v: int) -> int {
    if v < 0 {
        -v
    } else {
        v
    }
}

/// Doubled centre of an entity's box: `2 * origin + extent` on each axis,
/// which compares exactly where halving would round.
pub open spec fn spec_center2(e: Entity) -> (int, int) {
    (2 * e.position.x + e.spec_size().0, 2 * e.position.y + e.spec_size().1)
}

/// A zero denominator is replaced by one before normalising, so a
/// degenerate direction or a resting opponent never divides by zero.
pub open spec fn spec_guard(len: int) -> int {
    if len == 0 {
        1
    } else {
        len
    }
}

/// One axis of a radial push: the axis share of the direction, normalised
/// by the direction's length and scaled by the opposing magnitude,
/// truncated towards zero.
pub open spec fn spec_dir_component(delta: int, len: int, mag: int) -> int {
    let scaled = spec_abs(delta) * mag / len;
    if delta < 0 {
        -scaled
    } else {
        scaled
    }
}

/// A push component weighted by the opposing mass over the combined mass,
/// truncated towards zero.
pub open spec fn spec_mass_weighted(c: int, m_num: int, m_sum: int) -> int {
    let w = spec_abs(c) * m_num / m_sum;
    if c < 0 {
        -w
    } else {
        w
    }
}

/// A pair resolves as rectangular unless both participants are vectoral.
pub open spec fn spec_pair_rectangular(a: Entity, b: Entity) -> bool {
    a.physics.collision_type is Rectangular || b.physics.collision_type is Rectangular
}

/// Rectangular push-back: the penetration is the shallower overlap extent;
/// the push axis is horizontal exactly when the overlap is narrower than it
/// is tall; the direction comes from the second entity's centre against the
/// overlap origin on that axis; masses split the penetration, with a static
/// body contributing nothing and taking nothing.
pub open spec fn spec_rect_pushes(a: Entity, b: Entity, inter: WorldRect) -> (Vec2, Vec2) {
    let pen = spec_min(inter.width as int, inter.height as int);
    let d1 = if a.physics.static_object {
        0
    } else if b.physics.static_object {
        pen
    } else {
        pen * b.physics.mass / (a.physics.mass + b.physics.mass)
    };
    let d2 = if a.physics.static_object {
        pen
    } else if b.physics.static_object {
        0
    } else {
        pen * a.physics.mass / (a.physics.mass + b.physics.mass)
    };
    let horizontal = inter.width < inter.height;
    let toward = if horizontal {
        spec_center2(b).0 < 2 * inter.left
    } else {
        spec_center2(b).1 < 2 * inter.top
    };
    if horizontal {
        if toward {
            (Vec2 { x: d1 as i64, y: 0 }, Vec2 { x: (-d2) as i64, y: 0 })
        } else {
            (Vec2 { x: (-d1) as i64, y: 0 }, Vec2 { x: d2 as i64, y: 0 })
        }
    } else {
        if toward {
            (Vec2 { x: 0, y: d1 as i64 }, Vec2 { x: 0, y: (-d2) as i64 })
        } else {
            (Vec2 { x: 0, y: (-d1) as i64 }, Vec2 { x: 0, y: d2 as i64 })
        }
    }
}

/// Vectoral push-back: each entity is pushed along the unit direction from
/// the overlap's midpoint to its own centre, scaled by the opposing
/// entity's per-tick displacement magnitude and by the tick duration; a
/// static body contributes no displacement and leaves the full push to the
/// other, otherwise the opposing mass over the combined mass splits it.
pub open spec fn spec_vect_pushes(a: Entity, b: Entity, inter: WorldRect, tick: int) -> (
    Vec2,
    Vec2,
) {
    let tx = 2 * inter.left + inter.width;
    let ty = 2 * inter.top + inter.height;
    let d1x = spec_center2(a).0 - tx;
    let d1y = spec_center2(a).1 - ty;
    let d2x = spec_center2(b).0 - tx;
    let d2y = spec_center2(b).1 - ty;
    let len1 = spec_guard(spec_isqrt(d1x * d1x + d1y * d1y));
    let len2 = spec_guard(spec_isqrt(d2x * d2x + d2y * d2y));
    let mv1 = a.spec_movement_vector();
    let mv2 = b.spec_movement_vector();
    let mag1 = spec_guard(spec_isqrt(mv1.x * mv1.x + mv1.y * mv1.y));
    let mag2 = spec_guard(spec_isqrt(mv2.x * mv2.x + mv2.y * mv2.y));
    let p1x = spec_dir_component(d1x, len1, mag2);
    let p1y = spec_dir_component(d1y, len1, mag2);
    let p2x = spec_dir_component(d2x, len2, mag1);
    let p2y = spec_dir_component(d2y, len2, mag1);
    if a.physics.static_object {
        (Vec2 { x: 0, y: 0 }, Vec2 { x: (p2x * tick) as i64, y: (p2y * tick) as i64 })
    } else if b.physics.static_object {
        (Vec2 { x: (p1x * tick) as i64, y: (p1y * tick) as i64 }, Vec2 { x: 0, y: 0 })
    } else {
        let m_sum = a.physics.mass + b.physics.mass;
        (
            Vec2 {
                x: (spec_mass_weighted(p1x, b.physics.mass as int, m_sum) * tick) as i64,
                y: (spec_mass_weighted(p1y, b.physics.mass as int, m_sum) * tick) as i64,
            },
            Vec2 {
                x: (spec_mass_weighted(p2x, a.physics.mass as int, m_sum) * tick) as i64,
                y: (spec_mass_weighted(p2y, a.physics.mass as int, m_sum) * tick) as i64,
            },
        )
    }
}

/// The two displacements a pair's resolution applies: none when both are
/// static, otherwise rectangular or vectoral by the pair's collision types.
pub open spec fn spec_pair_pushes(a: Entity, b: Entity, inter: WorldRect, tick: int) -> (
    Vec2,
    Vec2,
) {
    if a.physics.static_object && b.physics.static_object {
        (Vec2 { x: 0, y: 0 }, Vec2 { x: 0, y: 0 })
    } else if spec_pair_rectangular(a, b) {
        spec_rect_pushes(a, b, inter)
    } else {
        spec_vect_pushes(a, b, inter, tick)
    }
}

/// The entity displaced by `d`, all else unchanged.
pub open spec fn spec_moved(e: Entity, d: Vec2) -> Entity {
    Entity {
        position: Vec2 { x: (e.position.x + d.x) as i64, y: (e.position.y + d.y) as i64 },
        ..e
    }
}

/// An entity whose geometry, history and physics the resolution arithmetic
/// accepts.
pub open spec fn entity_resolve_ok(e: Entity) -> bool {
    &&& e.position.bounded(WORLD_LIMIT as int)
    &&& e.previous_position.bounded(WORLD_LIMIT as int)
    &&& e.spec_size().0 <= WORLD_LIMIT
    &&& e.spec_size().1 <= WORLD_LIMIT
    &&& e.physics.wf()
}

/// An overlap box the resolution arithmetic accepts: non-negative extents
/// and edges within three world limits, as any overlap of margin-adjusted
/// boxes of in-bounds entities is.
pub open spec fn inter_ok(inter: WorldRect) -> bool {
    &&& -3 * WORLD_LIMIT <= inter.left
    &&& inter.left + inter.width <= 3 * WORLD_LIMIT
    &&& -3 * WORLD_LIMIT <= inter.top
    &&& inter.top + inter.height <= 3 * WORLD_LIMIT
    &&& 0 <= inter.width
    &&& 0 <= inter.height
}

/// The store after one event's push-back: both participants displaced by
/// their pair's pushes.
pub open spec fn spec_apply_push(s: Seq<Entity>, ev: CollisionEvent, tick: int) -> Seq<Entity> {
    let i = store_index(s, ev.0@);
    let j = store_index(s, ev.1@);
    let pushes = spec_pair_pushes(s[i], s[j], ev.2, tick);
    s.update(i, spec_moved(s[i], pushes.0)).update(j, spec_moved(s[j], pushes.1))
}

/// The store after a whole event list's push-backs, applied in list order.
pub open spec fn spec_apply_pushes(s: Seq<Entity>, evs: Seq<CollisionEvent>, tick: int) -> Seq<
    Entity,
>
    decreases evs.len(),
{
    if evs.len() == 0 {
        s
    } else {
        spec_apply_pushes(spec_apply_push(s, evs[0], tick), evs.skip(1), tick)
    }
}

/// Every event in the list names two distinct, present entities whose
/// geometry the arithmetic accepts at the moment that event is applied, and
/// carries an acceptable overlap box.
pub open spec fn spec_pushes_ok(s: Seq<Entity>, evs: Seq<CollisionEvent>, tick: int) -> bool
    decreases evs.len(),
{
    if evs.len() == 0 {
        true
    } else {
        let ev = evs[0];
        &&& store_has(s, ev.0@)
        &&& store_has(s, ev.1@)
        &&& ev.0@ != ev.1@
        &&& entity_resolve_ok(s[store_index(s, ev.0@)])
        &&& entity_resolve_ok(s[store_index(s, ev.1@)])
        &&& inter_ok(ev.2)
        &&& spec_pushes_ok(spec_apply_push(s, ev, tick), evs.skip(1), tick)
    }
}

/// Applies one pair's push-back to the store: the entities at `i` and `j`
/// are displaced as the pair's collision types, masses and static flags
/// dictate; nothing else changes.
/// Signed products of bounded factors stay within the product of bounds.
proof fn lemma_mul_signed_bound(a: int, b: int, ka: int, kb: int)
    requires
        -ka <= a <= ka,
        0 <= b <= kb,
        0 <= ka,
    ensures
        -(ka * kb) <= a * b <= ka * kb,
{
    assert(-(ka * kb) <= a * b <= ka * kb) by (nonlinear_arith)
        requires
            -ka <= a <= ka,
            0 <= b <= kb,
            0 <= ka,
    ;
}

/// The rectangular displacements for a non-both-static pair.
fn rect_pushes(a: &Entity, b: &Entity, inter: WorldRect) -> (r: (Vec2, Vec2))
    requires
        entity_resolve_ok(*a),
        entity_resolve_ok(*b),
        inter_ok(inter),
    ensures
        r == spec_rect_pushes(*a, *b, inter),
        r.0.x + r.0.y <= 600_000_000 && -600_000_000 <= r.0.x + r.0.y,
        r.1.x + r.1.y <= 600_000_000 && -600_000_000 <= r.1.x + r.1.y,
        r.0.x == 0 || r.0.y == 0,
        r.1.x == 0 || r.1.y == 0,
{
    let e1_static = a.physics.static_object;
    let e2_static = b.physics.static_object;
    let pen = if inter.width < inter.height {
        inter.width
    } else {
        inter.height
    };
    let m1 = a.physics.mass;
    let m2 = b.physics.mass;
    let d1: i64 = if e1_static {
        0
    } else if e2_static {
        pen
    } else {
        weighted_pen(pen, m2, m1 + m2)
    };
    let d2: i64 = if e1_static {
        pen
    } else if e2_static {
        0
    } else {
        weighted_pen(pen, m1, m1 + m2)
    };
    let bb = b.global_bounds();
    let horizontal = inter.width < inter.height;
    let toward = if horizontal {
        2 * bb.left + bb.width < 2 * inter.left
    } else {
        2 * bb.top + bb.height < 2 * inter.top
    };
    if horizontal {
        if toward {
            (Vec2 { x: d1, y: 0 }, Vec2 { x: -d2, y: 0 })
        } else {
            (Vec2 { x: -d1, y: 0 }, Vec2 { x: d2, y: 0 })
        }
    } else {
        if toward {
            (Vec2 { x: 0, y: d1 }, Vec2 { x: 0, y: -d2 })
        } else {
            (Vec2 { x: 0, y: -d1 }, Vec2 { x: 0, y: d2 })
        }
    }
}

/// The vectoral displacements for a non-both-static pair.
#[verifier::rlimit(60)]
fn vect_pushes(a: &Entity, b: &Entity, inter: WorldRect, tick: i64) -> (r: (Vec2, Vec2))
    requires
        entity_resolve_ok(*a),
        entity_resolve_ok(*b),
        inter_ok(inter),
        0 <= tick <= TICK_LIMIT,
    ensures
        r == spec_vect_pushes(*a, *b, inter, tick as int),
        -400_000_000_000_000 <= r.0.x <= 400_000_000_000_000,
        -400_000_000_000_000 <= r.0.y <= 400_000_000_000_000,
        -400_000_000_000_000 <= r.1.x <= 400_000_000_000_000,
        -400_000_000_000_000 <= r.1.y <= 400_000_000_000_000,
{
    let e1_static = a.physics.static_object;
    let e2_static = b.physics.static_object;
    let tx = 2 * inter.left + inter.width;
    let ty = 2 * inter.top + inter.height;
    let b1 = a.global_bounds();
    let b2 = b.global_bounds();
    let d1x = (2 * b1.left + b1.width) - tx;
    let d1y = (2 * b1.top + b1.height) - ty;
    let d2x = (2 * b2.left + b2.width) - tx;
    let d2y = (2 * b2.top + b2.height) - ty;
    let len1_raw = vec_len(d1x, d1y);
    let len2_raw = vec_len(d2x, d2y);
    let len1 = if len1_raw == 0 {
        1
    } else {
        len1_raw
    };
    let len2 = if len2_raw == 0 {
        1
    } else {
        len2_raw
    };
    let mv1 = a.get_movement_vector();
    let mv2 = b.get_movement_vector();
    let mag1_raw = vec_len(mv1.x, mv1.y);
    let mag2_raw = vec_len(mv2.x, mv2.y);
    let mag1 = if mag1_raw == 0 {
        1
    } else {
        mag1_raw
    };
    let mag2 = if mag2_raw == 0 {
        1
    } else {
        mag2_raw
    };
    let p1x = dir_component(d1x, len1, mag2);
    let p1y = dir_component(d1y, len1, mag2);
    let p2x = dir_component(d2x, len2, mag1);
    let p2y = dir_component(d2y, len2, mag1);
    proof {
        lemma_mul_signed_bound(p1x as int, tick as int, 300_000_000, 1_000_000);
        lemma_mul_signed_bound(p1y as int, tick as int, 300_000_000, 1_000_000);
        lemma_mul_signed_bound(p2x as int, tick as int, 300_000_000, 1_000_000);
        lemma_mul_signed_bound(p2y as int, tick as int, 300_000_000, 1_000_000);
    }
    if e1_static {
        (Vec2 { x: 0, y: 0 }, Vec2 { x: p2x * tick, y: p2y * tick })
    } else if e2_static {
        (Vec2 { x: p1x * tick, y: p1y * tick }, Vec2 { x: 0, y: 0 })
    } else {
        let m1 = a.physics.mass;
        let m2 = b.physics.mass;
        let w1x = mass_weighted(p1x, m2, m1 + m2);
        let w1y = mass_weighted(p1y, m2, m1 + m2);
        let w2x = mass_weighted(p2x, m1, m1 + m2);
        let w2y = mass_weighted(p2y, m1, m1 + m2);
        proof {
            lemma_mul_signed_bound(w1x as int, tick as int, 300_000_000, 1_000_000);
            lemma_mul_signed_bound(w1y as int, tick as int, 300_000_000, 1_000_000);
            lemma_mul_signed_bound(w2x as int, tick as int, 300_000_000, 1_000_000);
            lemma_mul_signed_bound(w2y as int, tick as int, 300_000_000, 1_000_000);
        }
        (Vec2 { x: w1x * tick, y: w1y * tick }, Vec2 { x: w2x * tick, y: w2y * tick })
    }
}

/// Applies one pair's push-back to the store: the entities at `i` and `j`
/// are displaced as the pair's collision types, masses and static flags
/// dictate; nothing else changes.
pub fn resolve_pair(entities: &mut Vec<Entity>, i: usize, j: usize, inter: WorldRect, tick: i64)
    requires
        i < old(entities)@.len(),
        j < old(entities)@.len(),
        i != j,
        entity_resolve_ok(old(entities)@[i as int]),
        entity_resolve_ok(old(entities)@[j as int]),
        inter_ok(inter),
        0 <= tick <= TICK_LIMIT,
    ensures
        ({
            let pushes = spec_pair_pushes(
                old(entities)@[i as int],
                old(entities)@[j as int],
                inter,
                tick as int,
            );
            final(entities)@ == old(entities)@.update(
                i as int,
                spec_moved(old(entities)@[i as int], pushes.0),
            ).update(j as int, spec_moved(old(entities)@[j as int], pushes.1))
        }),
{
    let ghost s = entities@;
    let e1_static = entities[i].physics.static_object;
    let e2_static = entities[j].physics.static_object;
    if e1_static && e2_static {
        proof {
            assert(spec_moved(s[i as int], Vec2 { x: 0, y: 0 }) == s[i as int]);
            assert(spec_moved(s[j as int], Vec2 { x: 0, y: 0 }) == s[j as int]);
            assert(s.update(i as int, s[i as int]).update(j as int, s[j as int]) =~= s);
        }
        return ;
    }

    let rectangular = entities[i].physics.collision_type == CollisionType::Rectangular
        || entities[j].physics.collision_type == CollisionType::Rectangular;

    let (p1, p2): (Vec2, Vec2) = if rectangular {
        rect_pushes(&entities[i], &entities[j], inter)
    } else {
        vect_pushes(&entities[i], &entities[j], inter, tick)
    };

    let pos1 = entities[i].position;
    entities[i].position = Vec2 { x: pos1.x + p1.x, y: pos1.y + p1.y };
    let pos2 = entities[j].position;
    entities[j].position = Vec2 { x: pos2.x + p2.x, y: pos2.y + p2.y };
}

/// Length of an integer vector, with the facts the push arithmetic needs.
fn vec_len(dx: i64, dy: i64) -> (l: u64)
    requires
        -2_000_000_000 <= dx <= 2_000_000_000,
        -2_000_000_000 <= dy <= 2_000_000_000,
    ensures
        l == spec_isqrt(dx * dx + dy * dy),
        l <= 3_000_000_000,
        spec_abs(dx as int) <= l || (dx == 0 && dy == 0),
        spec_abs(dy as int) <= l || (dx == 0 && dy == 0),
        dx == 0 && dy == 0 ==> l == 0,
        -200_000_000 <= dx <= 200_000_000 && -200_000_000 <= dy <= 200_000_000 ==> l
            <= 300_000_000,
    {
        assert(0 <= dx * dx <= 4_000_000_000_000_000_000i128 && 0 <= dy * dy
            <= 4_000_000_000_000_000_000i128) by (nonlinear_arith)
            requires
                -2_000_000_000 <= dx <= 2_000_000_000,
                -2_000_000_000 <= dy <= 2_000_000_000,
        ;
        let sq: u64 = ((dx as i128) * (dx as i128) + (dy as i128) * (dy as i128)) as u64;
        let l = isqrt64(sq);
        assert(l <= 3_000_000_000 && (spec_abs(dx as int) <= l || sq == 0) && (spec_abs(
            dy as int,
        ) <= l || sq == 0)) by (nonlinear_arith)
            requires
                sq == dx * dx + dy * dy,
                0 <= sq <= 8_000_000_000_000_000_000int,
                (l as int) * (l as int) <= sq as int,
                (sq as int) < ((l as int) + 1) * ((l as int) + 1),
                0 <= l,
        ;
        assert(sq == 0 ==> dx == 0 && dy == 0) by (nonlinear_arith)
            requires
                sq == dx * dx + dy * dy,
        ;
        assert(dx == 0 && dy == 0 ==> l * l == 0) by (nonlinear_arith)
            requires
                (l as int) * (l as int) <= sq as int,
                sq == dx * dx + dy * dy,
                0 <= l,
        ;
        assert(l * l == 0 ==> l == 0) by (nonlinear_arith);
        assert(-200_000_000 <= dx <= 200_000_000 && -200_000_000 <= dy <= 200_000_000 ==> l
            <= 300_000_000) by (nonlinear_arith)
            requires
                sq == dx * dx + dy * dy,
                (l as int) * (l as int) <= sq as int,
                0 <= l,
        ;
        l
    }

/// One axis of a radial push, executed on magnitudes with the sign applied
/// last, so the division truncates towards zero.
fn dir_component(delta: i64, len: u64, mag: u64) -> (r: i64)
    requires
        -2_000_000_000 <= delta <= 2_000_000_000,
        1 <= len <= 3_000_000_000,
        mag <= 300_000_000,
        delta <= len,
        -delta <= len,
    ensures
        r == spec_dir_component(delta as int, len as int, mag as int),
        -(mag as int) <= r <= mag,
{
    let a: u64 = if delta < 0 {
        (-delta) as u64
    } else {
        delta as u64
    };
    assert(a * mag <= 600_000_000_000_000_000int) by (nonlinear_arith)
        requires
            0 <= a <= 2_000_000_000,
            0 <= mag <= 300_000_000,
    ;
    let scaled: u64 = a * mag / len;
    assert(scaled <= mag) by (nonlinear_arith)
        requires
            scaled == a as int * mag as int / len as int,
            0 <= a <= len,
            1 <= len,
            0 <= mag,
    ;
    if delta < 0 {
        -(scaled as i64)
    } else {
        scaled as i64
    }
}

/// A push component weighted by the opposing mass over the combined mass.
fn mass_weighted(c: i64, m_num: i64, m_sum: i64) -> (r: i64)
    requires
        -300_000_000 <= c <= 300_000_000,
        1 <= m_num <= m_sum,
        m_sum <= 2_000_000,
    ensures
        r == spec_mass_weighted(c as int, m_num as int, m_sum as int),
        -spec_abs(c as int) <= r <= spec_abs(c as int),
{
    let a: u64 = if c < 0 {
        (-c) as u64
    } else {
        c as u64
    };
    assert(a * (m_num as u64) <= 600_000_000_000_000int) by (nonlinear_arith)
        requires
            0 <= a <= 300_000_000,
            0 <= m_num <= 2_000_000,
    ;
    let w: u64 = a * (m_num as u64) / (m_sum as u64);
    assert(w <= a) by (nonlinear_arith)
        requires
            w == a as int * m_num as int / m_sum as int,
            0 <= m_num <= m_sum,
            1 <= m_sum,
            0 <= a,
    ;
    if c < 0 {
        -(w as i64)
    } else {
        w as i64
    }
}

/// The penetration share a non-static participant takes: penetration times
/// the opposing mass over the combined mass.
fn weighted_pen(pen: i64, m_num: i64, m_sum: i64) -> (r: i64)
    requires
        0 <= pen <= 800_000_000,
        1 <= m_num <= m_sum,
        m_sum <= 2_000_000,
    ensures
        r == pen as int * m_num as int / m_sum as int,
        0 <= r <= pen,
{
    assert((pen as u64) * (m_num as u64) <= 1_600_000_000_000_000int) by (nonlinear_arith)
        requires
            0 <= pen <= 800_000_000,
            0 <= m_num <= 2_000_000,
    ;
    let w: u64 = (pen as u64) * (m_num as u64) / (m_sum as u64);
    assert(w <= pen) by (nonlinear_arith)
        requires
            w == pen as int * m_num as int / m_sum as int,
            0 <= m_num <= m_sum,
            1 <= m_sum,
            0 <= pen,
    ;
    w as i64
}

} // verus!
