//! The per-tick animation step of one entity: refresh its source rectangle
//! when the texture is dirty, advance the frame clock, count wraps, and
//! carry out `Once`/`FiniteLoop` transitions.

use vstd::prelude::*;
use crate::animation::Animation;
use crate::animation::AnimationType;
use crate::animation::PixelRect;
use crate::animation::tex_wf;
use crate::entity::Entity;
use crate::entity::lemma_anim_index_unique;
use crate::entity::str_eq;
use crate::geom::WORLD_LIMIT;
use crate::physical::TICK_LIMIT;

verus! {

/// A sheet size the simulation accepts: positive pixel area that fits
/// `i32`, and axes within the world limit so derived boxes stay bounded.
pub open spec fn texture_size_ok(tex: (u32, u32)) -> bool {
    &&& tex_wf(tex)
    &&& tex.0 <= WORLD_LIMIT
    &&& tex.1 <= WORLD_LIMIT
}

/// The table holds a sheet size under this name.
pub open spec fn textures_has(ts: Seq<(String, (u32, u32))>, name: Seq<char>) -> bool {
    exists|i: int| 0 <= i < ts.len() && (#[trigger] ts[i]).0@ == name
}

/// The sheet size the table holds under this name.
pub open spec fn textures_size(ts: Seq<(String, (u32, u32))>, name: Seq<char>) -> (u32, u32) {
    ts[choose|i: int| 0 <= i < ts.len() && (#[trigger] ts[i]).0@ == name].1
}

/// A usable texture table: unique names, all sizes within bounds.
pub open spec fn textures_wf(ts: Seq<(String, (u32, u32))>) -> bool {
    &&& forall|i: int, j: int| 0 <= i < j < ts.len() ==> ts[i].0@ != ts[j].0@
    &&& forall|i: int| 0 <= i < ts.len() ==> texture_size_ok((#[trigger] ts[i]).1)
}

/// With unique names, any index carrying the name determines the size the
/// specification selects.
pub proof fn lemma_textures_index_unique(ts: Seq<(String, (u32, u32))>, name: Seq<char>, i: int)
    requires
        forall|a: int, b: int| 0 <= a < b < ts.len() ==> ts[a].0@ != ts[b].0@,
        0 <= i < ts.len(),
        ts[i].0@ == name,
    ensures
        textures_has(ts, name),
        textures_size(ts, name) == ts[i].1,
{
    assert(textures_has(ts, name));
    let c = choose|k: int| 0 <= k < ts.len() && (#[trigger] ts[k]).0@ == name;
    if c < i {
        assert(ts[c].0@ != ts[i].0@);
    } else if i < c {
        assert(ts[i].0@ != ts[c].0@);
    }
}

/// Looks a sheet size up by name.
pub fn tex_lookup(textures: &Vec<(String, (u32, u32))>, name: &str) -> (r: Option<(u32, u32)>)
    requires
        forall|a: int, b: int|
            0 <= a < b < textures@.len() ==> textures@[a].0@ != textures@[b].0@,
    ensures
        match r {
            Some(size) => textures_has(textures@, name@) && size == textures_size(
                textures@,
                name@,
            ),
            None => !textures_has(textures@, name@),
        },
{
    let n = textures.len();
    let mut k: usize = 0;
    while k < n
        invariant
            k <= n,
            n == textures@.len(),
            forall|j: int| 0 <= j < k ==> (#[trigger] textures@[j]).0@ != name@,
            forall|a: int, b: int|
                0 <= a < b < textures@.len() ==> textures@[a].0@ != textures@[b].0@,
        decreases n - k,
    {
        if str_eq(textures[k].0.as_str(), name) {
            proof {
                lemma_textures_index_unique(textures@, name@, k as int);
            }
            return Some(textures[k].1);
        }
        k = k + 1;
    }
    None
}

/// The full-sheet source rectangle.
pub open spec fn full_sheet_rect(size: (u32, u32)) -> PixelRect {
    PixelRect { left: 0, top: 0, width: size.0 as i32, height: size.1 as i32 }
}

/// The source rectangle the dirty-texture refresh leaves on the entity:
/// the current frame's rectangle when one can be derived, otherwise the
/// whole sheet; an entity with a clean texture keeps its rectangle.
pub open spec fn spec_refresh_rect(ts: Seq<(String, (u32, u32))>, e: Entity) -> PixelRect {
    if !e.animation_changed {
        e.texture_rect
    } else {
        let cur = e.spec_current_animation();
        let size = textures_size(ts, cur.texture_id@);
        match cur.spec_rect_at(cur.current_frame as int, size) {
            Some(r) => r,
            None => full_sheet_rect(size),
        }
    }
}

/// The source rectangle the whole animation step leaves on the entity:
/// the refreshed rectangle, replaced — when a frame is due on a stepping
/// variant — by the pre-step frame's mirrored rectangle where one can be
/// derived.
pub open spec fn spec_animate_rect(ts: Seq<(String, (u32, u32))>, e: Entity) -> PixelRect {
    let cur = e.spec_current_animation();
    let size = textures_size(ts, cur.texture_id@);
    let tr1 = spec_refresh_rect(ts, e);
    if cur.type_ is Static || !cur.spec_frame_due() {
        tr1
    } else {
        match cur.spec_current_rect_flipped(size, e.flip_x, e.flip_y) {
            Some(r) => r,
            None => tr1,
        }
    }
}

/// The animation after one frame advance: the stepped counter, and on a
/// wrap of a `FiniteLoop` the bumped wrap counter. The second component
/// reports the wrap.
pub open spec fn spec_stepped_anim(cur: Animation, size: (u32, u32)) -> (Animation, bool) {
    let stepped = cur.spec_step_frame(size);
    let ty = match cur.type_ {
        AnimationType::FiniteLoop { loops, current_loop, return_state, rect_index_range } => if stepped.1 {
            AnimationType::FiniteLoop {
                loops,
                current_loop: (current_loop + 1) as u32,
                return_state,
                rect_index_range,
            }
        } else {
            AnimationType::FiniteLoop { loops, current_loop, return_state, rect_index_range }
        },
        other => other,
    };
    (Animation { current_frame: stepped.0, type_: ty, ..cur }, stepped.1)
}

/// The return state a frame-due step switches to, if any: a `Once` switches
/// exactly when its step wrapped; a `FiniteLoop` switches when its wrap
/// counter had already reached its loop target when the step began.
pub open spec fn spec_transition(cur: Animation, wrapped: bool) -> Option<Seq<char>> {
    match cur.type_ {
        AnimationType::FiniteLoop { loops, current_loop, return_state, .. } => if current_loop
            >= loops {
            Some(return_state@)
        } else {
            None
        },
        AnimationType::Once { return_state, .. } => if wrapped {
            Some(return_state@)
        } else {
            None
        },
        _ => None,
    }
}

/// What the animation step needs of the entity and the texture table: a
/// well-formed entity with an active animation, headroom on every duration
/// accumulator and wrap counter, and — whenever the step will read the
/// sheet — a registered, in-bounds sheet that the animation's grid fits.
pub open spec fn animate_req(ts: Seq<(String, (u32, u32))>, e: Entity, tick: int) -> bool {
    &&& e.wf()
    &&& e.spec_has_current_animation()
    &&& 0 <= tick <= TICK_LIMIT
    &&& forall|i: int| 0 <= i < e.animations@.len()
        ==> (#[trigger] e.animations@[i]).1.current_total_duration + tick <= i64::MAX
    &&& ({
        let cur = e.spec_current_animation();
        &&& (cur.spec_current_loop() matches Some(c) ==> c < u32::MAX)
        &&& ((e.animation_changed || (!(cur.type_ is Static) && cur.spec_frame_due())) ==> (
            textures_has(ts, cur.texture_id@) && texture_size_ok(
                textures_size(ts, cur.texture_id@),
            ) && cur.rect_at_req(cur.current_frame as int, textures_size(ts, cur.texture_id@))
            && (cur.spec_rect_index_range() is None ==> cur.spec_sheet_fits(
                textures_size(ts, cur.texture_id@),
            ))))
    })
}

/// How one animation step transforms an entity. All fields are pinned;
/// the active-animation name is pinned by its characters, since a switch
/// writes a fresh string.
pub open spec fn animate_rel(
    ts: Seq<(String, (u32, u32))>,
    pre: Entity,
    post: Entity,
    tick: int,
) -> bool {
    let cur = pre.spec_current_animation();
    let idx = pre.spec_anim_index(pre.current_animation@);
    let size = textures_size(ts, cur.texture_id@);
    let tr1 = spec_refresh_rect(ts, pre);
    &&& post.id == pre.id
    &&& post.position == pre.position
    &&& post.previous_position == pre.previous_position
    &&& post.physics == pre.physics
    &&& if cur.type_ is Static {
        // terminal: only the dirty-texture refresh applies
        &&& post.texture_rect == tr1
        &&& post.animation_changed == false
        &&& post.flip_x == pre.flip_x
        &&& post.flip_y == pre.flip_y
        &&& post.deletion_flag == pre.deletion_flag
        &&& post.animations@ == pre.animations@
        &&& post.current_animation == pre.current_animation
    } else if !cur.spec_frame_due() {
        // no frame due: only the clock accumulates
        &&& post.texture_rect == tr1
        &&& post.animation_changed == false
        &&& post.flip_x == pre.flip_x
        &&& post.flip_y == pre.flip_y
        &&& post.deletion_flag == pre.deletion_flag
        &&& post.animations@ == pre.animations@.update(
            idx,
            (
                pre.animations@[idx].0,
                Animation {
                    current_total_duration: (cur.current_total_duration + tick) as i64,
                    ..cur
                },
            ),
        )
        &&& post.current_animation == pre.current_animation
    } else {
        let stepped = spec_stepped_anim(cur, size);
        let anim1 = stepped.0;
        let wrapped = stepped.1;
        let tr2 = spec_animate_rect(ts, pre);
        let trans = spec_transition(cur, wrapped);
        let switch_to = match trans {
            Some(n2) => if !Entity::deletion_name(n2) && pre.spec_has_animation(n2) && n2
                != pre.current_animation@ {
                Some(n2)
            } else {
                None
            },
            None => None,
        };
        let deletes = trans matches Some(n2) && Entity::deletion_name(n2);
        &&& post.texture_rect == tr2
        &&& post.deletion_flag == (pre.deletion_flag || deletes)
        &&& match switch_to {
            None => {
                // the active animation keeps its place; its clock resets
                // and then accumulates this tick
                &&& post.animation_changed == false
                &&& post.flip_x == pre.flip_x
                &&& post.flip_y == pre.flip_y
                &&& post.animations@ == pre.animations@.update(
                    idx,
                    (
                        pre.animations@[idx].0,
                        Animation { current_total_duration: tick as i64, ..anim1 },
                    ),
                )
                &&& post.current_animation == pre.current_animation
            },
            Some(n2) => {
                // the step's counters land on the old animation; the new
                // one starts with a fresh clock holding this tick
                let j = pre.spec_anim_index(n2);
                &&& post.animation_changed == true
                &&& post.flip_x == false
                &&& post.flip_y == false
                &&& post.animations@ == pre.animations@.update(
                    idx,
                    (pre.animations@[idx].0, anim1),
                ).update(
                    j,
                    (
                        pre.animations@[j].0,
                        Animation {
                            current_total_duration: tick as i64,
                            ..pre.animations@[j].1
                        },
                    ),
                )
                &&& post.current_animation@ == n2
            },
        }
    }
}

/// Phase two of the animation step, on an entity whose texture rectangle
/// is already fresh: accumulate the clock, advance the frame when due,
/// count wraps and carry out the variant's transition.
#[verifier::rlimit(100)]
fn step_current_animation(textures: &Vec<(String, (u32, u32))>, e: &mut Entity, tick: i64)
    requires
        textures_wf(textures@),
        animate_req(textures@, *old(e), tick as int),
        old(e).animation_changed == false,
    ensures
        animate_rel(textures@, *old(e), *final(e), tick as int),
        final(e).wf(),
        final(e).spec_has_current_animation(),
        final(e).texture_rect == old(e).texture_rect || (final(e).spec_size().0 <= WORLD_LIMIT
            && final(e).spec_size().1 <= WORLD_LIMIT),
{
    let ghost ts = textures@;
    let ghost pre = *old(e);
    let ghost cur = pre.spec_current_animation();
    let ghost idx = pre.spec_anim_index(pre.current_animation@);

    // capture the variant's data before any stepping
    let (kind, loops_t, cl_t, rs): (u8, u32, u32, String) = match &e.get_current_animation()
        .unwrap().type_ {
        AnimationType::Static => (0, 0, 0, String::new()),
        AnimationType::Loop { .. } => (1, 0, 0, String::new()),
        AnimationType::FiniteLoop { loops, current_loop, return_state, .. } => (
            2,
            *loops,
            *current_loop,
            return_state.clone(),
        ),
        AnimationType::Once { return_state, .. } => (3, 0, 0, return_state.clone()),
    };

    if kind == 0 {
        return ;
    }

    let due = e.get_current_animation().unwrap().time_to_next_frame();
    let ghost size_g = textures_size(ts, cur.texture_id@);

    if due {
        let texture_id = e.get_current_animation().unwrap().texture_id.clone();
        let size = tex_lookup(textures, texture_id.as_str()).unwrap();
        let (flip_x, flip_y) = e.get_flip();
        let current_rect = e.get_current_animation().unwrap().get_current_rect_flipped(
            size,
            flip_x,
            flip_y,
        );
        let wrapped = e.get_current_animation_mut().safe_increment_frame(size);
        proof {
            lemma_anim_index_unique(*e, pre.current_animation@, idx);
        }
        assert(e.animations@ == pre.animations@.update(
            idx,
            (
                pre.animations@[idx].0,
                Animation { current_frame: cur.spec_step_frame(size_g).0, ..cur },
            ),
        ));
        if wrapped && kind == 2 {
            e.get_current_animation_mut().increment_loop();
            proof {
                lemma_anim_index_unique(*e, pre.current_animation@, idx);
                assert(e.animations@ =~= pre.animations@.update(
                    idx,
                    (pre.animations@[idx].0, spec_stepped_anim(cur, size_g).0),
                ));
            }
        }
        assert(e.animations@ == pre.animations@.update(
            idx,
            (pre.animations@[idx].0, spec_stepped_anim(cur, size_g).0),
        ));

        let transition = (kind == 2 && cl_t >= loops_t) || (kind == 3 && wrapped);
        assert(transition <==> spec_transition(cur, wrapped) is Some);
        if transition {
            let ghost e3 = *e;
            e.set_current_animation(rs.as_str());
            proof {
                assert(rs@ == spec_transition(cur, wrapped).unwrap());
                if pre.spec_has_animation(rs@) {
                    let w = pre.spec_anim_index(rs@);
                    assert(e3.animations@[w].0@ == rs@);
                    assert(e3.spec_has_animation(rs@));
                }
                if e3.spec_has_animation(rs@) {
                    let w = e3.spec_anim_index(rs@);
                    assert(pre.animations@[w].0@ == rs@);
                    assert(pre.spec_has_animation(rs@));
                }
                if !Entity::deletion_name(rs@) && e3.spec_has_animation(rs@) && rs@
                    != e3.current_animation@ {
                    let j3 = e3.spec_anim_index(rs@);
                    assert(e3.animations@[j3].0@ == rs@);
                    assert(j3 != idx ==> pre.animations@[j3].0@ == rs@);
                    assert(j3 == idx ==> e3.animations@[j3].0@ == pre.current_animation@);
                    assert(pre.animations@[j3].0@ == rs@);
                    lemma_anim_index_unique(pre, rs@, j3);
                    assert(e.current_animation@ == rs@);
                    lemma_anim_index_unique(*e, rs@, j3);
                }
            }
        }
        let ghost e4 = *e;
        proof {
            let c4 = e4.spec_anim_index(e4.current_animation@);
            assert(0 <= c4 < e4.animations@.len() && e4.animations@[c4].0@
                == e4.current_animation@);
        }
        e.get_current_animation_mut().reset_duration();
        proof {
            let c4 = e4.spec_anim_index(e4.current_animation@);
            assert(e.animations@[c4].0@ == e4.current_animation@);
            lemma_anim_index_unique(*e, e4.current_animation@, c4);
            assert(e.spec_has_current_animation());
        }
        match current_rect {
            Some(r) => e.set_texture_rect(r),
            None => {},
        }
        proof {
            let c4 = e4.spec_anim_index(e4.current_animation@);
            assert(e.animations@[c4].0@ == e.current_animation@);
            assert(e.spec_has_current_animation());
            assert(e.wf());
        }
    }
    let ghost e5 = *e;
    proof {
        let c5 = e5.spec_anim_index(e5.current_animation@);
        assert(0 <= c5 < e5.animations@.len() && e5.animations@[c5].0@
            == e5.current_animation@);
        assert(forall|i: int| 0 <= i < e5.animations@.len()
            ==> (#[trigger] e5.animations@[i]).1.current_total_duration + tick <= i64::MAX);
    }
    e.get_current_animation_mut().increment_duration(tick);
    proof {
        let c5 = e5.spec_anim_index(e5.current_animation@);
        assert(e.animations@[c5].0@ == e5.current_animation@);
        lemma_anim_index_unique(*e, e5.current_animation@, c5);
        let stepped = spec_stepped_anim(cur, size_g);
        let trans = spec_transition(cur, stepped.1);
        if !cur.spec_frame_due() {
            assert(e.animations@ =~= pre.animations@.update(
                idx,
                (
                    pre.animations@[idx].0,
                    Animation {
                        current_total_duration: (cur.current_total_duration + tick) as i64,
                        ..cur
                    },
                ),
            ));
        } else {
            let switch_to = match trans {
                Some(n2) => if !Entity::deletion_name(n2) && pre.spec_has_animation(n2) && n2
                    != pre.current_animation@ {
                    Some(n2)
                } else {
                    None
                },
                None => None,
            };
            match switch_to {
                None => {
                    assert(e5.current_animation@ == pre.current_animation@);
                    assert(e5.animations@[idx].0@ == pre.current_animation@);
                    lemma_anim_index_unique(e5, pre.current_animation@, idx);
                    assert(e5.spec_anim_index(e5.current_animation@) == idx);
                    assert(e.animations@ =~= pre.animations@.update(
                        idx,
                        (
                            pre.animations@[idx].0,
                            Animation { current_total_duration: tick as i64, ..stepped.0 },
                        ),
                    ));
                },
                Some(n2) => {
                    let j = pre.spec_anim_index(n2);
                    assert(e5.current_animation@ == n2);
                    assert(pre.animations@[j].0@ == n2);
                    assert(e5.animations@[j].0@ == n2);
                    lemma_anim_index_unique(e5, n2, j);
                    assert(e5.spec_anim_index(e5.current_animation@) == j);
                    assert(e.animations@ =~= pre.animations@.update(
                        idx,
                        (pre.animations@[idx].0, stepped.0),
                    ).update(
                        j,
                        (
                            pre.animations@[j].0,
                            Animation {
                                current_total_duration: tick as i64,
                                ..pre.animations@[j].1
                            },
                        ),
                    ));
                },
            }
        }
    }
}

/// The dirty-texture refresh and the step relation compose into the step
/// relation from the original state.
proof fn lemma_animate_rel_compose(
    ts: Seq<(String, (u32, u32))>,
    pre: Entity,
    pre2: Entity,
    post: Entity,
    tick: int,
)
    requires
        pre2 == (Entity {
            texture_rect: spec_refresh_rect(ts, pre),
            animation_changed: false,
            ..pre
        }),
        animate_rel(ts, pre2, post, tick),
    ensures
        animate_rel(ts, pre, post, tick),
{
    assert(pre2.spec_current_animation() == pre.spec_current_animation());
    assert(pre2.spec_anim_index(pre2.current_animation@) == pre.spec_anim_index(
        pre.current_animation@,
    ));
    assert(spec_refresh_rect(ts, pre2) == spec_refresh_rect(ts, pre));
}

/// Runs one animation step on an entity: refreshes a dirty texture
/// rectangle, accumulates the frame clock, advances the frame when due,
/// counts wraps, and carries out the variant's transition.
pub fn animate_entity(textures: &Vec<(String, (u32, u32))>, e: &mut Entity, tick: i64)
    requires
        textures_wf(textures@),
        animate_req(textures@, *old(e), tick as int),
    ensures
        animate_rel(textures@, *old(e), *final(e), tick as int),
        final(e).wf(),
        final(e).spec_has_current_animation(),
        old(e).spec_size().0 <= WORLD_LIMIT && old(e).spec_size().1 <= WORLD_LIMIT
            ==> final(e).spec_size().0 <= WORLD_LIMIT && final(e).spec_size().1 <= WORLD_LIMIT,
{
    let ghost ts = textures@;
    let ghost pre = *old(e);

    // refresh the source rectangle when the texture is dirty
    if e.is_animation_changed() {
        let texture_id = e.get_current_animation().unwrap().texture_id.clone();
        let size = tex_lookup(textures, texture_id.as_str()).unwrap();
        let rect = e.get_current_animation().unwrap().get_current_rect(size);
        e.reset_texture_rect(size);
        match rect {
            Some(r) => e.set_texture_rect(r),
            None => {},
        }
        e.set_animation_changed(false);
    }
    assert(*e == (Entity {
        texture_rect: spec_refresh_rect(ts, pre),
        animation_changed: false,
        ..pre
    }));
    let ghost pre2 = *e;

    step_current_animation(textures, e, tick);

    proof {
        lemma_animate_rel_compose(ts, pre, pre2, *e, tick as int);
    }
}


/// A `Once` animation's step switches to its return state exactly when the
/// frame advance reports a wrap, never earlier.
pub proof fn lemma_once_transitions_exactly_on_wrap(cur: Animation, wrapped: bool)
    requires
        cur.type_ is Once,
    ensures
        spec_transition(cur, wrapped) is Some <==> wrapped,
{
}

/// A `FiniteLoop` animation's step switches to its return state exactly
/// when its wrap counter has reached its loop target, and never before.
pub proof fn lemma_finite_loop_transition_needs_target(cur: Animation, wrapped: bool)
    requires
        cur.type_ is FiniteLoop,
    ensures
        spec_transition(cur, wrapped) is Some <==> cur.spec_current_loop().unwrap()
            >= cur.spec_loops().unwrap(),
{
}

/// The wrap counter of a `FiniteLoop` never decreases across a frame
/// advance; no other variant carries one.
pub proof fn lemma_wrap_counter_never_decreases(cur: Animation, size: (u32, u32))
    requires
        cur.spec_current_loop() matches Some(c) ==> c < u32::MAX,
    ensures
        match (cur.spec_current_loop(), spec_stepped_anim(cur, size).0.spec_current_loop()) {
            (Some(c0), Some(c1)) => c0 <= c1,
            (None, None) => true,
            _ => false,
        },
{
}

} // verus!
