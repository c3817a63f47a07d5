//! One simulated entity: identity, bounding box, animation set, flip flags,
//! physical properties and the deletion flag.

use vstd::prelude::*;
use crate::animation::Animation;
use crate::animation::PixelRect;
use crate::animation::tex_wf;
use crate::geom::Vec2;
use crate::geom::WorldRect;
use crate::geom::WORLD_LIMIT;
use crate::geom::isqrt64;
use crate::geom::spec_isqrt;
use crate::physical::PhysicalProperties;
use crate::physical::SPEED_LIMIT;
use crate::physical::TICK_LIMIT;

verus! {

/// Products of non-negative bounded factors are bounded by the product of
/// the bounds.
pub proof fn lemma_mul_le(a: int, b: int, ka: int, kb: int)
    requires
        0 <= a <= ka,
        0 <= b <= kb,
    ensures
        0 <= a * b <= ka * kb,
{
    assert(0 <= a * b <= ka * kb) by (nonlinear_arith)
        requires
            0 <= a <= ka,
            0 <= b <= kb,
    ;
}

/// Two string slices hold the same characters.
pub fn str_eq(a: &str, b: &str) -> (r: bool)
    ensures
        r == (a@ == b@),
{
    let sa: String = a.to_owned();
    let sb: String = b.to_owned();
    sa == sb
}

/// An entity: a uniquely named body on the plane. Its bounding box is its
/// position plus the extent of the source rectangle it currently shows; its
/// animations are a name-keyed set with one active member.
#[derive(Clone, Debug)]
pub struct Entity {
    pub id: String,
    pub animations: Vec<(String, Animation)>,
    pub current_animation: String,
    pub position: Vec2,
    pub texture_rect: PixelRect,
    pub animation_changed: bool,
    pub flip_x: bool,
    pub flip_y: bool,
    pub physics: PhysicalProperties,
    pub deletion_flag: bool,
    pub previous_position: Vec2,
}

impl Entity {
    /// Animation names are unique, every animation and the physics block are
    /// well formed.
    pub open spec fn wf(self) -> bool {
        &&& forall|i: int, j: int|
            0 <= i < j < self.animations@.len()
                ==> self.animations@[i].0@ != self.animations@[j].0@
        &&& forall|i: int| 0 <= i < self.animations@.len() ==> (#[trigger] self.animations@[i]).1.wf()
        &&& self.physics.wf()
    }

    /// The named animation exists on this entity.
    pub open spec fn spec_has_animation(self, name: Seq<char>) -> bool {
        exists|i: int| 0 <= i < self.animations@.len() && (#[trigger] self.animations@[i]).0@ == name
    }

    /// The index of the named animation.
    pub open spec fn spec_anim_index(self, name: Seq<char>) -> int {
        choose|i: int| 0 <= i < self.animations@.len() && (#[trigger] self.animations@[i]).0@ == name
    }

    /// The named animation.
    pub open spec fn spec_animation(self, name: Seq<char>) -> Animation {
        self.animations@[self.spec_anim_index(name)].1
    }

    /// The active animation exists on this entity.
    pub open spec fn spec_has_current_animation(self) -> bool {
        self.spec_has_animation(self.current_animation@)
    }

    /// The active animation.
    pub open spec fn spec_current_animation(self) -> Animation {
        self.spec_animation(self.current_animation@)
    }

    /// The size of the entity's box: the absolute extents of the source
    /// rectangle it currently shows.
    pub open spec fn spec_size(self) -> (int, int) {
        (
            if self.texture_rect.width < 0 {
                -(self.texture_rect.width as int)
            } else {
                self.texture_rect.width as int
            },
            if self.texture_rect.height < 0 {
                -(self.texture_rect.height as int)
            } else {
                self.texture_rect.height as int
            },
        )
    }

    /// The entity's bounding box in world coordinates.
    pub open spec fn spec_bounds(self) -> WorldRect {
        WorldRect {
            left: self.position.x,
            top: self.position.y,
            width: self.spec_size().0 as i64,
            height: self.spec_size().1 as i64,
        }
    }

    /// A fresh entity: no animations, a placeholder active-animation name,
    /// a zero box at the origin and default physics.
    pub fn new(id: &str) -> (e: Entity)
        ensures
            e.id@ == id@,
            e.animations@.len() == 0,
            e.current_animation@ == ".."@,
            e.position == (Vec2 { x: 0, y: 0 }),
            e.previous_position == (Vec2 { x: 0, y: 0 }),
            e.texture_rect == (PixelRect { left: 0, top: 0, width: 0, height: 0 }),
            e.animation_changed,
            !e.flip_x,
            !e.flip_y,
            e.physics == PhysicalProperties::spec_default(),
            !e.deletion_flag,
            e.wf(),
    {
        Entity {
            previous_position: Vec2 { x: 0, y: 0 },
            id: id.to_owned(),
            animations: Vec::new(),
            current_animation: "..".to_owned(),
            position: Vec2 { x: 0, y: 0 },
            texture_rect: PixelRect { left: 0, top: 0, width: 0, height: 0 },
            animation_changed: true,
            flip_x: false,
            flip_y: false,
            physics: PhysicalProperties::default(),
            deletion_flag: false,
        }
    }

    pub fn get_id(&self) -> (r: String)
        ensures
            r@ == self.id@,
    {
        self.id.clone()
    }

    pub fn set_previous_position(&mut self, position: Vec2)
        ensures
            *final(self) == (Entity { previous_position: position, ..*old(self) }),
    {
        self.previous_position = position;
    }

    /// Snapshots the current position as the previous one.
    pub fn update_previous_position(&mut self)
        ensures
            *final(self) == (Entity { previous_position: old(self).position, ..*old(self) }),
    {
        self.previous_position = self.position;
    }

    /// This tick's displacement so far: current minus previous position.
    pub open spec fn spec_movement_vector(self) -> Vec2 {
        Vec2 {
            x: (self.position.x - self.previous_position.x) as i64,
            y: (self.position.y - self.previous_position.y) as i64,
        }
    }

    pub fn get_movement_vector(&self) -> (v: Vec2)
        requires
            self.position.bounded(16 * WORLD_LIMIT),
            self.previous_position.bounded(16 * WORLD_LIMIT),
        ensures
            v == self.spec_movement_vector(),
    {
        Vec2 {
            x: self.position.x - self.previous_position.x,
            y: self.position.y - self.previous_position.y,
        }
    }

    pub fn set_speed(&mut self, speed: i64)
        ensures
            *final(self) == (Entity {
                physics: PhysicalProperties { speed, ..old(self).physics },
                ..*old(self)
            }),
    {
        self.physics.speed = speed;
    }

    pub fn get_speed(&self) -> (s: i64)
        ensures
            s == self.physics.speed,
    {
        self.physics.speed
    }

    pub fn is_marked_for_deletion(&self) -> (r: bool)
        ensures
            r == self.deletion_flag,
    {
        self.deletion_flag
    }

    pub fn mark_for_deletion(&mut self)
        ensures
            *final(self) == (Entity { deletion_flag: true, ..*old(self) }),
    {
        self.deletion_flag = true;
    }

    pub fn get_physics(&self) -> (p: &PhysicalProperties)
        ensures
            *p == self.physics,
    {
        &self.physics
    }

    pub fn get_physics_mut(&mut self) -> (p: &mut PhysicalProperties)
        ensures
            *p == old(self).physics,
            *final(self) == (Entity { physics: *final(p), ..*old(self) }),
    {
        &mut self.physics
    }

    pub fn set_physics(&mut self, physics: PhysicalProperties)
        ensures
            *final(self) == (Entity { physics, ..*old(self) }),
    {
        self.physics = physics;
    }

    pub fn current_animation(&self) -> (r: &str)
        ensures
            r@ == self.current_animation@,
    {
        self.current_animation.as_str()
    }

    pub fn get_flip(&self) -> (r: (bool, bool))
        ensures
            r == (self.flip_x, self.flip_y),
    {
        (self.flip_x, self.flip_y)
    }

    pub fn get_animations(&self) -> (r: &Vec<(String, Animation)>)
        ensures
            r == &self.animations,
    {
        &self.animations
    }

    pub fn is_animation_changed(&self) -> (r: bool)
        ensures
            r == self.animation_changed,
    {
        self.animation_changed
    }

    pub fn set_animation_changed(&mut self, value: bool)
        ensures
            *final(self) == (Entity { animation_changed: value, ..*old(self) }),
    {
        self.animation_changed = value;
    }

    /// The entity's bounding box.
    pub fn global_bounds(&self) -> (r: WorldRect)
        ensures
            r == self.spec_bounds(),
    {
        let w: i64 = if self.texture_rect.width < 0 {
            -(self.texture_rect.width as i64)
        } else {
            self.texture_rect.width as i64
        };
        let h: i64 = if self.texture_rect.height < 0 {
            -(self.texture_rect.height as i64)
        } else {
            self.texture_rect.height as i64
        };
        WorldRect { left: self.position.x, top: self.position.y, width: w, height: h }
    }

    /// The entity's box at the origin.
    pub fn local_bounds(&self) -> (r: WorldRect)
        ensures
            r == (WorldRect {
                left: 0,
                top: 0,
                width: self.spec_size().0 as i64,
                height: self.spec_size().1 as i64,
            }),
    {
        let b = self.global_bounds();
        WorldRect { left: 0, top: 0, width: b.width, height: b.height }
    }

    pub fn texture_rect(&self) -> (r: PixelRect)
        ensures
            r == self.texture_rect,
    {
        self.texture_rect
    }

    /// Shows the given source rectangle; the entity's box takes its extent.
    pub fn set_texture_rect(&mut self, rect: PixelRect)
        ensures
            *final(self) == (Entity { texture_rect: rect, ..*old(self) }),
    {
        self.texture_rect = rect;
    }

    /// Shows a whole sheet of the given pixel size, as when a texture is
    /// (re)assigned with its full area.
    pub fn reset_texture_rect(&mut self, texture_size: (u32, u32))
        requires
            tex_wf(texture_size),
        ensures
            *final(self) == (Entity {
                texture_rect: PixelRect {
                    left: 0,
                    top: 0,
                    width: texture_size.0 as i32,
                    height: texture_size.1 as i32,
                },
                ..*old(self)
            }),
    {
        self.texture_rect = PixelRect {
            left: 0,
            top: 0,
            width: texture_size.0 as i32,
            height: texture_size.1 as i32,
        };
    }

    /// The entity's full box, as drawn for debugging.
    pub fn get_hitbox(&self) -> (r: WorldRect)
        ensures
            r == self.spec_bounds(),
    {
        self.global_bounds()
    }

    /// The entity's box inset by a margin on each axis: the solid box used
    /// for resolution-relevant overlap tests.
    pub open spec fn spec_hitbox_with_margin(self, margin: (i64, i64)) -> WorldRect {
        WorldRect {
            left: (self.position.x + margin.0) as i64,
            top: (self.position.y + margin.1) as i64,
            width: (self.spec_size().0 - 2 * margin.0) as i64,
            height: (self.spec_size().1 - 2 * margin.1) as i64,
        }
    }

    pub fn get_hitbox_with_margin(&self, margin: (i64, i64)) -> (r: WorldRect)
        requires
            self.position.bounded(4 * WORLD_LIMIT),
            -WORLD_LIMIT <= margin.0 <= WORLD_LIMIT,
            -WORLD_LIMIT <= margin.1 <= WORLD_LIMIT,
        ensures
            r == self.spec_hitbox_with_margin(margin),
    {
        let b = self.global_bounds();
        WorldRect {
            left: b.left + margin.0,
            top: b.top + margin.1,
            width: b.width - 2 * margin.0,
            height: b.height - 2 * margin.1,
        }
    }

    /// Displaces the entity by the given offset.
    pub fn move_by(&mut self, offset: Vec2)
        requires
            i64::MIN <= old(self).position.x + offset.x <= i64::MAX,
            i64::MIN <= old(self).position.y + offset.y <= i64::MAX,
        ensures
            *final(self) == (Entity {
                position: Vec2 {
                    x: (old(self).position.x + offset.x) as i64,
                    y: (old(self).position.y + offset.y) as i64,
                },
                ..*old(self)
            }),
    {
        self.position = Vec2 { x: self.position.x + offset.x, y: self.position.y + offset.y };
    }

    /// One tick's worth of straight movement: speed times tick duration.
    pub open spec fn spec_step_distance(self, tick: int) -> int {
        self.physics.speed * tick
    }

    pub fn move_down(&mut self, tick: i64)
        requires
            old(self).physics.wf(),
            0 <= tick <= TICK_LIMIT,
            old(self).position.bounded(16 * WORLD_LIMIT),
        ensures
            *final(self) == (Entity {
                position: Vec2 {
                    x: old(self).position.x,
                    y: (old(self).position.y + old(self).spec_step_distance(tick as int)) as i64,
                },
                ..*old(self)
            }),
    {
        proof {
            lemma_mul_le(self.physics.speed as int, tick as int, SPEED_LIMIT as int, TICK_LIMIT as int);
        }
        let d = self.physics.speed * tick;
        self.move_by(Vec2 { x: 0, y: d });
    }

    pub fn move_up(&mut self, tick: i64)
        requires
            old(self).physics.wf(),
            0 <= tick <= TICK_LIMIT,
            old(self).position.bounded(16 * WORLD_LIMIT),
        ensures
            *final(self) == (Entity {
                position: Vec2 {
                    x: old(self).position.x,
                    y: (old(self).position.y - old(self).spec_step_distance(tick as int)) as i64,
                },
                ..*old(self)
            }),
    {
        proof {
            lemma_mul_le(self.physics.speed as int, tick as int, SPEED_LIMIT as int, TICK_LIMIT as int);
        }
        let d = self.physics.speed * tick;
        self.move_by(Vec2 { x: 0, y: -d });
    }

    pub fn move_left(&mut self, tick: i64)
        requires
            old(self).physics.wf(),
            0 <= tick <= TICK_LIMIT,
            old(self).position.bounded(16 * WORLD_LIMIT),
        ensures
            *final(self) == (Entity {
                position: Vec2 {
                    x: (old(self).position.x - old(self).spec_step_distance(tick as int)) as i64,
                    y: old(self).position.y,
                },
                ..*old(self)
            }),
    {
        proof {
            lemma_mul_le(self.physics.speed as int, tick as int, SPEED_LIMIT as int, TICK_LIMIT as int);
        }
        let d = self.physics.speed * tick;
        self.move_by(Vec2 { x: -d, y: 0 });
    }

    pub fn move_right(&mut self, tick: i64)
        requires
            old(self).physics.wf(),
            0 <= tick <= TICK_LIMIT,
            old(self).position.bounded(16 * WORLD_LIMIT),
        ensures
            *final(self) == (Entity {
                position: Vec2 {
                    x: (old(self).position.x + old(self).spec_step_distance(tick as int)) as i64,
                    y: old(self).position.y,
                },
                ..*old(self)
            }),
    {
        proof {
            lemma_mul_le(self.physics.speed as int, tick as int, SPEED_LIMIT as int, TICK_LIMIT as int);
        }
        let d = self.physics.speed * tick;
        self.move_by(Vec2 { x: d, y: 0 });
    }

    /// One axis of the displacement towards a target: the axis gap scaled
    /// to a unit direction, by the entity's speed and by the tick duration.
    pub open spec fn spec_towards_component(delta: int, len: int, speed: int, tick: int) -> int {
        let a = if delta < 0 {
            -delta
        } else {
            delta
        };
        let scaled = a * speed / len * tick;
        if delta < 0 {
            -scaled
        } else {
            scaled
        }
    }

    /// Moves one step towards the target: along the unit direction to it,
    /// scaled by speed and tick duration.
    pub fn move_towards(&mut self, target: Vec2, tick: i64)
        requires
            old(self).physics.wf(),
            0 <= tick <= TICK_LIMIT,
            old(self).position.bounded(WORLD_LIMIT as int),
            target.bounded(WORLD_LIMIT as int),
            target != old(self).position,
        ensures
            ({
                let dx = target.x - old(self).position.x;
                let dy = target.y - old(self).position.y;
                let len = spec_isqrt(dx * dx + dy * dy);
                *final(self) == (Entity {
                    position: Vec2 {
                        x: (old(self).position.x + Self::spec_towards_component(dx, len, old(self).physics.speed as int, tick as int)) as i64,
                        y: (old(self).position.y + Self::spec_towards_component(dy, len, old(self).physics.speed as int, tick as int)) as i64,
                    },
                    ..*old(self)
                })
            }),
    {
        let dx: i64 = target.x - self.position.x;
        let dy: i64 = target.y - self.position.y;
        assert(0 <= dx * dx <= 0x10000_0000_0000_0000i128 && 0 <= dy * dy
            <= 0x10000_0000_0000_0000i128) by (nonlinear_arith)
            requires
                -200_000_000 <= dx <= 200_000_000,
                -200_000_000 <= dy <= 200_000_000,
        ;
        assert(dx * dx <= 40_000_000_000_000_000i64 && dy * dy
            <= 40_000_000_000_000_000i64) by (nonlinear_arith)
            requires
                -200_000_000 <= dx <= 200_000_000,
                -200_000_000 <= dy <= 200_000_000,
        ;
        let sq: u64 = (dx * dx + dy * dy) as u64;
        assert(1 <= sq) by (nonlinear_arith)
            requires
                sq == dx * dx + dy * dy,
                dx != 0 || dy != 0,
        ;
        let len: u64 = isqrt64(sq);
        assert(1 <= len && len <= 400_000_000) by (nonlinear_arith)
            requires
                1 <= sq <= 80_000_000_000_000_000int,
                (len as int) * (len as int) <= sq as int,
                (sq as int) < ((len as int) + 1) * ((len as int) + 1),
        ;
        assert(dx <= len && -dx <= len && dy <= len && -dy <= len) by (nonlinear_arith)
            requires
                dx * dx <= sq as int,
                dy * dy <= sq as int,
                (sq as int) < ((len as int) + 1) * ((len as int) + 1),
                0 <= len,
        ;
        let vx = Self::towards_component(dx, len, self.physics.speed, tick);
        let vy = Self::towards_component(dy, len, self.physics.speed, tick);
        self.move_by(Vec2 { x: vx, y: vy });
    }

    /// Helper for `move_towards`: one axis of the scaled displacement.
    fn towards_component(delta: i64, len: u64, speed: i64, tick: i64) -> (r: i64)
        requires
            -400_000_000 <= delta <= 400_000_000,
            1 <= len <= 400_000_000,
            0 <= speed <= SPEED_LIMIT,
            0 <= tick <= TICK_LIMIT,
            delta <= len,
            -delta <= len,
        ensures
            r == Self::spec_towards_component(delta as int, len as int, speed as int, tick as int),
            -1_000_000_000_000 <= r <= 1_000_000_000_000,
    {
        let a: u64 = if delta < 0 {
            (-delta) as u64
        } else {
            delta as u64
        };
        assert(a * (speed as u64) <= 400_000_000_000_000int) by (nonlinear_arith)
            requires
                0 <= a <= 400_000_000,
                0 <= speed <= 1_000_000,
        ;
        let scaled_unit: u64 = a * (speed as u64) / len;
        assert(scaled_unit <= speed) by (nonlinear_arith)
            requires
                scaled_unit == a as int * speed as int / len as int,
                0 <= a <= len,
                1 <= len,
                0 <= speed,
        ;
        assert((scaled_unit as int) * (tick as int) <= 1_000_000_000_000int) by (nonlinear_arith)
            requires
                0 <= scaled_unit <= 1_000_000,
                0 <= tick <= 1_000_000,
        ;
        let scaled: i64 = (scaled_unit as i64) * tick;
        if delta < 0 {
            -scaled
        } else {
            scaled
        }
    }

    /// The position of the named animation among this entity's set.
    fn find_animation_index(&self, name: &str) -> (r: Option<usize>)
        ensures
            match r {
                Some(i) => i < self.animations@.len() && self.animations@[i as int].0@ == name@,
                None => !self.spec_has_animation(name@),
            },
    {
        let n = self.animations.len();
        let mut k: usize = 0;
        while k < n
            invariant
                k <= n,
                n == self.animations@.len(),
                forall|j: int| 0 <= j < k ==> (#[trigger] self.animations@[j]).0@ != name@,
            decreases n - k,
        {
            if str_eq(self.animations[k].0.as_str(), name) {
                return Some(k);
            }
            k = k + 1;
        }
        None
    }

    pub fn get_animation(&self, name: &str) -> (r: Option<&Animation>)
        requires
            self.wf(),
        ensures
            match r {
                Some(a) => self.spec_has_animation(name@) && *a == self.spec_animation(name@),
                None => !self.spec_has_animation(name@),
            },
    {
        match self.find_animation_index(name) {
            Some(i) => {
                proof {
                    lemma_anim_index_unique(*self, name@, i as int);
                }
                Some(&self.animations[i].1)
            },
            None => None,
        }
    }

    pub fn get_current_animation(&self) -> (r: Option<&Animation>)
        requires
            self.wf(),
        ensures
            match r {
                Some(a) => self.spec_has_current_animation() && *a == self.spec_current_animation(),
                None => !self.spec_has_current_animation(),
            },
    {
        match self.find_animation_index(self.current_animation.as_str()) {
            Some(i) => {
                proof {
                    lemma_anim_index_unique(*self, self.current_animation@, i as int);
                }
                Some(&self.animations[i].1)
            },
            None => None,
        }
    }

    /// Mutable access to the named animation, which must exist.
    pub fn get_animation_mut(&mut self, name: &str) -> (r: &mut Animation)
        requires
            old(self).wf(),
            old(self).spec_has_animation(name@),
        ensures
            *r == old(self).spec_animation(name@),
            ({
                let i = old(self).spec_anim_index(name@);
                final(self).animations@ == old(self).animations@.update(
                    i,
                    (old(self).animations@[i].0, *final(r)),
                )
            }),
            final(self).id == old(self).id,
            final(self).current_animation == old(self).current_animation,
            final(self).position == old(self).position,
            final(self).texture_rect == old(self).texture_rect,
            final(self).animation_changed == old(self).animation_changed,
            final(self).flip_x == old(self).flip_x,
            final(self).flip_y == old(self).flip_y,
            final(self).physics == old(self).physics,
            final(self).deletion_flag == old(self).deletion_flag,
            final(self).previous_position == old(self).previous_position,
            final(r).wf() ==> final(self).wf(),
    {
        let r = self.find_animation_index(name);
        proof {
            if r is None {
                assert(false);
            }
            lemma_anim_index_unique(*self, name@, r.unwrap() as int);
        }
        let i = r.unwrap();
        &mut self.animations[i].1
    }

    /// Mutable access to the active animation, which must exist.
    pub fn get_current_animation_mut(&mut self) -> (r: &mut Animation)
        requires
            old(self).wf(),
            old(self).spec_has_current_animation(),
        ensures
            *r == old(self).spec_current_animation(),
            ({
                let i = old(self).spec_anim_index(old(self).current_animation@);
                final(self).animations@ == old(self).animations@.update(
                    i,
                    (old(self).animations@[i].0, *final(r)),
                )
            }),
            final(self).id == old(self).id,
            final(self).current_animation == old(self).current_animation,
            final(self).position == old(self).position,
            final(self).texture_rect == old(self).texture_rect,
            final(self).animation_changed == old(self).animation_changed,
            final(self).flip_x == old(self).flip_x,
            final(self).flip_y == old(self).flip_y,
            final(self).physics == old(self).physics,
            final(self).deletion_flag == old(self).deletion_flag,
            final(self).previous_position == old(self).previous_position,
            final(r).wf() ==> final(self).wf(),
    {
        let r = self.find_animation_index(self.current_animation.as_str());
        proof {
            if r is None {
                assert(false);
            }
            lemma_anim_index_unique(*self, self.current_animation@, r.unwrap() as int);
        }
        let i = r.unwrap();
        &mut self.animations[i].1
    }

    /// Whether a name requests deletion: the empty name or the sentinel
    /// `"deleted"`.
    pub open spec fn deletion_name(name: Seq<char>) -> bool {
        name.len() == 0 || name == "deleted"@
    }

    /// Switches the active animation. A deletion name marks the entity for
    /// deletion instead; an unknown name or the already-active name leaves
    /// the entity unchanged; otherwise both flip flags clear, the texture is
    /// marked dirty and the active name is replaced.
    pub fn set_current_animation(&mut self, name: &str)
        requires
            old(self).wf(),
        ensures
            Self::deletion_name(name@) ==> *final(self) == (Entity {
                deletion_flag: true,
                ..*old(self)
            }),
            !Self::deletion_name(name@) && (!old(self).spec_has_animation(name@)
                || old(self).current_animation@ == name@) ==> *final(self) == *old(self),
            !Self::deletion_name(name@) && old(self).spec_has_animation(name@)
                && old(self).current_animation@ != name@ ==> {
                &&& final(self).current_animation@ == name@
                &&& *final(self) == (Entity {
                    flip_x: false,
                    flip_y: false,
                    animation_changed: true,
                    current_animation: final(self).current_animation,
                    ..*old(self)
                })
            },
            final(self).wf(),
    {
        if name.is_empty() || str_eq(name, "deleted") {
            proof {
                reveal_strlit("deleted");
                reveal_strlit("");
            }
            self.mark_for_deletion();
            return ;
        }

        if self.find_animation_index(name).is_none() {
            return ;
        }

        if str_eq(self.current_animation.as_str(), name) {
            return ;
        }

        self.flip_x = false;
        self.flip_y = false;
        self.animation_changed = true;
        self.current_animation = name.to_owned();
    }

    /// Switches the active animation, then applies the given flip flags.
    pub fn set_current_animation_flipped(&mut self, name: &str, flip_x: bool, flip_y: bool)
        requires
            old(self).wf(),
        ensures
            Self::deletion_name(name@) ==> *final(self) == (Entity {
                deletion_flag: true,
                flip_x,
                flip_y,
                ..*old(self)
            }),
            !Self::deletion_name(name@) && (!old(self).spec_has_animation(name@)
                || old(self).current_animation@ == name@) ==> *final(self) == (Entity {
                flip_x,
                flip_y,
                ..*old(self)
            }),
            !Self::deletion_name(name@) && old(self).spec_has_animation(name@)
                && old(self).current_animation@ != name@ ==> {
                &&& final(self).current_animation@ == name@
                &&& *final(self) == (Entity {
                    flip_x,
                    flip_y,
                    animation_changed: true,
                    current_animation: final(self).current_animation,
                    ..*old(self)
                })
            },
            final(self).wf(),
    {
        self.set_current_animation(name);
        self.flip_x = flip_x;
        self.flip_y = flip_y;
    }

    /// Registers an animation under a new name. The first registration also
    /// makes it the active animation.
    pub fn add_animation(&mut self, name: &str, animation: Animation)
        requires
            old(self).wf(),
            animation.wf(),
            !old(self).spec_has_animation(name@),
        ensures
            final(self).animations@.len() == old(self).animations@.len() + 1,
            final(self).animations@[old(self).animations@.len() as int].0@ == name@,
            final(self).animations@[old(self).animations@.len() as int].1 == animation,
            forall|i: int| 0 <= i < old(self).animations@.len()
                ==> final(self).animations@[i] == old(self).animations@[i],
            old(self).animations@.len() == 0 ==> final(self).current_animation@ == name@,
            old(self).animations@.len() > 0 ==> final(self).current_animation
                == old(self).current_animation,
            *final(self) == (Entity {
                animations: final(self).animations,
                current_animation: final(self).current_animation,
                ..*old(self)
            }),
            final(self).wf(),
            final(self).spec_has_animation(name@),
    {
        if self.animations.is_empty() {
            self.current_animation = name.to_owned();
        }

        self.animations.push((name.to_owned(), animation));

        proof {
            let n = old(self).animations@.len() as int;
            assert(self.animations@[n].0@ == name@);
            assert forall|i: int, j: int| 0 <= i < j < self.animations@.len()
                implies self.animations@[i].0@ != self.animations@[j].0@ by {
                if j < n {
                    assert(old(self).animations@[i].0@ != old(self).animations@[j].0@);
                } else {
                    assert(self.animations@[i] == old(self).animations@[i]);
                    assert(!old(self).spec_has_animation(name@));
                    assert(old(self).animations@[i].0@ != name@);
                }
            }
            assert(self.spec_has_animation(name@));
        }
    }
}

/// A store (an id-keyed sequence of entities) holds an entity with this id.
pub open spec fn store_has(s: Seq<Entity>, id: Seq<char>) -> bool {
    exists|i: int| 0 <= i < s.len() && (#[trigger] s[i]).id@ == id
}

/// The store index of the entity with this id.
pub open spec fn store_index(s: Seq<Entity>, id: Seq<char>) -> int {
    choose|i: int| 0 <= i < s.len() && (#[trigger] s[i]).id@ == id
}

/// With unique ids, any index whose entry carries the id is the index the
/// specification selects.
pub proof fn lemma_store_index_unique(s: Seq<Entity>, id: Seq<char>, i: int)
    requires
        forall|a: int, b: int| 0 <= a < b < s.len() ==> s[a].id@ != s[b].id@,
        0 <= i < s.len(),
        s[i].id@ == id,
    ensures
        store_has(s, id),
        store_index(s, id) == i,
{
    assert(store_has(s, id));
    let c = store_index(s, id);
    if c < i {
        assert(s[c].id@ != s[i].id@);
    } else if i < c {
        assert(s[i].id@ != s[c].id@);
    }
}

/// With unique animation names, any index whose entry carries the name is
/// the index the specification selects.
pub proof fn lemma_anim_index_unique(e: Entity, name: Seq<char>, i: int)
    requires
        e.wf(),
        0 <= i < e.animations@.len(),
        e.animations@[i].0@ == name,
    ensures
        e.spec_has_animation(name),
        e.spec_anim_index(name) == i,
{
    assert(e.spec_has_animation(name));
    let c = e.spec_anim_index(name);
    assert(0 <= c < e.animations@.len() && e.animations@[c].0@ == name);
    if c < i {
        assert(e.animations@[c].0@ != e.animations@[i].0@);
        assert(false);
    } else if i < c {
        assert(e.animations@[i].0@ != e.animations@[c].0@);
        assert(false);
    }
}

} // verus!
