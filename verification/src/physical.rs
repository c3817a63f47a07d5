//! Physical properties of an entity: how it participates in collision
//! detection and positional resolution.

use vstd::prelude::*;
use crate::geom::WORLD_LIMIT;

verus! {

/// Upper bound on an entity's mass that the resolution arithmetic accepts.
pub const MASS_LIMIT: i64 = 1_000_000;

/// Upper bound on an entity's speed that the movement arithmetic accepts.
pub const SPEED_LIMIT: i64 = 1_000_000;

/// Upper bound on one tick's duration that the simulation accepts.
pub const TICK_LIMIT: i64 = 1_000_000;

/// How a pair that this entity belongs to resolves: `Rectangular` pushes
/// along the shallower axis of the overlap, `Vectoral` pushes radially from
/// the overlap's midpoint. A pair resolves as `Rectangular` unless both
/// participants are `Vectoral`.
#[derive(Clone, Copy, Debug, PartialEq, Eq, Structural)]
pub enum CollisionType {
    Vectoral,
    Rectangular,
}

/// Collision behaviour of one entity. A `static_object` never moves; a
/// `ghost` reports overlaps but is never pushed; `solid_box_margin` insets
/// the box used for the resolution-relevant overlap test.
#[derive(Clone, Copy, Debug, PartialEq, Eq)]
pub struct PhysicalProperties {
    pub collision_enabled: bool,
    pub mass: i64,
    pub friction: i64,
    pub bounce: i64,
    pub static_object: bool,
    pub show_collider: bool,
    pub ghost_flag: bool,
    pub solid_box_margin: (i64, i64),
    pub show_solid_box: bool,
    pub speed: i64,
    pub collision_type: CollisionType,
}

impl PhysicalProperties {
    /// Bounds under which the resolution arithmetic cannot overflow:
    /// positive mass, and mass, speed and margins within their limits.
    pub open spec fn wf(self) -> bool {
        &&& 1 <= self.mass <= MASS_LIMIT
        &&& 0 <= self.speed <= SPEED_LIMIT
        &&& -WORLD_LIMIT <= self.solid_box_margin.0 <= WORLD_LIMIT
        &&& -WORLD_LIMIT <= self.solid_box_margin.1 <= WORLD_LIMIT
    }

    /// A movable, collision-enabled rectangular body of unit mass.
    pub fn default() -> (p: PhysicalProperties)
        ensures
            p == (PhysicalProperties {
                collision_type: CollisionType::Rectangular,
                speed: 1,
                collision_enabled: true,
                mass: 1,
                friction: 0,
                bounce: 0,
                static_object: false,
                show_collider: false,
                ghost_flag: false,
                solid_box_margin: (0, 0),
                show_solid_box: false,
            }),
            p.wf(),
    {
        PhysicalProperties {
            collision_type: CollisionType::Rectangular,
            speed: 1,
            collision_enabled: true,
            mass: 1,
            friction: 0,
            bounce: 0,
            static_object: false,
            show_collider: false,
            ghost_flag: false,
            solid_box_margin: (0, 0),
            show_solid_box: false,
        }
    }

    /// An immovable, collision-enabled rectangular body.
    pub fn new_static() -> (p: PhysicalProperties)
        ensures
            p == (PhysicalProperties { static_object: true, ..PhysicalProperties::spec_default() }),
            p.wf(),
    {
        PhysicalProperties { static_object: true, ..PhysicalProperties::default() }
    }

    /// The default body with both debug boxes drawn and a small bounce.
    pub fn new_debug() -> (p: PhysicalProperties)
        ensures
            p == (PhysicalProperties {
                bounce: 1,
                show_collider: true,
                show_solid_box: true,
                ..PhysicalProperties::spec_default()
            }),
            p.wf(),
    {
        PhysicalProperties {
            bounce: 1,
            show_collider: true,
            show_solid_box: true,
            ..PhysicalProperties::default()
        }
    }

    /// The value `default` returns.
    pub open spec fn spec_default() -> PhysicalProperties {
        PhysicalProperties {
            collision_type: CollisionType::Rectangular,
            speed: 1,
            collision_enabled: true,
            mass: 1,
            friction: 0,
            bounce: 0,
            static_object: false,
            show_collider: false,
            ghost_flag: false,
            solid_box_margin: (0, 0),
            show_solid_box: false,
        }
    }
}

} // verus!
