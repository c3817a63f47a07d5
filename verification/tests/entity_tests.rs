use game_motor::animation::Animation;
use game_motor::animation::PixelRect;
use game_motor::entity::Entity;
use game_motor::geom::Vec2;
use game_motor::physical::PhysicalProperties;

fn sized_entity(id: &str, x: i64, y: i64, w: i32, h: i32) -> Entity {
    let mut e = Entity::new(id);
    e.position = Vec2::new(x, y);
    e.previous_position = Vec2::new(x, y);
    e.set_texture_rect(PixelRect { left: 0, top: 0, width: w, height: h });
    e
}

#[test]
fn new_entity_defaults() {
    let e = Entity::new("hero");
    assert_eq!(e.get_id(), "hero");
    assert_eq!(e.current_animation(), "..");
    assert!(e.is_animation_changed());
    assert!(!e.is_marked_for_deletion());
    assert_eq!(e.get_flip(), (false, false));
    assert_eq!(*e.get_physics(), PhysicalProperties::default());
}

#[test]
fn bounds_follow_texture_rect() {
    let mut e = sized_entity("hero", 3, 4, 20, 30);
    let b = e.global_bounds();
    assert_eq!((b.left, b.top, b.width, b.height), (3, 4, 20, 30));
    // a mirrored rectangle keeps the same box extent
    e.set_texture_rect(PixelRect { left: 20, top: 0, width: -20, height: 30 });
    let b2 = e.global_bounds();
    assert_eq!((b2.width, b2.height), (20, 30));
}

#[test]
fn margin_hitbox_is_inset() {
    let e = sized_entity("hero", 10, 10, 100, 100);
    let hb = e.get_hitbox_with_margin((20, 30));
    assert_eq!((hb.left, hb.top, hb.width, hb.height), (30, 40, 60, 40));
}

#[test]
fn empty_name_marks_for_deletion() {
    let mut e = Entity::new("hero");
    e.add_animation("idle", Animation::new_static("sheet"));
    e.set_current_animation("");
    assert!(e.is_marked_for_deletion());
    assert_eq!(e.current_animation(), "idle");
}

#[test]
fn deleted_sentinel_marks_for_deletion() {
    let mut e = Entity::new("hero");
    e.add_animation("idle", Animation::new_static("sheet"));
    e.set_current_animation("deleted");
    assert!(e.is_marked_for_deletion());
}

#[test]
fn unknown_animation_name_is_ignored() {
    let mut e = Entity::new("hero");
    e.add_animation("idle", Animation::new_static("sheet"));
    e.set_current_animation("missing");
    assert_eq!(e.current_animation(), "idle");
    assert!(!e.is_marked_for_deletion());
}

#[test]
fn switching_animation_clears_flips_and_marks_dirty() {
    let mut e = Entity::new("hero");
    e.add_animation("idle", Animation::new_static("sheet"));
    e.add_animation("walk", Animation::new_loop("sheet", 100, (16, 16), None));
    e.set_current_animation_flipped("walk", true, true);
    assert_eq!(e.current_animation(), "walk");
    assert_eq!(e.get_flip(), (true, true));
    e.set_animation_changed(false);
    e.set_current_animation("idle");
    assert_eq!(e.current_animation(), "idle");
    assert_eq!(e.get_flip(), (false, false));
    assert!(e.is_animation_changed());
}

#[test]
fn first_animation_becomes_current() {
    let mut e = Entity::new("hero");
    e.add_animation("walk", Animation::new_static("sheet"));
    assert_eq!(e.current_animation(), "walk");
    e.add_animation("idle", Animation::new_static("sheet"));
    assert_eq!(e.current_animation(), "walk");
    assert!(e.get_animation("idle").is_some());
    assert!(e.get_animation("gone").is_none());
}

#[test]
fn straight_moves_scale_speed_by_tick() {
    let mut e = sized_entity("hero", 100, 100, 10, 10);
    e.set_speed(3);
    e.move_down(7);
    assert_eq!(e.position, Vec2::new(100, 121));
    e.move_up(7);
    assert_eq!(e.position, Vec2::new(100, 100));
    e.move_left(5);
    assert_eq!(e.position, Vec2::new(85, 100));
    e.move_right(5);
    assert_eq!(e.position, Vec2::new(100, 100));
}

#[test]
fn move_towards_takes_unit_steps() {
    // target straight to the right: the whole speed lands on the x axis
    let mut e = sized_entity("hero", 0, 0, 10, 10);
    e.set_speed(4);
    e.move_towards(Vec2::new(100, 0), 3);
    assert_eq!(e.position, Vec2::new(12, 0));
    // a diagonal splits it: 70/99*5 = 3 per axis at tick 1
    let mut d = sized_entity("hero2", 0, 0, 10, 10);
    d.set_speed(5);
    d.move_towards(Vec2::new(70, 70), 1);
    assert_eq!(d.position, Vec2::new(3, 3));
}

#[test]
fn movement_vector_is_position_minus_previous() {
    let mut e = sized_entity("hero", 10, 20, 10, 10);
    e.update_previous_position();
    e.move_by(Vec2::new(5, -7));
    assert_eq!(e.get_movement_vector(), Vec2::new(5, -7));
}
