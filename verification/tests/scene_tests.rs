use game_motor::animation::Animation;
use game_motor::animation::PixelRect;
use game_motor::entity::Entity;
use game_motor::geom::Vec2;
use game_motor::geom::WorldRect;
use game_motor::physical::CollisionType;
use game_motor::physical::PhysicalProperties;
use game_motor::scene::KeyState;
use game_motor::scene::Scene;

fn boxed_entity(id: &str, x: i64, y: i64, w: i32, h: i32) -> Entity {
    let mut e = Entity::new(id);
    e.position = Vec2::new(x, y);
    e.previous_position = Vec2::new(x, y);
    e.add_animation("idle", Animation::new_static_with_rect("sheet", (w, h)));
    e.set_animation_changed(false);
    e.set_texture_rect(PixelRect { left: 0, top: 0, width: w, height: h });
    e
}

fn base_scene() -> Scene {
    let mut scn = Scene::new("main");
    scn.register_texture("sheet", (1024, 1024));
    scn.register_texture("empty", (8, 8));
    scn
}

#[test]
fn entity_lookup_by_id() {
    let mut scn = base_scene();
    scn.add_entity(boxed_entity("a", 0, 0, 10, 10));
    scn.add_entity(boxed_entity("b", 50, 0, 10, 10));
    assert_eq!(scn.entity("b").position, Vec2::new(50, 0));
    assert!(scn.try_entity("c").is_none());
    scn.entity_mut("a").position = Vec2::new(7, 7);
    assert_eq!(scn.entity("a").position, Vec2::new(7, 7));
}

#[test]
fn re_adding_an_id_replaces_in_place() {
    let mut scn = base_scene();
    scn.add_entity(boxed_entity("a", 0, 0, 10, 10));
    scn.add_entity(boxed_entity("b", 50, 0, 10, 10));
    scn.add_entity(boxed_entity("a", 99, 99, 10, 10));
    assert_eq!(scn.entities.len(), 2);
    assert_eq!(scn.entities[0].get_id(), "a");
    assert_eq!(scn.entities[0].position, Vec2::new(99, 99));
}

#[test]
fn key_edges_fire_once() {
    let mut scn = base_scene();
    assert!(!scn.check_key(32));
    assert!(scn.apply_key_transition(KeyState::Pressed(32)));
    assert!(scn.check_key(32));
    assert!(!scn.apply_key_transition(KeyState::Pressed(32)));
    assert!(scn.any_key_pressed());
    assert!(scn.apply_key_transition(KeyState::Released(32)));
    assert!(!scn.check_key(32));
    assert!(!scn.apply_key_transition(KeyState::Released(32)));
    assert!(!scn.any_key_pressed());
}

#[test]
fn raw_overlaps_are_reported_per_pair() {
    // three mutually overlapping entities: 3 * 2 / 2 = 3 candidate pairs,
    // each reported exactly once
    let mut scn = base_scene();
    scn.add_entity(boxed_entity("a", 0, 0, 20, 20));
    scn.add_entity(boxed_entity("b", 5, 5, 20, 20));
    scn.add_entity(boxed_entity("c", 10, 10, 20, 20));
    let (raw, solid) = scn.update_entities(10);
    assert_eq!(raw.len(), 3);
    assert_eq!(solid.len(), 3);
    assert_eq!((raw[0].0.as_str(), raw[0].1.as_str()), ("a", "b"));
    assert_eq!((raw[1].0.as_str(), raw[1].1.as_str()), ("a", "c"));
    assert_eq!((raw[2].0.as_str(), raw[2].1.as_str()), ("b", "c"));
    assert_eq!(raw[0].2, WorldRect::new(5, 5, 15, 15));
}

#[test]
fn ghosts_fire_events_but_never_push() {
    let mut scn = base_scene();
    let mut a = boxed_entity("a", 0, 0, 20, 20);
    a.get_physics_mut().ghost_flag = true;
    let mut b = boxed_entity("b", 10, 0, 20, 20);
    b.get_physics_mut().ghost_flag = true;
    scn.add_entity(a);
    scn.add_entity(b);
    let (raw, solid) = scn.update_entities(10);
    assert_eq!(raw.len(), 1);
    assert_eq!(solid.len(), 0);
    scn.purge_deleted();
    scn.push_back_solid_colisions(&solid, 10);
    assert_eq!(scn.entity("a").position, Vec2::new(0, 0));
    assert_eq!(scn.entity("b").position, Vec2::new(10, 0));
}

#[test]
fn static_body_takes_no_push() {
    // A static with box [0,0,100,100], B dynamic with box [90,40,100,20]:
    // the overlap is 10 wide by 20 tall, so B is pushed fully right
    let mut scn = base_scene();
    let mut a = boxed_entity("a", 0, 0, 100, 100);
    a.set_physics(PhysicalProperties { static_object: true, ..PhysicalProperties::default() });
    let b = boxed_entity("b", 90, 40, 100, 20);
    scn.add_entity(a);
    scn.add_entity(b);
    let (raw, solid) = scn.update_entities(10);
    assert_eq!(raw.len(), 1);
    assert_eq!(solid.len(), 1);
    assert_eq!(solid[0].2, WorldRect::new(90, 40, 10, 20));
    scn.purge_deleted();
    scn.push_back_solid_colisions(&solid, 10);
    assert_eq!(scn.entity("a").position, Vec2::new(0, 0));
    assert_eq!(scn.entity("b").position, Vec2::new(100, 40));
}

#[test]
fn masses_split_rectangular_push() {
    // equal masses split the 10-deep penetration five and five
    let mut scn = base_scene();
    scn.add_entity(boxed_entity("a", 0, 0, 100, 100));
    scn.add_entity(boxed_entity("b", 90, 40, 100, 20));
    let (_, solid) = scn.update_entities(10);
    scn.purge_deleted();
    scn.push_back_solid_colisions(&solid, 10);
    assert_eq!(scn.entity("a").position, Vec2::new(-5, 0));
    assert_eq!(scn.entity("b").position, Vec2::new(95, 40));
}

#[test]
fn vectoral_push_scales_with_opposing_motion() {
    let mut scn = base_scene();
    let mut a = boxed_entity("a", 0, 0, 10, 10);
    a.get_physics_mut().collision_type = CollisionType::Vectoral;
    let mut b = boxed_entity("b", 5, 0, 10, 10);
    b.get_physics_mut().collision_type = CollisionType::Vectoral;
    // B moved five units right this tick; A sat still
    b.previous_position = Vec2::new(0, 0);
    scn.add_entity(a);
    scn.add_entity(b);
    scn.push_back_solid_colisions(&vec![("a".to_string(), "b".to_string(), WorldRect::new(5, 0, 5, 10))], 10);
    // A is pushed away from the overlap midpoint by B's motion: -2 * 10
    assert_eq!(scn.entity("a").position, Vec2::new(-20, 0));
    // B's push is scaled by A's zero motion (guarded to 1) and floors away
    assert_eq!(scn.entity("b").position, Vec2::new(5, 0));
}

#[test]
fn gravity_steps_non_static_entities_down() {
    let mut scn = base_scene();
    scn.set_gravity(Vec2::new(0, 1));
    let mut a = boxed_entity("a", 0, 0, 10, 10);
    a.set_speed(2);
    let mut b = boxed_entity("b", 100, 0, 10, 10);
    b.set_physics(PhysicalProperties { static_object: true, ..PhysicalProperties::default() });
    scn.add_entity(a);
    scn.add_entity(b);
    let _ = scn.update_entities(8);
    assert_eq!(scn.entity("a").position, Vec2::new(0, 16));
    assert_eq!(scn.entity("b").position, Vec2::new(100, 0));
}

#[test]
fn once_transitions_exactly_on_wrap() {
    let mut scn = Scene::new("main");
    scn.register_texture("sheet", (64, 16));
    let mut e = Entity::new("hero");
    e.position = Vec2::new(0, 0);
    e.add_animation("boom", Animation::new_once("idle", "sheet", 10, (16, 16), Some((0, 1))));
    e.add_animation("idle", Animation::new_loop("sheet", 10, (16, 16), Some((0, 1))));
    e.get_physics_mut().collision_enabled = false;
    scn.add_entity(e);
    // tick 1 only accumulates; ticks 2 and 3 advance frames 0->1->2;
    // tick 4 wraps and switches to the return state, not earlier
    for expected in ["boom", "boom", "boom"] {
        let _ = scn.update_entities(10);
        assert_eq!(scn.entity("hero").current_animation(), expected);
    }
    let _ = scn.update_entities(10);
    assert_eq!(scn.entity("hero").current_animation(), "idle");
}

#[test]
fn finite_loop_transitions_after_target_wraps() {
    let mut scn = Scene::new("main");
    scn.register_texture("sheet", (64, 16));
    let mut e = Entity::new("hero");
    e.add_animation("spin", Animation::new_finite_loop("idle", "sheet", 10, 3, (16, 16), Some((0, 0))));
    e.add_animation("idle", Animation::new_loop("sheet", 10, (16, 16), Some((0, 0))));
    e.get_physics_mut().collision_enabled = false;
    scn.add_entity(e);
    // frame-due steps alternate advance and wrap, so the counter reaches 3
    // on the sixth due step; the seventh sees it and switches
    for _ in 0..7 {
        assert_eq!(scn.entity("hero").current_animation(), "spin");
        let _ = scn.update_entities(10);
    }
    let _ = scn.update_entities(10);
    assert_eq!(scn.entity("hero").current_animation(), "idle");
}

#[test]
fn deletion_name_empties_store_after_purge() {
    let mut scn = base_scene();
    scn.add_entity(boxed_entity("a", 0, 0, 10, 10));
    scn.add_entity(boxed_entity("b", 100, 0, 10, 10));
    scn.entity_mut("a").set_current_animation("deleted");
    assert!(scn.entity("a").is_marked_for_deletion());
    let _ = scn.update_entities(10);
    assert_eq!(scn.pending_removals.len(), 1);
    assert_eq!(scn.pending_removals[0], "a");
    scn.purge_deleted();
    assert!(scn.try_entity("a").is_none());
    assert!(scn.try_entity("b").is_some());
    assert_eq!(scn.entities.len(), 1);
}

#[test]
fn deletion_flagged_partner_is_skipped() {
    let mut scn = base_scene();
    scn.add_entity(boxed_entity("a", 0, 0, 20, 20));
    let mut b = boxed_entity("b", 5, 5, 20, 20);
    b.mark_for_deletion();
    scn.add_entity(b);
    let (raw, solid) = scn.update_entities(10);
    assert_eq!(raw.len(), 0);
    assert_eq!(solid.len(), 0);
}

#[test]
fn entity_without_animation_takes_fallback_sheet() {
    let mut scn = base_scene();
    let mut e = Entity::new("blank");
    e.position = Vec2::new(0, 0);
    scn.add_entity(e);
    let _ = scn.update_entities(10);
    let b = scn.entity("blank").global_bounds();
    assert_eq!((b.width, b.height), (8, 8));
}

#[test]
fn closest_entity_and_solid_queries() {
    let mut scn = base_scene();
    scn.add_entity(boxed_entity("me", 0, 0, 10, 10));
    scn.add_entity(boxed_entity("near", 30, 0, 10, 10));
    let mut far_ghost = boxed_entity("spook", 15, 0, 10, 10);
    far_ghost.get_physics_mut().ghost_flag = true;
    scn.add_entity(far_ghost);
    let (e, v) = scn.get_closest_entity("me").unwrap();
    assert_eq!(e.get_id(), "spook");
    assert_eq!(v, Vec2::new(5, 0));
    // the ghost does not count as a solid neighbour
    let (s, sv) = scn.get_closest_solid("me").unwrap();
    assert_eq!(s.get_id(), "near");
    assert_eq!(sv, Vec2::new(20, 0));
    assert_eq!(scn.get_closest_path_between("me", "near"), Vec2::new(20, 0));
    assert_eq!(scn.get_closest_path_between("me", "gone"), Vec2::new(i64::MAX, i64::MAX));
}

#[test]
fn texture_registration_replaces_sizes() {
    let mut scn = Scene::new("main");
    scn.register_texture("sheet", (64, 64));
    assert_eq!(scn.get_texture("sheet"), Some((64, 64)));
    scn.register_texture("sheet", (128, 32));
    assert_eq!(scn.get_texture("sheet"), Some((128, 32)));
    assert_eq!(scn.get_texture("gone"), None);
}
