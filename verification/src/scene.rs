//! The scene: an insertion-ordered store of entities, the texture-size
//! table, keyboard state, gravity, and the per-tick orchestration.

use vstd::prelude::*;
use crate::animate::animate_entity;
use crate::animate::animate_rel;
use crate::animate::animate_req;
use crate::animate::full_sheet_rect;
use crate::animate::lemma_textures_index_unique as lemma_textures_index_unique_seq;
use crate::animate::spec_animate_rect;
use crate::animate::tex_lookup;
use crate::animate::textures_wf;
use crate::collision::CollisionEvent;
use crate::collision::check_collisions;
use crate::collision::entity_geom_ok;
use crate::collision::lemma_hits_equiv;
use crate::collision::spec_check_raw;
use crate::collision::spec_check_solid;
use crate::geom::WorldRect;
use crate::animate::texture_size_ok;
use crate::animate::textures_has;
use crate::animate::textures_size;
use crate::physical::TICK_LIMIT;
use crate::resolve::resolve_pair;
use crate::resolve::spec_apply_push;
use crate::resolve::spec_apply_pushes;
use crate::resolve::spec_pushes_ok;
use crate::entity::Entity;
use crate::entity::lemma_store_index_unique;
use crate::entity::store_has;
use crate::entity::store_index;
use crate::entity::str_eq;
use crate::entity::lemma_mul_le;
use crate::geom::Vec2;
use crate::geom::WORLD_LIMIT;
use crate::geom::closest_distance;
use crate::geom::spec_closest_distance;

verus! {

/// One edge of a key's state: it went down or it came up.
#[derive(Clone, Copy, Debug, PartialEq, Eq, Structural)]
pub enum KeyState {
    Pressed(u32),
    Released(u32),
}

/// A scene: the entity store (insertion-ordered, unique ids), the pixel
/// sizes of the sheets the animations sample, the keyboard state, gravity,
/// and the ids queued for removal by the last tick.
#[derive(Clone, Debug)]
pub struct Scene {
    pub name: String,
    pub first_render: bool,
    pub textures: Vec<(String, (u32, u32))>,
    pub entities: Vec<Entity>,
    pub keyboard: Vec<(u32, bool)>,
    pub gravity: Vec2,
    pub pending_removals: Vec<String>,
}

impl Scene {
    /// Entity ids, texture names and key codes are unique; every entity is
    /// well formed; every registered sheet is within the accepted bounds.
    pub open spec fn wf(self) -> bool {
        &&& forall|i: int, j: int|
            0 <= i < j < self.entities@.len() ==> self.entities@[i].id@ != self.entities@[j].id@
        &&& forall|i: int| 0 <= i < self.entities@.len() ==> (#[trigger] self.entities@[i]).wf()
        &&& forall|i: int, j: int|
            0 <= i < j < self.textures@.len() ==> self.textures@[i].0@ != self.textures@[j].0@
        &&& forall|i: int| 0 <= i < self.textures@.len() ==> texture_size_ok(
            (#[trigger] self.textures@[i]).1,
        )
        &&& forall|i: int, j: int|
            0 <= i < j < self.keyboard@.len() ==> self.keyboard@[i].0 != self.keyboard@[j].0
    }

    /// The store holds an entity with this id.
    pub open spec fn spec_has_entity(self, id: Seq<char>) -> bool {
        store_has(self.entities@, id)
    }

    /// The store index of the entity with this id.
    pub open spec fn spec_entity_index(self, id: Seq<char>) -> int {
        store_index(self.entities@, id)
    }

    /// The entity with this id.
    pub open spec fn spec_entity(self, id: Seq<char>) -> Entity {
        self.entities@[self.spec_entity_index(id)]
    }

    /// A sheet size is registered under this name.
    pub open spec fn spec_has_texture(self, name: Seq<char>) -> bool {
        textures_has(self.textures@, name)
    }

    /// The registered sheet size under this name.
    pub open spec fn spec_texture_size(self, name: Seq<char>) -> (u32, u32) {
        textures_size(self.textures@, name)
    }

    /// The recorded state of a key; an unseen key counts as released.
    pub open spec fn spec_key_state(self, key: u32) -> bool {
        if exists|i: int| 0 <= i < self.keyboard@.len() && (#[trigger] self.keyboard@[i]).0 == key {
            self.keyboard@[choose|i: int|
                0 <= i < self.keyboard@.len() && (#[trigger] self.keyboard@[i]).0 == key].1
        } else {
            false
        }
    }

    /// An empty scene: no entities, no sheet sizes, no keys seen, no
    /// gravity, first render still pending.
    pub fn new(name: &str) -> (s: Scene)
        ensures
            s.name@ == name@,
            s.first_render,
            s.textures@.len() == 0,
            s.entities@.len() == 0,
            s.keyboard@.len() == 0,
            s.gravity == (Vec2 { x: 0, y: 0 }),
            s.pending_removals@.len() == 0,
            s.wf(),
    {
        Scene {
            name: name.to_owned(),
            first_render: true,
            textures: Vec::new(),
            entities: Vec::new(),
            keyboard: Vec::new(),
            gravity: Vec2 { x: 0, y: 0 },
            pending_removals: Vec::new(),
        }
    }

    pub fn set_gravity(&mut self, gravity: Vec2)
        ensures
            *final(self) == (Scene { gravity, ..*old(self) }),
    {
        self.gravity = gravity;
    }

    fn find_texture_index(&self, name: &str) -> (r: Option<usize>)
        ensures
            match r {
                Some(i) => i < self.textures@.len() && self.textures@[i as int].0@ == name@,
                None => !self.spec_has_texture(name@),
            },
    {
        let n = self.textures.len();
        let mut k: usize = 0;
        while k < n
            invariant
                k <= n,
                n == self.textures@.len(),
                forall|j: int| 0 <= j < k ==> (#[trigger] self.textures@[j]).0@ != name@,
            decreases n - k,
        {
            if str_eq(self.textures[k].0.as_str(), name) {
                return Some(k);
            }
            k = k + 1;
        }
        None
    }

    /// Records the pixel size of a sheet under a name; a second registration
    /// under the same name replaces the size.
    #[verifier::spinoff_prover]
    pub fn register_texture(&mut self, name: &str, size: (u32, u32))
        requires
            old(self).wf(),
            texture_size_ok(size),
        ensures
            final(self).spec_has_texture(name@),
            forall|n: Seq<char>| #[trigger] old(self).spec_has_texture(n)
                ==> final(self).spec_has_texture(n),
            forall|n: Seq<char>| #[trigger] final(self).spec_has_texture(n)
                ==> old(self).spec_has_texture(n) || n == name@,
            final(self).spec_texture_size(name@) == size,
            forall|n: Seq<char>| old(self).spec_has_texture(n) && n != name@
                ==> #[trigger] final(self).spec_texture_size(n) == old(self).spec_texture_size(n),
            *final(self) == (Scene { textures: final(self).textures, ..*old(self) }),
            final(self).wf(),
    {
        match self.find_texture_index(name) {
            Some(i) => {
                proof {
                    lemma_texture_index_unique(*old(self), name@, i as int);
                }
                let nm = self.textures[i].0.clone();
                self.textures[i] = (nm, size);
                proof {
                    assert(self.textures@[i as int].0@ == name@);
                    assert forall|a: int, b: int| 0 <= a < b < self.textures@.len()
                        implies self.textures@[a].0@ != self.textures@[b].0@ by {
                        assert(old(self).textures@[a].0@ != old(self).textures@[b].0@);
                    }
                    lemma_texture_index_unique(*self, name@, i as int);
                    assert forall|n2: Seq<char>| #[trigger] old(self).spec_has_texture(n2)
                        implies self.spec_has_texture(n2) by {
                        let w = choose|k: int|
                            0 <= k < old(self).textures@.len() && (#[trigger] old(
                                self,
                            ).textures@[k]).0@ == n2;
                        assert(self.textures@[w].0@ == n2);
                    }
                    assert forall|n2: Seq<char>| #[trigger] self.spec_has_texture(n2)
                        implies old(self).spec_has_texture(n2) || n2 == name@ by {
                        let w = choose|k: int|
                            0 <= k < self.textures@.len() && (#[trigger] self.textures@[k]).0@
                                == n2;
                        if w != i {
                            assert(old(self).textures@[w].0@ == n2);
                        }
                    }
                    assert forall|n2: Seq<char>| old(self).spec_has_texture(n2) && n2 != name@
                        implies #[trigger] self.spec_texture_size(n2) == old(
                        self,
                    ).spec_texture_size(n2) by {
                        let w = choose|k: int|
                            0 <= k < old(self).textures@.len() && (#[trigger] old(
                                self,
                            ).textures@[k]).0@ == n2;
                        assert(self.textures@[w] == old(self).textures@[w]);
                        lemma_texture_index_unique(*self, n2, w);
                        lemma_texture_index_unique(*old(self), n2, w);
                    }
                }
            },
            None => {
                self.textures.push((name.to_owned(), size));
                proof {
                    let n = old(self).textures@.len() as int;
                    assert(self.textures@[n].0@ == name@);
                    assert forall|n2: Seq<char>| #[trigger] old(self).spec_has_texture(n2)
                        implies self.spec_has_texture(n2) by {
                        let w = choose|i: int|
                            0 <= i < old(self).textures@.len() && (#[trigger] old(
                                self,
                            ).textures@[i]).0@ == n2;
                        assert(self.textures@[w].0@ == n2);
                    }
                    assert forall|i: int, j: int| 0 <= i < j < self.textures@.len()
                        implies self.textures@[i].0@ != self.textures@[j].0@ by {
                        if j < n {
                            assert(old(self).textures@[i].0@ != old(self).textures@[j].0@);
                        } else {
                            assert(self.textures@[i] == old(self).textures@[i]);
                            assert(!old(self).spec_has_texture(name@));
                            assert(old(self).textures@[i].0@ != name@);
                        }
                    }
                    lemma_texture_index_unique(*self, name@, n);
                    assert forall|n2: Seq<char>| #[trigger] self.spec_has_texture(n2)
                        implies old(self).spec_has_texture(n2) || n2 == name@ by {
                        let w = choose|k: int|
                            0 <= k < self.textures@.len() && (#[trigger] self.textures@[k]).0@
                                == n2;
                        if w != n {
                            assert(old(self).textures@[w].0@ == n2);
                        }
                    }
                    assert forall|n2: Seq<char>| old(self).spec_has_texture(n2) && n2 != name@
                        implies #[trigger] self.spec_texture_size(n2) == old(
                        self,
                    ).spec_texture_size(n2) by {
                        let w = choose|k: int|
                            0 <= k < old(self).textures@.len() && (#[trigger] old(
                                self,
                            ).textures@[k]).0@ == n2;
                        assert(self.textures@[w] == old(self).textures@[w]);
                        lemma_texture_index_unique(*self, n2, w);
                        lemma_texture_index_unique(*old(self), n2, w);
                    }
                }
            },
        }
    }

    /// The registered size of the named sheet, if any.
    pub fn get_texture(&self, name: &str) -> (r: Option<(u32, u32)>)
        requires
            self.wf(),
        ensures
            match r {
                Some(size) => self.spec_has_texture(name@) && size == self.spec_texture_size(
                    name@,
                ),
                None => !self.spec_has_texture(name@),
            },
    {
        match self.find_texture_index(name) {
            Some(i) => {
                proof {
                    lemma_texture_index_unique(*self, name@, i as int);
                }
                Some(self.textures[i].1)
            },
            None => None,
        }
    }

    fn find_entity_index(&self, id: &str) -> (r: Option<usize>)
        ensures
            match r {
                Some(i) => i < self.entities@.len() && self.entities@[i as int].id@ == id@,
                None => !self.spec_has_entity(id@),
            },
    {
        let n = self.entities.len();
        let mut k: usize = 0;
        while k < n
            invariant
                k <= n,
                n == self.entities@.len(),
                forall|j: int| 0 <= j < k ==> (#[trigger] self.entities@[j]).id@ != id@,
            decreases n - k,
        {
            if str_eq(self.entities[k].id.as_str(), id) {
                return Some(k);
            }
            k = k + 1;
        }
        None
    }

    /// The entity with this id, which must be present: asking for an absent
    /// id is a caller error.
    pub fn entity(&self, id: &str) -> (r: &Entity)
        requires
            self.wf(),
            self.spec_has_entity(id@),
        ensures
            *r == self.spec_entity(id@),
    {
        let r = self.find_entity_index(id);
        proof {
            if r is None {
                assert(false);
            }
            lemma_entity_index_unique(*self, id@, r.unwrap() as int);
        }
        let i = r.unwrap();
        &self.entities[i]
    }

    /// The entity with this id, or `None` when absent.
    pub fn try_entity(&self, id: &str) -> (r: Option<&Entity>)
        requires
            self.wf(),
        ensures
            match r {
                Some(e) => self.spec_has_entity(id@) && *e == self.spec_entity(id@),
                None => !self.spec_has_entity(id@),
            },
    {
        match self.find_entity_index(id) {
            Some(i) => {
                proof {
                    lemma_entity_index_unique(*self, id@, i as int);
                }
                Some(&self.entities[i])
            },
            None => None,
        }
    }

    /// Mutable access to the entity with this id, which must be present.
    pub fn entity_mut(&mut self, id: &str) -> (r: &mut Entity)
        requires
            old(self).wf(),
            old(self).spec_has_entity(id@),
        ensures
            *r == old(self).spec_entity(id@),
            final(self).entities@ == old(self).entities@.update(
                old(self).spec_entity_index(id@),
                *final(r),
            ),
            *final(self) == (Scene { entities: final(self).entities, ..*old(self) }),
    {
        let r = self.find_entity_index(id);
        proof {
            if r is None {
                assert(false);
            }
            lemma_entity_index_unique(*self, id@, r.unwrap() as int);
        }
        let i = r.unwrap();
        &mut self.entities[i]
    }

    /// Adds an entity under its id. An id already present keeps its place in
    /// the store's order and has its entity replaced; a new id goes to the
    /// end.
    #[verifier::spinoff_prover]
    pub fn add_entity(&mut self, entity: Entity)
        requires
            old(self).wf(),
            entity.wf(),
        ensures
            old(self).spec_has_entity(entity.id@) ==> final(self).entities@ == old(
                self,
            ).entities@.update(old(self).spec_entity_index(entity.id@), entity),
            !old(self).spec_has_entity(entity.id@) ==> final(self).entities@ == old(
                self,
            ).entities@.push(entity),
            *final(self) == (Scene { entities: final(self).entities, ..*old(self) }),
            final(self).wf(),
            final(self).spec_has_entity(entity.id@),
    {
        let r = self.find_entity_index(entity.id.as_str());
        match r {
            Some(i) => {
                proof {
                    lemma_entity_index_unique(*old(self), entity.id@, i as int);
                }
                self.entities[i] = entity;
                proof {
                    assert forall|a: int, b: int| 0 <= a < b < self.entities@.len()
                        implies self.entities@[a].id@ != self.entities@[b].id@ by {
                        assert(old(self).entities@[a].id@ != old(self).entities@[b].id@);
                    }
                    lemma_entity_index_unique_weak(*self, i as int);
                }
            },
            None => {
                self.entities.push(entity);
                proof {
                    let n = old(self).entities@.len() as int;
                    assert(self.entities@[n].id@ == entity.id@);
                    assert forall|a: int, b: int| 0 <= a < b < self.entities@.len()
                        implies self.entities@[a].id@ != self.entities@[b].id@ by {
                        if b < n {
                            assert(old(self).entities@[a].id@ != old(self).entities@[b].id@);
                        } else {
                            assert(self.entities@[a] == old(self).entities@[a]);
                            assert(!old(self).spec_has_entity(entity.id@));
                            assert(old(self).entities@[a].id@ != entity.id@);
                        }
                    }
                }
            },
        }
    }

    /// Whether the key is currently recorded as pressed.
    pub fn check_key(&self, key: u32) -> (r: bool)
        requires
            self.wf(),
        ensures
            r == self.spec_key_state(key),
    {
        let n = self.keyboard.len();
        let mut k: usize = 0;
        while k < n
            invariant
                k <= n,
                n == self.keyboard@.len(),
                forall|j: int| 0 <= j < k ==> (#[trigger] self.keyboard@[j]).0 != key,
                self.wf(),
            decreases n - k,
        {
            if self.keyboard[k].0 == key {
                proof {
                    lemma_key_index_unique(*self, key, k as int);
                }
                return self.keyboard[k].1;
            }
            k = k + 1;
        }
        false
    }

    /// Whether any key is currently recorded as pressed.
    pub fn any_key_pressed(&self) -> (r: bool)
        ensures
            r == exists|i: int|
                0 <= i < self.keyboard@.len() && (#[trigger] self.keyboard@[i]).1,
    {
        let n = self.keyboard.len();
        let mut k: usize = 0;
        while k < n
            invariant
                k <= n,
                n == self.keyboard@.len(),
                forall|j: int| 0 <= j < k ==> !(#[trigger] self.keyboard@[j]).1,
            decreases n - k,
        {
            if self.keyboard[k].1 {
                return true;
            }
            k = k + 1;
        }
        false
    }

    /// Records a key's state.
    #[verifier::spinoff_prover]
    pub fn set_key(&mut self, key: u32, value: bool)
        requires
            old(self).wf(),
        ensures
            final(self).spec_key_state(key) == value,
            forall|other: u32| other != key ==> final(self).spec_key_state(other) == old(
                self,
            ).spec_key_state(other),
            *final(self) == (Scene { keyboard: final(self).keyboard, ..*old(self) }),
            final(self).wf(),
    {
        let n = self.keyboard.len();
        let mut k: usize = 0;
        while k < n
            invariant
                k <= n,
                n == self.keyboard@.len(),
                forall|j: int| 0 <= j < k ==> (#[trigger] self.keyboard@[j]).0 != key,
                self.wf(),
                *self == *old(self),
            decreases n - k,
        {
            if self.keyboard[k].0 == key {
                self.keyboard[k] = (key, value);
                proof {
                    lemma_key_index_unique(*self, key, k as int);
                    assert forall|a: int, b: int| 0 <= a < b < self.keyboard@.len()
                        implies self.keyboard@[a].0 != self.keyboard@[b].0 by {
                        assert(old(self).keyboard@[a].0 != old(self).keyboard@[b].0);
                    }
                    assert forall|other: u32| other != key implies self.spec_key_state(other)
                        == old(self).spec_key_state(other) by {
                        lemma_key_state_frame(*old(self), *self, key, other);
                    }
                }
                return ;
            }
            k = k + 1;
        }
        self.keyboard.push((key, value));
        proof {
            let m = old(self).keyboard@.len() as int;
            assert forall|a: int, b: int| 0 <= a < b < self.keyboard@.len()
                implies self.keyboard@[a].0 != self.keyboard@[b].0 by {
                if b < m {
                    assert(old(self).keyboard@[a].0 != old(self).keyboard@[b].0);
                } else {
                    assert(self.keyboard@[a] == old(self).keyboard@[a]);
                    assert(self.keyboard@[a].0 != key);
                }
            }
            lemma_key_index_unique(*self, key, m);
            assert forall|other: u32| other != key implies self.spec_key_state(other) == old(
                self,
            ).spec_key_state(other) by {
                lemma_key_state_frame(*old(self), *self, key, other);
            }
        }
    }


    /// What one tick needs of the scene: well-formedness, a bounded tick,
    /// every entity's geometry in bounds, the animation step's needs for
    /// every entity it will run on, and — when some live entity lacks an
    /// active animation — a registered fallback sheet named `"empty"`.
    pub open spec fn tick_req(self, tick: int) -> bool {
        &&& self.wf()
        &&& 0 <= tick <= TICK_LIMIT
        &&& forall|i: int| 0 <= i < self.entities@.len() ==> entity_geom_ok(
            #[trigger] self.entities@[i],
        )
        &&& forall|i: int| 0 <= i < self.entities@.len() ==> ((!(
        #[trigger] self.entities@[i]).deletion_flag
            && self.entities@[i].spec_has_current_animation()) ==> animate_req(
            self.textures@,
            self.entities@[i],
            tick,
        ))
        &&& (exists|i: int|
            0 <= i < self.entities@.len() && !(#[trigger] self.entities@[i]).deletion_flag
                && !self.entities@[i].spec_has_current_animation()) ==> self.spec_has_texture(
            "empty"@,
        )
    }

    /// One simulation tick over the store, in order: snapshot each entity's
    /// position, queue deletion-flagged entities, give animation-less ones
    /// the fallback sheet, run the animation step, scan for overlaps against
    /// later entries, and apply gravity. Returns the raw and margin-adjusted
    /// overlap events; the queued ids wait in `pending_removals` for
    /// `purge_deleted`, and the margin-adjusted list is meant for
    /// `push_back_solid_colisions` after the caller's collision callbacks.
    #[verifier::spinoff_prover]
    pub fn update_entities(&mut self, tick: i64) -> (r: (
        Vec<CollisionEvent>,
        Vec<CollisionEvent>,
    ))
        requires
            old(self).tick_req(tick as int),
        ensures
            final(self).entities@.len() == old(self).entities@.len(),
            forall|i: int| 0 <= i < old(self).entities@.len() ==> tick_entity_rel(
                old(self).textures@,
                old(self).gravity.x != 0 || old(self).gravity.y != 0,
                textures_size(old(self).textures@, "empty"@),
                old(self).entities@[i],
                #[trigger] final(self).entities@[i],
                tick as int,
            ),
            tick_events_match(
                r.0@,
                old(self).entities@,
                spec_scan_raw(old(self).textures@, old(self).entities@, 0),
            ),
            tick_events_match(
                r.1@,
                old(self).entities@,
                spec_scan_solid(old(self).textures@, old(self).entities@, 0),
            ),
            final(self).pending_removals@.len() == spec_deletion_queue(
                old(self).entities@,
                0,
            ).len(),
            forall|m: int| 0 <= m < final(self).pending_removals@.len() ==> (
            #[trigger] final(self).pending_removals@[m])@ == old(self).entities@[spec_deletion_queue(
                old(self).entities@,
                0,
            )[m]].id@,
            *final(self) == (Scene {
                entities: final(self).entities,
                pending_removals: final(self).pending_removals,
                ..*old(self)
            }),
            final(self).wf(),
    {
        let ghost ts = old(self).textures@;
        let ghost s0 = old(self).entities@;
        let ghost gon = old(self).gravity.x != 0 || old(self).gravity.y != 0;
        let ghost fallback = textures_size(ts, "empty"@);

        let mut delete_list: Vec<String> = Vec::new();
        let mut collisions: Vec<CollisionEvent> = Vec::new();
        let mut solid_collisions: Vec<CollisionEvent> = Vec::new();
        let ghost mut done_raw: Seq<(int, int, WorldRect)> = Seq::empty();
        let ghost mut done_solid: Seq<(int, int, WorldRect)> = Seq::empty();
        let ghost mut done_queue: Seq<int> = Seq::empty();

        let gravity_on = self.gravity.x != 0 || self.gravity.y != 0;
        let n = self.entities.len();
        let mut i: usize = 0;

        proof {
            assert(Seq::<(int, int, WorldRect)>::empty() + spec_scan_raw(ts, s0, 0)
                =~= spec_scan_raw(ts, s0, 0));
            assert(Seq::<(int, int, WorldRect)>::empty() + spec_scan_solid(ts, s0, 0)
                =~= spec_scan_solid(ts, s0, 0));
            assert(Seq::<int>::empty() + spec_deletion_queue(s0, 0) =~= spec_deletion_queue(
                s0,
                0,
            ));
        }

        while i < n
            invariant
                i <= n,
                n == s0.len(),
                self.entities@.len() == s0.len(),
                ts == old(self).textures@,
                s0 == old(self).entities@,
                gon == (old(self).gravity.x != 0 || old(self).gravity.y != 0),
                gravity_on == gon,
                fallback == textures_size(ts, "empty"@),
                old(self).tick_req(tick as int),
                *self == (Scene { entities: self.entities, ..*old(self) }),
                forall|m: int| i <= m < s0.len() ==> self.entities@[m] == s0[m],
                forall|m: int| 0 <= m < s0.len() ==> (#[trigger] self.entities@[m]).id
                    == s0[m].id,
                forall|m: int| 0 <= m < s0.len() ==> (#[trigger] self.entities@[m]).wf(),
                forall|m: int| 0 <= m < i ==> tick_entity_rel(
                    ts,
                    gon,
                    fallback,
                    s0[m],
                    #[trigger] self.entities@[m],
                    tick as int,
                ),
                spec_scan_raw(ts, s0, 0) == done_raw + spec_scan_raw(ts, s0, i as int),
                spec_scan_solid(ts, s0, 0) == done_solid + spec_scan_solid(ts, s0, i as int),
                spec_deletion_queue(s0, 0) == done_queue + spec_deletion_queue(s0, i as int),
                tick_events_match(collisions@, s0, done_raw),
                tick_events_match(solid_collisions@, s0, done_solid),
                delete_list@.len() == done_queue.len(),
                forall|m: int| 0 <= m < done_queue.len() ==> 0 <= #[trigger] done_queue[m]
                    < s0.len() && delete_list@[m]@ == s0[done_queue[m]].id@,
            decreases n - i,
        {
            let ghost pre_i = s0[i as int];
            assert(self.entities@[i as int] == pre_i);

            self.entities[i].update_previous_position();
            let ghost snap = self.entities@[i as int];
            assert(snap == (Entity { previous_position: pre_i.position, ..pre_i }));

            if self.entities[i].is_marked_for_deletion() {
                delete_list.push(self.entities[i].id.clone());
                proof {
                    done_queue = done_queue + seq![i as int];
                    assert(spec_deletion_queue(s0, i as int) == seq![i as int]
                        + spec_deletion_queue(s0, i as int + 1));
                    assert(spec_deletion_queue(s0, 0) =~= done_queue + spec_deletion_queue(
                        s0,
                        i as int + 1,
                    ));
                    assert(tick_entity_rel(ts, gon, fallback, pre_i, snap, tick as int));
                    assert(spec_tick_raw_at(ts, s0, i as int) =~= Seq::<(
                        int,
                        int,
                        WorldRect,
                    )>::empty());
                    assert(spec_tick_solid_at(ts, s0, i as int) =~= Seq::<(
                        int,
                        int,
                        WorldRect,
                    )>::empty());
                    assert(spec_scan_raw(ts, s0, 0) =~= done_raw + spec_scan_raw(
                        ts,
                        s0,
                        i as int + 1,
                    ));
                    assert(spec_scan_solid(ts, s0, 0) =~= done_solid + spec_scan_solid(
                        ts,
                        s0,
                        i as int + 1,
                    ));
                }
            } else if self.entities[i].get_current_animation().is_none() {
                let fb = tex_lookup(&self.textures, "empty").unwrap();
                self.entities[i].reset_texture_rect(fb);
                proof {
                    assert(self.entities@[i as int] == (Entity {
                        texture_rect: full_sheet_rect(fallback),
                        ..snap
                    }));
                    assert(tick_entity_rel(
                        ts,
                        gon,
                        fallback,
                        pre_i,
                        self.entities@[i as int],
                        tick as int,
                    ));
                    assert(spec_tick_raw_at(ts, s0, i as int) =~= Seq::<(
                        int,
                        int,
                        WorldRect,
                    )>::empty());
                    assert(spec_tick_solid_at(ts, s0, i as int) =~= Seq::<(
                        int,
                        int,
                        WorldRect,
                    )>::empty());
                    assert(spec_deletion_queue(s0, i as int) =~= spec_deletion_queue(
                        s0,
                        i as int + 1,
                    ));
                    assert(spec_scan_raw(ts, s0, 0) =~= done_raw + spec_scan_raw(
                        ts,
                        s0,
                        i as int + 1,
                    ));
                    assert(spec_scan_solid(ts, s0, 0) =~= done_solid + spec_scan_solid(
                        ts,
                        s0,
                        i as int + 1,
                    ));
                }
            } else {
                proof {
                    assert(animate_req(ts, pre_i, tick as int));
                    assert(snap.spec_current_animation() == pre_i.spec_current_animation());
                    assert(animate_req(ts, snap, tick as int));
                }
                animate_entity(&self.textures, &mut self.entities[i], tick);
                let ghost mid = self.entities@[i as int];

                if self.entities[i].physics.collision_enabled {
                    proof {
                        assert(mid.texture_rect == spec_animate_rect(ts, snap));
                        assert(spec_animate_rect(ts, snap) == spec_animate_rect(ts, pre_i));
                        assert(entity_geom_ok(mid));
                    }
                    let (mut colls, mut solids) = check_collisions(&self.entities, i);
                    proof {
                        let surr = s0.update(i as int, spec_detect_entity(ts, pre_i));
                        assert(self.entities@[i as int].position == surr[i as int].position);
                        assert(self.entities@[i as int].texture_rect == surr[i as int].texture_rect);
                        assert(self.entities@[i as int].physics == surr[i as int].physics);
                        assert forall|j: int| i as int + 1 <= j < s0.len()
                            implies self.entities@[j] == surr[j] by {}
                        lemma_hits_equiv(
                            self.entities@,
                            surr,
                            i as int,
                            i as int + 1,
                            s0.len() as int,
                        );
                        assert(spec_check_raw(self.entities@, i as int) == spec_check_raw(
                            surr,
                            i as int,
                        ));
                        assert(spec_check_solid(self.entities@, i as int) == spec_check_solid(
                            surr,
                            i as int,
                        ));
                        crate::collision::lemma_raw_hits_indices(
                            surr,
                            i as int,
                            i as int + 1,
                            s0.len() as int,
                        );
                        crate::collision::lemma_solid_hits_indices(
                            surr,
                            i as int,
                            i as int + 1,
                            s0.len() as int,
                        );
                        let new_raw = spec_tick_raw_at(ts, s0, i as int);
                        let new_solid = spec_tick_solid_at(ts, s0, i as int);
                        assert(tick_events_match(colls@, s0, new_raw));
                        assert(tick_events_match(solids@, s0, new_solid));
                    }
                    let ghost old_coll = collisions@;
                    let ghost old_solid = solid_collisions@;
                    let ghost new_coll = colls@;
                    let ghost new_solid_evs = solids@;
                    collisions.append(&mut colls);
                    solid_collisions.append(&mut solids);
                    proof {
                        let done_raw0 = done_raw;
                        let done_solid0 = done_solid;
                        let new_raw = spec_tick_raw_at(ts, s0, i as int);
                        let new_sol = spec_tick_solid_at(ts, s0, i as int);
                        done_raw = done_raw + new_raw;
                        done_solid = done_solid + new_sol;
                        assert(collisions@ == old_coll + new_coll);
                        assert(solid_collisions@ == old_solid + new_solid_evs);
                        assert(old_coll.len() == done_raw0.len());
                        assert(new_coll.len() == new_raw.len());
                        assert(collisions@.len() == done_raw.len());
                        assert(old_solid.len() == done_solid0.len());
                        assert(new_solid_evs.len() == new_sol.len());
                        assert(solid_collisions@.len() == done_solid.len());
                        assert forall|m: int| 0 <= m < collisions@.len()
                            implies tick_event_matches(#[trigger] collisions@[m], s0, done_raw[m]) by {
                            if m < old_coll.len() {
                                assert(collisions@[m] == old_coll[m]);
                                assert(done_raw[m] == done_raw0[m]);
                            } else {
                                assert(collisions@[m] == new_coll[m - old_coll.len()]);
                                assert(done_raw[m] == new_raw[m - done_raw0.len()]);
                            }
                        }
                        assert(tick_events_match(collisions@, s0, done_raw));
                        assert forall|m: int| 0 <= m < solid_collisions@.len()
                            implies tick_event_matches(#[trigger] solid_collisions@[m], s0, done_solid[m]) by {
                            if m < old_solid.len() {
                                assert(solid_collisions@[m] == old_solid[m]);
                                assert(done_solid[m] == done_solid0[m]);
                            } else {
                                assert(solid_collisions@[m] == new_solid_evs[m - old_solid.len()]);
                                assert(done_solid[m] == new_sol[m - done_solid0.len()]);
                            }
                        }
                        assert(tick_events_match(solid_collisions@, s0, done_solid));
                    }
                } else {
                    proof {
                        assert(spec_tick_raw_at(ts, s0, i as int) =~= Seq::<(
                            int,
                            int,
                            WorldRect,
                        )>::empty());
                        assert(spec_tick_solid_at(ts, s0, i as int) =~= Seq::<(
                            int,
                            int,
                            WorldRect,
                        )>::empty());
                    }
                }

                if gravity_on {
                    if !self.entities[i].physics.static_object {
                        self.entities[i].move_down(tick);
                    }
                }
                proof {
                    assert(animate_rel(ts, snap, mid, tick as int));
                    assert(tick_entity_rel(
                        ts,
                        gon,
                        fallback,
                        pre_i,
                        self.entities@[i as int],
                        tick as int,
                    ));
                    assert(spec_deletion_queue(s0, i as int) =~= spec_deletion_queue(
                        s0,
                        i as int + 1,
                    ));
                    assert(spec_scan_raw(ts, s0, 0) =~= done_raw + spec_scan_raw(
                        ts,
                        s0,
                        i as int + 1,
                    ));
                    assert(spec_scan_solid(ts, s0, 0) =~= done_solid + spec_scan_solid(
                        ts,
                        s0,
                        i as int + 1,
                    ));
                }
            }
            i = i + 1;
        }
        proof {
            assert(spec_scan_raw(ts, s0, n as int) =~= Seq::<(int, int, WorldRect)>::empty());
            assert(spec_scan_solid(ts, s0, n as int) =~= Seq::<(int, int, WorldRect)>::empty());
            assert(spec_deletion_queue(s0, n as int) =~= Seq::<int>::empty());
            assert(done_raw =~= spec_scan_raw(ts, s0, 0));
            assert(done_solid =~= spec_scan_solid(ts, s0, 0));
            assert(done_queue =~= spec_deletion_queue(s0, 0));
        }
        self.pending_removals = delete_list;
        (collisions, solid_collisions)
    }


    /// Removes every entity whose id the pending-removal queue lists, in
    /// queue order and keeping the store order of the survivors, then
    /// clears the queue.
    #[verifier::spinoff_prover]
    pub fn purge_deleted(&mut self)
        requires
            old(self).wf(),
        ensures
            final(self).entities@ == spec_purge(
                old(self).entities@,
                old(self).pending_removals@,
            ),
            final(self).pending_removals@.len() == 0,
            *final(self) == (Scene {
                entities: final(self).entities,
                pending_removals: final(self).pending_removals,
                ..*old(self)
            }),
            final(self).wf(),
    {
        let ghost ids = old(self).pending_removals@;
        let n = self.pending_removals.len();
        let mut k: usize = 0;
        proof {
            assert(ids.skip(0) =~= ids);
        }
        while k < n
            invariant
                k <= n,
                n == ids.len(),
                self.pending_removals@ == ids,
                self.wf(),
                spec_purge(old(self).entities@, ids) == spec_purge(
                    self.entities@,
                    ids.skip(k as int),
                ),
                *self == (Scene { entities: self.entities, ..*old(self) }),
            decreases n - k,
        {
            let ghost pre = self.entities@;
            let ghost rest = ids.skip(k as int);
            proof {
                assert(rest[0] == ids[k as int]);
                assert(rest.skip(1) =~= ids.skip(k as int + 1));
            }
            let id = self.pending_removals[k].clone();
            match self.find_entity_index(id.as_str()) {
                Some(idx) => {
                    proof {
                        lemma_store_index_unique(pre, ids[k as int]@, idx as int);
                    }
                    self.entities.remove(idx);
                    proof {
                        assert(self.entities@ == pre.remove(idx as int));
                        assert forall|a: int, b: int| 0 <= a < b < self.entities@.len()
                            implies self.entities@[a].id@ != self.entities@[b].id@ by {
                            let a2 = if a < idx as int {
                                a
                            } else {
                                a + 1
                            };
                            let b2 = if b < idx as int {
                                b
                            } else {
                                b + 1
                            };
                            assert(self.entities@[a] == pre[a2]);
                            assert(self.entities@[b] == pre[b2]);
                            assert(pre[a2].id@ != pre[b2].id@);
                        }
                        assert forall|a: int| 0 <= a < self.entities@.len() implies (
                        #[trigger] self.entities@[a]).wf() by {
                            let a2 = if a < idx as int {
                                a
                            } else {
                                a + 1
                            };
                            assert(self.entities@[a] == pre[a2]);
                        }
                    }
                },
                None => {
                },
            }
            k = k + 1;
        }
        proof {
            assert(ids.skip(n as int) =~= Seq::<String>::empty());
        }
        self.pending_removals = Vec::new();
    }


    /// A candidate for the closest-entity queries: any entity other than
    /// the one asking.
    pub open spec fn spec_other(self, id: Seq<char>, j: int) -> bool {
        self.entities@[j].id@ != id
    }

    /// The gap vector between the asking entity's box and entity `j`'s box.
    pub open spec fn spec_gap_to(self, id: Seq<char>, j: int) -> Vec2 {
        spec_closest_distance(self.spec_entity(id).spec_bounds(), self.entities@[j].spec_bounds())
    }

    /// The gap vector between the two entities' margin-inset solid boxes.
    pub open spec fn spec_solid_gap_to(self, id: Seq<char>, j: int) -> Vec2 {
        spec_closest_distance(
            self.spec_entity(id).spec_hitbox_with_margin(
                self.spec_entity(id).physics.solid_box_margin,
            ),
            self.entities@[j].spec_hitbox_with_margin(
                self.entities@[j].physics.solid_box_margin,
            ),
        )
    }

    /// The entity nearest the named one, by the squared length of the gap
    /// between their boxes, earliest store entry on ties; `None` when no
    /// other entity exists. The asked-for entity must be present.
    #[verifier::spinoff_prover]
    pub fn get_closest_entity(&self, entity_id: &str) -> (r: Option<(&Entity, Vec2)>)
        requires
            self.wf(),
            self.spec_has_entity(entity_id@),
            forall|j: int| 0 <= j < self.entities@.len() ==> entity_geom_ok(
                #[trigger] self.entities@[j],
            ),
        ensures
            match r {
                None => forall|j: int| 0 <= j < self.entities@.len() ==> !self.spec_other(
                    entity_id@,
                    j,
                ),
                Some((e, v)) => exists|j: int|
                    {
                        &&& 0 <= j < self.entities@.len()
                        &&& #[trigger] self.entities@[j] == *e
                        &&& self.spec_other(entity_id@, j)
                        &&& v == self.spec_gap_to(entity_id@, j)
                        &&& forall|k: int|
                            0 <= k < self.entities@.len() && self.spec_other(entity_id@, k)
                                ==> spec_sqdist(#[trigger] self.spec_gap_to(entity_id@, k))
                                >= spec_sqdist(v)
                        &&& forall|k: int|
                            0 <= k < j && self.spec_other(entity_id@, k) ==> spec_sqdist(
                                #[trigger] self.spec_gap_to(entity_id@, k),
                            ) > spec_sqdist(v)
                    },
            },
    {
        let r = self.find_entity_index(entity_id);
        proof {
            if r is None {
                assert(false);
            }
            lemma_store_index_unique(self.entities@, entity_id@, r.unwrap() as int);
        }
        let me_idx = r.unwrap();
        let me_bounds = self.entities[me_idx].global_bounds();

        let mut best: Option<(usize, Vec2, i64)> = None;
        let n = self.entities.len();
        let mut j: usize = 0;
        while j < n
            invariant
                j <= n,
                n == self.entities@.len(),
                self.wf(),
                self.spec_has_entity(entity_id@),
                me_idx == self.spec_entity_index(entity_id@),
                me_idx < n,
                me_bounds == self.spec_entity(entity_id@).spec_bounds(),
                forall|m: int| 0 <= m < self.entities@.len() ==> entity_geom_ok(
                    #[trigger] self.entities@[m],
                ),
                match best {
                    None => forall|m: int| 0 <= m < j ==> !self.spec_other(entity_id@, m),
                    Some((bj, bv, bsq)) => {
                        &&& bj < j <= n
                        &&& self.spec_other(entity_id@, bj as int)
                        &&& bv == self.spec_gap_to(entity_id@, bj as int)
                        &&& bsq == spec_sqdist(bv)
                        &&& forall|m: int|
                            0 <= m < j && self.spec_other(entity_id@, m) ==> spec_sqdist(
                                #[trigger] self.spec_gap_to(entity_id@, m),
                            ) >= bsq
                        &&& forall|m: int|
                            0 <= m < bj && self.spec_other(entity_id@, m) ==> spec_sqdist(
                                #[trigger] self.spec_gap_to(entity_id@, m),
                            ) > bsq
                    },
                },
            decreases n - j,
        {
            proof {
                if j as int != me_idx as int {
                    assert(self.entities@[j as int].id@ != self.entities@[me_idx as int].id@);
                }
            }
            if j != me_idx {
                let vec = closest_distance(me_bounds, self.entities[j].global_bounds());
                proof {
                    lemma_mul_le(vec.x as int, vec.x as int, 400_000_000, 400_000_000);
                    lemma_mul_le(vec.y as int, vec.y as int, 400_000_000, 400_000_000);
                }
                let sq = vec.x * vec.x + vec.y * vec.y;
                let better = match &best {
                    None => true,
                    Some((_, _, bsq)) => sq < *bsq,
                };
                if better {
                    best = Some((j, vec, sq));
                }
            }
            j = j + 1;
        }

        match best {
            Some((bj, bv, _)) => Some((&self.entities[bj], bv)),
            None => None,
        }
    }

    /// The non-ghost entity nearest the named one, by the squared length of
    /// the gap between their margin-inset solid boxes, earliest store entry
    /// on ties; `None` when no other non-ghost entity exists.
    #[verifier::rlimit(100)]
    #[verifier::spinoff_prover]
    pub fn get_closest_solid(&self, entity_id: &str) -> (r: Option<(&Entity, Vec2)>)
        requires
            self.wf(),
            self.spec_has_entity(entity_id@),
            forall|j: int| 0 <= j < self.entities@.len() ==> entity_geom_ok(
                #[trigger] self.entities@[j],
            ),
        ensures
            match r {
                None => forall|j: int| 0 <= j < self.entities@.len() ==> !(self.spec_other(
                    entity_id@,
                    j,
                ) && !self.entities@[j].physics.ghost_flag),
                Some((e, v)) => exists|j: int|
                    {
                        &&& 0 <= j < self.entities@.len()
                        &&& #[trigger] self.entities@[j] == *e
                        &&& self.spec_other(entity_id@, j)
                        &&& !self.entities@[j].physics.ghost_flag
                        &&& v == self.spec_solid_gap_to(entity_id@, j)
                        &&& forall|k: int|
                            0 <= k < self.entities@.len() && self.spec_other(entity_id@, k)
                                && !self.entities@[k].physics.ghost_flag ==> spec_sqdist(
                                #[trigger] self.spec_solid_gap_to(entity_id@, k),
                            ) >= spec_sqdist(v)
                        &&& forall|k: int|
                            0 <= k < j && self.spec_other(entity_id@, k)
                                && !self.entities@[k].physics.ghost_flag ==> spec_sqdist(
                                #[trigger] self.spec_solid_gap_to(entity_id@, k),
                            ) > spec_sqdist(v)
                    },
            },
    {
        let r = self.find_entity_index(entity_id);
        proof {
            if r is None {
                assert(false);
            }
            lemma_store_index_unique(self.entities@, entity_id@, r.unwrap() as int);
        }
        let me_idx = r.unwrap();
        let me_margin = self.entities[me_idx].physics.solid_box_margin;
        let me_box = self.entities[me_idx].get_hitbox_with_margin(me_margin);

        let mut best: Option<(usize, Vec2, i64)> = None;
        let n = self.entities.len();
        let mut j: usize = 0;
        while j < n
            invariant
                j <= n,
                n == self.entities@.len(),
                self.wf(),
                self.spec_has_entity(entity_id@),
                me_idx == self.spec_entity_index(entity_id@),
                me_idx < n,
                me_box == self.spec_entity(entity_id@).spec_hitbox_with_margin(
                    self.spec_entity(entity_id@).physics.solid_box_margin,
                ),
                forall|m: int| 0 <= m < self.entities@.len() ==> entity_geom_ok(
                    #[trigger] self.entities@[m],
                ),
                match best {
                    None => forall|m: int| 0 <= m < j ==> !(self.spec_other(entity_id@, m)
                        && !self.entities@[m].physics.ghost_flag),
                    Some((bj, bv, bsq)) => {
                        &&& bj < j <= n
                        &&& self.spec_other(entity_id@, bj as int)
                        &&& !self.entities@[bj as int].physics.ghost_flag
                        &&& bv == self.spec_solid_gap_to(entity_id@, bj as int)
                        &&& bsq == spec_sqdist(bv)
                        &&& forall|m: int|
                            0 <= m < j && self.spec_other(entity_id@, m)
                                && !self.entities@[m].physics.ghost_flag ==> spec_sqdist(
                                #[trigger] self.spec_solid_gap_to(entity_id@, m),
                            ) >= bsq
                        &&& forall|m: int|
                            0 <= m < bj && self.spec_other(entity_id@, m)
                                && !self.entities@[m].physics.ghost_flag ==> spec_sqdist(
                                #[trigger] self.spec_solid_gap_to(entity_id@, m),
                            ) > bsq
                    },
                },
            decreases n - j,
        {
            proof {
                if j as int != me_idx as int {
                    assert(self.entities@[j as int].id@ != self.entities@[me_idx as int].id@);
                }
            }
            let ghost_partner = self.entities[j].physics.ghost_flag;
            if j != me_idx && !ghost_partner {
                let pm = self.entities[j].physics.solid_box_margin;
                let pb = self.entities[j].get_hitbox_with_margin(pm);
                let vec = closest_distance(me_box, pb);
                proof {
                    lemma_mul_le(vec.x as int, vec.x as int, 1_600_000_000, 1_600_000_000);
                    lemma_mul_le(vec.y as int, vec.y as int, 1_600_000_000, 1_600_000_000);
                }
                let sq = vec.x * vec.x + vec.y * vec.y;
                let better = match &best {
                    None => true,
                    Some((_, _, bsq)) => sq < *bsq,
                };
                if better {
                    best = Some((j, vec, sq));
                }
            }
            j = j + 1;
        }

        match best {
            Some((bj, bv, _)) => Some((&self.entities[bj], bv)),
            None => None,
        }
    }

    /// The gap between two entities' solid boxes, or the sentinel of two
    /// maximal components when either id is absent.
    pub fn get_closest_path_between(&self, entity_id1: &str, entity_id2: &str) -> (v: Vec2)
        requires
            self.wf(),
            forall|j: int| 0 <= j < self.entities@.len() ==> entity_geom_ok(
                #[trigger] self.entities@[j],
            ),
        ensures
            v == if self.spec_has_entity(entity_id1@) && self.spec_has_entity(entity_id2@) {
                spec_closest_distance(
                    self.spec_entity(entity_id1@).spec_hitbox_with_margin(
                        self.spec_entity(entity_id1@).physics.solid_box_margin,
                    ),
                    self.spec_entity(entity_id2@).spec_hitbox_with_margin(
                        self.spec_entity(entity_id2@).physics.solid_box_margin,
                    ),
                )
            } else {
                Vec2 { x: i64::MAX, y: i64::MAX }
            },
    {
        let r1 = self.find_entity_index(entity_id1);
        let r2 = self.find_entity_index(entity_id2);
        if r1.is_none() || r2.is_none() {
            return Vec2 { x: i64::MAX, y: i64::MAX };
        }
        let i1 = r1.unwrap();
        let i2 = r2.unwrap();
        proof {
            lemma_store_index_unique(self.entities@, entity_id1@, i1 as int);
            lemma_store_index_unique(self.entities@, entity_id2@, i2 as int);
        }
        let m1 = self.entities[i1].physics.solid_box_margin;
        let b1 = self.entities[i1].get_hitbox_with_margin(m1);
        let m2 = self.entities[i2].physics.solid_box_margin;
        let b2 = self.entities[i2].get_hitbox_with_margin(m2);
        closest_distance(b1, b2)
    }

    /// Applies a tick's list of margin-adjusted overlaps: each pair's
    /// push-back, in list order. Every event must name two distinct present
    /// entities; asking for an absent one is a caller error.
    #[verifier::spinoff_prover]
    pub fn push_back_solid_colisions(&mut self, solid_colls: &Vec<CollisionEvent>, tick: i64)
        requires
            old(self).wf(),
            0 <= tick <= TICK_LIMIT,
            spec_pushes_ok(old(self).entities@, solid_colls@, tick as int),
        ensures
            final(self).entities@ == spec_apply_pushes(
                old(self).entities@,
                solid_colls@,
                tick as int,
            ),
            *final(self) == (Scene { entities: final(self).entities, ..*old(self) }),
            final(self).wf(),
    {
        let n = solid_colls.len();
        let mut k: usize = 0;
        proof {
            assert(solid_colls@.skip(0) =~= solid_colls@);
        }
        while k < n
            invariant
                k <= n,
                n == solid_colls@.len(),
                0 <= tick <= TICK_LIMIT,
                self.wf(),
                spec_pushes_ok(self.entities@, solid_colls@.skip(k as int), tick as int),
                spec_apply_pushes(self.entities@, solid_colls@.skip(k as int), tick as int)
                    == spec_apply_pushes(old(self).entities@, solid_colls@, tick as int),
                *self == (Scene { entities: self.entities, ..*old(self) }),
            decreases n - k,
        {
            let ghost pre = self.entities@;
            let ghost rest = solid_colls@.skip(k as int);
            proof {
                assert(rest[0] == solid_colls@[k as int]);
            }
            let i_opt = self.find_entity_index(solid_colls[k].0.as_str());
            let j_opt = self.find_entity_index(solid_colls[k].1.as_str());
            proof {
                if i_opt is None || j_opt is None {
                    assert(false);
                }
                lemma_store_index_unique(pre, solid_colls@[k as int].0@, i_opt.unwrap() as int);
                lemma_store_index_unique(pre, solid_colls@[k as int].1@, j_opt.unwrap() as int);
            }
            let i = i_opt.unwrap();
            let j = j_opt.unwrap();
            let inter = solid_colls[k].2;
            resolve_pair(&mut self.entities, i, j, inter, tick);
            proof {
                let ev = solid_colls@[k as int];
                assert(self.entities@ == spec_apply_push(pre, ev, tick as int));
                assert forall|a: int| 0 <= a < self.entities@.len() implies (
                #[trigger] self.entities@[a]).id@ == pre[a].id@ && self.entities@[a].wf() by {
                    assert(pre[a].wf());
                }
                assert(rest.skip(1) =~= solid_colls@.skip(k as int + 1));
                assert(spec_apply_pushes(pre, rest, tick as int) == spec_apply_pushes(
                    self.entities@,
                    rest.skip(1),
                    tick as int,
                ));
            }
            k = k + 1;
        }
        proof {
            assert(solid_colls@.skip(n as int) =~= Seq::<CollisionEvent>::empty());
        }
    }

    /// Applies one key edge: a press of a released key or a release of a
    /// pressed key records the new state and reports `true` (the edge is
    /// real); anything else is a no-op reporting `false`.
    pub fn apply_key_transition(&mut self, state: KeyState) -> (fired: bool)
        requires
            old(self).wf(),
        ensures
            ({
                let (code, pressed) = match state {
                    KeyState::Pressed(c) => (c, true),
                    KeyState::Released(c) => (c, false),
                };
                &&& fired == (old(self).spec_key_state(code) != pressed)
                &&& fired ==> final(self).spec_key_state(code) == pressed
                &&& fired ==> forall|other: u32| other != code
                    ==> final(self).spec_key_state(other) == old(self).spec_key_state(other)
                &&& fired ==> *final(self) == (Scene {
                    keyboard: final(self).keyboard,
                    ..*old(self)
                })
                &&& !fired ==> *final(self) == *old(self)
            }),
            final(self).wf(),
    {
        let code = match state {
            KeyState::Pressed(code) => code,
            KeyState::Released(code) => code,
        };

        let key_state = self.check_key(code);

        match state {
            KeyState::Pressed(_) => {
                if !key_state {
                    self.set_key(code, true);
                    return true;
                }
                false
            },
            KeyState::Released(_) => {
                if key_state {
                    self.set_key(code, false);
                    return true;
                }
                false
            },
        }
    }
}

/// With unique texture names, any index carrying the name is the one the
/// specification selects.
pub proof fn lemma_texture_index_unique(s: Scene, name: Seq<char>, i: int)
    requires
        forall|a: int, b: int|
            0 <= a < b < s.textures@.len() ==> s.textures@[a].0@ != s.textures@[b].0@,
        0 <= i < s.textures@.len(),
        s.textures@[i].0@ == name,
    ensures
        s.spec_has_texture(name),
        s.spec_texture_size(name) == s.textures@[i].1,
{
    lemma_textures_index_unique_seq(s.textures@, name, i);
}

/// With unique entity ids, any index carrying the id is the one the
/// specification selects.
pub proof fn lemma_entity_index_unique(s: Scene, id: Seq<char>, i: int)
    requires
        forall|a: int, b: int|
            0 <= a < b < s.entities@.len() ==> s.entities@[a].id@ != s.entities@[b].id@,
        0 <= i < s.entities@.len(),
        s.entities@[i].id@ == id,
    ensures
        s.spec_has_entity(id),
        s.spec_entity_index(id) == i,
        s.spec_entity(id) == s.entities@[i],
{
    lemma_store_index_unique(s.entities@, id, i);
}

/// The specification's chosen index for an entity id that is present at a
/// known index is that index.
proof fn lemma_entity_index_unique_weak(s: Scene, i: int)
    requires
        forall|a: int, b: int|
            0 <= a < b < s.entities@.len() ==> s.entities@[a].id@ != s.entities@[b].id@,
        0 <= i < s.entities@.len(),
    ensures
        s.spec_has_entity(s.entities@[i].id@),
        s.spec_entity_index(s.entities@[i].id@) == i,
{
    lemma_entity_index_unique(s, s.entities@[i].id@, i);
}

/// With unique key codes, any index carrying the code determines the
/// recorded key state.
pub proof fn lemma_key_index_unique(s: Scene, key: u32, i: int)
    requires
        forall|a: int, b: int|
            0 <= a < b < s.keyboard@.len() ==> s.keyboard@[a].0 != s.keyboard@[b].0,
        0 <= i < s.keyboard@.len(),
        s.keyboard@[i].0 == key,
    ensures
        s.spec_key_state(key) == s.keyboard@[i].1,
{
    let c = choose|k: int| 0 <= k < s.keyboard@.len() && (#[trigger] s.keyboard@[k]).0 == key;
    if c < i {
        assert(s.keyboard@[c].0 != s.keyboard@[i].0);
    } else if i < c {
        assert(s.keyboard@[i].0 != s.keyboard@[c].0);
    }
}

/// A keyboard edit confined to the entries of one code leaves every other
/// code's state unchanged.
proof fn lemma_key_state_frame(s1: Scene, s2: Scene, edited: u32, other: u32)
    requires
        other != edited,
        s1.keyboard@.len() <= s2.keyboard@.len(),
        forall|i: int| 0 <= i < s1.keyboard@.len() ==> ((#[trigger] s2.keyboard@[i]).0
            == s1.keyboard@[i].0 && (s1.keyboard@[i].0 != edited ==> s2.keyboard@[i]
            == s1.keyboard@[i])),
        forall|i: int| s1.keyboard@.len() <= i < s2.keyboard@.len()
            ==> (#[trigger] s2.keyboard@[i]).0 == edited,
        forall|a: int, b: int|
            0 <= a < b < s1.keyboard@.len() ==> s1.keyboard@[a].0 != s1.keyboard@[b].0,
        forall|a: int, b: int|
            0 <= a < b < s2.keyboard@.len() ==> s2.keyboard@[a].0 != s2.keyboard@[b].0,
    ensures
        s2.spec_key_state(other) == s1.spec_key_state(other),
{
    if exists|i: int| 0 <= i < s1.keyboard@.len() && (#[trigger] s1.keyboard@[i]).0 == other {
        let i = choose|i: int|
            0 <= i < s1.keyboard@.len() && (#[trigger] s1.keyboard@[i]).0 == other;
        assert(s2.keyboard@[i] == s1.keyboard@[i]);
        lemma_key_index_unique(s1, other, i);
        lemma_key_index_unique(s2, other, i);
    } else {
        if exists|i: int| 0 <= i < s2.keyboard@.len() && (#[trigger] s2.keyboard@[i]).0
            == other {
            let i = choose|i: int|
                0 <= i < s2.keyboard@.len() && (#[trigger] s2.keyboard@[i]).0 == other;
            assert(i < s1.keyboard@.len() ==> s1.keyboard@[i].0 == other);
            assert(false);
        }
    }
}


/// The store after removing, id by id and in list order, the entities the
/// listed ids name; an id that names nothing removes nothing.
pub open spec fn spec_purge(s: Seq<Entity>, ids: Seq<String>) -> Seq<Entity>
    decreases ids.len(),
{
    if ids.len() == 0 {
        s
    } else {
        let s1 = if store_has(s, ids[0]@) {
            s.remove(store_index(s, ids[0]@))
        } else {
            s
        };
        spec_purge(s1, ids.skip(1))
    }
}

/// The squared length of a vector.
pub open spec fn spec_sqdist(v: Vec2) -> int {
    v.x * v.x + v.y * v.y
}

/// The entity as the pairwise scan sees it at its own index: position kept,
/// previous position snapshotted, source rectangle as the animation step
/// leaves it. Detection reads nothing else of the scanning entity.
pub open spec fn spec_detect_entity(ts: Seq<(String, (u32, u32))>, e: Entity) -> Entity {
    Entity { previous_position: e.position, texture_rect: spec_animate_rect(ts, e), ..e }
}

/// The tick scans this entity against its successors: it is live, has an
/// active animation, and takes part in collision.
pub open spec fn spec_entity_scans(s0: Seq<Entity>, k: int) -> bool {
    &&& !s0[k].deletion_flag
    &&& s0[k].spec_has_current_animation()
    &&& s0[k].physics.collision_enabled
}

/// The raw events entity `k` contributes to the tick, as triples of the two
/// store indices and the overlap box.
pub open spec fn spec_tick_raw_at(ts: Seq<(String, (u32, u32))>, s0: Seq<Entity>, k: int) -> Seq<
    (int, int, WorldRect),
> {
    if spec_entity_scans(s0, k) {
        spec_check_raw(s0.update(k, spec_detect_entity(ts, s0[k])), k).map_values(
            |h: (int, WorldRect)| (k, h.0, h.1),
        )
    } else {
        Seq::empty()
    }
}

/// The margin-adjusted events entity `k` contributes to the tick.
pub open spec fn spec_tick_solid_at(ts: Seq<(String, (u32, u32))>, s0: Seq<Entity>, k: int) -> Seq<
    (int, int, WorldRect),
> {
    if spec_entity_scans(s0, k) {
        spec_check_solid(s0.update(k, spec_detect_entity(ts, s0[k])), k).map_values(
            |h: (int, WorldRect)| (k, h.0, h.1),
        )
    } else {
        Seq::empty()
    }
}

/// All raw events of the tick from entity `k` onward, in scan order.
pub open spec fn spec_scan_raw(ts: Seq<(String, (u32, u32))>, s0: Seq<Entity>, k: int) -> Seq<
    (int, int, WorldRect),
>
    decreases s0.len() - k,
{
    if 0 <= k < s0.len() {
        spec_tick_raw_at(ts, s0, k) + spec_scan_raw(ts, s0, k + 1)
    } else {
        Seq::empty()
    }
}

/// All margin-adjusted events of the tick from entity `k` onward.
pub open spec fn spec_scan_solid(ts: Seq<(String, (u32, u32))>, s0: Seq<Entity>, k: int) -> Seq<
    (int, int, WorldRect),
>
    decreases s0.len() - k,
{
    if 0 <= k < s0.len() {
        spec_tick_solid_at(ts, s0, k) + spec_scan_solid(ts, s0, k + 1)
    } else {
        Seq::empty()
    }
}

/// The store indices of the entities the tick queues for removal, in store
/// order.
pub open spec fn spec_deletion_queue(s0: Seq<Entity>, k: int) -> Seq<int>
    decreases s0.len() - k,
{
    if 0 <= k < s0.len() {
        (if s0[k].deletion_flag {
            seq![k]
        } else {
            Seq::<int>::empty()
        }) + spec_deletion_queue(s0, k + 1)
    } else {
        Seq::empty()
    }
}

/// An event tuple names the two entities of a hit triple and carries its
/// overlap box.
pub open spec fn tick_event_matches(
    ev: CollisionEvent,
    s0: Seq<Entity>,
    h: (int, int, WorldRect),
) -> bool {
    &&& 0 <= h.0 < s0.len()
    &&& 0 <= h.1 < s0.len()
    &&& ev.0@ == s0[h.0].id@
    &&& ev.1@ == s0[h.1].id@
    &&& ev.2 == h.2
}

/// An event list names, entry for entry, the two entities of the hit triple
/// and carries its overlap box.
pub open spec fn tick_events_match(
    evs: Seq<CollisionEvent>,
    s0: Seq<Entity>,
    hits: Seq<(int, int, WorldRect)>,
) -> bool {
    &&& evs.len() == hits.len()
    &&& forall|m: int| 0 <= m < evs.len() ==> tick_event_matches(#[trigger] evs[m], s0, hits[m])
}

/// How one tick transforms one entity: its position is snapshotted; a
/// deletion-flagged entity is only queued; one without an active animation
/// takes the fallback sheet; any other runs the animation step and, when
/// gravity is on and it is not static, one downward step of its own speed.
pub open spec fn tick_entity_rel(
    ts: Seq<(String, (u32, u32))>,
    gravity_on: bool,
    fallback: (u32, u32),
    pre: Entity,
    post: Entity,
    tick: int,
) -> bool {
    let snap = Entity { previous_position: pre.position, ..pre };
    if pre.deletion_flag {
        post == snap
    } else if !pre.spec_has_current_animation() {
        post == (Entity { texture_rect: full_sheet_rect(fallback), ..snap })
    } else {
        exists|mid: Entity|
            #[trigger] animate_rel(ts, snap, mid, tick) && post == (if gravity_on
                && !pre.physics.static_object {
                Entity {
                    position: Vec2 {
                        x: mid.position.x,
                        y: (mid.position.y + pre.physics.speed * tick) as i64,
                    },
                    ..mid
                }
            } else {
                mid
            })
    }
}


/// Removing an entry never introduces an id.
proof fn lemma_remove_keeps_absent(s: Seq<Entity>, i: int, id: Seq<char>)
    requires
        0 <= i < s.len(),
        !store_has(s, id),
    ensures
        !store_has(s.remove(i), id),
{
    let s1 = s.remove(i);
    if store_has(s1, id) {
        let w = choose|w: int| 0 <= w < s1.len() && (#[trigger] s1[w]).id@ == id;
        let w2 = if w < i {
            w
        } else {
            w + 1
        };
        assert(s1[w] == s[w2]);
        assert(s[w2].id@ == id);
        assert(false);
    }
}

/// Removing an entry keeps the remaining ids pairwise distinct.
proof fn lemma_remove_keeps_unique(s: Seq<Entity>, i: int)
    requires
        0 <= i < s.len(),
        forall|a: int, b: int| 0 <= a < b < s.len() ==> s[a].id@ != s[b].id@,
    ensures
        forall|a: int, b: int|
            0 <= a < b < s.remove(i).len() ==> s.remove(i)[a].id@ != s.remove(i)[b].id@,
{
    let s1 = s.remove(i);
    assert forall|a: int, b: int| 0 <= a < b < s1.len() implies s1[a].id@ != s1[b].id@ by {
        let a2 = if a < i {
            a
        } else {
            a + 1
        };
        let b2 = if b < i {
            b
        } else {
            b + 1
        };
        assert(s1[a] == s[a2] && s1[b] == s[b2]);
        assert(s[a2].id@ != s[b2].id@);
    }
}

/// Purging never introduces an id.
proof fn lemma_purge_no_reappear(s: Seq<Entity>, ids: Seq<String>, id: Seq<char>)
    requires
        !store_has(s, id),
    ensures
        !store_has(spec_purge(s, ids), id),
    decreases ids.len(),
{
    if ids.len() > 0 {
        let s1 = if store_has(s, ids[0]@) {
            s.remove(store_index(s, ids[0]@))
        } else {
            s
        };
        if store_has(s, ids[0]@) {
            lemma_remove_keeps_absent(s, store_index(s, ids[0]@), id);
        }
        lemma_purge_no_reappear(s1, ids.skip(1), id);
    }
}

/// After the purge of a store with pairwise-distinct ids, no listed id
/// remains: an entity queued for removal is absent once the queue is
/// applied.
pub proof fn lemma_purge_removes_listed(s: Seq<Entity>, ids: Seq<String>, id: Seq<char>)
    requires
        forall|a: int, b: int| 0 <= a < b < s.len() ==> s[a].id@ != s[b].id@,
        exists|k: int| 0 <= k < ids.len() && (#[trigger] ids[k])@ == id,
    ensures
        !store_has(spec_purge(s, ids), id),
    decreases ids.len(),
{
    let k = choose|k: int| 0 <= k < ids.len() && (#[trigger] ids[k])@ == id;
    let s1 = if store_has(s, ids[0]@) {
        s.remove(store_index(s, ids[0]@))
    } else {
        s
    };
    if store_has(s, ids[0]@) {
        lemma_remove_keeps_unique(s, store_index(s, ids[0]@));
    }
    if ids[0]@ == id {
        if store_has(s, id) {
            let i = store_index(s, id);
            assert(0 <= i < s.len() && s[i].id@ == id);
            if store_has(s1, id) {
                let w = choose|w: int| 0 <= w < s1.len() && (#[trigger] s1[w]).id@ == id;
                let w2 = if w < i {
                    w
                } else {
                    w + 1
                };
                assert(s1[w] == s[w2]);
                assert(w2 != i);
                if w2 < i {
                    assert(s[w2].id@ != s[i].id@);
                } else {
                    assert(s[i].id@ != s[w2].id@);
                }
                assert(false);
            }
            lemma_purge_no_reappear(s1, ids.skip(1), id);
        } else {
            lemma_purge_no_reappear(s, ids.skip(1), id);
        }
    } else {
        assert(k >= 1);
        assert(ids.skip(1)[k - 1]@ == id);
        lemma_purge_removes_listed(s1, ids.skip(1), id);
    }
}

} // verus!
