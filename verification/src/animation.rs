//! The per-entity animation state machine: frame counters, wrap events,
//! loop counting and the derivation of sprite-sheet source rectangles.

use vstd::prelude::*;

verus! {

/// A source rectangle in sprite-sheet pixel space. A negative extent
/// describes a mirrored sampling of the same cell.
#[derive(Clone, Copy, Debug, PartialEq, Eq, Structural)]
pub struct PixelRect {
    pub left: i32,
    pub top: i32,
    pub width: i32,
    pub height: i32,
}

/// The behaviour of an animation once its last frame has played: keep
/// cycling, cycle a fixed number of times, play once, or never advance.
/// The optional `rect_index_range` restricts the sheet cells used to the
/// inclusive index range it holds.
#[derive(Clone, Debug)]
pub enum AnimationType {
    Loop { rect_index_range: Option<(u32, u32)> },
    FiniteLoop { loops: u32, current_loop: u32, return_state: String, rect_index_range: Option<(u32, u32)> },
    Once { return_state: String, rect_index_range: Option<(u32, u32)> },
    Static,
}

/// One animation: a sheet identifier, an optional fixed cell size, a
/// per-frame duration, the elapsed-duration accumulator and the current
/// frame counter. Durations are in the caller's time unit.
#[derive(Clone, Debug)]
pub struct Animation {
    pub type_: AnimationType,
    pub texture_id: String,
    pub rect_size: Option<(i32, i32)>,
    pub frame_duration: i64,
    pub current_total_duration: i64,
    pub current_frame: u32,
}

/// Mirrors a source rectangle: each requested flip negates an extent and
/// shifts the origin by it, so the same cell is sampled backwards.
pub open spec fn spec_flip_rect(rect: PixelRect, flip_x: bool, flip_y: bool) -> PixelRect {
    let left = if flip_x {
        rect.left + rect.width
    } else {
        rect.left as int
    };
    let width = if flip_x {
        -(rect.width as int)
    } else {
        rect.width as int
    };
    let top = if flip_y {
        rect.top + rect.height
    } else {
        rect.top as int
    };
    let height = if flip_y {
        -(rect.height as int)
    } else {
        rect.height as int
    };
    PixelRect { left: left as i32, top: top as i32, width: width as i32, height: height as i32 }
}

/// Applies horizontal and vertical mirroring to a source rectangle.
pub fn flip_rect(rect: PixelRect, flip_x: bool, flip_y: bool) -> (r: PixelRect)
    requires
        i32::MIN <= rect.left + rect.width <= i32::MAX,
        i32::MIN <= rect.top + rect.height <= i32::MAX,
        i32::MIN < rect.width,
        i32::MIN < rect.height,
    ensures
        r == spec_flip_rect(rect, flip_x, flip_y),
{
    let mut new_rect = rect;
    if flip_x {
        new_rect.left = new_rect.left + new_rect.width;
        new_rect.width = -new_rect.width;
    }
    if flip_y {
        new_rect.top = new_rect.top + new_rect.height;
        new_rect.height = -new_rect.height;
    }
    new_rect
}

/// A usable sub-range: ordered, and small enough that the cycle length
/// `e - s + 1` fits the frame counter's type.
pub open spec fn range_wf(range: Option<(u32, u32)>) -> bool {
    match range {
        Some((s, e)) => s <= e && e - s < u32::MAX,
        None => true,
    }
}

/// Maps a frame counter into an inclusive sub-range `[s, e]` by cycling:
/// `s + frame mod (e - s + 1)`.
pub open spec fn spec_mapped_index(s: int, e: int, frame: int) -> int {
    s + frame % (e - s + 1)
}

/// The mapped index never leaves the sub-range: cycling is confined to
/// `[s, e]`.
pub proof fn lemma_mapped_index_in_range(s: int, e: int, frame: int)
    requires
        0 <= s <= e,
        0 <= frame,
    ensures
        s <= spec_mapped_index(s, e, frame) <= e,
{
    let m = e - s + 1;
    assert(0 <= frame % m < m) by (nonlinear_arith)
        requires
            m > 0,
            frame >= 0,
    ;
}

/// Advancing the frame counter by any whole number of cycles of the
/// sub-range leaves the mapped index unchanged: after `k` wrap-around
/// cycles the animation shows the same cell again.
pub proof fn lemma_mapped_index_periodic(s: int, e: int, frame: int, k: int)
    requires
        0 <= s <= e,
        0 <= frame,
        0 <= k,
    ensures
        spec_mapped_index(s, e, frame + k * (e - s + 1)) == spec_mapped_index(s, e, frame),
{
    let m = e - s + 1;
    vstd::arithmetic::div_mod::lemma_mod_multiples_vanish(k, frame, m);
}

impl Animation {
    /// The sub-range stored on the variant, if any.
    pub open spec fn spec_rect_index_range(self) -> Option<(u32, u32)> {
        match self.type_ {
            AnimationType::Loop { rect_index_range } => rect_index_range,
            AnimationType::FiniteLoop { rect_index_range, .. } => rect_index_range,
            AnimationType::Once { rect_index_range, .. } => rect_index_range,
            AnimationType::Static => None,
        }
    }

    /// The loop target of a `FiniteLoop`, if this is one.
    pub open spec fn spec_loops(self) -> Option<u32> {
        match self.type_ {
            AnimationType::FiniteLoop { loops, .. } => Some(loops),
            _ => None,
        }
    }

    /// The wrap counter of a `FiniteLoop`, if this is one.
    pub open spec fn spec_current_loop(self) -> Option<u32> {
        match self.type_ {
            AnimationType::FiniteLoop { current_loop, .. } => Some(current_loop),
            _ => None,
        }
    }

    /// The state a `FiniteLoop` or `Once` returns to, if this is either.
    pub open spec fn spec_return_state(self) -> Option<Seq<char>> {
        match self.type_ {
            AnimationType::FiniteLoop { return_state, .. } => Some(return_state@),
            AnimationType::Once { return_state, .. } => Some(return_state@),
            _ => None,
        }
    }

    /// Well-formedness: any sub-range is usable, any cell size is positive,
    /// a stepping (non-`Static`) animation has a cell size, and durations
    /// are non-negative.
    pub open spec fn wf(self) -> bool {
        &&& range_wf(self.spec_rect_index_range())
        &&& match self.rect_size {
            Some((w, h)) => 1 <= w && 1 <= h,
            None => true,
        }
        &&& !(self.type_ is Static) ==> self.rect_size is Some
        &&& 0 <= self.frame_duration
        &&& 0 <= self.current_total_duration
    }

    /// An infinitely cycling animation.
    pub fn new_loop(texture_id: &str, frame_duration: i64, rect_size: (i32, i32), rect_index_range: Option<(u32, u32)>) -> (a: Animation)
        requires
            1 <= rect_size.0,
            1 <= rect_size.1,
            0 <= frame_duration,
            range_wf(rect_index_range),
        ensures
            a.type_ == (AnimationType::Loop { rect_index_range }),
            a.texture_id@ == texture_id@,
            a.rect_size == Some(rect_size),
            a.frame_duration == frame_duration,
            a.current_total_duration == 0,
            a.current_frame == 0,
            a.wf(),
    {
        Animation {
            type_: AnimationType::Loop { rect_index_range },
            texture_id: texture_id.to_owned(),
            rect_size: Some(rect_size),
            frame_duration,
            current_frame: 0,
            current_total_duration: 0,
        }
    }

    /// An animation that cycles `loops` times, then switches the owning
    /// entity to `return_state`.
    pub fn new_finite_loop(return_state: &str, texture_id: &str, frame_duration: i64, loops: u32, rect_size: (i32, i32), rect_index_range: Option<(u32, u32)>) -> (a: Animation)
        requires
            1 <= rect_size.0,
            1 <= rect_size.1,
            0 <= frame_duration,
            range_wf(rect_index_range),
        ensures
            a.type_ matches AnimationType::FiniteLoop { loops: l, current_loop: c, return_state: rs, rect_index_range: r }
                && l == loops && c == 0 && rs@ == return_state@ && r == rect_index_range,
            a.texture_id@ == texture_id@,
            a.rect_size == Some(rect_size),
            a.frame_duration == frame_duration,
            a.current_total_duration == 0,
            a.current_frame == 0,
            a.wf(),
    {
        Animation {
            type_: AnimationType::FiniteLoop {
                loops,
                current_loop: 0,
                return_state: return_state.to_owned(),
                rect_index_range,
            },
            texture_id: texture_id.to_owned(),
            rect_size: Some(rect_size),
            frame_duration,
            current_frame: 0,
            current_total_duration: 0,
        }
    }

    /// An animation that plays one full pass, then switches the owning
    /// entity to `return_state`.
    pub fn new_once(return_state: &str, texture_id: &str, frame_duration: i64, rect_size: (i32, i32), rect_index_range: Option<(u32, u32)>) -> (a: Animation)
        requires
            1 <= rect_size.0,
            1 <= rect_size.1,
            0 <= frame_duration,
            range_wf(rect_index_range),
        ensures
            a.type_ matches AnimationType::Once { return_state: rs, rect_index_range: r }
                && rs@ == return_state@ && r == rect_index_range,
            a.texture_id@ == texture_id@,
            a.rect_size == Some(rect_size),
            a.frame_duration == frame_duration,
            a.current_total_duration == 0,
            a.current_frame == 0,
            a.wf(),
    {
        Animation {
            type_: AnimationType::Once { return_state: return_state.to_owned(), rect_index_range },
            texture_id: texture_id.to_owned(),
            rect_size: Some(rect_size),
            frame_duration,
            current_frame: 0,
            current_total_duration: 0,
        }
    }

    /// A terminal animation that never advances and samples the whole sheet.
    pub fn new_static(texture_id: &str) -> (a: Animation)
        ensures
            a.type_ is Static,
            a.texture_id@ == texture_id@,
            a.rect_size is None,
            a.frame_duration == 0,
            a.current_total_duration == 0,
            a.current_frame == 0,
            a.wf(),
    {
        Animation {
            type_: AnimationType::Static,
            texture_id: texture_id.to_owned(),
            rect_size: None,
            frame_duration: 0,
            current_frame: 0,
            current_total_duration: 0,
        }
    }

    /// A terminal animation with a fixed cell size.
    pub fn new_static_with_rect(texture_id: &str, rect_size: (i32, i32)) -> (a: Animation)
        requires
            1 <= rect_size.0,
            1 <= rect_size.1,
        ensures
            a.type_ is Static,
            a.texture_id@ == texture_id@,
            a.rect_size == Some(rect_size),
            a.frame_duration == 0,
            a.current_total_duration == 0,
            a.current_frame == 0,
            a.wf(),
    {
        Animation {
            type_: AnimationType::Static,
            texture_id: texture_id.to_owned(),
            rect_size: Some(rect_size),
            frame_duration: 0,
            current_frame: 0,
            current_total_duration: 0,
        }
    }

    pub fn set_rect_size(&mut self, rect_size: (i32, i32))
        requires
            1 <= rect_size.0,
            1 <= rect_size.1,
        ensures
            *final(self) == (Animation { rect_size: Some(rect_size), ..*old(self) }),
            old(self).wf() ==> final(self).wf(),
    {
        self.rect_size = Some(rect_size);
    }

    /// The sub-range stored after a set: the pair ordered ascending, so a
    /// reversed request such as `(10, 4)` is stored as `(4, 10)`.
    pub open spec fn spec_ordered_range(r: (u32, u32)) -> (u32, u32) {
        if r.0 < r.1 {
            r
        } else {
            (r.1, r.0)
        }
    }

    /// Replaces the sub-range on a cycling variant; ordered ascending.
    /// On a `Static` animation this has no effect.
    pub fn set_rect_index_range(&mut self, rect_index_range: (u32, u32))
        requires
            rect_index_range.0 <= rect_index_range.1
                ==> rect_index_range.1 - rect_index_range.0 < u32::MAX,
            rect_index_range.1 <= rect_index_range.0
                ==> rect_index_range.0 - rect_index_range.1 < u32::MAX,
        ensures
            final(self).spec_rect_index_range() == if old(self).type_ is Static {
                old(self).spec_rect_index_range()
            } else {
                Some(Self::spec_ordered_range(rect_index_range))
            },
            final(self).texture_id == old(self).texture_id,
            final(self).rect_size == old(self).rect_size,
            final(self).frame_duration == old(self).frame_duration,
            final(self).current_total_duration == old(self).current_total_duration,
            final(self).current_frame == old(self).current_frame,
            final(self).type_ is Static <==> old(self).type_ is Static,
            final(self).type_ is Loop <==> old(self).type_ is Loop,
            final(self).spec_loops() == old(self).spec_loops(),
            final(self).spec_current_loop() == old(self).spec_current_loop(),
            final(self).spec_return_state() == old(self).spec_return_state(),
            old(self).wf() ==> final(self).wf(),
    {
        let correct_range = rect_index_range.0 < rect_index_range.1;
        let corrected_range = if correct_range {
            Some(rect_index_range)
        } else {
            Some((rect_index_range.1, rect_index_range.0))
        };

        match &mut self.type_ {
            AnimationType::Loop { rect_index_range } => {
                *rect_index_range = corrected_range;
            },
            AnimationType::FiniteLoop { rect_index_range, .. } => {
                *rect_index_range = corrected_range;
            },
            AnimationType::Once { rect_index_range, .. } => {
                *rect_index_range = corrected_range;
            },
            _ => {},
        }
    }

    fn get_rect_index_range(&self) -> (r: Option<(u32, u32)>)
        ensures
            r == self.spec_rect_index_range(),
    {
        match &self.type_ {
            AnimationType::Loop { rect_index_range } => *rect_index_range,
            AnimationType::FiniteLoop { rect_index_range, .. } => *rect_index_range,
            AnimationType::Once { rect_index_range, .. } => *rect_index_range,
            _ => None,
        }
    }

    /// Cycles a frame counter into the sub-range, or `None` when the
    /// animation has no sub-range.
    pub fn frame_index_mod(&self, frame_index: u32) -> (r: Option<u32>)
        requires
            range_wf(self.spec_rect_index_range()),
        ensures
            r == match self.spec_rect_index_range() {
                Some((s, e)) => Some(spec_mapped_index(s as int, e as int, frame_index as int) as u32),
                None => None::<u32>,
            },
    {
        if self.get_rect_index_range().is_none() {
            return None;
        }
        let (start, end) = self.get_rect_index_range().unwrap();
        proof {
            lemma_mapped_index_in_range(start as int, end as int, frame_index as int);
        }
        Some(start + frame_index % (end - start + 1))
    }

    pub fn increment_duration(&mut self, duration: i64)
        requires
            0 <= duration,
            old(self).current_total_duration + duration <= i64::MAX,
        ensures
            *final(self) == (Animation {
                current_total_duration: (old(self).current_total_duration + duration) as i64,
                ..*old(self)
            }),
            old(self).wf() ==> final(self).wf(),
    {
        self.current_total_duration = self.current_total_duration + duration;
    }

    pub fn reset_duration(&mut self)
        ensures
            *final(self) == (Animation { current_total_duration: 0, ..*old(self) }),
            old(self).wf() ==> final(self).wf(),
    {
        self.current_total_duration = 0;
    }

    /// The accumulator has reached the per-frame duration, so a frame
    /// advance is due.
    pub open spec fn spec_frame_due(self) -> bool {
        self.current_total_duration >= self.frame_duration
    }

    pub fn time_to_next_frame(&self) -> (due: bool)
        ensures
            due == self.spec_frame_due(),
    {
        self.current_total_duration >= self.frame_duration
    }

    /// The animation's cell size divides the sheet into this many cells per
    /// row and per column (integer division).
    pub open spec fn spec_grid(self, tex: (u32, u32)) -> (int, int) {
        match self.rect_size {
            Some((w, h)) => (tex.0 as int / w as int, tex.1 as int / h as int),
            None => (0, 0),
        }
    }

    /// Total cell capacity of the sheet for this animation's cell size.
    pub open spec fn spec_cell_count(self, tex: (u32, u32)) -> int {
        self.spec_grid(tex).0 * self.spec_grid(tex).1
    }

    /// The cell size fits inside the sheet on both axes, so the grid has at
    /// least one cell per row and per column.
    pub open spec fn spec_sheet_fits(self, tex: (u32, u32)) -> bool {
        match self.rect_size {
            Some((w, h)) => w as int <= tex.0 as int && h as int <= tex.1 as int,
            None => false,
        }
    }

    /// The frame counter and wrap report after one frame advance: past the
    /// last valid index the counter resets to zero and the advance reports a
    /// wrap, otherwise it increments.
    pub open spec fn spec_step_frame(self, tex: (u32, u32)) -> (u32, bool) {
        match self.spec_rect_index_range() {
            Some((s, e)) => if self.current_frame > e - s {
                (0u32, true)
            } else {
                ((self.current_frame + 1) as u32, false)
            },
            None => if self.current_frame as int >= self.spec_cell_count(tex) - 1 {
                (0u32, true)
            } else {
                ((self.current_frame + 1) as u32, false)
            },
        }
    }

    /// Advances the frame counter; reports `true` exactly when the counter
    /// wrapped back to zero.
    pub fn safe_increment_frame(&mut self, texture_size: (u32, u32)) -> (wrapped: bool)
        requires
            old(self).wf(),
            old(self).spec_rect_index_range() is None ==> tex_wf(texture_size)
                && old(self).spec_sheet_fits(texture_size),
        ensures
            *final(self) == (Animation {
                current_frame: old(self).spec_step_frame(texture_size).0,
                ..*old(self)
            }),
            wrapped == old(self).spec_step_frame(texture_size).1,
            final(self).wf(),
    {
        if let Some((start, end)) = self.get_rect_index_range() {
            if self.current_frame > end - start {
                self.current_frame = 0;
                true
            } else {
                self.current_frame = self.current_frame + 1;
                false
            }
        } else {
            let rect = self.rect_size.unwrap();
            let (rect_width, rect_height) = rect;
            let (texture_width, texture_height) = texture_size;
            let rects_per_row = texture_width as i32 / rect_width;
            let rects_per_column = texture_height as i32 / rect_height;
            proof {
                lemma_grid_bounds(rect_width as int, rect_height as int, texture_width as int, texture_height as int);
                assert(1 <= (rects_per_row as int) * (rects_per_column as int)) by (nonlinear_arith)
                    requires
                        1 <= rects_per_row,
                        1 <= rects_per_column,
                ;
            }
            if self.current_frame >= (rects_per_row * rects_per_column - 1) as u32 {
                self.current_frame = 0;
                true
            } else {
                self.current_frame = self.current_frame + 1;
                false
            }
        }
    }

    /// Advances the frame counter without a wrap check.
    pub fn increment_frame(&mut self)
        requires
            old(self).current_frame < u32::MAX,
        ensures
            *final(self) == (Animation {
                current_frame: (old(self).current_frame + 1) as u32,
                ..*old(self)
            }),
            old(self).wf() ==> final(self).wf(),
    {
        self.current_frame = self.current_frame + 1;
    }

    /// Advances the wrap counter of a `FiniteLoop`; no effect on any other
    /// variant. The counter never decreases.
    pub fn increment_loop(&mut self)
        requires
            old(self).spec_current_loop() matches Some(c) ==> c < u32::MAX,
        ensures
            old(self).type_ matches AnimationType::FiniteLoop {
                loops,
                current_loop,
                return_state,
                rect_index_range,
            } ==> *final(self) == (Animation {
                type_: AnimationType::FiniteLoop {
                    loops,
                    current_loop: (current_loop + 1) as u32,
                    return_state,
                    rect_index_range,
                },
                ..*old(self)
            }),
            !(old(self).type_ is FiniteLoop) ==> *final(self) == *old(self),
            old(self).wf() ==> final(self).wf(),
    {
        match &mut self.type_ {
            AnimationType::FiniteLoop { current_loop, .. } => {
                *current_loop = *current_loop + 1;
            },
            _ => {},
        }
    }

    /// The source rectangle for a frame counter: raster order over the
    /// sheet's grid, after mapping the counter through the sub-range when
    /// one is set. `None` when no cell size is set, or when the sub-range is
    /// degenerate or beyond the sheet's capacity.
    pub open spec fn spec_rect_at(self, frame: int, tex: (u32, u32)) -> Option<PixelRect> {
        match self.rect_size {
            None => None,
            Some((rw, rh)) => {
                let pr = tex.0 as int / rw as int;
                let pc = tex.1 as int / rh as int;
                match self.spec_rect_index_range() {
                    None => Some(
                        PixelRect {
                            left: ((frame % pr) * rw) as i32,
                            top: ((frame / pr) * rh) as i32,
                            width: rw,
                            height: rh,
                        },
                    ),
                    Some((s, e)) => if s >= e || e as int >= pr * pc {
                        None
                    } else {
                        let idx = spec_mapped_index(s as int, e as int, frame);
                        Some(
                            PixelRect {
                                left: ((idx % pr) * rw) as i32,
                                top: ((idx / pr) * rh) as i32,
                                width: rw,
                                height: rh,
                            },
                        )
                    },
                }
            },
        }
    }

    /// The preconditions under which a frame's rectangle is computed: a
    /// sane sheet, and — when the whole sheet is sampled without a
    /// sub-range — a cell size that fits it and a counter within its
    /// capacity.
    pub open spec fn rect_at_req(self, frame: int, tex: (u32, u32)) -> bool {
        &&& self.wf()
        &&& tex_wf(tex)
        &&& (self.rect_size is Some && self.spec_rect_index_range() is None) ==> (
            self.spec_sheet_fits(tex) && frame < self.spec_cell_count(tex))
    }

    fn get_rect(&self, frame_index: u32, texture_size: (u32, u32)) -> (r: Option<PixelRect>)
        requires
            self.rect_at_req(frame_index as int, texture_size),
        ensures
            r == self.spec_rect_at(frame_index as int, texture_size),
            r matches Some(rect) ==> 0 <= rect.left && rect.left + rect.width <= texture_size.0
                && 0 <= rect.top && rect.top + rect.height <= texture_size.1
                && 1 <= rect.width && 1 <= rect.height,
    {
        if self.rect_size.is_none() {
            return None;
        }

        let rect_size = self.rect_size.unwrap();
        let (rect_width, rect_height) = rect_size;
        let (texture_width, texture_height) = (texture_size.0 as i32, texture_size.1 as i32);
        let rects_per_row = texture_width / rect_width;
        let rects_per_column = texture_height / rect_height;

        if self.get_rect_index_range().is_none() {
            proof {
                lemma_grid_bounds(rect_width as int, rect_height as int, texture_width as int, texture_height as int);
                lemma_raster_cell(rects_per_row as int, rects_per_column as int, rect_width as int, rect_height as int, texture_width as int, texture_height as int, frame_index as int);
            }
            let frame_index = frame_index as i32;
            let left = (frame_index % rects_per_row) * rect_width;
            let top = (frame_index / rects_per_row) * rect_height;
            Some(PixelRect { left, top, width: rect_width, height: rect_height })
        } else {
            let (start, end) = self.get_rect_index_range().unwrap();
            proof {
                lemma_grid_bounds(rect_width as int, rect_height as int, texture_width as int, texture_height as int);
            }
            if start >= end || end >= (rects_per_row * rects_per_column) as u32 {
                return None;
            }

            let rect_index = self.frame_index_mod(frame_index).unwrap() as i32;
            proof {
                lemma_mapped_index_in_range(start as int, end as int, frame_index as int);
                lemma_raster_cell(rects_per_row as int, rects_per_column as int, rect_width as int, rect_height as int, texture_width as int, texture_height as int, rect_index as int);
            }
            let left = (rect_index % rects_per_row) * rect_width;
            let top = (rect_index / rects_per_row) * rect_height;
            Some(PixelRect { left, top, width: rect_width, height: rect_height })
        }
    }

    /// The source rectangle for the current frame.
    pub fn get_current_rect(&self, texture_size: (u32, u32)) -> (r: Option<PixelRect>)
        requires
            self.rect_at_req(self.current_frame as int, texture_size),
        ensures
            r == self.spec_rect_at(self.current_frame as int, texture_size),
            r matches Some(rect) ==> 0 <= rect.left && rect.left + rect.width <= texture_size.0
                && 0 <= rect.top && rect.top + rect.height <= texture_size.1
                && 1 <= rect.width && 1 <= rect.height,
    {
        self.get_rect(self.current_frame, texture_size)
    }

    /// The current frame's rectangle after the entity's flip flags.
    pub open spec fn spec_current_rect_flipped(self, tex: (u32, u32), flip_x: bool, flip_y: bool) -> Option<PixelRect> {
        match self.spec_rect_at(self.current_frame as int, tex) {
            None => None,
            Some(rect) => Some(spec_flip_rect(rect, flip_x, flip_y)),
        }
    }

    /// The source rectangle for the current frame, mirrored by the flip
    /// flags.
    pub fn get_current_rect_flipped(&self, texture_size: (u32, u32), flip_x: bool, flip_y: bool) -> (r: Option<PixelRect>)
        requires
            self.rect_at_req(self.current_frame as int, texture_size),
        ensures
            r == self.spec_current_rect_flipped(texture_size, flip_x, flip_y),
            r matches Some(rect) ==> -(texture_size.0 as int) <= rect.left <= texture_size.0
                && -(texture_size.0 as int) <= rect.width <= texture_size.0
                && -(texture_size.1 as int) <= rect.top <= texture_size.1
                && -(texture_size.1 as int) <= rect.height <= texture_size.1,
    {
        let rect = self.get_current_rect(texture_size);
        if rect.is_none() {
            return None;
        }
        Some(flip_rect(rect.unwrap(), flip_x, flip_y))
    }
}

/// Texture dimensions that the grid arithmetic accepts: each axis and the
/// total pixel area fit in `i32`.
pub open spec fn tex_wf(tex: (u32, u32)) -> bool {
    &&& tex.0 <= 0x7fff_ffff
    &&& tex.1 <= 0x7fff_ffff
    &&& (tex.0 as int) * (tex.1 as int) <= 0x7fff_ffff
}

/// For positive cell sizes within an `i32`-sized sheet, the grid dimensions
/// are bounded by the sheet's axes and their product by its area.
proof fn lemma_grid_bounds(rw: int, rh: int, tw: int, th: int)
    requires
        1 <= rw,
        1 <= rh,
        0 <= tw,
        0 <= th,
        tw * th <= 0x7fff_ffff,
    ensures
        0 <= tw / rw <= tw,
        0 <= th / rh <= th,
        (tw / rw) * (th / rh) <= tw * th,
        (tw / rw) * rw <= tw,
        (th / rh) * rh <= th,
        rw <= tw ==> 1 <= tw / rw,
        rh <= th ==> 1 <= th / rh,
{
    assert(rw <= tw ==> 1 <= tw / rw) by (nonlinear_arith)
        requires
            1 <= rw,
            0 <= tw,
    ;
    assert(rh <= th ==> 1 <= th / rh) by (nonlinear_arith)
        requires
            1 <= rh,
            0 <= th,
    ;
    assert(0 <= tw / rw <= tw && (tw / rw) * rw <= tw) by (nonlinear_arith)
        requires
            1 <= rw,
            0 <= tw,
    ;
    assert(0 <= th / rh <= th && (th / rh) * rh <= th) by (nonlinear_arith)
        requires
            1 <= rh,
            0 <= th,
    ;
    assert((tw / rw) * (th / rh) <= tw * th) by (nonlinear_arith)
        requires
            0 <= tw / rw <= tw,
            0 <= th / rh <= th,
    ;
}

/// A cell index below the grid's capacity lands inside the sheet when
/// mapped to raster coordinates.
proof fn lemma_raster_cell(pr: int, pc: int, rw: int, rh: int, tw: int, th: int, idx: int)
    requires
        1 <= rw,
        1 <= rh,
        0 <= tw,
        0 <= th,
        pr == tw / rw,
        pc == th / rh,
        pr * rw <= tw,
        pc * rh <= th,
        0 <= idx < pr * pc,
    ensures
        1 <= pr,
        0 <= idx % pr <= pr - 1,
        0 <= idx / pr <= pc - 1,
        0 <= (idx % pr) * rw <= tw - rw,
        0 <= (idx / pr) * rh <= th - rh,
{
    assert(0 <= pr) by (nonlinear_arith)
        requires
            pr == tw / rw,
            1 <= rw,
            0 <= tw,
    ;
    assert(0 <= pc) by (nonlinear_arith)
        requires
            pc == th / rh,
            1 <= rh,
            0 <= th,
    ;
    assert(1 <= pr && 1 <= pc) by (nonlinear_arith)
        requires
            0 <= pr,
            0 <= pc,
            0 <= idx < pr * pc,
    ;
    assert(0 <= idx % pr <= pr - 1) by (nonlinear_arith)
        requires
            1 <= pr,
            0 <= idx,
    ;
    assert(0 <= idx / pr <= pc - 1) by (nonlinear_arith)
        requires
            1 <= pr,
            1 <= pc,
            0 <= idx < pr * pc,
    ;
    assert((idx % pr) * rw <= (pr - 1) * rw) by (nonlinear_arith)
        requires
            1 <= rw,
            0 <= idx % pr <= pr - 1,
    ;
    assert((pr - 1) * rw == pr * rw - rw) by (nonlinear_arith);
    assert((idx / pr) * rh <= (pc - 1) * rh) by (nonlinear_arith)
        requires
            1 <= rh,
            0 <= idx / pr <= pc - 1,
    ;
    assert((pc - 1) * rh == pc * rh - rh) by (nonlinear_arith);
    assert(0 <= (idx % pr) * rw) by (nonlinear_arith)
        requires
            0 <= idx % pr,
            1 <= rw,
    ;
    assert(0 <= (idx / pr) * rh) by (nonlinear_arith)
        requires
            0 <= idx / pr,
            1 <= rh,
    ;
}

} // verus!
