//! Pure 2D canvas layout primitive.
//!
//! A [`CanvasSpace`] has no column structure: every tile has an independent position and the camera
//! pans on both axes. The host owns what is drawn and the clock; it hands in what it measured and
//! carries out what it is told.

use crate::camera::{Animation, AnimationSample, AxisCamera};
use crate::float::Float;
use crate::focus::{
    focus_target, is_focus_target, law_focus_target_is_unique, SpatialDirection,
};
use crate::geometry::{Point, Rectangle, Size, WindowSize};
use crate::overview::{bounds, bounds_of, fit, fit_of};
use crate::sizing::{change_side, ensure_min_max_size, to_whole_pixels, SizeChange};
use crate::state::{
    downward, dragged_side, first, hit_point, holds, is_first, leftward, rightward, screen_base,
    still_running, upward, CanvasView, CloseAnimation, ClosingWindow, InteractiveResize,
    OverviewFit, RenderCommand, ResizeEdge, TileUpdate, TransactionBlocker, DIRECTIONAL_MOVE_PX,
};
use crate::tile::{LayoutElement, Options, Tile, TileMeasures, TileRenderSnapshot};
use vstd::prelude::*;

verus! {

/// A 2D canvas populated by free-placement tiles.
#[derive(Debug)]
pub struct CanvasSpace<W> {
    /// Tiles on this canvas, in the order in which they were added.
    tiles: Vec<Tile<W>>,
    /// Id of the active tile, if any.
    active_id: Option<u64>,
    /// Horizontal camera position: the canvas-space X of the viewport's left edge.
    view_offset_x: AxisCamera,
    /// Vertical camera position: the canvas-space Y of the viewport's top edge.
    view_offset_y: AxisCamera,
    /// View size for this space.
    view_size: Size,
    /// Working area: the view minus what is reserved at its edges.
    working_area: Rectangle,
    /// Output scale for physical-pixel rounding.
    scale: Float,
    /// Windows that are gone but whose close animation is still running.
    closing_windows: Vec<ClosingWindow>,
    /// Active interactive resize, if any.
    interactive_resize: Option<InteractiveResize>,
    /// Configurable properties.
    options: Options,
}

impl<W> View for CanvasSpace<W> {
    type V = CanvasView<W>;

    closed spec fn view(&self) -> CanvasView<W> {
        CanvasView {
            tiles: self.tiles@,
            active_id: self.active_id,
            view_offset_x: self.view_offset_x,
            view_offset_y: self.view_offset_y,
            view_size: self.view_size,
            working_area: self.working_area,
            scale: self.scale,
            closing_windows: self.closing_windows@,
            interactive_resize: self.interactive_resize,
            options: self.options,
        }
    }
}

/// Where the first tile with the window `id` stands.
fn position<W: LayoutElement>(tiles: &Vec<Tile<W>>, id: u64) -> (r: Option<usize>)
    ensures
        match r {
            Some(i) => {
                &&& holds(tiles@, id)
                &&& is_first(tiles@, id, i as int)
                &&& i == first(tiles@, id)
            },
            None => !holds(tiles@, id),
        },
{
    let mut i: usize = 0;
    while i < tiles.len()
        invariant
            i <= tiles.len(),
            forall|j: int| 0 <= j < i ==> (#[trigger] tiles@[j]).id() != id,
        decreases tiles.len() - i,
    {
        if tiles[i].window.id() == id {
            assert(is_first(tiles@, id, i as int));
            assert(is_first(tiles@, id, first(tiles@, id)));
            return Some(i);
        }
        i = i + 1;
    }
    None
}

impl<W: LayoutElement> CanvasSpace<W> {
    pub fn new(
        view_size: Size,
        working_area: Rectangle,
        scale: Float,
        options: Options,
    ) -> (r: Self)
        ensures
            r@ == CanvasView::<W>::empty(view_size, working_area, scale, options),
    {
        CanvasSpace {
            tiles: Vec::new(),
            active_id: None,
            view_offset_x: AxisCamera::Static(Float::from_i32(0)),
            view_offset_y: AxisCamera::Static(Float::from_i32(0)),
            view_size,
            working_area,
            scale,
            closing_windows: Vec::new(),
            interactive_resize: None,
            options,
        }
    }

    pub fn update_config(
        &mut self,
        view_size: Size,
        working_area: Rectangle,
        scale: Float,
        options: Options,
    )
        ensures
            final(self)@ == old(self)@.configured(view_size, working_area, scale, options),
    {
        let ghost before = self.tiles@;
        let ghost rest = self@;
        let mut i: usize = 0;
        while i < self.tiles.len()
            invariant
                i <= self.tiles.len() == before.len(),
                self@ == (CanvasView { tiles: self.tiles@, ..rest }),
                forall|j: int|
                    0 <= j < i ==> #[trigger] self.tiles@[j] == (Tile {
                        view_size,
                        scale,
                        options,
                        ..before[j]
                    }),
                forall|j: int| i <= j < before.len() ==> #[trigger] self.tiles@[j] == before[j],
            decreases self.tiles.len() - i,
        {
            self.tiles[i].update_config(view_size, scale, options);
            i = i + 1;
        }
        self.view_size = view_size;
        self.working_area = working_area;
        self.scale = scale;
        self.options = options;
    }

    pub fn is_empty(&self) -> (r: bool)
        ensures
            r == (self@.tiles.len() == 0),
    {
        self.tiles.len() == 0
    }

    pub fn len(&self) -> (r: usize)
        ensures
            r == self@.tiles.len(),
    {
        self.tiles.len()
    }

    /// Append `tile` to the canvas at `canvas_pos`, activating it.
    pub fn add_tile(&mut self, tile: Tile<W>, canvas_pos: Point)
        ensures
            final(self)@ == old(self)@.added(tile, canvas_pos),
    {
        let mut tile = tile;
        tile.canvas_pos = canvas_pos;
        self.active_id = Some(tile.window.id());
        self.tiles.push(tile);
    }

    /// Remove the tile with the given id. Returns the tile on success.
    pub fn remove_tile(&mut self, id: u64) -> (r: Option<Tile<W>>)
        ensures
            final(self)@ == old(self)@.removed(id),
            match r {
                Some(tile) => old(self)@.holds(id) && tile == old(self)@.tiles[first(
                    old(self)@.tiles,
                    id,
                )],
                None => !old(self)@.holds(id),
            },
    {
        let idx = match position(&self.tiles, id) {
            Some(idx) => idx,
            None => return None,
        };
        let tile = self.tiles.remove(idx);
        if let Some(active) = self.active_id {
            if active == id {
                self.active_id = if self.tiles.len() > 0 {
                    Some(self.tiles[0].window.id())
                } else {
                    None
                };
            }
        }
        Some(tile)
    }

    /// The tiles, in the order in which they were added.
    pub fn tiles(&self) -> (r: &[Tile<W>])
        ensures
            r@ == self@.tiles,
    {
        self.tiles.as_slice()
    }

    /// The tiles, to be changed in place.
    pub fn tiles_mut(&mut self) -> (r: &mut [Tile<W>])
        ensures
            r@ == old(self)@.tiles,
            final(self)@ == (CanvasView { tiles: final(r)@, ..old(self)@ }),
    {
        self.tiles.as_mut_slice()
    }

    pub fn active_window(&self) -> (r: Option<&W>)
        ensures
            match r {
                Some(window) => self@.active() matches Some(i) && *window == self@.tiles[i].window,
                None => self@.active() is None,
            },
    {
        match self.active_id {
            Some(id) => match position(&self.tiles, id) {
                Some(idx) => Some(&self.tiles[idx].window),
                None => None,
            },
            None => None,
        }
    }

    pub fn active_window_mut(&mut self) -> (r: Option<&mut W>)
        ensures
            match r {
                Some(window) => old(self)@.active() matches Some(i) && {
                    &&& *window == old(self)@.tiles[i].window
                    &&& final(self)@ == old(self)@.with_window(i, *final(window))
                },
                None => old(self)@.active() is None && final(self)@ == old(self)@,
            },
    {
        match self.active_id {
            Some(id) => match position(&self.tiles, id) {
                Some(idx) => Some(&mut self.tiles[idx].window),
                None => None,
            },
            None => None,
        }
    }

    pub fn active_window_id(&self) -> (r: Option<u64>)
        ensures
            r == self@.active_id,
    {
        self.active_id
    }

    /// Activate the tile with the given id. Returns true if the id matched a tile.
    pub fn activate_window(&mut self, id: u64) -> (r: bool)
        ensures
            r == old(self)@.holds(id),
            final(self)@ == old(self)@.activated(id),
    {
        match position(&self.tiles, id) {
            Some(_) => {
                self.active_id = Some(id);
                true
            },
            None => false,
        }
    }

    /// Move the tile identified by `id` to the given canvas position. No-op if not found.
    pub fn move_tile_to(&mut self, id: u64, canvas_pos: Point) -> (r: bool)
        ensures
            r == old(self)@.holds(id),
            final(self)@ == old(self)@.moved(id, canvas_pos),
    {
        match position(&self.tiles, id) {
            Some(idx) => {
                self.tiles[idx].canvas_pos = canvas_pos;
                true
            },
            None => false,
        }
    }

    /// Does this canvas contain the window id?
    pub fn has_window(&self, id: u64) -> (r: bool)
        ensures
            r == self@.holds(id),
    {
        position(&self.tiles, id).is_some()
    }

    /// Alias of [`CanvasSpace::has_window`].
    pub fn contains(&self, id: u64) -> (r: bool)
        ensures
            r == self@.holds(id),
    {
        self.has_window(id)
    }

    /// Activate a tile without any z-ordering side effects. Returns true if the id matched.
    ///
    /// There is no z-order, so this is [`CanvasSpace::activate_window`] by another name.
    pub fn activate_window_without_raising(&mut self, id: u64) -> (r: bool)
        ensures
            r == old(self)@.holds(id),
            final(self)@ == old(self)@.activated(id),
    {
        self.activate_window(id)
    }

    /// Propagate a window's latest state into its tile: pass the commit of `serial` on to the
    /// window, then take over what `measure` finds of its tile. Returns true if the id matched.
    ///
    /// In a canvas each tile lives on its own position, so nothing ripples to neighbors.
    pub fn update_window<F: FnOnce(&W) -> TileMeasures>(
        &mut self,
        id: u64,
        serial: Option<u32>,
        measure: F,
    ) -> (r: bool)
        requires
            forall|window: &W| #[trigger] call_requires(measure, (window,)),
        ensures
            r == old(self)@.holds(id),
            r ==> {
                let i = first(old(self)@.tiles, id);
                let window = final(self)@.tiles[i].window;
                &&& old(self)@.committed(i, serial, window)
                &&& exists|measures: TileMeasures|
                    call_ensures(measure, (&window,), measures) && final(self)@
                        == #[trigger] old(self)@.updated(i, window, measures)
            },
            !r ==> final(self)@ == old(self)@,
    {
        match position(&self.tiles, id) {
            Some(idx) => {
                if let Some(serial) = serial {
                    self.tiles[idx].window.on_commit(serial);
                }
                let measures = measure(&self.tiles[idx].window);
                self.tiles[idx].measure(measures);
                assert(self@ == old(self)@.updated(
                    idx as int,
                    self@.tiles[idx as int].window,
                    measures,
                ));
                true
            },
            None => false,
        }
    }
}

impl<W: LayoutElement> CanvasSpace<W> {
    // --- drawing ---

    /// What to draw, front to back: closing windows, then every tile at its camera-offset
    /// position.
    ///
    /// With an `overview` the tiles are placed by its synthetic view and scaled. Closing windows
    /// are left out there: their positions were fixed under the camera.
    pub fn render(&self, focus_ring: bool, overview: Option<OverviewFit>) -> (r: Vec<RenderCommand>)
        ensures
            r@ == self@.render_plan(focus_ring, overview),
    {
        let mut commands: Vec<RenderCommand> = Vec::new();
        let view_rect = Rectangle {
            loc: Point { x: Float::from_i32(0), y: Float::from_i32(0) },
            size: self.view_size,
        };
        let count: usize = if overview.is_none() {
            self.closing_windows.len()
        } else {
            0
        };
        let mut left: usize = count;
        while left > 0
            invariant
                left <= count,
                view_rect == self@.view_rect(),
                commands@ =~= Seq::new(
                    (count - left) as nat,
                    |k: int|
                        RenderCommand::ClosingWindow { index: (count - 1 - k) as usize, view_rect },
                ),
            decreases left,
        {
            left = left - 1;
            commands.push(RenderCommand::ClosingWindow { index: left, view_rect });
        }
        let ghost closing = commands@;
        let view_pos = self.view_pos();
        let mut i: usize = 0;
        while i < self.tiles.len()
            invariant
                i <= self.tiles.len(),
                view_pos == self@.view_pos(),
                commands@ =~= closing + Seq::new(
                    i as nat,
                    |j: int| self@.tile_command(focus_ring, overview, j),
                ),
            decreases self.tiles.len() - i,
        {
            let tile = &self.tiles[i];
            let is_active = self.holds_active(i);
            match overview {
                None => {
                    let pos = Self::canvas_to_screen_base(tile.canvas_pos, view_pos).add(
                        tile.render_offset,
                    ).snap(self.scale);
                    commands.push(
                        RenderCommand::Tile {
                            index: i,
                            pos,
                            focus_ring: focus_ring && is_active,
                        },
                    );
                },
                Some(fit) => {
                    let base = Self::canvas_to_screen_base(tile.canvas_pos, fit.view_pos).add(
                        tile.render_offset,
                    );
                    let pos = base.upscale(fit.scale).snap(self.scale);
                    commands.push(
                        RenderCommand::TileScaled {
                            index: i,
                            pos,
                            focus_ring: focus_ring && is_active,
                            anchor: pos.to_physical(self.scale),
                            scale: fit.scale,
                        },
                    );
                },
            }
            i = i + 1;
        }
        commands
    }

    /// Whether the tile at `i` holds the active window.
    fn holds_active(&self, i: usize) -> (r: bool)
        requires
            i < self@.tiles.len(),
        ensures
            r == self@.is_active(i as int),
    {
        match self.active_id {
            Some(id) => id == self.tiles[i].window.id(),
            None => false,
        }
    }

    /// Transform a canvas-space point into static screen-space (no per-tile animation offsets).
    pub fn canvas_to_screen_base(canvas: Point, view_pos: Point) -> (r: Point)
        ensures
            r == screen_base(canvas, view_pos),
    {
        canvas.sub(view_pos)
    }

    /// The tiles with their canonical canvas positions (stable under camera and animations).
    pub fn tiles_with_canvas_positions(&self) -> (r: Vec<(&Tile<W>, Point)>)
        ensures
            r.len() == self@.tiles.len(),
            forall|i: int|
                0 <= i < r.len() ==> *(#[trigger] r@[i]).0 == self@.tiles[i] && r@[i].1
                    == self@.tiles[i].canvas_pos,
    {
        let mut r: Vec<(&Tile<W>, Point)> = Vec::new();
        let mut i: usize = 0;
        while i < self.tiles.len()
            invariant
                i <= self.tiles.len(),
                r.len() == i,
                forall|j: int|
                    0 <= j < i ==> *(#[trigger] r@[j]).0 == self@.tiles[j] && r@[j].1
                        == self@.tiles[j].canvas_pos,
            decreases self.tiles.len() - i,
        {
            let tile = &self.tiles[i];
            r.push((tile, tile.canvas_pos));
            i = i + 1;
        }
        r
    }

    /// The tiles with their screen-space positions: canvas position minus camera, then rounded.
    pub fn tiles_with_render_positions(&self) -> (r: Vec<(&Tile<W>, Point)>)
        ensures
            r.len() == self@.tiles.len(),
            forall|i: int|
                0 <= i < r.len() ==> *(#[trigger] r@[i]).0 == self@.tiles[i] && r@[i].1
                    == self@.render_position(i),
    {
        let positions = self.render_positions(true);
        let mut r: Vec<(&Tile<W>, Point)> = Vec::new();
        let mut i: usize = 0;
        while i < self.tiles.len()
            invariant
                i <= self.tiles.len() == positions.len(),
                forall|j: int|
                    0 <= j < positions.len() ==> #[trigger] positions@[j] == self@.render_position(
                        j,
                    ),
                r.len() == i,
                forall|j: int|
                    0 <= j < i ==> *(#[trigger] r@[j]).0 == self@.tiles[j] && r@[j].1
                        == self@.render_position(j),
            decreases self.tiles.len() - i,
        {
            r.push((&self.tiles[i], positions[i]));
            i = i + 1;
        }
        r
    }

    /// The screen-space position of every tile, on a pixel if `round` says so.
    fn render_positions(&self, round: bool) -> (r: Vec<Point>)
        ensures
            r.len() == self@.tiles.len(),
            forall|i: int|
                0 <= i < r.len() ==> #[trigger] r@[i] == if round {
                    self@.render_position(i)
                } else {
                    self@.raw_position(i)
                },
    {
        let view_pos = self.view_pos();
        let mut r: Vec<Point> = Vec::new();
        let mut i: usize = 0;
        while i < self.tiles.len()
            invariant
                i <= self.tiles.len(),
                view_pos == self@.view_pos(),
                r.len() == i,
                forall|j: int|
                    0 <= j < i ==> #[trigger] r@[j] == if round {
                        self@.render_position(j)
                    } else {
                        self@.raw_position(j)
                    },
            decreases self.tiles.len() - i,
        {
            let tile = &self.tiles[i];
            let pos = Self::canvas_to_screen_base(tile.canvas_pos, view_pos).add(
                tile.render_offset,
            );
            r.push(
                if round {
                    pos.snap(self.scale)
                } else {
                    pos
                },
            );
            i = i + 1;
        }
        r
    }

    /// Mutable variant of [`CanvasSpace::tiles_with_render_positions`]: the tiles to be changed in
    /// place, and the position of each.
    ///
    /// `round` controls whether the positions are snapped to physical pixels. Callers that already
    /// round separately pass `false` to avoid double-rounding.
    pub fn tiles_with_render_positions_mut(
        &mut self,
        round: bool,
    ) -> (r: (&mut [Tile<W>], Vec<Point>))
        ensures
            r.0@ == old(self)@.tiles,
            final(self)@ == (CanvasView { tiles: final(r.0)@, ..old(self)@ }),
            r.1.len() == old(self)@.tiles.len(),
            forall|i: int|
                0 <= i < r.1.len() ==> #[trigger] r.1@[i] == if round {
                    old(self)@.render_position(i)
                } else {
                    old(self)@.raw_position(i)
                },
    {
        let positions = self.render_positions(round);
        (self.tiles.as_mut_slice(), positions)
    }

    /// What each tile is told before it is drawn: whether it is the active one, and where the view
    /// is relative to it.
    pub fn update_render_elements(&self, is_active: bool) -> (r: Vec<TileUpdate>)
        ensures
            r@ == Seq::new(self@.tiles.len(), |i: int| self@.tile_update(is_active, i)),
    {
        let view_pos = self.view_pos();
        let mut updates: Vec<TileUpdate> = Vec::new();
        let mut i: usize = 0;
        while i < self.tiles.len()
            invariant
                i <= self.tiles.len(),
                view_pos == self@.view_pos(),
                updates@ =~= Seq::new(i as nat, |j: int| self@.tile_update(is_active, j)),
            decreases self.tiles.len() - i,
        {
            let tile_active = is_active && self.holds_active(i);
            let view_rect = Rectangle {
                loc: view_pos.sub(self.tiles[i].canvas_pos),
                size: self.view_size,
            };
            updates.push(TileUpdate { is_active: tile_active, view_rect });
            i = i + 1;
        }
        updates
    }

    /// Hit-test the canvas at the given logical screen-space point.
    ///
    /// Tries tiles in reverse insertion order, so later-added tiles come first. `hit_tile` says
    /// what, if anything, of a tile drawn at a position is under a point. With an `overview` the
    /// tile is tested where it is drawn there: its position on the pixels and the point are both
    /// scaled back into the un-scaled synthetic view.
    pub fn window_under<H, F: Fn(&Tile<W>, Point, Point) -> Option<H>>(
        &self,
        point: Point,
        overview: Option<OverviewFit>,
        hit_tile: F,
    ) -> (r: Option<(&W, H)>)
        requires
            forall|tile: &Tile<W>, pos: Point, at: Point|
                #[trigger] call_requires(hit_tile, (tile, pos, at)),
        ensures
            match r {
                Some((window, hit)) => exists|i: int|
                    0 <= i < self@.tiles.len() && *window == (#[trigger] self@.tiles[i]).window
                        && self@.hits(hit_tile, overview, point, i, hit),
                None => self@.misses(hit_tile, overview, point, 0),
            },
    {
        let view_pos = match overview {
            None => self.view_pos(),
            Some(fit) => fit.view_pos,
        };
        let at = match overview {
            None => point,
            Some(fit) => point.downscale(fit.scale),
        };
        let mut i: usize = self.tiles.len();
        while i > 0
            invariant
                i <= self.tiles.len(),
                view_pos == match overview {
                    None => self@.view_pos(),
                    Some(fit) => fit.view_pos,
                },
                at == hit_point(overview, point),
                forall|tile: &Tile<W>, pos: Point, at: Point|
                    #[trigger] call_requires(hit_tile, (tile, pos, at)),
                self@.misses(hit_tile, overview, point, i as int),
            decreases i,
        {
            i = i - 1;
            let tile = &self.tiles[i];
            let base = Self::canvas_to_screen_base(tile.canvas_pos, view_pos).add(
                tile.render_offset,
            );
            let pos = match overview {
                None => base.snap(self.scale),
                Some(fit) => base.upscale(fit.scale).snap(self.scale).downscale(fit.scale),
            };
            assert(*tile == self@.tiles[i as int]);
            if let Some(hit) = hit_tile(tile, pos, at) {
                return Some((&tile.window, hit));
            }
        }
        None
    }

    /// The canvas-space bounding box of all tiles. None if empty.
    pub fn content_bounds(&self) -> (r: Option<Rectangle>)
        ensures
            r == bounds(self@.tiles),
    {
        bounds_of(&self.tiles)
    }

    /// The overview-fit transform that centers the populated content in the view.
    ///
    /// None when the canvas is empty, when the view is degenerate, or when the content, with a
    /// modest margin, already fits at scale 1.
    pub fn overview_fit(&self) -> (r: Option<OverviewFit>)
        ensures
            r == fit(self@.tiles, self@.view_size),
    {
        fit_of(&self.tiles, self.view_size)
    }

    // --- camera ---

    pub fn view_pos(&self) -> (r: Point)
        ensures
            r == self@.view_pos(),
    {
        Point { x: self.view_offset_x.current(), y: self.view_offset_y.current() }
    }

    pub fn target_view_pos(&self) -> (r: Point)
        ensures
            r == self@.target_view_pos(),
    {
        Point { x: self.view_offset_x.target(), y: self.view_offset_y.target() }
    }

    pub fn view_pos_x(&self) -> (r: Float)
        ensures
            r == self@.view_pos().x,
    {
        self.view_offset_x.current()
    }

    pub fn view_pos_y(&self) -> (r: Float)
        ensures
            r == self@.view_pos().y,
    {
        self.view_offset_y.current()
    }

    pub fn target_view_pos_x(&self) -> (r: Float)
        ensures
            r == self@.target_view_pos().x,
    {
        self.view_offset_x.target()
    }

    pub fn target_view_pos_y(&self) -> (r: Float)
        ensures
            r == self@.target_view_pos().y,
    {
        self.view_offset_y.target()
    }

    /// The horizontal camera.
    pub fn camera_x(&self) -> (r: AxisCamera)
        ensures
            r == self@.view_offset_x,
    {
        self.view_offset_x
    }

    /// The vertical camera.
    pub fn camera_y(&self) -> (r: AxisCamera)
        ensures
            r == self@.view_offset_y,
    {
        self.view_offset_y
    }

    /// Jumps the camera to an absolute canvas position without animation.
    pub fn set_view_pos(&mut self, pos: Point)
        ensures
            final(self)@ == old(self)@.viewed_at(pos),
    {
        self.view_offset_x = AxisCamera::Static(pos.x);
        self.view_offset_y = AxisCamera::Static(pos.y);
    }

    /// Animates the X camera toward `new_x` using the horizontal-view-movement spring.
    pub fn animate_view_pos_x(&mut self, new_x: Float)
        ensures
            final(self)@ == old(self)@.headed_x(new_x),
    {
        let config = self.options.horizontal_view_movement;
        self.view_offset_x.animate_to(new_x, config);
    }

    /// Animates the Y camera toward `new_y`.
    pub fn animate_view_pos_y(&mut self, new_y: Float)
        ensures
            final(self)@ == old(self)@.headed_y(new_y),
    {
        let config = self.options.horizontal_view_movement;
        self.view_offset_y.animate_to(new_y, config);
    }

    /// Pan the camera by `(dx, dy)` with a spring animation.
    pub fn pan_camera(&mut self, dx: Float, dy: Float)
        ensures
            final(self)@ == old(self)@.panned(dx, dy),
    {
        let zero = Float::from_i32(0);
        if !dx.same(zero) {
            self.animate_view_pos_x(self.view_offset_x.target().add(dx));
        }
        if !dy.same(zero) {
            self.animate_view_pos_y(self.view_offset_y.target().add(dy));
        }
    }

    /// Fits the active tile into view on both axes (only pans where needed).
    pub fn bring_active_tile_into_view(&mut self)
        ensures
            final(self)@ == old(self)@.active_shown(),
    {
        let id = match self.active_id {
            Some(id) => id,
            None => return,
        };
        let idx = match position(&self.tiles, id) {
            Some(idx) => idx,
            None => return,
        };
        let canvas = self.tiles[idx].canvas_pos;
        let size = self.tiles[idx].tile_size;
        let view_left = self.target_view_pos_x();
        let view_top = self.target_view_pos_y();
        let view_right = view_left.add(self.view_size.w);
        let view_bottom = view_top.add(self.view_size.h);

        let right = canvas.x.add(size.w);
        if canvas.x.lt(view_left) {
            self.animate_view_pos_x(canvas.x);
        } else if view_right.lt(right) {
            self.animate_view_pos_x(right.sub(self.view_size.w));
        }
        let bottom = canvas.y.add(size.h);
        if canvas.y.lt(view_top) {
            self.animate_view_pos_y(canvas.y);
        } else if view_bottom.lt(bottom) {
            self.animate_view_pos_y(bottom.sub(self.view_size.h));
        }
    }

    // --- directional move ---

    /// Nudge the active tile by `amount` in canvas space. Returns false if there is no active
    /// tile. Brings the tile into view afterward and cancels any in-flight resize gesture, since
    /// the captured original geometry no longer applies.
    pub fn move_active_by(&mut self, amount: Point) -> (r: bool)
        ensures
            r == (old(self)@.active() is Some),
            final(self)@ == old(self)@.active_moved(amount),
    {
        let id = match self.active_id {
            Some(id) => id,
            None => return false,
        };
        let idx = match position(&self.tiles, id) {
            Some(idx) => idx,
            None => return false,
        };
        let current = self.tiles[idx].canvas_pos;
        self.tiles[idx].canvas_pos = current.add(amount);
        self.interactive_resize = None;
        self.bring_active_tile_into_view();
        true
    }

    pub fn move_active_left(&mut self) -> (r: bool)
        ensures
            r == (old(self)@.active() is Some),
            final(self)@ == old(self)@.active_moved(leftward()),
    {
        self.move_active_by(
            Point { x: Float::from_i32(DIRECTIONAL_MOVE_PX).neg(), y: Float::from_i32(0) },
        )
    }

    pub fn move_active_right(&mut self) -> (r: bool)
        ensures
            r == (old(self)@.active() is Some),
            final(self)@ == old(self)@.active_moved(rightward()),
    {
        self.move_active_by(
            Point { x: Float::from_i32(DIRECTIONAL_MOVE_PX), y: Float::from_i32(0) },
        )
    }

    pub fn move_active_up(&mut self) -> (r: bool)
        ensures
            r == (old(self)@.active() is Some),
            final(self)@ == old(self)@.active_moved(upward()),
    {
        self.move_active_by(
            Point { x: Float::from_i32(0), y: Float::from_i32(DIRECTIONAL_MOVE_PX).neg() },
        )
    }

    pub fn move_active_down(&mut self) -> (r: bool)
        ensures
            r == (old(self)@.active() is Some),
            final(self)@ == old(self)@.active_moved(downward()),
    {
        self.move_active_by(
            Point { x: Float::from_i32(0), y: Float::from_i32(DIRECTIONAL_MOVE_PX) },
        )
    }

    // --- spatial focus ---

    /// Activate the nearest tile in `direction`, scored in canvas space by the distance in the
    /// direction and twice the distance across it. Returns false if there is none.
    pub fn focus_spatial(&mut self, direction: SpatialDirection) -> (r: bool)
        ensures
            r == exists|i: int|
                old(self)@.active_id is Some && #[trigger] is_focus_target(
                    old(self)@.tiles,
                    old(self)@.active_id->0,
                    direction,
                    i,
                ),
            r ==> forall|i: int| #[trigger]
                is_focus_target(old(self)@.tiles, old(self)@.active_id->0, direction, i)
                    ==> final(self)@ == (CanvasView {
                    active_id: Some(old(self)@.tiles[i].id()),
                    ..old(self)@
                }).active_shown(),
            !r ==> final(self)@ == old(self)@,
            old(self)@.focused(direction, final(self)@),
    {
        let id = match self.active_id {
            Some(id) => id,
            None => return false,
        };
        match focus_target(&self.tiles, id, direction) {
            Some(idx) => {
                proof {
                    assert forall|i: int| #[trigger]
                        is_focus_target(self.tiles@, id, direction, i) implies i == idx by {
                        law_focus_target_is_unique(
                            self.tiles@,
                            id,
                            direction,
                            i,
                            idx as int,
                        );
                    }
                }
                self.active_id = Some(self.tiles[idx].window.id());
                self.bring_active_tile_into_view();
                true
            },
            None => false,
        }
    }
}

impl<W: LayoutElement> CanvasSpace<W> {
    // --- resizing ---

    /// Begin a resize gesture. Returns false if one is in flight or the window is not here.
    pub fn interactive_resize_begin(&mut self, window: u64, edges: ResizeEdge) -> (r: bool)
        ensures
            r == old(self)@.can_resize(window),
            final(self)@ == old(self)@.resize_begun(window, edges),
    {
        if self.interactive_resize.is_some() {
            return false;
        }
        let idx = match position(&self.tiles, window) {
            Some(idx) => idx,
            None => return false,
        };
        let original_window_size = self.tiles[idx].window_size;
        self.interactive_resize = Some(InteractiveResize { window, original_window_size, edges });
        // Stop camera animations so the tile doesn't slide out from under the cursor.
        self.view_offset_x.stop();
        self.view_offset_y.stop();
        true
    }

    /// Follow the pointer of the gesture, `delta` away from where it began. Returns false if the
    /// gesture is not on `window`.
    pub fn interactive_resize_update(&mut self, window: u64, delta: Point) -> (r: bool)
        ensures
            r == old(self)@.resizes(window),
            old(self)@.resize_followed(window, delta, final(self)@),
    {
        let resize = match self.interactive_resize {
            Some(resize) => resize,
            None => return false,
        };
        if window != resize.window {
            return false;
        }
        let original = resize.original_window_size;
        let edges = resize.edges;
        if edges.left || edges.right {
            let win_width = drag_side(original.w, delta.x, edges.left);
            self.set_window_width(Some(window), SizeChange::SetFixed(win_width), false);
        }
        assert(old(self)@.width_followed(resize, delta.x, self@));
        if edges.top || edges.bottom {
            let win_height = drag_side(original.h, delta.y, edges.top);
            self.set_window_height(Some(window), SizeChange::SetFixed(win_height), false);
        }
        true
    }

    /// End the gesture on `window`, or whichever is in flight.
    pub fn interactive_resize_end(&mut self, window: Option<u64>)
        ensures
            final(self)@ == old(self)@.resize_ended(window),
    {
        let resize = match self.interactive_resize {
            Some(resize) => resize,
            None => return,
        };
        if let Some(window) = window {
            if window != resize.window {
                return;
            }
        }
        self.interactive_resize = None;
    }

    /// Set the window width of the identified tile, or of the active one. Tiles are laid out
    /// independently, so there's no column-width distribution to do.
    pub fn set_window_width(&mut self, id: Option<u64>, change: SizeChange, animate: bool)
        ensures
            old(self)@.width_set(id, change, animate, final(self)@),
    {
        let idx = match self.subject(id) {
            Some(idx) => idx,
            None => return,
        };
        let available_size = self.working_area.size.w;
        let tile = &self.tiles[idx];
        let expected = tile.window.expected_size();
        let current_window = match expected {
            Some(size) => size.w,
            None => tile.window.size().w,
        };
        let side = change_side(
            change,
            current_window,
            tile.expected_or_current_size.w,
            tile.frame.w,
            available_size,
        );
        let min_size = tile.window.min_size();
        let max_size = tile.window.max_size();
        let win_width = ensure_min_max_size(to_whole_pixels(side), min_size.w, max_size.w);
        let win_height: i32 = match expected {
            Some(size) => size.h,
            None => 0,
        };
        let win_height = ensure_min_max_size(win_height, min_size.h, max_size.h);
        self.tiles[idx].window.request_size_once(
            WindowSize { w: win_width, h: win_height },
            animate,
        );
    }

    /// Set the window height of the identified tile, or of the active one.
    pub fn set_window_height(&mut self, id: Option<u64>, change: SizeChange, animate: bool)
        ensures
            old(self)@.height_set(id, change, animate, final(self)@),
    {
        let idx = match self.subject(id) {
            Some(idx) => idx,
            None => return,
        };
        let available_size = self.working_area.size.h;
        let tile = &self.tiles[idx];
        let expected = tile.window.expected_size();
        let current_window = match expected {
            Some(size) => size.h,
            None => tile.window.size().h,
        };
        let side = change_side(
            change,
            current_window,
            tile.expected_or_current_size.h,
            tile.frame.h,
            available_size,
        );
        let min_size = tile.window.min_size();
        let max_size = tile.window.max_size();
        let win_height = ensure_min_max_size(to_whole_pixels(side), min_size.h, max_size.h);
        let win_width: i32 = match expected {
            Some(size) => size.w,
            None => 0,
        };
        let win_width = ensure_min_max_size(win_width, min_size.w, max_size.w);
        self.tiles[idx].window.request_size_once(
            WindowSize { w: win_width, h: win_height },
            animate,
        );
    }

    /// The tile that a request is about.
    fn subject(&self, id: Option<u64>) -> (r: Option<usize>)
        ensures
            match r {
                Some(idx) => idx < self@.tiles.len() && self@.subject(id) == Some(idx as int),
                None => self@.subject(id) is None,
            },
    {
        match id {
            Some(id) => position(&self.tiles, id),
            None => match self.active_id {
                Some(id) => position(&self.tiles, id),
                None => None,
            },
        }
    }

    // --- closing windows ---

    /// Start a close animation for a tile still present on this canvas.
    ///
    /// Takes the picture captured of the tile and says what to animate it with. The caller
    /// removes the tile separately. None if the window is not here or nothing was captured of it.
    pub fn start_close_animation_for_window(
        &mut self,
        id: u64,
        blocker: TransactionBlocker,
    ) -> (r: Option<CloseAnimation>)
        ensures
            r == old(self)@.closing_of(id, blocker),
            final(self)@ == old(self)@.picture_taken(id),
    {
        let idx = match position(&self.tiles, id) {
            Some(idx) => idx,
            None => return None,
        };
        let tile_pos = Self::canvas_to_screen_base(
            self.tiles[idx].canvas_pos,
            self.view_pos(),
        ).add(self.tiles[idx].render_offset);
        match self.tiles[idx].take_unmap_snapshot() {
            Some(snapshot) => {
                let tile_size = self.tiles[idx].tile_size;
                Some(self.start_close_animation_for_tile(snapshot, tile_size, tile_pos, blocker))
            },
            None => None,
        }
    }

    /// What to animate a captured picture with at the given screen-space position. The host makes
    /// a closing window of it and hands it to [`CanvasSpace::add_closing_window`].
    pub fn start_close_animation_for_tile(
        &self,
        snapshot: TileRenderSnapshot,
        tile_size: Size,
        tile_pos: Point,
        blocker: TransactionBlocker,
    ) -> (r: CloseAnimation)
        ensures
            r == self@.close_animation(snapshot, tile_size, tile_pos, blocker),
    {
        let anim = Animation::new(
            Float::from_i32(0),
            Float::from_i32(1),
            Float::from_i32(0),
            self.options.window_close,
        );
        let blocker = if self.options.disable_transactions {
            TransactionBlocker::Completed
        } else {
            blocker
        };
        CloseAnimation { snapshot, scale: self.scale, tile_size, tile_pos, blocker, anim }
    }

    /// Take on the closing window that was made of a close animation. Nothing if none could be
    /// made.
    pub fn add_closing_window(&mut self, made: Option<ClosingWindow>)
        ensures
            final(self)@ == old(self)@.with_closing(made),
    {
        if let Some(closing) = made {
            self.closing_windows.push(closing);
        }
    }

    /// The closing windows, in the order in which they began to close.
    pub fn closing_windows(&self) -> (r: &[ClosingWindow])
        ensures
            r@ == self@.closing_windows,
    {
        self.closing_windows.as_slice()
    }

    // --- animation lifecycle ---

    /// Take over where the camera's springs stand at the moment. An axis at rest stays where it is.
    pub fn sample_camera(&mut self, x: Float, y: Float)
        ensures
            final(self)@ == old(self)@.standing_at(x, y),
    {
        self.view_offset_x.stand_at(x);
        self.view_offset_y.stand_at(y);
    }

    /// Move on to the moment at which the camera's springs stand at `camera_x` and `camera_y`,
    /// `tiles` is measured of each tile once it is advanced, and `closing_ongoing` says of each
    /// closing window whether it still runs.
    pub fn advance_animations(
        &mut self,
        camera_x: AnimationSample,
        camera_y: AnimationSample,
        tiles: &[TileMeasures],
        closing_ongoing: &[bool],
    )
        requires
            tiles@.len() == old(self)@.tiles.len(),
            closing_ongoing@.len() == old(self)@.closing_windows.len(),
        ensures
            final(self)@ == old(self)@.sampled(camera_x, camera_y, tiles@, closing_ongoing@),
    {
        self.view_offset_x.advance(camera_x);
        self.view_offset_y.advance(camera_y);
        let ghost unmeasured = self@;
        let mut i: usize = 0;
        while i < self.tiles.len()
            invariant
                i <= self.tiles.len() == unmeasured.tiles.len() == tiles@.len(),
                self@ == (CanvasView { tiles: self.tiles@, ..unmeasured }),
                forall|j: int|
                    0 <= j < i ==> #[trigger] self.tiles@[j] == unmeasured.tiles[j].measured(
                        tiles@[j],
                    ),
                forall|j: int|
                    i <= j < unmeasured.tiles.len() ==> #[trigger] self.tiles@[j]
                        == unmeasured.tiles[j],
            decreases self.tiles.len() - i,
        {
            self.tiles[i].measure(tiles[i]);
            i = i + 1;
        }
        let ghost before = self.closing_windows@;
        let mut kept: Vec<ClosingWindow> = Vec::new();
        let mut i: usize = 0;
        while i < self.closing_windows.len()
            invariant
                self.closing_windows@ == before,
                i <= before.len() == closing_ongoing@.len(),
                kept@ == still_running(before.take(i as int), closing_ongoing@.take(i as int)),
            decreases before.len() - i,
        {
            proof {
                assert(before.take(i + 1).drop_last() =~= before.take(i as int));
                assert(closing_ongoing@.take(i + 1).drop_last() =~= closing_ongoing@.take(
                    i as int,
                ));
            }
            if closing_ongoing[i] {
                kept.push(self.closing_windows[i]);
            }
            i = i + 1;
        }
        proof {
            assert(before.take(i as int) =~= before);
            assert(closing_ongoing@.take(i as int) =~= closing_ongoing@);
        }
        self.closing_windows = kept;
    }

    pub fn are_animations_ongoing(&self) -> (r: bool)
        ensures
            r == self@.animations_ongoing(),
    {
        if self.view_offset_x.is_animation_ongoing() || self.view_offset_y.is_animation_ongoing()
            || self.closing_windows.len() > 0 {
            return true;
        }
        let mut i: usize = 0;
        while i < self.tiles.len()
            invariant
                i <= self.tiles.len(),
                forall|j: int| 0 <= j < i ==> !(#[trigger] self@.tiles[j]).animations_ongoing,
            decreases self.tiles.len() - i,
        {
            if self.tiles[i].animations_ongoing {
                assert(self@.tiles[i as int].animations_ongoing);
                return true;
            }
            i = i + 1;
        }
        false
    }

    pub fn are_transitions_ongoing(&self) -> (r: bool)
        ensures
            r == self@.transitions_ongoing(),
    {
        if !self.view_offset_x.is_static() || !self.view_offset_y.is_static()
            || self.closing_windows.len() > 0 {
            return true;
        }
        let mut i: usize = 0;
        while i < self.tiles.len()
            invariant
                i <= self.tiles.len(),
                forall|j: int| 0 <= j < i ==> !(#[trigger] self@.tiles[j]).transitions_ongoing,
            decreases self.tiles.len() - i,
        {
            if self.tiles[i].transitions_ongoing {
                assert(self@.tiles[i as int].transitions_ongoing);
                return true;
            }
            i = i + 1;
        }
        false
    }

    /// Keep the canvas positions of tiles in sync with the space's source of truth.
    ///
    /// A tile's own position is that source of truth: there is nothing to do.
    pub fn update_canvas_positions(&mut self)
        ensures
            final(self)@ == old(self)@,
    {
    }

    pub fn view_size(&self) -> (r: Size)
        ensures
            r == self@.view_size,
    {
        self.view_size
    }

    pub fn working_area(&self) -> (r: Rectangle)
        ensures
            r == self@.working_area,
    {
        self.working_area
    }

    pub fn scale(&self) -> (r: Float)
        ensures
            r == self@.scale,
    {
        self.scale
    }

    pub fn options(&self) -> (r: &Options)
        ensures
            *r == self@.options,
    {
        &self.options
    }

    /// Whether everything holds that must hold at all times: the scale is positive, tiles agree
    /// with the space's configuration and keep what they must themselves, the active id references
    /// an existing tile, and tile ids are unique.
    pub fn verify_invariants(&self) -> (r: bool)
        ensures
            r == self@.invariants_hold(),
    {
        let zero = Float::from_i32(0);
        if !zero.lt(self.scale) || !self.scale.is_finite() {
            return false;
        }
        if let Some(id) = self.active_id {
            if !self.has_window(id) {
                return false;
            }
        }
        let mut i: usize = 0;
        while i < self.tiles.len()
            invariant
                i <= self.tiles.len(),
                forall|k: int| 0 <= k < i ==> self@.is_sound(#[trigger] self@.tiles[k]),
                forall|k: int, l: int|
                    0 <= k < i && k < l < self@.tiles.len() ==> (#[trigger] self@.tiles[k]).id()
                        != (#[trigger] self@.tiles[l]).id(),
            decreases self.tiles.len() - i,
        {
            if !self.tile_is_sound(&self.tiles[i]) {
                assert(!self@.is_sound(self@.tiles[i as int]));
                return false;
            }
            let mut j: usize = i + 1;
            while j < self.tiles.len()
                invariant
                    i < j <= self.tiles.len(),
                    forall|l: int|
                        i < l < j ==> self@.tiles[i as int].id() != (
                        #[trigger] self@.tiles[l]).id(),
                decreases self.tiles.len() - j,
            {
                if self.tiles[i].window.id() == self.tiles[j].window.id() {
                    assert(self@.tiles[i as int].id() == self@.tiles[j as int].id());
                    return false;
                }
                j = j + 1;
            }
            i = i + 1;
        }
        true
    }

    /// Whether a tile has the configuration of this space and keeps what it must itself.
    fn tile_is_sound(&self, tile: &Tile<W>) -> (r: bool)
        ensures
            r == self@.is_sound(*tile),
    {
        tile.is_valid && tile.options == self.options && self.view_size.w.same(tile.view_size.w)
            && self.view_size.h.same(tile.view_size.h) && self.scale.same(tile.scale)
    }
}

/// What a side becomes when one of its edges is dragged by `delta`.
fn drag_side(original: Float, delta: Float, near: bool) -> (r: i32)
    ensures
        r == dragged_side(original, delta, near),
{
    let grown = if near {
        delta.neg()
    } else {
        delta
    };
    original.add(grown).round().to_i32()
}

} // verus!
