//! What a canvas holds, as a mathematical value, and what each operation makes of it.

use crate::camera::{Animation, AnimationSample, AxisCamera};
use crate::float::Float;
use crate::focus::{is_focus_target, SpatialDirection};
use crate::geometry::{PhysicalPoint, Point, Rectangle, Size, WindowSize};
use crate::sizing::{changed_side, whole_pixels, within_min_max, SizeChange};
use crate::tile::{LayoutElement, Options, Tile, TileMeasures, TileRenderSnapshot};
use vstd::prelude::*;

verus! {

/// How far a directional move goes, in logical pixels.
pub const DIRECTIONAL_MOVE_PX: i32 = 50;

/// One directional move to the left.
pub open spec fn leftward() -> Point {
    Point { x: Float::whole(DIRECTIONAL_MOVE_PX as int).spec_neg(), y: Float::whole(0) }
}

/// One directional move to the right.
pub open spec fn rightward() -> Point {
    Point { x: Float::whole(DIRECTIONAL_MOVE_PX as int), y: Float::whole(0) }
}

/// One directional move up.
pub open spec fn upward() -> Point {
    Point { x: Float::whole(0), y: Float::whole(DIRECTIONAL_MOVE_PX as int).spec_neg() }
}

/// One directional move down.
pub open spec fn downward() -> Point {
    Point { x: Float::whole(0), y: Float::whole(DIRECTIONAL_MOVE_PX as int) }
}

/// The edges of a window that a resize gesture drags.
#[derive(Clone, Copy, Debug, PartialEq, Eq, Structural)]
pub struct ResizeEdge {
    pub top: bool,
    pub bottom: bool,
    pub left: bool,
    pub right: bool,
}

/// A resize gesture in flight.
#[derive(Clone, Copy, Debug)]
pub struct InteractiveResize {
    pub window: u64,
    /// The size of the window when the gesture began.
    pub original_window_size: Size,
    pub edges: ResizeEdge,
}

/// What a closing window waits for before it disappears.
#[derive(Clone, Copy, Debug, PartialEq, Eq, Structural)]
pub enum TransactionBlocker {
    /// Nothing.
    Completed,
    /// A transaction that the host knows by this handle.
    Pending(u64),
}

/// A window that is gone, but whose close animation is still running.
#[derive(Clone, Copy, Debug, PartialEq, Eq, Structural)]
pub struct ClosingWindow {
    /// What the host draws it from.
    pub handle: u64,
}

/// What a close animation is made from.
#[derive(Clone, Copy, Debug)]
pub struct CloseAnimation {
    pub snapshot: TileRenderSnapshot,
    pub scale: Float,
    pub tile_size: Size,
    pub tile_pos: Point,
    pub blocker: TransactionBlocker,
    pub anim: Animation,
}

/// Replaces the camera by a synthetic view that fits the populated content into the view.
///
/// Used only to draw and hit-test the overview. Does not change the canvas.
#[derive(Clone, Copy, Debug)]
pub struct OverviewFit {
    /// Synthetic camera position. `canvas_pos - view_pos` gives the un-scaled screen offset.
    pub view_pos: Point,
    /// Scale factor of tile positions and visuals.
    pub scale: Float,
}

/// One thing to draw. What comes first is drawn on top.
#[derive(Clone, Copy, Debug)]
pub enum RenderCommand {
    /// The closing window of this index.
    ClosingWindow { index: usize, view_rect: Rectangle },
    /// The tile of this index.
    Tile { index: usize, pos: Point, focus_ring: bool },
    /// The tile of this index, its visuals scaled around `anchor`.
    TileScaled {
        index: usize,
        pos: Point,
        focus_ring: bool,
        anchor: PhysicalPoint,
        scale: Float,
    },
}

/// What one tile is told before it is drawn.
#[derive(Clone, Copy, Debug)]
pub struct TileUpdate {
    pub is_active: bool,
    /// The view, relative to the tile.
    pub view_rect: Rectangle,
}

/// The contents of a canvas.
#[verifier::ext_equal]
pub struct CanvasView<W> {
    pub tiles: Seq<Tile<W>>,
    pub active_id: Option<u64>,
    pub view_offset_x: AxisCamera,
    pub view_offset_y: AxisCamera,
    pub view_size: Size,
    pub working_area: Rectangle,
    pub scale: Float,
    pub closing_windows: Seq<ClosingWindow>,
    pub interactive_resize: Option<InteractiveResize>,
    pub options: Options,
}

/// Whether a tile with the window `id` is among `tiles`.
pub open spec fn holds<W: LayoutElement>(tiles: Seq<Tile<W>>, id: u64) -> bool {
    exists|i: int| 0 <= i < tiles.len() && (#[trigger] tiles[i]).id() == id
}

/// Whether the tile at `i` is the first one with the window `id`.
pub open spec fn is_first<W: LayoutElement>(tiles: Seq<Tile<W>>, id: u64, i: int) -> bool {
    &&& 0 <= i < tiles.len()
    &&& tiles[i].id() == id
    &&& forall|j: int| 0 <= j < i ==> (#[trigger] tiles[j]).id() != id
}

/// Where the first tile with the window `id` stands.
pub open spec fn first<W: LayoutElement>(tiles: Seq<Tile<W>>, id: u64) -> int {
    choose|i: int| is_first(tiles, id, i)
}

/// The canvas-space point `canvas` on the screen, without the tile's own animations.
pub open spec fn screen_base(canvas: Point, view_pos: Point) -> Point {
    canvas.spec_sub(view_pos)
}

/// One axis of the camera, headed so that its view of length `view` shows what lies from `pos` for
/// the length `size`; as it was if it already does.
pub open spec fn shown(
    camera: AxisCamera,
    pos: Float,
    size: Float,
    view: Float,
    options: Options,
) -> AxisCamera {
    let start = camera.spec_target();
    let end = start.spec_add(view);
    if pos.spec_lt(start) {
        camera.headed(pos, options.horizontal_view_movement)
    } else if end.spec_lt(pos.spec_add(size)) {
        camera.headed(pos.spec_add(size).spec_sub(view), options.horizontal_view_movement)
    } else {
        camera
    }
}

/// The closing windows that are still running, in order.
pub open spec fn still_running(
    closing: Seq<ClosingWindow>,
    ongoing: Seq<bool>,
) -> Seq<ClosingWindow>
    decreases closing.len(),
{
    if closing.len() == 0 {
        closing
    } else {
        let rest = still_running(closing.drop_last(), ongoing.drop_last());
        if ongoing.last() {
            rest.push(closing.last())
        } else {
            rest
        }
    }
}

impl<W: LayoutElement> CanvasView<W> {
    /// A canvas without tiles, its camera at rest at the origin.
    pub open spec fn empty(
        view_size: Size,
        working_area: Rectangle,
        scale: Float,
        options: Options,
    ) -> Self {
        CanvasView {
            tiles: Seq::empty(),
            active_id: None,
            view_offset_x: AxisCamera::Static(Float::whole(0)),
            view_offset_y: AxisCamera::Static(Float::whole(0)),
            view_size,
            working_area,
            scale,
            closing_windows: Seq::empty(),
            interactive_resize: None,
            options,
        }
    }

    pub open spec fn holds(self, id: u64) -> bool {
        holds(self.tiles, id)
    }

    /// Where the active tile stands, if there is one.
    pub open spec fn active(self) -> Option<int> {
        match self.active_id {
            Some(id) => if self.holds(id) {
                Some(first(self.tiles, id))
            } else {
                None
            },
            None => None,
        }
    }

    pub open spec fn view_pos(self) -> Point {
        Point { x: self.view_offset_x.spec_current(), y: self.view_offset_y.spec_current() }
    }

    pub open spec fn target_view_pos(self) -> Point {
        Point { x: self.view_offset_x.spec_target(), y: self.view_offset_y.spec_target() }
    }

    /// The canvas with another window in the tile at `i`.
    pub open spec fn with_window(self, i: int, window: W) -> Self {
        CanvasView { tiles: self.tiles.update(i, Tile { window, ..self.tiles[i] }), ..self }
    }

    /// The canvas with the tile at `i` moved.
    pub open spec fn with_position(self, i: int, canvas_pos: Point) -> Self {
        CanvasView { tiles: self.tiles.update(i, Tile { canvas_pos, ..self.tiles[i] }), ..self }
    }

    /// Whether the window in the tile at `i` can be `window` once it has committed `serial`.
    pub open spec fn committed(self, i: int, serial: Option<u32>, window: W) -> bool {
        match serial {
            Some(serial) => {
                &&& W::commit_noted(self.tiles[i].window, serial, window)
                &&& window.state().id == self.tiles[i].id()
            },
            None => window == self.tiles[i].window,
        }
    }

    /// The canvas with another window in the tile at `i`, and the tile measured anew.
    pub open spec fn updated(self, i: int, window: W, measures: TileMeasures) -> Self {
        CanvasView {
            tiles: self.tiles.update(i, Tile { window, ..self.tiles[i] }.measured(measures)),
            ..self
        }
    }

    pub open spec fn added(self, tile: Tile<W>, canvas_pos: Point) -> Self {
        CanvasView {
            tiles: self.tiles.push(Tile { canvas_pos, ..tile }),
            active_id: Some(tile.id()),
            ..self
        }
    }

    /// The canvas without the first tile with the window `id`. If that was the active window, the
    /// first tile left takes its place.
    pub open spec fn removed(self, id: u64) -> Self {
        if self.holds(id) {
            let rest = self.tiles.remove(first(self.tiles, id));
            CanvasView {
                tiles: rest,
                active_id: if self.active_id != Some(id) {
                    self.active_id
                } else if rest.len() > 0 {
                    Some(rest[0].id())
                } else {
                    None
                },
                ..self
            }
        } else {
            self
        }
    }

    pub open spec fn activated(self, id: u64) -> Self {
        if self.holds(id) {
            CanvasView { active_id: Some(id), ..self }
        } else {
            self
        }
    }

    pub open spec fn moved(self, id: u64, canvas_pos: Point) -> Self {
        if self.holds(id) {
            self.with_position(first(self.tiles, id), canvas_pos)
        } else {
            self
        }
    }

    pub open spec fn configured(
        self,
        view_size: Size,
        working_area: Rectangle,
        scale: Float,
        options: Options,
    ) -> Self {
        CanvasView {
            tiles: self.tiles.map_values(
                |tile: Tile<W>| Tile { view_size, scale, options, ..tile },
            ),
            view_size,
            working_area,
            scale,
            options,
            ..self
        }
    }

    // --- invariants ---

    /// Whether a tile has the configuration of this space, the options being the very same.
    pub open spec fn agrees(self, tile: Tile<W>) -> bool {
        &&& tile.options == self.options
        &&& self.view_size.w.spec_same(tile.view_size.w)
        &&& self.view_size.h.spec_same(tile.view_size.h)
        &&& self.scale.spec_same(tile.scale)
    }

    /// Whether a tile has the configuration of this space and keeps what it must itself.
    pub open spec fn is_sound(self, tile: Tile<W>) -> bool {
        self.agrees(tile) && tile.is_valid
    }

    /// Whether the active id, if any, references an existing tile, and there is one if there are
    /// tiles.
    pub open spec fn has_focus(self) -> bool {
        match self.active_id {
            Some(id) => self.holds(id),
            None => self.tiles.len() == 0,
        }
    }

    /// Whether no two tiles have the same id.
    pub open spec fn ids_are_unique(self) -> bool {
        forall|i: int, j: int|
            0 <= i < j < self.tiles.len() ==> (#[trigger] self.tiles[i]).id() != (
            #[trigger] self.tiles[j]).id()
    }

    /// Whether everything holds that must hold at all times.
    pub open spec fn invariants_hold(self) -> bool {
        &&& Float::whole(0).spec_lt(self.scale)
        &&& self.scale.spec_is_finite()
        &&& forall|i: int| 0 <= i < self.tiles.len() ==> self.is_sound(#[trigger] self.tiles[i])
        &&& self.active_id matches Some(id) ==> self.holds(id)
        &&& self.ids_are_unique()
    }

    // --- camera ---

    pub open spec fn viewed_at(self, pos: Point) -> Self {
        CanvasView {
            view_offset_x: AxisCamera::Static(pos.x),
            view_offset_y: AxisCamera::Static(pos.y),
            ..self
        }
    }

    pub open spec fn headed_x(self, x: Float) -> Self {
        CanvasView {
            view_offset_x: self.view_offset_x.headed(x, self.options.horizontal_view_movement),
            ..self
        }
    }

    pub open spec fn headed_y(self, y: Float) -> Self {
        CanvasView {
            view_offset_y: self.view_offset_y.headed(y, self.options.horizontal_view_movement),
            ..self
        }
    }

    /// The canvas with the camera headed `dx` and `dy` past where it was headed.
    pub open spec fn panned(self, dx: Float, dy: Float) -> Self {
        let across = if dx.spec_same(Float::whole(0)) {
            self
        } else {
            self.headed_x(self.view_offset_x.spec_target().spec_add(dx))
        };
        if dy.spec_same(Float::whole(0)) {
            across
        } else {
            across.headed_y(self.view_offset_y.spec_target().spec_add(dy))
        }
    }

    /// The canvas with the camera headed so that it shows the active tile.
    pub open spec fn active_shown(self) -> Self {
        match self.active() {
            Some(i) => {
                let tile = self.tiles[i];
                CanvasView {
                    view_offset_x: shown(
                        self.view_offset_x,
                        tile.canvas_pos.x,
                        tile.tile_size.w,
                        self.view_size.w,
                        self.options,
                    ),
                    view_offset_y: shown(
                        self.view_offset_y,
                        tile.canvas_pos.y,
                        tile.tile_size.h,
                        self.view_size.h,
                        self.options,
                    ),
                    ..self
                }
            },
            None => self,
        }
    }

    /// Whether `after` is the canvas once the focus has gone in the direction: to its target, which
    /// is then shown, or nowhere if there is none.
    pub open spec fn focused(self, direction: SpatialDirection, after: Self) -> bool {
        if self.active_id is Some && exists|i: int| #[trigger]
            is_focus_target(self.tiles, self.active_id->0, direction, i) {
            exists|i: int| #[trigger]
                is_focus_target(self.tiles, self.active_id->0, direction, i) && after == (
                CanvasView { active_id: Some(self.tiles[i].id()), ..self }).active_shown()
        } else {
            after == self
        }
    }

    /// The canvas with the active tile moved by `amount` and shown, and no resize gesture left.
    pub open spec fn active_moved(self, amount: Point) -> Self {
        match self.active() {
            Some(i) => {
                let there = self.with_position(i, self.tiles[i].canvas_pos.spec_add(amount));
                CanvasView {
                    interactive_resize: None::<InteractiveResize>,
                    ..there
                }.active_shown()
            },
            None => self,
        }
    }

    /// The canvas where the camera's springs stand at `x` and `y`.
    pub open spec fn standing_at(self, x: Float, y: Float) -> Self {
        CanvasView {
            view_offset_x: self.view_offset_x.standing_at(x),
            view_offset_y: self.view_offset_y.standing_at(y),
            ..self
        }
    }

    /// The canvas at the moment of the samples, where `advanced` is measured of each tile and
    /// `ongoing` says which closing windows still run.
    pub open spec fn sampled(
        self,
        x: AnimationSample,
        y: AnimationSample,
        advanced: Seq<TileMeasures>,
        ongoing: Seq<bool>,
    ) -> Self {
        CanvasView {
            tiles: Seq::new(self.tiles.len(), |i: int| self.tiles[i].measured(advanced[i])),
            view_offset_x: self.view_offset_x.sampled(x),
            view_offset_y: self.view_offset_y.sampled(y),
            closing_windows: still_running(self.closing_windows, ongoing),
            ..self
        }
    }

    /// Whether the camera, a tile or a closing window is on the move.
    pub open spec fn animations_ongoing(self) -> bool {
        ||| self.view_offset_x is Animation
        ||| self.view_offset_y is Animation
        ||| exists|i: int|
            0 <= i < self.tiles.len() && (#[trigger] self.tiles[i]).animations_ongoing
        ||| self.closing_windows.len() > 0
    }

    /// Whether the camera, a tile or a closing window is on its way to another state.
    pub open spec fn transitions_ongoing(self) -> bool {
        ||| !(self.view_offset_x is Static)
        ||| !(self.view_offset_y is Static)
        ||| exists|i: int|
            0 <= i < self.tiles.len() && (#[trigger] self.tiles[i]).transitions_ongoing
        ||| self.closing_windows.len() > 0
    }

    // --- resizing ---

    /// The tile that a request for `id`, or for the active window, is about.
    pub open spec fn subject(self, id: Option<u64>) -> Option<int> {
        match id {
            Some(id) => if self.holds(id) {
                Some(first(self.tiles, id))
            } else {
                None
            },
            None => self.active(),
        }
    }

    /// What a change makes of the width of the window in the tile at `i`, before bounds.
    pub open spec fn changed_width(self, i: int, change: SizeChange) -> Float {
        let tile = self.tiles[i];
        let state = tile.window.state();
        let current = match state.expected_size {
            Some(size) => size.w,
            None => state.size.w,
        };
        changed_side(
            change,
            current,
            tile.expected_or_current_size.w,
            tile.frame.w,
            self.working_area.size.w,
        )
    }

    /// What a change makes of the height of the window in the tile at `i`, before bounds.
    pub open spec fn changed_height(self, i: int, change: SizeChange) -> Float {
        let tile = self.tiles[i];
        let state = tile.window.state();
        let current = match state.expected_size {
            Some(size) => size.h,
            None => state.size.h,
        };
        changed_side(
            change,
            current,
            tile.expected_or_current_size.h,
            tile.frame.h,
            self.working_area.size.h,
        )
    }

    /// The size that a change of width asks of the window in the tile at `i`.
    pub open spec fn width_request(self, i: int, change: SizeChange) -> WindowSize {
        let state = self.tiles[i].window.state();
        let other = match state.expected_size {
            Some(size) => size.h as int,
            None => 0,
        };
        WindowSize {
            w: within_min_max(
                whole_pixels(self.changed_width(i, change)),
                state.min_size.w as int,
                state.max_size.w as int,
            ) as i32,
            h: within_min_max(other, state.min_size.h as int, state.max_size.h as int) as i32,
        }
    }

    /// The size that a change of height asks of the window in the tile at `i`.
    pub open spec fn height_request(self, i: int, change: SizeChange) -> WindowSize {
        let state = self.tiles[i].window.state();
        let other = match state.expected_size {
            Some(size) => size.w as int,
            None => 0,
        };
        WindowSize {
            w: within_min_max(other, state.min_size.w as int, state.max_size.w as int) as i32,
            h: within_min_max(
                whole_pixels(self.changed_height(i, change)),
                state.min_size.h as int,
                state.max_size.h as int,
            ) as i32,
        }
    }

    /// Whether `after` is the canvas once the window in the tile at `i` was asked for `size`.
    pub open spec fn asked(self, i: int, size: WindowSize, animate: bool, after: Self) -> bool {
        let window = after.tiles[i].window;
        &&& W::size_requested(self.tiles[i].window, size, animate, window)
        &&& window.state().id == self.tiles[i].id()
        &&& after == self.with_window(i, window)
    }

    /// Whether `after` is the canvas once the width of a window was changed.
    pub open spec fn width_set(
        self,
        id: Option<u64>,
        change: SizeChange,
        animate: bool,
        after: Self,
    ) -> bool {
        match self.subject(id) {
            Some(i) => self.asked(i, self.width_request(i, change), animate, after),
            None => after == self,
        }
    }

    /// Whether `after` is the canvas once the height of a window was changed.
    pub open spec fn height_set(
        self,
        id: Option<u64>,
        change: SizeChange,
        animate: bool,
        after: Self,
    ) -> bool {
        match self.subject(id) {
            Some(i) => self.asked(i, self.height_request(i, change), animate, after),
            None => after == self,
        }
    }

    /// Whether a resize gesture can begin on `window`.
    pub open spec fn can_resize(self, window: u64) -> bool {
        self.interactive_resize is None && self.holds(window)
    }

    /// The canvas once a resize gesture has begun, its camera at rest.
    pub open spec fn resize_begun(self, window: u64, edges: ResizeEdge) -> Self {
        if self.can_resize(window) {
            CanvasView {
                interactive_resize: Some(
                    InteractiveResize {
                        window,
                        original_window_size: self.tiles[first(self.tiles, window)].window_size,
                        edges,
                    },
                ),
                view_offset_x: self.view_offset_x.stopped(),
                view_offset_y: self.view_offset_y.stopped(),
                ..self
            }
        } else {
            self
        }
    }

    /// Whether `window` is the one that the gesture in flight resizes.
    pub open spec fn resizes(self, window: u64) -> bool {
        self.interactive_resize matches Some(resize) && resize.window == window
    }

    /// Whether `after` is the canvas once the pointer of the gesture is `delta` away from where it
    /// began: first the width follows, then the height.
    pub open spec fn resize_followed(self, window: u64, delta: Point, after: Self) -> bool {
        if self.resizes(window) {
            let resize = self.interactive_resize->0;
            exists|mid: Self|
                #![trigger self.width_followed(resize, delta.x, mid)]
                self.width_followed(resize, delta.x, mid) && mid.height_followed(
                    resize,
                    delta.y,
                    after,
                )
        } else {
            after == self
        }
    }

    pub open spec fn width_followed(
        self,
        resize: InteractiveResize,
        dx: Float,
        after: Self,
    ) -> bool {
        if resize.edges.left || resize.edges.right {
            self.width_set(
                Some(resize.window),
                SizeChange::SetFixed(
                    dragged_side(resize.original_window_size.w, dx, resize.edges.left),
                ),
                false,
                after,
            )
        } else {
            after == self
        }
    }

    pub open spec fn height_followed(
        self,
        resize: InteractiveResize,
        dy: Float,
        after: Self,
    ) -> bool {
        if resize.edges.top || resize.edges.bottom {
            self.height_set(
                Some(resize.window),
                SizeChange::SetFixed(
                    dragged_side(resize.original_window_size.h, dy, resize.edges.top),
                ),
                false,
                after,
            )
        } else {
            after == self
        }
    }

    /// The canvas once the gesture on `window`, or whichever is in flight, has ended.
    pub open spec fn resize_ended(self, window: Option<u64>) -> Self {
        match window {
            Some(id) => if self.resizes(id) {
                CanvasView { interactive_resize: None::<InteractiveResize>, ..self }
            } else {
                self
            },
            None => CanvasView { interactive_resize: None::<InteractiveResize>, ..self },
        }
    }

    // --- drawing ---

    /// Where the tile at `i` is drawn, before it is put on a pixel.
    pub open spec fn raw_position(self, i: int) -> Point {
        screen_base(self.tiles[i].canvas_pos, self.view_pos()).spec_add(self.tiles[i].render_offset)
    }

    /// Where the tile at `i` is drawn.
    pub open spec fn render_position(self, i: int) -> Point {
        self.raw_position(i).spec_snap(self.scale)
    }

    /// Where the tile at `i` is in the overview, before it is scaled.
    pub open spec fn fit_position(self, fit: OverviewFit, i: int) -> Point {
        screen_base(self.tiles[i].canvas_pos, fit.view_pos).spec_add(self.tiles[i].render_offset)
    }

    /// Where the tile at `i` is drawn in the overview.
    pub open spec fn scaled_position(self, fit: OverviewFit, i: int) -> Point {
        self.fit_position(fit, i).spec_upscale(fit.scale).spec_snap(self.scale)
    }

    /// Whether the tile at `i` holds the active window.
    pub open spec fn is_active(self, i: int) -> bool {
        self.active_id == Some(self.tiles[i].id())
    }

    pub open spec fn view_rect(self) -> Rectangle {
        Rectangle {
            loc: Point { x: Float::whole(0), y: Float::whole(0) },
            size: self.view_size,
        }
    }

    /// How the tile at `i` is drawn.
    pub open spec fn tile_command(
        self,
        focus_ring: bool,
        overview: Option<OverviewFit>,
        i: int,
    ) -> RenderCommand {
        let focus_ring = focus_ring && self.is_active(i);
        match overview {
            None => RenderCommand::Tile {
                index: i as usize,
                pos: self.render_position(i),
                focus_ring,
            },
            Some(fit) => {
                let pos = self.scaled_position(fit, i);
                RenderCommand::TileScaled {
                    index: i as usize,
                    pos,
                    focus_ring,
                    anchor: pos.spec_to_physical(self.scale),
                    scale: fit.scale,
                }
            },
        }
    }

    /// Everything that is drawn: closing windows, last first, but none in the overview; then the
    /// tiles in the order in which they were added.
    pub open spec fn render_plan(
        self,
        focus_ring: bool,
        overview: Option<OverviewFit>,
    ) -> Seq<RenderCommand> {
        let closing = if overview is None {
            self.closing_windows.len()
        } else {
            0
        };
        Seq::new(
            closing,
            |k: int|
                RenderCommand::ClosingWindow {
                    index: (closing - 1 - k) as usize,
                    view_rect: self.view_rect(),
                },
        ) + Seq::new(self.tiles.len(), |i: int| self.tile_command(focus_ring, overview, i))
    }

    /// What the tile at `i` is told before it is drawn.
    pub open spec fn tile_update(self, is_active: bool, i: int) -> TileUpdate {
        TileUpdate {
            is_active: is_active && self.is_active(i),
            view_rect: Rectangle {
                loc: self.view_pos().spec_sub(self.tiles[i].canvas_pos),
                size: self.view_size,
            },
        }
    }

    /// Where the tile at `i` is hit-tested: where it is drawn, in the overview scaled back.
    pub open spec fn hit_position(self, overview: Option<OverviewFit>, i: int) -> Point {
        match overview {
            None => self.render_position(i),
            Some(fit) => self.scaled_position(fit, i).spec_downscale(fit.scale),
        }
    }

    /// Whether `hit_tile` can say of the tile at `i`, tested where it is drawn, that `outcome` is
    /// what of it is under the point.
    pub open spec fn is_under<H, F: Fn(&Tile<W>, Point, Point) -> Option<H>>(
        self,
        hit_tile: F,
        overview: Option<OverviewFit>,
        point: Point,
        i: int,
        outcome: Option<H>,
    ) -> bool {
        call_ensures(
            hit_tile,
            (&self.tiles[i], self.hit_position(overview, i), hit_point(overview, point)),
            outcome,
        )
    }

    /// Whether no tile from the one at `from` on is under the point.
    pub open spec fn misses<H, F: Fn(&Tile<W>, Point, Point) -> Option<H>>(
        self,
        hit_tile: F,
        overview: Option<OverviewFit>,
        point: Point,
        from: int,
    ) -> bool {
        forall|j: int|
            #![trigger self.tiles[j]]
            from <= j < self.tiles.len() ==> self.is_under(
                hit_tile,
                overview,
                point,
                j,
                None::<H>,
            )
    }

    /// Whether the tile at `i` is the last one under the point, by `hit`.
    pub open spec fn hits<H, F: Fn(&Tile<W>, Point, Point) -> Option<H>>(
        self,
        hit_tile: F,
        overview: Option<OverviewFit>,
        point: Point,
        i: int,
        hit: H,
    ) -> bool {
        &&& self.is_under(hit_tile, overview, point, i, Some(hit))
        &&& self.misses(hit_tile, overview, point, i + 1)
    }

    /// What a tile's picture closes with.
    pub open spec fn close_animation(
        self,
        snapshot: TileRenderSnapshot,
        tile_size: Size,
        tile_pos: Point,
        blocker: TransactionBlocker,
    ) -> CloseAnimation {
        CloseAnimation {
            snapshot,
            scale: self.scale,
            tile_size,
            tile_pos,
            blocker: if self.options.disable_transactions {
                TransactionBlocker::Completed
            } else {
                blocker
            },
            anim: Animation::started(
                Float::whole(0),
                Float::whole(1),
                Float::whole(0),
                self.options.window_close,
            ),
        }
    }

    /// The canvas once the picture captured of a window was taken from its tile.
    pub open spec fn picture_taken(self, id: u64) -> Self {
        if self.holds(id) {
            let i = first(self.tiles, id);
            CanvasView {
                tiles: self.tiles.update(
                    i,
                    Tile { unmap_snapshot: None::<TileRenderSnapshot>, ..self.tiles[i] },
                ),
                ..self
            }
        } else {
            self
        }
    }

    /// What a window's tile closes with: the picture captured of it, where the tile is at the
    /// moment. Nothing if the window is not here or there is no picture.
    pub open spec fn closing_of(self, id: u64, blocker: TransactionBlocker) -> Option<
        CloseAnimation,
    > {
        let i = first(self.tiles, id);
        if self.holds(id) && self.tiles[i].unmap_snapshot is Some {
            Some(
                self.close_animation(
                    self.tiles[i].unmap_snapshot->0,
                    self.tiles[i].tile_size,
                    self.raw_position(i),
                    blocker,
                ),
            )
        } else {
            None
        }
    }

    /// The canvas once it has taken on a closing window, if one was made.
    pub open spec fn with_closing(self, made: Option<ClosingWindow>) -> Self {
        match made {
            Some(closing) => CanvasView {
                closing_windows: self.closing_windows.push(closing),
                ..self
            },
            None => self,
        }
    }
}

/// Where `point` is hit-tested.
pub open spec fn hit_point(overview: Option<OverviewFit>, point: Point) -> Point {
    match overview {
        None => point,
        Some(fit) => point.spec_downscale(fit.scale),
    }
}

/// What a side of `original` becomes when one of its edges is dragged by `delta`, the near edge
/// growing it backwards.
pub open spec fn dragged_side(original: Float, delta: Float, near: bool) -> i32 {
    let grown = if near {
        delta.spec_neg()
    } else {
        delta
    };
    original.spec_add(grown).spec_round().spec_to_i32() as i32
}

} // verus!
