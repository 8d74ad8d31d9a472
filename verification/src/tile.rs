//! Windows and the tiles that hold them.

use crate::camera::AnimationConfig;
use crate::float::Float;
use crate::geometry::{Point, Size, WindowSize};
use vstd::prelude::*;

verus! {

/// What the layout reads of a window.
#[derive(Clone, Copy, Debug)]
pub struct WindowState {
    pub id: u64,
    /// The size of the window as it is.
    pub size: WindowSize,
    /// The size that the window has or will shortly have, where one is known.
    pub expected_size: Option<WindowSize>,
    /// The smallest size that the window takes; a side of 0 sets no bound.
    pub min_size: WindowSize,
    /// The largest size that the window takes; a side of 0 sets no bound.
    pub max_size: WindowSize,
}

/// A window, as the host implements it.
pub trait LayoutElement: Sized {
    /// The window's state at the moment.
    spec fn state(&self) -> WindowState;

    /// Whether a request for `size` can turn `before` into `after`.
    spec fn size_requested(before: Self, size: WindowSize, animate: bool, after: Self) -> bool;

    /// Whether the commit of `serial` can turn `before` into `after`.
    spec fn commit_noted(before: Self, serial: u32, after: Self) -> bool;

    fn id(&self) -> (r: u64)
        ensures
            r == self.state().id,
    ;

    fn size(&self) -> (r: WindowSize)
        ensures
            r == self.state().size,
    ;

    fn expected_size(&self) -> (r: Option<WindowSize>)
        ensures
            r == self.state().expected_size,
    ;

    fn min_size(&self) -> (r: WindowSize)
        ensures
            r == self.state().min_size,
    ;

    fn max_size(&self) -> (r: WindowSize)
        ensures
            r == self.state().max_size,
    ;

    /// Asks the window for a size, for this one time. A window keeps its id.
    fn request_size_once(&mut self, size: WindowSize, animate: bool)
        ensures
            Self::size_requested(*old(self), size, animate, *final(self)),
            final(self).state().id == old(self).state().id,
    ;

    /// Notes that the window has committed the configuration of `serial`. A window keeps its id.
    fn on_commit(&mut self, serial: u32)
        ensures
            Self::commit_noted(*old(self), serial, *final(self)),
            final(self).state().id == old(self).state().id,
    ;
}

/// A size that a window is to be asked for.
#[derive(Clone, Copy, Debug, PartialEq, Eq, Structural)]
pub struct SizeRequest {
    pub size: WindowSize,
    pub animate: bool,
}

/// A window kept as a record, for a host that mirrors its windows: the host fills in what it
/// measures and carries out the requests that have gathered.
#[derive(Debug)]
pub struct WindowRecord {
    pub id: u64,
    pub size: WindowSize,
    pub expected_size: Option<WindowSize>,
    pub min_size: WindowSize,
    pub max_size: WindowSize,
    /// Requests to be carried out, in order.
    pub requests: Vec<SizeRequest>,
    /// The last commit that was noted.
    pub last_commit: Option<u32>,
}

impl LayoutElement for WindowRecord {
    open spec fn state(&self) -> WindowState {
        WindowState {
            id: self.id,
            size: self.size,
            expected_size: self.expected_size,
            min_size: self.min_size,
            max_size: self.max_size,
        }
    }

    /// The request is noted, and its size is what the window is expected to have.
    open spec fn size_requested(
        before: Self,
        size: WindowSize,
        animate: bool,
        after: Self,
    ) -> bool {
        &&& after.state() == (WindowState { expected_size: Some(size), ..before.state() })
        &&& after.requests@ == before.requests@.push(SizeRequest { size, animate })
        &&& after.last_commit == before.last_commit
    }

    open spec fn commit_noted(before: Self, serial: u32, after: Self) -> bool {
        &&& after.state() == before.state()
        &&& after.requests@ == before.requests@
        &&& after.last_commit == Some(serial)
    }

    fn id(&self) -> u64 {
        self.id
    }

    fn size(&self) -> WindowSize {
        self.size
    }

    fn expected_size(&self) -> Option<WindowSize> {
        self.expected_size
    }

    fn min_size(&self) -> WindowSize {
        self.min_size
    }

    fn max_size(&self) -> WindowSize {
        self.max_size
    }

    fn request_size_once(&mut self, size: WindowSize, animate: bool) {
        self.requests.push(SizeRequest { size, animate });
        self.expected_size = Some(size);
    }

    fn on_commit(&mut self, serial: u32) {
        self.last_commit = Some(serial);
    }
}

/// The settings that the layout reads.
#[derive(Clone, Copy, Debug, PartialEq, Eq, Structural)]
pub struct Options {
    /// Names the shared value that these are read from: two with different names are not the same
    /// options, even if they say the same.
    pub handle: u64,
    /// Whether windows close without waiting for each other.
    pub disable_transactions: bool,
    /// The curve of the camera.
    pub horizontal_view_movement: AnimationConfig,
    /// The curve of a closing window.
    pub window_close: AnimationConfig,
}

/// Names a captured picture of a tile that the host keeps.
#[derive(Clone, Copy, Debug, PartialEq, Eq, Structural)]
pub struct TileRenderSnapshot {
    pub handle: u64,
}

/// What is measured of a tile: what its decorations and animations make of it at one moment.
#[derive(Clone, Copy, Debug)]
pub struct TileMeasures {
    pub tile_size: Size,
    pub expected_or_current_size: Size,
    pub window_size: Size,
    pub frame: Size,
    pub render_offset: Point,
    pub animations_ongoing: bool,
    pub transitions_ongoing: bool,
    pub is_valid: bool,
}

/// A window on the canvas, with what its decorations and animations make of it at the moment.
#[derive(Debug)]
pub struct Tile<W> {
    pub window: W,
    /// Position of the top left corner on the canvas.
    pub canvas_pos: Point,
    /// Size with decorations, as it is drawn.
    pub tile_size: Size,
    /// Size with decorations that the tile has or will shortly have.
    pub expected_or_current_size: Size,
    /// Size of the window in it, as it is drawn.
    pub window_size: Size,
    /// What the decorations add to the size of the window: a tile of a given size leaves the window
    /// that much less.
    pub frame: Size,
    /// How far animations draw the tile away from its position.
    pub render_offset: Point,
    /// What was captured when the window was about to go away.
    pub unmap_snapshot: Option<TileRenderSnapshot>,
    pub animations_ongoing: bool,
    pub transitions_ongoing: bool,
    /// Whether what the tile itself must keep was found to hold.
    pub is_valid: bool,
    /// The configuration that the tile was last given.
    pub view_size: Size,
    pub scale: Float,
    pub options: Options,
}

impl<W: LayoutElement> Tile<W> {
    pub open spec fn id(self) -> u64 {
        self.window.state().id
    }

    /// The tile with new measures.
    pub open spec fn measured(self, measures: TileMeasures) -> Self {
        Tile {
            tile_size: measures.tile_size,
            expected_or_current_size: measures.expected_or_current_size,
            window_size: measures.window_size,
            frame: measures.frame,
            render_offset: measures.render_offset,
            animations_ongoing: measures.animations_ongoing,
            transitions_ongoing: measures.transitions_ongoing,
            is_valid: measures.is_valid,
            ..self
        }
    }

    /// Takes over new measures.
    pub fn measure(&mut self, measures: TileMeasures)
        ensures
            *final(self) == old(self).measured(measures),
    {
        self.tile_size = measures.tile_size;
        self.expected_or_current_size = measures.expected_or_current_size;
        self.window_size = measures.window_size;
        self.frame = measures.frame;
        self.render_offset = measures.render_offset;
        self.animations_ongoing = measures.animations_ongoing;
        self.transitions_ongoing = measures.transitions_ongoing;
        self.is_valid = measures.is_valid;
    }

    /// Takes over the configuration of the space that the tile is on.
    pub fn update_config(&mut self, view_size: Size, scale: Float, options: Options)
        ensures
            *final(self) == (Tile { view_size, scale, options, ..*old(self) }),
    {
        self.view_size = view_size;
        self.scale = scale;
        self.options = options;
    }

    /// Takes the captured picture, if there is one.
    pub fn take_unmap_snapshot(&mut self) -> (r: Option<TileRenderSnapshot>)
        ensures
            r == old(self).unmap_snapshot,
            *final(self) == (Tile { unmap_snapshot: None::<TileRenderSnapshot>, ..*old(self) }),
    {
        let taken = self.unmap_snapshot;
        self.unmap_snapshot = None;
        taken
    }
}

} // verus!
