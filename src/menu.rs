//! The menu canvas: its layout arithmetic and the application states.
use vstd::prelude::*;
use crate::fixed::{FX_ONE, Vector2, fx, fits_i64, mul_div};
use crate::track::{letterbox, letterbox_scale, fits_side};

verus! {

/// Upper bound on a canvas dimension: a billion units.
pub const CANVAS_LIMIT: i64 = 1_000_000_000_000_000;

/// The mode the application is in.
#[derive(Clone, Copy, Debug, PartialEq, Eq, Structural, Hash)]
pub enum AppState {
    PlayerControl,
    TrackCreation,
    TrackRendering,
}

impl Default for AppState {
    fn default() -> (r: AppState)
        ensures
            r == AppState::PlayerControl,
    {
        AppState::PlayerControl
    }
}

/// The menu canvas: a track area of `2 * half_extents` beside a column of
/// buttons `button_width` wide, drawn at `scale`; all in fixed point.
#[derive(Clone, Debug)]
pub struct Canvas {
    pub half_extents: Vector2,
    pub button_width: i64,
    pub scale: i64,
    pub buttons: Vec<&'static str>,
}

/// Marks the root node of the canvas.
#[derive(Clone, Copy, Debug, PartialEq, Eq, Structural)]
pub struct CanvasRoot;

/// A text on the canvas with its unscaled font size.
#[derive(Clone, Copy, Debug, PartialEq, Eq, Structural)]
pub struct CanvasText(pub i64);

/// The label of a menu button.
#[derive(Clone, Copy, Debug, PartialEq, Eq)]
pub struct ButtonName(pub &'static str);

impl Canvas {
    /// Positive half extents, a non-negative button column, all bounded.
    pub open spec fn wf(&self) -> bool {
        &&& 0 < self.half_extents.x <= CANVAS_LIMIT
        &&& 0 < self.half_extents.y <= CANVAS_LIMIT
        &&& 0 <= self.button_width <= CANVAS_LIMIT
    }

    /// Whether the canvas satisfies `wf`.
    pub fn is_valid(&self) -> (r: bool)
        ensures
            r == self.wf(),
    {
        0 < self.half_extents.x && self.half_extents.x <= CANVAS_LIMIT && 0 < self.half_extents.y
            && self.half_extents.y <= CANVAS_LIMIT && 0 <= self.button_width && self.button_width
            <= CANVAS_LIMIT
    }

    /// Unscaled size of the whole canvas: track area plus button column.
    pub open spec fn size_of(&self) -> Vector2 {
        Vector2 {
            x: (2 * self.half_extents.x + self.button_width) as i64,
            y: (2 * self.half_extents.y) as i64,
        }
    }

    /// An 1600 by 900 track area with a 150 wide button column, at scale one.
    pub fn new_default() -> (r: Canvas)
        ensures
            r.half_extents.x == 800 * FX_ONE && r.half_extents.y == 450 * FX_ONE,
            r.button_width == 150 * FX_ONE,
            r.scale == FX_ONE,
            r.buttons@.len() == 3,
            r.wf(),
    {
        Canvas {
            half_extents: Vector2 { x: 800 * FX_ONE, y: 450 * FX_ONE },
            button_width: 150 * FX_ONE,
            scale: FX_ONE,
            buttons: vec!["Play", "Create Track", "Finish Track"],
        }
    }

    /// Unscaled size of the whole canvas: `2 * half_extents + (button_width, 0)`.
    pub fn size(&self) -> (r: Vector2)
        requires
            self.wf(),
        ensures
            r == self.size_of(),
            r.x as int == 2 * self.half_extents.x + self.button_width,
            r.y as int == 2 * self.half_extents.y,
    {
        Vector2 {
            x: 2 * self.half_extents.x + self.button_width,
            y: 2 * self.half_extents.y,
        }
    }

    /// Sets the scale to the largest one at which the whole canvas fits in
    /// a window of size `window`.
    pub fn compute_scale(&mut self, window: Vector2)
        requires
            old(self).wf(),
            window.x >= 0,
            window.y >= 0,
            fits_i64(letterbox(old(self).size_of(), window)),
        ensures
            final(self).scale == letterbox(old(self).size_of(), window),
            final(self).half_extents == old(self).half_extents,
            final(self).button_width == old(self).button_width,
            final(self).buttons == old(self).buttons,
            fits_side(old(self).size_of().x as int, final(self).scale as int, window.x as int),
            fits_side(old(self).size_of().y as int, final(self).scale as int, window.y as int),
    {
        let size = self.size();
        self.scale = letterbox_scale(size, window);
    }

    /// Size of the canvas on screen: its unscaled size times the scale.
    pub fn resolution(&self) -> (r: Vector2)
        requires
            self.wf(),
            fits_i64(fx(self.size_of().x * self.scale)),
            fits_i64(fx(self.size_of().y * self.scale)),
        ensures
            r.x == fx(self.size_of().x * self.scale),
            r.y == fx(self.size_of().y * self.scale),
    {
        let size = self.size();
        Vector2 { x: mul_div(size.x, self.scale, FX_ONE), y: mul_div(size.y, self.scale, FX_ONE) }
    }

    /// A font size on screen: the text's own size times the scale.
    pub fn font_size(&self, text: CanvasText) -> (r: i64)
        requires
            fits_i64(fx(text.0 * self.scale)),
        ensures
            r == fx(text.0 * self.scale),
    {
        mul_div(text.0, self.scale, FX_ONE)
    }
}

impl Default for Canvas {
    fn default() -> (r: Canvas)
        ensures
            r.half_extents.x == 800 * FX_ONE && r.half_extents.y == 450 * FX_ONE,
            r.button_width == 150 * FX_ONE,
            r.scale == FX_ONE,
            r.buttons@.len() == 3,
    {
        Canvas::new_default()
    }
}

} // verus!
