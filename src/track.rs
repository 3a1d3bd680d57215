//! The track plane and its mapping to world (screen) coordinates.
use vstd::prelude::*;
use vstd::math::abs;
use crate::fixed::{FX_ONE, Vector2, tdiv, fx, fits_i64, lemma_tdiv_bounds, lemma_tdiv_le};

verus! {

/// Logical track dimensions and the track-to-world scale, both in fixed point.
#[derive(Clone, Copy, Debug, PartialEq, Eq, Structural)]
pub struct TrackConfig {
    /// Logical width and height of the track.
    pub logical_size: Vector2,
    /// World units per track unit.
    pub scale: i64,
}

/// World coordinate of a track coordinate `p` on an axis of size `size`.
pub open spec fn to_world(p: int, size: int, scale: int) -> int {
    fx((p - tdiv(size, 2)) * scale)
}

/// Track coordinate of a world coordinate `w` on an axis of size `size`.
pub open spec fn to_track(w: int, size: int, scale: int) -> int {
    tdiv(w * FX_ONE, scale) + tdiv(size, 2)
}

impl Default for TrackConfig {
    fn default() -> (r: TrackConfig)
        ensures
            r.logical_size.x == 100 * FX_ONE,
            r.logical_size.y == 100 * FX_ONE,
            r.scale == FX_ONE,
    {
        TrackConfig::new_default()
    }
}

/// `scale` keeps a track side of `size` within a window side of `window`.
pub open spec fn fits_side(size: int, scale: int, window: int) -> bool {
    size * scale <= window * FX_ONE
}

impl TrackConfig {
    /// Sizes are positive and the scale is positive.
    pub open spec fn wf(&self) -> bool {
        self.logical_size.x > 0 && self.logical_size.y > 0 && self.scale > 0
    }

    pub open spec fn world_of(&self, p: Vector2) -> (int, int) {
        (
            to_world(p.x as int, self.logical_size.x as int, self.scale as int),
            to_world(p.y as int, self.logical_size.y as int, self.scale as int),
        )
    }

    pub open spec fn track_of(&self, w: Vector2) -> (int, int) {
        (
            to_track(w.x as int, self.logical_size.x as int, self.scale as int),
            to_track(w.y as int, self.logical_size.y as int, self.scale as int),
        )
    }

    /// The largest scale that keeps the whole track inside `window`.
    pub open spec fn fit_scale(&self, window: Vector2) -> int {
        letterbox(self.logical_size, window)
    }

    /// Whether `track_to_world(p)` is representable.
    pub fn world_fits(&self, p: Vector2) -> (r: bool)
        ensures
            r == (fits_i64(self.world_of(p).0) && fits_i64(self.world_of(p).1)),
    {
        let qx = p.x as i128 - (self.logical_size.x / 2) as i128;
        let qy = p.y as i128 - (self.logical_size.y / 2) as i128;
        let wx = mul_div_wide(qx, self.scale as i128);
        let wy = mul_div_wide(qy, self.scale as i128);
        i64::MIN as i128 <= wx && wx <= i64::MAX as i128 && i64::MIN as i128 <= wy && wy <= i64::MAX as i128
    }

    /// Whether `world_to_track(w)` is representable (`scale` must be positive).
    pub fn track_fits(&self, w: Vector2) -> (r: bool)
        requires
            self.scale > 0,
        ensures
            r == (fits_i64(self.track_of(w).0) && fits_i64(self.track_of(w).1)),
    {
        let ax = w.x as i128 * FX_ONE as i128;
        let ay = w.y as i128 * FX_ONE as i128;
        proof {
            lemma_tdiv_le(ax as int, self.scale as int);
            lemma_tdiv_le(ay as int, self.scale as int);
        }
        let px = ax / self.scale as i128 + (self.logical_size.x / 2) as i128;
        let py = ay / self.scale as i128 + (self.logical_size.y / 2) as i128;
        i64::MIN as i128 <= px && px <= i64::MAX as i128 && i64::MIN as i128 <= py && py <= i64::MAX as i128
    }

    /// Whether `compute_scale(window)` is representable, for a track with
    /// positive sizes and a window of non-negative size.
    pub fn scale_fits(&self, window: Vector2) -> (r: bool)
        requires
            self.logical_size.x > 0,
            self.logical_size.y > 0,
            window.x >= 0,
            window.y >= 0,
        ensures
            r == fits_i64(self.fit_scale(window)),
    {
        letterbox_fits(self.logical_size, window)
    }

    /// A 100 by 100 track at scale one.
    pub fn new_default() -> (r: TrackConfig)
        ensures
            r.logical_size.x == 100 * FX_ONE,
            r.logical_size.y == 100 * FX_ONE,
            r.scale == FX_ONE,
            r.wf(),
    {
        TrackConfig { logical_size: Vector2 { x: 100 * FX_ONE, y: 100 * FX_ONE }, scale: FX_ONE }
    }

    /// Maps a track position to a world position: `(p - size / 2) * scale`.
    pub fn track_to_world(&self, track_coords: Vector2) -> (r: Vector2)
        requires
            fits_i64(self.world_of(track_coords).0),
            fits_i64(self.world_of(track_coords).1),
        ensures
            (r.x as int, r.y as int) == self.world_of(track_coords),
    {
        let hx = self.logical_size.x / 2;
        let hy = self.logical_size.y / 2;
        let qx = track_coords.x as i128 - hx as i128;
        let qy = track_coords.y as i128 - hy as i128;
        Vector2 {
            x: mul_div_wide(qx, self.scale as i128) as i64,
            y: mul_div_wide(qy, self.scale as i128) as i64,
        }
    }

    /// Maps a world position back to a track position: `p / scale + size / 2`.
    pub fn world_to_track(&self, world_pos: Vector2) -> (r: Vector2)
        requires
            self.scale > 0,
            fits_i64(self.track_of(world_pos).0),
            fits_i64(self.track_of(world_pos).1),
        ensures
            (r.x as int, r.y as int) == self.track_of(world_pos),
    {
        let hx = self.logical_size.x / 2;
        let hy = self.logical_size.y / 2;
        let px = (world_pos.x as i128 * FX_ONE as i128) / self.scale as i128;
        let py = (world_pos.y as i128 * FX_ONE as i128) / self.scale as i128;
        Vector2 { x: (px + hx as i128) as i64, y: (py + hy as i128) as i64 }
    }

    /// Sets the scale to the largest one that keeps the whole track inside a
    /// window of size `window_size` on both axes.
    pub fn compute_scale(&mut self, window_size: Vector2)
        requires
            old(self).logical_size.x > 0,
            old(self).logical_size.y > 0,
            window_size.x >= 0,
            window_size.y >= 0,
            fits_i64(old(self).fit_scale(window_size)),
        ensures
            final(self).logical_size == old(self).logical_size,
            final(self).scale == old(self).fit_scale(window_size),
            fits_side(final(self).logical_size.x as int, final(self).scale as int, window_size.x as int),
            fits_side(final(self).logical_size.y as int, final(self).scale as int, window_size.y as int),
            !fits_side(final(self).logical_size.x as int, final(self).scale + 1, window_size.x as int)
                || !fits_side(final(self).logical_size.y as int, final(self).scale + 1, window_size.y as int),
    {
        self.scale = letterbox_scale(self.logical_size, window_size);
    }
}

/// The largest scale at which a `size` rectangle fits in a `window` rectangle:
/// `min(window.x / size.x, window.y / size.y)`, rounded down.
pub open spec fn letterbox(size: Vector2, window: Vector2) -> int {
    let sx = tdiv(window.x * FX_ONE, size.x as int);
    let sy = tdiv(window.y * FX_ONE, size.y as int);
    if sx <= sy {
        sx
    } else {
        sy
    }
}

/// Whether `letterbox(size, window)` is representable.
pub fn letterbox_fits(size: Vector2, window: Vector2) -> (r: bool)
    requires
        size.x > 0,
        size.y > 0,
        window.x >= 0,
        window.y >= 0,
    ensures
        r == fits_i64(letterbox(size, window)),
{
    let sx = (window.x as i128 * FX_ONE as i128) / size.x as i128;
    let sy = (window.y as i128 * FX_ONE as i128) / size.y as i128;
    let s = if sx <= sy { sx } else { sy };
    s <= i64::MAX as i128
}

/// Computes `letterbox(size, window)`: the rectangle fits at that scale on
/// both axes, and at the next larger scale it no longer fits on one of them.
pub fn letterbox_scale(size: Vector2, window: Vector2) -> (r: i64)
    requires
        size.x > 0,
        size.y > 0,
        window.x >= 0,
        window.y >= 0,
        fits_i64(letterbox(size, window)),
    ensures
        r == letterbox(size, window),
        fits_side(size.x as int, r as int, window.x as int),
        fits_side(size.y as int, r as int, window.y as int),
        !fits_side(size.x as int, r + 1, window.x as int) || !fits_side(size.y as int, r + 1, window.y as int),
{
    let lx = size.x as i128;
    let ly = size.y as i128;
    let sx = (window.x as i128 * FX_ONE as i128) / lx;
    let sy = (window.y as i128 * FX_ONE as i128) / ly;
    proof {
        lemma_tdiv_bounds(window.x * FX_ONE, lx as int);
        lemma_tdiv_bounds(window.y * FX_ONE, ly as int);
        assert(sx * lx == lx * sx) by (nonlinear_arith);
        assert(sy * ly == ly * sy) by (nonlinear_arith);
        assert(lx * (sx + 1) == sx * lx + lx) by (nonlinear_arith);
        assert(ly * (sy + 1) == sy * ly + ly) by (nonlinear_arith);
        assert(window.x * FX_ONE < lx * (sx + 1));
        assert(window.y * FX_ONE < ly * (sy + 1));
    }
    let s = if sx <= sy { sx } else { sy };
    proof {
        assert(lx * s <= lx * sx) by (nonlinear_arith)
            requires
                s <= sx,
                lx > 0,
        ;
        assert(ly * s <= ly * sy) by (nonlinear_arith)
            requires
                s <= sy,
                ly > 0,
        ;
    }
    s as i64
}

/// On one axis, mapping a track coordinate to the world and back loses less
/// than one world step: `|back - p| * scale < FX_ONE + scale`.
pub proof fn lemma_axis_round_trip(p: int, size: int, scale: int)
    requires
        scale > 0,
    ensures
        abs(to_track(to_world(p, size, scale), size, scale) - p) * scale < FX_ONE + scale,
{
    let h = tdiv(size, 2);
    let q = p - h;
    let w = fx(q * scale);
    let b = tdiv(w * FX_ONE, scale);
    let one = FX_ONE as int;
    lemma_tdiv_bounds(q * scale, one);
    lemma_tdiv_bounds(w * FX_ONE, scale);
    assert(to_track(to_world(p, size, scale), size, scale) - p == b - q);
    if q >= 0 {
        assert(q * scale >= 0) by (nonlinear_arith)
            requires
                q >= 0,
                scale > 0,
        ;
        assert(b * scale <= q * scale);
        assert(b <= q) by (nonlinear_arith)
            requires
                b * scale <= q * scale,
                scale > 0,
        ;
        assert((q - b) * scale == q * scale - b * scale) by (nonlinear_arith);
        assert(abs(b - q) == q - b);
    } else {
        assert(q * scale < 0) by (nonlinear_arith)
            requires
                q < 0,
                scale > 0,
        ;
        assert(q * scale <= b * scale);
        assert(q <= b) by (nonlinear_arith)
            requires
                q * scale <= b * scale,
                scale > 0,
        ;
        assert((b - q) * scale == b * scale - q * scale) by (nonlinear_arith);
        assert(abs(b - q) == b - q);
    }
}

/// Round trip: mapping any track point to the world and back gives it again,
/// to within one world step plus one micro-unit per axis; at a scale of at
/// least one hundredth that is within 1e-4 (100 micro-units) per axis.
pub proof fn lemma_round_trip(track: TrackConfig, p: Vector2)
    requires
        track.scale > 0,
    ensures
        abs(to_track(track.world_of(p).0, track.logical_size.x as int, track.scale as int) - p.x)
            * track.scale < FX_ONE + track.scale,
        abs(to_track(track.world_of(p).1, track.logical_size.y as int, track.scale as int) - p.y)
            * track.scale < FX_ONE + track.scale,
        track.scale >= FX_ONE / 100 ==> abs(
            to_track(track.world_of(p).0, track.logical_size.x as int, track.scale as int) - p.x,
        ) <= 100 && abs(
            to_track(track.world_of(p).1, track.logical_size.y as int, track.scale as int) - p.y,
        ) <= 100,
{
    let s = track.scale as int;
    lemma_axis_round_trip(p.x as int, track.logical_size.x as int, s);
    lemma_axis_round_trip(p.y as int, track.logical_size.y as int, s);
    let dx = abs(to_track(track.world_of(p).0, track.logical_size.x as int, s) - p.x);
    let dy = abs(to_track(track.world_of(p).1, track.logical_size.y as int, s) - p.y);
    if s >= FX_ONE / 100 {
        assert(dx <= 100) by (nonlinear_arith)
            requires
                dx * s < 1_000_000 + s,
                s >= 10_000,
                dx >= 0,
        ;
        assert(dy <= 100) by (nonlinear_arith)
            requires
                dy * s < 1_000_000 + s,
                s >= 10_000,
                dy >= 0,
        ;
    }
}

/// `q * s / FX_ONE` rounded toward zero, for a wide `q`.
fn mul_div_wide(q: i128, s: i128) -> (r: i128)
    requires
        -0xC000_0000_0000_0000 <= q <= 0xC000_0000_0000_0000,
        i64::MIN <= s <= i64::MAX,
    ensures
        r == fx(q * s),
{
    assert(-0x6000_0000_0000_0000_0000_0000_0000_0000 <= q * s <= 0x6000_0000_0000_0000_0000_0000_0000_0000) by (nonlinear_arith)
        requires
            -0xC000_0000_0000_0000 <= q <= 0xC000_0000_0000_0000,
            -0x8000_0000_0000_0000 <= s <= 0x8000_0000_0000_0000,
    ;
    (q * s) / (FX_ONE as i128)
}

} // verus!
