//! The bounds of what is on the canvas, and the view that fits it all.

use crate::float::{lemma_unit_is_large, lemma_whole, Float, UNIT_EXPONENT};
use crate::geometry::{Point, Rectangle, Size};
use crate::rounding::{
    lemma_magnitude_increases, lemma_nearest_exact, lemma_nearest_is_monotone, magnitude, nearest,
};
use crate::state::OverviewFit;
use crate::tile::{LayoutElement, Tile};
use vstd::arithmetic::power2::{lemma_pow2_pos, pow2};
use vstd::prelude::*;

verus! {

/// Padding of the overview in logical pixels, so that tiles are not drawn flush with its edge.
pub const PADDING: i32 = 32;

/// The least of the first `n` numbers of `s`. The first one stands while nothing is less.
pub open spec fn least(s: Seq<Float>, n: nat) -> Float
    decreases n,
{
    if n <= 1 {
        s[0]
    } else {
        let before = least(s, (n - 1) as nat);
        if s[n - 1].spec_lt(before) {
            s[n - 1]
        } else {
            before
        }
    }
}

/// The greatest of the first `n` numbers of `s`. The first one stands while nothing is greater.
pub open spec fn greatest(s: Seq<Float>, n: nat) -> Float
    decreases n,
{
    if n <= 1 {
        s[0]
    } else {
        let before = greatest(s, (n - 1) as nat);
        if before.spec_lt(s[n - 1]) {
            s[n - 1]
        } else {
            before
        }
    }
}

pub open spec fn lefts<W>(tiles: Seq<Tile<W>>) -> Seq<Float> {
    tiles.map_values(|tile: Tile<W>| tile.canvas_pos.x)
}

pub open spec fn tops<W>(tiles: Seq<Tile<W>>) -> Seq<Float> {
    tiles.map_values(|tile: Tile<W>| tile.canvas_pos.y)
}

pub open spec fn rights<W>(tiles: Seq<Tile<W>>) -> Seq<Float> {
    tiles.map_values(|tile: Tile<W>| tile.canvas_pos.x.spec_add(tile.tile_size.w))
}

pub open spec fn bottoms<W>(tiles: Seq<Tile<W>>) -> Seq<Float> {
    tiles.map_values(|tile: Tile<W>| tile.canvas_pos.y.spec_add(tile.tile_size.h))
}

/// The box around all tiles, if there are any.
pub open spec fn bounds<W>(tiles: Seq<Tile<W>>) -> Option<Rectangle> {
    let n = tiles.len();
    if n == 0 {
        None
    } else {
        let left = least(lefts(tiles), n);
        let top = least(tops(tiles), n);
        Some(
            Rectangle {
                loc: Point { x: left, y: top },
                size: Size {
                    w: greatest(rights(tiles), n).spec_sub(left),
                    h: greatest(bottoms(tiles), n).spec_sub(top),
                },
            },
        )
    }
}

/// One thousandth, the least scale of an overview.
pub open spec fn thousandth() -> Float {
    Float::whole(1).spec_div(Float::whole(1000))
}

/// `length` with the padding on both sides, and not nothing.
pub open spec fn padded(length: Float) -> Float {
    length.spec_add(Float::whole(PADDING as int).spec_mul(Float::whole(2))).spec_max(thousandth())
}

/// The scale at which the padded content just fits the view.
pub open spec fn fitting_scale(content: Size, view: Size) -> Float {
    view.w.spec_div(padded(content.w)).spec_min(view.h.spec_div(padded(content.h)))
}

/// Where the view starts whose middle, at `scale`, is that of the content.
pub open spec fn centered(start: Float, length: Float, view: Float, scale: Float) -> Float {
    let two = Float::whole(2);
    start.spec_add(length.spec_div(two)).spec_sub(view.spec_div(two.spec_mul(scale)))
}

/// The view that fits the tiles and is centered on them. None if there are no tiles, if the view
/// has no area, or if they already fit with their padding.
pub open spec fn fit<W>(tiles: Seq<Tile<W>>, view: Size) -> Option<OverviewFit> {
    match bounds(tiles) {
        None => None,
        Some(bbox) => {
            let scale = fitting_scale(bbox.size, view);
            if !Float::whole(0).spec_lt(view.w) || !Float::whole(0).spec_lt(view.h) {
                None
            } else if !scale.spec_is_nan() && !scale.spec_lt(Float::whole(1)) {
                None
            } else {
                let scale = scale.spec_clamp(thousandth(), Float::whole(1));
                Some(
                    OverviewFit {
                        view_pos: Point {
                            x: centered(bbox.loc.x, bbox.size.w, view.w, scale),
                            y: centered(bbox.loc.y, bbox.size.h, view.h, scale),
                        },
                        scale,
                    },
                )
            }
        },
    }
}

/// The box around all tiles.
pub fn bounds_of<W: LayoutElement>(tiles: &Vec<Tile<W>>) -> (r: Option<Rectangle>)
    ensures
        r == bounds(tiles@),
{
    if tiles.len() == 0 {
        return None;
    }
    let first_pos = tiles[0].canvas_pos;
    let first_size = tiles[0].tile_size;
    let mut min_x = first_pos.x;
    let mut min_y = first_pos.y;
    let mut max_x = first_pos.x.add(first_size.w);
    let mut max_y = first_pos.y.add(first_size.h);
    let mut i: usize = 1;
    while i < tiles.len()
        invariant
            1 <= i <= tiles.len(),
            min_x == least(lefts(tiles@), i as nat),
            min_y == least(tops(tiles@), i as nat),
            max_x == greatest(rights(tiles@), i as nat),
            max_y == greatest(bottoms(tiles@), i as nat),
        decreases tiles.len() - i,
    {
        let pos = tiles[i].canvas_pos;
        let size = tiles[i].tile_size;
        let right = pos.x.add(size.w);
        let bottom = pos.y.add(size.h);
        if pos.x.lt(min_x) {
            min_x = pos.x;
        }
        if pos.y.lt(min_y) {
            min_y = pos.y;
        }
        if max_x.lt(right) {
            max_x = right;
        }
        if max_y.lt(bottom) {
            max_y = bottom;
        }
        i = i + 1;
    }
    Some(
        Rectangle {
            loc: Point { x: min_x, y: min_y },
            size: Size { w: max_x.sub(min_x), h: max_y.sub(min_y) },
        },
    )
}

fn pad(length: Float) -> (r: Float)
    ensures
        r == padded(length),
{
    let least_length = Float::from_i32(1).div(Float::from_i32(1000));
    length.add(Float::from_i32(PADDING).mul(Float::from_i32(2))).max(least_length)
}

fn center(start: Float, length: Float, view: Float, scale: Float) -> (r: Float)
    ensures
        r == centered(start, length, view, scale),
{
    let two = Float::from_i32(2);
    start.add(length.div(two)).sub(view.div(two.mul(scale)))
}

/// The view that fits the tiles and is centered on them.
pub fn fit_of<W: LayoutElement>(tiles: &Vec<Tile<W>>, view: Size) -> (r: Option<OverviewFit>)
    ensures
        r == fit(tiles@, view),
{
    let bbox = match bounds_of(tiles) {
        Some(bbox) => bbox,
        None => return None,
    };
    let zero = Float::from_i32(0);
    if !zero.lt(view.w) || !zero.lt(view.h) {
        return None;
    }
    let one = Float::from_i32(1);
    let fit_x = view.w.div(pad(bbox.size.w));
    let fit_y = view.h.div(pad(bbox.size.h));
    let needed = fit_x.min(fit_y);
    if !needed.is_nan() && !needed.lt(one) {
        return None;
    }
    proof {
        lemma_thousandth();
    }
    let scale = needed.clamp(one.div(Float::from_i32(1000)), one);
    Some(
        OverviewFit {
            view_pos: Point {
                x: center(bbox.loc.x, bbox.size.w, view.w, scale),
                y: center(bbox.loc.y, bbox.size.h, view.h, scale),
            },
            scale,
        },
    )
}

/// One thousandth is above 0 and not above 1.
pub(crate) proof fn lemma_thousandth()
    ensures
        !thousandth().spec_is_nan(),
        !Float::whole(1).spec_is_nan(),
        Float::whole(0).spec_lt(thousandth()),
        !Float::whole(1).spec_lt(thousandth()),
{
    let unit = pow2(UNIT_EXPONENT as nat);
    lemma_pow2_pos(UNIT_EXPONENT as nat);
    lemma_whole(0);
    lemma_whole(1);
    lemma_whole(1000);
    let one = Float::whole(1);
    let thousand = Float::whole(1000);
    assert(0 * unit == 0 && 1 * unit == unit) by (nonlinear_arith);
    lemma_nearest_exact(one.pattern());
    assert(magnitude(0) == 0);
    let m = magnitude(thousand.pattern());
    let n = unit * unit;
    assert(m == 1000 * unit);
    let p = nearest(n, m);
    // The quotient is at most one, and no less than the least positive number.
    assert(n * 1 <= unit * m) by (nonlinear_arith)
        requires
            n == unit * unit,
            m == 1000 * unit,
    ;
    lemma_nearest_is_monotone(n, m, unit, 1);
    assert(magnitude(1) == 1);
    lemma_nearest_exact(1);
    lemma_unit_is_large();
    assert(1 * m <= n * 1) by (nonlinear_arith)
        requires
            n == unit * unit,
            m == 1000 * unit,
            unit >= 1000,
    ;
    lemma_nearest_is_monotone(1, 1, n, m);
    assert(magnitude(p) >= 1) by {
        if p > 1 {
            lemma_magnitude_increases(1, p);
        }
    }
    if p < one.pattern() {
        lemma_magnitude_increases(p, one.pattern());
    }
    assert(thousandth().units() == magnitude(p));
}

} // verus!
