//! What holds of the bounds and of the overview.

use crate::float::{
    distance, lemma_add_exact, lemma_add_finite, lemma_add_monotone, lemma_add_near, lemma_neg,
    lemma_twice, lemma_unit_is_large, lemma_whole, Float, UNIT_EXPONENT,
};
use crate::geometry::{Rectangle, Size};
use crate::overview::{
    bounds, bottoms, centered, fit, fitting_scale, greatest, least, lefts, lemma_thousandth, padded,
    rights, thousandth, tops, PADDING,
};
use crate::rounding::{
    lemma_magnitude_increases, lemma_nearest_exact, lemma_nearest_exists, lemma_nearest_is_monotone,
    lemma_pattern_order, lemma_representable, lemma_rounding_error, magnitude, nearest, IMPLICIT,
};
use crate::tile::Tile;
use vstd::arithmetic::power2::{lemma_pow2_pos, pow2};
use vstd::prelude::*;

verus! {

/// The least number is one of them, and nothing is below it, where all are numbers.
proof fn lemma_least(s: Seq<Float>, n: nat)
    requires
        0 < n <= s.len(),
        forall|i: int| 0 <= i < n ==> !(#[trigger] s[i]).spec_is_nan(),
    ensures
        !least(s, n).spec_is_nan(),
        forall|i: int| 0 <= i < n ==> !(#[trigger] s[i]).spec_lt(least(s, n)),
        exists|i: int| 0 <= i < n && #[trigger] s[i] == least(s, n),
    decreases n,
{
    if n > 1 {
        lemma_least(s, (n - 1) as nat);
    } else {
        assert(s[0] == least(s, n));
    }
}

/// The greatest number is one of them, and nothing is above it, where all are numbers.
proof fn lemma_greatest(s: Seq<Float>, n: nat)
    requires
        0 < n <= s.len(),
        forall|i: int| 0 <= i < n ==> !(#[trigger] s[i]).spec_is_nan(),
    ensures
        !greatest(s, n).spec_is_nan(),
        forall|i: int| 0 <= i < n ==> !greatest(s, n).spec_lt(#[trigger] s[i]),
        exists|i: int| 0 <= i < n && #[trigger] s[i] == greatest(s, n),
    decreases n,
{
    if n > 1 {
        lemma_greatest(s, (n - 1) as nat);
    } else {
        assert(s[0] == greatest(s, n));
    }
}

/// Whether the edges of all tiles are numbers.
pub open spec fn edges_are_numbers<W>(tiles: Seq<Tile<W>>) -> bool {
    forall|i: int|
        0 <= i < tiles.len() ==> {
            let tile = #[trigger] tiles[i];
            &&& !tile.canvas_pos.x.spec_is_nan()
            &&& !tile.canvas_pos.y.spec_is_nan()
            &&& !tile.canvas_pos.x.spec_add(tile.tile_size.w).spec_is_nan()
            &&& !tile.canvas_pos.y.spec_add(tile.tile_size.h).spec_is_nan()
        }
}

/// The box touches a tile on every side: its corner is the least left and top edge there is, and
/// its size reaches from there to the greatest right and bottom edge.
pub proof fn law_bounds_are_tight<W>(tiles: Seq<Tile<W>>)
    requires
        tiles.len() > 0,
        edges_are_numbers(tiles),
    ensures
        ({
            let bbox = bounds(tiles)->0;
            &&& exists|i: int|
                0 <= i < tiles.len() && (#[trigger] tiles[i]).canvas_pos.x == bbox.loc.x
            &&& exists|i: int|
                0 <= i < tiles.len() && (#[trigger] tiles[i]).canvas_pos.y == bbox.loc.y
            &&& exists|i: int|
                0 <= i < tiles.len() && bbox.size.w == (
                #[trigger] tiles[i]).canvas_pos.x.spec_add(tiles[i].tile_size.w).spec_sub(
                    bbox.loc.x,
                )
            &&& exists|i: int|
                0 <= i < tiles.len() && bbox.size.h == (
                #[trigger] tiles[i]).canvas_pos.y.spec_add(tiles[i].tile_size.h).spec_sub(
                    bbox.loc.y,
                )
        }),
{
    let n = tiles.len();
    let bbox = bounds(tiles)->0;
    lemma_edges(tiles);
    let i = choose|i: int| 0 <= i < n && #[trigger] lefts(tiles)[i] == least(lefts(tiles), n);
    assert(tiles[i].canvas_pos.x == bbox.loc.x);
    let i = choose|i: int| 0 <= i < n && #[trigger] tops(tiles)[i] == least(tops(tiles), n);
    assert(tiles[i].canvas_pos.y == bbox.loc.y);
    let i = choose|i: int| 0 <= i < n && #[trigger] rights(tiles)[i] == greatest(rights(tiles), n);
    assert(bbox.size.w == tiles[i].canvas_pos.x.spec_add(tiles[i].tile_size.w).spec_sub(
        bbox.loc.x,
    ));
    let i = choose|i: int|
        0 <= i < n && #[trigger] bottoms(tiles)[i] == greatest(bottoms(tiles), n);
    assert(bbox.size.h == tiles[i].canvas_pos.y.spec_add(tiles[i].tile_size.h).spec_sub(
        bbox.loc.y,
    ));
}

/// The sides of the box are edges of tiles that no other edge is past.
proof fn lemma_edges<W>(tiles: Seq<Tile<W>>)
    requires
        tiles.len() > 0,
        edges_are_numbers(tiles),
    ensures
        ({
            let n = tiles.len();
            let left = least(lefts(tiles), n);
            let top = least(tops(tiles), n);
            let right = greatest(rights(tiles), n);
            let bottom = greatest(bottoms(tiles), n);
            &&& forall|i: int| 0 <= i < n ==> !(#[trigger] lefts(tiles)[i]).spec_lt(left)
            &&& forall|i: int| 0 <= i < n ==> !(#[trigger] tops(tiles)[i]).spec_lt(top)
            &&& forall|i: int| 0 <= i < n ==> !right.spec_lt(#[trigger] rights(tiles)[i])
            &&& forall|i: int| 0 <= i < n ==> !bottom.spec_lt(#[trigger] bottoms(tiles)[i])
            &&& exists|i: int| 0 <= i < n && #[trigger] lefts(tiles)[i] == left
            &&& exists|i: int| 0 <= i < n && #[trigger] tops(tiles)[i] == top
            &&& exists|i: int| 0 <= i < n && #[trigger] rights(tiles)[i] == right
            &&& exists|i: int| 0 <= i < n && #[trigger] bottoms(tiles)[i] == bottom
            &&& !left.spec_is_nan() && !top.spec_is_nan()
            &&& !right.spec_is_nan() && !bottom.spec_is_nan()
        }),
{
    let n = tiles.len();
    assert forall|i: int| 0 <= i < n implies !(#[trigger] lefts(tiles)[i]).spec_is_nan() by {
        assert(!tiles[i].canvas_pos.x.spec_is_nan());
    }
    assert forall|i: int| 0 <= i < n implies !(#[trigger] tops(tiles)[i]).spec_is_nan() by {
        assert(!tiles[i].canvas_pos.y.spec_is_nan());
    }
    assert forall|i: int| 0 <= i < n implies !(#[trigger] rights(tiles)[i]).spec_is_nan() by {
        assert(!tiles[i].canvas_pos.x.spec_is_nan());
    }
    assert forall|i: int| 0 <= i < n implies !(#[trigger] bottoms(tiles)[i]).spec_is_nan() by {
        assert(!tiles[i].canvas_pos.x.spec_is_nan());
    }
    lemma_least(lefts(tiles), n);
    lemma_least(tops(tiles), n);
    lemma_greatest(rights(tiles), n);
    lemma_greatest(bottoms(tiles), n);
}

/// No tile sticks out of the box on the left or at the top, and where the size of the box is not
/// rounded none does on the right or at the bottom.
pub proof fn law_bounds_hold_every_tile<W>(tiles: Seq<Tile<W>>, i: int)
    requires
        0 <= i < tiles.len(),
        edges_are_numbers(tiles),
    ensures
        ({
            let n = tiles.len();
            let bbox = bounds(tiles)->0;
            let tile = tiles[i];
            let right = tile.canvas_pos.x.spec_add(tile.tile_size.w);
            let bottom = tile.canvas_pos.y.spec_add(tile.tile_size.h);
            &&& !tile.canvas_pos.x.spec_lt(bbox.loc.x)
            &&& !tile.canvas_pos.y.spec_lt(bbox.loc.y)
            &&& greatest(rights(tiles), n).subtracts_exactly(bbox.loc.x)
                ==> !bbox.loc.x.spec_add(bbox.size.w).spec_lt(right)
            &&& greatest(bottoms(tiles), n).subtracts_exactly(bbox.loc.y)
                ==> !bbox.loc.y.spec_add(bbox.size.h).spec_lt(bottom)
        }),
{
    let n = tiles.len();
    let bbox = bounds(tiles)->0;
    lemma_edges(tiles);
    assert(!lefts(tiles)[i].spec_lt(bbox.loc.x));
    assert(!tops(tiles)[i].spec_lt(bbox.loc.y));
    let right = greatest(rights(tiles), n);
    let bottom = greatest(bottoms(tiles), n);
    assert(!right.spec_lt(rights(tiles)[i]));
    assert(!bottom.spec_lt(bottoms(tiles)[i]));
    if right.subtracts_exactly(bbox.loc.x) {
        lemma_neg(bbox.loc.x);
        lemma_add_exact(bbox.loc.x, bbox.size.w, right);
    }
    if bottom.subtracts_exactly(bbox.loc.y) {
        lemma_neg(bbox.loc.y);
        lemma_add_exact(bbox.loc.y, bbox.size.h, bottom);
    }
}

/// Padding leaves something to divide by.
proof fn lemma_padded(length: Float)
    ensures
        !padded(length).spec_is_nan(),
        !padded(length).is_zero(),
        !padded(length).is_negative(),
{
    lemma_thousandth();
    lemma_whole(0);
    assert(0 * pow2(UNIT_EXPONENT as nat) == 0) by (nonlinear_arith);
    assert(magnitude(0) == 0);
}

/// In a finite view the overview is between a thousandth of the size and full size.
pub proof fn law_overview_shrinks<W>(tiles: Seq<Tile<W>>, view: Size)
    requires
        view.w.spec_is_finite(),
        view.h.spec_is_finite(),
        fit(tiles, view) is Some,
    ensures
        ({
            let scale = fit(tiles, view)->0.scale;
            &&& !scale.spec_is_nan()
            &&& !scale.spec_lt(thousandth())
            &&& !Float::whole(1).spec_lt(scale)
            &&& Float::whole(0).spec_lt(scale)
        }),
{
    let content = bounds(tiles)->0.size;
    lemma_padded(content.w);
    lemma_padded(content.h);
    lemma_quotient_is_number(view.w, padded(content.w));
    lemma_quotient_is_number(view.h, padded(content.h));
    lemma_thousandth();
}

/// A finite number divided by one that is not zero is a number.
proof fn lemma_quotient_is_number(a: Float, b: Float)
    requires
        a.spec_is_finite(),
        !b.spec_is_nan(),
        !b.is_zero(),
    ensures
        !a.spec_div(b).spec_is_nan(),
{
    if b.spec_is_finite() {
        lemma_magnitude_increases(0, b.pattern());
        assert(magnitude(0) == 0);
        lemma_nearest_exists(
            magnitude(a.pattern()) * pow2(UNIT_EXPONENT as nat),
            magnitude(b.pattern()),
        );
    }
}

/// Unless it is at its least scale, the overview is no larger than what fits on either axis.
pub proof fn law_overview_fits_both_axes<W>(tiles: Seq<Tile<W>>, view: Size)
    requires
        view.w.spec_is_finite(),
        view.h.spec_is_finite(),
        fit(tiles, view) is Some,
        thousandth().spec_lt(fit(tiles, view)->0.scale),
    ensures
        ({
            let content = bounds(tiles)->0.size;
            let scale = fit(tiles, view)->0.scale;
            &&& !view.w.spec_div(padded(content.w)).spec_lt(scale)
            &&& !view.h.spec_div(padded(content.h)).spec_lt(scale)
        }),
{
    let content = bounds(tiles)->0.size;
    lemma_padded(content.w);
    lemma_padded(content.h);
    lemma_quotient_is_number(view.w, padded(content.w));
    lemma_quotient_is_number(view.h, padded(content.h));
    lemma_thousandth();
}

/// The middle of the view is the middle of the content, where the start of the view is not rounded.
pub proof fn law_overview_is_centered(start: Float, length: Float, view: Float, scale: Float)
    requires
        start.spec_add(length.spec_div(Float::whole(2))).subtracts_exactly(
            view.spec_div(Float::whole(2).spec_mul(scale)),
        ),
    ensures
        centered(start, length, view, scale).spec_add(
            view.spec_div(Float::whole(2).spec_mul(scale)),
        ).spec_same(start.spec_add(length.spec_div(Float::whole(2)))),
{
    let middle = start.spec_add(length.spec_div(Float::whole(2)));
    let half = view.spec_div(Float::whole(2).spec_mul(scale));
    lemma_neg(half);
    lemma_add_exact(centered(start, length, view, scale), half, middle);
}

/// The margin that padding adds to both sides is sixty-four pixels in all.
proof fn lemma_margin()
    ensures
        ({
            let margin = Float::whole(PADDING as int).spec_mul(Float::whole(2));
            &&& margin.spec_is_finite()
            &&& margin.units() == 64 * pow2(UNIT_EXPONENT as nat)
        }),
{
    let one = pow2(UNIT_EXPONENT as nat);
    lemma_pow2_pos(UNIT_EXPONENT as nat);
    lemma_whole(PADDING as int);
    lemma_whole(2);
    lemma_whole(64);
    lemma_nearest_exact(Float::whole(64).pattern());
    let n = magnitude(Float::whole(PADDING as int).pattern()) * magnitude(
        Float::whole(2).pattern(),
    );
    assert(n * 1 == (64 * one) * one) by (nonlinear_arith)
        requires
            n == (32 * one) * (2 * one),
    ;
    lemma_nearest_is_monotone(n, one, 64 * one, 1);
    lemma_nearest_is_monotone(64 * one, 1, n, one);
}

/// One thousandth is not much less than it says.
proof fn lemma_thousandth_is_large()
    ensures
        1001 * thousandth().units() >= pow2(UNIT_EXPONENT as nat),
        thousandth().units() <= pow2(UNIT_EXPONENT as nat),
{
    let one = pow2(UNIT_EXPONENT as nat);
    lemma_pow2_pos(UNIT_EXPONENT as nat);
    lemma_unit_is_large();
    lemma_thousandth();
    lemma_whole(1);
    lemma_whole(1000);
    assert(1 * one == one) by (nonlinear_arith);
    let d = magnitude(Float::whole(1000).pattern());
    let n = magnitude(Float::whole(1).pattern()) * one;
    let p = nearest(n, d);
    let m = magnitude(p);
    assert(d > 0);
    lemma_nearest_exact(Float::whole(1).pattern());
    assert(n * 1 <= one * d) by (nonlinear_arith)
        requires
            n == one * one,
            d == 1000 * one,
    ;
    lemma_nearest_is_monotone(n, d, one, 1);
    lemma_rounding_error(n, d);
    lemma_pattern_order(p, Float::whole(1).pattern());
    assert(thousandth().units() == m);
    assert(1001 * m >= one) by (nonlinear_arith)
        requires
            2 * IMPLICIT * (n - d * m) <= d * (m + IMPLICIT),
            n == one * one,
            d == 1000 * one,
            m <= one,
            one >= 0x1_0000_0000_0000_0000,
    ;
}

/// The largest coordinate, in pixels, at which the margin is wider than what rounding takes.
pub const FAR: i64 = 0x4_0000_0000_0000;

/// The largest view, in pixels, that an overview is known to show everything in.
pub const WIDE: i64 = 0x100_0000_0000;

/// Along one axis, what lies from `near` to `far` is inside the view that is centered on it.
proof fn lemma_axis_is_inside(near: Float, far: Float, view: Float, scale: Float)
    requires
        near.spec_is_finite(),
        far.spec_is_finite(),
        view.spec_is_finite(),
        scale.spec_is_finite(),
        near.units() <= far.units(),
        distance(near.units()) <= FAR * pow2(UNIT_EXPONENT as nat),
        distance(far.units()) <= FAR * pow2(UNIT_EXPONENT as nat),
        0 < view.units() <= WIDE * pow2(UNIT_EXPONENT as nat),
        thousandth().units() <= scale.units() <= pow2(UNIT_EXPONENT as nat),
        scale.units() <= view.spec_div(padded(far.spec_sub(near))).units(),
    ensures
        ({
            let start = centered(near, far.spec_sub(near), view, scale);
            &&& start.spec_is_finite()
            &&& start.units() <= near.units()
            &&& (far.units() - start.units()) * scale.units() <= view.units() * pow2(
                UNIT_EXPONENT as nat,
            )
        }),
{
    let one = pow2(UNIT_EXPONENT as nat) as int;
    let length = far.spec_sub(near);
    let m = near.units();
    let v = view.units();
    let s = scale.units();
    lemma_pow2_pos(UNIT_EXPONENT as nat);
    lemma_unit_is_large();
    lemma_thousandth_is_large();
    lemma_neg(near);
    lemma_add_finite(far, near.spec_neg());
    lemma_add_near(far, near.spec_neg());
    let c = length.units();
    assert(c >= 0);
    lemma_whole(0);
    // What padding makes of the length.
    let margin = Float::whole(PADDING as int).spec_mul(Float::whole(2));
    lemma_margin();
    lemma_add_near(length, margin);
    let padding = padded(length);
    assert(padding == length.spec_add(margin));
    let p = padding.units();
    assert(c + 63 * one <= p <= c + 65 * one);
    // The view holds the padded length at this scale.
    lemma_quotient_bound(view, padding);
    assert(s * p <= v * one + s * one) by {
        lemma_scaled_length(s, p, v, one, view.spec_div(padding).units());
    }
    // Half of the view, at this scale.
    lemma_twice(scale);
    let twice = Float::whole(2).spec_mul(scale);
    let half = view.spec_div(twice);
    let h = half.units();
    lemma_half_view(view, scale);
    assert(s * (2 * h - p + 2 * one) >= 0) by (nonlinear_arith)
        requires
            s * p <= v * one + s * one,
            v * one - 2 * s * h <= s * one,
    ;
    assert(2 * h - p + 2 * one >= 0) by (nonlinear_arith)
        requires
            s * (2 * h - p + 2 * one) >= 0,
            s > 0,
    ;
    // The middle of the content.
    lemma_half_length(length);
    let g = length.spec_div(Float::whole(2));
    lemma_add_near(near, g);
    let middle = near.spec_add(g);
    // Where the view starts.
    lemma_neg(half);
    lemma_add_near(middle, half.spec_neg());
    let start = middle.spec_sub(half);
    let x = start.units();
    assert(middle.units() - h <= m);
    lemma_add_exact(near, Float::whole(0), near);
    lemma_add_monotone(middle, half.spec_neg(), near, Float::whole(0));
    assert(x <= m);
    assert(2 * (far.units() - x) <= p + 2 * h - 50 * one);
    assert((far.units() - x) * s <= v * one) by (nonlinear_arith)
        requires
            2 * (far.units() - x) <= p + 2 * h - 50 * one,
            s * p <= v * one + s * one,
            2 * s * h - v * one <= s * one,
            s > 0,
            one > 0,
    ;
}

/// A view divided by a length of at least one pixel is finite, and rounded by little.
proof fn lemma_quotient_bound(view: Float, length: Float)
    requires
        view.spec_is_finite(),
        length.spec_is_finite(),
        0 < view.units() <= WIDE * pow2(UNIT_EXPONENT as nat),
        length.units() >= pow2(UNIT_EXPONENT as nat),
    ensures
        ({
            let one = pow2(UNIT_EXPONENT as nat);
            let q = view.spec_div(length).units();
            &&& view.spec_div(length).spec_is_finite()
            &&& q >= 0
            &&& 2 * IMPLICIT * (length.units() * q - view.units() * one) <= length.units() * (q
                + IMPLICIT)
        }),
{
    let one = pow2(UNIT_EXPONENT as nat);
    lemma_pow2_pos(UNIT_EXPONENT as nat);
    assert(magnitude(0) == 0);
    let v = magnitude(view.pattern());
    let p = magnitude(length.pattern());
    let top = lemma_representable(WIDE as nat, UNIT_EXPONENT as nat);
    assert((v * one) * 1 <= (WIDE * one) * p) by (nonlinear_arith)
        requires
            v <= WIDE * one,
            one <= p,
            one > 0,
    ;
    lemma_nearest_is_monotone(v * one, p, WIDE as nat * one, 1);
    lemma_rounding_error(v * one, p);
}

/// A scale that fits a length into a view still does once the quotient is rounded, to a pixel.
proof fn lemma_scaled_length(s: int, p: int, v: int, one: int, q: int)
    requires
        0 <= s <= q,
        0 <= p <= IMPLICIT * one,
        IMPLICIT <= s,
        one > 0,
        2 * IMPLICIT * (p * q - v * one) <= p * (q + IMPLICIT),
    ensures
        s * p <= v * one + s * one,
{
    let k = 2 * IMPLICIT;
    assert((k - 1) * (p * s) <= (k - 1) * (p * q)) by (nonlinear_arith)
        requires
            0 <= s <= q,
            0 <= p,
            k >= 1,
    ;
    assert((k - 1) * (p * q) <= k * (v * one) + p * IMPLICIT) by (nonlinear_arith)
        requires
            k * (p * q - v * one) <= p * (q + IMPLICIT),
    ;
    assert(p * s <= IMPLICIT * (one * s)) by (nonlinear_arith)
        requires
            0 <= p <= IMPLICIT * one,
            0 <= s,
    ;
    assert(p * IMPLICIT <= IMPLICIT * (one * s)) by (nonlinear_arith)
        requires
            0 <= p <= IMPLICIT * one,
            IMPLICIT <= s,
            one > 0,
    ;
    assert(k * (p * s) <= k * (v * one) + k * (one * s)) by (nonlinear_arith)
        requires
            (k - 1) * (p * s) <= k * (v * one) + p * IMPLICIT,
            p * s <= IMPLICIT * (one * s),
            p * IMPLICIT <= IMPLICIT * (one * s),
            k == 2 * IMPLICIT,
    ;
    assert(s * p <= v * one + s * one) by (nonlinear_arith)
        requires
            k * (p * s) <= k * (v * one) + k * (one * s),
            k > 0,
    ;
}

/// Half of the view at a scale that an overview can have.
proof fn lemma_half_view(view: Float, scale: Float)
    requires
        view.spec_is_finite(),
        scale.spec_is_finite(),
        0 < view.units() <= WIDE * pow2(UNIT_EXPONENT as nat),
        thousandth().units() <= scale.units() <= pow2(UNIT_EXPONENT as nat),
    ensures
        ({
            let one = pow2(UNIT_EXPONENT as nat);
            let half = view.spec_div(Float::whole(2).spec_mul(scale));
            let (v, s, h) = (view.units(), scale.units(), half.units());
            &&& half.spec_is_finite()
            &&& 0 <= h <= FAR * one
            &&& v * one - 2 * s * h <= s * one
            &&& 2 * s * h - v * one <= s * one
        }),
{
    let one = pow2(UNIT_EXPONENT as nat);
    lemma_pow2_pos(UNIT_EXPONENT as nat);
    lemma_unit_is_large();
    lemma_thousandth_is_large();
    assert(magnitude(0) == 0);
    lemma_twice(scale);
    let twice = Float::whole(2).spec_mul(scale);
    let v = magnitude(view.pattern());
    let s = scale.units();
    let t = magnitude(twice.pattern());
    assert(t == 2 * s);
    let top = lemma_representable(FAR as nat, UNIT_EXPONENT as nat);
    assert((v * one) * 1 <= (FAR * one) * t) by (nonlinear_arith)
        requires
            v <= WIDE * one,
            t == 2 * s,
            1001 * s >= one,
            one > 0,
    ;
    lemma_nearest_is_monotone(v * one, t, FAR as nat * one, 1);
    lemma_rounding_error(v * one, t);
    let h = magnitude(nearest(v * one, t));
    lemma_pattern_order(nearest(v * one, t), top);
    assert(v * one - 2 * s * h <= s * one && 2 * s * h - v * one <= s * one) by (nonlinear_arith)
        requires
            2 * IMPLICIT * (v * one - t * h) <= t * (h + IMPLICIT),
            2 * IMPLICIT * (t * h - v * one) <= t * (h + IMPLICIT),
            t == 2 * s,
            0 <= h <= FAR * one,
            s > 0,
            one >= 0x1_0000_0000_0000_0000,
    ;
}

/// Half of a length that is not too large is off by less than a pixel.
proof fn lemma_half_length(length: Float)
    requires
        length.spec_is_finite(),
        0 <= length.units() <= IMPLICIT * pow2(UNIT_EXPONENT as nat),
    ensures
        ({
            let one = pow2(UNIT_EXPONENT as nat);
            let g = length.spec_div(Float::whole(2));
            &&& g.spec_is_finite()
            &&& distance(length.units() - 2 * g.units()) < 2 * one
        }),
{
    let one = pow2(UNIT_EXPONENT as nat);
    lemma_pow2_pos(UNIT_EXPONENT as nat);
    lemma_unit_is_large();
    lemma_whole(2);
    assert(magnitude(0) == 0);
    let c = magnitude(length.pattern());
    lemma_pattern_order(0, Float::whole(2).pattern());
    lemma_nearest_exact(length.pattern());
    assert((c * one) * 1 <= c * (2 * one)) by (nonlinear_arith);
    lemma_nearest_is_monotone(c * one, 2 * one, c, 1);
    lemma_rounding_error(c * one, 2 * one);
    let p = nearest(c * one, 2 * one);
    let g = magnitude(p);
    lemma_pattern_order(p, length.pattern());
    assert(c - 2 * g < 2 * one && 2 * g - c < 2 * one) by (nonlinear_arith)
        requires
            2 * IMPLICIT * (c * one - (2 * one) * g) <= (2 * one) * (g + IMPLICIT),
            2 * IMPLICIT * ((2 * one) * g - c * one) <= (2 * one) * (g + IMPLICIT),
            g <= c <= IMPLICIT * one,
            one >= 1000,
    ;
}

/// Whether a coordinate is finite and no further than [`FAR`] pixels from the origin.
pub open spec fn is_near(v: Float) -> bool {
    v.spec_is_finite() && distance(v.units()) <= FAR * pow2(UNIT_EXPONENT as nat)
}

/// Whether all edges of a tile are within [`FAR`] pixels, the far ones not before the near ones.
pub open spec fn is_placed<W>(tile: Tile<W>) -> bool {
    let right = tile.canvas_pos.x.spec_add(tile.tile_size.w);
    let bottom = tile.canvas_pos.y.spec_add(tile.tile_size.h);
    &&& is_near(tile.canvas_pos.x) && is_near(right) && tile.canvas_pos.x.units() <= right.units()
    &&& is_near(tile.canvas_pos.y) && is_near(bottom) && tile.canvas_pos.y.units()
        <= bottom.units()
}

/// The overview shows every tile: none starts before the synthetic view does, and none ends, once
/// it is scaled, past its end. Only content that would have to be drawn at less than a thousandth
/// sticks out.
pub proof fn law_overview_shows_every_tile<W>(tiles: Seq<Tile<W>>, view: Size, i: int)
    requires
        0 <= i < tiles.len(),
        forall|k: int| 0 <= k < tiles.len() ==> is_placed(#[trigger] tiles[k]),
        view.w.spec_is_finite(),
        view.h.spec_is_finite(),
        view.w.units() <= WIDE * pow2(UNIT_EXPONENT as nat),
        view.h.units() <= WIDE * pow2(UNIT_EXPONENT as nat),
        fit(tiles, view) is Some,
        !fitting_scale(bounds(tiles)->0.size, view).spec_lt(thousandth()),
    ensures
        ({
            let one = pow2(UNIT_EXPONENT as nat);
            let overview = fit(tiles, view)->0;
            let tile = tiles[i];
            let right = tile.canvas_pos.x.spec_add(tile.tile_size.w).units();
            let bottom = tile.canvas_pos.y.spec_add(tile.tile_size.h).units();
            let start = overview.view_pos;
            &&& !tile.canvas_pos.x.spec_lt(start.x)
            &&& !tile.canvas_pos.y.spec_lt(start.y)
            &&& (right - start.x.units()) * overview.scale.units() <= view.w.units() * one
            &&& (bottom - start.y.units()) * overview.scale.units() <= view.h.units() * one
        }),
{
    let n = tiles.len();
    let one = pow2(UNIT_EXPONENT as nat);
    let bbox = bounds(tiles)->0;
    let overview = fit(tiles, view)->0;
    let scale = overview.scale;
    assert forall|k: int| 0 <= k < tiles.len() implies {
        let tile = #[trigger] tiles[k];
        &&& !tile.canvas_pos.x.spec_is_nan()
        &&& !tile.canvas_pos.y.spec_is_nan()
        &&& !tile.canvas_pos.x.spec_add(tile.tile_size.w).spec_is_nan()
        &&& !tile.canvas_pos.y.spec_add(tile.tile_size.h).spec_is_nan()
    } by {
        assert(is_placed(tiles[k]));
    }
    lemma_edges(tiles);
    lemma_whole(0);
    lemma_whole(1);
    assert(0 * one == 0 && 1 * one == one) by (nonlinear_arith);
    lemma_thousandth();
    lemma_padded(bbox.size.w);
    lemma_padded(bbox.size.h);
    lemma_quotient_is_number(view.w, padded(bbox.size.w));
    lemma_quotient_is_number(view.h, padded(bbox.size.h));
    let left = bbox.loc.x;
    let top = bbox.loc.y;
    let right = greatest(rights(tiles), n);
    let bottom = greatest(bottoms(tiles), n);
    let l = choose|k: int| 0 <= k < n && #[trigger] lefts(tiles)[k] == left;
    let t = choose|k: int| 0 <= k < n && #[trigger] tops(tiles)[k] == top;
    let r = choose|k: int| 0 <= k < n && #[trigger] rights(tiles)[k] == right;
    let b = choose|k: int| 0 <= k < n && #[trigger] bottoms(tiles)[k] == bottom;
    assert(is_placed(tiles[l]) && is_placed(tiles[t]) && is_placed(tiles[r]) && is_placed(
        tiles[b],
    ));
    let tile = tiles[i];
    assert(is_placed(tile));
    assert(!lefts(tiles)[i].spec_lt(left) && !tops(tiles)[i].spec_lt(top));
    assert(!right.spec_lt(rights(tiles)[i]) && !bottom.spec_lt(bottoms(tiles)[i]));
    assert(scale == fitting_scale(bbox.size, view));
    lemma_pattern_order(scale.pattern(), Float::whole(1).pattern());
    lemma_axis_is_inside(left, right, view.w, scale);
    lemma_axis_is_inside(top, bottom, view.h, scale);
    let tile_right = tile.canvas_pos.x.spec_add(tile.tile_size.w).units();
    let tile_bottom = tile.canvas_pos.y.spec_add(tile.tile_size.h).units();
    let (x, y, s) = (overview.view_pos.x.units(), overview.view_pos.y.units(), scale.units());
    assert((tile_right - x) * s <= (right.units() - x) * s) by (nonlinear_arith)
        requires
            tile_right <= right.units(),
            s >= 0,
    ;
    assert((tile_bottom - y) * s <= (bottom.units() - y) * s) by (nonlinear_arith)
        requires
            tile_bottom <= bottom.units(),
            s >= 0,
    ;
}

/// Padding adds sixty-four pixels to a length, and never leaves less than a thousandth of one.
pub proof fn law_padding_adds_a_margin(length: Float)
    ensures
        ({
            let wide = length.spec_add(Float::whole(64));
            &&& padded(length) == if wide.spec_is_nan() || wide.spec_lt(thousandth()) {
                thousandth()
            } else {
                wide
            }
            &&& length.adds_exactly(Float::whole(64)) && 0 <= length.units()
                ==> padded(length).units() == length.units() + 64 * pow2(UNIT_EXPONENT as nat)
        }),
{
    let one = pow2(UNIT_EXPONENT as nat);
    let margin = Float::whole(PADDING as int).spec_mul(Float::whole(2));
    lemma_pow2_pos(UNIT_EXPONENT as nat);
    lemma_margin();
    lemma_whole(PADDING as int);
    lemma_whole(2);
    lemma_whole(64);
    lemma_pattern_order(margin.pattern(), Float::whole(64).pattern());
    assert(margin == Float::whole(64));
    lemma_thousandth_is_large();
}

/// The overview is drawn as large as fits: at its scale the padded content fills the view along one
/// axis, and along neither does it need more than the view. Content that would be smaller than a
/// thousandth is drawn at that.
pub proof fn law_overview_is_as_large_as_fits<W>(tiles: Seq<Tile<W>>, view: Size)
    requires
        fit(tiles, view) is Some,
        ({
            let content = bounds(tiles)->0.size;
            &&& !view.w.spec_div(padded(content.w)).spec_is_nan()
            &&& !view.h.spec_div(padded(content.h)).spec_is_nan()
        }),
    ensures
        ({
            let content = bounds(tiles)->0.size;
            let across = view.w.spec_div(padded(content.w));
            let down = view.h.spec_div(padded(content.h));
            let scale = fit(tiles, view)->0.scale;
            &&& !across.spec_lt(thousandth()) && !down.spec_lt(thousandth()) ==> {
                &&& scale == across || scale == down
                &&& !across.spec_lt(scale)
                &&& !down.spec_lt(scale)
            }
            &&& across.spec_lt(thousandth()) || down.spec_lt(thousandth()) ==> scale == thousandth()
        }),
{
    lemma_thousandth();
    lemma_whole(1);
}

/// There is an overview exactly if there are tiles, the view has an area, and the padded content is
/// larger than the view along one axis.
pub proof fn law_overview_is_for_what_does_not_fit<W>(tiles: Seq<Tile<W>>, view: Size)
    requires
        tiles.len() > 0 ==> {
            let content = bounds(tiles)->0.size;
            &&& !view.w.spec_div(padded(content.w)).spec_is_nan()
            &&& !view.h.spec_div(padded(content.h)).spec_is_nan()
        },
    ensures
        fit(tiles, view) is Some <==> {
            let content = bounds(tiles)->0.size;
            let across = view.w.spec_div(padded(content.w));
            let down = view.h.spec_div(padded(content.h));
            &&& tiles.len() > 0
            &&& !view.w.spec_is_nan() && view.w.units() > 0
            &&& !view.h.spec_is_nan() && view.h.units() > 0
            &&& across.spec_lt(Float::whole(1)) || down.spec_lt(Float::whole(1))
        },
{
    lemma_whole(0);
    lemma_whole(1);
    assert(0 * pow2(UNIT_EXPONENT as nat) == 0) by (nonlinear_arith);
}

/// A quotient that is not a number has no say: the other one decides whether there is an overview,
/// and at what scale. Where neither is a number, the scale is none either.
pub proof fn law_overview_goes_by_numbers<W>(tiles: Seq<Tile<W>>, view: Size)
    requires
        tiles.len() > 0,
        view.w.units() > 0 && !view.w.spec_is_nan(),
        view.h.units() > 0 && !view.h.spec_is_nan(),
    ensures
        ({
            let content = bounds(tiles)->0.size;
            let across = view.w.spec_div(padded(content.w));
            let down = view.h.spec_div(padded(content.h));
            let decides = if across.spec_is_nan() {
                down
            } else {
                across
            };
            across.spec_is_nan() || down.spec_is_nan() ==> {
                &&& decides.spec_is_nan() ==> fit(tiles, view) is Some
                    && fit(tiles, view)->0.scale.spec_is_nan()
                &&& !decides.spec_is_nan() ==> (fit(tiles, view) is Some <==> decides.spec_lt(
                    Float::whole(1),
                ))
                &&& decides.spec_lt(thousandth()) ==> fit(tiles, view)->0.scale == thousandth()
                &&& !decides.spec_lt(thousandth()) && decides.spec_lt(Float::whole(1)) ==> fit(
                    tiles,
                    view,
                )->0.scale == decides
            }
        }),
{
    lemma_thousandth();
    lemma_whole(0);
    lemma_whole(1);
    assert(0 * pow2(UNIT_EXPONENT as nat) == 0) by (nonlinear_arith);
}

/// The overview is centered on the content: half the view, scaled back, lies before the middle of
/// the content, on each axis by its own sides.
pub proof fn law_overview_looks_at_the_middle<W>(tiles: Seq<Tile<W>>, view: Size)
    requires
        fit(tiles, view) is Some,
    ensures
        ({
            let two = Float::whole(2);
            let bbox = bounds(tiles)->0;
            let overview = fit(tiles, view)->0;
            let middle_x = bbox.loc.x.spec_add(bbox.size.w.spec_div(two));
            let middle_y = bbox.loc.y.spec_add(bbox.size.h.spec_div(two));
            let half_w = view.w.spec_div(two.spec_mul(overview.scale));
            let half_h = view.h.spec_div(two.spec_mul(overview.scale));
            &&& overview.view_pos.x == middle_x.spec_sub(half_w)
            &&& overview.view_pos.y == middle_y.spec_sub(half_h)
            &&& middle_x.subtracts_exactly(half_w) ==> overview.view_pos.x.units() + half_w.units()
                == middle_x.units()
            &&& middle_y.subtracts_exactly(half_h) ==> overview.view_pos.y.units() + half_h.units()
                == middle_y.units()
        }),
{
    let two = Float::whole(2);
    let overview = fit(tiles, view)->0;
    lemma_neg(view.w.spec_div(two.spec_mul(overview.scale)));
    lemma_neg(view.h.spec_div(two.spec_mul(overview.scale)));
}

/// Whether the corner of the box is a left and a top edge of which none is less, and its size
/// reaches to a right and a bottom edge of which none is greater. An edge that is not a number
/// counts only where it comes first.
pub open spec fn reaches_outermost<W>(tiles: Seq<Tile<W>>, bbox: Rectangle) -> bool {
    exists|l: int, t: int, r: int, b: int|
        {
            let right = (#[trigger] tiles[r]).canvas_pos.x.spec_add(tiles[r].tile_size.w);
            let bottom = (#[trigger] tiles[b]).canvas_pos.y.spec_add(tiles[b].tile_size.h);
            &&& 0 <= l < tiles.len() && 0 <= t < tiles.len()
            &&& 0 <= r < tiles.len() && 0 <= b < tiles.len()
            &&& bbox.loc.x == (#[trigger] tiles[l]).canvas_pos.x
            &&& bbox.loc.y == (#[trigger] tiles[t]).canvas_pos.y
            &&& bbox.size.w == right.spec_sub(bbox.loc.x)
            &&& bbox.size.h == bottom.spec_sub(bbox.loc.y)
            &&& bbox.loc.x.spec_is_nan() == tiles[0].canvas_pos.x.spec_is_nan()
            &&& bbox.loc.y.spec_is_nan() == tiles[0].canvas_pos.y.spec_is_nan()
            &&& right.spec_is_nan() == tiles[0].canvas_pos.x.spec_add(
                tiles[0].tile_size.w,
            ).spec_is_nan()
            &&& bottom.spec_is_nan() == tiles[0].canvas_pos.y.spec_add(
                tiles[0].tile_size.h,
            ).spec_is_nan()
            &&& forall|k: int|
                0 <= k < tiles.len() ==> {
                    let tile = #[trigger] tiles[k];
                    &&& !tile.canvas_pos.x.spec_lt(bbox.loc.x)
                    &&& !tile.canvas_pos.y.spec_lt(bbox.loc.y)
                    &&& !right.spec_lt(tile.canvas_pos.x.spec_add(tile.tile_size.w))
                    &&& !bottom.spec_lt(tile.canvas_pos.y.spec_add(tile.tile_size.h))
                }
        }
}

/// The box of the content reaches from the least to the greatest edges.
pub proof fn law_bounds_reach_the_outermost_edges<W>(tiles: Seq<Tile<W>>)
    requires
        tiles.len() > 0,
    ensures
        bounds(tiles) is Some,
        reaches_outermost(tiles, bounds(tiles)->0),
{
    let n = tiles.len();
    let l = lemma_least_is_there(lefts(tiles), n);
    let t = lemma_least_is_there(tops(tiles), n);
    let r = lemma_greatest_is_there(rights(tiles), n);
    let b = lemma_greatest_is_there(bottoms(tiles), n);
    let bbox = bounds(tiles)->0;
    let right = tiles[r].canvas_pos.x.spec_add(tiles[r].tile_size.w);
    let bottom = tiles[b].canvas_pos.y.spec_add(tiles[b].tile_size.h);
    assert(lefts(tiles)[l] == tiles[l].canvas_pos.x && tops(tiles)[t] == tiles[t].canvas_pos.y);
    assert(rights(tiles)[r] == right && bottoms(tiles)[b] == bottom);
    assert forall|k: int| 0 <= k < tiles.len() implies {
        let tile = #[trigger] tiles[k];
        &&& !tile.canvas_pos.x.spec_lt(bbox.loc.x)
        &&& !tile.canvas_pos.y.spec_lt(bbox.loc.y)
        &&& !right.spec_lt(tile.canvas_pos.x.spec_add(tile.tile_size.w))
        &&& !bottom.spec_lt(tile.canvas_pos.y.spec_add(tile.tile_size.h))
    } by {
        assert(!lefts(tiles)[k].spec_lt(bbox.loc.x) && !tops(tiles)[k].spec_lt(bbox.loc.y));
        assert(!right.spec_lt(rights(tiles)[k]) && !bottom.spec_lt(bottoms(tiles)[k]));
    }
}

/// The least number is one of them, and nothing is below it; it is no number only if the first one
/// is none.
proof fn lemma_least_is_there(s: Seq<Float>, n: nat) -> (i: int)
    requires
        0 < n <= s.len(),
    ensures
        0 <= i < n,
        s[i] == least(s, n),
        least(s, n).spec_is_nan() == s[0].spec_is_nan(),
        forall|k: int| 0 <= k < n ==> !(#[trigger] s[k]).spec_lt(least(s, n)),
    decreases n,
{
    if n <= 1 {
        0
    } else {
        let i = lemma_least_is_there(s, (n - 1) as nat);
        if s[n - 1].spec_lt(least(s, (n - 1) as nat)) {
            n - 1
        } else {
            i
        }
    }
}

/// The greatest number is one of them, and nothing is above it; it is no number only if the first
/// one is none.
proof fn lemma_greatest_is_there(s: Seq<Float>, n: nat) -> (i: int)
    requires
        0 < n <= s.len(),
    ensures
        0 <= i < n,
        s[i] == greatest(s, n),
        greatest(s, n).spec_is_nan() == s[0].spec_is_nan(),
        forall|k: int| 0 <= k < n ==> !greatest(s, n).spec_lt(#[trigger] s[k]),
    decreases n,
{
    if n <= 1 {
        0
    } else {
        let i = lemma_greatest_is_there(s, (n - 1) as nat);
        if greatest(s, (n - 1) as nat).spec_lt(s[n - 1]) {
            n - 1
        } else {
            i
        }
    }
}

/// There are no bounds of nothing.
pub proof fn law_nothing_has_no_bounds<W>(tiles: Seq<Tile<W>>, view: Size)
    requires
        tiles.len() == 0,
    ensures
        bounds(tiles) is None,
        fit(tiles, view) is None,
{
}

/// There is an overview exactly if there are tiles, the view has an area, and the padded content
/// does not fit at full size.
pub proof fn law_overview_where_needed<W>(tiles: Seq<Tile<W>>, view: Size)
    requires
        view.w.spec_is_finite(),
        view.h.spec_is_finite(),
    ensures
        fit(tiles, view) is Some <==> {
            &&& tiles.len() > 0
            &&& Float::whole(0).spec_lt(view.w)
            &&& Float::whole(0).spec_lt(view.h)
            &&& fitting_scale(bounds(tiles)->0.size, view).spec_lt(Float::whole(1))
        },
{
    if tiles.len() > 0 {
        let content = bounds(tiles)->0.size;
        lemma_padded(content.w);
        lemma_padded(content.h);
        lemma_quotient_is_number(view.w, padded(content.w));
        lemma_quotient_is_number(view.h, padded(content.h));
    }
}

} // verus!
