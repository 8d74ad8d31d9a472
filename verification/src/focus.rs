//! Moving the focus to the nearest tile in a direction.

use crate::float::{
    distance, lemma_difference_sign, lemma_neg, lemma_whole, Float, UNIT_EXPONENT,
};
use crate::geometry::Point;
use crate::rounding::magnitude;
use crate::tile::{LayoutElement, Tile};
use vstd::arithmetic::power2::{lemma_pow2_pos, pow2};
use vstd::prelude::*;

verus! {

/// A direction on the canvas.
#[derive(Clone, Copy, Debug, PartialEq, Eq, Structural)]
pub enum SpatialDirection {
    Left,
    Right,
    Up,
    Down,
}

/// The middle of a tile on the canvas.
pub open spec fn middle<W>(tile: Tile<W>) -> Point {
    let two = Float::whole(2);
    Point {
        x: tile.canvas_pos.x.spec_add(tile.tile_size.w.spec_div(two)),
        y: tile.canvas_pos.y.spec_add(tile.tile_size.h.spec_div(two)),
    }
}

/// The distance in the direction and twice the distance across it; none for what does not lie in
/// that direction.
pub open spec fn score(direction: SpatialDirection, dx: Float, dy: Float) -> Option<Float> {
    let zero = Float::whole(0);
    let two = Float::whole(2);
    match direction {
        SpatialDirection::Right => if zero.spec_lt(dx) {
            Some(dx.spec_add(two.spec_mul(dy.spec_abs())))
        } else {
            None
        },
        SpatialDirection::Left => if dx.spec_lt(zero) {
            Some(dx.spec_neg().spec_add(two.spec_mul(dy.spec_abs())))
        } else {
            None
        },
        SpatialDirection::Down => if zero.spec_lt(dy) {
            Some(dy.spec_add(two.spec_mul(dx.spec_abs())))
        } else {
            None
        },
        SpatialDirection::Up => if dy.spec_lt(zero) {
            Some(dy.spec_neg().spec_add(two.spec_mul(dx.spec_abs())))
        } else {
            None
        },
    }
}

/// Whether the tile at `i` is the last one with the window `id`.
pub open spec fn is_last<W: LayoutElement>(tiles: Seq<Tile<W>>, id: u64, i: int) -> bool {
    &&& 0 <= i < tiles.len()
    &&& tiles[i].id() == id
    &&& forall|j: int| i < j < tiles.len() ==> (#[trigger] tiles[j]).id() != id
}

/// The score of the tile at `i` as seen from `from`; none for the window `id` itself.
pub open spec fn score_of<W: LayoutElement>(
    tiles: Seq<Tile<W>>,
    id: u64,
    from: Point,
    direction: SpatialDirection,
    i: int,
) -> Option<Float> {
    let offset = middle(tiles[i]).spec_sub(from);
    if tiles[i].id() == id {
        None
    } else {
        score(direction, offset.x, offset.y)
    }
}

/// Whether no tile in the direction comes before the one at `i`.
#[verifier::opaque]
pub open spec fn nothing_before<W: LayoutElement>(
    tiles: Seq<Tile<W>>,
    id: u64,
    from: Point,
    direction: SpatialDirection,
    i: int,
) -> bool {
    forall|k: int| 0 <= k < i ==> (#[trigger] score_of(tiles, id, from, direction, k)) is None
}

/// Whether the tile at `i` is the nearest among the first `n`, the earliest of equals. A score
/// that is not a number is never less than another: such a tile is only taken if no other one in
/// the direction comes before it, and then stays.
pub open spec fn is_nearest_of<W: LayoutElement>(
    tiles: Seq<Tile<W>>,
    id: u64,
    from: Point,
    direction: SpatialDirection,
    n: int,
    i: int,
) -> bool {
    &&& 0 <= i < n
    &&& score_of(tiles, id, from, direction, i) is Some
    &&& forall|j: int|
        0 <= j < n && (#[trigger] score_of(tiles, id, from, direction, j)) is Some ==> {
            let ours = score_of(tiles, id, from, direction, i)->0;
            let theirs = score_of(tiles, id, from, direction, j)->0;
            &&& !theirs.spec_lt(ours)
            &&& j < i ==> ours.spec_lt(theirs) || (theirs.spec_is_nan() && !nothing_before(
                tiles,
                id,
                from,
                direction,
                j,
            ))
        }
}

/// Whether the focus goes from the window `id` to the tile at `i`.
pub open spec fn is_focus_target<W: LayoutElement>(
    tiles: Seq<Tile<W>>,
    id: u64,
    direction: SpatialDirection,
    i: int,
) -> bool {
    exists|a: int| #[trigger]
        is_last(tiles, id, a) && is_nearest_of(
            tiles,
            id,
            middle(tiles[a]),
            direction,
            tiles.len() as int,
            i,
        )
}

fn middle_of<W: LayoutElement>(tile: &Tile<W>) -> (r: Point)
    ensures
        r == middle(*tile),
{
    let two = Float::from_i32(2);
    Point {
        x: tile.canvas_pos.x.add(tile.tile_size.w.div(two)),
        y: tile.canvas_pos.y.add(tile.tile_size.h.div(two)),
    }
}

/// The score of what lies `dx` and `dy` away.
pub fn score_for(direction: SpatialDirection, dx: Float, dy: Float) -> (r: Option<Float>)
    ensures
        r == score(direction, dx, dy),
{
    let zero = Float::from_i32(0);
    let two = Float::from_i32(2);
    match direction {
        SpatialDirection::Right => if zero.lt(dx) {
            Some(dx.add(two.mul(dy.abs())))
        } else {
            None
        },
        SpatialDirection::Left => if dx.lt(zero) {
            Some(dx.neg().add(two.mul(dy.abs())))
        } else {
            None
        },
        SpatialDirection::Down => if zero.lt(dy) {
            Some(dy.add(two.mul(dx.abs())))
        } else {
            None
        },
        SpatialDirection::Up => if dy.lt(zero) {
            Some(dy.neg().add(two.mul(dx.abs())))
        } else {
            None
        },
    }
}

fn last_position<W: LayoutElement>(tiles: &Vec<Tile<W>>, id: u64) -> (r: Option<usize>)
    ensures
        match r {
            Some(i) => is_last(tiles@, id, i as int),
            None => forall|i: int| 0 <= i < tiles.len() ==> (#[trigger] tiles@[i]).id() != id,
        },
{
    let mut i: usize = tiles.len();
    while i > 0
        invariant
            i <= tiles.len(),
            forall|j: int| i <= j < tiles.len() ==> (#[trigger] tiles@[j]).id() != id,
        decreases i,
    {
        i = i - 1;
        if tiles[i].window.id() == id {
            return Some(i);
        }
    }
    None
}

/// The tile that the focus goes to from the window `id`, if there is one.
pub fn focus_target<W: LayoutElement>(
    tiles: &Vec<Tile<W>>,
    id: u64,
    direction: SpatialDirection,
) -> (r: Option<usize>)
    ensures
        match r {
            Some(i) => is_focus_target(tiles@, id, direction, i as int),
            None => forall|i: int|
                #![trigger is_focus_target(tiles@, id, direction, i)]
                !is_focus_target(tiles@, id, direction, i),
        },
{
    let active = match last_position(tiles, id) {
        Some(active) => active,
        None => return None,
    };
    let from = middle_of(&tiles[active]);
    let mut best: Option<(Float, usize)> = None;
    let mut i: usize = 0;
    while i < tiles.len()
        invariant
            i <= tiles.len(),
            match best {
                Some((s, b)) => {
                    &&& is_nearest_of(tiles@, id, from, direction, i as int, b as int)
                    &&& score_of(tiles@, id, from, direction, b as int) == Some(s)
                },
                None => forall|j: int|
                    0 <= j < i ==> (#[trigger] score_of(tiles@, id, from, direction, j)) is None,
            },
        decreases tiles.len() - i,
    {
        if tiles[i].window.id() != id {
            let offset = middle_of(&tiles[i]).sub(from);
            if let Some(s) = score_for(direction, offset.x, offset.y) {
                assert(score_of(tiles@, id, from, direction, i as int) == Some(s));
                match best {
                    Some((least, b)) => if s.lt(least) {
                        proof {
                            assert forall|j: int| b < j implies !#[trigger] nothing_before(
                                tiles@,
                                id,
                                from,
                                direction,
                                j,
                            ) by {
                                lemma_something_before(tiles@, id, from, direction, b as int, j);
                            }
                        }
                        best = Some((s, i));
                    },
                    None => {
                        best = Some((s, i));
                    },
                }
            }
        }
        i = i + 1;
    }
    match best {
        Some((_, b)) => {
            assert(is_last(tiles@, id, active as int));
            Some(b)
        },
        None => {
            assert forall|i: int| !#[trigger] is_focus_target(tiles@, id, direction, i) by {
                if is_focus_target(tiles@, id, direction, i) {
                    let a = choose|a: int| #[trigger]
                        is_last(tiles@, id, a) && is_nearest_of(
                            tiles@,
                            id,
                            middle(tiles@[a]),
                            direction,
                            tiles@.len() as int,
                            i,
                        );
                    assert(a == active);
                    assert(score_of(tiles@, id, from, direction, i) is None);
                }
            }
            None
        },
    }
}

/// What comes after a tile in the direction does not come first.
proof fn lemma_something_before<W: LayoutElement>(
    tiles: Seq<Tile<W>>,
    id: u64,
    from: Point,
    direction: SpatialDirection,
    b: int,
    i: int,
)
    requires
        0 <= b < i,
        score_of(tiles, id, from, direction, b) is Some,
    ensures
        !nothing_before(tiles, id, from, direction, i),
{
    reveal(nothing_before);
}

/// The focus goes to one tile at most.
pub proof fn law_focus_target_is_unique<W: LayoutElement>(
    tiles: Seq<Tile<W>>,
    id: u64,
    direction: SpatialDirection,
    i: int,
    j: int,
)
    requires
        is_focus_target(tiles, id, direction, i),
        is_focus_target(tiles, id, direction, j),
    ensures
        i == j,
{
    let n = tiles.len() as int;
    let a = choose|a: int| #[trigger]
        is_last(tiles, id, a) && is_nearest_of(tiles, id, middle(tiles[a]), direction, n, i);
    let b = choose|b: int| #[trigger]
        is_last(tiles, id, b) && is_nearest_of(tiles, id, middle(tiles[b]), direction, n, j);
    assert(a == b);
    let from = middle(tiles[a]);
    assert(score_of(tiles, id, from, direction, i) is Some);
    assert(score_of(tiles, id, from, direction, j) is Some);
    if score_of(tiles, id, from, direction, i)->0.spec_is_nan() {
        lemma_not_a_number_comes_first(tiles, id, from, direction, n, i, i);
    }
    if score_of(tiles, id, from, direction, j)->0.spec_is_nan() {
        lemma_not_a_number_comes_first(tiles, id, from, direction, n, j, j);
    }
    reveal(nothing_before);
}

/// The focus goes to another window that lies in the direction, and no tile that does is nearer.
pub proof fn law_focus_goes_to_the_nearest<W: LayoutElement>(
    tiles: Seq<Tile<W>>,
    id: u64,
    direction: SpatialDirection,
    a: int,
    i: int,
    j: int,
)
    requires
        is_last(tiles, id, a),
        is_focus_target(tiles, id, direction, i),
        0 <= j < tiles.len(),
    ensures
        ({
            let from = middle(tiles[a]);
            let ours = score_of(tiles, id, from, direction, i);
            let theirs = score_of(tiles, id, from, direction, j);
            &&& 0 <= i < tiles.len()
            &&& tiles[i].id() != id
            &&& ours is Some
            &&& theirs is Some ==> !theirs->0.spec_lt(ours->0)
        }),
{
    let n = tiles.len() as int;
    let b = choose|b: int| #[trigger]
        is_last(tiles, id, b) && is_nearest_of(tiles, id, middle(tiles[b]), direction, n, i);
    assert(a == b);
}

/// The focus goes somewhere if and only if a tile lies in the direction.
pub proof fn law_focus_moves_if_it_can<W: LayoutElement>(
    tiles: Seq<Tile<W>>,
    id: u64,
    direction: SpatialDirection,
    a: int,
)
    requires
        is_last(tiles, id, a),
    ensures
        (exists|i: int| #[trigger] is_focus_target(tiles, id, direction, i)) <==> (exists|j: int|
            0 <= j < tiles.len() && (#[trigger] score_of(
                tiles,
                id,
                middle(tiles[a]),
                direction,
                j,
            )) is Some),
{
    let n = tiles.len() as int;
    let from = middle(tiles[a]);
    if exists|i: int| #[trigger] is_focus_target(tiles, id, direction, i) {
        let i = choose|i: int| #[trigger] is_focus_target(tiles, id, direction, i);
        law_focus_goes_to_the_nearest(tiles, id, direction, a, i, 0);
        assert(score_of(tiles, id, from, direction, i) is Some);
    }
    if exists|j: int|
        0 <= j < tiles.len() && (#[trigger] score_of(tiles, id, from, direction, j)) is Some {
        let j = choose|j: int|
            0 <= j < tiles.len() && (#[trigger] score_of(tiles, id, from, direction, j)) is Some;
        let i = lemma_nearest_of_some(tiles, id, from, direction, n, j);
        assert(is_focus_target(tiles, id, direction, i));
    }
}

/// Where a tile lies in the direction, one of them is the nearest.
proof fn lemma_nearest_of_some<W: LayoutElement>(
    tiles: Seq<Tile<W>>,
    id: u64,
    from: Point,
    direction: SpatialDirection,
    n: int,
    j: int,
) -> (i: int)
    requires
        0 <= j < n <= tiles.len(),
        score_of(tiles, id, from, direction, j) is Some,
    ensures
        is_nearest_of(tiles, id, from, direction, n, i),
    decreases n,
{
    let last = n - 1;
    let ours = score_of(tiles, id, from, direction, last);
    if exists|k: int|
        0 <= k < last && (#[trigger] score_of(tiles, id, from, direction, k)) is Some {
        let k = choose|k: int|
            0 <= k < last && (#[trigger] score_of(tiles, id, from, direction, k)) is Some;
        let b = lemma_nearest_of_some(tiles, id, from, direction, last, k);
        if ours is Some && ours->0.spec_lt(score_of(tiles, id, from, direction, b)->0) {
            assert forall|l: int| b < l implies !#[trigger] nothing_before(
                tiles,
                id,
                from,
                direction,
                l,
            ) by {
                lemma_something_before(tiles, id, from, direction, b, l);
            }
            last
        } else {
            b
        }
    } else {
        last
    }
}

/// The directions mirror each other, and across is to down as down is to across.
pub proof fn law_directions_mirror(dx: Float, dy: Float)
    ensures
        score(SpatialDirection::Left, dx, dy) == score(SpatialDirection::Right, dx.spec_neg(), dy),
        score(SpatialDirection::Up, dx, dy) == score(SpatialDirection::Down, dx, dy.spec_neg()),
        score(SpatialDirection::Down, dx, dy) == score(SpatialDirection::Right, dy, dx),
        score(SpatialDirection::Up, dx, dy) == score(SpatialDirection::Left, dy, dx),
{
    lemma_whole(0);
    lemma_neg(dx);
    lemma_neg(dy);
}

/// Whether `to` lies strictly beyond `from` in the direction, however far across it.
pub open spec fn lies_beyond(direction: SpatialDirection, from: Point, to: Point) -> bool {
    match direction {
        SpatialDirection::Right => to.x.units() > from.x.units(),
        SpatialDirection::Left => to.x.units() < from.x.units(),
        SpatialDirection::Down => to.y.units() > from.y.units(),
        SpatialDirection::Up => to.y.units() < from.y.units(),
    }
}

/// A score is given to what lies strictly in the direction, whatever the distance across.
pub proof fn law_score_is_given_to_what_lies_in_the_direction(dx: Float, dy: Float)
    ensures
        score(SpatialDirection::Right, dx, dy) is Some <==> !dx.spec_is_nan() && dx.units() > 0,
        score(SpatialDirection::Left, dx, dy) is Some <==> !dx.spec_is_nan() && dx.units() < 0,
        score(SpatialDirection::Down, dx, dy) is Some <==> !dy.spec_is_nan() && dy.units() > 0,
        score(SpatialDirection::Up, dx, dy) is Some <==> !dy.spec_is_nan() && dy.units() < 0,
{
    lemma_whole(0);
    assert(0 * pow2(UNIT_EXPONENT as nat) == 0) by (nonlinear_arith);
}

/// Whether the score of a distance `along` and a distance `across` is not rounded.
pub open spec fn scores_exactly(along: Float, across: Float) -> bool {
    let twice = Float::whole(2).spec_mul(across.spec_abs());
    &&& Float::whole(2).multiplies_exactly(across.spec_abs())
    &&& along.spec_abs().adds_exactly(twice)
}

/// A score is the distance along the direction and twice the distance across it, and nothing is
/// lost where nothing is rounded.
pub proof fn law_score_adds_distances(direction: SpatialDirection, dx: Float, dy: Float)
    requires
        score(direction, dx, dy) is Some,
    ensures
        ({
            let sideways = direction == SpatialDirection::Left || direction
                == SpatialDirection::Right;
            let (along, across) = if sideways {
                (dx, dy)
            } else {
                (dy, dx)
            };
            let value = score(direction, dx, dy)->0;
            &&& value == along.spec_abs().spec_add(Float::whole(2).spec_mul(across.spec_abs()))
            &&& scores_exactly(along, across) ==> value.units() == distance(along.units()) + 2
                * distance(across.units())
        }),
{
    let one = pow2(UNIT_EXPONENT as nat) as int;
    let sideways = direction == SpatialDirection::Left || direction == SpatialDirection::Right;
    let (along, across) = if sideways {
        (dx, dy)
    } else {
        (dy, dx)
    };
    law_score_is_given_to_what_lies_in_the_direction(dx, dy);
    lemma_whole(2);
    lemma_pow2_pos(UNIT_EXPONENT as nat);
    assert(magnitude(0) == 0);
    assert(along.units() > 0 ==> along.spec_abs() == along);
    assert(along.units() < 0 ==> along.spec_abs() == along.spec_neg());
    if scores_exactly(along, across) {
        let twice = Float::whole(2).spec_mul(across.spec_abs());
        let w = across.spec_abs().units();
        assert(twice.units() == 2 * w) by (nonlinear_arith)
            requires
                twice.units() * one == (2 * one) * w,
                one > 0,
        ;
    }
}

/// The middle of a tile is half its size past its position.
pub proof fn law_middle_is_half_way<W>(tile: Tile<W>)
    ensures
        ({
            let two = Float::whole(2);
            let at = middle(tile);
            let half_w = tile.tile_size.w.spec_div(two);
            let half_h = tile.tile_size.h.spec_div(two);
            &&& at.x == tile.canvas_pos.x.spec_add(half_w)
            &&& at.y == tile.canvas_pos.y.spec_add(half_h)
            &&& tile.tile_size.w.divides_exactly(two) && tile.canvas_pos.x.adds_exactly(half_w)
                ==> 2 * (at.x.units() - tile.canvas_pos.x.units()) == tile.tile_size.w.units()
            &&& tile.tile_size.h.divides_exactly(two) && tile.canvas_pos.y.adds_exactly(half_h)
                ==> 2 * (at.y.units() - tile.canvas_pos.y.units()) == tile.tile_size.h.units()
        }),
{
    let one = pow2(UNIT_EXPONENT as nat) as int;
    let two = Float::whole(2);
    lemma_whole(2);
    lemma_pow2_pos(UNIT_EXPONENT as nat);
    if tile.tile_size.w.divides_exactly(two) {
        lemma_halved(tile.tile_size.w.spec_div(two).units(), tile.tile_size.w.units(), one);
    }
    if tile.tile_size.h.divides_exactly(two) {
        lemma_halved(tile.tile_size.h.spec_div(two).units(), tile.tile_size.h.units(), one);
    }
}

/// Half of a number is half of its units.
proof fn lemma_halved(half: int, whole: int, one: int)
    requires
        half * (2 * one) == whole * one,
        one > 0,
    ensures
        2 * half == whole,
{
    assert(2 * half == whole) by (nonlinear_arith)
        requires
            half * (2 * one) == whole * one,
            one > 0,
    ;
}

/// The focus moves exactly if the middle of another window lies strictly beyond that of the window
/// that has it. It goes to one that does, whose distances score least, and of several such to the
/// one that was added first.
pub proof fn law_focus_goes_beyond<W: LayoutElement>(
    tiles: Seq<Tile<W>>,
    id: u64,
    direction: SpatialDirection,
    a: int,
)
    requires
        0 <= a < tiles.len(),
        tiles[a].window.state().id == id,
        forall|k: int|
            0 <= k < tiles.len() && k != a ==> (#[trigger] tiles[k]).window.state().id != id,
        forall|k: int|
            0 <= k < tiles.len() ==> middle(#[trigger] tiles[k]).x.spec_is_finite() && middle(
                tiles[k],
            ).y.spec_is_finite(),
    ensures
        (exists|i: int| #[trigger] is_focus_target(tiles, id, direction, i)) <==> (exists|j: int|
            0 <= j < tiles.len() && lies_beyond(
                direction,
                middle(tiles[a]),
                middle(#[trigger] tiles[j]),
            )),
        forall|i: int, j: int| #[trigger]
            is_focus_target(tiles, id, direction, i) && 0 <= j < tiles.len() ==> {
                let from = middle(tiles[a]);
                let to = middle(tiles[i]);
                let other = middle(#[trigger] tiles[j]);
                let ours = score(direction, to.x.spec_sub(from.x), to.y.spec_sub(from.y));
                let theirs = score(direction, other.x.spec_sub(from.x), other.y.spec_sub(from.y));
                &&& 0 <= i < tiles.len()
                &&& lies_beyond(direction, from, to)
                &&& lies_beyond(direction, from, other) ==> !theirs->0.spec_lt(ours->0)
                &&& lies_beyond(direction, from, other) && j < i && !theirs->0.spec_is_nan()
                    ==> ours->0.spec_lt(theirs->0)
            },
{
    let from = middle(tiles[a]);
    assert(is_last(tiles, id, a)) by {
        assert(tiles[a].id() == id);
        assert forall|j: int| a < j < tiles.len() implies (#[trigger] tiles[j]).id() != id by {
            assert(tiles[j].window.state().id != id);
        }
    }
    law_focus_moves_if_it_can(tiles, id, direction, a);
    assert forall|j: int| 0 <= j < tiles.len() implies ((#[trigger] score_of(
        tiles,
        id,
        from,
        direction,
        j,
    )) is Some <==> lies_beyond(direction, from, middle(tiles[j]))) && (score_of(
        tiles,
        id,
        from,
        direction,
        j,
    ) is Some ==> score_of(tiles, id, from, direction, j) == score(
        direction,
        middle(tiles[j]).x.spec_sub(from.x),
        middle(tiles[j]).y.spec_sub(from.y),
    )) by {
        let to = middle(tiles[j]);
        lemma_difference_sign(to.x, from.x);
        lemma_difference_sign(to.y, from.y);
        law_score_is_given_to_what_lies_in_the_direction(
            to.x.spec_sub(from.x),
            to.y.spec_sub(from.y),
        );
        if j != a {
            assert(tiles[j].window.state().id != id);
        }
    }
    if exists|j: int|
        0 <= j < tiles.len() && lies_beyond(direction, from, middle(#[trigger] tiles[j])) {
        let j = choose|j: int|
            0 <= j < tiles.len() && lies_beyond(direction, from, middle(#[trigger] tiles[j]));
        assert(score_of(tiles, id, from, direction, j) is Some);
    }
    if exists|i: int| #[trigger] is_focus_target(tiles, id, direction, i) {
        let i = choose|i: int| #[trigger] is_focus_target(tiles, id, direction, i);
        law_focus_goes_to_the_nearest(tiles, id, direction, a, i, 0);
        assert(score_of(tiles, id, from, direction, i) is Some);
        assert(lies_beyond(direction, from, middle(tiles[i])));
    }
    assert forall|i: int, j: int| #[trigger]
        is_focus_target(tiles, id, direction, i) && 0 <= j < tiles.len() implies {
        let to = middle(tiles[i]);
        let other = middle(#[trigger] tiles[j]);
        let ours = score(direction, to.x.spec_sub(from.x), to.y.spec_sub(from.y));
        let theirs = score(direction, other.x.spec_sub(from.x), other.y.spec_sub(from.y));
        &&& 0 <= i < tiles.len()
        &&& lies_beyond(direction, from, to)
        &&& lies_beyond(direction, from, other) ==> !theirs->0.spec_lt(ours->0)
        &&& lies_beyond(direction, from, other) && j < i && !theirs->0.spec_is_nan()
            ==> ours->0.spec_lt(theirs->0)
    } by {
        law_focus_goes_to_the_nearest(tiles, id, direction, a, i, j);
        assert(score_of(tiles, id, from, direction, i) is Some);
        assert(score_of(tiles, id, from, direction, j) is Some <==> lies_beyond(
            direction,
            from,
            middle(tiles[j]),
        ));
        let b = choose|b: int| #[trigger]
            is_last(tiles, id, b) && is_nearest_of(
                tiles,
                id,
                middle(tiles[b]),
                direction,
                tiles.len() as int,
                i,
            );
        assert(a == b);
    }
}

/// Whether the middle of the tile at `i` lies strictly beyond that of the tile at `a`, and of all
/// that do none scores less, and none before it as little.
pub open spec fn is_nearest_beyond<W>(
    tiles: Seq<Tile<W>>,
    direction: SpatialDirection,
    a: int,
    i: int,
) -> bool {
    let from = middle(tiles[a]);
    let to = middle(tiles[i]);
    let ours = score(direction, to.x.spec_sub(from.x), to.y.spec_sub(from.y));
    &&& 0 <= i < tiles.len()
    &&& lies_beyond(direction, from, to)
    &&& forall|j: int|
        0 <= j < tiles.len() && lies_beyond(direction, from, middle(#[trigger] tiles[j])) ==> {
            let other = middle(tiles[j]);
            let theirs = score(direction, other.x.spec_sub(from.x), other.y.spec_sub(from.y));
            &&& !theirs->0.spec_lt(ours->0)
            &&& j < i && !theirs->0.spec_is_nan() ==> ours->0.spec_lt(theirs->0)
        }
}

/// Where the focus goes is the nearest tile beyond.
pub proof fn lemma_target_is_nearest_beyond<W: LayoutElement>(
    tiles: Seq<Tile<W>>,
    id: u64,
    direction: SpatialDirection,
    a: int,
    i: int,
)
    requires
        0 <= a < tiles.len(),
        tiles[a].window.state().id == id,
        forall|k: int|
            0 <= k < tiles.len() && k != a ==> (#[trigger] tiles[k]).window.state().id != id,
        forall|k: int|
            0 <= k < tiles.len() ==> middle(#[trigger] tiles[k]).x.spec_is_finite() && middle(
                tiles[k],
            ).y.spec_is_finite(),
        is_focus_target(tiles, id, direction, i),
    ensures
        is_nearest_beyond(tiles, direction, a, i),
{
    law_focus_goes_beyond(tiles, id, direction, a);
    let here = tiles[a];
    assert(0 <= i < tiles.len());
}

/// Tiles are scored by how far their middle is from that of the window that has the focus, the last
/// one with its id. The focus goes to another window with a score, and no window scores less.
pub proof fn law_focus_is_seen_from_the_middle<W: LayoutElement>(
    tiles: Seq<Tile<W>>,
    id: u64,
    direction: SpatialDirection,
    a: int,
    i: int,
    j: int,
)
    requires
        0 <= a < tiles.len(),
        tiles[a].window.state().id == id,
        forall|k: int|
            a < k < tiles.len() ==> (#[trigger] tiles[k]).window.state().id != id,
        is_focus_target(tiles, id, direction, i),
        0 <= j < tiles.len(),
        tiles[j].window.state().id != id,
    ensures
        ({
            let from = middle(tiles[a]);
            let to = middle(tiles[i]);
            let other = middle(tiles[j]);
            let ours = score(direction, to.x.spec_sub(from.x), to.y.spec_sub(from.y));
            let theirs = score(direction, other.x.spec_sub(from.x), other.y.spec_sub(from.y));
            &&& 0 <= i < tiles.len()
            &&& tiles[i].window.state().id != id
            &&& ours is Some
            &&& theirs is Some ==> !theirs->0.spec_lt(ours->0)
        }),
{
    assert(is_last(tiles, id, a)) by {
        assert(tiles[a].id() == id);
        assert forall|k: int| a < k < tiles.len() implies (#[trigger] tiles[k]).id() != id by {
            assert(tiles[k].window.state().id != id);
        }
    }
    law_focus_goes_to_the_nearest(tiles, id, direction, a, i, j);
}

/// A tile whose score is not a number is only taken if it is the first one in the direction.
proof fn lemma_not_a_number_comes_first<W: LayoutElement>(
    tiles: Seq<Tile<W>>,
    id: u64,
    from: Point,
    direction: SpatialDirection,
    n: int,
    i: int,
    upto: int,
)
    requires
        is_nearest_of(tiles, id, from, direction, n, i),
        score_of(tiles, id, from, direction, i)->0.spec_is_nan(),
        0 <= upto <= i,
    ensures
        nothing_before(tiles, id, from, direction, upto),
    decreases upto,
{
    if upto > 0 {
        let k = upto - 1;
        lemma_not_a_number_comes_first(tiles, id, from, direction, n, i, k);
        assert(score_of(tiles, id, from, direction, k) is None);
    }
    reveal(nothing_before);
}

} // verus!
