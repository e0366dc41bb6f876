use vstd::prelude::*;

verus! {

/// One coordinate moved by `d`, if the result is still a `usize`.
pub open spec fn shifted(v: usize, d: int) -> Option<usize> {
    if 0 <= v + d <= usize::MAX {
        Some((v + d) as usize)
    } else {
        None
    }
}

/// A coordinate pair moved by `(dx, dy)`; present only if both moves succeed.
pub open spec fn adjusted(coordinate: (usize, usize), dx: int, dy: int) -> Option<(usize, usize)> {
    match (shifted(coordinate.0, dx), shifted(coordinate.1, dy)) {
        (Some(x), Some(y)) => Some((x, y)),
        _ => None,
    }
}

/// Adjusts the coordinate by the provided values, only returning `Some` if
/// adjustments in both directions succeed.
pub fn adjust_coordinate(coordinate: (usize, usize), dx: isize, dy: isize) -> (r: Option<
    (usize, usize),
>)
    ensures
        r == adjusted(coordinate, dx as int, dy as int),
{
    match (coordinate.0.checked_add_signed(dx), coordinate.1.checked_add_signed(dy)) {
        (Some(x), Some(y)) => Some((x, y)),
        _ => None,
    }
}

/// The offset of the `i`-th neighbor, clockwise from the north-west:
/// NW, N, NE, E, SE, S, SW, W.
pub open spec fn neighbor_offset(i: int) -> (int, int) {
    if i == 0 {
        (-1, -1)
    } else if i == 1 {
        (0, -1)
    } else if i == 2 {
        (1, -1)
    } else if i == 3 {
        (1, 0)
    } else if i == 4 {
        (1, 1)
    } else if i == 5 {
        (0, 1)
    } else if i == 6 {
        (-1, 1)
    } else {
        (-1, 0)
    }
}

/// The coordinate of the `i`-th neighbor of `(x, y)`. It is absent exactly
/// when a component would be negative (or no longer a `usize`); whether it
/// lies on a board of a given size is not decided here.
pub open spec fn neighbor_coordinate(x: usize, y: usize, i: int) -> Option<(usize, usize)> {
    adjusted((x, y), neighbor_offset(i).0, neighbor_offset(i).1)
}

/// The eight neighbor coordinates of `(x, y)` in clockwise order.
pub open spec fn neighbor_coordinates_of(x: usize, y: usize) -> Seq<Option<(usize, usize)>> {
    Seq::new(8, |i: int| neighbor_coordinate(x, y, i))
}

/// Returns an array of all 8 neighbor coordinates for the provided
/// coordinate, in the order NW, N, NE, E, SE, S, SW, W. A neighbor whose
/// coordinate would be negative is `None`; nothing is clipped at the upper
/// end, which depends on the board.
pub fn neighbor_coordinates(x: usize, y: usize) -> (r: [Option<(usize, usize)>; 8])
    ensures
        r@ == neighbor_coordinates_of(x, y),
{
    let r = [
        adjust_coordinate((x, y), -1, -1),
        adjust_coordinate((x, y), 0, -1),
        adjust_coordinate((x, y), 1, -1),
        adjust_coordinate((x, y), 1, 0),
        adjust_coordinate((x, y), 1, 1),
        adjust_coordinate((x, y), 0, 1),
        adjust_coordinate((x, y), -1, 1),
        adjust_coordinate((x, y), -1, 0),
    ];
    assert(r@ =~= neighbor_coordinates_of(x, y));
    r
}

/// At the origin exactly the eastern, south-eastern and southern neighbor
/// coordinates exist; the other five are absent.
pub proof fn lemma_origin_neighbors()
    ensures
        forall|i: int|
            0 <= i < 8 ==> (#[trigger] neighbor_coordinates_of(0, 0)[i] is Some <==> (3 <= i
                <= 5)),
        neighbor_coordinates_of(0, 0)[3] == Some((1usize, 0usize)),
        neighbor_coordinates_of(0, 0)[4] == Some((1usize, 1usize)),
        neighbor_coordinates_of(0, 0)[5] == Some((0usize, 1usize)),
{
}

/// How many of the entries are present and alive.
pub open spec fn alive_count(neighbors: Seq<Option<bool>>) -> nat
    decreases neighbors.len(),
{
    if neighbors.len() == 0 {
        0
    } else {
        alive_count(neighbors.drop_last()) + if neighbors.last() == Some(true) {
            1nat
        } else {
            0nat
        }
    }
}

/// The rule of the game: a live cell survives with two or three live
/// neighbors, a dead cell comes to life with exactly three.
pub open spec fn rule(current: bool, alive_neighbors: nat) -> bool {
    if current {
        alive_neighbors == 2 || alive_neighbors == 3
    } else {
        alive_neighbors == 3
    }
}

/// The next state of a cell whose neighbors are `neighbors`. Absent
/// neighbors count as dead.
pub open spec fn next_state(current: bool, neighbors: Seq<Option<bool>>) -> bool {
    rule(current, alive_count(neighbors))
}

/// Game of Life aliveness check, returns whether or not the provided cell
/// survives, dies, or comes to life.
/// * If `current == true` and neighbors includes 2 or 3 `Some(true)`, the cell survives
/// * If `current == true` but neighbors doesn't meet that criteria, the cell dies
/// * If `current != true` and neighbors includes 3 `Some(true)`, the cell comes to life
/// * If none of those criteria are met, the cell remains dead
pub fn is_alive(current: bool, neighbors: &[Option<bool>]) -> (r: bool)
    ensures
        r == next_state(current, neighbors@),
{
    let mut alive_neighbors: usize = 0;
    let mut i: usize = 0;
    while i < neighbors.len()
        invariant
            i <= neighbors.len(),
            alive_neighbors == alive_count(neighbors@.take(i as int)),
            alive_neighbors <= i,
        decreases neighbors.len() - i,
    {
        proof {
            assert(neighbors@.take(i + 1).drop_last() =~= neighbors@.take(i as int));
        }
        let alive = match neighbors[i] {
            Some(b) => b,
            None => false,
        };
        if alive {
            alive_neighbors = alive_neighbors + 1;
        }
        i = i + 1;
    }
    proof {
        assert(neighbors@.take(i as int) =~= neighbors@);
    }
    if current {
        alive_neighbors == 2 || alive_neighbors == 3
    } else {
        alive_neighbors == 3
    }
}

} // verus!
