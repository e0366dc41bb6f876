use vstd::prelude::*;

use crate::game_of_life::rectangular;
use crate::io::lemma_flatten_rectangular;
use crate::read::{Board, Read};
use crate::utils::is_alive;

verus! {

/// What the transition of the cell at `(x, y)` yields: the coordinate and the
/// cell's next value, if the board holds a value for the cell.
pub open spec fn transition_item(board: Board, x: usize, y: usize) -> Option<(usize, usize, bool)> {
    match board.read_cell(x, y) {
        Ok(cell) => Some((x, y, board.next_cell(cell, x, y))),
        Err(_) => None,
    }
}

/// The transition of a whole board, row by row: for every cell its
/// coordinate and its next value.
pub open spec fn transition_rows(board: Board) -> Seq<Seq<(usize, usize, bool)>> {
    Seq::new(
        board.height,
        |y: int|
            Seq::new(
                board.width,
                |x: int| transition_item(board, x as usize, y as usize).unwrap(),
            ),
    )
}

/// The transition of a board lists the cells row by row: the item for the
/// cell at `(x, y)` stands at `y * width + x`, and carries the coordinate and
/// the value that the rule gives the cell.
pub proof fn lemma_transition_order(board: Board, x: usize, y: usize)
    requires
        board.in_range(x as int, y as int),
        board.full(),
    ensures
        transition_rows(board).flatten().len() == board.height * board.width,
        0 <= y * board.width + x < transition_rows(board).flatten().len(),
        transition_rows(board).flatten()[y * board.width + x] == (
            x,
            y,
            board.next_cell(board.cell(x as int, y as int).unwrap(), x, y),
        ),
{
    let rows = transition_rows(board);
    lemma_flatten_rectangular(board.width, rows);
    assert(board.cell(x as int, y as int) is Some);
    assert(rows[y as int][x as int] == transition_item(board, x, y).unwrap());
    assert((y + 1) * board.width <= board.height * board.width) by (nonlinear_arith)
        requires
            y + 1 <= board.height,
            0 <= board.width,
    ;
    assert((y + 1) * board.width == y * board.width + board.width) by (nonlinear_arith);
    assert(0 <= y * board.width) by (nonlinear_arith)
        requires
            0 <= y,
            0 <= board.width,
    ;
}

/// What a reliable iterator yields depends on nothing but the board and the
/// position: two iterators that stand at the same position of the same
/// board owe the same item, whatever they read the board from.
pub proof fn lemma_owed_is_determined<A: Read, B: Read>(a: TransitionIter<A>, b: TransitionIter<B>)
    requires
        a.reader().board() == b.reader().board(),
        a.position() == b.position(),
    ensures
        a.owed() == b.owed(),
{
}

/// The conversion of a reader into a `TransitionIter`.
pub trait IntoTransitionIter<I> {
    /// Turns a reader into an iterator over the next generation of its board.
    fn into_transition_iter(self) -> TransitionIter<I>;
}

impl<R: Read> IntoTransitionIter<R> for R {
    fn into_transition_iter(self) -> (r: TransitionIter<R>)
        ensures
            r.reader() == self,
            r.position() == (0usize, 0usize),
    {
        TransitionIter { inner: self, x: 0, y: 0 }
    }
}

/// Produces the next generation of a board cell by cell, row by row, without
/// ever holding the whole generation.
pub struct TransitionIter<R> {
    inner: R,
    x: usize,
    y: usize,
}

impl<R: Read> TransitionIter<R> {
    /// The reader that the iterator draws from.
    pub closed spec fn reader(&self) -> R {
        self.inner
    }

    /// The coordinate of the cell that comes next.
    pub closed spec fn position(&self) -> (usize, usize) {
        (self.x, self.y)
    }

    /// What a reliable reader yields at the position: nothing after the
    /// last row, and else the transition of the cell at the position.
    pub open spec fn owed(&self) -> Option<(usize, usize, bool)> {
        let (x, y) = self.position();
        if y == self.reader().board().height {
            None
        } else {
            transition_item(self.reader().board(), x, y)
        }
    }

    /// How many cells lie between the position and the end of the board.
    pub open spec fn remaining(&self) -> nat {
        let (x, y) = self.position();
        let board = self.reader().board();
        if y < board.height && x < board.width {
            ((board.height - y) * board.width - x) as nat
        } else {
            0
        }
    }

    /// Yields the coordinate and the next value of the cell at the position,
    /// and moves on to the cell that follows row by row. The iterator ends
    /// after the last row, and stands still as soon as a cell or its
    /// neighbors cannot be read.
    ///
    /// With a reliable reader the result is `owed`. With any reader, an item
    /// that is yielded carries the position, which lies on the board.
    pub fn next(&mut self) -> (r: Option<(usize, usize, bool)>)
        requires
            old(self).reader().inv(),
        ensures
            final(self).reader().inv(),
            final(self).reader().board() == old(self).reader().board(),
            final(self).reader().reliable() == old(self).reader().reliable(),
            old(self).position().1 == old(self).reader().board().height ==> r is None,
            old(self).reader().reliable() ==> r == old(self).owed(),
            r matches Some(item) ==> {
                let (x, y) = old(self).position();
                let board = old(self).reader().board();
                &&& item.0 == x && item.1 == y
                &&& y != board.height
                &&& board.in_range(x as int, y as int)
                &&& final(self).position().0 == board.following(x, y).0
                &&& final(self).position().1 == board.following(x, y).1
                &&& final(self).remaining() < old(self).remaining()
            },
            r is None ==> final(self).position() == old(self).position(),
    {
        if self.y == self.inner.height() {
            return None;
        }
        let curr = (self.x, self.y);
        let cell = match self.inner.read_cell(curr.0, curr.1) {
            Ok(cell) => cell,
            Err(_) => {
                return None;
            },
        };
        let neighbors = match self.inner.read_neighbors(curr.0, curr.1) {
            Ok(neighbors) => neighbors,
            Err(_) => {
                return None;
            },
        };
        let new_value = is_alive(cell, neighbors.as_slice());
        proof {
            let board = old(self).reader().board();
            assert((board.height - curr.1) * board.width == (board.height - curr.1 - 1)
                * board.width + board.width) by (nonlinear_arith);
            assert((board.height - curr.1 - 1) * board.width >= 0) by (nonlinear_arith)
                requires
                    board.height - curr.1 - 1 >= 0,
                    board.width >= 0,
            ;
        }
        let width = self.inner.width();
        assert(curr.0 < width);
        if self.x + 1 == width {
            self.x = 0;
            self.y = self.y + 1;
        } else {
            self.x = self.x + 1;
        }
        Some((curr.0, curr.1, new_value))
    }

    /// Draws the iterator to its end and gives everything that it yields, in
    /// the order in which it is yielded.
    ///
    /// From the start of a board that holds a value for every cell, a
    /// reliable reader yields the transition of the whole board: the rows in
    /// order, and in each row the cells in order.
    pub fn collect(self) -> (items: Vec<(usize, usize, bool)>)
        requires
            self.reader().inv(),
        ensures
            self.reader().reliable() && self.reader().board().full() && self.position() == (
                0usize,
                0usize,
            ) ==> items@ == transition_rows(self.reader().board()).flatten(),
            forall|k: int|
                0 <= k < items.len() ==> self.reader().board().in_range(
                    (#[trigger] items[k]).0 as int,
                    items[k].1 as int,
                ),
    {
        let ghost board = self.reader().board();
        let ghost rows = transition_rows(board);
        let ghost exact = self.reader().reliable() && self.position() == (0usize, 0usize)
            && board.full();
        let mut iter = self;
        let mut items: Vec<(usize, usize, bool)> = Vec::new();
        let mut done = false;
        proof {
            assert(rows.take(0).flatten() =~= Seq::<(usize, usize, bool)>::empty());
        }
        while !done
            invariant
                iter.reader().inv(),
                iter.reader().board() == board,
                rows == transition_rows(board),
                exact ==> iter.reader().reliable() && board.full(),
                exact && !done ==> {
                    let (x, y) = iter.position();
                    &&& y <= board.height
                    &&& y < board.height && board.width > 0 ==> x < board.width
                    &&& board.width == 0 ==> x == 0 && y == 0
                    &&& items@ == rows.take(y as int).flatten() + (if y < board.height {
                        rows[y as int].take(x as int)
                    } else {
                        Seq::empty()
                    })
                },
                exact && done ==> items@ == rows.flatten(),
                forall|k: int|
                    0 <= k < items.len() ==> board.in_range(
                        (#[trigger] items[k]).0 as int,
                        items[k].1 as int,
                    ),
            decreases
                    (if done {
                        0
                    } else {
                        iter.remaining() + 1
                    }),
        {
            let ghost (x, y) = iter.position();
            match iter.next() {
                Some(item) => {
                    items.push(item);
                    proof {
                        if exact {
                            let row = rows[y as int];
                            assert(board.cell(x as int, y as int) is Some);
                            assert(item == row[x as int]);
                            assert(row.take(x + 1) =~= row.take(x as int).push(item));
                            if x + 1 == board.width {
                                assert(row.take(x + 1) =~= row);
                                assert(rows.take(y + 1) =~= rows.take(y as int).push(row));
                                rows.take(y as int).lemma_flatten_push(row);
                                if y + 1 < board.height {
                                    assert(rows[y + 1].take(0) =~= Seq::empty());
                                }
                            }
                        }
                    }
                },
                None => {
                    done = true;
                    proof {
                        if exact {
                            if board.width == 0 {
                                lemma_flatten_rectangular(0, rows);
                                assert(rows.flatten().len() == 0) by (nonlinear_arith)
                                    requires
                                        rows.flatten().len() == rows.len() * 0,
                                ;
                                assert(items@ =~= rows.flatten());
                            } else {
                                assert(board.cell(x as int, y as int) is Some || y
                                    == board.height);
                                assert(rows.take(y as int) =~= rows);
                            }
                        }
                    }
                },
            }
        }
        items
    }
}

} // verus!
