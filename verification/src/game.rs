//! A game in progress: the board, whose turn it is, and the piece that the
//! player is dragging. The decisions of one frame are taken here from the
//! squares that the pointer pressed and released; reading the pointer and
//! drawing are left to the caller.

use vstd::prelude::*;
use crate::board::{Board, occupant, relocated, standard_squares};
use crate::pieces::{Piece, PieceColor, legal_destinations};

verus! {

/// A game of chess between two players at one screen.
pub struct Game {
    pub board: Board,
    /// `true` while White is to move, `false` while Black is.
    pub turn: bool,
    /// The number of moves made so far, by both sides together.
    pub move_count: u32,
    /// The square from which a piece is being dragged.
    pub dragging: Option<(u32, u32)>,
    /// The piece that was picked up there.
    pub dragged_piece: Option<Piece>,
    /// The square under the pointer; the game itself never sets it.
    pub hovered: Option<(u32, u32)>,
}

/// Whether `square` is among `moves`.
fn contains_square(moves: &Vec<(u32, u32)>, square: (u32, u32)) -> (found: bool)
    ensures
        found == moves@.contains(square),
{
    let n = moves.len();
    for i in 0..n
        invariant
            n == moves@.len(),
            forall|j: int| 0 <= j < i ==> moves@[j] != square,
    {
        if moves[i].0 == square.0 && moves[i].1 == square.1 {
            return true;
        }
    }
    false
}

impl Game {
    /// The side whose turn it is.
    pub open spec fn side_to_move(&self) -> PieceColor {
        if self.turn {
            PieceColor::White
        } else {
            PieceColor::Black
        }
    }

    /// Whether a press on `clicked` picks a piece up: it does where a piece
    /// of the side to move stands there.
    pub open spec fn picks_up(&self, clicked: (u32, u32)) -> bool {
        occupant(self.board@, clicked.0 as int, clicked.1 as int) matches Some(piece)
            && piece.color == self.side_to_move()
    }

    /// Whether a piece dragged from `from` and let go on `to` is moved: a
    /// drag is under way, `to` is another square than the one it began on, a
    /// piece stands on that square, and `to` is one of its destinations.
    pub open spec fn drop_moves(&self, from: Option<(u32, u32)>, to: (u32, u32)) -> bool {
        &&& from matches Some(origin)
        &&& origin != to
        &&& occupant(self.board@, origin.0 as int, origin.1 as int) matches Some(piece)
        &&& legal_destinations(piece, origin, self.board@).contains(to)
    }

    /// Whether a release on `to` moves the dragged piece.
    pub open spec fn accepts_drop(&self, to: (u32, u32)) -> bool {
        self.drop_moves(self.dragging, to)
    }

    /// The square from which a drag is under way once `pressed` has been
    /// handled.
    pub open spec fn dragging_after(&self, pressed: Option<(u32, u32)>) -> Option<(u32, u32)> {
        match pressed {
            Some(clicked) => if self.picks_up(clicked) {
                Some(clicked)
            } else {
                self.dragging
            },
            None => self.dragging,
        }
    }

    /// The piece held as dragged once `pressed` has been handled.
    pub open spec fn dragged_piece_after(&self, pressed: Option<(u32, u32)>) -> Option<Piece> {
        match pressed {
            Some(clicked) => if self.picks_up(clicked) {
                occupant(self.board@, clicked.0 as int, clicked.1 as int)
            } else {
                self.dragged_piece
            },
            None => self.dragged_piece,
        }
    }

    /// Whether handling `pressed` and then `released` in one frame moves a
    /// piece.
    pub open spec fn frame_moves(
        &self,
        pressed: Option<(u32, u32)>,
        released: Option<(u32, u32)>,
    ) -> bool {
        released matches Some(to) && self.drop_moves(self.dragging_after(pressed), to)
    }

    /// A game at its start: the standard position, White to move, no move
    /// made and nothing dragged.
    pub fn new() -> (game: Game)
        ensures
            game.board.wf(),
            game.board@ == standard_squares(),
            game.turn,
            game.move_count == 0,
            game.dragging.is_none(),
            game.dragged_piece.is_none(),
            game.hovered.is_none(),
    {
        Game {
            board: Board::new_standard(),
            turn: true,
            move_count: 0,
            dragging: None,
            dragged_piece: None,
            hovered: None,
        }
    }

    /// The pointer was pressed on `clicked`. Where a piece of the side to
    /// move stands there, a drag of that piece begins; otherwise nothing
    /// changes.
    pub fn press(&mut self, clicked: (u32, u32))
        ensures
            final(self).board == old(self).board,
            final(self).turn == old(self).turn,
            final(self).move_count == old(self).move_count,
            final(self).hovered == old(self).hovered,
            old(self).picks_up(clicked) ==> {
                &&& final(self).dragging == Some(clicked)
                &&& final(self).dragged_piece == occupant(
                    old(self).board@,
                    clicked.0 as int,
                    clicked.1 as int,
                )
            },
            !old(self).picks_up(clicked) ==> {
                &&& final(self).dragging == old(self).dragging
                &&& final(self).dragged_piece == old(self).dragged_piece
            },
    {
        if let Some(piece) = self.grabbed(clicked) {
            self.dragging = Some(clicked);
            self.dragged_piece = Some(piece);
        }
    }

    /// The piece that a press on `clicked` picks up, if it picks one up.
    fn grabbed(&self, clicked: (u32, u32)) -> (piece: Option<Piece>)
        ensures
            piece.is_some() == self.picks_up(clicked),
            piece.is_some() ==> piece == occupant(
                self.board@,
                clicked.0 as int,
                clicked.1 as int,
            ),
    {
        if let Some(node) = self.board.get_node(clicked) {
            if let Some(piece) = node.piece {
                if (self.turn && piece.color == PieceColor::White) || (!self.turn && piece.color
                    == PieceColor::Black) {
                    return Some(piece);
                }
            }
        }
        None
    }

    /// Whether a piece dragged from `from` and let go on `to_pos` is moved.
    fn drop_is_move(&self, from: Option<(u32, u32)>, to_pos: (u32, u32)) -> (accepted: bool)
        ensures
            accepted == self.drop_moves(from, to_pos),
    {
        if let Some(from_pos) = from {
            if from_pos.0 != to_pos.0 || from_pos.1 != to_pos.1 {
                if let Some(node) = self.board.get_node(from_pos) {
                    if let Some(piece) = node.piece {
                        let moves = piece.generate_legal_moves(from_pos, &self.board);
                        return contains_square(&moves, to_pos);
                    }
                }
            }
        }
        false
    }

    /// Whether a release on `to_pos` would move the dragged piece.
    pub fn can_drop(&self, to_pos: (u32, u32)) -> (accepted: bool)
        ensures
            accepted == self.accepts_drop(to_pos),
    {
        self.drop_is_move(self.dragging, to_pos)
    }

    /// Whether a frame with these events would move a piece.
    pub fn will_move(&self, pressed: Option<(u32, u32)>, released: Option<(u32, u32)>) -> (moves:
        bool)
        ensures
            moves == self.frame_moves(pressed, released),
    {
        match released {
            Some(to_pos) => {
                let from = match pressed {
                    Some(clicked) => if self.grabbed(clicked).is_some() {
                        Some(clicked)
                    } else {
                        self.dragging
                    },
                    None => self.dragging,
                };
                self.drop_is_move(from, to_pos)
            },
            None => false,
        }
    }

    /// The pointer was released on `to_pos`. A drag, if one is under way,
    /// ends. Where the piece on the square it began on may move to `to_pos`,
    /// the piece is moved there, the move is counted and the turn passes to
    /// the other side; otherwise the board, the count and the turn stay.
    /// With no drag under way nothing changes.
    pub fn release(&mut self, to_pos: (u32, u32))
        requires
            old(self).accepts_drop(to_pos) ==> old(self).move_count < u32::MAX,
        ensures
            old(self).dragging.is_none() ==> *final(self) == *old(self),
            final(self).dragging.is_none(),
            old(self).dragging.is_some() ==> final(self).dragged_piece.is_none(),
            final(self).hovered == old(self).hovered,
            final(self).board.same_layout(&old(self).board),
            old(self).board.wf() ==> final(self).board.wf(),
            old(self).accepts_drop(to_pos) ==> {
                &&& old(self).dragging matches Some(from)
                &&& final(self).board@ == relocated(
                    old(self).board@,
                    from.0 as int,
                    from.1 as int,
                    to_pos.0 as int,
                    to_pos.1 as int,
                )
                &&& final(self).move_count == old(self).move_count + 1
                &&& final(self).turn == !old(self).turn
            },
            !old(self).accepts_drop(to_pos) ==> {
                &&& final(self).board == old(self).board
                &&& final(self).move_count == old(self).move_count
                &&& final(self).turn == old(self).turn
            },
    {
        if self.dragging.is_some() {
            if self.can_drop(to_pos) {
                if let Some(from_pos) = self.dragging {
                    if self.board.move_piece(from_pos, to_pos) {
                        self.move_count += 1;
                        self.turn = !self.turn;
                    }
                }
            }
            self.dragging = None;
            self.dragged_piece = None;
        }
    }

    /// One frame of play. `pressed` is the square under the pointer if the
    /// button went down in this frame, `released` the square under it if the
    /// button came up. The press is handled first, as `press` does, then the
    /// release, as `release` does.
    pub fn update_game(&mut self, pressed: Option<(u32, u32)>, released: Option<(u32, u32)>)
        requires
            old(self).frame_moves(pressed, released) ==> old(self).move_count < u32::MAX,
        ensures
            final(self).hovered == old(self).hovered,
            final(self).board.same_layout(&old(self).board),
            old(self).board.wf() ==> final(self).board.wf(),
            old(self).frame_moves(pressed, released) ==> {
                &&& released matches Some(to)
                &&& old(self).dragging_after(pressed) matches Some(from)
                &&& final(self).board@ == relocated(
                    old(self).board@,
                    from.0 as int,
                    from.1 as int,
                    to.0 as int,
                    to.1 as int,
                )
                &&& final(self).move_count == old(self).move_count + 1
                &&& final(self).turn == !old(self).turn
            },
            !old(self).frame_moves(pressed, released) ==> {
                &&& final(self).board == old(self).board
                &&& final(self).move_count == old(self).move_count
                &&& final(self).turn == old(self).turn
            },
            final(self).dragging == (if released.is_some() {
                None
            } else {
                old(self).dragging_after(pressed)
            }),
            final(self).dragged_piece == (if released.is_some() && old(self).dragging_after(
                pressed,
            ).is_some() {
                None
            } else {
                old(self).dragged_piece_after(pressed)
            }),
    {
        if let Some(clicked) = pressed {
            self.press(clicked);
        }
        if let Some(to_pos) = released {
            self.release(to_pos);
        }
    }
}

} // verus!
