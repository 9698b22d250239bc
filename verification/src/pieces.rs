//! Pieces, and the squares each may move to.
//!
//! The moves generated here are pseudo-legal: they follow how a piece moves,
//! what blocks it and what it may capture, and take no account of check.

use vstd::prelude::*;
use crate::board::{Board, Squares, occupant, on_board, present, square_index};
use crate::move_laws::{lemma_destinations_distinct, lemma_destinations_enterable};

verus! {

/// The six kinds of chess piece.
#[derive(Clone, Copy, PartialEq, Eq, Hash, Debug, Structural)]
pub enum PieceType {
    Pawn,
    Knight,
    Bishop,
    Rook,
    Queen,
    King,
}

/// The two sides.
#[derive(Clone, Copy, PartialEq, Eq, Hash, Debug, Structural)]
pub enum PieceColor {
    White,
    Black,
}

/// A piece: a kind and a colour, copied by value wherever it is read.
#[derive(Clone, Copy, PartialEq, Eq, Hash, Debug, Structural)]
pub struct Piece {
    pub piece_type: PieceType,
    pub color: PieceColor,
}

/// The king's steps: one square in each of the eight directions.
pub const KING_DIRS: [(i32, i32); 8] = [
    (1, 0),
    (0, 1),
    (-1, 0),
    (0, -1),
    (1, 1),
    (1, -1),
    (-1, 1),
    (-1, -1),
];

/// The knight's eight jumps.
pub const KNIGHT_DIRS: [(i32, i32); 8] = [
    (2, 1),
    (1, 2),
    (-1, 2),
    (-2, 1),
    (-2, -1),
    (-1, -2),
    (1, -2),
    (2, -1),
];

/// The rook's lines: along files and ranks.
pub const ROOK_DIRS: [(i32, i32); 4] = [(1, 0), (-1, 0), (0, 1), (0, -1)];

/// The bishop's lines: the diagonals.
pub const BISHOP_DIRS: [(i32, i32); 4] = [(1, 1), (1, -1), (-1, 1), (-1, -1)];

/// The queen's lines: those of the rook, then those of the bishop.
pub const QUEEN_DIRS: [(i32, i32); 8] = [
    (1, 0),
    (-1, 0),
    (0, 1),
    (0, -1),
    (1, 1),
    (1, -1),
    (-1, 1),
    (-1, -1),
];

/// Whether `(x, y)` holds a piece of `color`.
pub open spec fn friendly(squares: Squares, color: PieceColor, x: int, y: int) -> bool {
    occupant(squares, x, y) matches Some(p) && p.color == color
}

/// Whether `(x, y)` holds a piece of the other colour than `color`.
pub open spec fn hostile(squares: Squares, color: PieceColor, x: int, y: int) -> bool {
    occupant(squares, x, y) matches Some(p) && p.color != color
}

/// Whether `(x, y)` is a square with nothing on it.
pub open spec fn vacant(squares: Squares, x: int, y: int) -> bool {
    present(squares, x, y) && occupant(squares, x, y).is_none()
}

/// Whether a piece of `color` may end a move on `square`: it lies on the
/// board and no piece of `color` stands on it.
pub open spec fn enterable(squares: Squares, color: PieceColor, square: (u32, u32)) -> bool {
    on_board(square.0 as int, square.1 as int) && !friendly(
        squares,
        color,
        square.0 as int,
        square.1 as int,
    )
}

/// Whether a piece of `color` may end a move on each of `moves`.
pub open spec fn all_enterable(squares: Squares, color: PieceColor, moves: Seq<(u32, u32)>) -> bool {
    forall|i: int| 0 <= i < moves.len() ==> enterable(squares, color, #[trigger] moves[i])
}

/// The step from `from` along `dir`: the square reached, unless it is off the
/// board or holds a piece of `color`.
pub open spec fn step_target(
    squares: Squares,
    color: PieceColor,
    from: (u32, u32),
    dir: (i32, i32),
) -> Seq<(u32, u32)> {
    let x = from.0 + dir.0;
    let y = from.1 + dir.1;
    if present(squares, x, y) && !friendly(squares, color, x, y) {
        seq![(x as u32, y as u32)]
    } else {
        Seq::empty()
    }
}

/// The squares that single steps along `dirs` reach, in the order of `dirs`.
pub open spec fn step_moves(
    squares: Squares,
    color: PieceColor,
    from: (u32, u32),
    dirs: Seq<(i32, i32)>,
) -> Seq<(u32, u32)>
    decreases dirs.len(),
{
    if dirs.len() == 0 {
        Seq::empty()
    } else {
        step_moves(squares, color, from, dirs.drop_last()) + step_target(
            squares,
            color,
            from,
            dirs.last(),
        )
    }
}

/// A bound on the squares that a walk along `dir` can still visit once it
/// stands on `(x, y)`.
pub open spec fn ray_reach(x: int, y: int, dir: (i32, i32)) -> int {
    if !on_board(x, y) {
        0
    } else if dir.0 > 0 {
        8 - x
    } else if dir.0 < 0 {
        x + 1
    } else if dir.1 > 0 {
        8 - y
    } else if dir.1 < 0 {
        y + 1
    } else {
        0
    }
}

/// The squares that a piece of `color` enters as it walks along `dir`,
/// starting with `(x, y)`: every empty square up to the first piece or the
/// edge of the board, and the square of that piece if it is of the other
/// colour. A square for which `squares` has no entry is passed over.
pub open spec fn ray(squares: Squares, color: PieceColor, x: int, y: int, dir: (i32, i32)) -> Seq<
    (u32, u32),
>
    decreases ray_reach(x, y, dir),
{
    if !on_board(x, y) || (dir.0 == 0 && dir.1 == 0) {
        Seq::empty()
    } else if !present(squares, x, y) {
        ray(squares, color, x + dir.0, y + dir.1, dir)
    } else {
        match squares[square_index(x, y)] {
            Some(p) => if p.color != color {
                seq![(x as u32, y as u32)]
            } else {
                Seq::empty()
            },
            None => seq![(x as u32, y as u32)] + ray(squares, color, x + dir.0, y + dir.1, dir),
        }
    }
}

/// The squares that walks from `from` along each of `dirs` enter, in the
/// order of `dirs` and, along one direction, by distance.
pub open spec fn slide_moves(
    squares: Squares,
    color: PieceColor,
    from: (u32, u32),
    dirs: Seq<(i32, i32)>,
) -> Seq<(u32, u32)>
    decreases dirs.len(),
{
    if dirs.len() == 0 {
        Seq::empty()
    } else {
        slide_moves(squares, color, from, dirs.drop_last()) + ray(
            squares,
            color,
            from.0 + dirs.last().0,
            from.1 + dirs.last().1,
            dirs.last(),
        )
    }
}

/// The rank on which the pawns of `color` start.
pub open spec fn pawn_start_rank(color: PieceColor) -> int {
    match color {
        PieceColor::White => 6,
        PieceColor::Black => 1,
    }
}

/// The change of rank when a pawn of `color` advances: White moves towards
/// rank 0, Black towards rank 7.
pub open spec fn pawn_forward(color: PieceColor) -> int {
    match color {
        PieceColor::White => -1,
        PieceColor::Black => 1,
    }
}

/// The advances of a pawn of `color` on `(x, y)`: one square ahead if that
/// square is empty, and then two squares ahead if the pawn stands on its
/// starting rank and that square is empty too.
pub open spec fn pawn_advances(squares: Squares, color: PieceColor, x: int, y: int) -> Seq<
    (u32, u32),
> {
    let ahead = y + pawn_forward(color);
    let far = y + 2 * pawn_forward(color);
    if vacant(squares, x, ahead) {
        if y == pawn_start_rank(color) && vacant(squares, x, far) {
            seq![(x as u32, ahead as u32), (x as u32, far as u32)]
        } else {
            seq![(x as u32, ahead as u32)]
        }
    } else {
        Seq::empty()
    }
}

/// The capture of a pawn of `color` on `(x, y)`, a square diagonally ahead
/// of it: possible only where a piece of the other colour stands there.
pub open spec fn pawn_capture(squares: Squares, color: PieceColor, x: int, y: int) -> Seq<
    (u32, u32),
> {
    if hostile(squares, color, x, y) {
        seq![(x as u32, y as u32)]
    } else {
        Seq::empty()
    }
}

/// The squares that a pawn of `color` on `from` may move to: its advances,
/// then the capture towards the lower file, then the one towards the higher.
pub open spec fn pawn_moves(squares: Squares, color: PieceColor, from: (u32, u32)) -> Seq<
    (u32, u32),
> {
    let x = from.0 as int;
    let y = from.1 as int;
    let ahead = y + pawn_forward(color);
    if 0 <= ahead < 8 {
        pawn_advances(squares, color, x, y) + pawn_capture(squares, color, x - 1, ahead)
            + pawn_capture(squares, color, x + 1, ahead)
    } else {
        Seq::empty()
    }
}

/// The squares that `piece` on `from` may move to, by the rule of its kind.
pub open spec fn legal_destinations(piece: Piece, from: (u32, u32), squares: Squares) -> Seq<
    (u32, u32),
> {
    match piece.piece_type {
        PieceType::Pawn => pawn_moves(squares, piece.color, from),
        PieceType::Knight => step_moves(squares, piece.color, from, KNIGHT_DIRS@),
        PieceType::Bishop => slide_moves(squares, piece.color, from, BISHOP_DIRS@),
        PieceType::Rook => slide_moves(squares, piece.color, from, ROOK_DIRS@),
        PieceType::Queen => slide_moves(squares, piece.color, from, QUEEN_DIRS@),
        PieceType::King => step_moves(squares, piece.color, from, KING_DIRS@),
    }
}

impl Piece {
    /// The squares that this piece, standing on `from`, may move to on
    /// `board`, in a fixed order: by direction, and along a line by distance.
    /// Every one of them lies on the board, and none holds a piece of this
    /// piece's colour. The board is only read.
    pub fn generate_legal_moves(&self, from: (u32, u32), board: &Board) -> (moves: Vec<(u32, u32)>)
        ensures
            moves@ == legal_destinations(*self, from, board@),
            moves@.no_duplicates(),
            forall|i: int| 0 <= i < moves@.len() ==> (#[trigger] moves@[i]).0 < 8 && moves@[i].1 < 8,
            forall|i: int|
                0 <= i < moves@.len() ==> !friendly(
                    board@,
                    self.color,
                    (#[trigger] moves@[i]).0 as int,
                    moves@[i].1 as int,
                ),
    {
        let moves = match self.piece_type {
            PieceType::Pawn => generate_pawn_moves(self.color, from, board),
            PieceType::Knight => generate_knight_moves(self.color, from, board),
            PieceType::Bishop => generate_sliding_moves(from, board, &BISHOP_DIRS, self.color),
            PieceType::Rook => generate_sliding_moves(from, board, &ROOK_DIRS, self.color),
            PieceType::Queen => generate_sliding_moves(from, board, &QUEEN_DIRS, self.color),
            PieceType::King => generate_step_moves(from, board, &KING_DIRS, self.color),
        };
        proof {
            lemma_destinations_distinct(*self, from, board@);
            lemma_destinations_enterable(*self, from, board@);
            assert forall|i: int| 0 <= i < moves@.len() implies (#[trigger] moves@[i]).0 < 8
                && moves@[i].1 < 8 && !friendly(
                board@,
                self.color,
                moves@[i].0 as int,
                moves@[i].1 as int,
            ) by {
                assert(enterable(board@, self.color, moves@[i]));
            }
        }
        moves
    }
}

/// The squares that a piece of `color` reaches by single steps from `from`
/// along each of `directions`: a square on the board is reached unless a
/// piece of `color` stands on it.
pub fn generate_step_moves(
    from: (u32, u32),
    board: &Board,
    directions: &[(i32, i32)],
    color: PieceColor,
) -> (moves: Vec<(u32, u32)>)
    ensures
        moves@ == step_moves(board@, color, from, directions@),
        all_enterable(board@, color, moves@),
{
    let mut moves: Vec<(u32, u32)> = Vec::new();
    let n = directions.len();
    for i in 0..n
        invariant
            n == directions@.len(),
            moves@ == step_moves(board@, color, from, directions@.take(i as int)),
            all_enterable(board@, color, moves@),
    {
        let (dx, dy) = directions[i];
        let x: i64 = from.0 as i64 + dx as i64;
        let y: i64 = from.1 as i64 + dy as i64;

        if x >= 0 && x < 8 && y >= 0 && y < 8 {
            let dest = (x as u32, y as u32);
            if let Some(node) = board.get_node(dest) {
                if let Some(piece) = node.piece {
                    if piece.color != color {
                        moves.push(dest);
                    }
                } else {
                    moves.push(dest);
                }
            }
        }
        proof {
            let next = directions@.take(i + 1);
            assert(next.drop_last() =~= directions@.take(i as int));
            assert(next.last() == directions@[i as int]);
        }
    }
    assert(directions@.take(n as int) =~= directions@);
    moves
}

/// The squares that a knight of `color` on `from` may move to.
pub fn generate_knight_moves(color: PieceColor, from: (u32, u32), board: &Board) -> (moves: Vec<
    (u32, u32),
>)
    ensures
        moves@ == step_moves(board@, color, from, KNIGHT_DIRS@),
        all_enterable(board@, color, moves@),
{
    generate_step_moves(from, board, &KNIGHT_DIRS, color)
}

/// The squares that a piece of `color` reaches by walking from `from` along
/// each of `directions`. A walk passes over empty squares, ends on the first
/// piece of the other colour, and ends before the first piece of `color` and
/// at the edge of the board.
pub fn generate_sliding_moves(
    from: (u32, u32),
    board: &Board,
    directions: &[(i32, i32)],
    color: PieceColor,
) -> (moves: Vec<(u32, u32)>)
    requires
        forall|i: int|
            0 <= i < directions@.len() ==> (#[trigger] directions@[i]).0 != 0 || directions@[i].1
                != 0,
    ensures
        moves@ == slide_moves(board@, color, from, directions@),
        all_enterable(board@, color, moves@),
{
    let mut moves: Vec<(u32, u32)> = Vec::new();
    let n = directions.len();
    for i in 0..n
        invariant
            n == directions@.len(),
            forall|i: int|
                0 <= i < directions@.len() ==> (#[trigger] directions@[i]).0 != 0
                    || directions@[i].1 != 0,
            moves@ == slide_moves(board@, color, from, directions@.take(i as int)),
            all_enterable(board@, color, moves@),
    {
        let (dx, dy) = directions[i];
        let mut x: i64 = from.0 as i64 + dx as i64;
        let mut y: i64 = from.1 as i64 + dy as i64;
        let ghost done = moves@;
        let ghost whole = ray(board@, color, x as int, y as int, (dx, dy));

        while x >= 0 && x < 8 && y >= 0 && y < 8
            invariant_except_break
                moves@ + ray(board@, color, x as int, y as int, (dx, dy)) == done + whole,
            invariant
                dx != 0 || dy != 0,
                -0x2_0000_0000 <= x <= 0x2_0000_0000,
                -0x2_0000_0000 <= y <= 0x2_0000_0000,
                all_enterable(board@, color, moves@),
            ensures
                moves@ == done + whole,
                all_enterable(board@, color, moves@),
            decreases ray_reach(x as int, y as int, (dx, dy)),
        {
            let pos = (x as u32, y as u32);
            let ghost before = moves@;
            let ghost rest = ray(board@, color, x + dx, y + dy, (dx, dy));

            if let Some(node) = board.get_node(pos) {
                if let Some(piece) = node.piece {
                    if piece.color != color {
                        moves.push(pos);
                        assert(moves@ =~= done + whole);
                        break ;
                    } else {
                        assert(moves@ =~= done + whole);
                        break ;
                    }
                } else {
                    moves.push(pos);
                    assert(moves@ + rest =~= before + (seq![pos] + rest));
                }
            }
            x += dx as i64;
            y += dy as i64;
        }
        proof {
            assert(moves@ =~= done + whole);
            let next = directions@.take(i + 1);
            assert(next.drop_last() =~= directions@.take(i as int));
            assert(next.last() == directions@[i as int]);
        }
    }
    assert(directions@.take(n as int) =~= directions@);
    moves
}

/// The squares that a pawn of `color` on `from` may move to: one square
/// ahead if it is empty, two if the pawn is on its starting rank and both are
/// empty, and diagonally ahead onto a piece of the other colour.
pub fn generate_pawn_moves(color: PieceColor, from: (u32, u32), board: &Board) -> (moves: Vec<
    (u32, u32),
>)
    ensures
        moves@ == pawn_moves(board@, color, from),
        all_enterable(board@, color, moves@),
{
    let mut moves: Vec<(u32, u32)> = Vec::new();
    let (x, y) = from;
    let dir: i64 = if color == PieceColor::White {
        -1
    } else {
        1
    };
    let start_row: u32 = if color == PieceColor::White {
        6
    } else {
        1
    };

    let new_y_wide: i64 = y as i64 + dir;
    if new_y_wide >= 0 && new_y_wide < 8 {
        let new_y: u32 = new_y_wide as u32;

        if let Some(node) = board.get_node((x, new_y)) {
            if node.piece.is_none() {
                moves.push((x, new_y));

                if y == start_row {
                    let double_y: u32 = (y as i64 + 2 * dir) as u32;
                    if let Some(node) = board.get_node((x, double_y)) {
                        if node.piece.is_none() {
                            moves.push((x, double_y));
                        }
                    }
                }
            }
        }
        assert(moves@ =~= pawn_advances(board@, color, x as int, y as int));

        let sides: [i64; 2] = [-1, 1];
        for k in 0usize..2
            invariant
                new_y < 8,
                new_y == y + pawn_forward(color),
                sides@[0] == -1,
                sides@[1] == 1,
                moves@ == pawn_advances(board@, color, x as int, y as int) + (if k >= 1 {
                    pawn_capture(board@, color, x - 1, new_y as int)
                } else {
                    Seq::empty()
                }) + (if k >= 2 {
                    pawn_capture(board@, color, x + 1, new_y as int)
                } else {
                    Seq::empty()
                }),
                all_enterable(board@, color, moves@),
        {
            let nx: i64 = x as i64 + sides[k];
            if nx >= 0 && nx < 8 {
                let capture_pos = (nx as u32, new_y);
                if let Some(node) = board.get_node(capture_pos) {
                    if let Some(enemy) = node.piece {
                        if enemy.color != color {
                            moves.push(capture_pos);
                        }
                    }
                }
            }
        }
    }
    moves
}

} // verus!
