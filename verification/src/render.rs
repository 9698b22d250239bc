//! What the display of a game depends on: the file that holds the picture of
//! a piece, the tint of a tile, and whether a piece is drawn on its square.
//! Loading and drawing are left to the caller.

use vstd::prelude::*;
use crate::game::Game;
use crate::pieces::{PieceColor, PieceType};

verus! {

/// The word for `color` in the name of a picture file.
pub open spec fn color_word(color: PieceColor) -> Seq<char> {
    match color {
        PieceColor::White => "white"@,
        PieceColor::Black => "black"@,
    }
}

/// The word for `piece_type` in the name of a picture file.
pub open spec fn kind_word(piece_type: PieceType) -> Seq<char> {
    match piece_type {
        PieceType::Pawn => "pawn"@,
        PieceType::Knight => "knight"@,
        PieceType::Bishop => "bishop"@,
        PieceType::Rook => "rook"@,
        PieceType::Queen => "queen"@,
        PieceType::King => "king"@,
    }
}

/// The path of the picture of a piece: `assets/`, the colour, a hyphen, the
/// kind, and `.png`.
pub open spec fn sprite_path(color: PieceColor, piece_type: PieceType) -> Seq<char> {
    "assets/"@ + color_word(color) + "-"@ + kind_word(piece_type) + ".png"@
}

/// The path of the file that holds the picture of a `piece_type` of `color`.
pub fn sprite_file(color: PieceColor, piece_type: PieceType) -> (path: &'static str)
    ensures
        path@ == sprite_path(color, piece_type),
{
    proof {
        reveal_strlit("assets/");
        reveal_strlit("-");
        reveal_strlit(".png");
        reveal_strlit("white");
        reveal_strlit("black");
        reveal_strlit("pawn");
        reveal_strlit("knight");
        reveal_strlit("bishop");
        reveal_strlit("rook");
        reveal_strlit("queen");
        reveal_strlit("king");
    }
    match color {
        PieceColor::White => match piece_type {
            PieceType::Pawn => {
                proof {
                    reveal_strlit("assets/white-pawn.png");
                }
                "assets/white-pawn.png"
            },
            PieceType::Knight => {
                proof {
                    reveal_strlit("assets/white-knight.png");
                }
                "assets/white-knight.png"
            },
            PieceType::Bishop => {
                proof {
                    reveal_strlit("assets/white-bishop.png");
                }
                "assets/white-bishop.png"
            },
            PieceType::Rook => {
                proof {
                    reveal_strlit("assets/white-rook.png");
                }
                "assets/white-rook.png"
            },
            PieceType::Queen => {
                proof {
                    reveal_strlit("assets/white-queen.png");
                }
                "assets/white-queen.png"
            },
            PieceType::King => {
                proof {
                    reveal_strlit("assets/white-king.png");
                }
                "assets/white-king.png"
            },
        },
        PieceColor::Black => match piece_type {
            PieceType::Pawn => {
                proof {
                    reveal_strlit("assets/black-pawn.png");
                }
                "assets/black-pawn.png"
            },
            PieceType::Knight => {
                proof {
                    reveal_strlit("assets/black-knight.png");
                }
                "assets/black-knight.png"
            },
            PieceType::Bishop => {
                proof {
                    reveal_strlit("assets/black-bishop.png");
                }
                "assets/black-bishop.png"
            },
            PieceType::Rook => {
                proof {
                    reveal_strlit("assets/black-rook.png");
                }
                "assets/black-rook.png"
            },
            PieceType::Queen => {
                proof {
                    reveal_strlit("assets/black-queen.png");
                }
                "assets/black-queen.png"
            },
            PieceType::King => {
                proof {
                    reveal_strlit("assets/black-king.png");
                }
                "assets/black-king.png"
            },
        },
    }
}

/// Whether the tile of `square` is drawn in the tint rather than in white:
/// it is where file and rank are both even or both odd.
pub fn tile_is_tinted(square: (u32, u32)) -> (tinted: bool)
    ensures
        tinted == (square.0 % 2 == square.1 % 2),
{
    let (file, rank) = square;
    (rank % 2 == 0 && file % 2 == 0) || (rank % 2 != 0 && file % 2 != 0)
}

/// Whether the piece on `square` is drawn there: it is unless it is the one
/// being dragged, which follows the pointer.
pub fn drawn_on_square(game: &Game, square: (u32, u32)) -> (drawn: bool)
    ensures
        drawn == (game.dragging != Some(square)),
{
    match game.dragging {
        Some(dragged_pos) => dragged_pos.0 != square.0 || dragged_pos.1 != square.1,
        None => true,
    }
}

} // verus!
