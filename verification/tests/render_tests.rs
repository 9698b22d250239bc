use chess_core::game::Game;
use chess_core::pieces::{PieceColor, PieceType};
use chess_core::render::{drawn_on_square, sprite_file, tile_is_tinted};

#[test]
fn sprite_files_are_named_by_colour_and_kind() {
    assert_eq!(sprite_file(PieceColor::White, PieceType::Pawn), "assets/white-pawn.png");
    assert_eq!(sprite_file(PieceColor::White, PieceType::Knight), "assets/white-knight.png");
    assert_eq!(sprite_file(PieceColor::White, PieceType::Bishop), "assets/white-bishop.png");
    assert_eq!(sprite_file(PieceColor::White, PieceType::Rook), "assets/white-rook.png");
    assert_eq!(sprite_file(PieceColor::White, PieceType::Queen), "assets/white-queen.png");
    assert_eq!(sprite_file(PieceColor::White, PieceType::King), "assets/white-king.png");
    assert_eq!(sprite_file(PieceColor::Black, PieceType::Pawn), "assets/black-pawn.png");
    assert_eq!(sprite_file(PieceColor::Black, PieceType::Knight), "assets/black-knight.png");
    assert_eq!(sprite_file(PieceColor::Black, PieceType::Bishop), "assets/black-bishop.png");
    assert_eq!(sprite_file(PieceColor::Black, PieceType::Rook), "assets/black-rook.png");
    assert_eq!(sprite_file(PieceColor::Black, PieceType::Queen), "assets/black-queen.png");
    assert_eq!(sprite_file(PieceColor::Black, PieceType::King), "assets/black-king.png");
}

#[test]
fn sprite_file_follows_the_pattern() {
    let colors = [(PieceColor::White, "white"), (PieceColor::Black, "black")];
    let kinds = [
        (PieceType::Pawn, "pawn"),
        (PieceType::Knight, "knight"),
        (PieceType::Bishop, "bishop"),
        (PieceType::Rook, "rook"),
        (PieceType::Queen, "queen"),
        (PieceType::King, "king"),
    ];
    for (color, color_word) in colors {
        for (kind, kind_word) in kinds {
            assert_eq!(sprite_file(color, kind), format!("assets/{}-{}.png", color_word, kind_word));
        }
    }
}

#[test]
fn tiles_alternate() {
    assert!(tile_is_tinted((0, 0)));
    assert!(!tile_is_tinted((1, 0)));
    assert!(!tile_is_tinted((0, 1)));
    assert!(tile_is_tinted((1, 1)));
    assert!(tile_is_tinted((7, 7)));
    assert!(!tile_is_tinted((7, 0)));
    let mut tinted = 0;
    for rank in 0..8u32 {
        for file in 0..8u32 {
            assert_eq!(tile_is_tinted((file, rank)), (file + rank) % 2 == 0);
            if tile_is_tinted((file, rank)) {
                tinted += 1;
            }
        }
    }
    assert_eq!(tinted, 32);
    assert!(tile_is_tinted((u32::MAX, u32::MAX)));
    assert!(!tile_is_tinted((u32::MAX, 0)));
}

#[test]
fn the_dragged_piece_leaves_its_square() {
    let mut game = Game::new();
    assert!(drawn_on_square(&game, (4, 6)));
    game.press((4, 6));
    assert!(!drawn_on_square(&game, (4, 6)));
    assert!(drawn_on_square(&game, (3, 6)));
    assert!(drawn_on_square(&game, (6, 4)));
    game.release((4, 4));
    assert!(drawn_on_square(&game, (4, 6)));
    assert!(drawn_on_square(&game, (4, 4)));
}
