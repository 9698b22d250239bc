//! What holds of the destinations of every piece, on every board: they lie
//! on the board, none is a square of the mover's own side, none is listed
//! twice, a sliding piece never passes a piece in its way, and a pawn
//! advances and captures as pawns do.

use vstd::prelude::*;
use crate::board::{Squares, occupant, on_board, present, square_index};
use crate::pieces::{
    BISHOP_DIRS, KING_DIRS, KNIGHT_DIRS, Piece, PieceColor, PieceType, QUEEN_DIRS, ROOK_DIRS,
    all_enterable, hostile, legal_destinations, pawn_advances, pawn_capture,
    pawn_forward, pawn_moves, pawn_start_rank, ray, ray_reach, slide_moves, step_moves,
    step_target,
};

verus! {

/// Single steps end on squares that the piece may enter.
proof fn lemma_step_enterable(
    squares: Squares,
    color: PieceColor,
    from: (u32, u32),
    dirs: Seq<(i32, i32)>,
)
    ensures
        all_enterable(squares, color, step_moves(squares, color, from, dirs)),
    decreases dirs.len(),
{
    if dirs.len() > 0 {
        lemma_step_enterable(squares, color, from, dirs.drop_last());
    }
}

/// A ray enters only squares that the piece may enter.
proof fn lemma_ray_enterable(squares: Squares, color: PieceColor, x: int, y: int, dir: (i32, i32))
    ensures
        all_enterable(squares, color, ray(squares, color, x, y, dir)),
    decreases ray_reach(x, y, dir),
{
    if on_board(x, y) && (dir.0 != 0 || dir.1 != 0) {
        lemma_ray_enterable(squares, color, x + dir.0, y + dir.1, dir);
    }
}

/// Walks enter only squares that the piece may enter.
proof fn lemma_slide_enterable(
    squares: Squares,
    color: PieceColor,
    from: (u32, u32),
    dirs: Seq<(i32, i32)>,
)
    ensures
        all_enterable(squares, color, slide_moves(squares, color, from, dirs)),
    decreases dirs.len(),
{
    if dirs.len() > 0 {
        lemma_slide_enterable(squares, color, from, dirs.drop_last());
        lemma_ray_enterable(
            squares,
            color,
            from.0 + dirs.last().0,
            from.1 + dirs.last().1,
            dirs.last(),
        );
    }
}

/// Every destination can be entered: it lies on the board, and no piece of
/// the mover's colour stands on it.
pub proof fn lemma_destinations_enterable(piece: Piece, from: (u32, u32), squares: Squares)
    ensures
        all_enterable(squares, piece.color, legal_destinations(piece, from, squares)),
{
    match piece.piece_type {
        PieceType::Pawn => {},
        PieceType::Knight => {
            lemma_step_enterable(squares, piece.color, from, KNIGHT_DIRS@);
        },
        PieceType::King => {
            lemma_step_enterable(squares, piece.color, from, KING_DIRS@);
        },
        PieceType::Bishop => {
            lemma_slide_enterable(squares, piece.color, from, BISHOP_DIRS@);
        },
        PieceType::Rook => {
            lemma_slide_enterable(squares, piece.color, from, ROOK_DIRS@);
        },
        PieceType::Queen => {
            lemma_slide_enterable(squares, piece.color, from, QUEEN_DIRS@);
        },
    }
}

/// Whether `dir` is one step in one of the eight directions.
pub open spec fn is_unit_direction(dir: (i32, i32)) -> bool {
    &&& -1 <= dir.0 <= 1
    &&& -1 <= dir.1 <= 1
    &&& (dir.0 != 0 || dir.1 != 0)
}

/// Whether each of `dirs` is one step in one of the eight directions.
pub open spec fn all_unit_directions(dirs: Seq<(i32, i32)>) -> bool {
    forall|i: int| 0 <= i < dirs.len() ==> is_unit_direction(#[trigger] dirs[i])
}

/// `m` steps of `c`, for a component `c` of a unit direction.
spec fn scaled(m: int, c: int) -> int {
    if c == 1 {
        m
    } else if c == -1 {
        -m
    } else {
        0
    }
}

/// How many steps along the unit direction `dir` lead from `(x, y)` to the
/// line through `(tx, ty)` across `dir`.
spec fn steps_to(x: int, y: int, dir: (i32, i32), tx: int, ty: int) -> int {
    if dir.0 == 1 {
        tx - x
    } else if dir.0 == -1 {
        x - tx
    } else if dir.1 == 1 {
        ty - y
    } else {
        y - ty
    }
}

proof fn lemma_scaled_is_product(m: int, c: int)
    requires
        -1 <= c <= 1,
    ensures
        scaled(m, c) == m * c,
{
    if c == 1 {
        assert(m * c == m) by (nonlinear_arith)
            requires
                c == 1,
        ;
    } else if c == -1 {
        assert(m * c == -m) by (nonlinear_arith)
            requires
                c == -1,
        ;
    } else {
        assert(m * c == 0) by (nonlinear_arith)
            requires
                c == 0,
        ;
    }
}

/// Every square of a ray lies on the board, a whole number of steps along
/// the ray's direction from its start.
proof fn lemma_ray_on_line(
    squares: Squares,
    color: PieceColor,
    x: int,
    y: int,
    dir: (i32, i32),
    target: (u32, u32),
)
    requires
        is_unit_direction(dir),
        ray(squares, color, x, y, dir).contains(target),
    ensures
        on_board(target.0 as int, target.1 as int),
        steps_to(x, y, dir, target.0 as int, target.1 as int) >= 0,
        target.0 == x + scaled(steps_to(x, y, dir, target.0 as int, target.1 as int), dir.0 as int),
        target.1 == y + scaled(steps_to(x, y, dir, target.0 as int, target.1 as int), dir.1 as int),
    decreases ray_reach(x, y, dir),
{
    let here = (x as u32, y as u32);
    let rest = ray(squares, color, x + dir.0, y + dir.1, dir);
    if !on_board(x, y) {
    } else if !present(squares, x, y) {
        lemma_ray_on_line(squares, color, x + dir.0, y + dir.1, dir, target);
    } else {
        match squares[square_index(x, y)] {
            Some(p) => {},
            None => {
                if target != here {
                    let i = choose|i: int|
                        0 <= i < (seq![here] + rest).len() && (seq![here] + rest)[i] == target;
                    assert(rest[i - 1] == target);
                    lemma_ray_on_line(squares, color, x + dir.0, y + dir.1, dir, target);
                }
            },
        }
    }
}

/// A ray does not reach past a piece that stands on its line.
proof fn lemma_ray_stops(
    squares: Squares,
    color: PieceColor,
    x: int,
    y: int,
    dir: (i32, i32),
    k: int,
    j: int,
    target: (u32, u32),
)
    requires
        is_unit_direction(dir),
        0 <= k < j,
        occupant(squares, x + scaled(k, dir.0 as int), y + scaled(k, dir.1 as int)).is_some(),
        target.0 == x + scaled(j, dir.0 as int),
        target.1 == y + scaled(j, dir.1 as int),
    ensures
        !ray(squares, color, x, y, dir).contains(target),
    decreases k,
{
    let here = (x as u32, y as u32);
    let whole = ray(squares, color, x, y, dir);
    let rest = ray(squares, color, x + dir.0, y + dir.1, dir);
    if whole.contains(target) {
        let i = choose|i: int| 0 <= i < whole.len() && whole[i] == target;
        if k == 0 {
            assert(whole[i] == here);
        } else {
            lemma_ray_stops(squares, color, x + dir.0, y + dir.1, dir, k - 1, j - 1, target);
            if !present(squares, x, y) {
            } else {
                match squares[square_index(x, y)] {
                    Some(p) => {
                        assert(whole[i] == here);
                    },
                    None => {
                        assert(whole =~= seq![here] + rest);
                        if i > 0 {
                            assert(rest[i - 1] == target);
                        }
                    },
                }
            }
        }
    }
}

/// No walk along unit directions reaches past a piece that stands on a line
/// from the origin: not the walk along that line, and not a walk along
/// another, which never meets it again.
proof fn lemma_slide_stops(
    squares: Squares,
    color: PieceColor,
    from: (u32, u32),
    dirs: Seq<(i32, i32)>,
    dir: (i32, i32),
    k: int,
    j: int,
    target: (u32, u32),
)
    requires
        all_unit_directions(dirs),
        is_unit_direction(dir),
        1 <= k < j,
        occupant(squares, from.0 + scaled(k, dir.0 as int), from.1 + scaled(k, dir.1 as int)).is_some(),
        target.0 == from.0 + scaled(j, dir.0 as int),
        target.1 == from.1 + scaled(j, dir.1 as int),
    ensures
        !slide_moves(squares, color, from, dirs).contains(target),
    decreases dirs.len(),
{
    if dirs.len() > 0 {
        let earlier = slide_moves(squares, color, from, dirs.drop_last());
        let last = dirs.last();
        let line = ray(squares, color, from.0 + last.0, from.1 + last.1, last);
        assert(is_unit_direction(last));
        assert(all_unit_directions(dirs.drop_last())) by {
            assert forall|i: int| 0 <= i < dirs.drop_last().len() implies is_unit_direction(
                #[trigger] dirs.drop_last()[i],
            ) by {
                assert(dirs.drop_last()[i] == dirs[i]);
            }
        }
        lemma_slide_stops(squares, color, from, dirs.drop_last(), dir, k, j, target);
        if line.contains(target) {
            lemma_ray_on_line(squares, color, from.0 + last.0, from.1 + last.1, last, target);
            assert(last == dir);
            lemma_ray_stops(
                squares,
                color,
                from.0 + dir.0,
                from.1 + dir.1,
                dir,
                k - 1,
                j - 1,
                target,
            );
        }
        let whole = earlier + line;
        if whole.contains(target) {
            let i = choose|i: int| 0 <= i < whole.len() && whole[i] == target;
            if i < earlier.len() {
                assert(earlier[i] == target);
            } else {
                assert(line[i - earlier.len()] == target);
            }
        }
    }
}

/// Whether `target` lies on the line that leaves `from` along the unit
/// direction `dir`, one step from `from` or further.
spec fn on_line_from(from: (u32, u32), dir: (i32, i32), target: (u32, u32)) -> bool {
    let m = steps_to(from.0 + dir.0, from.1 + dir.1, dir, target.0 as int, target.1 as int);
    &&& m >= 0
    &&& target.0 == from.0 + dir.0 + scaled(m, dir.0 as int)
    &&& target.1 == from.1 + dir.1 + scaled(m, dir.1 as int)
}

/// Whether `target` is one step along `dir` from `from`.
spec fn one_step_from(from: (u32, u32), dir: (i32, i32), target: (u32, u32)) -> bool {
    target.0 == from.0 + dir.0 && target.1 == from.1 + dir.1
}

/// Every square reached by single steps is one step away along one of the
/// directions.
proof fn lemma_step_member(
    squares: Squares,
    color: PieceColor,
    from: (u32, u32),
    dirs: Seq<(i32, i32)>,
    target: (u32, u32),
)
    requires
        step_moves(squares, color, from, dirs).contains(target),
    ensures
        exists|i: int| 0 <= i < dirs.len() && one_step_from(from, #[trigger] dirs[i], target),
    decreases dirs.len(),
{
    if dirs.len() > 0 {
        let earlier = step_moves(squares, color, from, dirs.drop_last());
        let last = step_target(squares, color, from, dirs.last());
        let whole = earlier + last;
        let i = choose|i: int| 0 <= i < whole.len() && whole[i] == target;
        if i < earlier.len() {
            assert(earlier[i] == target);
            lemma_step_member(squares, color, from, dirs.drop_last(), target);
            let k = choose|k: int|
                0 <= k < dirs.drop_last().len() && one_step_from(
                    from,
                    #[trigger] dirs.drop_last()[k],
                    target,
                );
            assert(one_step_from(from, dirs[k], target));
        } else {
            assert(last[i - earlier.len()] == target);
            assert(one_step_from(from, dirs[dirs.len() - 1], target));
        }
    }
}

/// Single steps along different directions reach different squares.
proof fn lemma_step_moves_distinct(
    squares: Squares,
    color: PieceColor,
    from: (u32, u32),
    dirs: Seq<(i32, i32)>,
)
    requires
        dirs.no_duplicates(),
    ensures
        step_moves(squares, color, from, dirs).no_duplicates(),
    decreases dirs.len(),
{
    if dirs.len() > 0 {
        let earlier = step_moves(squares, color, from, dirs.drop_last());
        let last = step_target(squares, color, from, dirs.last());
        lemma_step_moves_distinct(squares, color, from, dirs.drop_last());
        assert forall|i: int, j: int| 0 <= i < earlier.len() && 0 <= j < last.len() implies earlier[i]
            != last[j] by {
            if earlier[i] == last[j] {
                lemma_step_member(squares, color, from, dirs.drop_last(), earlier[i]);
                let k = choose|k: int|
                    0 <= k < dirs.drop_last().len() && one_step_from(
                        from,
                        #[trigger] dirs.drop_last()[k],
                        earlier[i],
                    );
                assert(dirs[k] == dirs[dirs.len() - 1]);
            }
        }
        vstd::seq_lib::lemma_no_dup_in_concat(earlier, last);
    }
}

/// A ray enters no square twice.
proof fn lemma_ray_distinct(squares: Squares, color: PieceColor, x: int, y: int, dir: (i32, i32))
    requires
        is_unit_direction(dir),
    ensures
        ray(squares, color, x, y, dir).no_duplicates(),
    decreases ray_reach(x, y, dir),
{
    let here = (x as u32, y as u32);
    let rest = ray(squares, color, x + dir.0, y + dir.1, dir);
    if !on_board(x, y) {
    } else {
        lemma_ray_distinct(squares, color, x + dir.0, y + dir.1, dir);
        if present(squares, x, y) && squares[square_index(x, y)].is_none() {
            assert forall|i: int, j: int| 0 <= i < seq![here].len() && 0 <= j < rest.len() implies seq![
                here,
            ][i] != rest[j] by {
                lemma_ray_on_line(squares, color, x + dir.0, y + dir.1, dir, rest[j]);
            }
            vstd::seq_lib::lemma_no_dup_in_concat(seq![here], rest);
        }
    }
}

/// Every square that walks along unit directions enter lies on the line of
/// one of the directions.
proof fn lemma_slide_member(
    squares: Squares,
    color: PieceColor,
    from: (u32, u32),
    dirs: Seq<(i32, i32)>,
    target: (u32, u32),
)
    requires
        all_unit_directions(dirs),
        slide_moves(squares, color, from, dirs).contains(target),
    ensures
        exists|i: int| 0 <= i < dirs.len() && on_line_from(from, #[trigger] dirs[i], target),
    decreases dirs.len(),
{
    if dirs.len() > 0 {
        let earlier = slide_moves(squares, color, from, dirs.drop_last());
        let last = dirs.last();
        let line = ray(squares, color, from.0 + last.0, from.1 + last.1, last);
        let whole = earlier + line;
        let i = choose|i: int| 0 <= i < whole.len() && whole[i] == target;
        assert(is_unit_direction(dirs[dirs.len() - 1]));
        if i < earlier.len() {
            assert(earlier[i] == target);
            assert forall|k: int| 0 <= k < dirs.drop_last().len() implies is_unit_direction(
                #[trigger] dirs.drop_last()[k],
            ) by {
                assert(dirs.drop_last()[k] == dirs[k]);
            }
            lemma_slide_member(squares, color, from, dirs.drop_last(), target);
            let k = choose|k: int|
                0 <= k < dirs.drop_last().len() && on_line_from(
                    from,
                    #[trigger] dirs.drop_last()[k],
                    target,
                );
            assert(on_line_from(from, dirs[k], target));
        } else {
            assert(line[i - earlier.len()] == target);
            lemma_ray_on_line(squares, color, from.0 + last.0, from.1 + last.1, last, target);
            assert(on_line_from(from, dirs[dirs.len() - 1], target));
        }
    }
}

/// Walks along different unit directions enter different squares.
proof fn lemma_slide_moves_distinct(
    squares: Squares,
    color: PieceColor,
    from: (u32, u32),
    dirs: Seq<(i32, i32)>,
)
    requires
        all_unit_directions(dirs),
        dirs.no_duplicates(),
    ensures
        slide_moves(squares, color, from, dirs).no_duplicates(),
    decreases dirs.len(),
{
    if dirs.len() > 0 {
        let earlier = slide_moves(squares, color, from, dirs.drop_last());
        let last = dirs.last();
        let line = ray(squares, color, from.0 + last.0, from.1 + last.1, last);
        assert(is_unit_direction(dirs[dirs.len() - 1]));
        assert forall|k: int| 0 <= k < dirs.drop_last().len() implies is_unit_direction(
            #[trigger] dirs.drop_last()[k],
        ) by {
            assert(dirs.drop_last()[k] == dirs[k]);
        }
        lemma_slide_moves_distinct(squares, color, from, dirs.drop_last());
        lemma_ray_distinct(squares, color, from.0 + last.0, from.1 + last.1, last);
        assert forall|i: int, j: int| 0 <= i < earlier.len() && 0 <= j < line.len() implies earlier[i]
            != line[j] by {
            if earlier[i] == line[j] {
                lemma_slide_member(squares, color, from, dirs.drop_last(), earlier[i]);
                let k = choose|k: int|
                    0 <= k < dirs.drop_last().len() && on_line_from(
                        from,
                        #[trigger] dirs.drop_last()[k],
                        earlier[i],
                    );
                lemma_ray_on_line(squares, color, from.0 + last.0, from.1 + last.1, last, line[j]);
                assert(is_unit_direction(dirs[k]));
                assert(dirs[k] == dirs[dirs.len() - 1]);
            }
        }
        vstd::seq_lib::lemma_no_dup_in_concat(earlier, line);
    }
}

/// No destination is listed twice: the squares that a piece may move to are
/// all different, on any board and from any square.
pub proof fn lemma_destinations_distinct(piece: Piece, from: (u32, u32), squares: Squares)
    ensures
        legal_destinations(piece, from, squares).no_duplicates(),
{
    match piece.piece_type {
        PieceType::Pawn => {
            let x = from.0 as int;
            let y = from.1 as int;
            let ahead = y + pawn_forward(piece.color);
            let advances = pawn_advances(squares, piece.color, x, y);
            let lower = pawn_capture(squares, piece.color, x - 1, ahead);
            let higher = pawn_capture(squares, piece.color, x + 1, ahead);
            if 0 <= ahead < 8 {
                vstd::seq_lib::lemma_no_dup_in_concat(advances, lower);
                vstd::seq_lib::lemma_no_dup_in_concat(advances + lower, higher);
            }
        },
        PieceType::Knight => {
            assert(KNIGHT_DIRS@.no_duplicates());
            lemma_step_moves_distinct(squares, piece.color, from, KNIGHT_DIRS@);
        },
        PieceType::King => {
            assert(KING_DIRS@.no_duplicates());
            lemma_step_moves_distinct(squares, piece.color, from, KING_DIRS@);
        },
        PieceType::Bishop => {
            assert(BISHOP_DIRS@.no_duplicates());
            assert(all_unit_directions(BISHOP_DIRS@));
            lemma_slide_moves_distinct(squares, piece.color, from, BISHOP_DIRS@);
        },
        PieceType::Rook => {
            assert(ROOK_DIRS@.no_duplicates());
            assert(all_unit_directions(ROOK_DIRS@));
            lemma_slide_moves_distinct(squares, piece.color, from, ROOK_DIRS@);
        },
        PieceType::Queen => {
            assert(QUEEN_DIRS@.no_duplicates());
            assert(all_unit_directions(QUEEN_DIRS@));
            lemma_slide_moves_distinct(squares, piece.color, from, QUEEN_DIRS@);
        },
    }
}

/// A sliding piece stops at the first piece in its way. Let a rook, bishop
/// or queen stand on `from`, and let a piece of either colour stand `k`
/// steps away along `dir`, one of the eight directions. Then no square of
/// the board that lies further along `dir` is among the piece's
/// destinations, whatever it holds.
pub proof fn lemma_sliding_stops_at_block(
    piece: Piece,
    from: (u32, u32),
    squares: Squares,
    dir: (i32, i32),
    k: int,
    j: int,
)
    requires
        piece.piece_type == PieceType::Rook || piece.piece_type == PieceType::Bishop
            || piece.piece_type == PieceType::Queen,
        is_unit_direction(dir),
        1 <= k < j,
        occupant(squares, from.0 + k * dir.0, from.1 + k * dir.1).is_some(),
        on_board(from.0 + j * dir.0, from.1 + j * dir.1),
    ensures
        !legal_destinations(piece, from, squares).contains(
            ((from.0 + j * dir.0) as u32, (from.1 + j * dir.1) as u32),
        ),
{
    lemma_scaled_is_product(k, dir.0 as int);
    lemma_scaled_is_product(k, dir.1 as int);
    lemma_scaled_is_product(j, dir.0 as int);
    lemma_scaled_is_product(j, dir.1 as int);
    let target = ((from.0 + j * dir.0) as u32, (from.1 + j * dir.1) as u32);
    let dirs = match piece.piece_type {
        PieceType::Rook => ROOK_DIRS@,
        PieceType::Bishop => BISHOP_DIRS@,
        _ => QUEEN_DIRS@,
    };
    assert(all_unit_directions(dirs));
    lemma_slide_stops(squares, piece.color, from, dirs, dir, k, j, target);
}

/// A pawn alone on the board. Where every square but the pawn's own is
/// empty, a pawn on its starting rank may advance one square or two, and a
/// pawn elsewhere one square only, unless it stands on the last rank.
pub proof fn lemma_pawn_on_open_board(squares: Squares, color: PieceColor, from: (u32, u32))
    requires
        squares.len() == 64,
        on_board(from.0 as int, from.1 as int),
        forall|x: int, y: int|
            on_board(x, y) && (x != from.0 || y != from.1) ==> (#[trigger] occupant(squares, x, y))
                .is_none(),
    ensures
        from.1 == pawn_start_rank(color) ==> pawn_moves(squares, color, from) == seq![
            (from.0, (from.1 + pawn_forward(color)) as u32),
            (from.0, (from.1 + 2 * pawn_forward(color)) as u32),
        ],
        from.1 != pawn_start_rank(color) && on_board(from.0 as int, from.1 + pawn_forward(color))
            ==> pawn_moves(squares, color, from) == seq![
            (from.0, (from.1 + pawn_forward(color)) as u32),
        ],
        !on_board(from.0 as int, from.1 + pawn_forward(color)) ==> pawn_moves(squares, color, from)
            == Seq::<(u32, u32)>::empty(),
{
    let x = from.0 as int;
    let y = from.1 as int;
    let ahead = y + pawn_forward(color);
    let far = y + 2 * pawn_forward(color);
    if on_board(x, ahead) {
        assert(occupant(squares, x, ahead).is_none());
        assert(occupant(squares, x - 1, ahead).is_none());
        assert(occupant(squares, x + 1, ahead).is_none());
        if y == pawn_start_rank(color) {
            assert(occupant(squares, x, far).is_none());
            assert(pawn_moves(squares, color, from) =~= seq![
                (from.0, ahead as u32),
                (from.0, far as u32),
            ]);
        } else {
            assert(pawn_moves(squares, color, from) =~= seq![(from.0, ahead as u32)]);
        }
    }
}

/// A pawn captures exactly where an enemy stands. A square diagonally ahead
/// of a pawn is among its destinations if and only if it holds a piece of
/// the other colour, whatever stands straight ahead of the pawn.
pub proof fn lemma_pawn_capture_needs_enemy(
    squares: Squares,
    color: PieceColor,
    from: (u32, u32),
    target: (u32, u32),
)
    requires
        target.0 == from.0 + 1 || target.0 == from.0 - 1,
        target.1 == from.1 + pawn_forward(color),
    ensures
        pawn_moves(squares, color, from).contains(target) <==> hostile(
            squares,
            color,
            target.0 as int,
            target.1 as int,
        ),
{
    let x = from.0 as int;
    let y = from.1 as int;
    let ahead = y + pawn_forward(color);
    let moves = pawn_moves(squares, color, from);
    let advances = pawn_advances(squares, color, x, y);
    let lower = pawn_capture(squares, color, x - 1, ahead);
    let higher = pawn_capture(squares, color, x + 1, ahead);
    if hostile(squares, color, target.0 as int, target.1 as int) {
        assert(moves =~= advances + lower + higher);
        if target.0 == x - 1 {
            assert(moves[advances.len() as int] == target);
        } else {
            assert(moves[(advances.len() + lower.len()) as int] == target);
        }
    }
    if moves.contains(target) {
        let i = choose|i: int| 0 <= i < moves.len() && moves[i] == target;
        assert(moves =~= advances + lower + higher);
        if i < advances.len() {
            assert(advances[i].0 == from.0);
        } else if i < advances.len() + lower.len() {
            assert(lower[i - advances.len()] == target);
        } else {
            assert(higher[i - advances.len() - lower.len()] == target);
        }
    }
}

} // verus!
