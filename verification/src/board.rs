//! The 8x8 board: sixty-four nodes in rank-major order, each with its
//! coordinates, its neighbours and the piece that stands on it, if any.

use vstd::prelude::*;
use crate::pieces::{Piece, PieceColor, PieceType};

verus! {

/// The contents of a board as mathematics: one entry per node, in storage
/// order, holding the piece on that node.
pub type Squares = Seq<Option<Piece>>;

/// A neighbouring square and the displacement that leads to it.
///
/// A displacement component is stored modulo 2^32: a step of -1 is kept as
/// `u32::MAX`.
pub struct Edge {
    pub node: (u32, u32),
    pub dis_vector: (u32, u32),
}

/// One square of the board.
pub struct Node {
    pub edges: Vec<Edge>,
    pub vector: (u32, u32),
    pub piece: Option<Piece>,
}

/// The board. Square `(file, rank)` is stored at index `rank * 8 + file`.
pub struct Board {
    pub nodes: Vec<Node>,
}

/// Whether `(x, y)` names one of the sixty-four squares.
pub open spec fn on_board(x: int, y: int) -> bool {
    0 <= x < 8 && 0 <= y < 8
}

/// The storage index of square `(x, y)`.
pub open spec fn square_index(x: int, y: int) -> int {
    y * 8 + x
}

/// Whether `squares` has an entry for square `(x, y)`. On a well-formed board
/// this is the same as `on_board(x, y)`.
pub open spec fn present(squares: Squares, x: int, y: int) -> bool {
    on_board(x, y) && square_index(x, y) < squares.len()
}

/// The piece on square `(x, y)`: `None` where the square is empty, off the
/// board, or has no entry.
pub open spec fn occupant(squares: Squares, x: int, y: int) -> Option<Piece> {
    if present(squares, x, y) {
        squares[square_index(x, y)]
    } else {
        None
    }
}

/// `squares` after `piece` is put on `(x, y)`; unchanged where the square has
/// no entry.
pub open spec fn placed(squares: Squares, x: int, y: int, piece: Piece) -> Squares {
    if present(squares, x, y) {
        squares.update(square_index(x, y), Some(piece))
    } else {
        squares
    }
}

/// `squares` after `(x, y)` is emptied; unchanged where the square has no
/// entry.
pub open spec fn cleared(squares: Squares, x: int, y: int) -> Squares {
    if present(squares, x, y) {
        squares.update(square_index(x, y), None)
    } else {
        squares
    }
}

/// `squares` after the piece on `(fx, fy)` is carried to `(tx, ty)`: the
/// piece is put on the target, then the origin is emptied. Unchanged where
/// the origin holds no piece.
pub open spec fn relocated(squares: Squares, fx: int, fy: int, tx: int, ty: int) -> Squares {
    match occupant(squares, fx, fy) {
        Some(piece) => cleared(placed(squares, tx, ty, piece), fx, fy),
        None => squares,
    }
}

/// The eight displacements to the neighbours of a square, in the order in
/// which a node lists its neighbours.
pub open spec fn neighbour_steps() -> Seq<(int, int)> {
    seq![(-1, -1), (-1, 0), (-1, 1), (0, -1), (0, 1), (1, -1), (1, 0), (1, 1)]
}

/// A displacement component as an `Edge` stores it: modulo 2^32.
pub open spec fn stored_step(d: int) -> u32 {
    if d < 0 {
        (d + 0x1_0000_0000) as u32
    } else {
        d as u32
    }
}

/// The edge from `(x, y)` along `step`, if it stays on the board.
pub open spec fn edge_along(x: int, y: int, step: (int, int)) -> Seq<Edge> {
    if on_board(x + step.0, y + step.1) {
        seq![
            Edge {
                node: ((x + step.0) as u32, (y + step.1) as u32),
                dis_vector: (stored_step(step.0), stored_step(step.1)),
            },
        ]
    } else {
        Seq::empty()
    }
}

/// The edges from `(x, y)` along the first `n` of `neighbour_steps()`.
pub open spec fn adjacency_prefix(x: int, y: int, n: nat) -> Seq<Edge>
    decreases n,
{
    if n == 0 || n > 8 {
        Seq::empty()
    } else {
        adjacency_prefix(x, y, (n - 1) as nat) + edge_along(x, y, neighbour_steps()[n - 1])
    }
}

/// The neighbours of `(x, y)`: every square one step away, orthogonally or
/// diagonally, that lies on the board.
pub open spec fn adjacency(x: int, y: int) -> Seq<Edge> {
    adjacency_prefix(x, y, 8)
}

/// The kind of piece that starts on `file` of a back rank.
pub open spec fn back_rank_kind(file: int) -> PieceType {
    if file == 0 || file == 7 {
        PieceType::Rook
    } else if file == 1 || file == 6 {
        PieceType::Knight
    } else if file == 2 || file == 5 {
        PieceType::Bishop
    } else if file == 3 {
        PieceType::Queen
    } else {
        PieceType::King
    }
}

/// What stands on `(x, y)` at the start of a game. Black's back rank is
/// rank 0 and its pawns rank 1; White's pawns are on rank 6 and its back
/// rank is rank 7.
pub open spec fn standard_occupant(x: int, y: int) -> Option<Piece> {
    if !on_board(x, y) {
        None
    } else if y == 0 {
        Some(Piece { piece_type: back_rank_kind(x), color: PieceColor::Black })
    } else if y == 1 {
        Some(Piece { piece_type: PieceType::Pawn, color: PieceColor::Black })
    } else if y == 6 {
        Some(Piece { piece_type: PieceType::Pawn, color: PieceColor::White })
    } else if y == 7 {
        Some(Piece { piece_type: back_rank_kind(x), color: PieceColor::White })
    } else {
        None
    }
}

/// Sixty-four empty squares.
pub open spec fn empty_squares() -> Squares {
    Seq::new(64, |i: int| None)
}

/// The starting position.
pub open spec fn standard_squares() -> Squares {
    Seq::new(64, |i: int| standard_occupant(i % 8, i / 8))
}

/// The form in which an `Edge` stores the displacement component `d`.
fn stored_displacement(d: i8) -> (stored: u32)
    ensures
        stored == stored_step(d as int),
{
    if d < 0 {
        (0x1_0000_0000i64 + d as i64) as u32
    } else {
        d as u32
    }
}

/// Whether `edge` leads from `(x, y)` to a neighbour: a square of the board
/// one step away, orthogonally or diagonally, with the step as displacement.
pub open spec fn is_neighbour_edge(x: int, y: int, edge: Edge) -> bool {
    let dx = edge.node.0 - x;
    let dy = edge.node.1 - y;
    &&& on_board(edge.node.0 as int, edge.node.1 as int)
    &&& -1 <= dx <= 1
    &&& -1 <= dy <= 1
    &&& (dx != 0 || dy != 0)
    &&& edge.dis_vector == (stored_step(dx), stored_step(dy))
}

proof fn lemma_adjacency_prefix_sound(x: int, y: int, n: nat)
    ensures
        forall|i: int|
            0 <= i < adjacency_prefix(x, y, n).len() ==> is_neighbour_edge(
                x,
                y,
                #[trigger] adjacency_prefix(x, y, n)[i],
            ),
    decreases n,
{
    if 0 < n <= 8 {
        lemma_adjacency_prefix_sound(x, y, (n - 1) as nat);
        let earlier = adjacency_prefix(x, y, (n - 1) as nat);
        let step = neighbour_steps()[n - 1];
        let last = edge_along(x, y, step);
        assert(-1 <= step.0 <= 1 && -1 <= step.1 <= 1 && (step.0 != 0 || step.1 != 0));
        assert forall|i: int| 0 <= i < (earlier + last).len() implies is_neighbour_edge(
            x,
            y,
            #[trigger] (earlier + last)[i],
        ) by {
            if i < earlier.len() {
                assert((earlier + last)[i] == earlier[i]);
            } else {
                assert((earlier + last)[i] == last[0]);
            }
        }
    }
}

/// Adjacency never leaves the board: every edge listed for a square,
/// wherever that square is, leads to a square of the board next to it.
pub proof fn lemma_adjacency_on_board(x: int, y: int)
    ensures
        forall|i: int|
            0 <= i < adjacency(x, y).len() ==> is_neighbour_edge(x, y, #[trigger] adjacency(x, y)[i]),
{
    lemma_adjacency_prefix_sound(x, y, 8);
}

/// A piece put on a square is found there: placing on a square that
/// `squares` has and then asking for its occupant gives the piece placed.
pub proof fn lemma_placed_is_found(squares: Squares, x: int, y: int, piece: Piece)
    requires
        present(squares, x, y),
    ensures
        occupant(placed(squares, x, y, piece), x, y) == Some(piece),
{
}

/// A cleared square is empty: after clearing any square, asking for its
/// occupant gives nothing.
pub proof fn lemma_cleared_is_empty(squares: Squares, x: int, y: int)
    ensures
        occupant(cleared(squares, x, y), x, y).is_none(),
{
}

/// Placing and clearing touch one square only: the occupant of every other
/// square stays what it was.
pub proof fn lemma_other_squares_keep(
    squares: Squares,
    x: int,
    y: int,
    piece: Piece,
    ox: int,
    oy: int,
)
    requires
        ox != x || oy != y,
    ensures
        occupant(placed(squares, x, y, piece), ox, oy) == occupant(squares, ox, oy),
        occupant(cleared(squares, x, y), ox, oy) == occupant(squares, ox, oy),
{
}

/// Carrying a piece: where `(fx, fy)` holds `piece` and `(tx, ty)` is another
/// square that `squares` has, in particular an empty one, then afterwards the
/// origin is empty, the target holds `piece`, and every third square holds
/// what it held.
pub proof fn lemma_relocated_piece(
    squares: Squares,
    fx: int,
    fy: int,
    tx: int,
    ty: int,
    piece: Piece,
    ox: int,
    oy: int,
)
    requires
        occupant(squares, fx, fy) == Some(piece),
        present(squares, tx, ty),
        fx != tx || fy != ty,
        (ox != fx || oy != fy) && (ox != tx || oy != ty),
    ensures
        occupant(relocated(squares, fx, fy, tx, ty), fx, fy).is_none(),
        occupant(relocated(squares, fx, fy, tx, ty), tx, ty) == Some(piece),
        occupant(relocated(squares, fx, fy, tx, ty), ox, oy) == occupant(squares, ox, oy),
{
}

/// Carrying from a square that holds no piece changes nothing.
pub proof fn lemma_relocated_nothing(squares: Squares, fx: int, fy: int, tx: int, ty: int)
    requires
        occupant(squares, fx, fy).is_none(),
    ensures
        relocated(squares, fx, fy, tx, ty) == squares,
{
}

impl View for Board {
    type V = Squares;

    open spec fn view(&self) -> Squares {
        Seq::new(self.nodes@.len(), |i: int| self.nodes@[i].piece)
    }
}

impl Board {
    /// Whether the two boards have the same nodes up to the pieces on them:
    /// the same number of nodes, with the same coordinates and neighbours.
    pub open spec fn same_layout(&self, other: &Board) -> bool {
        &&& self.nodes@.len() == other.nodes@.len()
        &&& forall|i: int|
            0 <= i < self.nodes@.len() ==> {
                &&& (#[trigger] self.nodes@[i]).vector == other.nodes@[i].vector
                &&& self.nodes@[i].edges == other.nodes@[i].edges
            }
    }

    /// Well-formedness: sixty-four nodes, node `rank * 8 + file` carrying the
    /// coordinates `(file, rank)` and the neighbours of that square.
    pub open spec fn wf(&self) -> bool {
        &&& self.nodes@.len() == 64
        &&& forall|i: int|
            0 <= i < 64 ==> {
                &&& (#[trigger] self.nodes@[i]).vector == ((i % 8) as u32, (i / 8) as u32)
                &&& self.nodes@[i].edges@ == adjacency(i % 8, i / 8)
            }
    }

    /// A well-formed board has every square of the board and no other:
    /// sixty-four entries, one for each pair of coordinates below eight.
    pub proof fn lemma_wf_squares(&self, x: int, y: int)
        requires
            self.wf(),
        ensures
            self@.len() == 64,
            present(self@, x, y) == on_board(x, y),
            on_board(x, y) ==> self.nodes@[square_index(x, y)].vector == (x as u32, y as u32),
    {
    }

    /// A board with all sixty-four squares empty.
    pub fn new_empty() -> (board: Board)
        ensures
            board.wf(),
            board@ == empty_squares(),
    {
        let mut nodes: Vec<Node> = Vec::new();
        for rank in 0u32..8
            invariant
                nodes@.len() == rank * 8,
                forall|i: int|
                    0 <= i < nodes@.len() ==> {
                        &&& (#[trigger] nodes@[i]).vector == ((i % 8) as u32, (i / 8) as u32)
                        &&& nodes@[i].edges@ == adjacency(i % 8, i / 8)
                        &&& nodes@[i].piece.is_none()
                    },
        {
            for file in 0u32..8
                invariant
                    rank < 8,
                    nodes@.len() == rank * 8 + file,
                    forall|i: int|
                        0 <= i < nodes@.len() ==> {
                            &&& (#[trigger] nodes@[i]).vector == ((i % 8) as u32, (i / 8) as u32)
                            &&& nodes@[i].edges@ == adjacency(i % 8, i / 8)
                            &&& nodes@[i].piece.is_none()
                        },
            {
                nodes.push(
                    Node {
                        vector: (file, rank),
                        piece: None,
                        edges: Board::generate_adjacency_edges((file, rank)),
                    },
                );
            }
        }
        let board = Board { nodes };
        assert(board@ =~= empty_squares());
        board
    }

    /// A board set up for the start of a game: see `standard_occupant`.
    pub fn new_standard() -> (board: Board)
        ensures
            board.wf(),
            board@ == standard_squares(),
    {
        let mut board = Board::new_empty();
        let back_rank: [PieceType; 8] = [
            PieceType::Rook,
            PieceType::Knight,
            PieceType::Bishop,
            PieceType::Queen,
            PieceType::King,
            PieceType::Bishop,
            PieceType::Knight,
            PieceType::Rook,
        ];

        for file in 0u32..8
            invariant
                board.wf(),
                forall|j: int| 0 <= j < 8 ==> #[trigger] back_rank@[j] == back_rank_kind(j),
                forall|i: int|
                    0 <= i < 64 ==> #[trigger] board@[i] == (if i % 8 < file && i / 8 >= 6 {
                        standard_occupant(i % 8, i / 8)
                    } else {
                        None
                    }),
        {
            board.set_piece(
                (file, 7),
                Piece { piece_type: back_rank[file as usize], color: PieceColor::White },
            );
            board.set_piece((file, 6), Piece { piece_type: PieceType::Pawn, color: PieceColor::White });
        }

        for file in 0u32..8
            invariant
                board.wf(),
                forall|j: int| 0 <= j < 8 ==> #[trigger] back_rank@[j] == back_rank_kind(j),
                forall|i: int|
                    0 <= i < 64 ==> #[trigger] board@[i] == (if i / 8 >= 6 || (i % 8 < file && i / 8
                        < 2) {
                        standard_occupant(i % 8, i / 8)
                    } else {
                        None
                    }),
        {
            board.set_piece(
                (file, 0),
                Piece { piece_type: back_rank[file as usize], color: PieceColor::Black },
            );
            board.set_piece((file, 1), Piece { piece_type: PieceType::Pawn, color: PieceColor::Black });
        }

        assert(board@ =~= standard_squares());
        board
    }

    /// The neighbours of square `pos`, in the order of `neighbour_steps()`.
    /// None of them lies off the board.
    pub fn generate_adjacency_edges(pos: (u32, u32)) -> (edges: Vec<Edge>)
        ensures
            edges@ == adjacency(pos.0 as int, pos.1 as int),
            forall|i: int|
                0 <= i < edges@.len() ==> is_neighbour_edge(
                    pos.0 as int,
                    pos.1 as int,
                    #[trigger] edges@[i],
                ),
    {
        let mut edges: Vec<Edge> = Vec::new();
        let directions: [(i8, i8); 8] = [
            (-1, -1),
            (-1, 0),
            (-1, 1),
            (0, -1),
            (0, 1),
            (1, -1),
            (1, 0),
            (1, 1),
        ];
        let x: i64 = pos.0 as i64;
        let y: i64 = pos.1 as i64;
        for k in 0usize..8
            invariant
                x == pos.0,
                y == pos.1,
                edges@ == adjacency_prefix(x as int, y as int, k as nat),
                forall|j: int|
                    0 <= j < 8 ==> (#[trigger] directions@[j]).0 == neighbour_steps()[j].0
                        && directions@[j].1 == neighbour_steps()[j].1,
        {
            let (dx, dy) = directions[k];
            let nx: i64 = x + dx as i64;
            let ny: i64 = y + dy as i64;
            if ny >= 0 && ny < 8 && nx >= 0 && nx < 8 {
                edges.push(
                    Edge {
                        node: (nx as u32, ny as u32),
                        dis_vector: (stored_displacement(dx), stored_displacement(dy)),
                    },
                );
            }
            assert(edges@ =~= adjacency_prefix(x as int, y as int, (k + 1) as nat));
        }
        proof {
            lemma_adjacency_on_board(pos.0 as int, pos.1 as int);
        }
        edges
    }

    /// The node of square `pos`, or `None` where `pos` is off the board (or
    /// the board, not being well-formed, has no node for it).
    pub fn get_node(&self, pos: (u32, u32)) -> (node: Option<&Node>)
        ensures
            node.is_some() == present(self@, pos.0 as int, pos.1 as int),
            node matches Some(n) ==> {
                &&& *n == self.nodes@[square_index(pos.0 as int, pos.1 as int)]
                &&& n.piece == occupant(self@, pos.0 as int, pos.1 as int)
            },
    {
        let (file, rank) = pos;
        if file < 8 && rank < 8 {
            let idx: usize = (rank * 8 + file) as usize;
            if idx < self.nodes.len() {
                Some(&self.nodes[idx])
            } else {
                None
            }
        } else {
            None
        }
    }

    /// Mutable access to the node of square `pos`, or `None` where `pos` is
    /// off the board. Whatever the caller writes to the node replaces it on
    /// the board; every other node stays as it was.
    pub fn get_node_mut(&mut self, pos: (u32, u32)) -> (node: Option<&mut Node>)
        ensures
            match node {
                Some(n) => {
                    &&& present(old(self)@, pos.0 as int, pos.1 as int)
                    &&& *n == old(self).nodes@[square_index(pos.0 as int, pos.1 as int)]
                    &&& final(self).nodes@ == old(self).nodes@.update(
                        square_index(pos.0 as int, pos.1 as int),
                        *final(n),
                    )
                },
                None => {
                    &&& !present(old(self)@, pos.0 as int, pos.1 as int)
                    &&& *final(self) == *old(self)
                },
            },
    {
        let (file, rank) = pos;
        if file < 8 && rank < 8 {
            let idx: usize = (rank * 8 + file) as usize;
            if idx < self.nodes.len() {
                Some(&mut self.nodes[idx])
            } else {
                None
            }
        } else {
            None
        }
    }

    /// Puts `piece` on square `position`, replacing whatever stood there.
    /// Does nothing where `position` is off the board.
    pub fn set_piece(&mut self, position: (u32, u32), piece: Piece)
        ensures
            final(self)@ == placed(old(self)@, position.0 as int, position.1 as int, piece),
            final(self).same_layout(old(self)),
            old(self).wf() ==> final(self).wf(),
    {
        if let Some(node) = self.get_node_mut(position) {
            node.piece = Some(piece);
        }
    }

    /// Empties square `target`. Does nothing where it is empty already or
    /// off the board.
    pub fn remove_piece(&mut self, target: (u32, u32))
        ensures
            final(self)@ == cleared(old(self)@, target.0 as int, target.1 as int),
            final(self).same_layout(old(self)),
            old(self).wf() ==> final(self).wf(),
    {
        if let Some(node) = self.get_node_mut(target) {
            node.piece = None
        }
    }

    /// Relocates the piece on `from` to `to`, replacing whatever stood there,
    /// and reports `true`. Where `from` holds no piece the board is left as
    /// it was and the answer is `false`. No rule of chess is consulted.
    pub fn move_piece(&mut self, from: (u32, u32), to: (u32, u32)) -> (moved: bool)
        ensures
            moved == occupant(old(self)@, from.0 as int, from.1 as int).is_some(),
            final(self)@ == relocated(
                old(self)@,
                from.0 as int,
                from.1 as int,
                to.0 as int,
                to.1 as int,
            ),
            final(self).same_layout(old(self)),
            old(self).wf() ==> final(self).wf(),
    {
        let held = match self.get_node(from) {
            Some(node) => node.piece,
            None => None,
        };
        if let Some(piece) = held {
            self.set_piece(to, piece);
            self.remove_piece(from);
            true
        } else {
            false
        }
    }

} // impl Board

} // verus!
