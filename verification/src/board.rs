use vstd::prelude::*;

use crate::chess_move::ChessMove;
use crate::color::Color;
use crate::errors::ChessError;
use crate::piece::Piece;
use crate::piece::PieceType;
use crate::rank::rank_index;
use crate::rank::Rank;
use crate::square::file_of;
use crate::square::rank_of;
use crate::square::sq_valid;
use crate::square::Square;

verus! {

/// Castling rights of one side: whether its king, its queenside rook
/// (the one starting on file a), or its kingside rook (file h) has moved.
/// A right is lost permanently once the corresponding flag is set.
#[derive(Clone, Copy, Debug, PartialEq, Eq, Structural)]
pub struct CastlingRights {
    pub king_moved: bool,
    pub queenside_rook_moved: bool,
    pub kingside_rook_moved: bool,
}

/// The rights of a side that has moved neither king nor rooks.
pub open spec fn fresh_rights() -> CastlingRights {
    CastlingRights { king_moved: false, queenside_rook_moved: false, kingside_rook_moved: false }
}

/// The mathematical model of a [Board]: the 64-cell grid, the side to
/// move, both sides' castling rights, the stack of prior grids (oldest
/// first, not including the current grid), and the piece kind pawns
/// promote to.
pub ghost struct Position {
    pub grid: Seq<Option<Piece>>,
    pub turn: Color,
    pub rights_w: CastlingRights,
    pub rights_b: CastlingRights,
    pub history: Seq<Seq<Option<Piece>>>,
    pub promo: PieceType,
}

/// Well-formedness of a position: the grid and every recorded snapshot
/// hold exactly 64 cells.
pub open spec fn pos_wf(p: Position) -> bool {
    &&& p.grid.len() == 64
    &&& forall|h: int| 0 <= h < p.history.len() ==> #[trigger] p.history[h].len() == 64
}

/// The same position with the history stack emptied, as used for the
/// disposable copies that legality simulation works on.
pub open spec fn cleared(p: Position) -> Position {
    Position {
        grid: p.grid,
        turn: p.turn,
        rights_w: p.rights_w,
        rights_b: p.rights_b,
        history: Seq::empty(),
        promo: p.promo,
    }
}

/// The square a side's king starts the game on (e1 or e8).
pub open spec fn king_home(c: Color) -> int {
    if c is White {
        4
    } else {
        60
    }
}

/// The square one of a side's rooks starts the game on (a1/h1 or a8/h8).
pub open spec fn rook_home(c: Color, kingside: bool) -> int {
    if c is White {
        if kingside {
            7
        } else {
            0
        }
    } else {
        if kingside {
            63
        } else {
            56
        }
    }
}

/// The square a side's king lands on when castling (g-file or c-file).
pub open spec fn castle_target(c: Color, kingside: bool) -> int {
    if c is White {
        if kingside {
            6
        } else {
            2
        }
    } else {
        if kingside {
            62
        } else {
            58
        }
    }
}

/// The square the rook lands on when castling: adjacent to the king's
/// destination, on the side the king came from.
pub open spec fn rook_castle_to(c: Color, kingside: bool) -> int {
    if c is White {
        if kingside {
            5
        } else {
            3
        }
    } else {
        if kingside {
            61
        } else {
            59
        }
    }
}

/// The rank direction a side's pawns advance in: +1 for White, -1 for Black.
pub open spec fn pawn_dir(c: Color) -> int {
    if c is White {
        1
    } else {
        -1
    }
}

/// Whether applying `mv` counts as an en passant capture: the moving
/// piece is a pawn that changes file onto an empty destination.
pub open spec fn is_ep_apply(g: Seq<Option<Piece>>, mv: ChessMove) -> bool {
    &&& g[mv.start.0 as int] matches Some(p) && p.piece_type is Pawn
    &&& g[mv.dest.0 as int] is None
    &&& file_of(mv.dest.0 as int) != file_of(mv.start.0 as int)
}

/// The square of the pawn captured en passant: directly behind the
/// destination from the mover's perspective.
pub open spec fn ep_victim(g: Seq<Option<Piece>>, mv: ChessMove) -> int {
    match g[mv.start.0 as int] {
        Some(p) => (rank_of(mv.dest.0 as int) - pawn_dir(p.color)) * 8 + file_of(
            mv.dest.0 as int,
        ),
        None => -1,
    }
}

/// The piece that ends up on the destination: the moving piece, or a new
/// piece of the promotion kind in the mover's color when the move carries one.
pub open spec fn moved_piece(g: Seq<Option<Piece>>, mv: ChessMove) -> Option<Piece> {
    match g[mv.start.0 as int] {
        Some(p) => match mv.promo {
            Some(k) => Some(Piece { piece_type: k, color: p.color }),
            None => Some(p),
        },
        None => None,
    }
}

/// Whether applying `mv` triggers the castle of color `c` on the given
/// wing: a king of that color, whose side still has its king-moved flag
/// clear, makes its two-square move from its home square to the castling
/// target.
pub open spec fn castle_pending(
    g: Seq<Option<Piece>>,
    rw: CastlingRights,
    rb: CastlingRights,
    mv: ChessMove,
    c: Color,
    kingside: bool,
) -> bool {
    &&& g[mv.start.0 as int] matches Some(p) && p.piece_type is King && p.color == c
    &&& !(if c is White {
        rw
    } else {
        rb
    }).king_moved
    &&& mv.start.0 as int == king_home(c)
    &&& mv.dest.0 as int == castle_target(c, kingside)
}

/// The grid after applying `mv`: the destination receives the moved (or
/// promoted) piece, the origin is cleared, the en passant victim is
/// removed when the move is an en passant capture, and the rook is
/// relocated when the move is a castle.
pub open spec fn apply_grid(
    g: Seq<Option<Piece>>,
    rw: CastlingRights,
    rb: CastlingRights,
    mv: ChessMove,
) -> Seq<Option<Piece>> {
    let g1 = g.update(mv.dest.0 as int, moved_piece(g, mv)).update(mv.start.0 as int, None);
    let g2 = if is_ep_apply(g, mv) && sq_valid(ep_victim(g, mv)) {
        g1.update(ep_victim(g, mv), None)
    } else {
        g1
    };
    if castle_pending(g, rw, rb, mv, Color::White, true) {
        g2.update(5, g2[7]).update(7, None)
    } else if castle_pending(g, rw, rb, mv, Color::White, false) {
        g2.update(3, g2[0]).update(0, None)
    } else if castle_pending(g, rw, rb, mv, Color::Black, true) {
        g2.update(61, g2[63]).update(63, None)
    } else if castle_pending(g, rw, rb, mv, Color::Black, false) {
        g2.update(59, g2[56]).update(56, None)
    } else {
        g2
    }
}

/// The castling rights of color `c` after applying `mv`: the king-moved
/// flag is set when that side's king moves, and a rook-moved flag is set
/// when a rook departs the matching home square or when the rook is
/// relocated by a castle.
pub open spec fn apply_rights(
    g: Seq<Option<Piece>>,
    rw: CastlingRights,
    rb: CastlingRights,
    mv: ChessMove,
    c: Color,
) -> CastlingRights {
    let cur = if c is White {
        rw
    } else {
        rb
    };
    match g[mv.start.0 as int] {
        Some(p) => CastlingRights {
            king_moved: cur.king_moved || (p.piece_type is King && p.color == c),
            queenside_rook_moved: cur.queenside_rook_moved || (p.piece_type is Rook
                && mv.start.0 as int == rook_home(c, false)) || castle_pending(
                g,
                rw,
                rb,
                mv,
                c,
                false,
            ),
            kingside_rook_moved: cur.kingside_rook_moved || (p.piece_type is Rook
                && mv.start.0 as int == rook_home(c, true)) || castle_pending(
                g,
                rw,
                rb,
                mv,
                c,
                true,
            ),
        },
        None => cur,
    }
}

/// The full position after applying `mv`: the pre-move grid is pushed
/// onto the history, the grid and rights are transformed, and the side
/// to move and promotion target are unchanged.
pub open spec fn apply_model(p: Position, mv: ChessMove) -> Position {
    Position {
        grid: apply_grid(p.grid, p.rights_w, p.rights_b, mv),
        turn: p.turn,
        rights_w: apply_rights(p.grid, p.rights_w, p.rights_b, mv, Color::White),
        rights_b: apply_rights(p.grid, p.rights_w, p.rights_b, mv, Color::Black),
        history: p.history.push(p.grid),
        promo: p.promo,
    }
}

/// The piece kind on a given back-rank column in the starting position.
pub open spec fn back_rank_kind(f: int) -> PieceType {
    if f == 0 || f == 7 {
        PieceType::Rook
    } else if f == 1 || f == 6 {
        PieceType::Knight
    } else if f == 2 || f == 5 {
        PieceType::Bishop
    } else if f == 3 {
        PieceType::Queen
    } else {
        PieceType::King
    }
}

/// The content of cell `i` in the standard starting position.
pub open spec fn start_piece(i: int) -> Option<Piece> {
    let r = rank_of(i);
    if r == 0 {
        Some(Piece { piece_type: back_rank_kind(file_of(i)), color: Color::White })
    } else if r == 1 {
        Some(Piece { piece_type: PieceType::Pawn, color: Color::White })
    } else if r == 6 {
        Some(Piece { piece_type: PieceType::Pawn, color: Color::Black })
    } else if r == 7 {
        Some(Piece { piece_type: back_rank_kind(file_of(i)), color: Color::Black })
    } else {
        None
    }
}

/// The grid of the standard starting position.
pub open spec fn start_grid() -> Seq<Option<Piece>> {
    Seq::new(64, |i: int| start_piece(i))
}

/// An all-empty grid.
pub open spec fn empty_grid() -> Seq<Option<Piece>> {
    Seq::new(64, |i: int| None::<Piece>)
}

/// Whether two positions agree on everything but the grid.
pub open spec fn same_but_grid(a: Position, b: Position) -> bool {
    &&& b.turn == a.turn
    &&& b.rights_w == a.rights_w
    &&& b.rights_b == a.rights_b
    &&& b.history == a.history
    &&& b.promo == a.promo
}

/// A chess position: an 8x8 grid of optional pieces, the side to move,
/// both sides' castling rights, a stack of prior grid snapshots, and a
/// configurable pawn-promotion target. The position is mutated only
/// through [`Board::make_move`]; the placement primitives exist for
/// building positions and do not touch the history.
#[derive(Clone, Debug, PartialEq)]
pub struct Board {
    pos: Vec<Option<Piece>>,
    turn: Color,
    rights_w: CastlingRights,
    rights_b: CastlingRights,
    history: Vec<Vec<Option<Piece>>>,
    /// The piece kind a promoting pawn becomes.
    pub pawn_promo: PieceType,
}

impl View for Board {
    type V = Position;

    closed spec fn view(&self) -> Position {
        Position {
            grid: self.pos@,
            turn: self.turn,
            rights_w: self.rights_w,
            rights_b: self.rights_b,
            history: self.history@.map_values(|v: Vec<Option<Piece>>| v@),
            promo: self.pawn_promo,
        }
    }
}

/// Copies a grid cell by cell.
fn copy_grid(v: &Vec<Option<Piece>>) -> (r: Vec<Option<Piece>>)
    ensures
        r@ == v@,
{
    let mut out: Vec<Option<Piece>> = Vec::new();
    let mut i: usize = 0;
    while i < v.len()
        invariant
            i <= v.len(),
            out@ =~= v@.subrange(0, i as int),
        decreases v.len() - i,
    {
        out.push(v[i]);
        i = i + 1;
    }
    proof {
        assert(out@ =~= v@);
    }
    out
}

impl Board {
    /// Well-formedness: the grid and every history snapshot hold 64 cells.
    pub open spec fn wf(&self) -> bool {
        pos_wf(self@)
    }

    /// Returns an empty [Board] for building a position by hand.
    /// The promotion target starts as Queen.
    pub fn empty(turn: Color) -> (r: Board)
        ensures
            r.wf(),
            r@.grid == empty_grid(),
            r@.turn == turn,
            r@.rights_w == fresh_rights(),
            r@.rights_b == fresh_rights(),
            r@.history == Seq::<Seq<Option<Piece>>>::empty(),
            r@.promo == PieceType::Queen,
    {
        let mut pos: Vec<Option<Piece>> = Vec::new();
        let mut i: usize = 0;
        while i < 64
            invariant
                i <= 64,
                pos@.len() == i,
                forall|j: int| 0 <= j < i ==> pos@[j] is None,
            decreases 64 - i,
        {
            pos.push(None);
            i = i + 1;
        }
        let board = Board {
            pos,
            turn,
            rights_w: CastlingRights {
                king_moved: false,
                queenside_rook_moved: false,
                kingside_rook_moved: false,
            },
            rights_b: CastlingRights {
                king_moved: false,
                queenside_rook_moved: false,
                kingside_rook_moved: false,
            },
            history: Vec::new(),
            pawn_promo: PieceType::Queen,
        };
        proof {
            assert(board@.grid =~= empty_grid());
            assert(board@.history =~= Seq::<Seq<Option<Piece>>>::empty());
        }
        board
    }

    /// Sets up the standard starting position, with White to move and the
    /// promotion target set to Queen.
    pub fn deafult() -> (r: Board)
        ensures
            r.wf(),
            r@.grid == start_grid(),
            r@.turn == Color::White,
            r@.rights_w == fresh_rights(),
            r@.rights_b == fresh_rights(),
            r@.history == Seq::<Seq<Option<Piece>>>::empty(),
            r@.promo == PieceType::Queen,
    {
        let mut board = Board::empty(Color::White);
        let mut i: usize = 0;
        while i < 64
            invariant
                i <= 64,
                board.wf(),
                board@.grid.len() == 64,
                forall|j: int| 0 <= j < i ==> board@.grid[j] == start_piece(j),
                board@.turn == Color::White,
                board@.rights_w == fresh_rights(),
                board@.rights_b == fresh_rights(),
                board@.history == Seq::<Seq<Option<Piece>>>::empty(),
                board@.promo == PieceType::Queen,
            decreases 64 - i,
        {
            let p = start_piece_at(i);
            board.place_piece(Square(i), p);
            i = i + 1;
        }
        proof {
            assert(board@.grid =~= start_grid());
        }
        board
    }

    /// Places (or replaces) a piece on a square. The history is not touched.
    pub fn place_piece(&mut self, index: Square, piece: Option<Piece>)
        requires
            old(self).wf(),
            index.valid(),
        ensures
            final(self).wf(),
            final(self)@.grid == old(self)@.grid.update(index.0 as int, piece),
            same_but_grid(old(self)@, final(self)@),
    {
        self.pos[index.0] = piece;
        proof {
            assert(self@.history == old(self)@.history);
            assert(self@.grid.len() == 64);
            assert(self@.grid =~= old(self)@.grid.update(index.0 as int, piece));
        }
    }

    /// Removes the piece on a square, if any. The history is not touched.
    pub fn remove_piece(&mut self, index: Square)
        requires
            old(self).wf(),
            index.valid(),
        ensures
            final(self).wf(),
            final(self)@.grid == old(self)@.grid.update(index.0 as int, None::<Piece>),
            same_but_grid(old(self)@, final(self)@),
    {
        self.pos[index.0] = None;
        proof {
            assert(self@.history == old(self)@.history);
            assert(self@.grid =~= old(self)@.grid.update(index.0 as int, None::<Piece>));
        }
    }

    /// Reads the cell at a square.
    pub fn get(&self, index: Square) -> (r: &Option<Piece>)
        requires
            self.wf(),
            index.valid(),
        ensures
            *r == self@.grid[index.0 as int],
    {
        &self.pos[index.0]
    }

    /// Reads the cell at a square as it was one move ago, from the most
    /// recent history snapshot.
    pub fn get_from_previous(&self, index: Square) -> (r: &Option<Piece>)
        requires
            self.wf(),
            index.valid(),
            self@.history.len() > 0,
        ensures
            *r == self@.history.last()[index.0 as int],
    {
        let h = &self.history[self.history.len() - 1];
        &h[index.0]
    }

    /// Returns the first square whose cell equals `piece`, scanning the
    /// grid in index order, or `None` when no cell matches.
    pub fn get_square(&self, piece: &Option<Piece>) -> (r: Option<Square>)
        requires
            self.wf(),
        ensures
            r matches Some(sq) ==> sq.valid() && self@.grid[sq.0 as int] == *piece && (forall|
                j: int,
            |
                0 <= j < sq.0 as int ==> self@.grid[j] != *piece),
            r is None ==> forall|j: int| 0 <= j < 64 ==> self@.grid[j] != *piece,
    {
        let mut i: usize = 0;
        while i < 64
            invariant
                self.wf(),
                i <= 64,
                forall|j: int| 0 <= j < i ==> self@.grid[j] != *piece,
            decreases 64 - i,
        {
            if self.pos[i] == *piece {
                return Some(Square(i));
            }
            i = i + 1;
        }
        None
    }

    /// Returns a reference to the history stack: every prior grid, oldest
    /// first, without the current grid.
    pub fn get_history(&self) -> (r: &Vec<Vec<Option<Piece>>>)
        ensures
            r@.map_values(|v: Vec<Option<Piece>>| v@) == self@.history,
            r@.len() == self@.history.len(),
    {
        &self.history
    }

    /// Returns the side to move.
    pub fn get_turn(&self) -> (r: Color)
        ensures
            r == self@.turn,
    {
        self.turn
    }

    /// Returns the promotion target, the kind a promoting pawn becomes.
    pub fn promo_kind(&self) -> (r: PieceType)
        ensures
            r == self@.promo,
    {
        self.pawn_promo
    }

    /// Returns the castling rights of one side.
    pub fn castling_rights(&self, color: Color) -> (r: CastlingRights)
        ensures
            r == (if color is White {
                self@.rights_w
            } else {
                self@.rights_b
            }),
    {
        if color == Color::White {
            self.rights_w
        } else {
            self.rights_b
        }
    }

    /// Reads the eight cells of one rank, in file order from a to h.
    pub fn get_rank_cells(&self, rank: Rank) -> (r: Vec<Option<Piece>>)
        requires
            self.wf(),
        ensures
            r@.len() == 8,
            forall|f: int| 0 <= f < 8 ==> r@[f] == self@.grid[rank_index(rank) * 8 + f],
    {
        let base = rank.to_usize() * 8;
        let mut out: Vec<Option<Piece>> = Vec::new();
        let mut f: usize = 0;
        while f < 8
            invariant
                self.wf(),
                f <= 8,
                base == rank_index(rank) * 8,
                out@.len() == f,
                forall|j: int| 0 <= j < f ==> out@[j] == self@.grid[rank_index(rank) * 8 + j],
            decreases 8 - f,
        {
            out.push(self.pos[base + f]);
            f = f + 1;
        }
        out
    }

    /// Returns the 64 cells of the grid in index order.
    pub fn iter(&self) -> (r: Vec<Option<Piece>>)
        requires
            self.wf(),
        ensures
            r@ == self@.grid,
    {
        copy_grid(&self.pos)
    }

    /// Empties the history stack, so that repeated legality probing on a
    /// disposable copy does not grow memory without bound.
    pub fn clear_history(&mut self)
        requires
            old(self).wf(),
        ensures
            final(self).wf(),
            final(self)@ == cleared(old(self)@),
    {
        self.history = Vec::new();
        proof {
            assert(self@.history =~= Seq::<Seq<Option<Piece>>>::empty());
            assert(self@ == cleared(old(self)@));
        }
    }

    /// Returns a copy of this position with the history emptied, for use
    /// as a disposable simulation board.
    pub(crate) fn scratch(&self) -> (r: Board)
        requires
            self.wf(),
        ensures
            r.wf(),
            r@ == cleared(self@),
    {
        let r = Board {
            pos: copy_grid(&self.pos),
            turn: self.turn,
            rights_w: self.rights_w,
            rights_b: self.rights_b,
            history: Vec::new(),
            pawn_promo: self.pawn_promo,
        };
        proof {
            assert(r@.history =~= Seq::<Seq<Option<Piece>>>::empty());
            assert(r@ == cleared(self@));
        }
        r
    }

    /// Applies a move: pushes the pre-move grid onto the history, then
    /// performs the relocation, capture, en passant removal, promotion
    /// substitution, castle rook relocation, and rights updates as one
    /// atomic change, exactly as described by [`apply_model`].
    ///
    /// Fails without changing anything when a square of the move is off
    /// the board or the origin square is empty.
    #[verifier::rlimit(100)]
    pub fn make_move(&mut self, mv: ChessMove) -> (r: Result<(), ChessError>)
        requires
            old(self).wf(),
        ensures
            final(self).wf(),
            r is Ok <==> (mv.start.valid() && mv.dest.valid() && old(self)@.grid[mv.start.0 as int]
                is Some),
            (r == Err::<(), ChessError>(ChessError::OutOfBounds)) <==> !(mv.start.valid()
                && mv.dest.valid()),
            (r == Err::<(), ChessError>(ChessError::NoPieceAtSquare)) <==> (mv.start.valid()
                && mv.dest.valid() && old(self)@.grid[mv.start.0 as int] is None),
            r is Ok ==> final(self)@ == apply_model(old(self)@, mv),
            r is Err ==> *final(self) == *old(self),
    {
        if mv.start.0 >= 64 || mv.dest.0 >= 64 {
            return Err(ChessError::OutOfBounds);
        }
        let piece = match self.pos[mv.start.0] {
            Some(p) => p,
            None => {
                return Err(ChessError::NoPieceAtSquare);
            },
        };
        let ghost pre = self@;

        let snap = copy_grid(&self.pos);
        self.history.push(snap);
        proof {
            assert(self@.history =~= pre.history.push(pre.grid));
        }

        // Classification against the pre-move grid, before any mutation.
        let dest_cell = self.pos[mv.dest.0];
        let en_passant = piece.piece_type == PieceType::Pawn && dest_cell.is_none() && mv.dest.0 % 8
            != mv.start.0 % 8;

        let placed = match mv.promo {
            Some(k) => Piece { piece_type: k, color: piece.color },
            None => piece,
        };

        let mut castle_w_short = false;
        let mut castle_w_long = false;
        let mut castle_b_short = false;
        let mut castle_b_long = false;
        if piece.piece_type == PieceType::King {
            if piece.color == Color::White && !self.rights_w.king_moved && mv.start.0 == 4 {
                if mv.dest.0 == 6 {
                    castle_w_short = true;
                }
                if mv.dest.0 == 2 {
                    castle_w_long = true;
                }
            }
            if piece.color == Color::Black && !self.rights_b.king_moved && mv.start.0 == 60 {
                if mv.dest.0 == 62 {
                    castle_b_short = true;
                }
                if mv.dest.0 == 58 {
                    castle_b_long = true;
                }
            }
        }
        proof {
            assert(castle_w_short == castle_pending(
                pre.grid,
                pre.rights_w,
                pre.rights_b,
                mv,
                Color::White,
                true,
            ));
            assert(castle_w_long == castle_pending(
                pre.grid,
                pre.rights_w,
                pre.rights_b,
                mv,
                Color::White,
                false,
            ));
            assert(castle_b_short == castle_pending(
                pre.grid,
                pre.rights_w,
                pre.rights_b,
                mv,
                Color::Black,
                true,
            ));
            assert(castle_b_long == castle_pending(
                pre.grid,
                pre.rights_w,
                pre.rights_b,
                mv,
                Color::Black,
                false,
            ));
        }

        // Rights updates.
        if piece.piece_type == PieceType::King {
            if piece.color == Color::White {
                self.rights_w.king_moved = true;
            } else {
                self.rights_b.king_moved = true;
            }
        }
        if piece.piece_type == PieceType::Rook {
            if mv.start.0 == 0 {
                self.rights_w.queenside_rook_moved = true;
            }
            if mv.start.0 == 7 {
                self.rights_w.kingside_rook_moved = true;
            }
            if mv.start.0 == 56 {
                self.rights_b.queenside_rook_moved = true;
            }
            if mv.start.0 == 63 {
                self.rights_b.kingside_rook_moved = true;
            }
        }
        if castle_w_short {
            self.rights_w.kingside_rook_moved = true;
        }
        if castle_w_long {
            self.rights_w.queenside_rook_moved = true;
        }
        if castle_b_short {
            self.rights_b.kingside_rook_moved = true;
        }
        if castle_b_long {
            self.rights_b.queenside_rook_moved = true;
        }
        proof {
            assert(self.rights_w == apply_rights(
                pre.grid,
                pre.rights_w,
                pre.rights_b,
                mv,
                Color::White,
            ));
            assert(self.rights_b == apply_rights(
                pre.grid,
                pre.rights_w,
                pre.rights_b,
                mv,
                Color::Black,
            ));
        }

        // Relocation.
        let ghost g1 = pre.grid.update(mv.dest.0 as int, moved_piece(pre.grid, mv)).update(
            mv.start.0 as int,
            None::<Piece>,
        );
        self.pos[mv.dest.0] = Some(placed);
        self.pos[mv.start.0] = None;
        proof {
            assert(Some(placed) == moved_piece(pre.grid, mv));
            assert(self.pos@ == g1);
        }

        // En passant: clear the square directly behind the destination.
        let ghost g2 = if is_ep_apply(pre.grid, mv) && sq_valid(ep_victim(pre.grid, mv)) {
            g1.update(ep_victim(pre.grid, mv), None::<Piece>)
        } else {
            g1
        };
        proof {
            assert(en_passant == is_ep_apply(pre.grid, mv));
        }
        if en_passant {
            let dr: i64 = if piece.color == Color::White {
                1
            } else {
                -1
            };
            let behind_rank = (mv.dest.0 / 8) as i64 - dr;
            if 0 <= behind_rank && behind_rank < 8 {
                let victim = (behind_rank as usize) * 8 + mv.dest.0 % 8;
                proof {
                    assert(victim as int == ep_victim(pre.grid, mv));
                }
                self.pos[victim] = None;
            }
        }
        proof {
            assert(self.pos@ == g2);
        }

        // Castle: relocate the rook beside the king.
        if castle_w_short {
            let t = self.pos[7];
            self.pos[5] = t;
            self.pos[7] = None;
        }
        if castle_w_long {
            let t = self.pos[0];
            self.pos[3] = t;
            self.pos[0] = None;
        }
        if castle_b_short {
            let t = self.pos[63];
            self.pos[61] = t;
            self.pos[63] = None;
        }
        if castle_b_long {
            let t = self.pos[56];
            self.pos[59] = t;
            self.pos[56] = None;
        }

        proof {
            assert(self.pos@ == apply_grid(pre.grid, pre.rights_w, pre.rights_b, mv));
            assert(self@.history =~= pre.history.push(pre.grid));
            assert(self@ == apply_model(pre, mv));
        }
        Ok(())
    }
}

/// The content of cell `i` in the standard starting position, as
/// executable code.
fn start_piece_at(i: usize) -> (r: Option<Piece>)
    requires
        i < 64,
    ensures
        r == start_piece(i as int),
{
    let rk = i / 8;
    let fl = i % 8;
    if rk == 0 || rk == 7 {
        let color = if rk == 0 {
            Color::White
        } else {
            Color::Black
        };
        let kind = if fl == 0 || fl == 7 {
            PieceType::Rook
        } else if fl == 1 || fl == 6 {
            PieceType::Knight
        } else if fl == 2 || fl == 5 {
            PieceType::Bishop
        } else if fl == 3 {
            PieceType::Queen
        } else {
            PieceType::King
        };
        Some(Piece::new(kind, color))
    } else if rk == 1 {
        Some(Piece::new(PieceType::Pawn, Color::White))
    } else if rk == 6 {
        Some(Piece::new(PieceType::Pawn, Color::Black))
    } else {
        None
    }
}

} // verus!

