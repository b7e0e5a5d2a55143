use vstd::prelude::*;

use crate::board::apply_model;
use crate::board::castle_target;
use crate::board::cleared;
use crate::board::king_home;
use crate::board::pawn_dir;
use crate::board::CastlingRights;
use crate::board::Position;
use crate::chess_move::ChessMove;
use crate::color::other;
use crate::color::Color;
use crate::piece::Piece;
use crate::piece::PieceType;
use crate::square::file_of;
use crate::square::rank_of;
use crate::square::sq_valid;
use crate::square::step_ok;
use crate::square::step_to;
use crate::square::Square;

verus! {

/// Selects which side's pieces a generation pass looks at. `Both` is
/// meant for inspecting raw geometry; legal generation always filters by
/// a single side.
#[derive(Clone, Copy, Debug, PartialEq, Eq, Structural)]
pub enum Mask {
    White,
    Black,
    Both,
}

/// Whether a mask admits pieces of a color.
pub open spec fn admits(mask: Mask, c: Color) -> bool {
    match mask {
        Mask::White => c is White,
        Mask::Black => c is Black,
        Mask::Both => true,
    }
}

/// The mask that admits exactly one color.
pub open spec fn mask_of(c: Color) -> Mask {
    if c is White {
        Mask::White
    } else {
        Mask::Black
    }
}

impl Mask {
    /// Whether this mask admits pieces of the given color.
    pub(crate) fn compare(&self, color: Color) -> (r: bool)
        ensures
            r == admits(*self, color),
    {
        match *self {
            Mask::Both => true,
            Mask::White => color == Color::White,
            Mask::Black => color == Color::Black,
        }
    }

    /// Inverts the mask: White becomes Black, anything else becomes White.
    pub fn inverse(&mut self)
        ensures
            *final(self) == (match *old(self) {
                Mask::White => Mask::Black,
                _ => Mask::White,
            }),
    {
        if *self == Mask::White {
            *self = Mask::Black;
        } else {
            *self = Mask::White;
        }
    }
}

/// Whether a cell holds a piece of color `c`.
pub open spec fn same_color(cell: Option<Piece>, c: Color) -> bool {
    cell matches Some(q) && q.color == c
}

/// The move from linear index `s` to linear index `d`.
pub open spec fn mk_move(s: int, d: int, promo: Option<PieceType>) -> ChessMove {
    ChessMove { start: Square(s as usize), dest: Square(d as usize), promo }
}

/// The castling rights of color `c` in a position.
pub open spec fn rights_of(p: Position, c: Color) -> CastlingRights {
    if c is White {
        p.rights_w
    } else {
        p.rights_b
    }
}

/// A single-step move of a piece of color `c` from `s` by `(dr, df)`:
/// the step stays on the board and the destination does not hold a piece
/// of the mover's own color.
pub open spec fn pl_jump(p: Position, c: Color, s: int, dr: int, df: int, m: ChessMove) -> bool {
    &&& step_ok(s, dr, df, 1)
    &&& !same_color(p.grid[step_to(s, dr, df, 1)], c)
    &&& m == mk_move(s, step_to(s, dr, df, 1), None::<PieceType>)
}

/// Every square strictly between `s` and the `k`-th step along `(dr, df)`
/// is empty.
pub open spec fn ray_clear(g: Seq<Option<Piece>>, s: int, dr: int, df: int, k: int) -> bool {
    forall|j: int| 1 <= j < k ==> g[#[trigger] step_to(s, dr, df, j)] is None
}

/// The ray move of length exactly `k` from `s` along `(dr, df)`: every
/// square before the destination is empty, and the destination is not
/// occupied by the mover's own color.
pub open spec fn pl_ray_at(
    p: Position,
    c: Color,
    s: int,
    dr: int,
    df: int,
    k: int,
    m: ChessMove,
) -> bool {
    &&& step_ok(s, dr, df, k)
    &&& ray_clear(p.grid, s, dr, df, k)
    &&& !same_color(p.grid[step_to(s, dr, df, k)], c)
    &&& m == mk_move(s, step_to(s, dr, df, k), None::<PieceType>)
}

/// A ray move of any length from `s` along `(dr, df)`.
pub open spec fn pl_ray(p: Position, c: Color, s: int, dr: int, df: int, m: ChessMove) -> bool {
    exists|k: int| 1 <= k <= 7 && #[trigger] pl_ray_at(p, c, s, dr, df, k, m)
}

/// The deltas a king may step by: one square in any of the 8 directions.
pub open spec fn king_delta(dr: int, df: int) -> bool {
    &&& -1 <= dr <= 1
    &&& -1 <= df <= 1
    &&& !(dr == 0 && df == 0)
}

/// The absolute value of an integer.
pub open spec fn iabs(x: int) -> int {
    if x >= 0 {
        x
    } else {
        -x
    }
}

/// The deltas of a knight jump: one rank and two files, or two ranks and
/// one file.
pub open spec fn knight_delta(dr: int, df: int) -> bool {
    ||| (iabs(dr) == 1 && iabs(df) == 2)
    ||| (iabs(dr) == 2 && iabs(df) == 1)
}

/// The ray directions a sliding piece of the given kind may use:
/// orthogonals for the rook, diagonals for the bishop, both for the queen.
pub open spec fn slider_delta(pt: PieceType, dr: int, df: int) -> bool {
    &&& king_delta(dr, df)
    &&& match pt {
        PieceType::Rook => dr == 0 || df == 0,
        PieceType::Bishop => dr != 0 && df != 0,
        PieceType::Queen => true,
        _ => false,
    }
}

/// A pseudo-legal knight move from `s`.
pub open spec fn pl_knight(p: Position, c: Color, s: int, m: ChessMove) -> bool {
    exists|dr: int, df: int| knight_delta(dr, df) && #[trigger] pl_jump(p, c, s, dr, df, m)
}

/// A pseudo-legal sliding move of a piece of kind `pt` from `s`.
pub open spec fn pl_slider(p: Position, c: Color, s: int, pt: PieceType, m: ChessMove) -> bool {
    exists|dr: int, df: int| slider_delta(pt, dr, df) && #[trigger] pl_ray(p, c, s, dr, df, m)
}

/// The rank a side's pawns start on (second relative rank).
pub open spec fn start_rank(c: Color) -> int {
    if c is White {
        1
    } else {
        6
    }
}

/// The rank from which a pawn's forward move promotes (seventh relative rank).
pub open spec fn pre_promo_rank(c: Color) -> int {
    if c is White {
        6
    } else {
        1
    }
}

/// The rank a pawn must stand on to capture en passant (fifth relative rank).
pub open spec fn ep_rank(c: Color) -> int {
    if c is White {
        4
    } else {
        3
    }
}

/// The rank a side's pawns promote on (eighth relative rank).
pub open spec fn last_rank(c: Color) -> int {
    if c is White {
        7
    } else {
        0
    }
}

/// The promotion kind a pawn move from `s` carries: the configured
/// target when the pawn stands one rank short of promotion, else none.
pub open spec fn pawn_promo_opt(p: Position, c: Color, s: int) -> Option<PieceType> {
    if rank_of(s) == pre_promo_rank(c) {
        Some(p.promo)
    } else {
        None
    }
}

/// A pawn's single forward step, onto an empty square.
pub open spec fn pl_pawn_push1(p: Position, c: Color, s: int, m: ChessMove) -> bool {
    &&& step_ok(s, pawn_dir(c), 0, 1)
    &&& p.grid[step_to(s, pawn_dir(c), 0, 1)] is None
    &&& m == mk_move(s, step_to(s, pawn_dir(c), 0, 1), pawn_promo_opt(p, c, s))
}

/// A pawn's double forward step: only from the starting rank, and only
/// when the single step is unobstructed.
pub open spec fn pl_pawn_push2(p: Position, c: Color, s: int, m: ChessMove) -> bool {
    &&& rank_of(s) == start_rank(c)
    &&& step_ok(s, pawn_dir(c), 0, 1)
    &&& p.grid[step_to(s, pawn_dir(c), 0, 1)] is None
    &&& step_ok(s, pawn_dir(c), 0, 2)
    &&& m == mk_move(s, step_to(s, pawn_dir(c), 0, 2), pawn_promo_opt(p, c, s))
}

/// A pawn capture one square diagonally forward, onto an opponent piece.
pub open spec fn pl_pawn_cap(p: Position, c: Color, s: int, df: int, m: ChessMove) -> bool {
    &&& step_ok(s, pawn_dir(c), df, 1)
    &&& same_color(p.grid[step_to(s, pawn_dir(c), df, 1)], other(c))
    &&& m == mk_move(s, step_to(s, pawn_dir(c), df, 1), pawn_promo_opt(p, c, s))
}

/// The square the adjacent opponent pawn would have started its double
/// step from, two ranks forward of the mover on the neighboring file.
pub open spec fn ep_origin(c: Color, s: int, df: int) -> int {
    (rank_of(s) + 2 * pawn_dir(c)) * 8 + (file_of(s) + df)
}

/// A pawn's en passant capture toward file delta `df`: the pawn stands
/// on its fifth relative rank, the diagonal destination is empty, an
/// opponent pawn stands beside the mover, and the previous snapshot
/// shows that pawn still on the square its double step started from.
pub open spec fn pl_pawn_ep(p: Position, c: Color, s: int, df: int, m: ChessMove) -> bool {
    &&& rank_of(s) == ep_rank(c)
    &&& step_ok(s, pawn_dir(c), df, 1)
    &&& p.grid[step_to(s, pawn_dir(c), df, 1)] is None
    &&& p.grid[step_to(s, 0, df, 1)] == Some(Piece { piece_type: PieceType::Pawn, color: other(c) })
    &&& p.history.len() >= 1
    &&& p.history.last()[ep_origin(c, s, df)] == Some(
        Piece { piece_type: PieceType::Pawn, color: other(c) },
    )
    &&& m == mk_move(s, step_to(s, pawn_dir(c), df, 1), pawn_promo_opt(p, c, s))
}

/// A pseudo-legal pawn move from `s`.
pub open spec fn pl_pawn(p: Position, c: Color, s: int, m: ChessMove) -> bool {
    ||| pl_pawn_push1(p, c, s, m)
    ||| pl_pawn_push2(p, c, s, m)
    ||| pl_pawn_cap(p, c, s, -1, m)
    ||| pl_pawn_cap(p, c, s, 1, m)
    ||| pl_pawn_ep(p, c, s, -1, m)
    ||| pl_pawn_ep(p, c, s, 1, m)
}

/// The squares between king and rook that must be empty for a castle:
/// two on the kingside, three on the queenside.
pub open spec fn between_empty(g: Seq<Option<Piece>>, c: Color, kingside: bool) -> bool {
    if kingside {
        &&& g[king_home(c) + 1] is None
        &&& g[king_home(c) + 2] is None
    } else {
        &&& g[king_home(c) - 1] is None
        &&& g[king_home(c) - 2] is None
        &&& g[king_home(c) - 3] is None
    }
}

/// A pseudo-legal castle of color `c` on the given wing: the king stands
/// on its home square, neither the king nor the wing's rook has moved,
/// and the squares between king and rook are empty. Whether the king's
/// path is attacked is not examined here; the legality filter checks the
/// king's landing square only.
pub open spec fn pl_castle(p: Position, c: Color, s: int, kingside: bool, m: ChessMove) -> bool {
    &&& s == king_home(c)
    &&& !rights_of(p, c).king_moved
    &&& !(if kingside {
        rights_of(p, c).kingside_rook_moved
    } else {
        rights_of(p, c).queenside_rook_moved
    })
    &&& between_empty(p.grid, c, kingside)
    &&& m == mk_move(s, castle_target(c, kingside), None::<PieceType>)
}

/// A pseudo-legal king move from `s`: one step in any direction, or a castle.
pub open spec fn pl_king(p: Position, c: Color, s: int, m: ChessMove) -> bool {
    ||| exists|dr: int, df: int| king_delta(dr, df) && #[trigger] pl_jump(p, c, s, dr, df, m)
    ||| pl_castle(p, c, s, true, m)
    ||| pl_castle(p, c, s, false, m)
}

/// A pseudo-legal move of the piece standing on square `s`: the square
/// holds a piece admitted by the mask, and the move follows that piece's
/// movement rule. Pseudo-legal moves ignore whether they leave the
/// mover's own king capturable.
pub open spec fn pl_at(p: Position, mask: Mask, s: int, m: ChessMove) -> bool {
    &&& sq_valid(s)
    &&& m.start.0 as int == s
    &&& match p.grid[s] {
        Some(piece) => admits(mask, piece.color) && (match piece.piece_type {
            PieceType::Pawn => pl_pawn(p, piece.color, s, m),
            PieceType::Knight => pl_knight(p, piece.color, s, m),
            PieceType::Bishop => pl_slider(p, piece.color, s, PieceType::Bishop, m),
            PieceType::Rook => pl_slider(p, piece.color, s, PieceType::Rook, m),
            PieceType::Queen => pl_slider(p, piece.color, s, PieceType::Queen, m),
            PieceType::King => pl_king(p, piece.color, s, m),
        }),
        None => false,
    }
}

/// A pseudo-legal move of the position, for any origin square.
pub open spec fn pl(p: Position, mask: Mask, m: ChessMove) -> bool {
    pl_at(p, mask, m.start.0 as int, m)
}

/// Sequences gain an element through `push` and keep the rest.
proof fn lemma_push_contains<A>(s: Seq<A>, v: A, m: A)
    ensures
        s.push(v).contains(m) <==> s.contains(m) || m == v,
{
    if s.contains(m) {
        let i = choose|i: int| 0 <= i < s.len() && s[i] == m;
        assert(s.push(v)[i] == m);
    }
    if m == v {
        assert(s.push(v)[s.len() as int] == m);
    }
    if s.push(v).contains(m) {
        let i = choose|i: int| 0 <= i < s.push(v).len() && s.push(v)[i] == m;
        if i < s.len() {
            assert(s[i] == m);
        }
    }
}

/// A step that stays on the board keeps every shorter step of the same
/// direction on the board.
proof fn lemma_step_prefix(i: int, dr: int, df: int, k: int, k0: int)
    requires
        sq_valid(i),
        -1 <= dr <= 1,
        -1 <= df <= 1,
        1 <= k <= k0,
        step_ok(i, dr, df, k0),
    ensures
        step_ok(i, dr, df, k),
{
    assert(0 <= rank_of(i) < 8 && 0 <= file_of(i) < 8);
    assert(0 <= rank_of(i) + dr * k < 8 && 0 <= file_of(i) + df * k < 8) by (nonlinear_arith)
        requires
            -1 <= dr <= 1,
            -1 <= df <= 1,
            1 <= k <= k0,
            0 <= rank_of(i) + dr * k0 < 8,
            0 <= file_of(i) + df * k0 < 8,
            0 <= rank_of(i) < 8,
            0 <= file_of(i) < 8,
    ;
}

impl crate::board::Board {
    /// Pushes every ray move from `s` along `(dr, df)` for a piece of
    /// color `c`: one step at a time, stopping at the board edge or at
    /// the first occupied square, which is included only as a capture.
    fn gen_ray(&self, s: Square, c: Color, dr: i8, df: i8, moves: &mut Vec<ChessMove>)
        requires
            self.wf(),
            s.valid(),
            -1 <= dr as int <= 1,
            -1 <= df as int <= 1,
            !(dr == 0 && df == 0),
        ensures
            forall|m: ChessMove| #[trigger]
                final(moves)@.contains(m) <==> old(moves)@.contains(m) || pl_ray(
                    self@,
                    c,
                    s.0 as int,
                    dr as int,
                    df as int,
                    m,
                ),
    {
        let ghost si = s.0 as int;
        let ghost dri = dr as int;
        let ghost dfi = df as int;
        let ghost base = moves@;
        let mut k: u8 = 1;
        while k <= 7
            invariant
                self.wf(),
                s.valid(),
                -1 <= dri <= 1,
                -1 <= dfi <= 1,
                !(dri == 0 && dfi == 0),
                si == s.0 as int,
                dri == dr as int,
                dfi == df as int,
                base == old(moves)@,
                1 <= k as int <= 8,
                forall|j: int|
                    1 <= j < k as int ==> step_ok(si, dri, dfi, j) && self@.grid[#[trigger] step_to(
                        si,
                        dri,
                        dfi,
                        j,
                    )] is None,
                forall|m: ChessMove| #[trigger]
                    moves@.contains(m) <==> base.contains(m) || (exists|j: int|
                        1 <= j < k as int && m == mk_move(
                            si,
                            #[trigger] step_to(si, dri, dfi, j),
                            None::<PieceType>,
                        )),
            decreases 8 - k as int,
        {
            let res = s.step(dr, df, k, None);
            match res {
                Ok(mv) => {
                    let cell = *self.get(mv.dest);
                    match cell {
                        Some(q) => {
                            let ghost pre_push = moves@;
                            if q.color != c {
                                moves.push(mv);
                            }
                            proof {
                                assert(mv == mk_move(si, step_to(si, dri, dfi, k as int), None::<
                                    PieceType,
                                >));
                                assert forall|m: ChessMove| #[trigger]
                                    moves@.contains(m) <==> old(moves)@.contains(m) || pl_ray(
                                        self@,
                                        c,
                                        si,
                                        dri,
                                        dfi,
                                        m,
                                    ) by {
                                    lemma_push_contains(pre_push, mv, m);
                                    if pl_ray(self@, c, si, dri, dfi, m) {
                                        let j = choose|j: int|
                                            1 <= j <= 7 && pl_ray_at(self@, c, si, dri, dfi, j, m);
                                        if j < k as int {
                                            assert(m == mk_move(
                                                si,
                                                step_to(si, dri, dfi, j),
                                                None::<PieceType>,
                                            ));
                                            assert(pre_push.contains(m));
                                        } else if j > k as int {
                                            assert(self@.grid[step_to(si, dri, dfi, k as int)]
                                                is None);
                                            assert(false);
                                        } else {
                                            assert(!same_color(
                                                self@.grid[step_to(si, dri, dfi, k as int)],
                                                c,
                                            ));
                                            assert(q.color != c);
                                            assert(moves@.contains(m));
                                        }
                                    }
                                    if moves@.contains(m) && !old(moves)@.contains(m) {
                                        if pre_push.contains(m) {
                                            let j = choose|j: int|
                                                1 <= j < k as int && m == mk_move(
                                                    si,
                                                    step_to(si, dri, dfi, j),
                                                    None::<PieceType>,
                                                );
                                            assert(pl_ray_at(self@, c, si, dri, dfi, j, m));
                                            assert(pl_ray(self@, c, si, dri, dfi, m));
                                        } else {
                                            assert(m == mv);
                                            assert(pl_ray_at(self@, c, si, dri, dfi, k as int, m));
                                            assert(pl_ray(self@, c, si, dri, dfi, m));
                                        }
                                    }
                                };
                            }
                            return;
                        },
                        None => {
                            let ghost pre_push = moves@;
                            moves.push(mv);
                            proof {
                                let ghost kk = k as int;
                                assert(mv == mk_move(si, step_to(si, dri, dfi, kk), None::<
                                    PieceType,
                                >));
                                assert forall|m: ChessMove| #[trigger]
                                    moves@.contains(m) <==> base.contains(m) || (exists|j: int|
                                        1 <= j < kk + 1 && m == mk_move(
                                            si,
                                            #[trigger] step_to(si, dri, dfi, j),
                                            None::<PieceType>,
                                        )) by {
                                    lemma_push_contains(pre_push, mv, m);
                                    if moves@.contains(m) && !base.contains(m) {
                                        if pre_push.contains(m) {
                                            let j = choose|j: int|
                                                1 <= j < kk && m == mk_move(
                                                    si,
                                                    step_to(si, dri, dfi, j),
                                                    None::<PieceType>,
                                                );
                                            assert(1 <= j < kk + 1 && m == mk_move(
                                                si,
                                                step_to(si, dri, dfi, j),
                                                None::<PieceType>,
                                            ));
                                        } else {
                                            assert(m == mv);
                                            assert(1 <= kk < kk + 1 && m == mk_move(
                                                si,
                                                step_to(si, dri, dfi, kk),
                                                None::<PieceType>,
                                            ));
                                        }
                                    }
                                    if (exists|j: int|
                                        1 <= j < kk + 1 && m == mk_move(
                                            si,
                                            #[trigger] step_to(si, dri, dfi, j),
                                            None::<PieceType>,
                                        )) && !base.contains(m) {
                                        let j = choose|j: int|
                                            1 <= j < kk + 1 && m == mk_move(
                                                si,
                                                step_to(si, dri, dfi, j),
                                                None::<PieceType>,
                                            );
                                        if j < kk {
                                            assert(pre_push.contains(m));
                                        } else {
                                            assert(m == mv);
                                        }
                                        assert(moves@.contains(m));
                                    }
                                };
                            }
                        },
                    }
                },
                Err(_) => {
                    proof {
                        assert(!step_ok(si, dri, dfi, k as int));
                        assert forall|m: ChessMove| #[trigger]
                            moves@.contains(m) <==> old(moves)@.contains(m) || pl_ray(
                                self@,
                                c,
                                si,
                                dri,
                                dfi,
                                m,
                            ) by {
                            if pl_ray(self@, c, si, dri, dfi, m) {
                                let j = choose|j: int|
                                    1 <= j <= 7 && pl_ray_at(self@, c, si, dri, dfi, j, m);
                                if j >= k as int {
                                    lemma_step_prefix(si, dri, dfi, k as int, j);
                                    assert(false);
                                }
                                assert(m == mk_move(si, step_to(si, dri, dfi, j), None::<PieceType>));
                            }
                            if moves@.contains(m) && !old(moves)@.contains(m) {
                                let j = choose|j: int|
                                    1 <= j < k as int && m == mk_move(
                                        si,
                                        step_to(si, dri, dfi, j),
                                        None::<PieceType>,
                                    );
                                assert(pl_ray_at(self@, c, si, dri, dfi, j, m));
                                assert(pl_ray(self@, c, si, dri, dfi, m));
                            }
                        };
                    }
                    return;
                },
            }
            k = k + 1;
        }
        proof {
            assert forall|m: ChessMove| #[trigger]
                moves@.contains(m) <==> old(moves)@.contains(m) || pl_ray(
                    self@,
                    c,
                    si,
                    dri,
                    dfi,
                    m,
                ) by {
                if pl_ray(self@, c, si, dri, dfi, m) {
                    let j = choose|j: int| 1 <= j <= 7 && pl_ray_at(self@, c, si, dri, dfi, j, m);
                    assert(m == mk_move(si, step_to(si, dri, dfi, j), None::<PieceType>));
                }
                if moves@.contains(m) && !old(moves)@.contains(m) {
                    let j = choose|j: int|
                        1 <= j < 8 && m == mk_move(si, step_to(si, dri, dfi, j), None::<PieceType>);
                    assert(pl_ray_at(self@, c, si, dri, dfi, j, m));
                    assert(pl_ray(self@, c, si, dri, dfi, m));
                }
            };
        }
    }

    /// Pushes the single-step move from `s` by `(dr, df)` for a piece of
    /// color `c`, when it stays on the board and does not land on the
    /// mover's own color.
    fn try_jump(&self, s: Square, c: Color, dr: i8, df: i8, moves: &mut Vec<ChessMove>)
        requires
            self.wf(),
            s.valid(),
            -2 <= dr as int <= 2,
            -2 <= df as int <= 2,
        ensures
            forall|m: ChessMove| #[trigger]
                final(moves)@.contains(m) <==> old(moves)@.contains(m) || pl_jump(
                    self@,
                    c,
                    s.0 as int,
                    dr as int,
                    df as int,
                    m,
                ),
    {
        let ghost base = moves@;
        let res = s.step(dr, df, 1, None);
        match res {
            Ok(mv) => {
                let cell = *self.get(mv.dest);
                let blocked = match cell {
                    Some(q) => q.color == c,
                    None => false,
                };
                if !blocked {
                    moves.push(mv);
                    proof {
                        assert forall|m: ChessMove| #[trigger]
                            moves@.contains(m) <==> base.contains(m) || pl_jump(
                                self@,
                                c,
                                s.0 as int,
                                dr as int,
                                df as int,
                                m,
                            ) by {
                            lemma_push_contains(base, mv, m);
                        };
                    }
                }
            },
            Err(_) => {
            },
        }
    }

    /// Pushes the eight knight jumps from `s` that stay on the board and
    /// do not land on the mover's own color.
    fn gen_knight(&self, s: Square, c: Color, moves: &mut Vec<ChessMove>)
        requires
            self.wf(),
            s.valid(),
        ensures
            forall|m: ChessMove| #[trigger]
                final(moves)@.contains(m) <==> old(moves)@.contains(m) || pl_knight(
                    self@,
                    c,
                    s.0 as int,
                    m,
                ),
    {
        self.try_jump(s, c, 1, 2, moves);
        self.try_jump(s, c, 1, -2, moves);
        self.try_jump(s, c, -1, 2, moves);
        self.try_jump(s, c, -1, -2, moves);
        self.try_jump(s, c, 2, 1, moves);
        self.try_jump(s, c, 2, -1, moves);
        self.try_jump(s, c, -2, 1, moves);
        self.try_jump(s, c, -2, -1, moves);
        proof {
            let si = s.0 as int;
            assert forall|m: ChessMove| #[trigger]
                moves@.contains(m) <==> old(moves)@.contains(m) || pl_knight(
                    self@,
                    c,
                    si,
                    m,
                ) by {
                if pl_knight(self@, c, si, m) {
                    let (dr, df) = choose|dr: int, df: int|
                        knight_delta(dr, df) && #[trigger] pl_jump(self@, c, si, dr, df, m);
                    assert((dr == 1 && df == 2) || (dr == 1 && df == -2) || (dr == -1 && df == 2)
                        || (dr == -1 && df == -2) || (dr == 2 && df == 1) || (dr == 2 && df == -1)
                        || (dr == -2 && df == 1) || (dr == -2 && df == -1));
                }
                if moves@.contains(m) && !old(moves)@.contains(m) {
                    if pl_jump(self@, c, si, 1, 2, m) {
                        assert(knight_delta(1, 2));
                    } else if pl_jump(self@, c, si, 1, -2, m) {
                        assert(knight_delta(1, -2));
                    } else if pl_jump(self@, c, si, -1, 2, m) {
                        assert(knight_delta(-1, 2));
                    } else if pl_jump(self@, c, si, -1, -2, m) {
                        assert(knight_delta(-1, -2));
                    } else if pl_jump(self@, c, si, 2, 1, m) {
                        assert(knight_delta(2, 1));
                    } else if pl_jump(self@, c, si, 2, -1, m) {
                        assert(knight_delta(2, -1));
                    } else if pl_jump(self@, c, si, -2, 1, m) {
                        assert(knight_delta(-2, 1));
                    } else {
                        assert(pl_jump(self@, c, si, -2, -1, m));
                        assert(knight_delta(-2, -1));
                    }
                }
            };
        }
    }

    /// Pushes the king's single steps from `s`, plus the castling moves
    /// still permitted by the rights flags when the squares between king
    /// and rook are empty.
    fn gen_king(&self, s: Square, c: Color, moves: &mut Vec<ChessMove>)
        requires
            self.wf(),
            s.valid(),
        ensures
            forall|m: ChessMove| #[trigger]
                final(moves)@.contains(m) <==> old(moves)@.contains(m) || pl_king(
                    self@,
                    c,
                    s.0 as int,
                    m,
                ),
    {
        let ghost si = s.0 as int;
        self.try_jump(s, c, 1, 0, moves);
        self.try_jump(s, c, -1, 0, moves);
        self.try_jump(s, c, 0, 1, moves);
        self.try_jump(s, c, 0, -1, moves);
        self.try_jump(s, c, 1, 1, moves);
        self.try_jump(s, c, 1, -1, moves);
        self.try_jump(s, c, -1, 1, moves);
        self.try_jump(s, c, -1, -1, moves);
        let ghost after_jumps = moves@;

        let cr = self.castling_rights(c);
        let home: usize = if c == Color::White {
            4
        } else {
            60
        };
        let ghost short_cond = pl_castle(self@, c, si, true, mk_move(si, castle_target(c, true), None::<PieceType>));
        let ghost long_cond = pl_castle(self@, c, si, false, mk_move(si, castle_target(c, false), None::<PieceType>));
        if s.0 == home && !cr.king_moved {
            if !cr.kingside_rook_moved {
                let empty1 = self.get(Square(home + 1)).is_none();
                let empty2 = self.get(Square(home + 2)).is_none();
                if empty1 && empty2 {
                    let ghost pre = moves@;
                    let cm = ChessMove::new(s, Square(home + 2), None);
                    moves.push(cm);
                    proof {
                        assert(cm == mk_move(si, castle_target(c, true), None::<PieceType>));
                        assert(short_cond);
                        assert forall|m: ChessMove| #[trigger]
                            moves@.contains(m) <==> pre.contains(m) || m == cm by {
                            lemma_push_contains(pre, cm, m);
                        };
                    }
                }
            }
            if !cr.queenside_rook_moved {
                let empty1 = self.get(Square(home - 1)).is_none();
                let empty2 = self.get(Square(home - 2)).is_none();
                let empty3 = self.get(Square(home - 3)).is_none();
                if empty1 && empty2 && empty3 {
                    let ghost pre = moves@;
                    let cm = ChessMove::new(s, Square(home - 2), None);
                    moves.push(cm);
                    proof {
                        assert(cm == mk_move(si, castle_target(c, false), None::<PieceType>));
                        assert(long_cond);
                        assert forall|m: ChessMove| #[trigger]
                            moves@.contains(m) <==> pre.contains(m) || m == cm by {
                            lemma_push_contains(pre, cm, m);
                        };
                    }
                }
            }
        }
        proof {
            assert forall|m: ChessMove| #[trigger]
                moves@.contains(m) <==> after_jumps.contains(m) || (short_cond && m == mk_move(
                    si,
                    castle_target(c, true),
                    None::<PieceType>,
                )) || (long_cond && m == mk_move(si, castle_target(c, false), None::<PieceType>))
                by {}
            ;
            assert forall|m: ChessMove| #[trigger]
                moves@.contains(m) <==> old(moves)@.contains(m) || pl_king(self@, c, si, m) by {
                if pl_king(self@, c, si, m) {
                    if exists|dr: int, df: int|
                        king_delta(dr, df) && #[trigger] pl_jump(self@, c, si, dr, df, m) {
                        let (dr, df) = choose|dr: int, df: int|
                            king_delta(dr, df) && #[trigger] pl_jump(self@, c, si, dr, df, m);
                        assert((dr == 1 && df == 0) || (dr == -1 && df == 0) || (dr == 0 && df == 1)
                            || (dr == 0 && df == -1) || (dr == 1 && df == 1) || (dr == 1 && df
                            == -1) || (dr == -1 && df == 1) || (dr == -1 && df == -1));
                        assert(after_jumps.contains(m));
                    } else if pl_castle(self@, c, si, true, m) {
                        assert(m == mk_move(si, castle_target(c, true), None::<PieceType>));
                        assert(short_cond);
                    } else {
                        assert(pl_castle(self@, c, si, false, m));
                        assert(m == mk_move(si, castle_target(c, false), None::<PieceType>));
                        assert(long_cond);
                    }
                }
                if moves@.contains(m) && !old(moves)@.contains(m) {
                    if after_jumps.contains(m) {
                        if pl_jump(self@, c, si, 1, 0, m) {
                            assert(king_delta(1, 0));
                        } else if pl_jump(self@, c, si, -1, 0, m) {
                            assert(king_delta(-1, 0));
                        } else if pl_jump(self@, c, si, 0, 1, m) {
                            assert(king_delta(0, 1));
                        } else if pl_jump(self@, c, si, 0, -1, m) {
                            assert(king_delta(0, -1));
                        } else if pl_jump(self@, c, si, 1, 1, m) {
                            assert(king_delta(1, 1));
                        } else if pl_jump(self@, c, si, 1, -1, m) {
                            assert(king_delta(1, -1));
                        } else if pl_jump(self@, c, si, -1, 1, m) {
                            assert(king_delta(-1, 1));
                        } else {
                            assert(pl_jump(self@, c, si, -1, -1, m));
                            assert(king_delta(-1, -1));
                        }
                        assert(pl_king(self@, c, si, m));
                    } else if short_cond && m == mk_move(si, castle_target(c, true), None::<
                        PieceType,
                    >) {
                        assert(pl_castle(self@, c, si, true, m));
                    } else {
                        assert(long_cond && m == mk_move(si, castle_target(c, false), None::<
                            PieceType,
                        >));
                        assert(pl_castle(self@, c, si, false, m));
                    }
                }
            };
        }
    }

    /// Pushes the pawn capture and en passant moves from `s` toward file
    /// delta `df`: a capture when an opponent piece stands on the
    /// diagonal square, and an en passant capture when the diagonal is
    /// empty, the pawn stands on its fifth relative rank, an opponent
    /// pawn stands beside it, and the previous snapshot shows that pawn
    /// on its double-step origin.
    fn gen_pawn_diag(
        &self,
        s: Square,
        c: Color,
        df: i8,
        promo: Option<PieceType>,
        moves: &mut Vec<ChessMove>,
    )
        requires
            self.wf(),
            s.valid(),
            df as int == 1 || df as int == -1,
            promo == pawn_promo_opt(self@, c, s.0 as int),
        ensures
            forall|m: ChessMove| #[trigger]
                final(moves)@.contains(m) <==> old(moves)@.contains(m) || pl_pawn_cap(
                    self@,
                    c,
                    s.0 as int,
                    df as int,
                    m,
                ) || pl_pawn_ep(self@, c, s.0 as int, df as int, m),
    {
        let ghost si = s.0 as int;
        let ghost dfi = df as int;
        let dr: i8 = if c == Color::White {
            1
        } else {
            -1
        };
        let res = s.step(dr, df, 1, promo);
        match res {
            Ok(mc) => {
                let cell = *self.get(mc.dest);
                match cell {
                    Some(t) => {
                        let ghost pre = moves@;
                        if t.color != c {
                            moves.push(mc);
                        }
                        proof {
                            assert(mc == mk_move(
                                si,
                                step_to(si, pawn_dir(c), dfi, 1),
                                pawn_promo_opt(self@, c, si),
                            ));
                            assert forall|m: ChessMove| #[trigger]
                                moves@.contains(m) <==> old(moves)@.contains(m) || pl_pawn_cap(
                                    self@,
                                    c,
                                    si,
                                    dfi,
                                    m,
                                ) || pl_pawn_ep(self@, c, si, dfi, m) by {
                                lemma_push_contains(pre, mc, m);
                            };
                        }
                    },
                    None => {
                        let at_ep_rank = s.0 / 8 == (
                        if c == Color::White {
                            4
                        } else {
                            3
                        });
                        let mut pushed = false;
                        if at_ep_rank {
                            let nbres = s.step(0, df, 1, None);
                            match nbres {
                                Ok(nb) => {
                                    let ncell = *self.get(nb.dest);
                                    let enemy_pawn_beside = match ncell {
                                        Some(np) => np.piece_type == PieceType::Pawn && np.color
                                            != c,
                                        None => false,
                                    };
                                    if enemy_pawn_beside && self.get_history().len() > 0 {
                                        let orank = if c == Color::White {
                                            s.0 / 8 + 2
                                        } else {
                                            s.0 / 8 - 2
                                        };
                                        let ofl = if df == 1 {
                                            s.0 % 8 + 1
                                        } else {
                                            s.0 % 8 - 1
                                        };
                                        let osq = orank * 8 + ofl;
                                        proof {
                                            assert(osq as int == ep_origin(c, si, dfi));
                                            assert(sq_valid(osq as int));
                                        }
                                        let pcell = *self.get_from_previous(Square(osq));
                                        let came_from_origin = match pcell {
                                            Some(pp) => pp.piece_type == PieceType::Pawn
                                                && pp.color != c,
                                            None => false,
                                        };
                                        if came_from_origin {
                                            let ghost pre = moves@;
                                            moves.push(mc);
                                            pushed = true;
                                            proof {
                                                assert forall|m: ChessMove| #[trigger]
                                                    moves@.contains(m) <==> pre.contains(m) || m
                                                    == mc by {
                                                    lemma_push_contains(pre, mc, m);
                                                };
                                            }
                                        }
                                    }
                                },
                                Err(_) => {
                                    proof {
                                        assert(false);
                                    }
                                },
                            }
                        }
                        proof {
                            assert(mc == mk_move(
                                si,
                                step_to(si, pawn_dir(c), dfi, 1),
                                pawn_promo_opt(self@, c, si),
                            ));
                            assert(pushed == pl_pawn_ep(self@, c, si, dfi, mc));
                            assert forall|m: ChessMove| #[trigger]
                                moves@.contains(m) <==> old(moves)@.contains(m) || pl_pawn_cap(
                                    self@,
                                    c,
                                    si,
                                    dfi,
                                    m,
                                ) || pl_pawn_ep(self@, c, si, dfi, m) by {
                                if pl_pawn_ep(self@, c, si, dfi, m) {
                                    assert(m == mc);
                                }
                            };
                        }
                    },
                }
            },
            Err(_) => {
                proof {
                    assert forall|m: ChessMove| #[trigger]
                        moves@.contains(m) <==> old(moves)@.contains(m) || pl_pawn_cap(
                            self@,
                            c,
                            si,
                            dfi,
                            m,
                        ) || pl_pawn_ep(self@, c, si, dfi, m) by {}
                    ;
                }
            },
        }
    }

    /// Pushes every pawn move from `s`: the single forward step onto an
    /// empty square, the double step from the starting rank behind an
    /// unobstructed single step, and the two diagonal captures with
    /// their en passant variants. Moves from the seventh relative rank
    /// carry the configured promotion kind.
    fn gen_pawn(&self, s: Square, c: Color, moves: &mut Vec<ChessMove>)
        requires
            self.wf(),
            s.valid(),
        ensures
            forall|m: ChessMove| #[trigger]
                final(moves)@.contains(m) <==> old(moves)@.contains(m) || pl_pawn(
                    self@,
                    c,
                    s.0 as int,
                    m,
                ),
    {
        let ghost si = s.0 as int;
        let dr: i8 = if c == Color::White {
            1
        } else {
            -1
        };
        let rk = s.0 / 8;
        let pre_promo = rk == (
        if c == Color::White {
            6
        } else {
            1
        });
        let promo = if pre_promo {
            Some(self.promo_kind())
        } else {
            None
        };
        proof {
            assert(promo == pawn_promo_opt(self@, c, si));
        }

        let ghost base = moves@;
        let res = s.step(dr, 0, 1, promo);
        match res {
            Ok(m1) => {
                if self.get(m1.dest).is_none() {
                    let ghost pre = moves@;
                    moves.push(m1);
                    proof {
                        assert(m1 == mk_move(
                            si,
                            step_to(si, pawn_dir(c), 0, 1),
                            pawn_promo_opt(self@, c, si),
                        ));
                        assert forall|m: ChessMove| #[trigger]
                            moves@.contains(m) <==> pre.contains(m) || m == m1 by {
                            lemma_push_contains(pre, m1, m);
                        };
                    }
                    let on_start = rk == (
                    if c == Color::White {
                        1
                    } else {
                        6
                    });
                    if on_start {
                        let res2 = s.step(dr, 0, 2, promo);
                        match res2 {
                            Ok(m2) => {
                                let ghost pre2 = moves@;
                                moves.push(m2);
                                proof {
                                    assert(m2 == mk_move(
                                        si,
                                        step_to(si, pawn_dir(c), 0, 2),
                                        pawn_promo_opt(self@, c, si),
                                    ));
                                    assert forall|m: ChessMove| #[trigger]
                                        moves@.contains(m) <==> pre2.contains(m) || m == m2 by {
                                        lemma_push_contains(pre2, m2, m);
                                    };
                                }
                            },
                            Err(_) => {
                                proof {
                                    assert(false);
                                }
                            },
                        }
                    }
                }
            },
            Err(_) => {
            },
        }
        let ghost after_push = moves@;
        proof {
            assert forall|m: ChessMove| #[trigger]
                after_push.contains(m) <==> base.contains(m) || pl_pawn_push1(self@, c, si, m)
                    || pl_pawn_push2(self@, c, si, m) by {}
            ;
        }

        self.gen_pawn_diag(s, c, -1, promo, moves);
        self.gen_pawn_diag(s, c, 1, promo, moves);
        proof {
            assert forall|m: ChessMove| #[trigger]
                moves@.contains(m) <==> old(moves)@.contains(m) || pl_pawn(self@, c, si, m) by {}
            ;
        }
    }

    /// Pushes every pseudo-legal move of the piece on square `s`, when
    /// the square is occupied by a piece the mask admits; dispatches on
    /// the piece kind.
    fn gen_for_square(&self, s: Square, mask: Mask, moves: &mut Vec<ChessMove>)
        requires
            self.wf(),
            s.valid(),
        ensures
            forall|m: ChessMove| #[trigger]
                final(moves)@.contains(m) <==> old(moves)@.contains(m) || pl_at(
                    self@,
                    mask,
                    s.0 as int,
                    m,
                ),
    {
        let ghost si = s.0 as int;
        let cell = *self.get(s);
        match cell {
            None => {
            },
            Some(piece) => {
                if mask.compare(piece.color) {
                    let c = piece.color;
                    match piece.piece_type {
                        PieceType::Pawn => {
                            self.gen_pawn(s, c, moves);
                        },
                        PieceType::Knight => {
                            self.gen_knight(s, c, moves);
                        },
                        PieceType::King => {
                            self.gen_king(s, c, moves);
                        },
                        PieceType::Bishop => {
                            self.gen_ray(s, c, 1, 1, moves);
                            self.gen_ray(s, c, 1, -1, moves);
                            self.gen_ray(s, c, -1, 1, moves);
                            self.gen_ray(s, c, -1, -1, moves);
                            proof {
                                lemma_slider_union(self@, c, si, PieceType::Bishop);
                            }
                        },
                        PieceType::Rook => {
                            self.gen_ray(s, c, 1, 0, moves);
                            self.gen_ray(s, c, -1, 0, moves);
                            self.gen_ray(s, c, 0, 1, moves);
                            self.gen_ray(s, c, 0, -1, moves);
                            proof {
                                lemma_slider_union(self@, c, si, PieceType::Rook);
                            }
                        },
                        PieceType::Queen => {
                            self.gen_ray(s, c, 1, 0, moves);
                            self.gen_ray(s, c, -1, 0, moves);
                            self.gen_ray(s, c, 0, 1, moves);
                            self.gen_ray(s, c, 0, -1, moves);
                            self.gen_ray(s, c, 1, 1, moves);
                            self.gen_ray(s, c, 1, -1, moves);
                            self.gen_ray(s, c, -1, 1, moves);
                            self.gen_ray(s, c, -1, -1, moves);
                            proof {
                                lemma_slider_union(self@, c, si, PieceType::Queen);
                            }
                        },
                    }
                }
            },
        }
    }

    /// Generates every pseudo-legal move the mask admits, scanning the
    /// 64 squares in index order. Pseudo-legal moves do not account for
    /// checks against the mover's own king.
    pub(crate) fn gen_moves_raw(&self, mask: Mask) -> (r: Vec<ChessMove>)
        requires
            self.wf(),
        ensures
            forall|m: ChessMove| #[trigger] r@.contains(m) <==> pl(self@, mask, m),
    {
        let mut moves: Vec<ChessMove> = Vec::new();
        let mut u: usize = 0;
        while u < 64
            invariant
                self.wf(),
                u <= 64,
                forall|m: ChessMove| #[trigger]
                    moves@.contains(m) <==> pl(self@, mask, m) && (m.start.0 as int) < u as int,
            decreases 64 - u,
        {
            self.gen_for_square(Square(u), mask, &mut moves);
            proof {
                assert forall|m: ChessMove| #[trigger]
                    moves@.contains(m) <==> pl(self@, mask, m) && (m.start.0 as int) < u as int
                        + 1 by {
                    if pl_at(self@, mask, u as int, m) {
                        assert(m.start.0 as int == u as int);
                        assert(pl(self@, mask, m));
                    }
                    if pl(self@, mask, m) && m.start.0 as int == u as int {
                        assert(pl_at(self@, mask, u as int, m));
                    }
                };
            }
            u = u + 1;
        }
        moves
    }
}

impl crate::board::Board {
    /// For each pseudo-legal candidate of side `c`, simulates it on a
    /// history-less copy of the position and keeps it only when no
    /// pseudo-legal reply of the opponent lands on a king; the kept
    /// candidates are deduplicated.
    fn gen_legal(&self, c: Color) -> (r: Vec<ChessMove>)
        requires
            self.wf(),
        ensures
            forall|m: ChessMove| #[trigger] r@.contains(m) <==> legal_for(self@, c, m),
            r@.no_duplicates(),
    {
        let msk = if c == Color::White {
            Mask::White
        } else {
            Mask::Black
        };
        let opp = if c == Color::White {
            Mask::Black
        } else {
            Mask::White
        };
        proof {
            assert(msk == mask_of(c));
            assert(opp == mask_of(other(c)));
        }
        let raw = self.gen_moves_raw(msk);
        let mut out: Vec<ChessMove> = Vec::new();
        let mut i: usize = 0;
        while i < raw.len()
            invariant
                self.wf(),
                msk == mask_of(c),
                opp == mask_of(other(c)),
                i <= raw@.len(),
                forall|m: ChessMove| #[trigger] raw@.contains(m) <==> pl(self@, msk, m),
                forall|m: ChessMove| #[trigger]
                    out@.contains(m) <==> raw@.take(i as int).contains(m) && !exposes_king(
                        self@,
                        c,
                        m,
                    ),
                out@.no_duplicates(),
            decreases raw@.len() - i,
        {
            let mv = raw[i];
            proof {
                assert(raw@.contains(mv));
                assert(pl(self@, msk, mv));
                lemma_pl_bounds(self@, msk, mv);
            }
            let mut tb = self.scratch();
            let res = tb.make_move(mv);
            proof {
                assert(res is Ok);
                assert(tb@ == apply_model(cleared(self@), mv));
            }
            let replies = tb.gen_moves_raw(opp);
            let mut check = false;
            let mut j: usize = 0;
            while j < replies.len()
                invariant
                    tb.wf(),
                    j <= replies@.len(),
                    opp == mask_of(other(c)),
                    tb@ == apply_model(cleared(self@), mv),
                    forall|m: ChessMove| #[trigger] replies@.contains(m) <==> pl(tb@, opp, m),
                    check <==> (exists|jj: int|
                        0 <= jj < j as int && is_king_cell(
                            tb@.grid[#[trigger] replies@[jj].dest.0 as int],
                        )),
                decreases replies@.len() - j,
            {
                if !check {
                    let rm = replies[j];
                    proof {
                        assert(replies@.contains(rm));
                        lemma_pl_bounds(tb@, opp, rm);
                    }
                    let cell = *tb.get(rm.dest);
                    let is_k = match cell {
                        Some(q) => q.piece_type == PieceType::King,
                        None => false,
                    };
                    if is_k {
                        check = true;
                        proof {
                            assert(is_king_cell(tb@.grid[replies@[j as int].dest.0 as int]));
                        }
                    } else {
                        proof {
                            assert(!is_king_cell(tb@.grid[replies@[j as int].dest.0 as int]));
                        }
                    }
                }
                j = j + 1;
            }
            proof {
                assert(check == exposes_king(self@, c, mv)) by {
                    if check {
                        let jj = choose|jj: int|
                            0 <= jj < j as int && is_king_cell(
                                tb@.grid[#[trigger] replies@[jj].dest.0 as int],
                            );
                        let rm = replies@[jj];
                        assert(replies@.contains(rm));
                        assert(pl(tb@, opp, rm) && is_king_cell(tb@.grid[rm.dest.0 as int]));
                    }
                    if exposes_king(self@, c, mv) {
                        let rm = choose|rm: ChessMove| #[trigger]
                            pl(apply_model(cleared(self@), mv), mask_of(other(c)), rm)
                                && is_king_cell(
                                apply_model(cleared(self@), mv).grid[rm.dest.0 as int],
                            );
                        assert(replies@.contains(rm));
                        let jj = choose|jj: int|
                            0 <= jj < replies@.len() && replies@[jj] == rm;
                        assert(is_king_cell(tb@.grid[replies@[jj].dest.0 as int]));
                        assert(check);
                    }
                };
            }
            let ghost pre = out@;
            if !check {
                if !has_move(&out, mv) {
                    out.push(mv);
                    proof {
                        assert forall|a: int, b: int|
                            0 <= a < b < out@.len() implies out@[a] != out@[b] by {
                            if b == out@.len() - 1 {
                                assert(out@[a] == pre[a]);
                                if out@[a] == mv {
                                    assert(pre.contains(mv));
                                }
                            }
                        };
                    }
                }
            }
            proof {
                assert(raw@.take(i as int + 1) =~= raw@.take(i as int).push(raw@[i as int]));
                assert forall|m: ChessMove| #[trigger]
                    out@.contains(m) <==> raw@.take(i as int + 1).contains(m) && !exposes_king(
                        self@,
                        c,
                        m,
                    ) by {
                    lemma_push_contains(raw@.take(i as int), raw@[i as int], m);
                    if m == mv {
                        if !check && !pre.contains(mv) {
                            lemma_push_contains(pre, mv, m);
                        }
                        if check && pre.contains(mv) {
                            assert(!exposes_king(self@, c, mv));
                            assert(false);
                        }
                    } else {
                        if out@.contains(m) && !pre.contains(m) {
                            lemma_push_contains(pre, mv, m);
                        }
                        if pre.contains(m) && !check && !pre.contains(mv) {
                            lemma_push_contains(pre, mv, m);
                        }
                    }
                };
            }
            i = i + 1;
        }
        proof {
            assert(raw@.take(raw@.len() as int) =~= raw@);
        }
        out
    }

    /// Generates the moves a mask asks for: the legal moves of the
    /// selected side, computed by filtering the pseudo-legal candidates
    /// through the two-ply simulation, or the raw pseudo-legal moves of
    /// both sides for `Both`. The result holds no duplicates.
    pub fn gen_moves(&self, mask: Mask) -> (r: Vec<ChessMove>)
        requires
            self.wf(),
        ensures
            forall|m: ChessMove| #[trigger] r@.contains(m) <==> legal(self@, mask, m),
            r@.no_duplicates(),
    {
        match mask {
            Mask::Both => {
                let raw = self.gen_moves_raw(Mask::Both);
                dedup_moves(&raw)
            },
            Mask::White => self.gen_legal(Color::White),
            Mask::Black => self.gen_legal(Color::Black),
        }
    }
}

/// Whether a cell holds a king of either color.
pub open spec fn is_king_cell(cell: Option<Piece>) -> bool {
    cell matches Some(q) && q.piece_type is King
}

/// Whether applying `m` for side `c` leaves a position in which some
/// pseudo-legal reply of the opponent lands on a king. The simulation
/// runs on a history-less copy of the position, as the legality filter
/// does.
pub open spec fn exposes_king(p: Position, c: Color, m: ChessMove) -> bool {
    exists|rm: ChessMove| #[trigger]
        pl(apply_model(cleared(p), m), mask_of(other(c)), rm) && is_king_cell(
            apply_model(cleared(p), m).grid[rm.dest.0 as int],
        )
}

/// A legal move of side `c`: pseudo-legal, and no pseudo-legal reply of
/// the opponent can land on a king afterwards.
pub open spec fn legal_for(p: Position, c: Color, m: ChessMove) -> bool {
    pl(p, mask_of(c), m) && !exposes_king(p, c, m)
}

/// What [`crate::board::Board::gen_moves`] returns for a mask: the legal
/// moves of the selected side, or the raw pseudo-legal moves of both
/// sides when the mask is `Both` (which is meant for inspecting
/// geometry, not for play).
pub open spec fn legal(p: Position, mask: Mask, m: ChessMove) -> bool {
    match mask {
        Mask::Both => pl(p, Mask::Both, m),
        Mask::White => legal_for(p, Color::White, m),
        Mask::Black => legal_for(p, Color::Black, m),
    }
}

/// Every pseudo-legal move starts and ends on the board.
pub proof fn lemma_pl_bounds(p: Position, mask: Mask, m: ChessMove)
    requires
        pl(p, mask, m),
    ensures
        m.start.0 < 64,
        m.dest.0 < 64,
{
    let s = m.start.0 as int;
    match p.grid[s] {
        Some(piece) => {
            let c = piece.color;
            match piece.piece_type {
                PieceType::Pawn => {
                    assert(sq_valid(m.dest.0 as int));
                },
                PieceType::Knight => {
                    let (dr, df) = choose|dr: int, df: int|
                        knight_delta(dr, df) && #[trigger] pl_jump(p, c, s, dr, df, m);
                    assert(sq_valid(step_to(s, dr, df, 1)));
                },
                PieceType::Bishop | PieceType::Rook | PieceType::Queen => {
                    let pt = piece.piece_type;
                    let (dr, df) = choose|dr: int, df: int|
                        slider_delta(pt, dr, df) && #[trigger] pl_ray(p, c, s, dr, df, m);
                    let k = choose|k: int| 1 <= k <= 7 && #[trigger] pl_ray_at(p, c, s, dr, df, k, m);
                    assert(sq_valid(step_to(s, dr, df, k)));
                },
                PieceType::King => {
                    if exists|dr: int, df: int|
                        king_delta(dr, df) && #[trigger] pl_jump(p, c, s, dr, df, m) {
                        let (dr, df) = choose|dr: int, df: int|
                            king_delta(dr, df) && #[trigger] pl_jump(p, c, s, dr, df, m);
                        assert(sq_valid(step_to(s, dr, df, 1)));
                    }
                },
            }
        },
        None => {
        },
    }
}

/// Whether a list of moves contains a given move.
pub(crate) fn has_move(v: &Vec<ChessMove>, mv: ChessMove) -> (r: bool)
    ensures
        r == v@.contains(mv),
{
    let mut i: usize = 0;
    while i < v.len()
        invariant
            i <= v@.len(),
            forall|j: int| 0 <= j < i ==> v@[j] != mv,
        decreases v@.len() - i,
    {
        if v[i] == mv {
            return true;
        }
        i = i + 1;
    }
    proof {
        assert(!v@.contains(mv));
    }
    false
}

/// Removes duplicate moves, keeping the first occurrence of each.
fn dedup_moves(v: &Vec<ChessMove>) -> (r: Vec<ChessMove>)
    ensures
        forall|m: ChessMove| #[trigger] r@.contains(m) <==> v@.contains(m),
        r@.no_duplicates(),
{
    let mut out: Vec<ChessMove> = Vec::new();
    let mut i: usize = 0;
    while i < v.len()
        invariant
            i <= v@.len(),
            forall|m: ChessMove| #[trigger] out@.contains(m) <==> v@.take(i as int).contains(m),
            out@.no_duplicates(),
        decreases v@.len() - i,
    {
        let mv = v[i];
        let ghost pre = out@;
        if !has_move(&out, mv) {
            out.push(mv);
            proof {
                assert forall|a: int, b: int| 0 <= a < b < out@.len() implies out@[a] != out@[b] by {
                    if b == out@.len() - 1 {
                        assert(out@[a] == pre[a]);
                        if out@[a] == mv {
                            assert(pre.contains(mv));
                        }
                    }
                };
            }
        }
        proof {
            assert(v@.take(i as int + 1) =~= v@.take(i as int).push(v@[i as int]));
            assert forall|m: ChessMove| #[trigger]
                out@.contains(m) <==> v@.take(i as int + 1).contains(m) by {
                lemma_push_contains(v@.take(i as int), v@[i as int], m);
                if m == mv && pre.contains(m) {
                    assert(out@.contains(m));
                }
                if m == mv && !pre.contains(m) {
                    lemma_push_contains(pre, mv, m);
                }
                if m != mv {
                    if out@.contains(m) {
                        if pre.contains(m) {
                        } else {
                            lemma_push_contains(pre, mv, m);
                        }
                    }
                    if pre.contains(m) {
                        lemma_push_contains(pre, mv, m);
                    }
                }
            };
        }
        i = i + 1;
    }
    proof {
        assert(v@.take(v@.len() as int) =~= v@);
    }
    out
}

/// Bishop, rook, and queen rays are exactly the union of their allowed
/// direction rays.
proof fn lemma_slider_union(p: Position, c: Color, si: int, pt: PieceType)
    requires
        pt is Bishop || pt is Rook || pt is Queen,
    ensures
        forall|m: ChessMove| #[trigger]
            pl_slider(p, c, si, pt, m) <==> ((pt is Bishop || pt is Queen) && (pl_ray(
                p,
                c,
                si,
                1,
                1,
                m,
            ) || pl_ray(p, c, si, 1, -1, m) || pl_ray(p, c, si, -1, 1, m) || pl_ray(
                p,
                c,
                si,
                -1,
                -1,
                m,
            ))) || ((pt is Rook || pt is Queen) && (pl_ray(p, c, si, 1, 0, m) || pl_ray(
                p,
                c,
                si,
                -1,
                0,
                m,
            ) || pl_ray(p, c, si, 0, 1, m) || pl_ray(p, c, si, 0, -1, m))),
{
    assert forall|m: ChessMove| #[trigger]
        pl_slider(p, c, si, pt, m) <==> ((pt is Bishop || pt is Queen) && (pl_ray(p, c, si, 1, 1, m)
            || pl_ray(p, c, si, 1, -1, m) || pl_ray(p, c, si, -1, 1, m) || pl_ray(
            p,
            c,
            si,
            -1,
            -1,
            m,
        ))) || ((pt is Rook || pt is Queen) && (pl_ray(p, c, si, 1, 0, m) || pl_ray(
            p,
            c,
            si,
            -1,
            0,
            m,
        ) || pl_ray(p, c, si, 0, 1, m) || pl_ray(p, c, si, 0, -1, m))) by {
        if pl_slider(p, c, si, pt, m) {
            let (dr, df) = choose|dr: int, df: int|
                slider_delta(pt, dr, df) && #[trigger] pl_ray(p, c, si, dr, df, m);
            assert((dr == 1 && df == 1) || (dr == 1 && df == -1) || (dr == -1 && df == 1) || (dr
                == -1 && df == -1) || (dr == 1 && df == 0) || (dr == -1 && df == 0) || (dr == 0
                && df == 1) || (dr == 0 && df == -1));
        }
        if !pl_slider(p, c, si, pt, m) {
            if (pt is Bishop || pt is Queen) && pl_ray(p, c, si, 1, 1, m) {
                assert(slider_delta(pt, 1, 1));
            }
            if (pt is Bishop || pt is Queen) && pl_ray(p, c, si, 1, -1, m) {
                assert(slider_delta(pt, 1, -1));
            }
            if (pt is Bishop || pt is Queen) && pl_ray(p, c, si, -1, 1, m) {
                assert(slider_delta(pt, -1, 1));
            }
            if (pt is Bishop || pt is Queen) && pl_ray(p, c, si, -1, -1, m) {
                assert(slider_delta(pt, -1, -1));
            }
            if (pt is Rook || pt is Queen) && pl_ray(p, c, si, 1, 0, m) {
                assert(slider_delta(pt, 1, 0));
            }
            if (pt is Rook || pt is Queen) && pl_ray(p, c, si, -1, 0, m) {
                assert(slider_delta(pt, -1, 0));
            }
            if (pt is Rook || pt is Queen) && pl_ray(p, c, si, 0, 1, m) {
                assert(slider_delta(pt, 0, 1));
            }
            if (pt is Rook || pt is Queen) && pl_ray(p, c, si, 0, -1, m) {
                assert(slider_delta(pt, 0, -1));
            }
        }
    };
}

} // verus!
