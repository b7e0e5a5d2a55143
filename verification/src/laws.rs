use vstd::prelude::*;

use crate::board::apply_model;
use crate::board::castle_target;
use crate::board::ep_victim;
use crate::board::is_ep_apply;
use crate::board::king_home;
use crate::board::moved_piece;
use crate::board::pawn_dir;
use crate::board::pos_wf;
use crate::board::rook_castle_to;
use crate::board::rook_home;
use crate::board::Position;
use crate::chess_move::ChessMove;
use crate::color::other;
use crate::color::Color;
use crate::move_gen::exposes_king;
use crate::move_gen::iabs;
use crate::move_gen::king_delta;
use crate::move_gen::knight_delta;
use crate::move_gen::last_rank;
use crate::move_gen::legal_for;
use crate::move_gen::lemma_pl_bounds;
use crate::move_gen::mk_move;
use crate::move_gen::pl;
use crate::move_gen::pl_castle;
use crate::move_gen::pl_jump;
use crate::move_gen::pl_pawn_cap;
use crate::move_gen::pl_pawn_ep;
use crate::move_gen::pl_pawn_push1;
use crate::move_gen::pl_pawn_push2;
use crate::move_gen::pl_ray;
use crate::move_gen::pl_ray_at;
use crate::move_gen::ray_clear;
use crate::move_gen::rights_of;
use crate::move_gen::slider_delta;
use crate::move_gen::Mask;
use crate::piece::Piece;
use crate::piece::PieceType;
use crate::square::file_of;
use crate::square::rank_of;
use crate::square::sq_valid;
use crate::square::step_ok;
use crate::square::step_to;

verus! {

/// Decomposing the index built from a row and a column gives the row and
/// the column back.
proof fn lemma_rank_file_split(r: int, f: int)
    requires
        0 <= r < 8,
        0 <= f < 8,
    ensures
        rank_of(r * 8 + f) == r,
        file_of(r * 8 + f) == f,
{
    vstd::arithmetic::div_mod::lemma_fundamental_div_mod_converse(r * 8 + f, 8, r, f);
}

/// Stepping in a direction and then in the exact opposite direction by
/// the same multiplier returns to the original square, and the way back
/// never leaves the board.
pub proof fn lemma_step_round_trip(i: int, dr: int, df: int, mul: int)
    requires
        sq_valid(i),
        step_ok(i, dr, df, mul),
    ensures
        step_ok(step_to(i, dr, df, mul), -dr, -df, mul),
        step_to(step_to(i, dr, df, mul), -dr, -df, mul) == i,
{
    let r0 = rank_of(i);
    let f0 = file_of(i);
    let t = step_to(i, dr, df, mul);
    lemma_rank_file_split(r0 + dr * mul, f0 + df * mul);
    assert((-dr) * mul == -(dr * mul)) by (nonlinear_arith);
    assert((-df) * mul == -(df * mul)) by (nonlinear_arith);
    vstd::arithmetic::div_mod::lemma_fundamental_div_mod(i, 8);
}

/// Two different multipliers along one direction reach two different squares.
proof fn lemma_step_to_injective(s: int, dr: int, df: int, a: int, b: int)
    requires
        -1 <= dr <= 1,
        -1 <= df <= 1,
        !(dr == 0 && df == 0),
        step_to(s, dr, df, a) == step_to(s, dr, df, b),
    ensures
        a == b,
{
    assert(a == b) by (nonlinear_arith)
        requires
            -1 <= dr <= 1,
            -1 <= df <= 1,
            !(dr == 0 && df == 0),
            (rank_of(s) + dr * a) * 8 + (file_of(s) + df * a) == (rank_of(s) + dr * b) * 8 + (
            file_of(s) + df * b),
    ;
}

/// A step by a nonzero direction never stays on its own square.
proof fn lemma_step_moves(s: int, dr: int, df: int, k: int)
    requires
        sq_valid(s),
        step_ok(s, dr, df, k),
        1 <= k,
        !(dr == 0 && df == 0),
        -2 <= dr <= 2,
        -2 <= df <= 2,
    ensures
        step_to(s, dr, df, k) != s,
{
    let r = rank_of(s);
    let f = file_of(s);
    lemma_rank_file_split(r + dr * k, f + df * k);
    vstd::arithmetic::div_mod::lemma_fundamental_div_mod(s, 8);
    if step_to(s, dr, df, k) == s {
        assert(dr * k == 0 && df * k == 0);
        assert(dr == 0 && df == 0) by (nonlinear_arith)
            requires
                dr * k == 0,
                df * k == 0,
                k >= 1,
        ;
        assert(false);
    }
}

/// A pseudo-legal move never starts and ends on the same square.
proof fn lemma_pl_start_ne_dest(p: Position, mask: Mask, m: ChessMove)
    requires
        pl(p, mask, m),
    ensures
        m.start.0 != m.dest.0,
{
    let s = m.start.0 as int;
    lemma_pl_bounds(p, mask, m);
    match p.grid[s] {
        Some(piece) => {
            let c = piece.color;
            match piece.piece_type {
                PieceType::Pawn => {
                    if pl_pawn_push1(p, c, s, m) {
                        lemma_step_moves(s, pawn_dir(c), 0, 1);
                    } else if pl_pawn_push2(p, c, s, m) {
                        lemma_step_moves(s, pawn_dir(c), 0, 2);
                    } else if pl_pawn_cap(p, c, s, -1, m) {
                        lemma_step_moves(s, pawn_dir(c), -1, 1);
                    } else if pl_pawn_cap(p, c, s, 1, m) {
                        lemma_step_moves(s, pawn_dir(c), 1, 1);
                    } else if pl_pawn_ep(p, c, s, -1, m) {
                        lemma_step_moves(s, pawn_dir(c), -1, 1);
                    } else {
                        assert(pl_pawn_ep(p, c, s, 1, m));
                        lemma_step_moves(s, pawn_dir(c), 1, 1);
                    }
                },
                PieceType::Knight => {
                    let (dr, df) = choose|dr: int, df: int|
                        knight_delta(dr, df) && #[trigger] pl_jump(p, c, s, dr, df, m);
                    lemma_step_moves(s, dr, df, 1);
                },
                PieceType::Bishop | PieceType::Rook | PieceType::Queen => {
                    let pt = piece.piece_type;
                    let (dr, df) = choose|dr: int, df: int|
                        slider_delta(pt, dr, df) && #[trigger] pl_ray(p, c, s, dr, df, m);
                    let k = choose|k: int|
                        1 <= k <= 7 && #[trigger] pl_ray_at(p, c, s, dr, df, k, m);
                    lemma_step_moves(s, dr, df, k);
                },
                PieceType::King => {
                    if exists|dr: int, df: int|
                        king_delta(dr, df) && #[trigger] pl_jump(p, c, s, dr, df, m) {
                        let (dr, df) = choose|dr: int, df: int|
                            king_delta(dr, df) && #[trigger] pl_jump(p, c, s, dr, df, m);
                        lemma_step_moves(s, dr, df, 1);
                    }
                },
            }
        },
        None => {
        },
    }
}

/// Sliding rays stop at the first occupied square: a ray move of length
/// `k` has every square before the destination empty, and when the
/// destination is occupied, the occupant belongs to the opponent.
pub proof fn lemma_ray_stops_at_blocker(
    p: Position,
    c: Color,
    s: int,
    dr: int,
    df: int,
    k: int,
    m: ChessMove,
)
    requires
        sq_valid(s),
        king_delta(dr, df),
        pl_ray(p, c, s, dr, df, m),
        1 <= k <= 7,
        step_ok(s, dr, df, k),
        m.dest.0 as int == step_to(s, dr, df, k),
    ensures
        ray_clear(p.grid, s, dr, df, k),
        p.grid[step_to(s, dr, df, k)] matches Some(q) ==> q.color == other(c),
{
    let k0 = choose|k0: int| 1 <= k0 <= 7 && #[trigger] pl_ray_at(p, c, s, dr, df, k0, m);
    assert(sq_valid(step_to(s, dr, df, k0)));
    assert(step_to(s, dr, df, k0) == step_to(s, dr, df, k));
    lemma_step_to_injective(s, dr, df, k0, k);
}

/// The first occupied square along a clear ray is reachable exactly when
/// the occupant belongs to the opponent.
pub proof fn lemma_ray_includes_blocker_iff(p: Position, c: Color, s: int, dr: int, df: int, k: int)
    requires
        sq_valid(s),
        king_delta(dr, df),
        1 <= k <= 7,
        step_ok(s, dr, df, k),
        ray_clear(p.grid, s, dr, df, k),
        p.grid[step_to(s, dr, df, k)] is Some,
    ensures
        pl_ray(p, c, s, dr, df, mk_move(s, step_to(s, dr, df, k), None::<PieceType>)) <==> (p.grid[
            step_to(s, dr, df, k)
        ] matches Some(q) && q.color == other(c)),
{
    let m = mk_move(s, step_to(s, dr, df, k), None::<PieceType>);
    if pl_ray(p, c, s, dr, df, m) {
        let k0 = choose|k0: int| 1 <= k0 <= 7 && #[trigger] pl_ray_at(p, c, s, dr, df, k0, m);
        assert(sq_valid(step_to(s, dr, df, k0)));
        assert(sq_valid(step_to(s, dr, df, k)));
        assert(step_to(s, dr, df, k0) == step_to(s, dr, df, k));
        lemma_step_to_injective(s, dr, df, k0, k);
    }
    if p.grid[step_to(s, dr, df, k)] matches Some(q) && q.color == other(c) {
        assert(pl_ray_at(p, c, s, dr, df, k, m));
    }
}

/// Knight moves never change file by more than two.
pub proof fn lemma_knight_file_distance(p: Position, mask: Mask, m: ChessMove)
    requires
        pl(p, mask, m),
        p.grid[m.start.0 as int] matches Some(q) && q.piece_type is Knight,
    ensures
        iabs(file_of(m.dest.0 as int) - file_of(m.start.0 as int)) <= 2,
{
    let s = m.start.0 as int;
    let piece = p.grid[s]->Some_0;
    let c = piece.color;
    let (dr, df) = choose|dr: int, df: int|
        knight_delta(dr, df) && #[trigger] pl_jump(p, c, s, dr, df, m);
    lemma_rank_file_split(rank_of(s) + dr * 1, file_of(s) + df * 1);
    assert(file_of(m.dest.0 as int) == file_of(s) + df);
}

/// Applying a pseudo-legal move empties the origin square and puts the
/// moved (or promoted) piece on the destination; an en passant capture
/// also empties the captured pawn's square.
pub proof fn lemma_apply_updates_squares(p: Position, mask: Mask, m: ChessMove)
    requires
        pos_wf(p),
        pl(p, mask, m),
    ensures
        apply_model(p, m).grid[m.start.0 as int] is None,
        apply_model(p, m).grid[m.dest.0 as int] == moved_piece(p.grid, m),
        is_ep_apply(p.grid, m) ==> apply_model(p, m).grid[ep_victim(p.grid, m)] is None,
{
    let s = m.start.0 as int;
    let d = m.dest.0 as int;
    lemma_pl_bounds(p, mask, m);
    lemma_pl_start_ne_dest(p, mask, m);
    let piece = p.grid[s]->Some_0;
    let c = piece.color;
    if is_ep_apply(p.grid, m) {
        // Only the en passant branches of the pawn rule produce a pawn
        // move onto an empty square of a different file.
        assert(piece.piece_type is Pawn);
        vstd::arithmetic::div_mod::lemma_fundamental_div_mod(s, 8);
        if pl_pawn_push1(p, c, s, m) {
            lemma_rank_file_split(rank_of(s) + pawn_dir(c) * 1, file_of(s) + 0 * 1);
            assert(false);
        } else if pl_pawn_push2(p, c, s, m) {
            lemma_rank_file_split(rank_of(s) + pawn_dir(c) * 2, file_of(s) + 0 * 2);
            assert(false);
        } else if pl_pawn_cap(p, c, s, -1, m) {
            assert(false);
        } else if pl_pawn_cap(p, c, s, 1, m) {
            assert(false);
        } else {
            let df: int = if pl_pawn_ep(p, c, s, -1, m) {
                -1
            } else {
                1
            };
            assert(pl_pawn_ep(p, c, s, df, m));
            lemma_rank_file_split(rank_of(s) + pawn_dir(c) * 1, file_of(s) + df * 1);
            assert(rank_of(d) == rank_of(s) + pawn_dir(c));
            assert(file_of(d) == file_of(s) + df);
            assert(ep_victim(p.grid, m) == rank_of(s) * 8 + (file_of(s) + df));
            assert(sq_valid(ep_victim(p.grid, m)));
            assert(ep_victim(p.grid, m) != s);
            assert(ep_victim(p.grid, m) != d);
        }
    }
}

/// Castling moves king and rook in one application and marks both the
/// king and the castling rook as moved, for either color and wing.
pub proof fn lemma_castle_apply(p: Position, c: Color, kingside: bool, m: ChessMove)
    requires
        pos_wf(p),
        pl_castle(p, c, king_home(c), kingside, m),
        p.grid[king_home(c)] == Some(Piece { piece_type: PieceType::King, color: c }),
    ensures
        apply_model(p, m).grid[castle_target(c, kingside)] == Some(
            Piece { piece_type: PieceType::King, color: c },
        ),
        apply_model(p, m).grid[rook_castle_to(c, kingside)] == p.grid[rook_home(c, kingside)],
        apply_model(p, m).grid[king_home(c)] is None,
        apply_model(p, m).grid[rook_home(c, kingside)] is None,
        rights_of(apply_model(p, m), c).king_moved,
        kingside ==> rights_of(apply_model(p, m), c).kingside_rook_moved,
        !kingside ==> rights_of(apply_model(p, m), c).queenside_rook_moved,
{
}

/// A move that would let some opponent pseudo-legal reply land on a king
/// is never legal.
pub proof fn lemma_filter_excludes_exposed(p: Position, c: Color, m: ChessMove)
    requires
        legal_for(p, c, m),
    ensures
        !exposes_king(p, c, m),
{
}

/// A pawn move that lands on the farthest rank always carries the
/// position's configured promotion kind.
pub proof fn lemma_promotion_carried(p: Position, mask: Mask, m: ChessMove)
    requires
        pl(p, mask, m),
        p.grid[m.start.0 as int] matches Some(q) && q.piece_type is Pawn,
        rank_of(m.dest.0 as int) == last_rank(p.grid[m.start.0 as int]->Some_0.color),
    ensures
        m.promo == Some(p.promo),
{
    let s = m.start.0 as int;
    let piece = p.grid[s]->Some_0;
    let c = piece.color;
    if pl_pawn_push1(p, c, s, m) {
        lemma_rank_file_split(rank_of(s) + pawn_dir(c) * 1, file_of(s) + 0 * 1);
    } else if pl_pawn_push2(p, c, s, m) {
        lemma_rank_file_split(rank_of(s) + pawn_dir(c) * 2, file_of(s) + 0 * 2);
        assert(false);
    } else if pl_pawn_cap(p, c, s, -1, m) {
        lemma_rank_file_split(rank_of(s) + pawn_dir(c) * 1, file_of(s) + (-1) * 1);
    } else if pl_pawn_cap(p, c, s, 1, m) {
        lemma_rank_file_split(rank_of(s) + pawn_dir(c) * 1, file_of(s) + 1 * 1);
    } else if pl_pawn_ep(p, c, s, -1, m) {
        lemma_rank_file_split(rank_of(s) + pawn_dir(c) * 1, file_of(s) + (-1) * 1);
        assert(false);
    } else {
        assert(pl_pawn_ep(p, c, s, 1, m));
        lemma_rank_file_split(rank_of(s) + pawn_dir(c) * 1, file_of(s) + 1 * 1);
        assert(false);
    }
}

} // verus!
