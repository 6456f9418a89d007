use vstd::prelude::*;

use crate::board::{cell_after_move, on_board, Board};
use crate::piece::{Color, PieceType};

verus! {

/// A request to move the piece on `from` to `to`; both are (row, column) pairs.
#[derive(Copy, Clone, Debug)]
pub struct ChessMove {
    pub from: (usize, usize),
    pub to: (usize, usize),
}

/// The absolute value of `x`.
pub open spec fn abs(x: int) -> int {
    if x < 0 {
        -x
    } else {
        x
    }
}

/// -1, 0 or 1 as `x` is negative, zero or positive.
pub open spec fn sign(x: int) -> int {
    if x > 0 {
        1
    } else if x < 0 {
        -1
    } else {
        0
    }
}

/// `x` moved `k` steps in direction `d` (one of -1, 0, 1).
pub open spec fn step(x: int, d: int, k: int) -> int {
    if d > 0 {
        x + k
    } else if d < 0 {
        x - k
    } else {
        x
    }
}

/// The number of king steps along a line from (r, c) to (nr, nc).
pub open spec fn distance(r: int, c: int, nr: int, nc: int) -> int {
    if abs(nr - r) >= abs(nc - c) {
        abs(nr - r)
    } else {
        abs(nc - c)
    }
}

/// (nr, nc) holds a piece of the side opposite to the piece on (r, c).
pub open spec fn hostile(b: Board, r: int, c: int, nr: int, nc: int) -> bool {
    &&& b.cell(r, c) is Some
    &&& b.cell(nr, nc) is Some
    &&& b.cell(nr, nc)->Some_0.color != b.cell(r, c)->Some_0.color
}

/// The piece on (r, c) may land on (nr, nc): it is empty or holds an opposing piece.
pub open spec fn open_for(b: Board, r: int, c: int, nr: int, nc: int) -> bool {
    b.cell(nr, nc) is None || hostile(b, r, c, nr, nc)
}

/// The row step of a pawn of side `color`.
pub open spec fn forward(color: Color) -> int {
    match color {
        Color::White => 1,
        Color::Black => -1,
    }
}

/// A pawn on (r, c) steps forward onto an empty square, or diagonally forward onto an
/// opposing piece.
pub open spec fn pawn_reaches(b: Board, r: int, c: int, nr: int, nc: int) -> bool {
    &&& b.cell(r, c) is Some
    &&& on_board(nr, nc)
    &&& nr == r + forward(b.cell(r, c)->Some_0.color)
    &&& ((nc == c && b.cell(nr, nc) is None) || ((nc == c - 1 || nc == c + 1) && hostile(
        b,
        r,
        c,
        nr,
        nc,
    )))
}

/// (dr, dc) is one of the eight knight offsets.
pub open spec fn is_knight_jump(dr: int, dc: int) -> bool {
    (abs(dr) == 1 && abs(dc) == 2) || (abs(dr) == 2 && abs(dc) == 1)
}

/// (dr, dc) is one of the eight neighbouring offsets.
pub open spec fn is_king_step(dr: int, dc: int) -> bool {
    abs(dr) <= 1 && abs(dc) <= 1 && !(dr == 0 && dc == 0)
}

/// A knight or king on (r, c) jumps to (nr, nc): a fixed offset, on the board, not onto
/// a friendly piece.
pub open spec fn leaps_to(b: Board, r: int, c: int, nr: int, nc: int, knight: bool) -> bool {
    &&& on_board(nr, nc)
    &&& if knight {
        is_knight_jump(nr - r, nc - c)
    } else {
        is_king_step(nr - r, nc - c)
    }
    &&& open_for(b, r, c, nr, nc)
}

/// (nr, nc) lies on a rank or file through (r, c) (`orth`), or on a diagonal (`diag`).
pub open spec fn on_line(r: int, c: int, nr: int, nc: int, orth: bool, diag: bool) -> bool {
    (orth && ((r == nr) != (c == nc))) || (diag && nr != r && abs(nr - r) == abs(nc - c))
}

/// Every square strictly between (r, c) and (nr, nc) on their line is empty.
pub open spec fn path_clear(b: Board, r: int, c: int, nr: int, nc: int) -> bool {
    forall|j: int|
        0 < j < distance(r, c, nr, nc) ==> (#[trigger] b.cell(
            step(r, sign(nr - r), j),
            step(c, sign(nc - c), j),
        )) is None
}

/// A sliding piece on (r, c) reaches (nr, nc) along an unobstructed line.
pub open spec fn slides_to(b: Board, r: int, c: int, nr: int, nc: int, orth: bool, diag: bool) -> bool {
    &&& on_board(nr, nc)
    &&& on_line(r, c, nr, nc, orth, diag)
    &&& path_clear(b, r, c, nr, nc)
    &&& open_for(b, r, c, nr, nc)
}

/// The movement rule of `kind`, applied to the piece standing on (r, c).
pub open spec fn follows_rule(b: Board, r: int, c: int, nr: int, nc: int, kind: PieceType) -> bool {
    match kind {
        PieceType::Pawn => pawn_reaches(b, r, c, nr, nc),
        PieceType::Knight => leaps_to(b, r, c, nr, nc, true),
        PieceType::King => leaps_to(b, r, c, nr, nc, false),
        PieceType::Rook => slides_to(b, r, c, nr, nc, true, false),
        PieceType::Bishop => slides_to(b, r, c, nr, nc, false, true),
        PieceType::Queen => slides_to(b, r, c, nr, nc, true, true),
    }
}

/// The piece on (r, c) may move to (nr, nc) under its kind's rule.
pub open spec fn reaches(b: Board, r: int, c: int, nr: int, nc: int) -> bool {
    b.cell(r, c) is Some && follows_rule(b, r, c, nr, nc, b.cell(r, c)->Some_0.piece_type)
}

/// `m` starts on (r, c) and ends on (nr, nc).
pub open spec fn move_between(m: ChessMove, r: int, c: int, nr: int, nc: int) -> bool {
    m.from.0 == r && m.from.1 == c && m.to.0 == nr && m.to.1 == nc
}

/// `moves` lists each destination allowed by `kind`'s rule for the piece on (r, c)
/// exactly once, and nothing else.
pub open spec fn lists_exactly(moves: Seq<ChessMove>, b: Board, r: int, c: int, kind: PieceType) -> bool {
    &&& forall|i: int|
        0 <= i < moves.len() ==> (#[trigger] moves[i]).from.0 == r && moves[i].from.1 == c && follows_rule(
            b,
            r,
            c,
            moves[i].to.0 as int,
            moves[i].to.1 as int,
            kind,
        )
    &&& forall|nr: int, nc: int|
        #[trigger] follows_rule(b, r, c, nr, nc, kind) ==> exists|i: int|
            0 <= i < moves.len() && move_between(#[trigger] moves[i], r, c, nr, nc)
    &&& forall|i: int, j: int|
        0 <= i < j < moves.len() ==> (#[trigger] moves[i]).to != (#[trigger] moves[j]).to
}

/// Both coordinates lie in [0, 7].
pub fn in_bounds(r: isize, c: isize) -> (b: bool)
    ensures
        b == on_board(r as int, c as int),
{
    r >= 0 && r < 8 && c >= 0 && c < 8
}

/// The square (nr, nc) is on the board and holds a piece opposing the one on (r, c).
fn hostile_at(board: &Board, r: usize, c: usize, nr: isize, nc: isize) -> (h: bool)
    requires
        r < 8,
        c < 8,
        board.cell(r as int, c as int) is Some,
    ensures
        h == (on_board(nr as int, nc as int) && hostile(*board, r as int, c as int, nr as int, nc as int)),
{
    if !in_bounds(nr, nc) {
        return false;
    }
    let me = board.get(r, c).unwrap();
    match board.get(nr as usize, nc as usize) {
        Some(target) => target.color != me.color,
        None => false,
    }
}

/// The square (nr, nc) is on the board and the piece on (r, c) may land there.
fn open_at(board: &Board, r: usize, c: usize, nr: isize, nc: isize) -> (o: bool)
    requires
        r < 8,
        c < 8,
        board.cell(r as int, c as int) is Some,
    ensures
        o == (on_board(nr as int, nc as int) && open_for(*board, r as int, c as int, nr as int, nc as int)),
{
    if !in_bounds(nr, nc) {
        return false;
    }
    board.get(nr as usize, nc as usize).is_none() || hostile_at(board, r, c, nr, nc)
}

/// The moves of the pawn on (r, c): one step forward onto an empty square, and a
/// diagonal step forward onto each opposing piece.
pub fn pawn_moves(board: &Board, r: usize, c: usize) -> (moves: Vec<ChessMove>)
    requires
        r < 8,
        c < 8,
        board.cell(r as int, c as int) is Some,
    ensures
        lists_exactly(moves@, *board, r as int, c as int, PieceType::Pawn),
{
    let mut moves: Vec<ChessMove> = Vec::new();
    let piece = board.get(r, c).unwrap();
    let dir: isize = if piece.color == Color::White { 1 } else { -1 };
    let nr = r as isize + dir;
    let ghost b = *board;
    let ghost (ri, ci) = (r as int, c as int);
    if in_bounds(nr, c as isize) && board.get(nr as usize, c).is_none() {
        moves.push(ChessMove { from: (r, c), to: (nr as usize, c) });
    }
    let n0 = moves.len();
    let left = c as isize - 1;
    if hostile_at(board, r, c, nr, left) {
        moves.push(ChessMove { from: (r, c), to: (nr as usize, left as usize) });
    }
    let n1 = moves.len();
    let right = c as isize + 1;
    if hostile_at(board, r, c, nr, right) {
        moves.push(ChessMove { from: (r, c), to: (nr as usize, right as usize) });
    }
    proof {
        assert forall|tr: int, tc: int| #[trigger] follows_rule(b, ri, ci, tr, tc, PieceType::Pawn) implies exists|i: int|
            0 <= i < moves.len() && move_between(#[trigger] moves@[i], ri, ci, tr, tc) by {
            if tc == ci {
                assert(move_between(moves@[0], ri, ci, tr, tc));
            } else if tc == ci - 1 {
                assert(move_between(moves@[n0 as int], ri, ci, tr, tc));
            } else {
                assert(move_between(moves@[n1 as int], ri, ci, tr, tc));
            }
        }
    }
    moves
}

/// The i-th jump of a knight (`knight`) or king step, as (row, column) offsets.
pub open spec fn leap_offset(knight: bool, i: int) -> (int, int) {
    if knight {
        if i == 0 { (2, 1) } else if i == 1 { (2, -1) } else if i == 2 { (-2, 1) } else if i == 3 {
            (-2, -1)
        } else if i == 4 { (1, 2) } else if i == 5 { (1, -2) } else if i == 6 { (-1, 2) } else { (-1, -2) }
    } else {
        if i == 0 { (1, 0) } else if i == 1 { (-1, 0) } else if i == 2 { (0, 1) } else if i == 3 {
            (0, -1)
        } else if i == 4 { (1, 1) } else if i == 5 { (-1, 1) } else if i == 6 { (1, -1) } else { (-1, -1) }
    }
}

/// The position of offset (dr, dc) in `leap_offset`'s table; 8 where it is none of them.
pub open spec fn leap_index(knight: bool, dr: int, dc: int) -> int {
    if exists|i: int| 0 <= i < 8 && leap_offset(knight, i) == (dr, dc) {
        choose|i: int| 0 <= i < 8 && leap_offset(knight, i) == (dr, dc)
    } else {
        8
    }
}

/// Each jump of the table occurs in it once, and the table holds every jump.
proof fn lemma_leap_table(knight: bool, dr: int, dc: int)
    ensures
        (if knight { is_knight_jump(dr, dc) } else { is_king_step(dr, dc) }) <==> exists|i: int|
            0 <= i < 8 && leap_offset(knight, i) == (dr, dc),
        forall|i: int, j: int|
            0 <= i < 8 && 0 <= j < 8 && leap_offset(knight, i) == (dr, dc) && leap_offset(knight, j) == (dr, dc)
                ==> i == j,
{
    if knight && is_knight_jump(dr, dc) || !knight && is_king_step(dr, dc) {
        let i: int = if dr == leap_offset(knight, 0).0 && dc == leap_offset(knight, 0).1 { 0 }
            else if dr == leap_offset(knight, 1).0 && dc == leap_offset(knight, 1).1 { 1 }
            else if dr == leap_offset(knight, 2).0 && dc == leap_offset(knight, 2).1 { 2 }
            else if dr == leap_offset(knight, 3).0 && dc == leap_offset(knight, 3).1 { 3 }
            else if dr == leap_offset(knight, 4).0 && dc == leap_offset(knight, 4).1 { 4 }
            else if dr == leap_offset(knight, 5).0 && dc == leap_offset(knight, 5).1 { 5 }
            else if dr == leap_offset(knight, 6).0 && dc == leap_offset(knight, 6).1 { 6 }
            else { 7 };
        assert(leap_offset(knight, i) == (dr, dc));
    }
}

/// The i-th entry of `leap_offset`'s table.
fn leap_offset_exec(knight: bool, i: usize) -> (d: (isize, isize))
    requires
        i < 8,
    ensures
        (d.0 as int, d.1 as int) == leap_offset(knight, i as int),
{
    let knight_table: [(isize, isize); 8] = [(2, 1), (2, -1), (-2, 1), (-2, -1), (1, 2), (1, -2), (-1, 2), (-1, -2)];
    let king_table: [(isize, isize); 8] = [(1, 0), (-1, 0), (0, 1), (0, -1), (1, 1), (-1, 1), (1, -1), (-1, -1)];
    if knight {
        knight_table[i]
    } else {
        king_table[i]
    }
}

/// The jumps of a knight (`knight`) or the steps of a king on (r, c) that land on the board
/// and on no friendly piece.
fn leap_moves(board: &Board, r: usize, c: usize, knight: bool) -> (moves: Vec<ChessMove>)
    requires
        r < 8,
        c < 8,
        board.cell(r as int, c as int) is Some,
    ensures
        forall|i: int|
            0 <= i < moves@.len() ==> (#[trigger] moves@[i]).from.0 == r && moves@[i].from.1 == c
                && leaps_to(*board, r as int, c as int, moves@[i].to.0 as int, moves@[i].to.1 as int, knight),
        forall|nr: int, nc: int|
            #[trigger] leaps_to(*board, r as int, c as int, nr, nc, knight) ==> exists|i: int|
                0 <= i < moves@.len() && move_between(#[trigger] moves@[i], r as int, c as int, nr, nc),
        forall|i: int, j: int|
            0 <= i < j < moves@.len() ==> (#[trigger] moves@[i]).to != (#[trigger] moves@[j]).to,
{
    let ghost (b, ri, ci) = (*board, r as int, c as int);
    let mut moves: Vec<ChessMove> = Vec::new();
    let mut k: usize = 0;
    while k < 8
        invariant
            k <= 8,
            r < 8,
            c < 8,
            b == *board,
            ri == r,
            ci == c,
            board.cell(ri, ci) is Some,
            forall|i: int|
                0 <= i < moves@.len() ==> (#[trigger] moves@[i]).from.0 == r && moves@[i].from.1 == c
                    && leaps_to(b, ri, ci, moves@[i].to.0 as int, moves@[i].to.1 as int, knight)
                    && leap_index(knight, moves@[i].to.0 - ri, moves@[i].to.1 - ci) < k,
            forall|nr: int, nc: int|
                #[trigger] leaps_to(b, ri, ci, nr, nc, knight) && leap_index(knight, nr - ri, nc - ci) < k
                    ==> exists|i: int| 0 <= i < moves@.len() && move_between(#[trigger] moves@[i], ri, ci, nr, nc),
            forall|i: int, j: int|
                0 <= i < j < moves@.len() ==> (#[trigger] moves@[i]).to != (#[trigger] moves@[j]).to,
        decreases 8 - k,
    {
        let (dr, dc) = leap_offset_exec(knight, k);
        let nr = r as isize + dr;
        let nc = c as isize + dc;
        proof {
            lemma_leap_table(knight, dr as int, dc as int);
            assert(leap_index(knight, dr as int, dc as int) == k);
        }
        let ghost old_moves = moves@;
        if open_at(board, r, c, nr, nc) {
            moves.push(ChessMove { from: (r, c), to: (nr as usize, nc as usize) });
            proof {
                assert forall|i: int| 0 <= i < old_moves.len() implies (#[trigger] moves@[i]).to != moves@[
                    old_moves.len() as int
                ].to by {
                    assert(leap_index(knight, moves@[i].to.0 - ri, moves@[i].to.1 - ci) < k);
                }
            }
        }
        proof {
            assert forall|tr: int, tc: int|
                #[trigger] leaps_to(b, ri, ci, tr, tc, knight) && leap_index(knight, tr - ri, tc - ci) < k + 1
                    implies exists|i: int| 0 <= i < moves@.len() && move_between(#[trigger] moves@[i], ri, ci, tr, tc) by {
                lemma_leap_table(knight, tr - ri, tc - ci);
                if leap_index(knight, tr - ri, tc - ci) == k {
                    assert(move_between(moves@[moves@.len() - 1], ri, ci, tr, tc));
                } else {
                    let i = choose|i: int| 0 <= i < old_moves.len() && move_between(old_moves[i], ri, ci, tr, tc);
                    assert(move_between(moves@[i], ri, ci, tr, tc));
                }
            }
        }
        k = k + 1;
    }
    proof {
        assert forall|tr: int, tc: int| #[trigger] leaps_to(b, ri, ci, tr, tc, knight) implies leap_index(
            knight,
            tr - ri,
            tc - ci,
        ) < 8 by {
            lemma_leap_table(knight, tr - ri, tc - ci);
        }
    }
    moves
}

/// The position in the king-step table of the direction from (r, c) towards (nr, nc).
pub open spec fn ray_index(r: int, c: int, nr: int, nc: int) -> int {
    leap_index(false, sign(nr - r), sign(nc - c))
}

/// A square on a line through (r, c) is `distance` steps away in the direction of its signs.
proof fn lemma_on_line(r: int, c: int, nr: int, nc: int, orth: bool, diag: bool)
    requires
        on_line(r, c, nr, nc, orth, diag),
    ensures
        distance(r, c, nr, nc) >= 1,
        nr == step(r, sign(nr - r), distance(r, c, nr, nc)),
        nc == step(c, sign(nc - c), distance(r, c, nr, nc)),
        0 <= ray_index(r, c, nr, nc) < 8,
        leap_offset(false, ray_index(r, c, nr, nc)) == (sign(nr - r), sign(nc - c)),
        ray_index(r, c, nr, nc) < 4 ==> orth,
        ray_index(r, c, nr, nc) >= 4 ==> diag,
{
    lemma_leap_table(false, sign(nr - r), sign(nc - c));
}

/// The square `k` steps from (r, c) in the d-th direction of the king-step table lies on
/// that ray, `k` steps away.
proof fn lemma_ray_square(r: int, c: int, d: int, k: int)
    requires
        0 <= d < 8,
        k >= 1,
    ensures
        ({
            let (dr, dc) = leap_offset(false, d);
            let tr = step(r, dr, k);
            let tc = step(c, dc, k);
            &&& sign(tr - r) == dr
            &&& sign(tc - c) == dc
            &&& distance(r, c, tr, tc) == k
            &&& ray_index(r, c, tr, tc) == d
            &&& on_line(r, c, tr, tc, d < 4, d >= 4)
        }),
{
    let (dr, dc) = leap_offset(false, d);
    lemma_leap_table(false, dr, dc);
}

/// The moves of a sliding piece on (r, c) along ranks and files (`orth`) and diagonals (`diag`).
fn sliding_moves(board: &Board, r: usize, c: usize, orth: bool, diag: bool) -> (moves: Vec<ChessMove>)
    requires
        r < 8,
        c < 8,
        board.cell(r as int, c as int) is Some,
    ensures
        forall|i: int|
            0 <= i < moves@.len() ==> (#[trigger] moves@[i]).from.0 == r && moves@[i].from.1 == c
                && slides_to(*board, r as int, c as int, moves@[i].to.0 as int, moves@[i].to.1 as int, orth, diag),
        forall|nr: int, nc: int|
            #[trigger] slides_to(*board, r as int, c as int, nr, nc, orth, diag) ==> exists|i: int|
                0 <= i < moves@.len() && move_between(#[trigger] moves@[i], r as int, c as int, nr, nc),
        forall|i: int, j: int|
            0 <= i < j < moves@.len() ==> (#[trigger] moves@[i]).to != (#[trigger] moves@[j]).to,
{
    let ghost (b, ri, ci) = (*board, r as int, c as int);
    let mut moves: Vec<ChessMove> = Vec::new();
    let mut d: usize = 0;
    while d < 8
        invariant
            d <= 8,
            r < 8,
            c < 8,
            b == *board,
            ri == r,
            ci == c,
            board.cell(ri, ci) is Some,
            forall|i: int|
                0 <= i < moves@.len() ==> (#[trigger] moves@[i]).from.0 == r && moves@[i].from.1 == c
                    && slides_to(b, ri, ci, moves@[i].to.0 as int, moves@[i].to.1 as int, orth, diag)
                    && ray_index(ri, ci, moves@[i].to.0 as int, moves@[i].to.1 as int) < d,
            forall|nr: int, nc: int|
                #[trigger] slides_to(b, ri, ci, nr, nc, orth, diag) && ray_index(ri, ci, nr, nc) < d
                    ==> exists|i: int| 0 <= i < moves@.len() && move_between(#[trigger] moves@[i], ri, ci, nr, nc),
            forall|i: int, j: int|
                0 <= i < j < moves@.len() ==> (#[trigger] moves@[i]).to != (#[trigger] moves@[j]).to,
        decreases 8 - d,
    {
        let (dr, dc) = leap_offset_exec(false, d);
        let allowed = if d < 4 { orth } else { diag };
        if allowed {
            let mut nr: isize = r as isize + dr;
            let mut nc: isize = c as isize + dc;
            let mut k: usize = 1;
            let mut blocked = false;
            while !blocked && in_bounds(nr, nc)
                invariant
                    d < 8,
                    r < 8,
                    c < 8,
                    b == *board,
                    ri == r,
                    ci == c,
                    board.cell(ri, ci) is Some,
                    (dr as int, dc as int) == leap_offset(false, d as int),
                    if d < 4 { orth } else { diag },
                    1 <= k <= 8,
                    nr == step(ri, dr as int, k as int),
                    nc == step(ci, dc as int, k as int),
                    blocked ==> on_board(nr as int, nc as int) && b.cell(nr as int, nc as int) is Some,
                    forall|j: int|
                        0 < j < k ==> (#[trigger] b.cell(step(ri, dr as int, j), step(ci, dc as int, j))) is None,
                    forall|i: int|
                        0 <= i < moves@.len() ==> (#[trigger] moves@[i]).from.0 == r && moves@[i].from.1 == c
                            && slides_to(b, ri, ci, moves@[i].to.0 as int, moves@[i].to.1 as int, orth, diag)
                            && (ray_index(ri, ci, moves@[i].to.0 as int, moves@[i].to.1 as int) < d
                            || (ray_index(ri, ci, moves@[i].to.0 as int, moves@[i].to.1 as int) == d
                            && (distance(ri, ci, moves@[i].to.0 as int, moves@[i].to.1 as int) < k
                            || (blocked && distance(ri, ci, moves@[i].to.0 as int, moves@[i].to.1 as int) == k)))),
                    forall|tr: int, tc: int|
                        #[trigger] slides_to(b, ri, ci, tr, tc, orth, diag) && (ray_index(ri, ci, tr, tc) < d || (
                        ray_index(ri, ci, tr, tc) == d && (distance(ri, ci, tr, tc) < k || (blocked && distance(
                            ri,
                            ci,
                            tr,
                            tc,
                        ) == k)))) ==> exists|i: int|
                            0 <= i < moves@.len() && move_between(#[trigger] moves@[i], ri, ci, tr, tc),
                    forall|i: int, j: int|
                        0 <= i < j < moves@.len() ==> (#[trigger] moves@[i]).to != (#[trigger] moves@[j]).to,
                decreases 2 * (9 - k) + if blocked { 0int } else { 1int },
            {
                let ghost old_moves = moves@;
                proof {
                    lemma_ray_square(ri, ci, d as int, k as int);
                    assert(path_clear(b, ri, ci, nr as int, nc as int));
                }
                let free = board.get(nr as usize, nc as usize).is_none();
                let take = free || hostile_at(board, r, c, nr, nc);
                if take {
                    moves.push(ChessMove { from: (r, c), to: (nr as usize, nc as usize) });
                    proof {
                        assert forall|i: int| 0 <= i < old_moves.len() implies (#[trigger] moves@[i]).to
                            != moves@[old_moves.len() as int].to by {
                            assert(ray_index(ri, ci, moves@[i].to.0 as int, moves@[i].to.1 as int) <= d);
                        }
                    }
                }
                proof {
                    assert forall|tr: int, tc: int|
                        #[trigger] slides_to(b, ri, ci, tr, tc, orth, diag) && (ray_index(ri, ci, tr, tc) < d || (
                        ray_index(ri, ci, tr, tc) == d && distance(ri, ci, tr, tc) <= k)) implies exists|i: int|
                            0 <= i < moves@.len() && move_between(#[trigger] moves@[i], ri, ci, tr, tc) by {
                        lemma_on_line(ri, ci, tr, tc, orth, diag);
                        if ray_index(ri, ci, tr, tc) == d && distance(ri, ci, tr, tc) == k {
                            assert(move_between(moves@[moves@.len() - 1], ri, ci, tr, tc));
                        } else {
                            let i = choose|i: int| 0 <= i < old_moves.len() && move_between(old_moves[i], ri, ci, tr, tc);
                            assert(move_between(moves@[i], ri, ci, tr, tc));
                        }
                    }
                }
                if free {
                    nr = nr + dr;
                    nc = nc + dc;
                    k = k + 1;
                } else {
                    blocked = true;
                }
            }
            proof {
                assert forall|tr: int, tc: int|
                    #[trigger] slides_to(b, ri, ci, tr, tc, orth, diag) && ray_index(ri, ci, tr, tc) == d
                        implies exists|i: int| 0 <= i < moves@.len() && move_between(#[trigger] moves@[i], ri, ci, tr, tc) by {
                    lemma_on_line(ri, ci, tr, tc, orth, diag);
                    if blocked && distance(ri, ci, tr, tc) > k {
                        assert(b.cell(step(ri, sign(tr - ri), k as int), step(ci, sign(tc - ci), k as int)) is None);
                    }
                }
            }
        } else {
            proof {
                assert forall|tr: int, tc: int|
                    #[trigger] slides_to(b, ri, ci, tr, tc, orth, diag) implies ray_index(ri, ci, tr, tc) != d by {
                    lemma_on_line(ri, ci, tr, tc, orth, diag);
                }
            }
        }
        d = d + 1;
    }
    proof {
        assert forall|tr: int, tc: int| #[trigger] slides_to(b, ri, ci, tr, tc, orth, diag) implies ray_index(
            ri,
            ci,
            tr,
            tc,
        ) < 8 by {
            lemma_on_line(ri, ci, tr, tc, orth, diag);
        }
    }
    moves
}

/// The moves of the piece on (r, c) under the rook's rule: along its rank and file.
pub fn rook_moves(board: &Board, r: usize, c: usize) -> (moves: Vec<ChessMove>)
    requires
        r < 8,
        c < 8,
        board.cell(r as int, c as int) is Some,
    ensures
        lists_exactly(moves@, *board, r as int, c as int, PieceType::Rook),
{
    sliding_moves(board, r, c, true, false)
}

/// The moves of the piece on (r, c) under the bishop's rule: along its diagonals.
pub fn bishop_moves(board: &Board, r: usize, c: usize) -> (moves: Vec<ChessMove>)
    requires
        r < 8,
        c < 8,
        board.cell(r as int, c as int) is Some,
    ensures
        lists_exactly(moves@, *board, r as int, c as int, PieceType::Bishop),
{
    sliding_moves(board, r, c, false, true)
}

/// The moves of the piece on (r, c) under the queen's rule: along its rank, file and diagonals.
pub fn queen_moves(board: &Board, r: usize, c: usize) -> (moves: Vec<ChessMove>)
    requires
        r < 8,
        c < 8,
        board.cell(r as int, c as int) is Some,
    ensures
        lists_exactly(moves@, *board, r as int, c as int, PieceType::Queen),
{
    sliding_moves(board, r, c, true, true)
}

/// The moves of the piece on (r, c) under the knight's rule.
pub fn knight_moves(board: &Board, r: usize, c: usize) -> (moves: Vec<ChessMove>)
    requires
        r < 8,
        c < 8,
        board.cell(r as int, c as int) is Some,
    ensures
        lists_exactly(moves@, *board, r as int, c as int, PieceType::Knight),
{
    leap_moves(board, r, c, true)
}

/// The moves of the piece on (r, c) under the king's rule: one step in any direction.
pub fn king_moves(board: &Board, r: usize, c: usize) -> (moves: Vec<ChessMove>)
    requires
        r < 8,
        c < 8,
        board.cell(r as int, c as int) is Some,
    ensures
        lists_exactly(moves@, *board, r as int, c as int, PieceType::King),
{
    leap_moves(board, r, c, false)
}

/// Every destination of the piece on (r, c), each once; none for an empty square.
pub fn generate_moves(board: &Board, r: usize, c: usize) -> (moves: Vec<ChessMove>)
    requires
        r < 8,
        c < 8,
    ensures
        board.cell(r as int, c as int) is None ==> moves@.len() == 0,
        board.cell(r as int, c as int) is Some ==> lists_exactly(
            moves@,
            *board,
            r as int,
            c as int,
            board.cell(r as int, c as int)->Some_0.piece_type,
        ),
{
    let piece = match board.get(r, c) {
        Some(p) => p,
        None => return Vec::new(),
    };
    match piece.piece_type {
        PieceType::Pawn => pawn_moves(board, r, c),
        PieceType::Rook => rook_moves(board, r, c),
        PieceType::Bishop => bishop_moves(board, r, c),
        PieceType::Queen => queen_moves(board, r, c),
        PieceType::Knight => knight_moves(board, r, c),
        PieceType::King => king_moves(board, r, c),
    }
}

/// The move's destination is among those generated for the piece on its source square.
pub fn is_legal_move(board: &Board, mv: &ChessMove) -> (legal: bool)
    requires
        mv.from.0 < 8,
        mv.from.1 < 8,
    ensures
        legal == reaches(*board, mv.from.0 as int, mv.from.1 as int, mv.to.0 as int, mv.to.1 as int),
{
    let moves = generate_moves(board, mv.from.0, mv.from.1);
    let mut i: usize = 0;
    while i < moves.len()
        invariant
            i <= moves@.len(),
            mv.from.0 < 8,
            mv.from.1 < 8,
            board.cell(mv.from.0 as int, mv.from.1 as int) is None ==> moves@.len() == 0,
            board.cell(mv.from.0 as int, mv.from.1 as int) is Some ==> lists_exactly(
                moves@,
                *board,
                mv.from.0 as int,
                mv.from.1 as int,
                board.cell(mv.from.0 as int, mv.from.1 as int)->Some_0.piece_type,
            ),
            forall|j: int| 0 <= j < i ==> (#[trigger] moves@[j]).to.0 != mv.to.0 || moves@[j].to.1 != mv.to.1,
        decreases moves.len() - i,
    {
        if moves[i].to.0 == mv.to.0 && moves[i].to.1 == mv.to.1 {
            assert(moves@[i as int].from.0 == mv.from.0);
            return true;
        }
        i = i + 1;
    }
    false
}

/// `x` lies strictly between `a` and `b`.
pub open spec fn strictly_inside(a: int, x: int, b: int) -> bool {
    (a < x < b) || (b < x < a)
}

/// (i, j) lies strictly between (r, c) and (nr, nc) on the rank, file or diagonal that
/// joins them.
pub open spec fn strictly_between(r: int, c: int, nr: int, nc: int, i: int, j: int) -> bool {
    ||| (r == nr && i == r && strictly_inside(c, j, nc))
    ||| (c == nc && j == c && strictly_inside(r, i, nr))
    ||| (abs(nr - r) == abs(nc - c) && abs(i - r) == abs(j - c) && strictly_inside(r, i, nr)
        && strictly_inside(c, j, nc))
}

/// An empty square has no destination, so no move from it is legal.
pub proof fn empty_square_has_no_moves(b: Board, r: int, c: int, nr: int, nc: int)
    requires
        b.cell(r, c) is None,
    ensures
        !reaches(b, r, c, nr, nc),
{
}

/// A rook, bishop or queen only reaches squares on a line through its own square, with every
/// square strictly between the two empty.
pub proof fn sliding_path_unobstructed(b: Board, r: int, c: int, nr: int, nc: int)
    requires
        reaches(b, r, c, nr, nc),
        b.cell(r, c)->Some_0.piece_type != PieceType::Pawn,
        b.cell(r, c)->Some_0.piece_type != PieceType::Knight,
        b.cell(r, c)->Some_0.piece_type != PieceType::King,
    ensures
        (nr, nc) != (r, c),
        nr == r || nc == c || abs(nr - r) == abs(nc - c),
        forall|i: int, j: int| #[trigger] strictly_between(r, c, nr, nc, i, j) ==> b.cell(i, j) is None,
{
    let kind = b.cell(r, c)->Some_0.piece_type;
    let orth = kind == PieceType::Rook || kind == PieceType::Queen;
    let diag = kind == PieceType::Bishop || kind == PieceType::Queen;
    assert(slides_to(b, r, c, nr, nc, orth, diag));
    lemma_on_line(r, c, nr, nc, orth, diag);
    assert forall|i: int, j: int| #[trigger] strictly_between(r, c, nr, nc, i, j) implies b.cell(i, j) is None by {
        let k = distance(r, c, i, j);
        assert(0 < k < distance(r, c, nr, nc));
        assert(i == step(r, sign(nr - r), k) && j == step(c, sign(nc - c), k));
        assert(b.cell(step(r, sign(nr - r), k), step(c, sign(nc - c), k)) is None);
    }
}

/// No generated destination holds a piece of the mover's own side, and all lie on the board.
pub proof fn no_self_capture(b: Board, r: int, c: int, nr: int, nc: int)
    requires
        reaches(b, r, c, nr, nc),
    ensures
        on_board(nr, nc),
        b.cell(nr, nc) is None || b.cell(nr, nc)->Some_0.color != b.cell(r, c)->Some_0.color,
{
}

/// A move is legal exactly when its destination is among the moves generated for its source.
pub proof fn legal_iff_generated(b: Board, mv: ChessMove, moves: Seq<ChessMove>)
    requires
        mv.from.0 < 8,
        mv.from.1 < 8,
        b.cell(mv.from.0 as int, mv.from.1 as int) is None ==> moves.len() == 0,
        b.cell(mv.from.0 as int, mv.from.1 as int) is Some ==> lists_exactly(
            moves,
            b,
            mv.from.0 as int,
            mv.from.1 as int,
            b.cell(mv.from.0 as int, mv.from.1 as int)->Some_0.piece_type,
        ),
    ensures
        reaches(b, mv.from.0 as int, mv.from.1 as int, mv.to.0 as int, mv.to.1 as int) <==> exists|i: int|
            0 <= i < moves.len() && (#[trigger] moves[i]).to == mv.to,
{
    let (r, c, nr, nc) = (mv.from.0 as int, mv.from.1 as int, mv.to.0 as int, mv.to.1 as int);
    if reaches(b, r, c, nr, nc) {
        let i = choose|i: int| 0 <= i < moves.len() && move_between(moves[i], r, c, nr, nc);
        assert(moves[i].to == mv.to);
    }
}

/// Moving a piece other than a pawn to an empty square it reaches, then back, restores the
/// board's occupancy.
pub proof fn move_round_trip(b0: Board, b1: Board, b2: Board, fr: int, fc: int, tr: int, tc: int)
    requires
        on_board(fr, fc),
        on_board(tr, tc),
        reaches(b0, fr, fc, tr, tc),
        b0.cell(fr, fc)->Some_0.piece_type != PieceType::Pawn,
        b0.cell(tr, tc) is None,
        b1.is_move_result(b0, fr, fc, tr, tc),
        b2.is_move_result(b1, tr, tc, fr, fc),
    ensures
        b2.same_occupancy(b0),
{
    assert((fr, fc) != (tr, tc));
    assert forall|i: int, j: int| on_board(i, j) implies #[trigger] b2.cell(i, j) == b0.cell(i, j) by {
        assert(b2.cell(i, j) == cell_after_move(b1, tr, tc, fr, fc, i, j));
        assert(b1.cell(fr, fc) == cell_after_move(b0, fr, fc, tr, tc, fr, fc));
        assert(b1.cell(tr, tc) == cell_after_move(b0, fr, fc, tr, tc, tr, tc));
        assert(b1.cell(i, j) == cell_after_move(b0, fr, fc, tr, tc, i, j));
    }
}

} // verus!
