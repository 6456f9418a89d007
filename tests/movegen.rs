use chess::board::{square_symbol, Board};
use chess::game::Game;
use chess::movegen::{
    bishop_moves, generate_moves, in_bounds, is_legal_move, king_moves, knight_moves, pawn_moves,
    queen_moves, rook_moves, ChessMove,
};
use chess::piece::{Color, Piece, PieceType};
use chess::utils::parse_square;

fn piece(piece_type: PieceType, color: Color) -> Option<Piece> {
    Some(Piece { piece_type, color })
}

fn standard() -> Board {
    let mut b = Board::new();
    b.setup_standard();
    b
}

fn destinations(moves: &[ChessMove]) -> Vec<(usize, usize)> {
    let mut v: Vec<(usize, usize)> = moves.iter().map(|m| m.to).collect();
    v.sort();
    v
}

fn all_from(moves: &[ChessMove], from: (usize, usize)) -> bool {
    moves.iter().all(|m| m.from == from)
}

#[test]
fn white_pawn_e2_on_standard_board() {
    let b = standard();
    let moves = generate_moves(&b, 1, 4);
    assert_eq!(destinations(&moves), vec![(2, 4)]);
    assert!(all_from(&moves, (1, 4)));
}

#[test]
fn rook_a1_blocked_on_standard_board() {
    let b = standard();
    assert!(generate_moves(&b, 0, 0).is_empty());
}

#[test]
fn lone_queen_d4_has_27_moves() {
    let mut b = Board::new();
    b.squares[3][3] = piece(PieceType::Queen, Color::White);
    let moves = generate_moves(&b, 3, 3);
    assert_eq!(moves.len(), 27);
    let d = destinations(&moves);
    let mut unique = d.clone();
    unique.dedup();
    assert_eq!(unique.len(), 27);
    assert!(d.contains(&(7, 7)));
    assert!(d.contains(&(0, 0)));
    assert!(d.contains(&(6, 0)));
    assert!(d.contains(&(0, 6)));
    assert!(d.contains(&(3, 0)));
    assert!(d.contains(&(7, 3)));
}

#[test]
fn lone_knight_b1_has_three_moves() {
    let mut b = Board::new();
    b.squares[0][1] = piece(PieceType::Knight, Color::White);
    let moves = generate_moves(&b, 0, 1);
    assert_eq!(destinations(&moves), vec![(1, 3), (2, 0), (2, 2)]);
    assert!(all_from(&moves, (0, 1)));
}

#[test]
fn empty_square_generates_nothing_and_nothing_is_legal() {
    let b = standard();
    for r in 2..6 {
        for c in 0..8 {
            assert!(generate_moves(&b, r, c).is_empty());
            for tr in 0..8 {
                for tc in 0..8 {
                    let mv = ChessMove { from: (r, c), to: (tr, tc) };
                    assert!(!is_legal_move(&b, &mv));
                }
            }
        }
    }
}

#[test]
fn sliding_pieces_stop_at_blockers() {
    let mut b = Board::new();
    b.squares[3][3] = piece(PieceType::Rook, Color::White);
    b.squares[3][5] = piece(PieceType::Pawn, Color::White);
    b.squares[6][3] = piece(PieceType::Pawn, Color::Black);
    let d = destinations(&rook_moves(&b, 3, 3));
    assert_eq!(
        d,
        vec![(0, 3), (1, 3), (2, 3), (3, 0), (3, 1), (3, 2), (3, 4), (4, 3), (5, 3), (6, 3)]
    );
    assert!(!d.contains(&(3, 5)));
    assert!(!d.contains(&(7, 3)));
}

#[test]
fn bishop_captures_and_is_blocked() {
    let mut b = Board::new();
    b.squares[0][2] = piece(PieceType::Bishop, Color::Black);
    b.squares[2][4] = piece(PieceType::Knight, Color::White);
    b.squares[1][1] = piece(PieceType::Pawn, Color::Black);
    let d = destinations(&bishop_moves(&b, 0, 2));
    assert_eq!(d, vec![(1, 3), (2, 4)]);
}

#[test]
fn no_self_capture_on_standard_board() {
    let b = standard();
    for r in 0..8 {
        for c in 0..8 {
            if let Some(p) = b.get(r, c) {
                for m in generate_moves(&b, r, c) {
                    match b.get(m.to.0, m.to.1) {
                        Some(t) => assert!(t.color != p.color),
                        None => {}
                    }
                }
            }
        }
    }
    assert_eq!(destinations(&generate_moves(&b, 0, 1)), vec![(2, 0), (2, 2)]);
    assert!(generate_moves(&b, 0, 4).is_empty());
}

#[test]
fn setup_twice_equals_setup_once() {
    let once = standard();
    let mut twice = standard();
    twice.setup_standard();
    for r in 0..8 {
        for c in 0..8 {
            assert_eq!(once.get(r, c), twice.get(r, c));
        }
    }
}

#[test]
fn setup_clears_a_used_board() {
    let mut b = Board::new();
    b.squares[4][4] = piece(PieceType::Queen, Color::Black);
    b.setup_standard();
    assert_eq!(b.get(4, 4), None);
    assert_eq!(b.get(0, 3), piece(PieceType::Queen, Color::White));
    assert_eq!(b.get(7, 4), piece(PieceType::King, Color::Black));
    assert_eq!(b.get(6, 7), piece(PieceType::Pawn, Color::Black));
    assert_eq!(b.get(0, 6), piece(PieceType::Knight, Color::White));
}

#[test]
fn rook_move_and_back_restores_squares() {
    let mut b = Board::new();
    b.squares[0][0] = piece(PieceType::Rook, Color::White);
    let mv = ChessMove { from: (0, 0), to: (3, 0) };
    assert!(is_legal_move(&b, &mv));
    b.apply_move(mv);
    assert_eq!(b.get(0, 0), None);
    assert_eq!(b.get(3, 0), piece(PieceType::Rook, Color::White));
    let back = ChessMove { from: (3, 0), to: (0, 0) };
    assert!(is_legal_move(&b, &back));
    b.apply_move(back);
    assert_eq!(b.get(0, 0), piece(PieceType::Rook, Color::White));
    assert_eq!(b.get(3, 0), None);
}

#[test]
fn apply_move_captures_by_overwrite() {
    let mut b = standard();
    b.apply_move(ChessMove { from: (0, 1), to: (6, 4) });
    assert_eq!(b.get(6, 4), piece(PieceType::Knight, Color::White));
    assert_eq!(b.get(0, 1), None);
}

#[test]
fn legality_agrees_with_generation() {
    let mut b = standard();
    b.squares[2][3] = piece(PieceType::Pawn, Color::Black);
    b.squares[4][4] = piece(PieceType::Queen, Color::White);
    for r in 0..8 {
        for c in 0..8 {
            let d = destinations(&generate_moves(&b, r, c));
            for tr in 0..8 {
                for tc in 0..8 {
                    let mv = ChessMove { from: (r, c), to: (tr, tc) };
                    assert_eq!(is_legal_move(&b, &mv), d.contains(&(tr, tc)));
                }
            }
        }
    }
}

#[test]
fn pawn_captures_diagonally_only_opponents() {
    let mut b = Board::new();
    b.squares[3][3] = piece(PieceType::Pawn, Color::White);
    b.squares[4][3] = piece(PieceType::Pawn, Color::Black);
    b.squares[4][2] = piece(PieceType::Rook, Color::Black);
    b.squares[4][4] = piece(PieceType::Rook, Color::White);
    assert_eq!(destinations(&pawn_moves(&b, 3, 3)), vec![(4, 2)]);
}

#[test]
fn black_pawn_moves_down() {
    let b = standard();
    assert_eq!(destinations(&generate_moves(&b, 6, 0)), vec![(5, 0)]);
    let mut e = Board::new();
    e.squares[0][5] = piece(PieceType::Pawn, Color::Black);
    assert!(generate_moves(&e, 0, 5).is_empty());
}

#[test]
fn king_in_corner_has_three_moves() {
    let mut b = Board::new();
    b.squares[7][7] = piece(PieceType::King, Color::Black);
    b.squares[6][6] = piece(PieceType::Pawn, Color::Black);
    assert_eq!(destinations(&king_moves(&b, 7, 7)), vec![(6, 7), (7, 6)]);
    b.squares[6][6] = piece(PieceType::Pawn, Color::White);
    assert_eq!(destinations(&generate_moves(&b, 7, 7)), vec![(6, 6), (6, 7), (7, 6)]);
}

#[test]
fn knight_and_queen_rules_by_name() {
    let mut b = Board::new();
    b.squares[4][4] = piece(PieceType::King, Color::White);
    assert_eq!(knight_moves(&b, 4, 4).len(), 8);
    assert_eq!(queen_moves(&b, 4, 4).len(), 27);
    assert_eq!(king_moves(&b, 4, 4).len(), 8);
}

#[test]
fn bounds() {
    assert!(in_bounds(0, 0));
    assert!(in_bounds(7, 7));
    assert!(!in_bounds(-1, 3));
    assert!(!in_bounds(3, 8));
}

#[test]
fn parse_squares() {
    assert_eq!(parse_square("e2"), Some((1, 4)));
    assert_eq!(parse_square("a1"), Some((0, 0)));
    assert_eq!(parse_square("h8"), Some((7, 7)));
    assert_eq!(parse_square("i1"), None);
    assert_eq!(parse_square("a9"), None);
    assert_eq!(parse_square("a0"), None);
    assert_eq!(parse_square("e"), None);
    assert_eq!(parse_square("e22"), None);
    assert_eq!(parse_square(""), None);
    assert_eq!(parse_square("E2"), None);
}

#[test]
fn game_starts_white_and_alternates() {
    let mut g = Game::new();
    assert_eq!(g.turn, Color::White);
    assert_eq!(g.board.get(1, 0), piece(PieceType::Pawn, Color::White));
    g.switch_turn();
    assert_eq!(g.turn, Color::Black);
    g.switch_turn();
    assert_eq!(g.turn, Color::White);
}

#[test]
fn symbols() {
    assert_eq!(square_symbol(None), '.');
    assert_eq!(square_symbol(piece(PieceType::Knight, Color::Black)), 'N');
    assert_eq!(square_symbol(piece(PieceType::King, Color::White)), 'K');
}
