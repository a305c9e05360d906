use sternhalma::board::{Board, BoardError, Cell};
use sternhalma::game::{has_won, outcome, Game, GameStatus};
use sternhalma::geometry::{home_triangle, is_adjacent, is_home, is_valid, neighbors, SIDE};
use sternhalma::moves::{legal_destinations, move_piece, MoveError};
use sternhalma::player::Player;

fn all_cells() -> Vec<(usize, usize)> {
    let mut v = Vec::new();
    for r in 0..SIDE {
        for c in 0..SIDE {
            v.push((r, c));
        }
    }
    v
}

#[test]
fn star_has_expected_cell_counts() {
    let cells = all_cells();
    let valid: Vec<_> = cells.iter().filter(|p| is_valid(p.0, p.1)).collect();
    assert_eq!(valid.len(), 121);
    let h1: Vec<_> = cells.iter().filter(|p| is_home(Player::Player1, p.0, p.1)).collect();
    let h2: Vec<_> = cells.iter().filter(|p| is_home(Player::Player2, p.0, p.1)).collect();
    assert_eq!(h1.len(), 10);
    assert_eq!(h2.len(), 10);
    for p in &cells {
        assert!(!(is_home(Player::Player1, p.0, p.1) && is_home(Player::Player2, p.0, p.1)));
        if is_home(Player::Player1, p.0, p.1) || is_home(Player::Player2, p.0, p.1) {
            assert!(is_valid(p.0, p.1));
        }
    }
    // validity does not change between calls
    for p in &cells {
        assert_eq!(is_valid(p.0, p.1), is_valid(p.0, p.1));
    }
    assert!(!is_valid(17, 8));
    assert!(!is_valid(0, 0));
    assert!(is_valid(8, 8));
    assert!(is_valid(0, 12));
    assert!(is_valid(16, 4));
}

#[test]
fn neighbors_of_center_and_tip() {
    let n = neighbors(8, 8);
    assert_eq!(n.len(), 6);
    assert!(n.contains(&(8, 9)) && n.contains(&(8, 7)) && n.contains(&(9, 8)));
    assert!(n.contains(&(7, 8)) && n.contains(&(9, 7)) && n.contains(&(7, 9)));
    let tip = neighbors(16, 4);
    assert_eq!(tip.len(), 2);
    assert!(tip.contains(&(15, 4)) && tip.contains(&(15, 5)));
    assert!(is_adjacent((8, 8), (7, 9)));
    assert!(!is_adjacent((8, 8), (9, 9)));
    assert!(!is_adjacent((8, 8), (8, 8)));
}

#[test]
fn fresh_game_layout() {
    let g = Game::new();
    assert_eq!(g.status(), GameStatus::Playing { active: Player::Player1, turns: 0 });
    assert_eq!(g.player(), 1);
    assert_eq!(g.winner(), 0);
    assert_eq!(g.turns(), 0);
    let b = g.board();
    let mut n1 = 0;
    let mut n2 = 0;
    for (r, c) in all_cells() {
        match b.get(r, c) {
            Cell::Occupied(Player::Player1) => {
                assert!(is_home(Player::Player1, r, c));
                n1 += 1;
            }
            Cell::Occupied(Player::Player2) => {
                assert!(is_home(Player::Player2, r, c));
                n2 += 1;
            }
            Cell::Empty => assert!(is_valid(r, c)),
            Cell::OffBoard => assert!(!is_valid(r, c)),
        }
    }
    assert_eq!((n1, n2), (10, 10));
}

#[test]
fn queries_are_idempotent() {
    let g = Game::new();
    assert_eq!(g.status(), g.status());
    assert_eq!(g.board(), g.board());
    assert_eq!(g.planes(), g.planes());
}

#[test]
fn legal_move_reverts_exactly() {
    let g = Game::new();
    let start = g.board();
    for (r, c) in all_cells() {
        if start.occupant(r, c).is_none() {
            continue;
        }
        for d in legal_destinations(&start, r, c) {
            let mut b = start.clone();
            assert_eq!(move_piece(&mut b, (r, c), d), Ok(()));
            assert_eq!(b.get(r, c), Cell::Empty);
            assert_eq!(b.occupant(d.0, d.1), start.occupant(r, c));
            let piece = b.occupant(d.0, d.1);
            assert_eq!(b.set(d.0, d.1, None), Ok(()));
            assert_eq!(b.set(r, c, piece), Ok(()));
            assert_eq!(b, start);
        }
    }
}

#[test]
fn turns_alternate_and_rejections_change_nothing() {
    let mut g = Game::new();
    let before = g.board();
    assert_eq!(g.apply_move((3, 12), (4, 12)), Err(MoveError::IllegalMove));
    assert_eq!(g.status(), GameStatus::Playing { active: Player::Player1, turns: 0 });
    assert_eq!(g.board(), before);
    assert_eq!(g.apply_move((13, 4), (12, 4)), Ok(()));
    assert_eq!(g.status(), GameStatus::Playing { active: Player::Player2, turns: 1 });
    assert_eq!(g.apply_move((3, 12), (4, 12)), Ok(()));
    assert_eq!(g.status(), GameStatus::Playing { active: Player::Player1, turns: 2 });
    assert_eq!(g.player(), 1);
    assert_eq!(g.turns(), 2);
}

#[test]
fn full_target_triangle_finishes_game() {
    let mut b: Board<Player> = Board::new();
    for (r, c) in all_cells() {
        if is_home(Player::Player2, r, c) {
            assert_eq!(b.set(r, c, Some(Player::Player1)), Ok(()));
        }
    }
    assert!(has_won(&b, Player::Player1));
    assert!(!has_won(&b, Player::Player2));
    assert_eq!(outcome(&b, Player::Player1, 7), GameStatus::Finished { winner: Player::Player1, total_turns: 7 });
    assert_eq!(outcome(&b, Player::Player2, 7), GameStatus::Playing { active: Player::Player1, turns: 7 });
}

#[test]
fn partial_target_triangle_keeps_playing() {
    let mut b: Board<Player> = Board::new();
    assert_eq!(b.set(0, 12, Some(Player::Player1)), Ok(()));
    assert!(!has_won(&b, Player::Player1));
    assert_eq!(outcome(&b, Player::Player1, 3), GameStatus::Playing { active: Player::Player2, turns: 3 });
}

#[test]
fn step_then_same_piece_again_is_rejected() {
    let mut g = Game::new();
    assert!(g.legal_moves(13, 4).contains(&(12, 4)));
    assert_eq!(g.apply_move((13, 4), (12, 4)), Ok(()));
    assert_eq!(g.turns(), 1);
    assert_eq!(g.player(), -1);
    assert_eq!(g.apply_move((12, 4), (11, 4)), Err(MoveError::IllegalMove));
    assert_eq!(g.turns(), 1);
    assert_eq!(g.player(), -1);
    assert!(g.legal_moves(12, 4).is_empty());
}

#[test]
fn jump_over_neighbor_lands_beyond() {
    let mut b: Board<Player> = Board::new();
    b.set(8, 8, Some(Player::Player1)).unwrap();
    b.set(8, 9, Some(Player::Player2)).unwrap();
    let d = legal_destinations(&b, 8, 8);
    assert!(d.contains(&(8, 10)));
    assert!(!is_adjacent((8, 8), (8, 10)));
    assert!(!d.contains(&(8, 9)));
    assert_eq!(d.len(), 6);
    // same rule over a piece of the mover's own colour
    b.set(8, 9, Some(Player::Player1)).unwrap();
    assert!(legal_destinations(&b, 8, 8).contains(&(8, 10)));
}

#[test]
fn jump_chains_are_followed() {
    let mut b: Board<Player> = Board::new();
    b.set(8, 6, Some(Player::Player1)).unwrap();
    b.set(8, 7, Some(Player::Player2)).unwrap();
    b.set(8, 9, Some(Player::Player2)).unwrap();
    b.set(9, 10, Some(Player::Player2)).unwrap();
    let d = legal_destinations(&b, 8, 6);
    assert!(d.contains(&(8, 8)));
    assert!(d.contains(&(8, 10)));
    assert!(d.contains(&(10, 10)));
    assert!(!d.contains(&(8, 6)));
    let mut moved = b.clone();
    assert_eq!(move_piece(&mut moved, (8, 6), (10, 10)), Ok(()));
    assert_eq!(moved.occupant(10, 10), Some(Player::Player1));
    assert_eq!(moved.get(8, 6), Cell::Empty);
}

#[test]
fn lone_piece_only_steps() {
    let mut b: Board<Player> = Board::new();
    b.set(8, 8, Some(Player::Player2)).unwrap();
    let d = legal_destinations(&b, 8, 8);
    assert_eq!(d, vec![(7, 8), (7, 9), (8, 7), (8, 9), (9, 7), (9, 8)]);
    assert!(legal_destinations(&b, 8, 9).is_empty());
    assert!(legal_destinations(&b, 40, 9).is_empty());
}

#[test]
fn move_errors() {
    let mut b: Board<Player> = Board::new();
    b.set(8, 8, Some(Player::Player1)).unwrap();
    assert_eq!(move_piece(&mut b, (8, 8), (17, 0)), Err(MoveError::InvalidCoordinate));
    assert_eq!(move_piece(&mut b, (8, 8), (8, 10)), Err(MoveError::IllegalMove));
    assert_eq!(move_piece(&mut b, (8, 8), (8, 8)), Err(MoveError::IllegalMove));
    assert_eq!(move_piece(&mut b, (5, 5), (5, 6)), Err(MoveError::IllegalMove));
    let mut g = Game::new();
    assert_eq!(g.apply_move((20, 4), (12, 4)), Err(MoveError::InvalidCoordinate));
    assert_eq!(g.apply_move((13, 4), (11, 4)), Err(MoveError::IllegalMove));
    assert_eq!(g.apply_move((8, 8), (8, 9)), Err(MoveError::IllegalMove));
    assert_eq!(g.status(), GameStatus::Playing { active: Player::Player1, turns: 0 });
}

#[test]
fn board_cell_access() {
    let mut b: Board<u8> = Board::new();
    assert_eq!(b.get(0, 0), Cell::OffBoard);
    assert_eq!(b.get(30, 30), Cell::OffBoard);
    assert_eq!(b.get(8, 8), Cell::Empty);
    assert!(b.is_empty(8, 8));
    assert!(!b.is_empty(0, 0));
    assert_eq!(b.set(0, 0, Some(3)), Err(BoardError::OffBoard));
    assert_eq!(b.set(8, 8, Some(3)), Ok(()));
    assert_eq!(b.get(8, 8), Cell::Occupied(3));
    assert_eq!(b.occupant(8, 8), Some(3));
    assert_eq!(b.occupant(99, 8), None);
    let copy = b.snapshot();
    assert_eq!(b.set(8, 8, None), Ok(()));
    assert_eq!(copy.occupant(8, 8), Some(3));
    assert_eq!(b.occupant(8, 8), None);
}

#[test]
fn opponent_flips() {
    assert_eq!(Player::Player1.opponent(), Player::Player2);
    assert_eq!(Player::Player2.opponent(), Player::Player1);
}

#[test]
fn planes_mark_pieces_and_star() {
    let g = Game::new();
    let p = g.planes();
    assert_eq!(p.len(), 3 * 289);
    assert_eq!(p[13 * 17 + 4], 1);
    assert_eq!(p[3 * 17 + 12], 0);
    assert_eq!(p[289 + 3 * 17 + 12], 1);
    assert_eq!(p[289 + 13 * 17 + 4], 0);
    assert_eq!(p[578], 0);
    assert_eq!(p[578 + 8 * 17 + 8], 1);
    assert_eq!(p[..289].iter().map(|v| *v as u32).sum::<u32>(), 10);
    assert_eq!(p[289..578].iter().map(|v| *v as u32).sum::<u32>(), 10);
    assert_eq!(p[578..].iter().map(|v| *v as u32).sum::<u32>(), 121);
    let mut g2 = Game::new();
    g2.apply_move((13, 4), (12, 4)).unwrap();
    let q = g2.planes();
    // now seen from Player2
    assert_eq!(q[3 * 17 + 12], 1);
    assert_eq!(q[289 + 12 * 17 + 4], 1);
}

#[test]
fn home_triangles_are_listed() {
    let h1 = home_triangle(Player::Player1);
    let h2 = home_triangle(Player::Player2);
    assert_eq!(h1.len(), 10);
    assert_eq!(h2.len(), 10);
    assert_eq!(h1[0], (13, 4));
    assert_eq!(h1[9], (16, 4));
    assert_eq!(h2[0], (0, 12));
    assert_eq!(h2[9], (3, 12));
    for p in h1.iter().chain(h2.iter()) {
        assert!(is_valid(p.0, p.1));
    }
    for p in &h1 {
        assert!(!h2.contains(p));
    }
}

#[test]
fn player2_wins_on_player1_home() {
    let mut b: Board<Player> = Board::new();
    for p in home_triangle(Player::Player1) {
        b.set(p.0, p.1, Some(Player::Player2)).unwrap();
    }
    assert!(has_won(&b, Player::Player2));
    assert_eq!(outcome(&b, Player::Player2, 40), GameStatus::Finished { winner: Player::Player2, total_turns: 40 });
}
