use chess_engine::board::{Move, Occupant, ParseError, Position, Status, KING, PAWN, QUEEN};
use chess_engine::eval::{evaluate, Weights};
use chess_engine::ordering::{move_key, order_moves};
use chess_engine::repetition::RepetitionTable;
use chess_engine::search::{best_move, search, target_depth, INFINITY};

const AFTER_E4: &str = "rnbqkbnr/pppppppp/8/8/4P3/8/PPPP1PPP/RNBQKBNR b KQkq - 0 1";
const AFTER_E4_WHITE: &str = "rnbqkbnr/pppppppp/8/8/4P3/8/PPPP1PPP/RNBQKBNR w KQkq - 0 1";
const SCHOLAR: &str = "r1bqkbnr/pppp1ppp/2n5/4p3/2B1P3/5Q2/PPPP1PPP/RNB1K1NR w KQkq - 0 1";
const FOOLS_MATE: &str = "rnb1kbnr/pppp1ppp/8/4p3/6Pq/5P2/PPPPP2P/RNBQKBNR w KQkq - 1 3";
const STALEMATE: &str = "7k/5Q2/6K1/8/8/8/8/8 b - - 0 1";
const QUEEN_UP: &str = "4k3/8/8/8/8/8/8/3QK3 w - - 0 1";

fn pos(fen: &str) -> Position {
    Position::from_fen(fen).unwrap()
}

#[test]
fn initial_position_is_neutral_under_basic_weights() {
    assert_eq!(evaluate(&Weights::basic(), &Position::initial()), 0);
}

#[test]
fn initial_position_standard_weights_count_mobility() {
    // 20 legal moves, scaled down by ten.
    assert_eq!(evaluate(&Weights::standard(), &Position::initial()), 2);
}

#[test]
fn initial_position_rich_weights() {
    // Mobility 20 * 5; both kings at home and both sides' pawn advances cancel.
    assert_eq!(evaluate(&Weights::rich(), &Position::initial()), 100);
}

#[test]
fn evaluation_is_antisymmetric_between_sides() {
    let w = Weights::basic();
    let black = evaluate(&w, &pos(AFTER_E4));
    let white = evaluate(&w, &pos(AFTER_E4_WHITE));
    assert_eq!(black, -2);
    assert_eq!(white, 2);
    assert_eq!(black, -white);
}

#[test]
fn checkmate_and_stalemate_scores() {
    let w = Weights::rich();
    let mated = pos(FOOLS_MATE);
    assert_eq!(mated.status(), Status::Checkmate);
    assert_eq!(evaluate(&w, &mated), -30000);
    let stale = pos(STALEMATE);
    assert_eq!(stale.status(), Status::Stalemate);
    assert_eq!(evaluate(&w, &stale), 0);
}

#[test]
fn material_edge_is_scored() {
    // A queen up: 9 for the queen plus the kings cancelling.
    assert_eq!(evaluate(&Weights::basic(), &pos(QUEEN_UP)), 9);
}

#[test]
fn depth_zero_search_is_static_evaluation() {
    let w = Weights::rich();
    for fen in [AFTER_E4, SCHOLAR, QUEEN_UP] {
        let p = pos(fen);
        let e = evaluate(&w, &p);
        let mut reps = RepetitionTable::new();
        assert_eq!(search(&w, &p, 0, -INFINITY, INFINITY, true, &mut reps, 3), e);
        assert_eq!(search(&w, &p, 0, -INFINITY, INFINITY, false, &mut reps, 3), -e);
    }
}

#[test]
fn repeated_position_with_an_edge_is_penalised() {
    let w = Weights::rich();
    let p = pos(QUEEN_UP);
    assert!(evaluate(&w, &p) > 100);
    let mut reps = RepetitionTable::new();
    reps.set(p.hash(), 2);
    assert_eq!(search(&w, &p, 3, -INFINITY, INFINITY, true, &mut reps, 3), -5000);
    assert_eq!(reps.count(p.hash()), 2);
}

#[test]
fn repeated_position_without_an_edge_is_a_draw() {
    let w = Weights::rich();
    let p = pos(QUEEN_UP);
    let mut reps = RepetitionTable::new();
    reps.set(p.hash(), 2);
    // Far from the root the repetition is a plain draw.
    assert_eq!(search(&w, &p, 1, -INFINITY, INFINITY, true, &mut reps, 4), 0);
    // The minimizing side gains nothing from avoiding it either.
    assert_eq!(search(&w, &p, 3, -INFINITY, INFINITY, false, &mut reps, 3), 0);
}

#[test]
fn search_restores_repetition_table() {
    let w = Weights::basic();
    let p = pos(AFTER_E4);
    let mut reps = RepetitionTable::new();
    reps.set(p.hash(), 1);
    reps.set(12345, 1);
    let _ = search(&w, &p, 2, -INFINITY, INFINITY, true, &mut reps, 2);
    assert_eq!(reps.count(p.hash()), 1);
    assert_eq!(reps.count(12345), 1);
    let child = p.apply(p.legal_moves()[0]);
    assert_eq!(reps.count(child.hash()), 0);
}

#[test]
fn mate_in_one_is_played() {
    let p = pos(SCHOLAR);
    let m = best_move(&Weights::rich(), &p).unwrap();
    assert_eq!(m, Move { from: 21, to: 53, promotion: None });
    assert_eq!(p.apply(m).status(), Status::Checkmate);
}

#[test]
fn initial_position_gets_a_legal_move() {
    let p = Position::initial();
    let m = best_move(&Weights::basic(), &p).unwrap();
    assert!(p.is_legal(m));
    assert!(p.legal_moves().contains(&m));
}

#[test]
fn no_move_without_legal_moves() {
    assert_eq!(best_move(&Weights::rich(), &pos(FOOLS_MATE)), None);
    assert_eq!(best_move(&Weights::rich(), &pos(STALEMATE)), None);
}

#[test]
fn winning_capture_is_chosen() {
    // White can take an undefended queen with the rook.
    let p = pos("3qk3/8/8/8/8/8/8/3RK3 w - - 0 1");
    let m = best_move(&Weights::basic(), &p).unwrap();
    assert_eq!(m, Move { from: 3, to: 59, promotion: None });
}

#[test]
fn depth_depends_on_piece_count() {
    assert_eq!(target_depth(&Position::initial()), 3);
    assert_eq!(Position::initial().piece_count(), 32);
    assert_eq!(target_depth(&pos(QUEEN_UP)), 4);
}

#[test]
fn malformed_description_is_rejected() {
    assert!(matches!(Position::from_fen("not a board"), Err(ParseError)));
}

#[test]
fn position_description() {
    let p = Position::initial();
    assert!(p.white_to_move());
    assert_eq!(p.occupant(4), Some(Occupant { kind: KING, white: true }));
    assert_eq!(p.occupant(3), Some(Occupant { kind: QUEEN, white: true }));
    assert_eq!(p.occupant(52), Some(Occupant { kind: PAWN, white: false }));
    assert_eq!(p.occupant(28), None);
    assert!(!p.in_check());
    assert_eq!(p.legal_moves().len(), 20);
}

#[test]
fn applying_a_move_changes_the_hash_and_side() {
    let p = Position::initial();
    let e4 = Move { from: 12, to: 28, promotion: None };
    assert!(p.is_legal(e4));
    let q = p.apply(e4);
    assert!(!q.white_to_move());
    assert_ne!(p.hash(), q.hash());
    assert_eq!(q.hash(), pos(AFTER_E4).hash());
    assert_eq!(q.occupant(28), Some(Occupant { kind: PAWN, white: true }));
}

#[test]
fn mating_move_is_ordered_first() {
    let w = Weights::rich();
    let p = pos(SCHOLAR);
    let ordered = order_moves(&w, &p, &p.legal_moves());
    assert_eq!(ordered[0], Move { from: 21, to: 53, promotion: None });
    assert_eq!(move_key(&w, &p, ordered[0]), 50000);
    for i in 1..ordered.len() {
        assert!(move_key(&w, &p, ordered[i - 1]) >= move_key(&w, &p, ordered[i]));
    }
}

#[test]
fn capture_key_weighs_victim_against_attacker() {
    let w = Weights::basic();
    let p = pos("3qk3/8/8/8/8/8/8/3RK3 w - - 0 1");
    // Rook takes queen, giving check: 9 * 10 - 5 * 1 + 100.
    assert_eq!(move_key(&w, &p, Move { from: 3, to: 59, promotion: None }), 185);
}

#[test]
fn threats_count_both_ways() {
    // White's queen on d2 and Black's rook on d5 attack each other along the d-file.
    let p = pos("4k3/8/8/3r4/8/8/3Q4/4K3 w - - 0 1");
    let rich = Weights::rich();
    let blind = Weights { threat_scale: 0, ..rich };
    // The rook earns 5 * 10, the exposed queen costs 9 * 10.
    assert_eq!(evaluate(&rich, &p) - evaluate(&blind, &p), -40);
}

#[test]
fn passing_hands_the_move_over() {
    let p = Position::initial();
    let q = p.pass().unwrap();
    assert!(!q.white_to_move());
    assert_eq!(q.legal_moves().len(), 20);
    assert!(pos(FOOLS_MATE).pass().is_none());
}

#[test]
fn standard_weights_penalise_check() {
    // Black to move is in check from the bishop on b5; one of a handful of replies.
    let p = pos("4k3/8/8/1B6/8/8/8/4K3 b - - 0 1");
    assert!(p.in_check());
    let w = Weights::standard();
    let moves = p.legal_moves().len() as i64;
    // Material: bishop 3 for White; check penalty 30; mobility moves / 10.
    assert_eq!(evaluate(&w, &p), -3 - 30 + moves / 10);
}

#[test]
fn narrow_window_agrees_with_full_window() {
    let w = Weights::basic();
    let p = pos("3qk3/8/8/8/8/8/8/3RK3 w - - 0 1");
    let mut reps = RepetitionTable::new();
    let full = search(&w, &p, 2, -INFINITY, INFINITY, true, &mut reps, 2);
    let narrow = search(&w, &p, 2, full - 1, full + 1, true, &mut reps, 2);
    assert_eq!(narrow, full);
    // A window entirely above the value yields an upper bound on it.
    let above = search(&w, &p, 2, full + 5, full + 50, true, &mut reps, 2);
    assert!(above <= full + 5);
    // A window entirely below the value yields a lower bound on it.
    let below = search(&w, &p, 2, full - 50, full - 5, true, &mut reps, 2);
    assert!(below >= full - 5);
}

#[test]
fn pruned_search_matches_its_exact_value_at_the_root() {
    // Rook takes the undefended queen: the exchange leaves White a rook up.
    let w = Weights::basic();
    let p = pos("3qk3/8/8/8/8/8/8/3RK3 w - - 0 1");
    let child = p.apply(Move { from: 3, to: 59, promotion: None });
    let mut reps = RepetitionTable::new();
    // Black recaptures with the king: White is left with nothing but the king.
    assert_eq!(search(&w, &child, 1, -INFINITY, INFINITY, false, &mut reps, 2), 0);
}

#[test]
fn description_without_the_movers_king_is_rejected() {
    assert!(matches!(Position::from_fen("8/8/8/8/8/8/8/k7 w - - 0 1"), Err(ParseError)));
    assert!(Position::from_fen("8/8/8/8/8/8/8/k6K b - - 0 1").is_ok());
}

#[test]
fn description_with_too_many_pieces_is_rejected() {
    let crowded = "7k/8/RRR5/8/NNNNNNNN/8/PPPPPPPP/4K3 w - - 0 1";
    assert!(matches!(Position::from_fen(crowded), Err(ParseError)));
}

#[test]
fn description_with_a_short_rank_is_rejected() {
    assert!(Position::from_fen("rnbqkbnr/ppppppp/8/8/8/8/PPPPPPPP/RNBQKBNR w KQkq - 0 1").is_err());
}

#[test]
fn advanced_pawns_and_kings_count_for_their_owner() {
    // White's pawn stands three ranks up from White's back rank, Black's two from Black's.
    let p = pos("4k3/8/p7/8/4P3/8/8/4K3 w - - 0 1");
    let rich = Weights::rich();
    let flat = Weights { advancement_scale: 0, ..rich };
    assert_eq!(evaluate(&rich, &p) - evaluate(&flat, &p), 5 * 3 - 5 * 2);
}
