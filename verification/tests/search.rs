use je_bot::board::{Board, Color};
use je_bot::clock::Deadline;
use je_bot::evaluate::evaluate_position;
use je_bot::search::{
    classify, first_legal_move, iterative_deepening, move_priority, negamax, probe, quiesce,
    sort_moves, INFINITY,
};
use je_bot::transposition::{Bound, TTEntry, TranspositionTable};
use shakmaty::fen::Fen;
use shakmaty::zobrist::{Zobrist64, ZobristHash};
use shakmaty::{CastlingMode, Chess, EnPassantMode, Move, Position};
use std::time::{Duration, Instant};

fn position(fen: &str) -> Chess {
    fen.parse::<Fen>().expect("a FEN string").into_position(CastlingMode::Standard).expect(
        "a playable position",
    )
}

fn uci(m: &Move) -> String {
    m.to_uci(CastlingMode::Standard).to_string()
}

fn hash(pos: &Chess) -> u64 {
    pos.zobrist_hash::<Zobrist64>(EnPassantMode::Legal).0
}

fn moves_of(pos: &Chess) -> Vec<Move> {
    pos.legal_moves().into_iter().collect()
}

fn find(pos: &Chess, name: &str) -> Move {
    moves_of(pos).into_iter().find(|m| uci(m) == name).expect("a legal move")
}

fn after(pos: &Chess, name: &str) -> Chess {
    let mut next = pos.clone();
    next.play_unchecked(&find(pos, name));
    next
}

fn static_score(pos: &Chess) -> i32 {
    let b = pos.board();
    let board = Board {
        pawns: b.pawns().0,
        knights: b.knights().0,
        bishops: b.bishops().0,
        rooks: b.rooks().0,
        queens: b.queens().0,
        kings: b.kings().0,
        white: b.white().0,
        black: b.black().0,
    };
    let turn = if pos.turn() == shakmaty::Color::White { Color::White } else { Color::Black };
    evaluate_position(&board, turn)
}

fn search(pos: &Chess, max_depth: u16) -> (Option<Move>, i32, u16) {
    let mut table = TranspositionTable::new();
    let mut count = 0;
    iterative_deepening(pos, max_depth, Deadline::Never, &mut table, &mut count)
}

const START: &str = "rnbqkbnr/pppppppp/8/8/8/8/PPPPPPPP/RNBQKBNR w KQkq - 0 1";
const HANGING_QUEEN: &str = "4k3/8/8/3q4/4P3/8/8/4K3 w - - 0 1";
const MATED: &str = "R5k1/5ppp/8/8/8/8/5PPP/7K b - - 0 1";
const STALEMATED: &str = "7k/5Q2/6K1/8/8/8/8/8 b - - 0 1";
const PROMOTION: &str = "1n2k3/P7/8/8/8/8/8/4K3 w - - 0 1";

#[test]
fn mate_in_one_is_found() {
    let pos = position("6k1/5ppp/8/8/8/8/5PPP/R6K w - - 0 1");
    let (best, score, depth) = search(&pos, 3);
    assert_eq!(uci(&best.expect("a move")), "a1a8");
    assert!(score >= 9_998);
    assert_eq!(score, 9_999);
    assert_eq!(depth, 3);
}

#[test]
fn mate_is_preferred_to_stalemate() {
    let pos = position("7k/5Q2/6K1/8/8/8/8/8 w - - 0 1");
    let (best, score, _) = search(&pos, 3);
    let best = best.expect("a move");
    assert_ne!(uci(&best), "f7g8");
    let mut next = pos.clone();
    next.play_unchecked(&best);
    assert!(next.is_checkmate());
    assert!(!next.is_stalemate());
    assert_eq!(score, 9_999);
}

#[test]
fn the_capture_is_tried_first() {
    let pos = position(HANGING_QUEEN);
    let table = TranspositionTable::new();
    let sorted = sort_moves(&pos, moves_of(&pos), &table);
    assert_eq!(sorted.len(), moves_of(&pos).len());
    assert_eq!(uci(&sorted[0]), "e4d5");
    assert!(sorted[0].is_capture());
    assert!(sorted[1..].iter().all(|m| !m.is_capture()));
}

#[test]
fn the_capture_is_found_at_depth_one() {
    let pos = position(HANGING_QUEEN);
    let (best, score, depth) = search(&pos, 1);
    assert_eq!(uci(&best.expect("a move")), "e4d5");
    assert_eq!(score, 135);
    assert_eq!(depth, 1);
}

#[test]
fn the_move_of_the_table_is_tried_first() {
    let pos = position(HANGING_QUEEN);
    let quiet = find(&pos, "e1f2");
    let mut table = TranspositionTable::new();
    table.store(
        hash(&pos),
        TTEntry { value: 0, best_move: Some(quiet.clone()), depth: 1, bound: Bound::Exact },
    );
    let sorted = sort_moves(&pos, moves_of(&pos), &table);
    assert_eq!(sorted[0], quiet);
    assert_eq!(uci(&sorted[1]), "e4d5");
    assert_eq!(sorted.len(), moves_of(&pos).len());
}

#[test]
fn an_entry_of_another_position_gives_no_hint() {
    let pos = position(HANGING_QUEEN);
    let quiet = find(&pos, "e1f2");
    let mut table = TranspositionTable::new();
    table.store(
        hash(&pos) ^ 1,
        TTEntry { value: 0, best_move: Some(quiet), depth: 1, bound: Bound::Exact },
    );
    let sorted = sort_moves(&pos, moves_of(&pos), &table);
    assert_eq!(uci(&sorted[0]), "e4d5");
}

#[test]
fn quiet_moves_keep_their_order() {
    let pos = position(START);
    let table = TranspositionTable::new();
    assert_eq!(sort_moves(&pos, moves_of(&pos), &table), moves_of(&pos));
}

#[test]
fn moves_are_sorted_class_by_class() {
    for fen in [
        "r3k2r/pPpq1ppp/2n1bn2/3pp3/3PP3/2N1BN2/P1PQ1PPP/R3K2R w KQkq - 0 1",
        "1n2k3/P7/8/8/2q5/3P4/8/4K3 w - - 0 1",
        HANGING_QUEEN,
    ] {
        let pos = position(fen);
        let given = moves_of(&pos);
        let hint = given[given.len() / 2].clone();
        let mut table = TranspositionTable::new();
        table.store(
            hash(&pos),
            TTEntry { value: 0, best_move: Some(hint.clone()), depth: 1, bound: Bound::Exact },
        );
        let class = |m: &Move| {
            if *m == hint {
                1
            } else if m.is_capture() {
                2
            } else if m.is_promotion() {
                3
            } else {
                4
            }
        };
        let mut expected: Vec<Move> = Vec::new();
        for wanted in 1..=4 {
            expected.extend(given.iter().filter(|m| class(m) == wanted).cloned());
        }
        assert_eq!(sort_moves(&pos, given.clone(), &table), expected);
    }
}

#[test]
fn move_classes() {
    let pos = position("1n2k3/P7/8/8/2q5/3P4/8/4K3 w - - 0 1");
    let capture = find(&pos, "d3c4");
    let promotion = find(&pos, "a7a8q");
    let both = find(&pos, "a7b8q");
    let quiet = find(&pos, "e1f2");
    assert_eq!(move_priority(&capture, &None), 2);
    assert_eq!(move_priority(&promotion, &None), 3);
    assert_eq!(move_priority(&both, &None), 2);
    assert_eq!(move_priority(&quiet, &None), 4);
    assert_eq!(move_priority(&quiet, &Some(quiet.clone())), 1);
    assert_eq!(move_priority(&capture, &Some(capture.clone())), 1);
    assert_eq!(move_priority(&capture, &Some(quiet.clone())), 2);
    assert_eq!(move_priority(&quiet, &Some(capture)), 4);
}

#[test]
fn a_second_search_reuses_the_table() {
    let pos = position(HANGING_QUEEN);
    let mut table = TranspositionTable::new();
    let mut count = 0;
    let first = iterative_deepening(&pos, 4, Deadline::Never, &mut table, &mut count);
    let first_count = count;
    let second = iterative_deepening(&pos, 4, Deadline::Never, &mut table, &mut count);
    let second_count = count - first_count;
    assert!(first_count > 0);
    assert!(second_count < first_count);
    assert_eq!(second_count, 0);
    assert_eq!(first, second);
}

#[test]
fn the_deadline_is_honoured() {
    let pos = position(START);
    let mut table = TranspositionTable::new();
    let mut count = 0;
    let start = Instant::now();
    let deadline = Deadline::At(start + Duration::from_millis(50));
    let (best, _, depth) = iterative_deepening(&pos, 64, deadline, &mut table, &mut count);
    assert!(start.elapsed() <= Duration::from_millis(200));
    let best = best.expect("a move");
    assert!(moves_of(&pos).contains(&best));
    assert!(depth >= 1);
    assert!(depth < 64);
}

#[test]
fn a_deadline_in_the_past_yields_nothing() {
    let pos = position(START);
    let mut table = TranspositionTable::new();
    let mut count = 0;
    let deadline = Deadline::At(Instant::now());
    let found = iterative_deepening(&pos, 5, deadline, &mut table, &mut count);
    assert_eq!(found, (None, -INFINITY, 0));
    assert!(table.table.is_empty());
}

#[test]
fn a_distant_deadline_changes_nothing() {
    let pos = position(HANGING_QUEEN);
    let mut table = TranspositionTable::new();
    let mut count = 0;
    let deadline = Deadline::At(Instant::now() + Duration::from_secs(3_600));
    let timed = iterative_deepening(&pos, 1, deadline, &mut table, &mut count);
    let mut other_table = TranspositionTable::new();
    let mut other_count = 0;
    let free = iterative_deepening(&pos, 1, Deadline::Never, &mut other_table, &mut other_count);
    assert_eq!(timed, free);
    assert_eq!(count, other_count);
}

#[test]
fn depth_zero_searches_nothing() {
    let pos = position(START);
    let mut table = TranspositionTable::new();
    let mut count = 7;
    let found = iterative_deepening(&pos, 0, Deadline::Never, &mut table, &mut count);
    assert_eq!(found, (None, -INFINITY, 0));
    assert_eq!(count, 7);
    assert!(table.table.is_empty());
}

#[test]
fn a_finished_game_has_no_move() {
    for fen in [MATED, STALEMATED] {
        let pos = position(fen);
        let mut table = TranspositionTable::new();
        let mut count = 0;
        let found = iterative_deepening(&pos, 3, Deadline::Never, &mut table, &mut count);
        assert_eq!(found, (None, -INFINITY, 0));
        assert_eq!(count, 3);
        assert!(table.table.is_empty());
    }
}

#[test]
fn the_search_is_repeatable() {
    for fen in [START, HANGING_QUEEN, "6k1/5ppp/8/8/8/8/5PPP/R6K w - - 0 1"] {
        let pos = position(fen);
        let mut first_table = TranspositionTable::new();
        let mut first_count = 0;
        let first =
            iterative_deepening(&pos, 3, Deadline::Never, &mut first_table, &mut first_count);
        let mut second_table = TranspositionTable::new();
        let mut second_count = 0;
        let second =
            iterative_deepening(&pos, 3, Deadline::Never, &mut second_table, &mut second_count);
        assert_eq!(first, second);
        assert_eq!(first_count, second_count);
        assert_eq!(first_table.table.len(), second_table.table.len());
    }
}

#[test]
fn returned_moves_are_legal() {
    for fen in [
        START,
        HANGING_QUEEN,
        PROMOTION,
        "r1bqk1nr/pppp1ppp/2n5/2b1p3/2B1P3/5N2/PPPP1PPP/RNBQK2R w KQkq - 4 4",
        "rnbqkbnr/pp1ppppp/8/2p5/4P3/8/PPPP1PPP/RNBQKBNR w KQkq c6 0 2",
    ] {
        let pos = position(fen);
        let (best, score, depth) = search(&pos, 2);
        let best = best.expect("a move");
        assert!(moves_of(&pos).contains(&best));
        assert!(-INFINITY < score && score < INFINITY);
        assert_eq!(depth, 2);
    }
}

#[test]
fn the_result_of_the_search_is_stored() {
    let pos = position(HANGING_QUEEN);
    let mut table = TranspositionTable::new();
    let mut count = 0;
    let (best, score) =
        negamax(&pos, 1, 0, Deadline::Never, -INFINITY, INFINITY, &mut table, &mut count);
    assert_eq!(uci(best.as_ref().expect("a move")), "e4d5");
    assert_eq!(score, 135);
    let entry = table.lookup(hash(&pos)).expect("an entry");
    assert_eq!(entry.value, 135);
    assert_eq!(entry.best_move, best);
    assert_eq!(entry.depth, 1);
    assert_eq!(entry.bound, Bound::Exact);
    assert_eq!(table.table.len(), 1);
}

#[test]
fn a_narrow_window_stores_a_bound() {
    let pos = position(HANGING_QUEEN);
    let mut low = TranspositionTable::new();
    let mut count = 0;
    let (_, score) = negamax(&pos, 1, 0, Deadline::Never, -INFINITY, 100, &mut low, &mut count);
    assert_eq!(score, 100);
    let entry = low.lookup(hash(&pos)).expect("an entry");
    assert_eq!(entry.bound, Bound::LowerBound);
    assert_eq!(entry.value, 100);
    let mut high = TranspositionTable::new();
    let (_, score) = negamax(&pos, 1, 0, Deadline::Never, 200, INFINITY, &mut high, &mut count);
    assert_eq!(score, 200);
    let entry = high.lookup(hash(&pos)).expect("an entry");
    assert_eq!(entry.bound, Bound::UpperBound);
    assert_eq!(entry.value, 200);
}

#[test]
fn a_finished_game_is_scored_by_its_outcome() {
    let mut table = TranspositionTable::new();
    let mut count = 0;
    let mated = position(MATED);
    let found = negamax(&mated, 2, 5, Deadline::Never, -INFINITY, INFINITY, &mut table, &mut count);
    assert_eq!(found, (None, -9_995));
    assert_eq!(count, 1);
    let stalemate = position(STALEMATED);
    let found =
        negamax(&stalemate, 2, 5, Deadline::Never, -INFINITY, INFINITY, &mut table, &mut count);
    assert_eq!(found, (None, -50));
    assert_eq!(count, 2);
    let bare = position("4k3/8/8/8/8/8/8/4K3 w - - 0 1");
    let found = negamax(&bare, 0, 0, Deadline::Never, -INFINITY, INFINITY, &mut table, &mut count);
    assert_eq!(found, (None, -50));
    assert_eq!(count, 3);
    assert!(table.table.is_empty());
}

#[test]
fn depth_zero_is_quiescence() {
    let pos = position(HANGING_QUEEN);
    let mut table = TranspositionTable::new();
    let mut count = 0;
    let found = negamax(&pos, 0, 0, Deadline::Never, -INFINITY, INFINITY, &mut table, &mut count);
    let mut other = 0;
    assert_eq!(found, (None, quiesce(&pos, 0, -INFINITY, INFINITY, &mut other)));
    assert_eq!(count, other);
    assert!(table.table.is_empty());
}

#[test]
fn a_deep_entry_answers_the_search() {
    let pos = position(HANGING_QUEEN);
    let quiet = find(&pos, "e1f2");
    let mut table = TranspositionTable::new();
    table.store(
        hash(&pos),
        TTEntry { value: -321, best_move: Some(quiet.clone()), depth: 5, bound: Bound::Exact },
    );
    let mut count = 0;
    let found = negamax(&pos, 3, 0, Deadline::Never, -INFINITY, INFINITY, &mut table, &mut count);
    assert_eq!(found, (Some(quiet.clone()), -321));
    assert_eq!(count, 0);
    assert_eq!(table.table.len(), 1);
    let found = negamax(&pos, 5, 0, Deadline::Never, -INFINITY, INFINITY, &mut table, &mut count);
    assert_eq!(found, (Some(quiet), -321));
    assert_eq!(count, 0);
}

#[test]
fn a_shallow_entry_does_not_answer() {
    let pos = position(HANGING_QUEEN);
    let quiet = find(&pos, "e1f2");
    let mut table = TranspositionTable::new();
    table.store(
        hash(&pos),
        TTEntry { value: -321, best_move: Some(quiet), depth: 1, bound: Bound::Exact },
    );
    let mut count = 0;
    let (best, score) =
        negamax(&pos, 2, 0, Deadline::Never, -INFINITY, INFINITY, &mut table, &mut count);
    assert_eq!(uci(&best.expect("a move")), "e4d5");
    assert_ne!(score, -321);
    assert!(count > 0);
    assert_eq!(table.lookup(hash(&pos)).expect("an entry").depth, 2);
}

#[test]
fn probing_follows_the_bound() {
    let mut table = TranspositionTable::new();
    table.store(1, TTEntry { value: 40, best_move: None, depth: 3, bound: Bound::Exact });
    table.store(2, TTEntry { value: 40, best_move: None, depth: 3, bound: Bound::LowerBound });
    table.store(3, TTEntry { value: 40, best_move: None, depth: 3, bound: Bound::UpperBound });
    assert_eq!(probe(&table, 1, 3, -10, 10), Some((None, 40)));
    assert_eq!(probe(&table, 1, 2, 50, 60), Some((None, 40)));
    assert_eq!(probe(&table, 1, 4, -10, 10), None);
    assert_eq!(probe(&table, 2, 3, -10, 40), Some((None, 40)));
    assert_eq!(probe(&table, 2, 3, -10, 41), None);
    assert_eq!(probe(&table, 2, 4, -10, 10), None);
    assert_eq!(probe(&table, 3, 3, 40, 100), Some((None, 40)));
    assert_eq!(probe(&table, 3, 3, 39, 100), None);
    assert_eq!(probe(&table, 3, 4, 90, 100), None);
    assert_eq!(probe(&table, 4, 0, -10, 10), None);
}

#[test]
fn results_are_classified_against_the_window() {
    assert_eq!(classify(5, 0, 10), (Bound::Exact, 5));
    assert_eq!(classify(0, 0, 10), (Bound::UpperBound, 0));
    assert_eq!(classify(-7, 0, 10), (Bound::UpperBound, 0));
    assert_eq!(classify(10, 0, 10), (Bound::LowerBound, 10));
    assert_eq!(classify(99, 0, 10), (Bound::LowerBound, 10));
    assert_eq!(classify(1, 0, 10), (Bound::Exact, 1));
    assert_eq!(classify(9, 0, 10), (Bound::Exact, 9));
    assert_eq!(classify(3, 7, 7), (Bound::UpperBound, 7));
}

#[test]
fn quiescence_plays_out_the_capture() {
    let pos = position(HANGING_QUEEN);
    let mut count = 0;
    assert_eq!(static_score(&pos), -675);
    assert_eq!(quiesce(&pos, 0, -INFINITY, INFINITY, &mut count), 135);
    assert_eq!(count, 2);
}

#[test]
fn quiescence_is_at_least_the_static_score() {
    for fen in [
        START,
        HANGING_QUEEN,
        PROMOTION,
        "r1bqk1nr/pppp1ppp/2n5/2b1p3/2B1P3/5N2/PPPP1PPP/RNBQK2R w KQkq - 4 4",
        "r3k2r/pPpq1ppp/2n1bn2/3pp3/3PP3/2N1BN2/P1PQ1PPP/R3K2R w KQkq - 0 1",
        "4k3/8/8/3q4/4P3/8/8/4K3 b - - 0 1",
    ] {
        let pos = position(fen);
        let mut count = 0;
        assert!(quiesce(&pos, 0, -INFINITY, INFINITY, &mut count) >= static_score(&pos));
        assert!(count >= 1);
    }
}

#[test]
fn quiescence_stops_at_the_last_ply() {
    let pos = position(HANGING_QUEEN);
    let mut count = 0;
    assert_eq!(quiesce(&pos, 3, -INFINITY, INFINITY, &mut count), -675);
    assert_eq!(count, 1);
    assert_eq!(quiesce(&pos, 3, -INFINITY, -1_000, &mut count), -675);
    assert_eq!(quiesce(&pos, 40, 500, 600, &mut count), -675);
    assert_eq!(count, 3);
}

#[test]
fn quiescence_fails_high_at_beta() {
    let pos = position(HANGING_QUEEN);
    let mut count = 0;
    assert_eq!(quiesce(&pos, 0, -INFINITY, -675, &mut count), -675);
    assert_eq!(quiesce(&pos, 0, -INFINITY, -700, &mut count), -700);
    assert_eq!(count, 2);
}

#[test]
fn quiescence_keeps_a_high_alpha() {
    let pos = position(HANGING_QUEEN);
    let mut count = 0;
    assert_eq!(quiesce(&pos, 0, 500, 600, &mut count), 500);
    assert_eq!(count, 2);
    assert_eq!(quiesce(&pos, 0, -INFINITY, 100, &mut count), 100);
    assert_eq!(quiesce(&pos, 0, -INFINITY, 136, &mut count), 135);
}

#[test]
fn quiescence_scores_a_finished_game() {
    let mut count = 0;
    assert_eq!(quiesce(&position(MATED), 2, -INFINITY, INFINITY, &mut count), -9_998);
    assert_eq!(quiesce(&position(STALEMATED), 0, -INFINITY, INFINITY, &mut count), -50);
    assert_eq!(quiesce(&position(MATED), 0, 3, 4, &mut count), -10_000);
    assert_eq!(count, 3);
}

#[test]
fn quiescence_passes_over_quiet_moves() {
    let pos = position(START);
    let mut count = 0;
    assert_eq!(quiesce(&pos, 0, -INFINITY, INFINITY, &mut count), 30);
    assert_eq!(count, 1);
}

#[test]
fn quiescence_sees_a_promotion() {
    let pos = position("4k3/P7/8/8/8/8/8/4K3 w - - 0 1");
    let mut count = 0;
    let quiet = static_score(&pos);
    let searched = quiesce(&pos, 0, -INFINITY, INFINITY, &mut count);
    assert!(searched > quiet + 500);
    assert_eq!(searched, -static_score(&after(&pos, "a7a8q")));
    assert_eq!(count, 5);
}

#[test]
fn the_counter_stops_at_its_maximum() {
    let pos = position(START);
    let mut count = usize::MAX - 1;
    quiesce(&pos, 0, -INFINITY, INFINITY, &mut count);
    assert_eq!(count, usize::MAX);
    quiesce(&pos, 0, -INFINITY, INFINITY, &mut count);
    assert_eq!(count, usize::MAX);
    let mut table = TranspositionTable::new();
    negamax(&pos, 1, 0, Deadline::Never, -INFINITY, INFINITY, &mut table, &mut count);
    assert_eq!(count, usize::MAX);
}

#[test]
fn a_search_scores_every_leaf_once() {
    let pos = position(START);
    let mut table = TranspositionTable::new();
    let mut count = 0;
    let (best, score) =
        negamax(&pos, 1, 0, Deadline::Never, -INFINITY, INFINITY, &mut table, &mut count);
    assert_eq!(count, 20);
    let best = best.expect("a move");
    assert_eq!(score, -static_score(&after(&pos, &uci(&best))));
    for m in moves_of(&pos) {
        assert!(-static_score(&after(&pos, &uci(&m))) <= score);
    }
}

#[test]
fn an_exact_result_at_depth_one_is_the_full_window_score() {
    for fen in [START, HANGING_QUEEN, PROMOTION] {
        let pos = position(fen);
        let mut fresh = TranspositionTable::new();
        let mut count = 0;
        let (_, full) =
            negamax(&pos, 1, 0, Deadline::Never, -INFINITY, INFINITY, &mut fresh, &mut count);
        let mut table = TranspositionTable::new();
        let (_, narrow) =
            negamax(&pos, 1, 0, Deadline::Never, full - 10, full + 10, &mut table, &mut count);
        let entry = table.lookup(hash(&pos)).expect("an entry");
        assert_eq!(entry.bound, Bound::Exact);
        assert_eq!(entry.depth, 1);
        assert_eq!(entry.value, full);
        assert_eq!(narrow, full);
    }
}

#[test]
fn quiescence_inside_the_window_is_the_full_window_score() {
    for fen in [START, HANGING_QUEEN, PROMOTION, "4k3/8/8/3q4/4P3/8/8/4K3 b - - 0 1"] {
        let pos = position(fen);
        let mut count = 0;
        let full = quiesce(&pos, 0, -INFINITY, INFINITY, &mut count);
        assert_eq!(quiesce(&pos, 0, full - 1, full + 1, &mut count), full);
        assert_eq!(quiesce(&pos, 0, full - 500, full + 3, &mut count), full);
        assert!(quiesce(&pos, 0, full, full + 50, &mut count) <= full);
        assert!(quiesce(&pos, 0, full - 50, full, &mut count) >= full);
    }
}

#[test]
fn a_fresh_table_needs_no_trust_in_the_hash() {
    let pos = position(HANGING_QUEEN);
    let mut table = TranspositionTable::new();
    let mut count = 0;
    assert!(table.lookup(hash(&pos)).is_none());
    let (best, _, _) = iterative_deepening(&pos, 3, Deadline::Never, &mut table, &mut count);
    assert!(moves_of(&pos).contains(&best.expect("a move")));
    assert!(table.table.values().all(|entry| entry.depth <= 3));
    assert_eq!(table.lookup(hash(&pos)).expect("an entry").depth, 3);
}

#[test]
fn the_fallback_is_the_first_legal_move() {
    for fen in [START, HANGING_QUEEN, PROMOTION] {
        let pos = position(fen);
        assert_eq!(first_legal_move(&pos), Some(moves_of(&pos)[0].clone()));
    }
    assert_eq!(first_legal_move(&position(MATED)), None);
    assert_eq!(first_legal_move(&position(STALEMATED)), None);
}

#[test]
fn a_short_game_is_played_with_one_table() {
    let mut pos = position(START);
    let mut table = TranspositionTable::new();
    let mut count = 0;
    for _ in 0..12 {
        if pos.is_game_over() {
            break;
        }
        let (best, score, depth) =
            iterative_deepening(&pos, 2, Deadline::Never, &mut table, &mut count);
        let best = best.expect("a move");
        assert!(moves_of(&pos).contains(&best));
        assert!(-INFINITY < score && score < INFINITY);
        assert_eq!(depth, 2);
        pos.play_unchecked(&best);
    }
    assert!(count > 0);
    assert!(!table.table.is_empty());
}
