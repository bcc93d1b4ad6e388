use je_bot::bitboard::{contains, file_mask, get_neighbour_files, ranks_above, ranks_below};
use je_bot::board::{Board, Color, Outcome, Piece, Role};
use je_bot::evaluate::{
    bishop_pair_value, evaluate_outcome, evaluate_position, isolated_pawn_value,
    king_protection_value, open_file_value, passed_pawn_value, piece_square_value, piece_value,
    stacked_pawn_value,
};

/// Reads the piece placement and the side to move of a FEN string.
fn read(fen: &str) -> (Board, Color) {
    let mut board = Board {
        pawns: 0,
        knights: 0,
        bishops: 0,
        rooks: 0,
        queens: 0,
        kings: 0,
        white: 0,
        black: 0,
    };
    let mut parts = fen.split(' ');
    let placement = parts.next().unwrap();
    let turn = if parts.next().unwrap() == "w" { Color::White } else { Color::Black };
    let mut rank: u32 = 7;
    let mut file: u32 = 0;
    for ch in placement.chars() {
        if ch == '/' {
            rank -= 1;
            file = 0;
        } else if let Some(skip) = ch.to_digit(10) {
            file += skip;
        } else {
            let bit = 1u64 << (rank * 8 + file);
            match ch.to_ascii_lowercase() {
                'p' => board.pawns |= bit,
                'n' => board.knights |= bit,
                'b' => board.bishops |= bit,
                'r' => board.rooks |= bit,
                'q' => board.queens |= bit,
                'k' => board.kings |= bit,
                other => panic!("unexpected piece {}", other),
            }
            if ch.is_ascii_uppercase() {
                board.white |= bit;
            } else {
                board.black |= bit;
            }
            file += 1;
        }
    }
    (board, turn)
}

fn score(fen: &str) -> i32 {
    let (board, turn) = read(fen);
    evaluate_position(&board, turn)
}

/// The position with every piece moved to the mirrored rank, the colours
/// exchanged and the other side to move.
fn mirrored(board: &Board, turn: Color) -> (Board, Color) {
    let flipped = Board {
        pawns: board.pawns.swap_bytes(),
        knights: board.knights.swap_bytes(),
        bishops: board.bishops.swap_bytes(),
        rooks: board.rooks.swap_bytes(),
        queens: board.queens.swap_bytes(),
        kings: board.kings.swap_bytes(),
        white: board.black.swap_bytes(),
        black: board.white.swap_bytes(),
    };
    (flipped, turn.other())
}

#[test]
fn file_masks_cover_their_files() {
    assert_eq!(file_mask(0), 0x0101_0101_0101_0101);
    assert_eq!(file_mask(4), 0x1010_1010_1010_1010);
    assert_eq!(file_mask(7), 0x8080_8080_8080_8080);
}

#[test]
fn neighbours_of_the_edge_files_are_single_files() {
    assert_eq!(get_neighbour_files(0), 0x0202_0202_0202_0202);
    assert_eq!(get_neighbour_files(7), 0x4040_4040_4040_4040);
}

#[test]
fn neighbours_of_an_inner_file_are_both_sides() {
    assert_eq!(get_neighbour_files(3), 0x1414_1414_1414_1414);
    assert_eq!(get_neighbour_files(1), 0x0505_0505_0505_0505);
    assert_eq!(get_neighbour_files(6), 0xa0a0_a0a0_a0a0_a0a0);
}

#[test]
fn rank_masks_are_strict() {
    assert_eq!(ranks_above(0), 0xffff_ffff_ffff_ff00);
    assert_eq!(ranks_above(3), 0xffff_ffff_0000_0000);
    assert_eq!(ranks_above(6), 0xff00_0000_0000_0000);
    assert_eq!(ranks_above(7), 0);
    assert_eq!(ranks_below(0), 0);
    assert_eq!(ranks_below(1), 0xff);
    assert_eq!(ranks_below(4), 0xffff_ffff);
    assert_eq!(ranks_below(7), 0x00ff_ffff_ffff_ffff);
}

#[test]
fn membership_reads_single_bits() {
    assert!(contains(1, 0));
    assert!(!contains(1, 1));
    assert!(contains(0x8000_0000_0000_0000, 63));
    assert!(!contains(0x7fff_ffff_ffff_ffff, 63));
    assert!(contains(0x10, 4));
}

#[test]
fn pieces_are_read_from_the_bitboards() {
    let (board, _) = read("rnbqkbnr/pppppppp/8/8/8/8/PPPPPPPP/RNBQKBNR w KQkq - 0 1");
    assert_eq!(board.piece_on(0), Some(Piece { color: Color::White, role: Role::Rook }));
    assert_eq!(board.piece_on(1), Some(Piece { color: Color::White, role: Role::Knight }));
    assert_eq!(board.piece_on(2), Some(Piece { color: Color::White, role: Role::Bishop }));
    assert_eq!(board.piece_on(3), Some(Piece { color: Color::White, role: Role::Queen }));
    assert_eq!(board.piece_on(4), Some(Piece { color: Color::White, role: Role::King }));
    assert_eq!(board.piece_on(12), Some(Piece { color: Color::White, role: Role::Pawn }));
    assert_eq!(board.piece_on(28), None);
    assert_eq!(board.piece_on(52), Some(Piece { color: Color::Black, role: Role::Pawn }));
    assert_eq!(board.piece_on(60), Some(Piece { color: Color::Black, role: Role::King }));
    assert_eq!(board.piece_on(63), Some(Piece { color: Color::Black, role: Role::Rook }));
    assert_eq!(board.by_color(Color::White), 0xffff);
    assert_eq!(board.by_color(Color::Black), 0xffff_0000_0000_0000);
}

#[test]
fn consistency_is_checked() {
    let (board, _) = read("rnbqkbnr/pppppppp/8/8/8/8/PPPPPPPP/RNBQKBNR w KQkq - 0 1");
    assert!(board.is_consistent());
    let mut two_roles = board;
    two_roles.knights |= 1;
    assert!(!two_roles.is_consistent());
    let mut two_sides = board;
    two_sides.black |= 1;
    assert!(!two_sides.is_consistent());
    let mut no_side = board;
    no_side.pawns |= 1 << 30;
    assert!(!no_side.is_consistent());
    let mut no_role = board;
    no_role.white |= 1 << 30;
    assert!(!no_role.is_consistent());
}

#[test]
fn colours_flip() {
    assert_eq!(Color::White.other(), Color::Black);
    assert_eq!(Color::Black.other(), Color::White);
}

#[test]
fn a_win_is_worth_the_mate_score_less_the_ply() {
    let white_wins = Outcome::Decisive { winner: Color::White };
    assert_eq!(evaluate_outcome(white_wins, Color::White, &0), 10_000);
    assert_eq!(evaluate_outcome(white_wins, Color::White, &1), 9_999);
    assert_eq!(evaluate_outcome(white_wins, Color::White, &3), 9_997);
    assert_eq!(evaluate_outcome(white_wins, Color::White, &10_000), 0);
}

#[test]
fn a_loss_is_worth_the_opposite() {
    let white_wins = Outcome::Decisive { winner: Color::White };
    let black_wins = Outcome::Decisive { winner: Color::Black };
    assert_eq!(evaluate_outcome(white_wins, Color::Black, &0), -10_000);
    assert_eq!(evaluate_outcome(white_wins, Color::Black, &1), -9_999);
    assert_eq!(evaluate_outcome(black_wins, Color::White, &7), -9_993);
    assert_eq!(evaluate_outcome(black_wins, Color::Black, &7), 9_993);
}

#[test]
fn a_draw_is_slightly_bad() {
    assert_eq!(evaluate_outcome(Outcome::Draw, Color::White, &0), -50);
    assert_eq!(evaluate_outcome(Outcome::Draw, Color::Black, &12), -50);
}

#[test]
fn quicker_mates_score_higher_for_the_winner() {
    let win = Outcome::Decisive { winner: Color::Black };
    let in_one = evaluate_outcome(win, Color::Black, &1);
    let in_three = evaluate_outcome(win, Color::Black, &3);
    assert!(in_one > in_three);
    assert!(in_one.abs() <= 10_000 && in_three.abs() <= 10_000);
    let lost_in_one = evaluate_outcome(win, Color::White, &1);
    let lost_in_three = evaluate_outcome(win, Color::White, &3);
    assert!(lost_in_one < lost_in_three);
    assert!(lost_in_one.abs() > lost_in_three.abs());
}

#[test]
fn the_largest_ply_is_accepted() {
    let win = Outcome::Decisive { winner: Color::White };
    let ply = i32::MAX as usize;
    assert_eq!(evaluate_outcome(win, Color::White, &ply), 10_000 - i32::MAX);
    assert_eq!(evaluate_outcome(win, Color::Black, &ply), i32::MAX - 10_000);
}

#[test]
fn material_values() {
    let of = |role| piece_value(Piece { color: Color::White, role });
    assert_eq!(of(Role::Pawn), 100);
    assert_eq!(of(Role::Knight), 300);
    assert_eq!(of(Role::Bishop), 300);
    assert_eq!(of(Role::Rook), 500);
    assert_eq!(of(Role::Queen), 900);
    assert_eq!(of(Role::King), 0);
    assert_eq!(piece_value(Piece { color: Color::Black, role: Role::Queen }), 900);
}

#[test]
fn white_reads_its_table_backwards() {
    let pawn = Piece { color: Color::White, role: Role::Pawn };
    assert_eq!(piece_square_value(pawn, 28, false), 20);
    assert_eq!(piece_square_value(pawn, 11, false), -20);
    assert_eq!(piece_square_value(pawn, 51, false), 50);
    let knight = Piece { color: Color::White, role: Role::Knight };
    assert_eq!(piece_square_value(knight, 0, false), -50);
    assert_eq!(piece_square_value(knight, 27, false), 20);
    let queen = Piece { color: Color::White, role: Role::Queen };
    assert_eq!(piece_square_value(queen, 17, false), 0);
    assert_eq!(piece_square_value(queen, 22, false), 5);
}

#[test]
fn black_reads_its_table_forwards() {
    let pawn = Piece { color: Color::Black, role: Role::Pawn };
    assert_eq!(piece_square_value(pawn, 36, false), 20);
    assert_eq!(piece_square_value(pawn, 8, false), 50);
    assert_eq!(piece_square_value(pawn, 51, false), -20);
    let rook = Piece { color: Color::Black, role: Role::Rook };
    assert_eq!(piece_square_value(rook, 9, false), 10);
    assert_eq!(piece_square_value(rook, 59, false), 5);
    let queen = Piece { color: Color::Black, role: Role::Queen };
    assert_eq!(piece_square_value(queen, 41, false), 5);
    assert_eq!(piece_square_value(queen, 46, false), 0);
}

#[test]
fn the_king_has_two_tables() {
    let white = Piece { color: Color::White, role: Role::King };
    assert_eq!(piece_square_value(white, 6, false), 30);
    assert_eq!(piece_square_value(white, 6, true), -30);
    assert_eq!(piece_square_value(white, 35, false), -50);
    assert_eq!(piece_square_value(white, 35, true), 40);
    let black = Piece { color: Color::Black, role: Role::King };
    assert_eq!(piece_square_value(black, 62, false), 30);
    assert_eq!(piece_square_value(black, 62, true), -30);
    let bishop = Piece { color: Color::Black, role: Role::Bishop };
    assert_eq!(piece_square_value(bishop, 0, true), piece_square_value(bishop, 0, false));
}

#[test]
fn a_pawn_without_opposition_is_passed() {
    let (board, _) = read("4k3/8/8/3P4/8/8/8/4K3 w - - 0 1");
    assert_eq!(passed_pawn_value(&board, 35, Color::White), 20);
}

#[test]
fn a_pawn_ahead_on_a_near_file_blocks() {
    for fen in [
        "4k3/2p5/8/3P4/8/8/8/4K3 w - - 0 1",
        "4k3/3p4/8/3P4/8/8/8/4K3 w - - 0 1",
        "4k3/8/4p3/3P4/8/8/8/4K3 w - - 0 1",
    ] {
        let (board, _) = read(fen);
        assert_eq!(passed_pawn_value(&board, 35, Color::White), 0);
    }
}

#[test]
fn pawns_beside_behind_or_far_away_do_not_block() {
    for fen in [
        "4k3/8/8/2pP4/8/8/8/4K3 w - - 0 1",
        "4k3/8/8/3P4/4p3/8/8/4K3 w - - 0 1",
        "4k3/1p6/8/3P4/8/8/8/4K3 w - - 0 1",
        "4k3/5p2/8/3P4/8/8/8/4K3 w - - 0 1",
        "4k3/2P5/8/3P4/8/8/8/4K3 w - - 0 1",
    ] {
        let (board, _) = read(fen);
        assert_eq!(passed_pawn_value(&board, 35, Color::White), 20);
    }
}

#[test]
fn black_pawns_advance_downwards() {
    let (free, _) = read("4k3/8/8/8/3p4/8/8/4K3 b - - 0 1");
    assert_eq!(passed_pawn_value(&free, 27, Color::Black), 20);
    let (blocked, _) = read("4k3/8/8/8/3p4/8/4P3/4K3 b - - 0 1");
    assert_eq!(passed_pawn_value(&blocked, 27, Color::Black), 0);
    let (behind, _) = read("4k3/8/8/4P3/3p4/8/8/4K3 b - - 0 1");
    assert_eq!(passed_pawn_value(&behind, 27, Color::Black), 20);
}

#[test]
fn passed_pawns_on_the_edge_files() {
    let (left, _) = read("4k3/1p6/8/8/P7/8/8/4K3 w - - 0 1");
    assert_eq!(passed_pawn_value(&left, 24, Color::White), 0);
    let (right, _) = read("4k3/p7/8/8/7P/8/8/4K3 w - - 0 1");
    assert_eq!(passed_pawn_value(&right, 31, Color::White), 20);
    let (last, _) = read("4k3/7P/8/8/8/8/p7/4K3 w - - 0 1");
    assert_eq!(passed_pawn_value(&last, 55, Color::White), 20);
    assert_eq!(passed_pawn_value(&last, 8, Color::Black), 20);
}

#[test]
fn rooks_on_open_files() {
    let (ours, turn) = read("4k3/p7/8/8/8/8/P7/3RK3 w - - 0 1");
    assert_eq!(open_file_value(&ours, turn), 30);
    let (theirs, turn) = read("3rk3/p7/8/8/8/8/P7/4K3 w - - 0 1");
    assert_eq!(open_file_value(&theirs, turn), -30);
    let (both, turn) = read("3rk3/p7/8/8/8/8/P7/3RK3 w - - 0 1");
    assert_eq!(open_file_value(&both, turn), 0);
}

#[test]
fn rooks_on_half_open_files() {
    let (half, turn) = read("4k3/p2p4/8/8/8/8/P7/3RK3 w - - 0 1");
    assert_eq!(open_file_value(&half, turn), 20);
    assert_eq!(open_file_value(&half, turn.other()), -20);
    let (closed, turn) = read("4k3/p2p4/8/8/8/8/P2P4/3RK3 w - - 0 1");
    assert_eq!(open_file_value(&closed, turn), 0);
    let (own_pawn, turn) = read("4k3/p7/8/8/8/8/P2P4/3RK3 w - - 0 1");
    assert_eq!(open_file_value(&own_pawn, turn), 0);
}

#[test]
fn a_file_without_rooks_has_no_rook_bonus() {
    let (board, turn) = read("4k3/8/8/8/8/8/8/4K3 w - - 0 1");
    assert_eq!(open_file_value(&board, turn), 0);
}

#[test]
fn isolated_pawns_count_once_a_file() {
    let (apart, turn) = read("4k3/8/8/8/8/8/P1P5/4K3 w - - 0 1");
    assert_eq!(isolated_pawn_value(&apart, turn), -20);
    assert_eq!(isolated_pawn_value(&apart, turn.other()), 20);
    let (joined, turn) = read("4k3/8/8/8/8/8/PP6/4K3 w - - 0 1");
    assert_eq!(isolated_pawn_value(&joined, turn), 0);
    let (stacked, turn) = read("4k3/8/8/8/P7/8/P7/4K3 w - - 0 1");
    assert_eq!(isolated_pawn_value(&stacked, turn), -10);
    let (edge, turn) = read("4k3/8/8/8/8/8/6PP/4K3 w - - 0 1");
    assert_eq!(isolated_pawn_value(&edge, turn), 0);
    let (mixed, turn) = read("4k3/p2p4/8/8/8/8/P7/3RK3 w - - 0 1");
    assert_eq!(isolated_pawn_value(&mixed, turn), 10);
}

#[test]
fn king_files_with_and_without_pawns() {
    let (sheltered, turn) = read("4k3/4p3/8/8/8/8/4P3/4K3 w - - 0 1");
    assert_eq!(king_protection_value(&sheltered, turn), 0);
    let (ours_only, turn) = read("4k3/8/8/8/8/8/4P3/4K3 w - - 0 1");
    assert_eq!(king_protection_value(&ours_only, turn), 100);
    assert_eq!(king_protection_value(&ours_only, turn.other()), -100);
    let (theirs_only, turn) = read("4k3/4p3/8/8/8/8/8/4K3 w - - 0 1");
    assert_eq!(king_protection_value(&theirs_only, turn), -100);
    let (apart, turn) = read("3k4/8/8/8/8/8/4P3/4K3 w - - 0 1");
    assert_eq!(king_protection_value(&apart, turn), 50);
    let (bare, turn) = read("3k4/8/8/8/8/8/8/4K3 w - - 0 1");
    assert_eq!(king_protection_value(&bare, turn), 0);
    let (their_shelter, turn) = read("3k4/3p4/8/8/8/8/8/4K3 w - - 0 1");
    assert_eq!(king_protection_value(&their_shelter, turn), -50);
}

#[test]
fn the_bishop_pair_is_not_symmetric() {
    let (pair, turn) = read("4k3/8/8/8/8/8/8/2B1KB2 w - - 0 1");
    assert_eq!(bishop_pair_value(&pair, turn), 30);
    assert_eq!(bishop_pair_value(&pair, turn.other()), 0);
    let (single, turn) = read("2b1k3/8/8/8/8/8/8/2B1K3 w - - 0 1");
    assert_eq!(bishop_pair_value(&single, turn), -30);
    let (both, turn) = read("2b1kb2/8/8/8/8/8/8/2B1KB2 w - - 0 1");
    assert_eq!(bishop_pair_value(&both, turn), 30);
    let (lone, turn) = read("4k3/8/8/8/8/8/8/2B1K3 w - - 0 1");
    assert_eq!(bishop_pair_value(&lone, turn), 0);
    assert_eq!(bishop_pair_value(&lone, turn.other()), -30);
    let (three, turn) = read("4k3/8/8/8/8/8/8/1BB1KB2 w - - 0 1");
    assert_eq!(bishop_pair_value(&three, turn), 0);
}

#[test]
fn doubled_pawns_count_once_a_file() {
    let (doubled, turn) = read("4k3/8/8/8/P7/8/P7/4K3 w - - 0 1");
    assert_eq!(stacked_pawn_value(&doubled, turn), -15);
    assert_eq!(stacked_pawn_value(&doubled, turn.other()), 15);
    let (tripled, turn) = read("4k3/8/8/P7/P7/8/P7/4K3 w - - 0 1");
    assert_eq!(stacked_pawn_value(&tripled, turn), -15);
    let (two_files, turn) = read("4k3/8/8/8/P6P/8/P6P/4K3 w - - 0 1");
    assert_eq!(stacked_pawn_value(&two_files, turn), -30);
    let (even, turn) = read("4k3/pp6/p7/8/PP6/P7/P7/4K3 w - - 0 1");
    assert_eq!(stacked_pawn_value(&even, turn), 0);
    let (opposed, turn) = read("4k3/p7/8/8/8/8/P7/4K3 w - - 0 1");
    assert_eq!(stacked_pawn_value(&opposed, turn), 0);
}

#[test]
fn the_initial_position_scores_the_bishop_pair() {
    assert_eq!(score("rnbqkbnr/pppppppp/8/8/8/8/PPPPPPPP/RNBQKBNR w KQkq - 0 1"), 30);
    assert_eq!(score("rnbqkbnr/pppppppp/8/8/8/8/PPPPPPPP/RNBQKBNR b KQkq - 0 1"), 30);
}

#[test]
fn bare_kings_score_nothing() {
    assert_eq!(score("4k3/8/8/8/8/8/8/4K3 w - - 0 1"), 0);
    assert_eq!(score("4k3/8/8/8/8/8/8/4K3 b - - 0 1"), 0);
}

#[test]
fn whole_positions_have_their_exact_scores() {
    assert_eq!(score("4k3/p7/8/8/8/8/P7/3RK3 w - - 0 1"), 535);
    assert_eq!(score("4k3/p2p4/8/8/8/8/P7/3RK3 w - - 0 1"), 435);
    assert_eq!(score("4k3/p2p4/8/8/8/8/P2P4/3RK3 w - - 0 1"), 505);
    assert_eq!(score("3rk3/p7/8/8/8/8/P7/4K3 w - - 0 1"), -535);
    assert_eq!(score("4k3/8/8/8/8/8/P1P5/4K3 w - - 0 1"), 235);
    assert_eq!(score("4k3/8/8/8/8/8/PP6/4K3 w - - 0 1"), 255);
    assert_eq!(score("4k3/8/8/8/P7/8/P7/4K3 w - - 0 1"), 220);
    assert_eq!(score("4k3/8/8/8/P7/8/P7/4K3 b - - 0 1"), -220);
    assert_eq!(score("4k3/8/8/8/8/8/8/2B1KB2 w - - 0 1"), 610);
    assert_eq!(score("2b1k3/8/8/8/8/8/8/2B1K3 w - - 0 1"), -30);
    assert_eq!(score("2b1kb2/8/8/8/8/8/8/4K3 w - - 0 1"), -580);
    assert_eq!(score("4k3/4p3/8/8/8/8/4P3/4K3 w - - 0 1"), 0);
    assert_eq!(score("6k1/5ppp/8/8/8/8/5PPP/R6K w - - 0 1"), 510);
    assert_eq!(score("4k3/8/8/3q4/4P3/8/8/4K3 w - - 0 1"), -675);
    assert_eq!(score("7k/5Q2/6K1/8/8/8/8/8 w - - 0 1"), 940);
}

#[test]
fn the_middlegame_king_table_is_used_with_five_pieces() {
    assert_eq!(score("r3k2r/8/8/8/8/8/8/R2QK2R w - - 0 1"), 895);
}

#[test]
fn a_developed_position_has_its_exact_score() {
    assert_eq!(
        score("r1bqk1nr/pppp1ppp/2n5/2b1p3/2B1P3/5N2/PPPP1PPP/RNBQK2R w KQkq - 4 4"),
        30
    );
}

#[test]
fn passed_pawn_recognized() {
    let free = score("4k3/8/8/3P4/8/8/8/4K3 w - - 0 1");
    let opposed = score("4k3/2p5/8/3P4/8/8/8/4K3 w - - 0 1");
    assert_eq!(free, 135);
    assert_eq!(opposed, 15);
    assert!(free >= opposed + 20);
    assert_eq!(score("4k3/8/8/3P4/2p5/8/8/4K3 w - - 0 1"), 15);
    assert_eq!(score("4k3/8/8/8/3p4/8/8/4K3 b - - 0 1"), 135);
    assert_eq!(score("4k3/8/8/8/3p4/8/4P3/4K3 b - - 0 1"), -55);
}

#[test]
fn static_scores_stay_below_the_mate_scores() {
    assert_eq!(score("4k3/8/8/8/QQQQQQQQ/8/8/Q3K3 w - - 0 1"), 8_095);
    assert_eq!(score("4k3/8/8/8/QQQQQQQQ/8/8/Q3K3 b - - 0 1"), -8_095);
    assert_eq!(score("4k3/8/8/QQQ5/QQQQQQQQ/8/8/Q3K3 w - - 0 1"), 9_000);
    assert_eq!(score("4k3/8/8/QQQ5/QQQQQQQQ/8/8/Q3K3 b - - 0 1"), -9_000);
    let full = Board {
        pawns: 0,
        knights: 0,
        bishops: 0,
        rooks: 0,
        queens: u64::MAX,
        kings: 0,
        white: u64::MAX,
        black: 0,
    };
    assert_eq!(evaluate_position(&full, Color::White), 9_000);
    assert_eq!(evaluate_position(&full, Color::Black), -9_000);
}

#[test]
fn mirrored_positions_score_alike() {
    for fen in [
        "rnbqkbnr/pppppppp/8/8/8/8/PPPPPPPP/RNBQKBNR w KQkq - 0 1",
        "r1bqk1nr/pppp1ppp/2n5/2b1p3/2B1P3/5N2/PPPP1PPP/RNBQK2R w KQkq - 4 4",
        "4k3/p2p4/8/8/8/8/P7/3RK3 w - - 0 1",
        "4k3/8/8/8/3p4/8/4P3/4K3 b - - 0 1",
        "2b1k3/8/8/8/8/8/8/2B1KB2 w - - 0 1",
        "6k1/5ppp/8/8/8/8/5PPP/R6K b - - 0 1",
        "r3k2r/ppp2ppp/2n1bn2/3pp3/3PP3/2N1BN2/PPP2PPP/R3K2R w KQkq - 0 1",
    ] {
        let (board, turn) = read(fen);
        let (flipped, other) = mirrored(&board, turn);
        assert_eq!(evaluate_position(&board, turn), evaluate_position(&flipped, other));
    }
}

#[test]
fn the_queen_table_breaks_the_mirror() {
    let (board, turn) = read("4k3/8/8/8/8/1Q6/8/4K3 w - - 0 1");
    let (flipped, other) = mirrored(&board, turn);
    assert_eq!(read("4k3/8/1q6/8/8/8/8/4K3 b - - 0 1"), (flipped, other));
    assert_eq!(evaluate_position(&board, turn), 900);
    assert_eq!(evaluate_position(&flipped, other), 905);
}
