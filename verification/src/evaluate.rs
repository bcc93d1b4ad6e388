//! Scoring of positions: the score of a finished game, and the static
//! evaluation of a position that is still being played.
//!
//! All scores are in centipawns from the point of view of the side to move.

use vstd::prelude::*;
use crate::bitboard::{
    count, file_mask, file_squares, get_neighbour_files, has, lemma_empty_iff_no_member,
    lemma_has_above, lemma_has_and, lemma_has_below, lemma_has_file, lemma_has_neighbours,
    lemma_has_span, neighbour_squares, ranks_above, ranks_below,
};
use crate::board::{Board, Color, Outcome, Piece, Role};
use crate::tables::{lookup, table_entry};

verus! {

/// Score of a checkmate delivered at ply 0.
pub const MATE: i32 = 10_000;

/// Score of a drawn game: a draw is held to be slightly worse than nothing.
pub const DRAW: i32 = -50;

/// Bonus for a passed pawn.
pub const PASSED_PAWN: i32 = 20;

/// Largest magnitude of a static score. Static scores are cut off here so
/// that they stay clear of the scores of forced mates.
pub const STATIC_LIMIT: i32 = 9_000;

/// The score of a finished game for the side to move: a win is worth `MATE`
/// less the ply at which it happens, a loss the opposite, a draw `DRAW`.
pub open spec fn terminal_score(outcome: Outcome, turn: Color, ply: int) -> int {
    match outcome {
        Outcome::Decisive { winner } => if winner == turn {
            MATE - ply
        } else {
            -MATE + ply
        },
        Outcome::Draw => DRAW as int,
    }
}

/// Scores a finished game for the side to move.
pub fn evaluate_outcome(outcome: Outcome, turn: Color, ply: &usize) -> (score: i32)
    requires
        *ply <= i32::MAX,
    ensures
        score == terminal_score(outcome, turn, *ply as int),
{
    let ply: i32 = *ply as i32;
    match outcome {
        Outcome::Decisive { winner } => {
            if winner == turn {
                MATE - ply
            } else {
                -MATE + ply
            }
        },
        Outcome::Draw => DRAW,
    }
}

/// Among decisive games the winner's score falls, and the loser's rises, by
/// one with every ply, so a quicker mate is always preferred; up to ply
/// 10 000 the magnitude of the score falls with the ply, and up to ply
/// 20 000 it stays within `MATE`.
pub proof fn lemma_terminal_score_ordering(winner: Color, turn: Color, early: int, late: int)
    requires
        0 <= early < late,
    ensures
        winner == turn ==> terminal_score(Outcome::Decisive { winner }, turn, early)
            > terminal_score(Outcome::Decisive { winner }, turn, late),
        winner != turn ==> terminal_score(Outcome::Decisive { winner }, turn, early)
            < terminal_score(Outcome::Decisive { winner }, turn, late),
        late <= 2 * MATE ==> -MATE <= terminal_score(Outcome::Decisive { winner }, turn, late)
            <= MATE,
        late <= 2 * MATE ==> -MATE <= terminal_score(Outcome::Decisive { winner }, turn, early)
            <= MATE,
        late <= MATE ==> magnitude(terminal_score(Outcome::Decisive { winner }, turn, early))
            > magnitude(terminal_score(Outcome::Decisive { winner }, turn, late)),
{
}

/// Absolute value.
pub open spec fn magnitude(x: int) -> int {
    if x < 0 {
        -x
    } else {
        x
    }
}

/// Material worth of a role.
pub open spec fn material_value(role: Role) -> int {
    match role {
        Role::Pawn => 100,
        Role::Knight => 300,
        Role::Bishop => 300,
        Role::Rook => 500,
        Role::Queen => 900,
        Role::King => 0,
    }
}

/// Material worth of a piece.
pub fn piece_value(piece: Piece) -> (value: i32)
    ensures
        value == material_value(piece.role),
{
    match piece.role {
        Role::Pawn => 100,
        Role::Knight => 300,
        Role::Bishop => 300,
        Role::Rook => 500,
        Role::Queen => 900,
        Role::King => 0,
    }
}

/// Where a piece on square `sq` reads its table: Black reads at the square's
/// own index, White at the index counted back from 63.
pub open spec fn table_index(color: Color, sq: u64) -> int {
    match color {
        Color::Black => sq as int,
        Color::White => 63 - sq,
    }
}

/// Positional worth of a piece on a square.
pub open spec fn square_value(piece: Piece, sq: u64, endgame: bool) -> int {
    table_entry(piece.role, endgame, table_index(piece.color, sq))
}

/// Positional worth of a piece on a square.
pub fn piece_square_value(piece: Piece, square: u64, endgame: bool) -> (value: i32)
    requires
        square < 64,
    ensures
        value == square_value(piece, square, endgame),
        -50 <= value <= 50,
{
    let index: usize = match piece.color {
        Color::Black => square as usize,
        Color::White => 63 - (square as usize),
    };
    lookup(piece.role, endgame, index)
}

/// Whether the pawn on `other` stands in the way of a pawn of `color` on
/// `sq`: it belongs to the other side, its file is that of `sq` or next to
/// it, and its rank lies ahead of `sq` in the direction in which `color`
/// advances.
pub open spec fn blocks(board: Board, sq: u64, color: Color, other: u64) -> bool {
    &&& has(board.pawns, other)
    &&& has(board.side(color.flip()), other)
    &&& other % 8 + 1 >= sq % 8
    &&& other % 8 <= sq % 8 + 1
    &&& match color {
        Color::White => other / 8 > sq / 8,
        Color::Black => other / 8 < sq / 8,
    }
}

/// A pawn is passed when no pawn of the other side stands in its way.
pub open spec fn is_passed(board: Board, sq: u64, color: Color) -> bool {
    forall|other: u64| other < 64 ==> !#[trigger] blocks(board, sq, color, other)
}

/// The passed-pawn bonus of a pawn of `color` on `square`.
pub fn passed_pawn_value(board: &Board, square: u64, color: Color) -> (value: i32)
    requires
        square < 64,
    ensures
        value == if is_passed(*board, square, color) {
            PASSED_PAWN as int
        } else {
            0
        },
{
    let file: u64 = square % 8;
    let rank: u64 = square / 8;
    let ahead: u64 = match color {
        Color::White => ranks_above(rank),
        Color::Black => ranks_below(rank),
    };
    let span: u64 = file_mask(file) | get_neighbour_files(file);
    let opponents: u64 = board.by_color(color.other());
    let in_the_way: u64 = span & board.pawns & opponents & ahead;
    proof {
        lemma_empty_iff_no_member(in_the_way);
        assert forall|other: u64|
            #![trigger has(in_the_way, other)]
            #![trigger blocks(*board, square, color, other)]
            other < 64 implies has(in_the_way, other) == blocks(*board, square, color, other) by {
            lemma_has_and(span & board.pawns & opponents, ahead, other);
            lemma_has_and(span & board.pawns, opponents, other);
            lemma_has_and(span, board.pawns, other);
            lemma_has_span(file, other);
            lemma_has_above(rank, other);
            lemma_has_below(rank, other);
        }
    }
    if in_the_way == 0 {
        PASSED_PAWN
    } else {
        0
    }
}

/// What the piece on a square is worth to its owner: material, position,
/// and the passed-pawn bonus.
pub open spec fn square_score(board: Board, sq: u64, endgame: bool) -> int {
    match board.piece_at(sq) {
        None => 0,
        Some(piece) => material_value(piece.role) + square_value(piece, sq, endgame) + if piece.role
            == Role::Pawn && is_passed(board, sq, piece.color) {
            PASSED_PAWN as int
        } else {
            0
        },
    }
}

/// Sum of `square_score` over the pieces of `side` on the squares `0 .. n`.
pub open spec fn side_material(board: Board, side: Color, endgame: bool, n: u64) -> int
    decreases n,
{
    if n == 0 {
        0
    } else {
        let sq = (n - 1) as u64;
        side_material(board, side, endgame, sq) + match board.piece_at(sq) {
            Some(piece) if piece.color == side => square_score(board, sq, endgame),
            _ => 0,
        }
    }
}

/// The endgame begins when at most four knights, bishops, rooks and queens
/// are left on the board.
pub open spec fn is_endgame(board: Board) -> bool {
    count(board.rooks | board.bishops | board.queens | board.knights) <= 4
}

/// Material and position of the side to move, less those of the other side.
pub open spec fn material_score(board: Board, turn: Color) -> int {
    side_material(board, turn, is_endgame(board), 64) - side_material(
        board,
        turn.flip(),
        is_endgame(board),
        64,
    )
}

/// Whether a set of squares meets file `f`.
pub open spec fn on_file(bb: u64, f: u64) -> bool {
    bb & file_squares(f) != 0
}

/// A set meets a file exactly when one of its squares is on the file.
pub proof fn lemma_on_file_means(bb: u64, f: u64)
    requires
        f < 8,
    ensures
        on_file(bb, f) <==> exists|sq: u64| sq < 64 && sq % 8 == f && #[trigger] has(bb, sq),
{
    let met = bb & file_squares(f);
    lemma_empty_iff_no_member(met);
    assert forall|sq: u64| sq < 64 implies #[trigger] has(met, sq) == (has(bb, sq) && sq % 8
        == f) by {
        lemma_has_and(bb, file_squares(f), sq);
        lemma_has_file(f, sq);
    }
    if on_file(bb, f) {
        let sq = choose|sq: u64| sq < 64 && #[trigger] has(met, sq);
        assert(sq < 64 && sq % 8 == f && has(bb, sq));
    } else {
        assert forall|sq: u64| sq < 64 && sq % 8 == f implies !#[trigger] has(bb, sq) by {
            assert(!(has(met, sq)));
        }
    }
}

/// Rook bonus on one file. On a file without pawns each side with a rook
/// there has 30; otherwise a side with a rook on a file without a pawn of
/// its own has 20.
pub open spec fn open_file_term(board: Board, turn: Color, f: u64) -> int {
    let ours = board.side(turn);
    let theirs = board.side(turn.flip());
    let our_pawn = on_file(board.pawns & ours, f);
    let their_pawn = on_file(board.pawns & theirs, f);
    let our_rook = on_file(board.rooks & ours, f);
    let their_rook = on_file(board.rooks & theirs, f);
    if !our_pawn && !their_pawn {
        (if our_rook { 30int } else { 0 }) - (if their_rook { 30int } else { 0 })
    } else {
        (if !our_pawn && our_rook { 20int } else { 0 }) - (if !their_pawn && their_rook {
            20int
        } else {
            0
        })
    }
}

/// Sum of `open_file_term` over the files `0 .. n`.
pub open spec fn open_file_sum(board: Board, turn: Color, n: u64) -> int
    decreases n,
{
    if n == 0 {
        0
    } else {
        open_file_sum(board, turn, (n - 1) as u64) + open_file_term(board, turn, (n - 1) as u64)
    }
}

/// Rook bonus for open and half-open files, ours less theirs.
pub fn open_file_value(board: &Board, turn: Color) -> (score: i32)
    ensures
        score == open_file_sum(*board, turn, 8),
        -240 <= score <= 240,
{
    let ours: u64 = board.by_color(turn);
    let theirs: u64 = board.by_color(turn.other());
    let mut score: i32 = 0;
    let mut f: u64 = 0;
    while f < 8
        invariant
            f <= 8,
            ours == board.side(turn),
            theirs == board.side(turn.flip()),
            score == open_file_sum(*board, turn, f),
            -30 * f <= score <= 30 * f,
        decreases 8 - f,
    {
        let file: u64 = file_mask(f);
        let our_pawn: bool = (board.pawns & ours) & file != 0;
        let their_pawn: bool = (board.pawns & theirs) & file != 0;
        let our_rook: bool = (board.rooks & ours) & file != 0;
        let their_rook: bool = (board.rooks & theirs) & file != 0;
        if !our_pawn && !their_pawn {
            if our_rook {
                score = score + 30;
            }
            if their_rook {
                score = score - 30;
            }
        } else {
            if !our_pawn && our_rook {
                score = score + 20;
            }
            if !their_pawn && their_rook {
                score = score - 20;
            }
        }
        f = f + 1;
    }
    score
}

/// Whether the pawns in `pawns` have a pawn on file `f` and none on the
/// files next to it.
pub open spec fn isolated_on(pawns: u64, f: u64) -> bool {
    on_file(pawns, f) && pawns & neighbour_squares(f) == 0
}

/// The pawns on a file are isolated exactly when there is a pawn on the
/// file and none on a file next to it.
pub proof fn lemma_isolated_means(pawns: u64, f: u64)
    requires
        f < 8,
    ensures
        isolated_on(pawns, f) <==> on_file(pawns, f) && forall|sq: u64|
            sq < 64 && (sq % 8 + 1 == f || sq % 8 == f + 1) ==> !#[trigger] has(pawns, sq),
{
    let beside = pawns & neighbour_squares(f);
    lemma_empty_iff_no_member(beside);
    assert forall|sq: u64| sq < 64 implies #[trigger] has(beside, sq) == (has(pawns, sq) && (sq
        % 8 + 1 == f || sq % 8 == f + 1)) by {
        lemma_has_and(pawns, neighbour_squares(f), sq);
        lemma_has_neighbours(f, sq);
    }
    if beside == 0 {
        assert forall|sq: u64|
            sq < 64 && (sq % 8 + 1 == f || sq % 8 == f + 1) implies !#[trigger] has(pawns, sq) by {
            assert(!(has(beside, sq)));
        }
    } else {
        let sq = choose|sq: u64| sq < 64 && #[trigger] has(beside, sq);
        assert(has(pawns, sq) && (sq % 8 + 1 == f || sq % 8 == f + 1));
    }
}

/// Isolated pawns on one file: 10 against the side that has them, counted
/// once for the file.
pub open spec fn isolated_term(board: Board, turn: Color, f: u64) -> int {
    (if isolated_on(board.pawns & board.side(turn), f) { -10int } else { 0 }) + (if isolated_on(
        board.pawns & board.side(turn.flip()),
        f,
    ) {
        10int
    } else {
        0
    })
}

/// Sum of `isolated_term` over the files `0 .. n`.
pub open spec fn isolated_sum(board: Board, turn: Color, n: u64) -> int
    decreases n,
{
    if n == 0 {
        0
    } else {
        isolated_sum(board, turn, (n - 1) as u64) + isolated_term(board, turn, (n - 1) as u64)
    }
}

/// Penalty for files with isolated pawns, ours against theirs.
pub fn isolated_pawn_value(board: &Board, turn: Color) -> (score: i32)
    ensures
        score == isolated_sum(*board, turn, 8),
        -80 <= score <= 80,
{
    let our_pawns: u64 = board.pawns & board.by_color(turn);
    let their_pawns: u64 = board.pawns & board.by_color(turn.other());
    let mut score: i32 = 0;
    let mut f: u64 = 0;
    while f < 8
        invariant
            f <= 8,
            our_pawns == board.pawns & board.side(turn),
            their_pawns == board.pawns & board.side(turn.flip()),
            score == isolated_sum(*board, turn, f),
            -10 * f <= score <= 10 * f,
        decreases 8 - f,
    {
        let file: u64 = file_mask(f);
        let neighbours: u64 = get_neighbour_files(f);
        if our_pawns & file != 0 && our_pawns & neighbours == 0 {
            score = score - 10;
        }
        if their_pawns & file != 0 && their_pawns & neighbours == 0 {
            score = score + 10;
        }
        f = f + 1;
    }
    score
}

/// King shelter on one file. A side whose king stands on the file loses 50
/// when it has no pawn of its own there and gains 50 when the other side has
/// none there.
pub open spec fn king_file_term(board: Board, turn: Color, f: u64) -> int {
    let ours = board.side(turn);
    let theirs = board.side(turn.flip());
    let our_pawn = on_file(board.pawns & ours, f);
    let their_pawn = on_file(board.pawns & theirs, f);
    (if on_file(board.kings & ours, f) {
        (if our_pawn { 0int } else { -50 }) + (if their_pawn { 0int } else { 50 })
    } else {
        0
    }) - (if on_file(board.kings & theirs, f) {
        (if their_pawn { 0int } else { -50 }) + (if our_pawn { 0int } else { 50 })
    } else {
        0
    })
}

/// Sum of `king_file_term` over the files `0 .. n`.
pub open spec fn king_file_sum(board: Board, turn: Color, n: u64) -> int
    decreases n,
{
    if n == 0 {
        0
    } else {
        king_file_sum(board, turn, (n - 1) as u64) + king_file_term(board, turn, (n - 1) as u64)
    }
}

/// King shelter on the kings' files, ours less theirs.
pub fn king_protection_value(board: &Board, turn: Color) -> (score: i32)
    ensures
        score == king_file_sum(*board, turn, 8),
        -800 <= score <= 800,
{
    let ours: u64 = board.by_color(turn);
    let theirs: u64 = board.by_color(turn.other());
    let mut score: i32 = 0;
    let mut f: u64 = 0;
    while f < 8
        invariant
            f <= 8,
            ours == board.side(turn),
            theirs == board.side(turn.flip()),
            score == king_file_sum(*board, turn, f),
            -100 * f <= score <= 100 * f,
        decreases 8 - f,
    {
        let file: u64 = file_mask(f);
        let our_pawn: bool = (board.pawns & ours) & file != 0;
        let their_pawn: bool = (board.pawns & theirs) & file != 0;
        if (board.kings & ours) & file != 0 {
            if !our_pawn {
                score = score - 50;
            }
            if !their_pawn {
                score = score + 50;
            }
        }
        if (board.kings & theirs) & file != 0 {
            if !their_pawn {
                score = score + 50;
            }
            if !our_pawn {
                score = score - 50;
            }
        }
        f = f + 1;
    }
    score
}

/// The side to move has 30 for exactly two bishops and loses 30 when the
/// other side has exactly one.
pub open spec fn bishop_pair_score(board: Board, turn: Color) -> int {
    (if count(board.bishops & board.side(turn)) == 2 { 30int } else { 0 }) - (if count(
        board.bishops & board.side(turn.flip()),
    ) == 1 {
        30int
    } else {
        0
    })
}

/// Bishop-pair term.
pub fn bishop_pair_value(board: &Board, turn: Color) -> (score: i32)
    ensures
        score == bishop_pair_score(*board, turn),
        -30 <= score <= 30,
{
    let mut score: i32 = 0;
    if (board.bishops & board.by_color(turn)).count_ones() == 2 {
        score = score + 30;
    }
    if (board.bishops & board.by_color(turn.other())).count_ones() == 1 {
        score = score - 30;
    }
    score
}

/// Doubled pawns on one file: 15 against a side with two or more pawns on
/// the file, counted once for the file.
pub open spec fn doubled_term(board: Board, turn: Color, f: u64) -> int {
    (if count((board.pawns & board.side(turn)) & file_squares(f)) >= 2 { -15int } else { 0 }) + (
    if count((board.pawns & board.side(turn.flip())) & file_squares(f)) >= 2 {
        15int
    } else {
        0
    })
}

/// Sum of `doubled_term` over the files `0 .. n`.
pub open spec fn doubled_sum(board: Board, turn: Color, n: u64) -> int
    decreases n,
{
    if n == 0 {
        0
    } else {
        doubled_sum(board, turn, (n - 1) as u64) + doubled_term(board, turn, (n - 1) as u64)
    }
}

/// Penalty for files with doubled pawns, ours against theirs.
pub fn stacked_pawn_value(board: &Board, turn: Color) -> (score: i32)
    ensures
        score == doubled_sum(*board, turn, 8),
        -120 <= score <= 120,
{
    let our_pawns: u64 = board.pawns & board.by_color(turn);
    let their_pawns: u64 = board.pawns & board.by_color(turn.other());
    let mut score: i32 = 0;
    let mut f: u64 = 0;
    while f < 8
        invariant
            f <= 8,
            our_pawns == board.pawns & board.side(turn),
            their_pawns == board.pawns & board.side(turn.flip()),
            score == doubled_sum(*board, turn, f),
            -15 * f <= score <= 15 * f,
        decreases 8 - f,
    {
        let file: u64 = file_mask(f);
        if (our_pawns & file).count_ones() > 1 {
            score = score - 15;
        }
        if (their_pawns & file).count_ones() > 1 {
            score = score + 15;
        }
        f = f + 1;
    }
    score
}

/// The static score before it is cut off: material and position, then the
/// rook, isolated-pawn, king-shelter, bishop-pair and doubled-pawn terms.
pub open spec fn raw_score(board: Board, turn: Color) -> int {
    material_score(board, turn) + open_file_sum(board, turn, 8) + isolated_sum(board, turn, 8)
        + king_file_sum(board, turn, 8) + bishop_pair_score(board, turn) + doubled_sum(
        board,
        turn,
        8,
    )
}

/// `x` brought into `-limit ..= limit`.
pub open spec fn clamp(x: int, limit: int) -> int {
    if x > limit {
        limit
    } else if x < -limit {
        -limit
    } else {
        x
    }
}

/// The static score of a position for the side to move.
pub open spec fn static_score(board: Board, turn: Color) -> int {
    clamp(raw_score(board, turn), STATIC_LIMIT as int)
}

/// Static scores stay clear of mate scores: up to ply 999 a static score is
/// strictly between the score of being mated and the score of mating at
/// that ply.
pub proof fn lemma_static_below_mate(board: Board, turn: Color, ply: int)
    requires
        0 <= ply < MATE - STATIC_LIMIT,
    ensures
        terminal_score(Outcome::Decisive { winner: turn.flip() }, turn, ply) < static_score(
            board,
            turn,
        ) < terminal_score(Outcome::Decisive { winner: turn }, turn, ply),
{
}

/// Scores a position for the side `turn`, which is to move.
pub fn evaluate_position(board: &Board, turn: Color) -> (score: i32)
    ensures
        score == static_score(*board, turn),
        -STATIC_LIMIT <= score <= STATIC_LIMIT,
{
    let endgame: bool = (board.rooks | board.bishops | board.queens | board.knights).count_ones()
        <= 4;
    let mut ours: i32 = 0;
    let mut theirs: i32 = 0;
    let mut sq: u64 = 0;
    while sq < 64
        invariant
            sq <= 64,
            endgame == is_endgame(*board),
            ours == side_material(*board, turn, endgame, sq),
            theirs == side_material(*board, turn.flip(), endgame, sq),
            -970 * sq <= ours <= 970 * sq,
            -970 * sq <= theirs <= 970 * sq,
        decreases 64 - sq,
    {
        if let Some(piece) = board.piece_on(sq) {
            let mut worth: i32 = piece_value(piece) + piece_square_value(piece, sq, endgame);
            if piece.role == Role::Pawn {
                worth = worth + passed_pawn_value(board, sq, piece.color);
            }
            if piece.color == turn {
                ours = ours + worth;
            } else {
                theirs = theirs + worth;
            }
        }
        sq = sq + 1;
    }
    let total: i32 = (ours - theirs) + open_file_value(board, turn) + isolated_pawn_value(
        board,
        turn,
    ) + king_protection_value(board, turn) + bishop_pair_value(board, turn) + stacked_pawn_value(
        board,
        turn,
    );
    if total > STATIC_LIMIT {
        STATIC_LIMIT
    } else if total < -STATIC_LIMIT {
        -STATIC_LIMIT
    } else {
        total
    }
}

} // verus!
