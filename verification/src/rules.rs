//! The chess rules, as provided by `shakmaty`.
//!
//! Positions and moves are opaque values of that crate. Each of its functions
//! that the engine relies on is given a name here, and a thin wrapper whose
//! contract ties the call's result to that name. Nothing in this file is
//! proved: these contracts are what the rest of the crate assumes about the
//! rule engine.

use vstd::prelude::*;
use shakmaty::{Chess, Move, Position, EnPassantMode};
use shakmaty::uci::UciMove;
use shakmaty::zobrist::{Zobrist64, ZobristHash};
use crate::board::{Board, Color, Outcome};

verus! {

/// `shakmaty::Chess`, a position of standard chess. Its contents are not
/// looked into; positions are only handed on to the functions below.
#[verifier::external_type_specification]
#[verifier::external_body]
pub struct ExChess(shakmaty::Chess);

/// `shakmaty::Move`, a move of a piece. Its contents are not looked into.
#[verifier::external_type_specification]
#[verifier::external_body]
pub struct ExMove(shakmaty::Move);

/// `shakmaty::uci::UciMove`, a move as written in the UCI protocol. Its
/// contents are not looked into.
#[verifier::external_type_specification]
#[verifier::external_body]
pub struct ExUciMove(shakmaty::uci::UciMove);

/// The legal moves of a position, in the order in which
/// `Position::legal_moves` generates them.
pub uninterp spec fn legal_moves_of(pos: Chess) -> Seq<Move>;

/// The position reached by `Position::play_unchecked` with a legal move.
pub uninterp spec fn position_after(pos: Chess, m: Move) -> Chess;

/// What `Position::outcome` reports: the result of a finished game, or
/// `None` while the game goes on.
pub uninterp spec fn outcome_of(pos: Chess) -> Option<Outcome>;

/// The side to move, as reported by `Position::turn`.
pub uninterp spec fn turn_of(pos: Chess) -> Color;

/// The piece placement, as reported by `Position::board`.
pub uninterp spec fn board_of(pos: Chess) -> Board;

/// The 64-bit Zobrist hash that `ZobristHash::zobrist_hash` computes with
/// `EnPassantMode::Legal`.
pub uninterp spec fn hash_of(pos: Chess) -> u64;

/// Whether `Move::is_capture` holds of the move.
pub uninterp spec fn captures(m: Move) -> bool;

/// Whether `Move::is_promotion` holds of the move.
pub uninterp spec fn promotes(m: Move) -> bool;

/// What `UciMove::from_ascii` reads from a word: a move in UCI notation, or
/// `None` if the word is not written in that notation.
pub uninterp spec fn uci_of(word: Seq<char>) -> Option<UciMove>;

/// What `UciMove::to_move` finds in a position for a move in UCI notation:
/// the legal move that is written so, or `None` if there is none.
pub uninterp spec fn move_of(uci: UciMove, pos: Chess) -> Option<Move>;

/// Calls `Position::legal_moves` and copies the moves, in order, into a
/// vector. Trusted: the result is the position's list of legal moves. The
/// outside function expects the side to move to have a king, as it has in
/// every position that is set up through the crate's checks and reached by
/// legal moves.
#[verifier::external_body]
pub(crate) fn legal_moves(pos: &Chess) -> (moves: Vec<Move>)
    ensures
        moves@ == legal_moves_of(*pos),
{
    pos.legal_moves().into_iter().collect()
}

/// Calls `Position::play_unchecked` on a copy of the position. Trusted: for
/// a legal move the result is the successor position. Illegal moves are left
/// out because the outside function may corrupt the position or panic on
/// them.
#[verifier::external_body]
pub(crate) fn play(pos: &Chess, m: &Move) -> (next: Chess)
    requires
        legal_moves_of(*pos).contains(*m),
    ensures
        next == position_after(*pos, *m),
{
    let mut next = pos.clone();
    next.play_unchecked(m);
    next
}

/// Calls `Position::outcome` and converts the result variant by variant.
/// Trusted: the result depends on the position alone.
#[verifier::external_body]
pub(crate) fn outcome(pos: &Chess) -> (result: Option<Outcome>)
    ensures
        result == outcome_of(*pos),
{
    match pos.outcome() {
        None => None,
        Some(shakmaty::Outcome::Draw) => Some(Outcome::Draw),
        Some(shakmaty::Outcome::Decisive { winner: shakmaty::Color::White }) => Some(
            Outcome::Decisive { winner: Color::White },
        ),
        Some(shakmaty::Outcome::Decisive { winner: shakmaty::Color::Black }) => Some(
            Outcome::Decisive { winner: Color::Black },
        ),
    }
}

/// Calls `Position::turn` and converts the colour. Trusted: the result is
/// the side to move.
#[verifier::external_body]
pub(crate) fn turn(pos: &Chess) -> (side: Color)
    ensures
        side == turn_of(*pos),
{
    match pos.turn() {
        shakmaty::Color::White => Color::White,
        shakmaty::Color::Black => Color::Black,
    }
}

/// Calls `Position::board` and copies the eight bitboards out of it.
/// Trusted: the result is the piece placement of the position.
#[verifier::external_body]
pub(crate) fn placement(pos: &Chess) -> (board: Board)
    ensures
        board == board_of(*pos),
{
    let b = pos.board();
    Board {
        pawns: b.pawns().0,
        knights: b.knights().0,
        bishops: b.bishops().0,
        rooks: b.rooks().0,
        queens: b.queens().0,
        kings: b.kings().0,
        white: b.white().0,
        black: b.black().0,
    }
}

/// Calls `ZobristHash::zobrist_hash` for a 64-bit value, counting the en
/// passant square only when a legal en passant capture exists. Trusted: the
/// hash depends on the position alone. Nothing is assumed of how well it
/// tells positions apart.
#[verifier::external_body]
pub(crate) fn zobrist(pos: &Chess) -> (h: u64)
    ensures
        h == hash_of(*pos),
{
    pos.zobrist_hash::<Zobrist64>(EnPassantMode::Legal).0
}

/// `Move::is_capture` tells whether the move takes a piece, en passant
/// included. Trusted: the result depends on the move alone.
pub assume_specification[ shakmaty::Move::is_capture ](m: &Move) -> (b: bool)
    ensures
        b == captures(*m),
;

/// `Move::is_promotion` tells whether the move promotes a pawn. Trusted:
/// the result depends on the move alone.
pub assume_specification[ shakmaty::Move::is_promotion ](m: &Move) -> (b: bool)
    ensures
        b == promotes(*m),
;

/// `Move`'s derived `clone`. Trusted: the copy equals the move.
pub assume_specification[ <shakmaty::Move as Clone>::clone ](m: &Move) -> (copy: Move)
    ensures
        copy == *m,
;

/// Compares two moves with `Move`'s `==`. Trusted: it is structural
/// equality.
#[verifier::external_body]
pub(crate) fn same_move(a: &Move, b: &Move) -> (same: bool)
    ensures
        same == (*a == *b),
{
    a == b
}

/// Calls `UciMove::from_ascii` on the bytes of the word. Trusted: the
/// result depends on the word alone.
#[verifier::external_body]
pub(crate) fn parse_uci(word: &Vec<char>) -> (uci: Option<UciMove>)
    ensures
        uci == uci_of(word@),
{
    let text: String = word.iter().collect();
    UciMove::from_ascii(text.as_bytes()).ok()
}

/// Calls `UciMove::to_move`. Trusted: a move that is found is legal in the
/// position, for the outside function returns an error for any other.
#[verifier::external_body]
pub(crate) fn to_move(uci: &UciMove, pos: &Chess) -> (found: Option<Move>)
    ensures
        found == move_of(*uci, *pos),
        found matches Some(m) ==> legal_moves_of(*pos).contains(m),
{
    uci.to_move(pos).ok()
}

} // verus!
