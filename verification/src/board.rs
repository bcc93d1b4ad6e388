//! Plain-value model of what the evaluator reads from a position.

use vstd::prelude::*;
use crate::bitboard::{contains, has, lemma_has_and};

verus! {

/// Side of the board.
#[derive(Clone, Copy, Debug, PartialEq, Eq, Structural)]
pub enum Color {
    Black,
    White,
}

impl Color {
    /// The opposite side.
    pub open spec fn flip(self) -> Color {
        match self {
            Color::Black => Color::White,
            Color::White => Color::Black,
        }
    }

    /// The opposite side.
    pub fn other(self) -> (c: Color)
        ensures
            c == self.flip(),
    {
        match self {
            Color::Black => Color::White,
            Color::White => Color::Black,
        }
    }
}

/// Kind of piece.
#[derive(Clone, Copy, Debug, PartialEq, Eq, Structural)]
pub enum Role {
    Pawn,
    Knight,
    Bishop,
    Rook,
    Queen,
    King,
}

/// A piece: its side and its kind.
#[derive(Clone, Copy, Debug, PartialEq, Eq, Structural)]
pub struct Piece {
    pub color: Color,
    pub role: Role,
}

/// How a finished game ended.
#[derive(Clone, Copy, Debug, PartialEq, Eq, Structural)]
pub enum Outcome {
    Decisive { winner: Color },
    Draw,
}

/// Piece placement as eight 64-bit sets of squares, one per role and one per
/// side. Bit `8 * rank + file` stands for the square on that rank and file,
/// so A1 is bit 0, B1 is bit 1 and H8 is bit 63.
#[derive(Clone, Copy, Debug, PartialEq, Eq, Structural)]
pub struct Board {
    pub pawns: u64,
    pub knights: u64,
    pub bishops: u64,
    pub rooks: u64,
    pub queens: u64,
    pub kings: u64,
    pub white: u64,
    pub black: u64,
}

impl Board {
    /// The squares that a side occupies.
    pub open spec fn side(self, color: Color) -> u64 {
        match color {
            Color::White => self.white,
            Color::Black => self.black,
        }
    }

    /// The kind of piece on a square: the first role, from pawn to king,
    /// whose set holds the square.
    pub open spec fn role_at(self, sq: u64) -> Option<Role> {
        if has(self.pawns, sq) {
            Some(Role::Pawn)
        } else if has(self.knights, sq) {
            Some(Role::Knight)
        } else if has(self.bishops, sq) {
            Some(Role::Bishop)
        } else if has(self.rooks, sq) {
            Some(Role::Rook)
        } else if has(self.queens, sq) {
            Some(Role::Queen)
        } else if has(self.kings, sq) {
            Some(Role::King)
        } else {
            None
        }
    }

    /// The piece on a square, if any. It is White's when the square is in
    /// White's set and Black's otherwise.
    pub open spec fn piece_at(self, sq: u64) -> Option<Piece> {
        match self.role_at(sq) {
            Some(role) => Some(
                Piece { color: if has(self.white, sq) { Color::White } else { Color::Black }, role },
            ),
            None => None,
        }
    }

    /// Whether the eight sets describe one placement of pieces: no square
    /// has two roles or two sides, and the squares with a role are the
    /// squares with a side.
    pub open spec fn consistent(self) -> bool {
        &&& self.white & self.black == 0
        &&& self.pawns & self.knights == 0
        &&& (self.pawns | self.knights) & self.bishops == 0
        &&& (self.pawns | self.knights | self.bishops) & self.rooks == 0
        &&& (self.pawns | self.knights | self.bishops | self.rooks) & self.queens == 0
        &&& (self.pawns | self.knights | self.bishops | self.rooks | self.queens) & self.kings
            == 0
        &&& self.pawns | self.knights | self.bishops | self.rooks | self.queens | self.kings
            == self.white | self.black
    }

    /// The squares that hold a piece of a role.
    pub open spec fn role_set(self, role: Role) -> u64 {
        match role {
            Role::Pawn => self.pawns,
            Role::Knight => self.knights,
            Role::Bishop => self.bishops,
            Role::Rook => self.rooks,
            Role::Queen => self.queens,
            Role::King => self.kings,
        }
    }

    /// On a consistent board the sets tell the pieces: a square is in the
    /// set of a role and in the set of a side exactly when that side's
    /// piece of that role stands on it.
    pub proof fn lemma_sets_tell_pieces(self, color: Color, role: Role, sq: u64)
        requires
            self.consistent(),
            sq < 64,
        ensures
            has(self.role_set(role) & self.side(color), sq) <==> self.piece_at(sq) == Some(
                Piece { color, role },
            ),
    {
        lemma_has_and(self.role_set(role), self.side(color), sq);
        lemma_consistent_square(
            self.pawns,
            self.knights,
            self.bishops,
            self.rooks,
            self.queens,
            self.kings,
            self.white,
            self.black,
            sq,
        );
    }

    /// The squares that a side occupies.
    pub fn by_color(&self, color: Color) -> (bb: u64)
        ensures
            bb == self.side(color),
    {
        match color {
            Color::White => self.white,
            Color::Black => self.black,
        }
    }

    /// The piece on a square, if any.
    pub fn piece_on(&self, sq: u64) -> (piece: Option<Piece>)
        requires
            sq < 64,
        ensures
            piece == self.piece_at(sq),
    {
        let role = if contains(self.pawns, sq) {
            Role::Pawn
        } else if contains(self.knights, sq) {
            Role::Knight
        } else if contains(self.bishops, sq) {
            Role::Bishop
        } else if contains(self.rooks, sq) {
            Role::Rook
        } else if contains(self.queens, sq) {
            Role::Queen
        } else if contains(self.kings, sq) {
            Role::King
        } else {
            return None;
        };
        let color = if contains(self.white, sq) {
            Color::White
        } else {
            Color::Black
        };
        Some(Piece { color, role })
    }

    /// Checks that the eight sets describe one placement of pieces.
    pub fn is_consistent(&self) -> (ok: bool)
        ensures
            ok == self.consistent(),
    {
        self.white & self.black == 0 && self.pawns & self.knights == 0 && (self.pawns
            | self.knights) & self.bishops == 0 && (self.pawns | self.knights | self.bishops)
            & self.rooks == 0 && (self.pawns | self.knights | self.bishops | self.rooks)
            & self.queens == 0 && (self.pawns | self.knights | self.bishops | self.rooks
            | self.queens) & self.kings == 0 && self.pawns | self.knights | self.bishops
            | self.rooks | self.queens | self.kings == self.white | self.black
    }
}

/// On a consistent board no square is in the sets of two roles or of two
/// sides, and a square is in the set of a role exactly when it is in the set
/// of a side.
pub proof fn lemma_consistent_square(
    pawns: u64,
    knights: u64,
    bishops: u64,
    rooks: u64,
    queens: u64,
    kings: u64,
    white: u64,
    black: u64,
    sq: u64,
)
    by (bit_vector)
    requires
        white & black == 0,
        pawns & knights == 0,
        (pawns | knights) & bishops == 0,
        (pawns | knights | bishops) & rooks == 0,
        (pawns | knights | bishops | rooks) & queens == 0,
        (pawns | knights | bishops | rooks | queens) & kings == 0,
        pawns | knights | bishops | rooks | queens | kings == white | black,
        sq < 64,
    ensures
        !(has(white, sq) && has(black, sq)),
        (has(pawns, sq) || has(knights, sq) || has(bishops, sq) || has(rooks, sq) || has(
            queens,
            sq,
        ) || has(kings, sq)) == (has(white, sq) || has(black, sq)),
        !(has(pawns, sq) && has(knights, sq)),
        !(has(pawns, sq) && has(bishops, sq)),
        !(has(pawns, sq) && has(rooks, sq)),
        !(has(pawns, sq) && has(queens, sq)),
        !(has(pawns, sq) && has(kings, sq)),
        !(has(knights, sq) && has(bishops, sq)),
        !(has(knights, sq) && has(rooks, sq)),
        !(has(knights, sq) && has(queens, sq)),
        !(has(knights, sq) && has(kings, sq)),
        !(has(bishops, sq) && has(rooks, sq)),
        !(has(bishops, sq) && has(queens, sq)),
        !(has(bishops, sq) && has(kings, sq)),
        !(has(rooks, sq) && has(queens, sq)),
        !(has(rooks, sq) && has(kings, sq)),
        !(has(queens, sq) && has(kings, sq)),
{
}

} // verus!
