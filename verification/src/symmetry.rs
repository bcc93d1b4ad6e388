//! The evaluation under the colour-reversing mirror of the board.
//!
//! Mirroring a position exchanges the ranks 1 and 8, 2 and 7, and so on,
//! gives every piece to the other side and passes the move to the other
//! side. Nothing but the file-wise orientation of the piece-square tables
//! tells the two positions apart: the static score of the mirrored position
//! is that of the position itself, read with every table mirrored left to
//! right.

use vstd::prelude::*;
use crate::bitboard::{count, count_below, file_squares, has, neighbour_squares};
use crate::board::{lemma_consistent_square, Board, Color, Piece, Role};
use crate::evaluate::{
    bishop_pair_score, blocks, clamp, doubled_sum, doubled_term, is_endgame, is_passed,
    isolated_on, isolated_sum, isolated_term, king_file_sum, king_file_term, on_file,
    open_file_sum, open_file_term, raw_score, side_material, square_score, static_score,
    table_index, STATIC_LIMIT,
};
use crate::tables::table_entry;

verus! {

/// The set of squares with the ranks exchanged: rank 1 with rank 8, rank 2
/// with rank 7, and so on.
pub open spec fn flip_ranks(bb: u64) -> u64 {
    (bb << 56) | ((bb & 0xff00) << 40) | ((bb & 0xff_0000) << 24) | ((bb & 0xff00_0000) << 8) | ((bb
        >> 8) & 0xff00_0000) | ((bb >> 24) & 0xff_0000) | ((bb >> 40) & 0xff00) | (bb >> 56)
}

/// The square on the same file and the mirrored rank.
pub open spec fn mirror_square(sq: u64) -> u64 {
    (8 * (7 - sq / 8) + sq % 8) as u64
}

/// A square is in the flipped set when its mirror image is in the set.
pub proof fn lemma_has_flipped(bb: u64, sq: u64)
    by (bit_vector)
    requires
        sq < 64,
    ensures
        has(flip_ranks(bb), sq) == has(bb, mirror_square(sq)),
{
}

/// Flipping goes through intersections and unions, and only the empty set
/// flips to the empty set.
pub proof fn lemma_flip_sets(a: u64, b: u64)
    by (bit_vector)
    ensures
        flip_ranks(a & b) == flip_ranks(a) & flip_ranks(b),
        flip_ranks(a | b) == flip_ranks(a) | flip_ranks(b),
        flip_ranks(a) == 0 <==> a == 0,
{
}

/// Files and their neighbours are their own mirror images.
pub proof fn lemma_flip_files(f: u64)
    by (bit_vector)
    requires
        f < 8,
    ensures
        flip_ranks(file_squares(f)) == file_squares(f),
        flip_ranks(neighbour_squares(f)) == neighbour_squares(f),
{
}

/// The sum of `term` over the squares `0 .. n`.
pub open spec fn sum_below(term: spec_fn(u64) -> int, n: u64) -> int
    decreases n,
{
    if n == 0 {
        0
    } else {
        sum_below(term, (n - 1) as u64) + term((n - 1) as u64)
    }
}

/// Terms that agree on every square have the same sum.
pub proof fn lemma_sum_of_equal_terms(first: spec_fn(u64) -> int, second: spec_fn(u64) -> int, n: u64)
    requires
        forall|sq: u64| sq < n ==> #[trigger] first(sq) == second(sq),
    ensures
        sum_below(first, n) == sum_below(second, n),
    decreases n,
{
    if n > 0 {
        lemma_sum_of_equal_terms(first, second, (n - 1) as u64);
    }
}

/// The sum over the eight squares of rank `r`.
pub open spec fn rank_sum(term: spec_fn(u64) -> int, r: u64) -> int {
    term((8 * r) as u64) + term((8 * r + 1) as u64) + term((8 * r + 2) as u64) + term(
        (8 * r + 3) as u64,
    ) + term((8 * r + 4) as u64) + term((8 * r + 5) as u64) + term((8 * r + 6) as u64) + term(
        (8 * r + 7) as u64,
    )
}

/// The sum over the squares below rank `r` is the sum of the rank sums.
proof fn lemma_sum_by_ranks(term: spec_fn(u64) -> int, r: u64)
    requires
        r <= 8,
    ensures
        sum_below(term, (8 * r) as u64) == if r == 0 {
            0
        } else {
            sum_below(term, (8 * (r - 1)) as u64) + rank_sum(term, (r - 1) as u64)
        },
{
    if r > 0 {
        reveal_with_fuel(sum_below, 9);
    }
}

/// Summing over the mirrored squares is summing over the squares.
pub proof fn lemma_sum_mirrored(term: spec_fn(u64) -> int)
    ensures
        sum_below(|sq: u64| term(mirror_square(sq)), 64) == sum_below(term, 64),
{
    let mirrored = |sq: u64| term(mirror_square(sq));
    lemma_sum_by_ranks(term, 1);
    lemma_sum_by_ranks(term, 2);
    lemma_sum_by_ranks(term, 3);
    lemma_sum_by_ranks(term, 4);
    lemma_sum_by_ranks(term, 5);
    lemma_sum_by_ranks(term, 6);
    lemma_sum_by_ranks(term, 7);
    lemma_sum_by_ranks(term, 8);
    lemma_sum_by_ranks(mirrored, 1);
    lemma_sum_by_ranks(mirrored, 2);
    lemma_sum_by_ranks(mirrored, 3);
    lemma_sum_by_ranks(mirrored, 4);
    lemma_sum_by_ranks(mirrored, 5);
    lemma_sum_by_ranks(mirrored, 6);
    lemma_sum_by_ranks(mirrored, 7);
    lemma_sum_by_ranks(mirrored, 8);
}

/// The number of squares in a set, as a sum over the squares.
pub proof fn lemma_count_is_sum(bb: u64, n: u64)
    ensures
        count_below(bb, n) == sum_below(|sq: u64| if has(bb, sq) { 1int } else { 0int }, n),
    decreases n,
{
    if n > 0 {
        lemma_count_is_sum(bb, (n - 1) as u64);
    }
}

/// A set and its mirror image have the same number of squares.
pub proof fn lemma_count_flipped(bb: u64)
    ensures
        count(flip_ranks(bb)) == count(bb),
{
    let member = |sq: u64| if has(bb, sq) { 1int } else { 0int };
    let flipped = |sq: u64| if has(flip_ranks(bb), sq) { 1int } else { 0int };
    let mirrored = |sq: u64| member(mirror_square(sq));
    lemma_count_is_sum(bb, 64);
    lemma_count_is_sum(flip_ranks(bb), 64);
    assert forall|sq: u64| sq < 64 implies #[trigger] flipped(sq) == mirrored(sq) by {
        lemma_has_flipped(bb, sq);
    }
    lemma_sum_of_equal_terms(flipped, mirrored, 64);
    lemma_sum_mirrored(member);
}

/// The mirrored position: every set of squares is flipped, and the two
/// sides exchange their pieces.
pub open spec fn mirror(board: Board) -> Board {
    Board {
        pawns: flip_ranks(board.pawns),
        knights: flip_ranks(board.knights),
        bishops: flip_ranks(board.bishops),
        rooks: flip_ranks(board.rooks),
        queens: flip_ranks(board.queens),
        kings: flip_ranks(board.kings),
        white: flip_ranks(board.black),
        black: flip_ranks(board.white),
    }
}

/// The table index on the same rank of the table and the mirrored file.
pub open spec fn mirror_file(index: int) -> int {
    8 * (index / 8) + 7 - index % 8
}

/// Every table but the queen's reads the same from left to right and from
/// right to left.
pub proof fn lemma_tables_are_symmetric(role: Role, endgame: bool, index: int)
    requires
        0 <= index < 64,
        role != Role::Queen,
    ensures
        table_entry(role, endgame, mirror_file(index)) == table_entry(role, endgame, index),
{
}

/// The piece on a square of the mirrored board is the piece on the mirror
/// image of the square, in the other colour.
pub proof fn lemma_piece_mirrored(board: Board, sq: u64)
    requires
        board.consistent(),
        sq < 64,
    ensures
        mirror(board).piece_at(sq) == match board.piece_at(mirror_square(sq)) {
            Some(piece) => Some(Piece { color: piece.color.flip(), role: piece.role }),
            None => None,
        },
{
    let image = mirror_square(sq);
    lemma_has_flipped(board.pawns, sq);
    lemma_has_flipped(board.knights, sq);
    lemma_has_flipped(board.bishops, sq);
    lemma_has_flipped(board.rooks, sq);
    lemma_has_flipped(board.queens, sq);
    lemma_has_flipped(board.kings, sq);
    lemma_has_flipped(board.white, sq);
    lemma_has_flipped(board.black, sq);
    lemma_mirror_square(sq);
    lemma_consistent_square(
        board.pawns,
        board.knights,
        board.bishops,
        board.rooks,
        board.queens,
        board.kings,
        board.white,
        board.black,
        image,
    );
}

/// The squares of a side on the mirrored board are the flipped squares of
/// the other side.
pub proof fn lemma_side_mirrored(board: Board, color: Color)
    ensures
        mirror(board).side(color) == flip_ranks(board.side(color.flip())),
{
}

/// Mirroring a square keeps its file, mirrors its rank, and undoes itself.
pub proof fn lemma_mirror_square(sq: u64)
    by (bit_vector)
    requires
        sq < 64,
    ensures
        mirror_square(sq) < 64,
        mirror_square(sq) % 8 == sq % 8,
        mirror_square(sq) / 8 == 7 - sq / 8,
        mirror_square(mirror_square(sq)) == sq,
{
}

/// A pawn stands in the way on the mirrored board when its mirror image
/// stands in the way of the mirror image.
proof fn lemma_blocks_mirrored(board: Board, sq: u64, color: Color, other: u64)
    requires
        sq < 64,
        other < 64,
    ensures
        blocks(mirror(board), sq, color.flip(), other) == blocks(
            board,
            mirror_square(sq),
            color,
            mirror_square(other),
        ),
{
    lemma_has_flipped(board.pawns, other);
    lemma_has_flipped(board.side(color.flip()), other);
    lemma_mirror_square(sq);
    lemma_mirror_square(other);
}

/// A pawn of the mirrored board is passed when its mirror image is.
pub proof fn lemma_passed_mirrored(board: Board, sq: u64, color: Color)
    requires
        sq < 64,
    ensures
        is_passed(mirror(board), sq, color.flip()) == is_passed(board, mirror_square(sq), color),
{
    let image = mirror_square(sq);
    if is_passed(board, image, color) {
        assert forall|other: u64| other < 64 implies !#[trigger] blocks(
            mirror(board),
            sq,
            color.flip(),
            other,
        ) by {
            lemma_mirror_square(other);
            lemma_blocks_mirrored(board, sq, color, other);
        }
    }
    if is_passed(mirror(board), sq, color.flip()) {
        assert forall|other: u64| other < 64 implies !#[trigger] blocks(
            board,
            image,
            color,
            other,
        ) by {
            let back = mirror_square(other);
            lemma_mirror_square(other);
            lemma_blocks_mirrored(board, sq, color, back);
        }
    }
}

/// What the piece on a square adds to the material of `side`.
pub open spec fn contribution(board: Board, side: Color, endgame: bool, sq: u64) -> int {
    match board.piece_at(sq) {
        Some(piece) if piece.color == side => square_score(board, sq, endgame),
        _ => 0,
    }
}

/// How much more a queen of `side` on a square is worth when its table is
/// read from right to left.
pub open spec fn queen_skew_at(board: Board, side: Color, endgame: bool, sq: u64) -> int {
    match board.piece_at(sq) {
        Some(piece) if piece.color == side && piece.role == Role::Queen => table_entry(
            Role::Queen,
            endgame,
            mirror_file(table_index(piece.color, sq)),
        ) - table_entry(Role::Queen, endgame, table_index(piece.color, sq)),
        _ => 0,
    }
}

/// How much more the queens of the side to move, less those of the other
/// side, are worth when the queen's table is read from right to left.
pub open spec fn queen_skew(board: Board, turn: Color) -> int {
    sum_below(|sq: u64| queen_skew_at(board, turn, is_endgame(board), sq), 64) - sum_below(
        |sq: u64| queen_skew_at(board, turn.flip(), is_endgame(board), sq),
        64,
    )
}

/// The material of a side is the sum of what its pieces add.
pub proof fn lemma_material_is_sum(board: Board, side: Color, endgame: bool, n: u64)
    ensures
        side_material(board, side, endgame, n) == sum_below(
            |sq: u64| contribution(board, side, endgame, sq),
            n,
        ),
    decreases n,
{
    if n > 0 {
        lemma_material_is_sum(board, side, endgame, (n - 1) as u64);
    }
}

/// A piece of the mirrored board adds what its mirror image adds, and for a
/// queen the skew of its table besides.
pub proof fn lemma_contribution_mirrored(board: Board, side: Color, endgame: bool, sq: u64)
    requires
        board.consistent(),
        sq < 64,
    ensures
        contribution(mirror(board), side.flip(), endgame, sq) == contribution(
            board,
            side,
            endgame,
            mirror_square(sq),
        ) + queen_skew_at(board, side, endgame, mirror_square(sq)),
{
    let image = mirror_square(sq);
    lemma_piece_mirrored(board, sq);
    match board.piece_at(image) {
        Some(piece) => {
            lemma_passed_mirrored(board, sq, piece.color);
            let index = table_index(piece.color, image);
            if piece.role != Role::Queen {
                lemma_tables_are_symmetric(piece.role, endgame, index);
            }
        },
        None => {},
    }
}

/// The sum of two terms is the sum of their sums.
pub proof fn lemma_sum_of_sums(first: spec_fn(u64) -> int, second: spec_fn(u64) -> int, n: u64)
    ensures
        sum_below(|sq: u64| first(sq) + second(sq), n) == sum_below(first, n) + sum_below(
            second,
            n,
        ),
    decreases n,
{
    if n > 0 {
        lemma_sum_of_sums(first, second, (n - 1) as u64);
    }
}

/// The material of a side on the mirrored board is the material of the
/// other side on the board, and the skew of its queens besides.
pub proof fn lemma_material_mirrored(board: Board, side: Color, endgame: bool)
    requires
        board.consistent(),
    ensures
        side_material(mirror(board), side.flip(), endgame, 64) == side_material(
            board,
            side,
            endgame,
            64,
        ) + sum_below(|sq: u64| queen_skew_at(board, side, endgame, sq), 64),
{
    let there = |sq: u64| contribution(mirror(board), side.flip(), endgame, sq);
    let here = |sq: u64| contribution(board, side, endgame, sq);
    let skew = |sq: u64| queen_skew_at(board, side, endgame, sq);
    let both = |sq: u64| here(sq) + skew(sq);
    let both_mirrored = |sq: u64| both(mirror_square(sq));
    lemma_material_is_sum(mirror(board), side.flip(), endgame, 64);
    lemma_material_is_sum(board, side, endgame, 64);
    assert forall|sq: u64| sq < 64 implies #[trigger] there(sq) == both_mirrored(sq) by {
        lemma_contribution_mirrored(board, side, endgame, sq);
    }
    lemma_sum_of_equal_terms(there, both_mirrored, 64);
    lemma_sum_mirrored(both);
    lemma_sum_of_sums(here, skew, 64);
}

/// Whether a set meets a file does not change when the set is flipped.
pub proof fn lemma_on_file_flipped(a: u64, b: u64, f: u64)
    requires
        f < 8,
    ensures
        on_file(flip_ranks(a) & flip_ranks(b), f) == on_file(a & b, f),
        isolated_on(flip_ranks(a) & flip_ranks(b), f) == isolated_on(a & b, f),
        count((flip_ranks(a) & flip_ranks(b)) & file_squares(f)) == count(
            (a & b) & file_squares(f),
        ),
        count(flip_ranks(a) & flip_ranks(b)) == count(a & b),
{
    lemma_flip_sets(a, b);
    lemma_flip_files(f);
    lemma_flip_sets(a & b, file_squares(f));
    lemma_flip_sets(a & b, neighbour_squares(f));
    lemma_flip_sets((a & b) & file_squares(f), 0);
    lemma_flip_sets((a & b) & neighbour_squares(f), 0);
    lemma_count_flipped((a & b) & file_squares(f));
    lemma_count_flipped(a & b);
}

/// The terms that are counted file by file are the same on the mirrored
/// board.
pub proof fn lemma_file_terms_mirrored(board: Board, turn: Color, f: u64)
    requires
        f < 8,
    ensures
        open_file_term(mirror(board), turn.flip(), f) == open_file_term(board, turn, f),
        isolated_term(mirror(board), turn.flip(), f) == isolated_term(board, turn, f),
        king_file_term(mirror(board), turn.flip(), f) == king_file_term(board, turn, f),
        doubled_term(mirror(board), turn.flip(), f) == doubled_term(board, turn, f),
{
    let ours = board.side(turn);
    let theirs = board.side(turn.flip());
    lemma_side_mirrored(board, turn);
    lemma_side_mirrored(board, turn.flip());
    lemma_on_file_flipped(board.pawns, ours, f);
    lemma_on_file_flipped(board.pawns, theirs, f);
    lemma_on_file_flipped(board.rooks, ours, f);
    lemma_on_file_flipped(board.rooks, theirs, f);
    lemma_on_file_flipped(board.kings, ours, f);
    lemma_on_file_flipped(board.kings, theirs, f);
}

/// The sums over the files are the same on the mirrored board.
pub proof fn lemma_file_sums_mirrored(board: Board, turn: Color, n: u64)
    requires
        n <= 8,
    ensures
        open_file_sum(mirror(board), turn.flip(), n) == open_file_sum(board, turn, n),
        isolated_sum(mirror(board), turn.flip(), n) == isolated_sum(board, turn, n),
        king_file_sum(mirror(board), turn.flip(), n) == king_file_sum(board, turn, n),
        doubled_sum(mirror(board), turn.flip(), n) == doubled_sum(board, turn, n),
    decreases n,
{
    if n > 0 {
        lemma_file_sums_mirrored(board, turn, (n - 1) as u64);
        lemma_file_terms_mirrored(board, turn, (n - 1) as u64);
    }
}

/// The mirrored board is in the endgame when the board is, and the bishops
/// count the same.
pub proof fn lemma_counts_mirrored(board: Board, turn: Color)
    ensures
        is_endgame(mirror(board)) == is_endgame(board),
        bishop_pair_score(mirror(board), turn.flip()) == bishop_pair_score(board, turn),
{
    lemma_flip_sets(board.rooks, board.bishops);
    lemma_flip_sets(board.rooks | board.bishops, board.queens);
    lemma_flip_sets(board.rooks | board.bishops | board.queens, board.knights);
    lemma_count_flipped(board.rooks | board.bishops | board.queens | board.knights);
    lemma_side_mirrored(board, turn);
    lemma_side_mirrored(board, turn.flip());
    lemma_on_file_flipped(board.bishops, board.side(turn), 0);
    lemma_on_file_flipped(board.bishops, board.side(turn.flip()), 0);
}

/// The static score of the mirrored position, with the other side to move,
/// is the static score of the position with the skew of the queen's table
/// added before the score is cut off.
pub proof fn lemma_mirrored_score(board: Board, turn: Color)
    requires
        board.consistent(),
    ensures
        raw_score(mirror(board), turn.flip()) == raw_score(board, turn) + queen_skew(board, turn),
        static_score(mirror(board), turn.flip()) == clamp(
            raw_score(board, turn) + queen_skew(board, turn),
            STATIC_LIMIT as int,
        ),
{
    lemma_counts_mirrored(board, turn);
    lemma_file_sums_mirrored(board, turn, 8);
    lemma_material_mirrored(board, turn, is_endgame(board));
    lemma_material_mirrored(board, turn.flip(), is_endgame(board));
}

/// A position and its mirror image have the same static score, provided
/// that the queens gain nothing from the orientation of their table: above
/// all when there is no queen on the board.
pub proof fn lemma_mirror_symmetry(board: Board, turn: Color)
    requires
        board.consistent(),
        queen_skew(board, turn) == 0,
    ensures
        static_score(mirror(board), turn.flip()) == static_score(board, turn),
{
    lemma_mirrored_score(board, turn);
}

} // verus!
