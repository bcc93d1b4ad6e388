//! Sets of squares as 64-bit words.
//!
//! Square `8 * rank + file` is bit `8 * rank + file` of the word, so A1 is
//! bit 0 and H8 is bit 63. Intersection and union are `&` and `|`.

use vstd::prelude::*;

verus! {

/// The squares of the A-file.
pub const FILE_A: u64 = 0x0101_0101_0101_0101;

/// Every square of the board.
pub const ALL_SQUARES: u64 = 0xffff_ffff_ffff_ffff;

/// Whether square `sq` belongs to the set `bb`.
pub open spec fn has(bb: u64, sq: u64) -> bool {
    sq < 64 && (bb >> sq) & 1 == 1
}

/// The squares of file `f` (0 for the A-file, 7 for the H-file).
pub open spec fn file_squares(f: u64) -> u64 {
    FILE_A << f
}

/// The files next to file `f`: the B-file for A, the G-file for H, and the
/// two neighbours for every other file.
pub open spec fn neighbour_squares(f: u64) -> u64 {
    if f == 0 {
        file_squares(1)
    } else if f == 7 {
        file_squares(6)
    } else {
        file_squares((f - 1) as u64) | file_squares((f + 1) as u64)
    }
}

/// The squares on ranks strictly above rank `r`.
pub open spec fn squares_above(r: u64) -> u64 {
    if r >= 7 {
        0
    } else {
        ALL_SQUARES << ((8 * (r + 1)) as u64)
    }
}

/// The squares on ranks strictly below rank `r`.
pub open spec fn squares_below(r: u64) -> u64 {
    if r == 0 {
        0
    } else {
        ALL_SQUARES >> ((8 * (8 - r)) as u64)
    }
}

/// How many of the squares `0 .. n` belong to `bb`.
pub open spec fn count_below(bb: u64, n: u64) -> nat
    decreases n,
{
    if n == 0 {
        0
    } else {
        count_below(bb, (n - 1) as u64) + if has(bb, (n - 1) as u64) {
            1nat
        } else {
            0nat
        }
    }
}

/// How many squares belong to `bb`.
pub open spec fn count(bb: u64) -> nat {
    count_below(bb, 64)
}

/// `u64::count_ones` returns the number of bits set in the word, which is
/// the number of squares in the set.
pub assume_specification[ u64::count_ones ](bb: u64) -> (n: u32)
    ensures
        n == count(bb),
;

/// Membership test.
pub fn contains(bb: u64, sq: u64) -> (found: bool)
    requires
        sq < 64,
    ensures
        found == has(bb, sq),
{
    (bb >> sq) & 1 == 1
}

/// The squares of a file: those whose index is the file modulo 8.
pub fn file_mask(f: u64) -> (mask: u64)
    requires
        f < 8,
    ensures
        mask == file_squares(f),
        forall|sq: u64| #[trigger] has(mask, sq) == (sq < 64 && sq % 8 == f),
{
    proof {
        assert forall|sq: u64| #[trigger] has(file_squares(f), sq) == (sq < 64 && sq % 8 == f) by {
            if sq < 64 {
                lemma_has_file(f, sq);
            }
        }
    }
    FILE_A << f
}

/// The squares of the files adjacent to `file`: those whose file is one
/// less or one more.
pub fn get_neighbour_files(file: u64) -> (mask: u64)
    requires
        file < 8,
    ensures
        mask == neighbour_squares(file),
        forall|sq: u64| #[trigger]
            has(mask, sq) == (sq < 64 && (sq % 8 + 1 == file || sq % 8 == file + 1)),
{
    proof {
        assert forall|sq: u64| #[trigger]
            has(neighbour_squares(file), sq) == (sq < 64 && (sq % 8 + 1 == file || sq % 8 == file
                + 1)) by {
            if sq < 64 {
                lemma_has_neighbours(file, sq);
            }
        }
    }
    if file == 0 {
        file_mask(1)
    } else if file == 7 {
        file_mask(6)
    } else {
        file_mask(file - 1) | file_mask(file + 1)
    }
}

/// The squares on ranks strictly above `rank`.
pub fn ranks_above(rank: u64) -> (mask: u64)
    requires
        rank < 8,
    ensures
        mask == squares_above(rank),
        forall|sq: u64| #[trigger] has(mask, sq) == (sq < 64 && sq / 8 > rank),
{
    proof {
        assert forall|sq: u64| #[trigger]
            has(squares_above(rank), sq) == (sq < 64 && sq / 8 > rank) by {
            if sq < 64 {
                lemma_has_above(rank, sq);
            }
        }
    }
    if rank >= 7 {
        0
    } else {
        ALL_SQUARES << (8 * (rank + 1))
    }
}

/// The squares on ranks strictly below `rank`.
pub fn ranks_below(rank: u64) -> (mask: u64)
    requires
        rank < 8,
    ensures
        mask == squares_below(rank),
        forall|sq: u64| #[trigger] has(mask, sq) == (sq < 64 && sq / 8 < rank),
{
    proof {
        assert forall|sq: u64| #[trigger]
            has(squares_below(rank), sq) == (sq < 64 && sq / 8 < rank) by {
            if sq < 64 {
                lemma_has_below(rank, sq);
            }
        }
    }
    if rank == 0 {
        0
    } else {
        ALL_SQUARES >> (8 * (8 - rank))
    }
}

/// A square is in an intersection exactly when it is in both sets.
pub proof fn lemma_has_and(a: u64, b: u64, sq: u64)
    by (bit_vector)
    ensures
        has(a & b, sq) == (has(a, sq) && has(b, sq)),
{
}

/// A file holds exactly the squares whose index is the file modulo 8.
pub proof fn lemma_has_file(f: u64, sq: u64)
    by (bit_vector)
    requires
        f < 8,
        sq < 64,
    ensures
        has(file_squares(f), sq) == (sq % 8 == f),
{
}

/// The neighbours of a file hold exactly the squares whose file is one less
/// or one more.
pub proof fn lemma_has_neighbours(f: u64, sq: u64)
    by (bit_vector)
    requires
        f < 8,
        sq < 64,
    ensures
        has(neighbour_squares(f), sq) == (sq % 8 + 1 == f || sq % 8 == f + 1),
{
}

/// The squares above rank `r` are those whose rank is greater than `r`.
pub proof fn lemma_has_above(r: u64, sq: u64)
    by (bit_vector)
    requires
        r < 8,
        sq < 64,
    ensures
        has(squares_above(r), sq) == (sq / 8 > r),
{
}

/// The squares below rank `r` are those whose rank is less than `r`.
pub proof fn lemma_has_below(r: u64, sq: u64)
    by (bit_vector)
    requires
        r < 8,
        sq < 64,
    ensures
        has(squares_below(r), sq) == (sq / 8 < r),
{
}

/// A set with a member is not empty.
pub proof fn lemma_member_nonzero(bb: u64, sq: u64)
    by (bit_vector)
    requires
        has(bb, sq),
    ensures
        bb != 0,
{
}

/// A non-empty set has one of the 64 squares as a member.
proof fn lemma_nonzero_cases(bb: u64)
    by (bit_vector)
    requires
        bb != 0,
    ensures
        has(bb, 0)
            || has(bb, 1)
            || has(bb, 2)
            || has(bb, 3)
            || has(bb, 4)
            || has(bb, 5)
            || has(bb, 6)
            || has(bb, 7)
            || has(bb, 8)
            || has(bb, 9)
            || has(bb, 10)
            || has(bb, 11)
            || has(bb, 12)
            || has(bb, 13)
            || has(bb, 14)
            || has(bb, 15)
            || has(bb, 16)
            || has(bb, 17)
            || has(bb, 18)
            || has(bb, 19)
            || has(bb, 20)
            || has(bb, 21)
            || has(bb, 22)
            || has(bb, 23)
            || has(bb, 24)
            || has(bb, 25)
            || has(bb, 26)
            || has(bb, 27)
            || has(bb, 28)
            || has(bb, 29)
            || has(bb, 30)
            || has(bb, 31)
            || has(bb, 32)
            || has(bb, 33)
            || has(bb, 34)
            || has(bb, 35)
            || has(bb, 36)
            || has(bb, 37)
            || has(bb, 38)
            || has(bb, 39)
            || has(bb, 40)
            || has(bb, 41)
            || has(bb, 42)
            || has(bb, 43)
            || has(bb, 44)
            || has(bb, 45)
            || has(bb, 46)
            || has(bb, 47)
            || has(bb, 48)
            || has(bb, 49)
            || has(bb, 50)
            || has(bb, 51)
            || has(bb, 52)
            || has(bb, 53)
            || has(bb, 54)
            || has(bb, 55)
            || has(bb, 56)
            || has(bb, 57)
            || has(bb, 58)
            || has(bb, 59)
            || has(bb, 60)
            || has(bb, 61)
            || has(bb, 62)
            || has(bb, 63),
{
}

/// A set is empty exactly when no square belongs to it.
pub proof fn lemma_empty_iff_no_member(bb: u64)
    ensures
        bb == 0 <==> forall|sq: u64| sq < 64 ==> !#[trigger] has(bb, sq),
{
    if bb != 0 {
        lemma_nonzero_cases(bb);
    } else {
        assert forall|sq: u64| sq < 64 implies !#[trigger] has(bb, sq) by {
            if has(bb, sq) {
                lemma_member_nonzero(bb, sq);
            }
        }
    }
}

/// A file together with its neighbours holds the squares whose file is at
/// most one away.
pub proof fn lemma_has_span(f: u64, sq: u64)
    by (bit_vector)
    requires
        f < 8,
        sq < 64,
    ensures
        has(file_squares(f) | neighbour_squares(f), sq) == (sq % 8 + 1 >= f && sq % 8 <= f + 1),
{
}

} // verus!
