//! The parts of the UCI front end that compute: setting up the position of
//! a `position` command, and counting the nodes of a `perft` command.

use vstd::prelude::*;
use shakmaty::{Chess, Move};
use crate::parsers::{split_chars, to_chars, views, words};
use crate::rules::{
    legal_moves, legal_moves_of, move_of, parse_uci, play, position_after, to_move, uci_of,
};

verus! {

/// Whether `pattern` stands in `line` at index `at`.
pub open spec fn occurs_at(line: Seq<char>, pattern: Seq<char>, at: int) -> bool {
    0 <= at && at + pattern.len() <= line.len() && line.subrange(at, at + pattern.len())
        == pattern
}

/// The first index from `from` on at which `pattern` stands in `line`.
pub open spec fn first_from(line: Seq<char>, pattern: Seq<char>, from: int) -> Option<int>
    decreases line.len() + 1 - from,
{
    if from < 0 || from + pattern.len() > line.len() {
        None
    } else if occurs_at(line, pattern, from) {
        Some(from)
    } else {
        first_from(line, pattern, from + 1)
    }
}

/// Whether `pattern` stands in `line` at index `at`.
pub fn starts_at(line: &Vec<char>, pattern: &Vec<char>, at: usize) -> (found: bool)
    requires
        at + pattern.len() <= line.len(),
    ensures
        found == occurs_at(line@, pattern@, at as int),
{
    let m: usize = pattern.len();
    let mut j: usize = 0;
    while j < m
        invariant
            j <= m,
            m == pattern.len(),
            at + m <= line.len(),
            forall|k: int| 0 <= k < j ==> line@[at + k] == pattern@[k],
        decreases m - j,
    {
        if line[at + j] != pattern[j] {
            return false;
        }
        j = j + 1;
    }
    assert(line@.subrange(at as int, at + m) =~= pattern@);
    true
}

/// The first index from `from` on at which `pattern` stands in `line`.
pub fn find_from(line: &Vec<char>, pattern: &Vec<char>, from: usize) -> (found: Option<usize>)
    ensures
        found matches Some(at) ==> first_from(line@, pattern@, from as int) == Some(at as int)
            && from <= at && at + pattern.len() <= line.len(),
        found is None ==> first_from(line@, pattern@, from as int) is None,
{
    let n: usize = line.len();
    let m: usize = pattern.len();
    if m > n || from > n - m {
        return None;
    }
    let last: usize = n - m;
    let mut i: usize = from;
    while i < last
        invariant
            from <= i <= last,
            last + m == n,
            n == line.len(),
            m == pattern.len(),
            first_from(line@, pattern@, from as int) == first_from(line@, pattern@, i as int),
        decreases last - i,
    {
        if starts_at(line, pattern, i) {
            return Some(i);
        }
        i = i + 1;
    }
    if starts_at(line, pattern, last) {
        Some(last)
    } else {
        assert(first_from(line@, pattern@, last + 1) is None);
        None
    }
}

/// The part of a `position` command that lists the moves: what stands
/// between the first `moves` and the next one, or the end of the line.
pub open spec fn moves_text(line: Seq<char>) -> Seq<char> {
    match first_from(line, "moves"@, 0) {
        None => Seq::empty(),
        Some(at) => {
            let start = at + "moves"@.len();
            match first_from(line, "moves"@, start) {
                Some(end) => line.subrange(start, end),
                None => line.subrange(start, line.len() as int),
            }
        },
    }
}

/// The part of a `position` command that lists the moves.
pub fn moves_part(line: &Vec<char>) -> (part: Vec<char>)
    ensures
        part@ == moves_text(line@),
{
    let keyword: Vec<char> = to_chars("moves");
    let mut part: Vec<char> = Vec::new();
    match find_from(line, &keyword, 0) {
        None => {},
        Some(at) => {
            let start: usize = at + keyword.len();
            let end: usize = match find_from(line, &keyword, start) {
                Some(next) => next,
                None => line.len(),
            };
            let mut i: usize = start;
            while i < end
                invariant
                    start <= i <= end <= line.len(),
                    part@ == line@.subrange(start as int, i as int),
                decreases end - i,
            {
                part.push(line[i]);
                i = i + 1;
            }
        },
    }
    part
}

/// The position after one more move, written in UCI notation, is played;
/// none if the word is no move or the move is not legal.
pub open spec fn play_word(pos: Chess, word: Seq<char>) -> Option<Chess> {
    match uci_of(word) {
        None => None,
        Some(uci) => match move_of(uci, pos) {
            None => None,
            Some(m) => Some(position_after(pos, m)),
        },
    }
}

/// The position after the first `n` moves of `list` are played in turn;
/// none if one of them cannot be played.
pub open spec fn play_all(pos: Chess, list: Seq<Seq<char>>, n: nat) -> Option<Chess>
    decreases n,
{
    if n == 0 {
        Some(pos)
    } else {
        match play_all(pos, list, (n - 1) as nat) {
            None => None,
            Some(reached) => play_word(reached, list[n - 1]),
        }
    }
}

/// The position that a `position` command sets up. The moves are played
/// from `start` if the line names `startpos`, else from `board`.
pub open spec fn position_set(line: Seq<char>, board: Chess, start: Chess) -> Option<Chess> {
    play_all(
        if first_from(line, "startpos"@, 0) is Some {
            start
        } else {
            board
        },
        words(moves_text(line)),
        words(moves_text(line)).len(),
    )
}

/// Sets up the position of a `position` command: `start`, the initial
/// position, if the line names `startpos`, else the current position
/// `board`; then the moves that the line lists are played. The result is
/// `None` if a word in the list is no move in UCI notation or no legal
/// move where it is to be played.
pub fn set_position(input: &str, board: Chess, start: Chess) -> (result: Option<Chess>)
    ensures
        result == position_set(input@, board, start),
{
    let line: Vec<char> = to_chars(input);
    let from_start: bool = find_from(&line, &to_chars("startpos"), 0).is_some();
    let mut current: Chess = if from_start {
        start
    } else {
        board
    };
    let list: Vec<Vec<char>> = split_chars(&moves_part(&line));
    let ghost base = current;
    let mut i: usize = 0;
    while i < list.len()
        invariant
            i <= list.len(),
            views(list@) == words(moves_text(input@)),
            base == if first_from(input@, "startpos"@, 0) is Some {
                start
            } else {
                board
            },
            play_all(base, views(list@), i as nat) == Some(current),
        decreases list.len() - i,
    {
        let uci = match parse_uci(&list[i]) {
            Some(uci) => uci,
            None => {
                proof {
                    lemma_play_all_stays_none(base, views(list@), (i + 1) as nat, list.len() as nat);
                }
                return None;
            },
        };
        let m: Move = match to_move(&uci, &current) {
            Some(m) => m,
            None => {
                proof {
                    lemma_play_all_stays_none(base, views(list@), (i + 1) as nat, list.len() as nat);
                }
                return None;
            },
        };
        current = play(&current, &m);
        i = i + 1;
    }
    Some(current)
}

/// Once a move cannot be played, no longer list of moves can.
proof fn lemma_play_all_stays_none(pos: Chess, list: Seq<Seq<char>>, n: nat, later: nat)
    requires
        n <= later,
        play_all(pos, list, n) is None,
    ensures
        play_all(pos, list, later) is None,
    decreases later,
{
    if n < later {
        lemma_play_all_stays_none(pos, list, n, (later - 1) as nat);
    }
}

/// The number of ways to play `depth` moves from a position: 1 at depth 0,
/// and otherwise the ways from the positions after each legal move, one
/// level shallower.
pub open spec fn perft_nodes(pos: Chess, depth: nat) -> nat
    decreases depth, 1int,
{
    if depth == 0 {
        1
    } else {
        perft_sum(pos, legal_moves_of(pos), legal_moves_of(pos).len(), depth)
    }
}

/// The ways to play `depth` moves that begin with one of the first `n`
/// moves of `moves`.
pub open spec fn perft_sum(pos: Chess, moves: Seq<Move>, n: nat, depth: nat) -> nat
    decreases depth, 0int, n,
{
    if n == 0 || depth == 0 {
        0
    } else {
        perft_sum(pos, moves, (n - 1) as nat, depth) + perft_nodes(
            position_after(pos, moves[n - 1]),
            (depth - 1) as nat,
        )
    }
}

/// A count as far as `usize` can hold it.
pub open spec fn capped(n: nat) -> usize {
    if n > usize::MAX {
        usize::MAX
    } else {
        n as usize
    }
}

/// Counts the ways to play `depth` moves from a position. The count stops
/// at `usize::MAX`.
pub fn perft_search(depth: usize, board: &Chess) -> (count: usize)
    ensures
        count == capped(perft_nodes(*board, depth as nat)),
    decreases depth,
{
    if depth == 0 {
        return 1;
    }
    let moves: Vec<Move> = legal_moves(board);
    let mut count: usize = 0;
    let mut i: usize = 0;
    while i < moves.len()
        invariant
            i <= moves.len(),
            depth > 0,
            moves@ == legal_moves_of(*board),
            count == capped(perft_sum(*board, moves@, i as nat, depth as nat)),
        decreases moves.len() - i,
    {
        let next: Chess = play(board, &moves[i]);
        count = count.saturating_add(perft_search(depth - 1, &next));
        i = i + 1;
    }
    count
}

} // verus!
