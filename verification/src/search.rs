//! The search: move ordering, quiescence, negamax with alpha-beta pruning
//! over the transposition table, and the iterative-deepening driver.
//!
//! Each search function is specified by a function of the mathematical model
//! that says what it returns, what it leaves in the table and how many
//! positions it scores. What a search with a deadline does depends on what
//! the clock says when it is asked; the specification takes the answers of
//! the clock as given, and the contracts say that the search does what the
//! specification says of the answers that the clock gave.

use vstd::prelude::*;
use shakmaty::{Chess, Move};
use crate::clock::{Deadline, Stopwatch};
use crate::evaluate::{evaluate_outcome, evaluate_position, static_score, terminal_score};
use crate::rules::{
    board_of, captures, hash_of, legal_moves, legal_moves_of, outcome, outcome_of, placement,
    play, position_after, promotes, same_move, turn, turn_of, zobrist,
};
use crate::transposition::{store_spec, Bound, TTEntry, TranspositionTable};

verus! {

/// The score that stands for "better than anything"; its negation stands
/// for "worse than anything". Every score lies between the two, so that a
/// score can always be negated.
pub const INFINITY: i32 = i32::MAX;

/// Quiescence looks this many plies beyond the nominal depth.
pub const QUIESCE_PLIES: usize = 3;

/// Whether `x` is a score.
pub open spec fn is_score(x: int) -> bool {
    -INFINITY <= x <= INFINITY
}

/// The larger of two scores.
pub open spec fn larger(a: int, b: int) -> int {
    if a >= b {
        a
    } else {
        b
    }
}

/// The counter after `leaves` more positions were scored. The counter stops
/// at `usize::MAX`.
pub open spec fn bump(counter: usize, leaves: nat) -> usize {
    if counter + leaves > usize::MAX {
        usize::MAX
    } else {
        (counter + leaves) as usize
    }
}

/// Counts one scored position.
fn count_leaf(counter: &mut usize)
    ensures
        *final(counter) == bump(*old(counter), 1),
{
    if *counter < usize::MAX {
        *counter = *counter + 1;
    }
}

/// A copy of an optional move.
fn clone_choice(choice: &Option<Move>) -> (copy: Option<Move>)
    ensures
        copy == *choice,
{
    match choice {
        Some(m) => Some(m.clone()),
        None => None,
    }
}

// ---------------------------------------------------------------------------
// Move ordering
// ---------------------------------------------------------------------------
/// The class of a move: 1 for the table's move, 2 for a capture, 3 for a
/// promotion, 4 for any other move. The first class that fits is taken.
pub open spec fn priority(m: Move, hint: Option<Move>) -> int {
    if hint == Some(m) {
        1
    } else if captures(m) {
        2
    } else if promotes(m) {
        3
    } else {
        4
    }
}

/// The class of a move.
pub fn move_priority(m: &Move, hint: &Option<Move>) -> (class: u8)
    ensures
        class == priority(*m, *hint),
{
    let hinted = match hint {
        Some(h) => same_move(m, h),
        None => false,
    };
    if hinted {
        1
    } else if m.is_capture() {
        2
    } else if m.is_promotion() {
        3
    } else {
        4
    }
}

/// The moves of one class, in the order in which they were given.
pub open spec fn with_priority(moves: Seq<Move>, hint: Option<Move>, class: int) -> Seq<Move> {
    moves.filter(|m: Move| priority(m, hint) == class)
}

/// The moves of the classes `1 ..= classes`, class by class, each class in
/// the order in which its moves were given.
pub open spec fn ordered_up_to(moves: Seq<Move>, hint: Option<Move>, classes: int) -> Seq<Move>
    decreases classes,
{
    if classes <= 0 {
        Seq::empty()
    } else {
        ordered_up_to(moves, hint, classes - 1) + with_priority(moves, hint, classes)
    }
}

/// The moves sorted by class, with the given order kept inside each class.
pub open spec fn ordered(moves: Seq<Move>, hint: Option<Move>) -> Seq<Move> {
    ordered_up_to(moves, hint, 4)
}

/// The move that the table suggests for a key, if any.
pub open spec fn hint_of(table: Map<u64, TTEntry>, hash: u64) -> Option<Move> {
    if table.contains_key(hash) {
        table[hash].best_move
    } else {
        None
    }
}

/// Taking one more move into account either appends it to its class or
/// leaves the class as it is.
proof fn lemma_with_priority_step(moves: Seq<Move>, hint: Option<Move>, class: int, i: int)
    requires
        0 <= i < moves.len(),
    ensures
        with_priority(moves.take(i + 1), hint, class) == if priority(moves[i], hint) == class {
            with_priority(moves.take(i), hint, class).push(moves[i])
        } else {
            with_priority(moves.take(i), hint, class)
        },
{
    reveal(Seq::filter);
    assert(moves.take(i + 1).drop_last() == moves.take(i));
}

/// Every sorted move is one of the moves that were given.
pub proof fn lemma_ordered_moves_are_given(moves: Seq<Move>, hint: Option<Move>, classes: int)
    ensures
        forall|i: int|
            0 <= i < ordered_up_to(moves, hint, classes).len() ==> moves.contains(
                #[trigger] ordered_up_to(moves, hint, classes)[i],
            ),
    decreases classes,
{
    if classes > 0 {
        lemma_ordered_moves_are_given(moves, hint, classes - 1);
        let head = ordered_up_to(moves, hint, classes - 1);
        let tail = with_priority(moves, hint, classes);
        assert forall|i: int| 0 <= i < (head + tail).len() implies moves.contains(
            #[trigger] (head + tail)[i],
        ) by {
            if i >= head.len() {
                let m = tail[i - head.len()];
                moves.lemma_filter_contains_rev(|m: Move| priority(m, hint) == classes, m);
            }
        }
    }
}

/// The sorted moves are the given moves in another order: every move
/// appears as often as it was given.
pub proof fn lemma_ordered_is_reordering(moves: Seq<Move>, hint: Option<Move>)
    ensures
        ordered(moves, hint).to_multiset() == moves.to_multiset(),
        ordered(moves, hint).len() == moves.len(),
    decreases moves.len(),
{
    broadcast use vstd::seq_lib::group_to_multiset_ensures;

    reveal_with_fuel(ordered_up_to, 5);
    reveal(Seq::filter);
    let first = with_priority(moves, hint, 1);
    let second = with_priority(moves, hint, 2);
    let third = with_priority(moves, hint, 3);
    let fourth = with_priority(moves, hint, 4);
    if moves.len() > 0 {
        let rest = moves.drop_last();
        let last = moves.last();
        lemma_ordered_is_reordering(rest, hint);
        let a = with_priority(rest, hint, 1);
        let b = with_priority(rest, hint, 2);
        let c = with_priority(rest, hint, 3);
        let d = with_priority(rest, hint, 4);
        assert(moves =~= rest.push(last));
        vstd::seq_lib::lemma_multiset_commutative(a, b);
        vstd::seq_lib::lemma_multiset_commutative(a + b, c);
        vstd::seq_lib::lemma_multiset_commutative(a + b + c, d);
        vstd::seq_lib::lemma_multiset_commutative(first, second);
        vstd::seq_lib::lemma_multiset_commutative(first + second, third);
        vstd::seq_lib::lemma_multiset_commutative(first + second + third, fourth);
        assert(ordered(moves, hint).to_multiset() =~= ordered(rest, hint).to_multiset().insert(
            last,
        ));
    }
}

/// Sorts the legal moves of a position for the search: first the move that
/// the table holds for the position, then captures, then promotions, then
/// the rest, each class in the order in which the moves were given.
pub fn sort_moves(board: &Chess, moves: Vec<Move>, t_table: &TranspositionTable) -> (sorted: Vec<
    Move,
>)
    ensures
        sorted@ == ordered(moves@, hint_of(t_table@, hash_of(*board))),
        sorted@.to_multiset() == moves@.to_multiset(),
        sorted.len() == moves.len(),
        forall|i: int| 0 <= i < sorted.len() ==> moves@.contains(#[trigger] sorted@[i]),
{
    let hash = zobrist(board);
    let hint: Option<Move> = match t_table.lookup(hash) {
        Some(entry) => clone_choice(&entry.best_move),
        None => None,
    };
    let mut sorted: Vec<Move> = Vec::new();
    let mut class: u8 = 1;
    while class <= 4
        invariant
            1 <= class <= 5,
            sorted@ == ordered_up_to(moves@, hint, class - 1),
        decreases 5 - class,
    {
        let ghost done = sorted@;
        let mut i: usize = 0;
        assert(with_priority(moves@.take(0), hint, class as int) =~= Seq::<Move>::empty()) by {
            reveal(Seq::filter);
        }
        while i < moves.len()
            invariant
                i <= moves.len(),
                1 <= class <= 4,
                sorted@ == done + with_priority(moves@.take(i as int), hint, class as int),
            decreases moves.len() - i,
        {
            proof {
                lemma_with_priority_step(moves@, hint, class as int, i as int);
            }
            if move_priority(&moves[i], &hint) == class {
                sorted.push(moves[i].clone());
            }
            i = i + 1;
        }
        assert(moves@.take(moves.len() as int) =~= moves@);
        class = class + 1;
    }
    proof {
        lemma_ordered_moves_are_given(moves@, hint, 4);
        lemma_ordered_is_reordering(moves@, hint);
    }
    sorted
}

// ---------------------------------------------------------------------------
// Quiescence
// ---------------------------------------------------------------------------
/// What a quiescence search yields: the score, and how many positions were
/// scored on the way.
pub struct Leaf {
    pub score: int,
    pub evals: nat,
}

/// Plies that quiescence may still descend from ply `ply`.
pub open spec fn plies_left(ply: nat) -> nat {
    if ply < QUIESCE_PLIES {
        (QUIESCE_PLIES - ply) as nat
    } else {
        0
    }
}

/// A move is noisy when it captures or promotes.
pub open spec fn is_noisy(m: Move) -> bool {
    captures(m) || promotes(m)
}

/// Quiescence search of a position at quiescence ply `ply` in the window
/// `alpha .. beta`.
///
/// A finished game has its terminal score. Otherwise the static score
/// stands: it is returned as it is at the last ply; a static score of
/// `beta` or more returns `beta`; else `alpha` is raised to it and the noisy
/// moves are searched in turn.
pub open spec fn quiesce_spec(pos: Chess, ply: nat, alpha: int, beta: int) -> Leaf
    decreases plies_left(ply), 1int,
{
    match outcome_of(pos) {
        Some(outcome) => Leaf { score: terminal_score(outcome, turn_of(pos), ply as int), evals: 1 },
        None => {
            let stand_pat = static_score(board_of(pos), turn_of(pos));
            if ply >= QUIESCE_PLIES {
                Leaf { score: stand_pat, evals: 1 }
            } else if stand_pat >= beta {
                Leaf { score: beta, evals: 1 }
            } else {
                quiesce_moves(pos, legal_moves_of(pos), 0, ply, larger(alpha, stand_pat), beta, 1)
            }
        },
    }
}

/// Quiescence over the moves from index `i` on, with `alpha` raised so far
/// and `evals` positions scored so far. Quiet moves are passed over. A noisy
/// move is searched one ply deeper in the negated window; its negated score
/// raises `alpha`, and the search ends as soon as `alpha` reaches `beta`.
pub open spec fn quiesce_moves(
    pos: Chess,
    moves: Seq<Move>,
    i: nat,
    ply: nat,
    alpha: int,
    beta: int,
    evals: nat,
) -> Leaf
    decreases plies_left(ply), 0int, moves.len() - i,
{
    if i >= moves.len() || ply >= QUIESCE_PLIES {
        Leaf { score: alpha, evals }
    } else if !is_noisy(moves[i as int]) {
        quiesce_moves(pos, moves, i + 1, ply, alpha, beta, evals)
    } else {
        let reply = quiesce_spec(position_after(pos, moves[i as int]), ply + 1, -beta, -alpha);
        let raised = larger(alpha, -reply.score);
        if raised >= beta {
            Leaf { score: raised, evals: evals + reply.evals }
        } else {
            quiesce_moves(pos, moves, i + 1, ply, raised, beta, evals + reply.evals)
        }
    }
}

/// Quiescence search: the score of a position once the captures and
/// promotions within `QUIESCE_PLIES` plies are played out. Every position
/// scored on the way is counted.
pub fn quiesce(board: &Chess, ply: usize, alpha: i32, beta: i32, evaluate_count: &mut usize) -> (score:
    i32)
    requires
        ply <= i32::MAX,
        is_score(alpha as int),
        is_score(beta as int),
    ensures
        score == quiesce_spec(*board, ply as nat, alpha as int, beta as int).score,
        *final(evaluate_count) == bump(
            *old(evaluate_count),
            quiesce_spec(*board, ply as nat, alpha as int, beta as int).evals,
        ),
        is_score(score as int),
    decreases plies_left(ply as nat),
{
    let ghost before = *evaluate_count;
    let ghost goal = quiesce_spec(*board, ply as nat, alpha as int, beta as int);
    count_leaf(evaluate_count);
    if let Some(result) = outcome(board) {
        return evaluate_outcome(result, turn(board), &ply);
    }
    let stand_pat: i32 = evaluate_position(&placement(board), turn(board));
    if ply >= QUIESCE_PLIES {
        return stand_pat;
    }
    if stand_pat >= beta {
        return beta;
    }
    let mut floor: i32 = if alpha >= stand_pat {
        alpha
    } else {
        stand_pat
    };
    let moves: Vec<Move> = legal_moves(board);
    let ghost mut evals: nat = 1;
    let mut i: usize = 0;
    while i < moves.len()
        invariant
            i <= moves.len(),
            ply < QUIESCE_PLIES,
            moves@ == legal_moves_of(*board),
            is_score(floor as int),
            is_score(beta as int),
            goal == quiesce_spec(*board, ply as nat, alpha as int, beta as int),
            before == *old(evaluate_count),
            quiesce_moves(*board, moves@, i as nat, ply as nat, floor as int, beta as int, evals)
                == goal,
            *evaluate_count == bump(before, evals),
        decreases moves.len() - i,
    {
        let m = &moves[i];
        if m.is_capture() || m.is_promotion() {
            let next = play(board, m);
            let reply = quiesce(&next, ply + 1, -beta, -floor, evaluate_count);
            proof {
                evals = evals + quiesce_spec(
                    next,
                    (ply + 1) as nat,
                    -(beta as int),
                    -(floor as int),
                ).evals;
            }
            if -reply > floor {
                floor = -reply;
            }
            if floor >= beta {
                return floor;
            }
        }
        i = i + 1;
    }
    floor
}

/// With the full window, quiescence never scores a position that is still
/// being played below its static score: the side to move may always decline
/// to capture.
pub proof fn lemma_quiesce_at_least_static(pos: Chess)
    requires
        outcome_of(pos) is None,
    ensures
        quiesce_spec(pos, 0, -INFINITY as int, INFINITY as int).score >= static_score(
            board_of(pos),
            turn_of(pos),
        ),
{
    let stand_pat = static_score(board_of(pos), turn_of(pos));
    lemma_quiesce_moves_at_least_alpha(
        pos,
        legal_moves_of(pos),
        0,
        0,
        larger(-INFINITY as int, stand_pat),
        INFINITY as int,
        1,
    );
}

/// Searching moves never lowers `alpha`.
pub proof fn lemma_quiesce_moves_at_least_alpha(
    pos: Chess,
    moves: Seq<Move>,
    i: nat,
    ply: nat,
    alpha: int,
    beta: int,
    evals: nat,
)
    ensures
        quiesce_moves(pos, moves, i, ply, alpha, beta, evals).score >= alpha,
    decreases moves.len() - i,
{
    if i >= moves.len() || ply >= QUIESCE_PLIES {
    } else if !is_noisy(moves[i as int]) {
        lemma_quiesce_moves_at_least_alpha(pos, moves, i + 1, ply, alpha, beta, evals);
    } else {
        let reply = quiesce_spec(position_after(pos, moves[i as int]), ply + 1, -beta, -alpha);
        let raised = larger(alpha, -reply.score);
        if raised < beta {
            lemma_quiesce_moves_at_least_alpha(
                pos,
                moves,
                i + 1,
                ply,
                raised,
                beta,
                evals + reply.evals,
            );
        }
    }
}

// ---------------------------------------------------------------------------
// The clock
// ---------------------------------------------------------------------------
/// The clock as a search meets it. A search with a deadline puts questions
/// to the clock: whether the deadline has passed, and, between two
/// iterations, whether it is too close for another one. `says` holds the
/// answers in the order of the questions, `true` for yes, and `asked` counts
/// the questions put so far. A search without deadline, for which `limited`
/// is false, puts no questions.
pub struct Watch {
    pub limited: bool,
    pub says: Seq<bool>,
    pub asked: nat,
}

impl Watch {
    /// The watch of a search without deadline.
    pub open spec fn unlimited() -> Watch {
        Watch { limited: false, says: Seq::empty(), asked: 0 }
    }

    /// What the clock says to the question that comes `i` questions from
    /// now. A clock that is asked beyond what it says, says no.
    pub open spec fn answer(self, i: int) -> bool {
        0 <= self.asked + i < self.says.len() && self.says[self.asked + i]
    }

    /// Whether the clock, asked now, says yes, so that the search has to
    /// stop. A search without deadline does not ask, and goes on.
    pub open spec fn gone(self) -> bool {
        self.limited && self.answer(0)
    }

    /// The watch after `n` more questions.
    pub open spec fn later(self, n: nat) -> Watch {
        Watch { asked: self.asked + n, ..self }
    }

    /// The watch after the search has looked at it once: a search with a
    /// deadline has asked one more question.
    pub open spec fn looked_at(self) -> Watch {
        if self.limited {
            self.later(1)
        } else {
            self
        }
    }

    /// Whether `told` are the next answers of the clock.
    pub open spec fn hears(self, told: Seq<bool>) -> bool {
        forall|i: int| 0 <= i < told.len() ==> self.answer(i) == #[trigger] told[i]
    }
}

/// A clock that gives some answers and then others gives the first ones
/// now and the others after them.
pub proof fn lemma_hears_parts(watch: Watch, first: Seq<bool>, second: Seq<bool>)
    requires
        watch.hears(first + second),
    ensures
        watch.hears(first),
        watch.later(first.len()).hears(second),
{
    assert forall|i: int| 0 <= i < first.len() implies watch.answer(i) == #[trigger] first[i] by {
        assert((first + second)[i] == first[i]);
    }
    assert forall|i: int| 0 <= i < second.len() implies watch.later(first.len()).answer(i)
        == #[trigger] second[i] by {
        assert((first + second)[first.len() + i] == second[i]);
    }
}

/// What a search works on besides the position: the table, the counter of
/// scored positions, and the clock.
pub struct Context {
    pub table: Map<u64, TTEntry>,
    pub count: usize,
    pub watch: Watch,
}

impl Context {
    /// The context of a search without deadline.
    pub open spec fn untimed(table: Map<u64, TTEntry>, count: usize) -> Context {
        Context { table, count, watch: Watch::unlimited() }
    }

    /// The context of a search that meets the given clock.
    pub open spec fn timed(table: Map<u64, TTEntry>, count: usize, watch: Watch) -> Context {
        Context { table, count, watch }
    }

    /// The context after `leaves` more positions were scored.
    pub open spec fn scored(self, leaves: nat) -> Context {
        Context { count: bump(self.count, leaves), ..self }
    }

    /// The context after the clock was looked at.
    pub open spec fn looked_at(self) -> Context {
        Context { watch: self.watch.looked_at(), ..self }
    }

    /// The context after an entry was offered to the table.
    pub open spec fn stored(self, hash: u64, entry: TTEntry) -> Context {
        Context { table: store_spec(self.table, hash, entry), ..self }
    }
}

// ---------------------------------------------------------------------------
// Negamax
// ---------------------------------------------------------------------------
/// What a search yields: the best move and its score, and the table, the
/// counter and the clock as the search leaves them.
pub struct Found {
    pub best_move: Option<Move>,
    pub score: int,
    pub context: Context,
}

/// Whether a stored entry answers a search of `depth` in the window
/// `alpha .. beta`: it comes from a search at least as deep and is exact, or
/// a lower bound of `beta` or more, or an upper bound of `alpha` or less.
pub open spec fn answers(entry: TTEntry, depth: nat, alpha: int, beta: int) -> bool {
    entry.depth >= depth && match entry.bound {
        Bound::Exact => true,
        Bound::LowerBound => entry.value >= beta,
        Bound::UpperBound => entry.value <= alpha,
    }
}

/// Whether the table answers the search of the position with key `hash`.
pub open spec fn cutoff(table: Map<u64, TTEntry>, hash: u64, depth: nat, alpha: int, beta: int) -> bool {
    table.contains_key(hash) && answers(table[hash], depth, alpha, beta)
}

/// Looks the position up in the table: the stored move and value when the
/// entry answers the search, and nothing otherwise.
pub fn probe(t_table: &TranspositionTable, hash: u64, depth: u16, alpha: i32, beta: i32) -> (hit:
    Option<(Option<Move>, i32)>)
    ensures
        hit == if cutoff(t_table@, hash, depth as nat, alpha as int, beta as int) {
            Some((t_table@[hash].best_move, t_table@[hash].value))
        } else {
            None
        },
{
    match t_table.lookup(hash) {
        Some(entry) => {
            if entry.depth >= depth {
                let usable = match entry.bound {
                    Bound::Exact => true,
                    Bound::LowerBound => entry.value >= beta,
                    Bound::UpperBound => entry.value <= alpha,
                };
                if usable {
                    Some((clone_choice(&entry.best_move), entry.value))
                } else {
                    None
                }
            } else {
                None
            }
        },
        None => None,
    }
}

/// How the result of a finished search is stored. A best value of at most
/// the `alpha` that the search began with is stored as that `alpha`, an
/// upper bound; one of at least `beta` as `beta`, a lower bound; any other
/// is exact.
pub open spec fn classify_spec(best_value: int, alpha: int, beta: int) -> (Bound, int) {
    if best_value <= alpha {
        (Bound::UpperBound, alpha)
    } else if best_value >= beta {
        (Bound::LowerBound, beta)
    } else {
        (Bound::Exact, best_value)
    }
}

/// Classifies the result of a finished search; see `classify_spec`.
pub fn classify(best_value: i32, alpha: i32, beta: i32) -> (kind: (Bound, i32))
    ensures
        kind.0 == classify_spec(best_value as int, alpha as int, beta as int).0,
        kind.1 == classify_spec(best_value as int, alpha as int, beta as int).1,
{
    if best_value <= alpha {
        (Bound::UpperBound, alpha)
    } else if best_value >= beta {
        (Bound::LowerBound, beta)
    } else {
        (Bound::Exact, best_value)
    }
}

/// The entry that a finished search of `depth` stores.
pub open spec fn entry_for(
    depth: nat,
    alpha: int,
    beta: int,
    best_value: int,
    best_move: Option<Move>,
) -> TTEntry {
    TTEntry {
        value: classify_spec(best_value, alpha, beta).1 as i32,
        best_move,
        depth: depth as u16,
        bound: classify_spec(best_value, alpha, beta).0,
    }
}

/// The end of a search that ran through its moves: the result is stored and
/// returned. `alpha` is the one that the search began with.
pub open spec fn finish(
    pos: Chess,
    depth: nat,
    alpha: int,
    beta: int,
    best_value: int,
    best_move: Option<Move>,
    context: Context,
) -> Found {
    Found {
        best_move,
        score: best_value,
        context: context.stored(
            hash_of(pos),
            entry_for(depth, alpha, beta, best_value, best_move),
        ),
    }
}

/// Negamax search of a position to `depth` at ply `ply` in the window
/// `alpha .. beta`.
///
/// A finished game has its terminal score; at depth 0 quiescence decides; an
/// entry of the table that answers the search is returned as it is. In these
/// cases the table is left alone. Otherwise the legal moves are sorted and
/// searched in turn, and the result is stored.
pub open spec fn negamax_spec(
    pos: Chess,
    depth: nat,
    ply: nat,
    alpha: int,
    beta: int,
    context: Context,
) -> Found
    decreases depth, 1int,
{
    match outcome_of(pos) {
        Some(outcome) => Found {
            best_move: None,
            score: terminal_score(outcome, turn_of(pos), ply as int),
            context: context.scored(1),
        },
        None => if depth == 0 {
            Found {
                best_move: None,
                score: quiesce_spec(pos, 0, alpha, beta).score,
                context: context.scored(quiesce_spec(pos, 0, alpha, beta).evals),
            }
        } else if cutoff(context.table, hash_of(pos), depth, alpha, beta) {
            Found {
                best_move: context.table[hash_of(pos)].best_move,
                score: context.table[hash_of(pos)].value as int,
                context,
            }
        } else {
            search_moves(
                pos,
                ordered(legal_moves_of(pos), hint_of(context.table, hash_of(pos))),
                0,
                depth,
                ply,
                alpha,
                alpha,
                beta,
                -INFINITY as int,
                None,
                context,
            )
        },
    }
}

/// Negamax over the moves from index `i` on. `start` is the `alpha` that the
/// search began with and `alpha` the one raised so far; `best_value` and
/// `best_move` are the best found so far.
///
/// Each move is searched one ply deeper and one level shallower in the
/// negated window. Its negated score replaces the best one if it is strictly
/// greater, and raises `alpha`; the moves end as soon as `alpha` reaches
/// `beta`. After a move that did not end the moves the clock is looked at:
/// if the deadline has passed, the best found so far is returned and
/// nothing is stored.
pub open spec fn search_moves(
    pos: Chess,
    moves: Seq<Move>,
    i: nat,
    depth: nat,
    ply: nat,
    start: int,
    alpha: int,
    beta: int,
    best_value: int,
    best_move: Option<Move>,
    context: Context,
) -> Found
    decreases depth, 0int, moves.len() - i,
{
    if i >= moves.len() || depth == 0 {
        finish(pos, depth, start, beta, best_value, best_move, context)
    } else {
        let reply = negamax_spec(
            position_after(pos, moves[i as int]),
            (depth - 1) as nat,
            ply + 1,
            -beta,
            -alpha,
            context,
        );
        let value = -reply.score;
        let better = value > best_value;
        let best_value = if better { value } else { best_value };
        let best_move = if better { Some(moves[i as int]) } else { best_move };
        let raised = larger(alpha, value);
        if raised >= beta {
            finish(pos, depth, start, beta, best_value, best_move, reply.context)
        } else if reply.context.watch.gone() {
            Found { best_move, score: best_value, context: reply.context.looked_at() }
        } else {
            search_moves(
                pos,
                moves,
                i + 1,
                depth,
                ply,
                start,
                raised,
                beta,
                best_value,
                best_move,
                reply.context.looked_at(),
            )
        }
    }
}

/// Whether a move is legal in some position with the given hash.
pub open spec fn legal_for_hash(hash: u64, m: Move) -> bool {
    exists|pos: Chess| #[trigger] hash_of(pos) == hash && legal_moves_of(pos).contains(m)
}

/// Whether every position with the hash of `pos` has the legal moves of
/// `pos`: the hash tells the position, as far as its moves go.
pub open spec fn hash_decides_moves(pos: Chess) -> bool {
    forall|other: Chess| #[trigger] hash_of(other) == hash_of(pos) ==> legal_moves_of(other)
        == legal_moves_of(pos)
}

/// Whether an entry may stand under a key: its value is a score, and its
/// move, if it has one, is legal in a position with that key.
pub open spec fn entry_fits(hash: u64, entry: TTEntry) -> bool {
    &&& is_score(entry.value as int)
    &&& entry.best_move matches Some(m) ==> legal_for_hash(hash, m)
}

/// Whether every entry of the table may stand under its key.
pub open spec fn sound(table: Map<u64, TTEntry>) -> bool {
    forall|hash: u64| table.contains_key(hash) ==> entry_fits(hash, #[trigger] table[hash])
}

/// Whether `later` holds every key of `earlier`, none with less depth.
pub open spec fn extends(earlier: Map<u64, TTEntry>, later: Map<u64, TTEntry>) -> bool {
    forall|hash: u64| #[trigger]
        earlier.contains_key(hash) ==> later.contains_key(hash) && later[hash].depth
            >= earlier[hash].depth
}

/// Whether every entry of `later` is an entry of `earlier` or has at most
/// the depth `depth`.
pub open spec fn no_deeper(earlier: Map<u64, TTEntry>, later: Map<u64, TTEntry>, depth: nat) -> bool {
    forall|hash: u64| #[trigger]
        later.contains_key(hash) ==> (earlier.contains_key(hash) && later[hash] == earlier[hash])
            || later[hash].depth <= depth
}

/// Whether a search is decided before any move is tried: the game is over,
/// the depth is 0, or the table answers.
pub open spec fn settled_at_once(
    pos: Chess,
    depth: nat,
    alpha: int,
    beta: int,
    table: Map<u64, TTEntry>,
) -> bool {
    outcome_of(pos) is Some || depth == 0 || cutoff(table, hash_of(pos), depth, alpha, beta)
}

/// Whether what a search returned and left behind is what `expected` says.
pub open spec fn agrees(
    found: (Option<Move>, i32),
    table: Map<u64, TTEntry>,
    count: usize,
    expected: Found,
) -> bool {
    &&& found.0 == expected.best_move
    &&& found.1 == expected.score
    &&& table == expected.context.table
    &&& count == expected.context.count
}

/// Whether a search that was given the answers `told` by the clock did what
/// `negamax_spec` says: on every clock that gives these answers next, the
/// specified search returns and leaves behind what the search did, after
/// asking as many questions as there are answers.
pub open spec fn searched(
    found: (Option<Move>, i32),
    table_after: Map<u64, TTEntry>,
    count_after: usize,
    pos: Chess,
    depth: nat,
    ply: nat,
    alpha: int,
    beta: int,
    table: Map<u64, TTEntry>,
    count: usize,
    limited: bool,
    told: Seq<bool>,
) -> bool {
    &&& !limited ==> told.len() == 0
    &&& forall|watch: Watch|
        watch.limited == limited && #[trigger] watch.hears(told) ==> {
            let expected = negamax_spec(
                pos,
                depth,
                ply,
                alpha,
                beta,
                Context::timed(table, count, watch),
            );
            &&& agrees(found, table_after, count_after, expected)
            &&& expected.context.watch == watch.later(told.len())
        }
}

/// An empty table is sound.
pub proof fn lemma_empty_table_is_sound()
    ensures
        sound(Map::<u64, TTEntry>::empty()),
{
}

/// Storing an entry that fits its key keeps a sound table sound, and the new
/// table extends the old one.
pub proof fn lemma_store_keeps_sound(table: Map<u64, TTEntry>, hash: u64, entry: TTEntry)
    requires
        sound(table),
        entry_fits(hash, entry),
    ensures
        sound(store_spec(table, hash, entry)),
        extends(table, store_spec(table, hash, entry)),
{
}

/// Negamax with alpha-beta pruning.
///
/// Returns the best move found and its score for the side to move. The
/// search does what `negamax_spec` says. A search with a deadline asks the
/// clock after each move that did not end the moves, and returns the best
/// found so far, storing nothing, once the deadline has passed; what it does
/// is what `negamax_spec` says of the answers that the clock gave.
///
/// However the search ends, the score is a score; a move that does not come
/// from the table is legal in the position, and one from the table is legal
/// in a position with the same hash; a search that tried moves returns no
/// move exactly when its score is the worst score; the table stays sound,
/// keeps its entries or replaces them by deeper ones, and gains no entry
/// deeper than `depth`; and the counter does not fall.
pub fn negamax(
    board: &Chess,
    depth: u16,
    ply: usize,
    end_time: Deadline,
    alpha: i32,
    beta: i32,
    t_table: &mut TranspositionTable,
    evaluate_count: &mut usize,
) -> (found: (Option<Move>, i32))
    requires
        ply + depth <= i32::MAX,
        is_score(alpha as int),
        is_score(beta as int),
        sound(old(t_table)@),
    ensures
        end_time is Never ==> agrees(
            found,
            final(t_table)@,
            *final(evaluate_count),
            negamax_spec(
                *board,
                depth as nat,
                ply as nat,
                alpha as int,
                beta as int,
                Context::untimed(old(t_table)@, *old(evaluate_count)),
            ),
        ),
        exists|told: Seq<bool>| #[trigger]
            searched(
                found,
                final(t_table)@,
                *final(evaluate_count),
                *board,
                depth as nat,
                ply as nat,
                alpha as int,
                beta as int,
                old(t_table)@,
                *old(evaluate_count),
                end_time is At,
                told,
            ),
        is_score(found.1 as int),
        found.0 matches Some(m) ==> legal_for_hash(hash_of(*board), m),
        found.0 matches Some(m) ==> cutoff(
            old(t_table)@,
            hash_of(*board),
            depth as nat,
            alpha as int,
            beta as int,
        ) || legal_moves_of(*board).contains(m),
        !settled_at_once(*board, depth as nat, alpha as int, beta as int, old(t_table)@) ==> (
        found.0 is None <==> found.1 == -INFINITY),
        sound(final(t_table)@),
        extends(old(t_table)@, final(t_table)@),
        no_deeper(old(t_table)@, final(t_table)@, depth as nat),
        *final(evaluate_count) >= *old(evaluate_count),
    decreases depth,
{
    let ghost table_before = t_table@;
    let ghost count_before = *evaluate_count;
    let ghost limited = end_time is At;
    let ghost task = Task {
        pos: *board,
        depth: depth as nat,
        ply: ply as nat,
        alpha: alpha as int,
        beta: beta as int,
        table: table_before,
        count: count_before,
        limited,
    };
    if let Some(result) = outcome(board) {
        count_leaf(evaluate_count);
        let score = evaluate_outcome(result, turn(board), &ply);
        proof {
            lemma_settled((None, score), t_table@, *evaluate_count, task);
        }
        return (None, score);
    }
    if depth == 0 {
        let score = quiesce(board, 0, alpha, beta, evaluate_count);
        proof {
            lemma_settled((None, score), t_table@, *evaluate_count, task);
        }
        return (None, score);
    }
    let hash = zobrist(board);
    if let Some(hit) = probe(t_table, hash, depth, alpha, beta) {
        proof {
            lemma_settled(hit, t_table@, *evaluate_count, task);
        }
        return hit;
    }
    let all: Vec<Move> = legal_moves(board);
    let moves: Vec<Move> = sort_moves(board, all, t_table);
    let mut best_move: Option<Move> = None;
    let mut best_value: i32 = -INFINITY;
    let mut floor: i32 = alpha;
    let mut cut: bool = false;
    let mut i: usize = 0;
    let ghost mut told: Seq<bool> = Seq::empty();
    proof {
        lemma_begun(task);
    }
    while i < moves.len() && !cut
        invariant
            i <= moves.len(),
            depth > 0,
            ply + depth <= i32::MAX,
            table_before == old(t_table)@,
            count_before == *old(evaluate_count),
            limited == (end_time is At),
            task == (Task {
                pos: *board,
                depth: depth as nat,
                ply: ply as nat,
                alpha: alpha as int,
                beta: beta as int,
                table: table_before,
                count: count_before,
                limited,
            }),
            outcome_of(*board) is None,
            hash == hash_of(*board),
            !settled_at_once(*board, depth as nat, alpha as int, beta as int, table_before),
            moves@ == ordered(legal_moves_of(*board), hint_of(table_before, hash)),
            forall|j: int|
                0 <= j < moves.len() ==> legal_moves_of(*board).contains(#[trigger] moves@[j]),
            is_score(alpha as int),
            is_score(beta as int),
            is_score(floor as int),
            is_score(best_value as int),
            best_move matches Some(m) ==> legal_moves_of(*board).contains(m),
            best_move is None <==> best_value == -INFINITY,
            sound(t_table@),
            extends(table_before, t_table@),
            no_deeper(table_before, t_table@, depth as nat),
            *evaluate_count >= count_before,
            !limited ==> told.len() == 0,
            on_track(
                task,
                moves@,
                told,
                Progress {
                    i: i as nat,
                    alpha: floor as int,
                    best_value: best_value as int,
                    best_move,
                    table: t_table@,
                    count: *evaluate_count,
                    cut,
                },
            ),
        decreases moves.len() - i,
    {
        let m = &moves[i];
        let next = play(board, m);
        let ghost here = Progress {
            i: i as nat,
            alpha: floor as int,
            best_value: best_value as int,
            best_move,
            table: t_table@,
            count: *evaluate_count,
            cut: false,
        };
        let reply = negamax(
            &next,
            depth - 1,
            ply + 1,
            end_time,
            -beta,
            -floor,
            t_table,
            evaluate_count,
        );
        let ghost told_below = choose|told_below: Seq<bool>| #[trigger]
            searched(
                reply,
                t_table@,
                *evaluate_count,
                next,
                (depth - 1) as nat,
                (ply + 1) as nat,
                -(beta as int),
                -(floor as int),
                here.table,
                here.count,
                limited,
                told_below,
            );
        proof {
            lemma_extends_chain(table_before, here.table, t_table@);
            lemma_no_deeper_chain(table_before, here.table, t_table@, depth as nat);
        }
        let value: i32 = -reply.1;
        if value > best_value {
            best_value = value;
            best_move = Some(m.clone());
        }
        if value > floor {
            floor = value;
        }
        i = i + 1;
        if floor >= beta {
            cut = true;
            proof {
                lemma_step(task, moves@, told, here, reply, t_table@, *evaluate_count, told_below, false);
                told = told + told_below;
            }
        } else {
            let over = end_time.expired();
            proof {
                lemma_step(task, moves@, told, here, reply, t_table@, *evaluate_count, told_below, over);
                told = told + told_below + heard(limited, over);
            }
            if over {
                return (best_move, best_value);
            }
        }
    }
    let kind = classify(best_value, alpha, beta);
    let entry = TTEntry {
        value: kind.1,
        best_move: clone_choice(&best_move),
        depth,
        bound: kind.0,
    };
    proof {
        assert(entry == entry_for(
            depth as nat,
            alpha as int,
            beta as int,
            best_value as int,
            best_move,
        ));
        lemma_store_keeps_sound(t_table@, hash, entry);
        lemma_extends_chain(table_before, t_table@, store_spec(t_table@, hash, entry));
        lemma_no_deeper_chain(
            table_before,
            t_table@,
            store_spec(t_table@, hash, entry),
            depth as nat,
        );
        lemma_done(
            task,
            moves@,
            told,
            Progress {
                i: i as nat,
                alpha: floor as int,
                best_value: best_value as int,
                best_move,
                table: t_table@,
                count: *evaluate_count,
                cut,
            },
        );
    }
    t_table.store(hash, entry);
    proof {
        lemma_untimed((best_move, best_value), t_table@, *evaluate_count, task, told);
    }
    (best_move, best_value)
}

/// A search to be done: the position, the depth, the ply and the window,
/// the table and the counter that it starts from, and whether it has a
/// deadline.
struct Task {
    pos: Chess,
    depth: nat,
    ply: nat,
    alpha: int,
    beta: int,
    table: Map<u64, TTEntry>,
    count: usize,
    limited: bool,
}

/// How far a search over the moves has come: the index of the next move,
/// the raised `alpha`, the best found so far, the table and the counter as
/// they are now, and whether the moves were cut short.
struct Progress {
    i: nat,
    alpha: int,
    best_value: int,
    best_move: Option<Move>,
    table: Map<u64, TTEntry>,
    count: usize,
    cut: bool,
}

/// What the clock was heard to say when the search looked at it: one
/// answer if there is a deadline, and nothing otherwise.
spec fn heard(limited: bool, over: bool) -> Seq<bool> {
    if limited {
        seq![over]
    } else {
        Seq::empty()
    }
}

/// The whole search of a task on a clock.
spec fn whole(task: Task, watch: Watch) -> Found {
    negamax_spec(
        task.pos,
        task.depth,
        task.ply,
        task.alpha,
        task.beta,
        Context::timed(task.table, task.count, watch),
    )
}

/// What is left of the search of a task over the moves: the end, once the
/// moves were cut short, and the search of the moves that are left
/// otherwise.
spec fn rest(task: Task, moves: Seq<Move>, progress: Progress, watch: Watch) -> Found {
    if progress.cut {
        finish(
            task.pos,
            task.depth,
            task.alpha,
            task.beta,
            progress.best_value,
            progress.best_move,
            Context::timed(progress.table, progress.count, watch),
        )
    } else {
        search_moves(
            task.pos,
            moves,
            progress.i,
            task.depth,
            task.ply,
            task.alpha,
            progress.alpha,
            task.beta,
            progress.best_value,
            progress.best_move,
            Context::timed(progress.table, progress.count, watch),
        )
    }
}

/// Whether a search that has come as far as `progress`, and was told
/// `told` by the clock on the way, is on the track of the whole search: on
/// every clock that gives these answers, what is left of the search ends as
/// the whole search does.
spec fn on_track(task: Task, moves: Seq<Move>, told: Seq<bool>, progress: Progress) -> bool {
    forall|watch: Watch|
        watch.limited == task.limited && #[trigger] watch.hears(told) ==> whole(task, watch)
            == rest(task, moves, progress, watch.later(told.len()))
}

/// Whether a search was done as `searched` says, for a task.
spec fn done(
    found: (Option<Move>, i32),
    table_after: Map<u64, TTEntry>,
    count_after: usize,
    task: Task,
    told: Seq<bool>,
) -> bool {
    searched(
        found,
        table_after,
        count_after,
        task.pos,
        task.depth,
        task.ply,
        task.alpha,
        task.beta,
        task.table,
        task.count,
        task.limited,
        told,
    )
}

/// A search that goes through the moves begins on track.
proof fn lemma_begun(task: Task)
    requires
        !settled_at_once(task.pos, task.depth, task.alpha, task.beta, task.table),
    ensures
        on_track(
            task,
            ordered(legal_moves_of(task.pos), hint_of(task.table, hash_of(task.pos))),
            Seq::empty(),
            Progress {
                i: 0,
                alpha: task.alpha,
                best_value: -INFINITY as int,
                best_move: None,
                table: task.table,
                count: task.count,
                cut: false,
            },
        ),
{
    assert forall|watch: Watch| watch.limited == task.limited implies #[trigger] watch.later(0)
        == watch by {}
}

/// The state of the search after the move at index `progress.i` was
/// searched with the result `reply`.
spec fn advanced(
    task: Task,
    moves: Seq<Move>,
    progress: Progress,
    reply: (Option<Move>, i32),
    table_now: Map<u64, TTEntry>,
    count_now: usize,
) -> Progress {
    let value = -(reply.1 as int);
    let better = value > progress.best_value;
    Progress {
        i: progress.i + 1,
        alpha: larger(progress.alpha, value),
        best_value: if better { value } else { progress.best_value },
        best_move: if better { Some(moves[progress.i as int]) } else { progress.best_move },
        table: table_now,
        count: count_now,
        cut: larger(progress.alpha, value) >= task.beta,
    }
}

/// One move keeps the search on track. After the move at index
/// `progress.i` was searched, with `told_below` heard below it, the search
/// is on track again if the moves are cut short or the clock, looked at,
/// says that time is left; and it is done if the clock says that the
/// deadline has passed.
proof fn lemma_step(
    task: Task,
    moves: Seq<Move>,
    told: Seq<bool>,
    progress: Progress,
    reply: (Option<Move>, i32),
    table_now: Map<u64, TTEntry>,
    count_now: usize,
    told_below: Seq<bool>,
    over: bool,
)
    requires
        on_track(task, moves, told, progress),
        !progress.cut,
        progress.i < moves.len(),
        task.depth > 0,
        !task.limited ==> !over && told.len() == 0,
        is_score(progress.best_value),
        is_score(reply.1 as int),
        searched(
            reply,
            table_now,
            count_now,
            position_after(task.pos, moves[progress.i as int]),
            (task.depth - 1) as nat,
            task.ply + 1,
            -task.beta,
            -progress.alpha,
            progress.table,
            progress.count,
            task.limited,
            told_below,
        ),
    ensures
        advanced(task, moves, progress, reply, table_now, count_now).cut ==> on_track(
            task,
            moves,
            told + told_below,
            advanced(task, moves, progress, reply, table_now, count_now),
        ),
        !advanced(task, moves, progress, reply, table_now, count_now).cut && !over ==> on_track(
            task,
            moves,
            told + told_below + heard(task.limited, over),
            advanced(task, moves, progress, reply, table_now, count_now),
        ),
        !advanced(task, moves, progress, reply, table_now, count_now).cut && over ==> done(
            (
                advanced(task, moves, progress, reply, table_now, count_now).best_move,
                advanced(task, moves, progress, reply, table_now, count_now).best_value as i32,
            ),
            table_now,
            count_now,
            task,
            told + told_below + heard(task.limited, over),
        ),
{
    let next = advanced(task, moves, progress, reply, table_now, count_now);
    let told_after = told + told_below;
    let told_now = if next.cut {
        told_after
    } else {
        told_after + heard(task.limited, over)
    };
    assert forall|watch: Watch|
        watch.limited == task.limited && #[trigger] watch.hears(told_now) implies {
        let here = watch.later(told_now.len());
        if !next.cut && over {
            whole(task, watch) == (Found {
                best_move: next.best_move,
                score: next.best_value,
                context: Context::timed(table_now, count_now, here),
            })
        } else {
            whole(task, watch) == rest(task, moves, next, here)
        }
    } by {
        if !next.cut {
            lemma_hears_parts(watch, told_after, heard(task.limited, over));
        }
        lemma_hears_parts(watch, told, told_below);
        let below = watch.later(told.len());
        let after = below.later(told_below.len());
        assert(after == watch.later(told_after.len()));
        assert(whole(task, watch) == rest(task, moves, progress, below));
        let expected = negamax_spec(
            position_after(task.pos, moves[progress.i as int]),
            (task.depth - 1) as nat,
            task.ply + 1,
            -task.beta,
            -progress.alpha,
            Context::timed(progress.table, progress.count, below),
        );
        assert(agrees(reply, table_now, count_now, expected));
        assert(expected.context.watch == after);
        assert(expected.context == Context::timed(table_now, count_now, after));
        if !next.cut {
            if task.limited {
                assert(after.hears(heard(task.limited, over)));
                assert(heard(task.limited, over)[0] == over);
                assert(after.answer(0) == over);
            }
            assert(after.gone() == over);
            assert(after.looked_at() == watch.later(told_now.len()));
            assert(expected.context.looked_at() == Context::timed(
                table_now,
                count_now,
                watch.later(told_now.len()),
            ));
        }
    }
}

/// A search that is on track and has come to its end is done once its
/// result is stored.
proof fn lemma_done(task: Task, moves: Seq<Move>, told: Seq<bool>, progress: Progress)
    requires
        on_track(task, moves, told, progress),
        progress.cut || progress.i >= moves.len(),
        !task.limited ==> told.len() == 0,
        -INFINITY <= progress.best_value <= INFINITY,
    ensures
        done(
            (progress.best_move, progress.best_value as i32),
            store_spec(
                progress.table,
                hash_of(task.pos),
                entry_for(
                    task.depth,
                    task.alpha,
                    task.beta,
                    progress.best_value,
                    progress.best_move,
                ),
            ),
            progress.count,
            task,
            told,
        ),
{
}

/// A search without deadline that is done did what the search without
/// clock does.
proof fn lemma_untimed(
    found: (Option<Move>, i32),
    table_after: Map<u64, TTEntry>,
    count_after: usize,
    task: Task,
    told: Seq<bool>,
)
    requires
        done(found, table_after, count_after, task, told),
    ensures
        !task.limited ==> agrees(
            found,
            table_after,
            count_after,
            negamax_spec(
                task.pos,
                task.depth,
                task.ply,
                task.alpha,
                task.beta,
                Context::untimed(task.table, task.count),
            ),
        ),
{
    if !task.limited {
        assert(Watch::unlimited().hears(told));
    }
}

/// A search that is decided before any move is tried asks the clock
/// nothing, whatever the clock would say.
proof fn lemma_settled(
    found: (Option<Move>, i32),
    table_after: Map<u64, TTEntry>,
    count_after: usize,
    task: Task,
)
    requires
        settled_at_once(task.pos, task.depth, task.alpha, task.beta, task.table),
        agrees(
            found,
            table_after,
            count_after,
            negamax_spec(
                task.pos,
                task.depth,
                task.ply,
                task.alpha,
                task.beta,
                Context::untimed(task.table, task.count),
            ),
        ),
    ensures
        done(found, table_after, count_after, task, Seq::empty()),
{
    assert forall|watch: Watch| watch.limited == task.limited implies #[trigger] watch.later(0)
        == watch by {}
}

/// Entries that are no deeper than `depth` after one step and after the
/// next are no deeper after both.
pub proof fn lemma_no_deeper_chain(
    first: Map<u64, TTEntry>,
    second: Map<u64, TTEntry>,
    third: Map<u64, TTEntry>,
    depth: nat,
)
    requires
        no_deeper(first, second, depth),
        forall|hash: u64| #[trigger]
            third.contains_key(hash) ==> (second.contains_key(hash) && third[hash] == second[hash])
                || third[hash].depth <= depth,
    ensures
        no_deeper(first, third, depth),
{
}

/// A table that extends one that extends a third extends the third.
pub proof fn lemma_extends_chain(
    first: Map<u64, TTEntry>,
    second: Map<u64, TTEntry>,
    third: Map<u64, TTEntry>,
)
    requires
        extends(first, second),
        extends(second, third),
    ensures
        extends(first, third),
{
}

// ---------------------------------------------------------------------------
// Iterative deepening
// ---------------------------------------------------------------------------
/// What iterative deepening yields: the best move and score of the deepest
/// iteration that was kept, that depth, and the table, the counter and the
/// clock as the search leaves them.
pub struct Report {
    pub best_move: Option<Move>,
    pub score: int,
    pub depth: nat,
    pub context: Context,
}

/// The report before the first iteration: no move, the worst score, depth 0.
pub open spec fn nothing_yet(context: Context) -> Report {
    Report { best_move: None, score: -INFINITY as int, depth: 0, context }
}

/// Iterative deepening from the iteration to depth `next` on.
///
/// Each iteration searches the position in the full window. The clock is
/// looked at after the iteration: if the deadline has passed, the iteration
/// is discarded and the search is over. Otherwise the result of the
/// iteration replaces the one before if it holds a move, and the clock is
/// looked at again: if the deadline is too close for another iteration, the
/// search is over.
pub open spec fn deepen(pos: Chess, max_depth: nat, next: nat, so_far: Report) -> Report
    decreases max_depth + 1 - next,
{
    if next > max_depth {
        so_far
    } else {
        let found = negamax_spec(
            pos,
            next,
            0,
            -INFINITY as int,
            INFINITY as int,
            so_far.context,
        );
        let checked = found.context.looked_at();
        if found.context.watch.gone() {
            Report { context: checked, ..so_far }
        } else {
            let kept = if found.best_move is Some {
                Report { best_move: found.best_move, score: found.score, depth: next, context: checked }
            } else {
                Report { context: checked, ..so_far }
            };
            let weighed = Report { context: checked.looked_at(), ..kept };
            if checked.watch.gone() {
                weighed
            } else {
                deepen(pos, max_depth, next + 1, weighed)
            }
        }
    }
}

/// Iterative deepening to the depths `1 ..= max_depth`.
pub open spec fn deepening(pos: Chess, max_depth: nat, context: Context) -> Report {
    deepen(pos, max_depth, 1, nothing_yet(context))
}

/// Whether what the driver returned and left behind is what `expected`
/// says.
pub open spec fn reports(
    best: (Option<Move>, i32, u16),
    table: Map<u64, TTEntry>,
    count: usize,
    expected: Report,
) -> bool {
    &&& best.0 == expected.best_move
    &&& best.1 == expected.score
    &&& best.2 == expected.depth
    &&& table == expected.context.table
    &&& count == expected.context.count
}

/// Whether a driver that was given the answers `told` by the clock did what
/// `deepening` says: on every clock that gives these answers next, the
/// specified search returns and leaves behind what the driver did, after
/// asking as many questions as there are answers.
pub open spec fn deepened(
    best: (Option<Move>, i32, u16),
    table_after: Map<u64, TTEntry>,
    count_after: usize,
    pos: Chess,
    max_depth: nat,
    table: Map<u64, TTEntry>,
    count: usize,
    limited: bool,
    told: Seq<bool>,
) -> bool {
    &&& !limited ==> told.len() == 0
    &&& forall|watch: Watch|
        watch.limited == limited && #[trigger] watch.hears(told) ==> {
            let expected = deepening(pos, max_depth, Context::timed(table, count, watch));
            &&& reports(best, table_after, count_after, expected)
            &&& expected.context.watch == watch.later(told.len())
        }
}

/// Iterative deepening: searches the position to the depths 1, 2, and so on
/// up to `max_depth`, each time in the full window, and returns the move,
/// the score and the depth of the deepest iteration that ended in time with
/// a move.
///
/// The driver does what `deepening` says. Without deadline every iteration
/// runs. With a deadline the clock is asked after each iteration: an
/// iteration that ends after the deadline is discarded, and no iteration is
/// started when four times the time of the last one would pass the
/// deadline; what the driver does is what `deepening` says of the answers
/// that the clock gave.
///
/// However the search ends, a move is returned exactly when a depth greater
/// than 0 is. The move is legal in the position if the table held nothing
/// for the position when the search began, as a new table does; otherwise
/// it is legal in a position with the same hash, which is the position itself
/// wherever the hash tells positions apart.
pub fn iterative_deepening(
    board: &Chess,
    max_depth: u16,
    end_time: Deadline,
    t_table: &mut TranspositionTable,
    evaluate_count: &mut usize,
) -> (best: (Option<Move>, i32, u16))
    requires
        sound(old(t_table)@),
    ensures
        end_time is Never ==> reports(
            best,
            final(t_table)@,
            *final(evaluate_count),
            deepening(
                *board,
                max_depth as nat,
                Context::untimed(old(t_table)@, *old(evaluate_count)),
            ),
        ),
        exists|told: Seq<bool>| #[trigger]
            deepened(
                best,
                final(t_table)@,
                *final(evaluate_count),
                *board,
                max_depth as nat,
                old(t_table)@,
                *old(evaluate_count),
                end_time is At,
                told,
            ),
        best.2 <= max_depth,
        best.0 is Some <==> best.2 > 0,
        best.2 == 0 ==> best.1 == -INFINITY,
        is_score(best.1 as int),
        best.0 matches Some(m) ==> legal_for_hash(hash_of(*board), m),
        best.0 matches Some(m) ==> hash_decides_moves(*board) ==> legal_moves_of(*board).contains(
            m,
        ),
        best.0 matches Some(m) ==> old(t_table)@.contains_key(hash_of(*board))
            || legal_moves_of(*board).contains(m),
        sound(final(t_table)@),
        extends(old(t_table)@, final(t_table)@),
        no_deeper(old(t_table)@, final(t_table)@, max_depth as nat),
        *final(evaluate_count) >= *old(evaluate_count),
{
    let ghost table_before = t_table@;
    let ghost count_before = *evaluate_count;
    let ghost limited = end_time is At;
    let ghost plan = Plan {
        pos: *board,
        max_depth: max_depth as nat,
        table: table_before,
        count: count_before,
        limited,
    };
    let ghost mut told: Seq<bool> = Seq::empty();
    let mut best_move: Option<Move> = None;
    let mut best_eval: i32 = -INFINITY;
    let mut max_depth_reached: u16 = 0;
    let mut depth: u16 = 0;
    proof {
        lemma_set_out(plan);
    }
    while depth < max_depth
        invariant
            depth <= max_depth,
            table_before == old(t_table)@,
            count_before == *old(evaluate_count),
            limited == (end_time is At),
            plan == (Plan {
                pos: *board,
                max_depth: max_depth as nat,
                table: table_before,
                count: count_before,
                limited,
            }),
            max_depth_reached <= depth,
            best_move is Some <==> max_depth_reached > 0,
            max_depth_reached == 0 ==> best_eval == -INFINITY,
            is_score(best_eval as int),
            best_move matches Some(m) ==> legal_for_hash(hash_of(*board), m),
            best_move matches Some(m) ==> table_before.contains_key(hash_of(*board))
                || legal_moves_of(*board).contains(m),
            sound(t_table@),
            extends(table_before, t_table@),
            no_deeper(table_before, t_table@, depth as nat),
            *evaluate_count >= count_before,
            !limited ==> told.len() == 0,
            on_course(
                plan,
                told,
                Standing {
                    next: (depth + 1) as nat,
                    best_move,
                    score: best_eval as int,
                    depth: max_depth_reached as nat,
                    table: t_table@,
                    count: *evaluate_count,
                },
            ),
        decreases max_depth - depth,
    {
        let ghost here = Standing {
            next: (depth + 1) as nat,
            best_move,
            score: best_eval as int,
            depth: max_depth_reached as nat,
            table: t_table@,
            count: *evaluate_count,
        };
        depth = depth + 1;
        let watch = Stopwatch::start();
        let found = negamax(
            board,
            depth,
            0,
            end_time,
            -INFINITY,
            INFINITY,
            t_table,
            evaluate_count,
        );
        let ghost told_below = choose|told_below: Seq<bool>| #[trigger]
            searched(
                found,
                t_table@,
                *evaluate_count,
                *board,
                depth as nat,
                0,
                -INFINITY as int,
                INFINITY as int,
                here.table,
                here.count,
                limited,
                told_below,
            );
        let spent: u128 = watch.spent();
        proof {
            lemma_extends_chain(table_before, here.table, t_table@);
            lemma_no_deeper_chain(table_before, here.table, t_table@, depth as nat);
        }
        if end_time.expired() {
            proof {
                lemma_iteration(
                    plan,
                    told,
                    here,
                    found,
                    t_table@,
                    *evaluate_count,
                    told_below,
                    true,
                    false,
                );
                told = told + told_below + heard(limited, true);
                lemma_legal_when_hash_decides(*board, best_move);
                lemma_unlimited(
                    (best_move, best_eval, max_depth_reached),
                    t_table@,
                    *evaluate_count,
                    plan,
                    told,
                );
            }
            return (best_move, best_eval, max_depth_reached);
        }
        if let Some(m) = found.0 {
            best_eval = found.1;
            best_move = Some(m);
            max_depth_reached = depth;
        }
        let close = end_time.too_close(spent);
        proof {
            lemma_iteration(
                plan,
                told,
                here,
                found,
                t_table@,
                *evaluate_count,
                told_below,
                false,
                close,
            );
            told = told + told_below + heard(limited, false) + heard(limited, close);
        }
        if close {
            proof {
                lemma_legal_when_hash_decides(*board, best_move);
                lemma_unlimited(
                    (best_move, best_eval, max_depth_reached),
                    t_table@,
                    *evaluate_count,
                    plan,
                    told,
                );
            }
            return (best_move, best_eval, max_depth_reached);
        }
    }
    proof {
        lemma_legal_when_hash_decides(*board, best_move);
        lemma_arrived(
            plan,
            told,
            Standing {
                next: (depth + 1) as nat,
                best_move,
                score: best_eval as int,
                depth: max_depth_reached as nat,
                table: t_table@,
                count: *evaluate_count,
            },
        );
        lemma_unlimited(
            (best_move, best_eval, max_depth_reached),
            t_table@,
            *evaluate_count,
            plan,
            told,
        );
    }
    (best_move, best_eval, max_depth_reached)
}

/// A deepening search to be done: the position, the greatest depth, the
/// table and the counter that it starts from, and whether it has a
/// deadline.
struct Plan {
    pos: Chess,
    max_depth: nat,
    table: Map<u64, TTEntry>,
    count: usize,
    limited: bool,
}

/// How a deepening search stands before an iteration: the depth of the
/// next iteration, the result kept so far, and the table and the counter as
/// they are now.
struct Standing {
    next: nat,
    best_move: Option<Move>,
    score: int,
    depth: nat,
    table: Map<u64, TTEntry>,
    count: usize,
}

/// The report that a standing makes on a clock.
spec fn standing_report(standing: Standing, watch: Watch) -> Report {
    Report {
        best_move: standing.best_move,
        score: standing.score,
        depth: standing.depth,
        context: Context::timed(standing.table, standing.count, watch),
    }
}

/// Whether a deepening search that stands as `standing`, and was told
/// `told` by the clock on the way, is on the course of the whole search: on
/// every clock that gives these answers, the iterations that are left end
/// as the whole search does.
spec fn on_course(plan: Plan, told: Seq<bool>, standing: Standing) -> bool {
    forall|watch: Watch|
        watch.limited == plan.limited && #[trigger] watch.hears(told) ==> deepening(
            plan.pos,
            plan.max_depth,
            Context::timed(plan.table, plan.count, watch),
        ) == deepen(
            plan.pos,
            plan.max_depth,
            standing.next,
            standing_report(standing, watch.later(told.len())),
        )
}

/// Whether a deepening search was done as `deepened` says, for a plan.
spec fn arrived(
    best: (Option<Move>, i32, u16),
    table_after: Map<u64, TTEntry>,
    count_after: usize,
    plan: Plan,
    told: Seq<bool>,
) -> bool {
    deepened(
        best,
        table_after,
        count_after,
        plan.pos,
        plan.max_depth,
        plan.table,
        plan.count,
        plan.limited,
        told,
    )
}

/// A deepening search sets out on course.
proof fn lemma_set_out(plan: Plan)
    ensures
        on_course(
            plan,
            Seq::empty(),
            Standing {
                next: 1,
                best_move: None,
                score: -INFINITY as int,
                depth: 0,
                table: plan.table,
                count: plan.count,
            },
        ),
{
    assert forall|watch: Watch| watch.limited == plan.limited implies #[trigger] watch.later(0)
        == watch by {}
}

/// The standing after an iteration that was kept.
spec fn kept(
    standing: Standing,
    found: (Option<Move>, i32),
    table_now: Map<u64, TTEntry>,
    count_now: usize,
) -> Standing {
    Standing {
        next: standing.next + 1,
        best_move: if found.0 is Some { found.0 } else { standing.best_move },
        score: if found.0 is Some { found.1 as int } else { standing.score },
        depth: if found.0 is Some { standing.next } else { standing.depth },
        table: table_now,
        count: count_now,
    }
}

/// One iteration keeps the deepening search on course. After the
/// iteration, with `told_below` heard in it, the search has arrived with
/// the result before if the clock says that the deadline has passed, and
/// with the result kept if the clock says that the deadline is too close;
/// otherwise it is on course again.
proof fn lemma_iteration(
    plan: Plan,
    told: Seq<bool>,
    standing: Standing,
    found: (Option<Move>, i32),
    table_now: Map<u64, TTEntry>,
    count_now: usize,
    told_below: Seq<bool>,
    gone: bool,
    close: bool,
)
    requires
        on_course(plan, told, standing),
        1 <= standing.next <= plan.max_depth <= u16::MAX,
        standing.depth <= u16::MAX,
        is_score(standing.score),
        !plan.limited ==> !gone && !close && told.len() == 0,
        searched(
            found,
            table_now,
            count_now,
            plan.pos,
            standing.next,
            0,
            -INFINITY as int,
            INFINITY as int,
            standing.table,
            standing.count,
            plan.limited,
            told_below,
        ),
    ensures
        gone ==> arrived(
            (standing.best_move, standing.score as i32, standing.depth as u16),
            table_now,
            count_now,
            plan,
            told + told_below + heard(plan.limited, true),
        ),
        !gone && close ==> arrived(
            (
                kept(standing, found, table_now, count_now).best_move,
                kept(standing, found, table_now, count_now).score as i32,
                kept(standing, found, table_now, count_now).depth as u16,
            ),
            table_now,
            count_now,
            plan,
            told + told_below + heard(plan.limited, false) + heard(plan.limited, true),
        ),
        !gone && !close ==> on_course(
            plan,
            told + told_below + heard(plan.limited, false) + heard(plan.limited, false),
            kept(standing, found, table_now, count_now),
        ),
{
    let next = kept(standing, found, table_now, count_now);
    let first = heard(plan.limited, gone);
    let second = heard(plan.limited, close);
    let told_after = told + told_below;
    let told_now = if gone {
        told_after + first
    } else {
        told_after + first + second
    };
    assert forall|watch: Watch|
        watch.limited == plan.limited && #[trigger] watch.hears(told_now) implies {
        let whole = deepening(
            plan.pos,
            plan.max_depth,
            Context::timed(plan.table, plan.count, watch),
        );
        let here = watch.later(told_now.len());
        if gone {
            whole == (Report {
                context: Context::timed(table_now, count_now, here),
                ..standing_report(standing, here)
            })
        } else if close {
            whole == standing_report(next, here)
        } else {
            whole == deepen(plan.pos, plan.max_depth, next.next, standing_report(next, here))
        }
    } by {
        if !gone {
            lemma_hears_parts(watch, told_after + first, second);
        }
        lemma_hears_parts(watch, told_after, first);
        lemma_hears_parts(watch, told, told_below);
        let below = watch.later(told.len());
        let after = below.later(told_below.len());
        assert(after == watch.later(told_after.len()));
        let expected = negamax_spec(
            plan.pos,
            standing.next,
            0,
            -INFINITY as int,
            INFINITY as int,
            Context::timed(standing.table, standing.count, below),
        );
        assert(agrees(found, table_now, count_now, expected));
        assert(expected.context == Context::timed(table_now, count_now, after));
        if plan.limited {
            assert(after.hears(first));
            assert(first[0] == gone);
            assert(after.answer(0) == gone);
        }
        assert(after.gone() == gone);
        let checked = after.looked_at();
        assert(checked == watch.later((told_after + first).len()));
        if !gone {
            if plan.limited {
                assert(checked.hears(second));
                assert(second[0] == close);
                assert(checked.answer(0) == close);
            }
            assert(checked.gone() == close);
            assert(checked.looked_at() == watch.later(told_now.len()));
        }
    }
}

/// A deepening search that is on course with no iteration left has
/// arrived.
proof fn lemma_arrived(plan: Plan, told: Seq<bool>, standing: Standing)
    requires
        on_course(plan, told, standing),
        standing.next > plan.max_depth,
        !plan.limited ==> told.len() == 0,
        is_score(standing.score),
        standing.depth <= u16::MAX,
    ensures
        arrived(
            (standing.best_move, standing.score as i32, standing.depth as u16),
            standing.table,
            standing.count,
            plan,
            told,
        ),
{
}

/// A deepening search without deadline that has arrived did what the
/// search without clock does.
proof fn lemma_unlimited(
    best: (Option<Move>, i32, u16),
    table_after: Map<u64, TTEntry>,
    count_after: usize,
    plan: Plan,
    told: Seq<bool>,
)
    requires
        arrived(best, table_after, count_after, plan, told),
    ensures
        !plan.limited ==> reports(
            best,
            table_after,
            count_after,
            deepening(plan.pos, plan.max_depth, Context::untimed(plan.table, plan.count)),
        ),
{
    if !plan.limited {
        assert(Watch::unlimited().hears(told));
    }
}

/// The first legal move of a position, if it has one: a move to fall back
/// on when a search was cut short before it found any.
pub fn first_legal_move(board: &Chess) -> (choice: Option<Move>)
    ensures
        choice == if legal_moves_of(*board).len() > 0 {
            Some(legal_moves_of(*board)[0])
        } else {
            None
        },
{
    let moves: Vec<Move> = legal_moves(board);
    if moves.len() > 0 {
        Some(moves[0].clone())
    } else {
        None
    }
}

/// A move that is legal in some position with the hash of `pos` is legal in
/// `pos` itself, provided that the hash tells the position as far as its
/// moves go.
pub proof fn lemma_legal_when_hash_decides(pos: Chess, choice: Option<Move>)
    requires
        choice matches Some(m) ==> legal_for_hash(hash_of(pos), m),
    ensures
        choice matches Some(m) ==> hash_decides_moves(pos) ==> legal_moves_of(pos).contains(m),
{
    if choice is Some && hash_decides_moves(pos) {
        let m = choice->0;
        let other = choose|other: Chess| #[trigger]
            hash_of(other) == hash_of(pos) && legal_moves_of(other).contains(m);
        assert(legal_moves_of(other) == legal_moves_of(pos));
    }
}

/// Without deadline the search is a function of the position, the depth,
/// the table and the counter it starts from: two runs that start alike end
/// alike, with the same move, score and depth, the same table and the same
/// count.
pub proof fn lemma_search_is_deterministic(
    pos: Chess,
    max_depth: nat,
    table: Map<u64, TTEntry>,
    count: usize,
    first: (Option<Move>, i32, u16),
    first_table: Map<u64, TTEntry>,
    first_count: usize,
    second: (Option<Move>, i32, u16),
    second_table: Map<u64, TTEntry>,
    second_count: usize,
)
    requires
        reports(
            first,
            first_table,
            first_count,
            deepening(pos, max_depth, Context::untimed(table, count)),
        ),
        reports(
            second,
            second_table,
            second_count,
            deepening(pos, max_depth, Context::untimed(table, count)),
        ),
    ensures
        first == second,
        first_table == second_table,
        first_count == second_count,
{
}

} // verus!
