//! What the pruned searches have to do with the unpruned values.
//!
//! Quiescence in a window and the one-ply search above it leave out moves
//! that cannot change the result. The laws of this module say what their
//! results tell about the values that a search without window would find:
//! a result strictly inside the window is that value, a result at or below
//! the window is an upper bound of it, and a result at or above the window
//! is a lower bound.

use vstd::prelude::*;
use shakmaty::{Chess, Move};
use crate::evaluate::{static_score, terminal_score, MATE};
use crate::rules::{board_of, hash_of, legal_moves_of, outcome_of, position_after, turn_of};
use crate::search::{
    cutoff, entry_for, hint_of, is_noisy, larger, negamax_spec, ordered, plies_left,
    quiesce_moves, quiesce_spec, search_moves, Context, INFINITY, QUIESCE_PLIES,
};
use crate::transposition::{store_spec, Bound};

verus! {

/// The quiescence value of a position at quiescence ply `ply`: the terminal
/// score of a finished game; the static score at the last ply; and
/// otherwise the greater of the static score and the best that a noisy move
/// leads to.
pub open spec fn quiet_value(pos: Chess, ply: nat) -> int
    decreases plies_left(ply), 1int,
{
    match outcome_of(pos) {
        Some(outcome) => terminal_score(outcome, turn_of(pos), ply as int),
        None => if ply >= QUIESCE_PLIES {
            static_score(board_of(pos), turn_of(pos))
        } else {
            best_reply(pos, legal_moves_of(pos), 0, ply, static_score(board_of(pos), turn_of(pos)))
        },
    }
}

/// The greatest of `best` and the negated quiescence values of the
/// positions after the noisy moves from index `i` on.
pub open spec fn best_reply(pos: Chess, moves: Seq<Move>, i: nat, ply: nat, best: int) -> int
    decreases plies_left(ply), 0int, moves.len() - i,
{
    if i >= moves.len() || ply >= QUIESCE_PLIES {
        best
    } else if !is_noisy(moves[i as int]) {
        best_reply(pos, moves, i + 1, ply, best)
    } else {
        best_reply(
            pos,
            moves,
            i + 1,
            ply,
            larger(best, -quiet_value(position_after(pos, moves[i as int]), ply + 1)),
        )
    }
}

/// What the result of a search in the window `alpha .. beta` tells about
/// the value searched for: inside the window the result is the value; at or
/// below `alpha` the value is at most the result; at or above `beta` the
/// value is at least the result.
pub open spec fn bounds(result: int, value: int, alpha: int, beta: int) -> bool {
    &&& alpha < result < beta ==> result == value
    &&& result <= alpha ==> value <= result
    &&& result >= beta ==> value >= result
}

/// The best reply is at least the best known before.
pub proof fn lemma_best_reply_at_least(pos: Chess, moves: Seq<Move>, i: nat, ply: nat, best: int)
    ensures
        best_reply(pos, moves, i, ply, best) >= best,
    decreases moves.len() - i,
{
    if i >= moves.len() || ply >= QUIESCE_PLIES {
    } else if !is_noisy(moves[i as int]) {
        lemma_best_reply_at_least(pos, moves, i + 1, ply, best);
    } else {
        lemma_best_reply_at_least(
            pos,
            moves,
            i + 1,
            ply,
            larger(best, -quiet_value(position_after(pos, moves[i as int]), ply + 1)),
        );
    }
}

/// Quiescence in a window is sound: its result bounds the quiescence value
/// as the window says.
pub proof fn lemma_quiesce_sound(pos: Chess, ply: nat, alpha: int, beta: int)
    requires
        alpha < beta,
    ensures
        bounds(quiesce_spec(pos, ply, alpha, beta).score, quiet_value(pos, ply), alpha, beta),
    decreases plies_left(ply), 1int, 0int,
{
    if outcome_of(pos) is None && ply < QUIESCE_PLIES {
        let stand_pat = static_score(board_of(pos), turn_of(pos));
        lemma_best_reply_at_least(pos, legal_moves_of(pos), 0, ply, stand_pat);
        if stand_pat < beta {
            lemma_quiesce_moves_sound(
                pos,
                legal_moves_of(pos),
                0,
                ply,
                larger(alpha, stand_pat),
                beta,
                1,
                stand_pat,
            );
        }
    }
}

/// Quiescence over the moves from index `i` on is sound. `alpha` is the
/// bound raised so far and `best` the greatest value met so far, which
/// `alpha` is not below. A result of `beta` or more is a lower bound of the
/// best reply; a smaller result is the greater of `alpha` and the best
/// reply.
pub proof fn lemma_quiesce_moves_sound(
    pos: Chess,
    moves: Seq<Move>,
    i: nat,
    ply: nat,
    alpha: int,
    beta: int,
    evals: nat,
    best: int,
)
    requires
        best <= alpha < beta,
        ply < QUIESCE_PLIES,
    ensures
        quiesce_moves(pos, moves, i, ply, alpha, beta, evals).score >= beta ==> best_reply(
            pos,
            moves,
            i,
            ply,
            best,
        ) >= quiesce_moves(pos, moves, i, ply, alpha, beta, evals).score,
        quiesce_moves(pos, moves, i, ply, alpha, beta, evals).score < beta ==> quiesce_moves(
            pos,
            moves,
            i,
            ply,
            alpha,
            beta,
            evals,
        ).score == larger(alpha, best_reply(pos, moves, i, ply, best)),
    decreases plies_left(ply), 0int, moves.len() - i,
{
    if i >= moves.len() {
    } else if !is_noisy(moves[i as int]) {
        lemma_quiesce_moves_sound(pos, moves, i + 1, ply, alpha, beta, evals, best);
    } else {
        let next = position_after(pos, moves[i as int]);
        let reply = quiesce_spec(next, ply + 1, -beta, -alpha);
        let value = quiet_value(next, ply + 1);
        lemma_quiesce_sound(next, ply + 1, -beta, -alpha);
        let raised = larger(alpha, -reply.score);
        let better = larger(best, -value);
        if raised >= beta {
            lemma_best_reply_at_least(pos, moves, i + 1, ply, better);
        } else {
            lemma_quiesce_moves_sound(
                pos,
                moves,
                i + 1,
                ply,
                raised,
                beta,
                evals + reply.evals,
                better,
            );
            lemma_best_reply_at_least(pos, moves, i + 1, ply, better);
        }
    }
}

/// The greatest magnitude of a quiescence value at quiescence ply `ply`:
/// that of a mate at ply 0, unless the ply is so great that a terminal
/// score has passed it on the other side.
pub open spec fn quiet_limit(ply: nat) -> int {
    larger(MATE as int, ply - MATE)
}

/// Quiescence values are bounded: they are static scores or terminal
/// scores of the plies that quiescence reaches.
pub proof fn lemma_quiet_value_bounded(pos: Chess, ply: nat)
    ensures
        -quiet_limit(ply) <= quiet_value(pos, ply) <= quiet_limit(ply),
    decreases plies_left(ply), 1int, 0int,
{
    if outcome_of(pos) is None && ply < QUIESCE_PLIES {
        lemma_best_reply_bounded(
            pos,
            legal_moves_of(pos),
            0,
            ply,
            static_score(board_of(pos), turn_of(pos)),
        );
    }
}

/// The best reply is bounded when the best known before is.
pub proof fn lemma_best_reply_bounded(pos: Chess, moves: Seq<Move>, i: nat, ply: nat, best: int)
    requires
        -quiet_limit(ply) <= best <= quiet_limit(ply),
        ply < QUIESCE_PLIES,
    ensures
        -quiet_limit(ply) <= best_reply(pos, moves, i, ply, best) <= quiet_limit(ply),
    decreases plies_left(ply), 0int, moves.len() - i,
{
    if i >= moves.len() {
    } else if !is_noisy(moves[i as int]) {
        lemma_best_reply_bounded(pos, moves, i + 1, ply, best);
    } else {
        let next = position_after(pos, moves[i as int]);
        lemma_quiet_value_bounded(next, ply + 1);
        lemma_best_reply_bounded(pos, moves, i + 1, ply, larger(best, -quiet_value(next, ply + 1)));
    }
}

/// In the full window quiescence finds the quiescence value itself.
pub proof fn lemma_full_window_quiesce(pos: Chess, ply: nat)
    requires
        quiet_limit(ply) < INFINITY,
    ensures
        quiesce_spec(pos, ply, -INFINITY as int, INFINITY as int).score == quiet_value(pos, ply),
{
    lemma_quiesce_sound(pos, ply, -INFINITY as int, INFINITY as int);
    lemma_quiet_value_bounded(pos, ply);
}

/// The value of a position at the end of the nominal depth, at search ply
/// `ply`: the terminal score of a finished game, and otherwise the
/// quiescence value.
pub open spec fn leaf_value(pos: Chess, ply: nat) -> int {
    match outcome_of(pos) {
        Some(outcome) => terminal_score(outcome, turn_of(pos), ply as int),
        None => quiet_value(pos, 0),
    }
}

/// The greatest of `best` and the negated leaf values of the positions
/// after the moves from index `i` on.
pub open spec fn best_leaf(pos: Chess, moves: Seq<Move>, i: nat, ply: nat, best: int) -> int
    decreases moves.len() - i,
{
    if i >= moves.len() {
        best
    } else {
        best_leaf(
            pos,
            moves,
            i + 1,
            ply,
            larger(best, -leaf_value(position_after(pos, moves[i as int]), ply + 1)),
        )
    }
}

/// The value of a position that is still played, searched one ply deep at
/// search ply `ply` without window and without table: the best that a legal
/// move leads to, or the worst score if there is none.
pub open spec fn shallow_value(pos: Chess, ply: nat) -> int {
    best_leaf(pos, legal_moves_of(pos), 0, ply, -INFINITY as int)
}

/// The best leaf is at least the best known before.
pub proof fn lemma_best_leaf_at_least(pos: Chess, moves: Seq<Move>, i: nat, ply: nat, best: int)
    ensures
        best_leaf(pos, moves, i, ply, best) >= best,
    decreases moves.len() - i,
{
    if i < moves.len() {
        lemma_best_leaf_at_least(
            pos,
            moves,
            i + 1,
            ply,
            larger(best, -leaf_value(position_after(pos, moves[i as int]), ply + 1)),
        );
    }
}

/// A search of depth 0 neither reads nor changes the table, asks the clock
/// nothing, and its result bounds the leaf value as the window says.
pub proof fn lemma_leaf_sound(pos: Chess, ply: nat, alpha: int, beta: int, context: Context)
    requires
        alpha < beta,
    ensures
        negamax_spec(pos, 0, ply, alpha, beta, context).context.table == context.table,
        negamax_spec(pos, 0, ply, alpha, beta, context).context.watch == context.watch,
        bounds(
            negamax_spec(pos, 0, ply, alpha, beta, context).score,
            leaf_value(pos, ply),
            alpha,
            beta,
        ),
{
    if outcome_of(pos) is None {
        lemma_quiesce_sound(pos, 0, alpha, beta);
    }
}

/// The one-ply search without deadline over the moves from index `i` on is
/// sound. `start` is the `alpha` that the search began with; `best_value`
/// is the best result and `best` the greatest leaf value met so far. A
/// result inside the window is the best leaf; a result at or below `start`
/// is an upper bound of it, and one at or above `beta` a lower bound.
pub proof fn lemma_shallow_moves_sound(
    pos: Chess,
    moves: Seq<Move>,
    i: nat,
    ply: nat,
    start: int,
    beta: int,
    best_value: int,
    best_move: Option<Move>,
    context: Context,
    best: int,
)
    requires
        !context.watch.limited,
        start < beta,
        larger(start, best_value) < beta,
        best <= best_value,
        best_value > start ==> best_value == best,
    ensures
        bounds(
            search_moves(
                pos,
                moves,
                i,
                1,
                ply,
                start,
                larger(start, best_value),
                beta,
                best_value,
                best_move,
                context,
            ).score,
            best_leaf(pos, moves, i, ply, best),
            start,
            beta,
        ),
    decreases moves.len() - i,
{
    let alpha = larger(start, best_value);
    if i < moves.len() {
        let next = position_after(pos, moves[i as int]);
        let reply = negamax_spec(next, 0, ply + 1, -beta, -alpha, context);
        lemma_leaf_sound(next, ply + 1, -beta, -alpha, context);
        let value = -reply.score;
        let improved = value > best_value;
        let new_value = if improved { value } else { best_value };
        let new_move = if improved { Some(moves[i as int]) } else { best_move };
        let new_best = larger(best, -leaf_value(next, ply + 1));
        let raised = larger(alpha, value);
        if raised >= beta {
            lemma_best_leaf_at_least(pos, moves, i + 1, ply, new_best);
        } else {
            lemma_shallow_moves_sound(
                pos,
                moves,
                i + 1,
                ply,
                start,
                beta,
                new_value,
                new_move,
                reply.context.looked_at(),
                new_best,
            );
        }
    }
}

/// The one-ply search without deadline is sound: unless the game is over
/// or the table answers, its result bounds the best leaf among the sorted
/// moves as the window says.
pub proof fn lemma_shallow_sound(pos: Chess, ply: nat, alpha: int, beta: int, context: Context)
    requires
        !context.watch.limited,
        -INFINITY <= alpha < beta,
        outcome_of(pos) is None,
        !cutoff(context.table, hash_of(pos), 1, alpha, beta),
    ensures
        bounds(
            negamax_spec(pos, 1, ply, alpha, beta, context).score,
            best_leaf(
                pos,
                ordered(legal_moves_of(pos), hint_of(context.table, hash_of(pos))),
                0,
                ply,
                -INFINITY as int,
            ),
            alpha,
            beta,
        ),
{
    lemma_shallow_moves_sound(
        pos,
        ordered(legal_moves_of(pos), hint_of(context.table, hash_of(pos))),
        0,
        ply,
        alpha,
        beta,
        -INFINITY as int,
        None,
        context,
        -INFINITY as int,
    );
}

/// The one-ply search without deadline stores its result in the table that
/// it was given: the searches of depth 0 below it leave the table alone.
pub proof fn lemma_shallow_moves_store(
    pos: Chess,
    moves: Seq<Move>,
    i: nat,
    ply: nat,
    start: int,
    alpha: int,
    beta: int,
    best_value: int,
    best_move: Option<Move>,
    context: Context,
)
    requires
        !context.watch.limited,
    ensures
        search_moves(
            pos,
            moves,
            i,
            1,
            ply,
            start,
            alpha,
            beta,
            best_value,
            best_move,
            context,
        ).context.table == store_spec(
            context.table,
            hash_of(pos),
            entry_for(
                1,
                start,
                beta,
                search_moves(
                    pos,
                    moves,
                    i,
                    1,
                    ply,
                    start,
                    alpha,
                    beta,
                    best_value,
                    best_move,
                    context,
                ).score,
                search_moves(
                    pos,
                    moves,
                    i,
                    1,
                    ply,
                    start,
                    alpha,
                    beta,
                    best_value,
                    best_move,
                    context,
                ).best_move,
            ),
        ),
    decreases moves.len() - i,
{
    if i < moves.len() {
        let next = position_after(pos, moves[i as int]);
        let reply = negamax_spec(next, 0, ply + 1, -beta, -alpha, context);
        let value = -reply.score;
        let improved = value > best_value;
        let new_value = if improved { value } else { best_value };
        let new_move = if improved { Some(moves[i as int]) } else { best_move };
        let raised = larger(alpha, value);
        if raised < beta {
            lemma_shallow_moves_store(
                pos,
                moves,
                i + 1,
                ply,
                start,
                raised,
                beta,
                new_value,
                new_move,
                reply.context.looked_at(),
            );
        }
    }
}

/// An exact result of a one-ply search is the score of a fresh one-ply
/// search of the same position at the same ply in the full window. Here a
/// search is one without deadline whose table holds nothing for the
/// position, so that the result is stored: what the table then returns as
/// exact at depth 1 is what a search that starts anew would find.
pub proof fn lemma_exact_at_depth_one(
    pos: Chess,
    ply: nat,
    alpha: int,
    beta: int,
    context: Context,
    fresh: Context,
)
    requires
        -INFINITY <= alpha < beta <= INFINITY,
        outcome_of(pos) is None,
        !context.watch.limited,
        !fresh.watch.limited,
        !context.table.contains_key(hash_of(pos)),
        !fresh.table.contains_key(hash_of(pos)),
        negamax_spec(pos, 1, ply, alpha, beta, context).context.table[hash_of(pos)].bound
            == Bound::Exact,
    ensures
        negamax_spec(pos, 1, ply, alpha, beta, context).context.table[hash_of(pos)].depth == 1,
        negamax_spec(pos, 1, ply, alpha, beta, context).context.table[hash_of(pos)].value
            == negamax_spec(pos, 1, ply, -INFINITY as int, INFINITY as int, fresh).score,
{
    let moves = ordered(legal_moves_of(pos), None);
    lemma_shallow_moves_store(
        pos,
        moves,
        0,
        ply,
        alpha,
        alpha,
        beta,
        -INFINITY as int,
        None,
        context,
    );
    lemma_shallow_sound(pos, ply, alpha, beta, context);
    lemma_shallow_sound(pos, ply, -INFINITY as int, INFINITY as int, fresh);
    lemma_best_leaf_at_least(pos, moves, 0, ply, -INFINITY as int);
}

} // verus!
