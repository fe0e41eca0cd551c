use vstd::prelude::*;
use vstd::seq_lib::group_to_multiset_ensures;
use crate::board::{
    Move, Position, PositionModel, legal_moves_of, hash_of, successor_of, is_checkmate, is_terminal,
    count_pieces, valid_move, Status,
};
use crate::eval::{Weights, static_score, evaluate, eval_bound};
use crate::ordering::{order_moves, stable_order};
use crate::repetition::{RepetitionTable, count_in, with_count, positive_counts, lemma_restore_count};

verus! {

/// The window bound with which a search starts, and the score a node starts from
/// before its first child is seen.
/// Larger than any score a search can produce (`score_bound`), so a full
/// window never cuts a value off.
pub const INFINITY: i64 = 2_000_000_000_000_000;

/// A static score turned to the maximizing player's perspective.
pub open spec fn leaf_value(w: Weights, p: PositionModel, maximizing: bool) -> int {
    if maximizing {
        static_score(w, p)
    } else {
        -static_score(w, p)
    }
}

/// The score of a position met for the third time on the current line: a draw,
/// unless it lies within two plies of the root and the side to play it holds an
/// edge beyond the threshold, which it should not throw away.
pub open spec fn repetition_value(w: Weights, p: PositionModel, depth: int, maximizing: bool, initial_depth: int) -> int {
    let e = static_score(w, p);
    if depth >= initial_depth - 2 && ((maximizing && e > w.repetition_threshold) || (!maximizing && e
        < -w.repetition_threshold)) {
        if maximizing {
            -w.repetition_penalty
        } else {
            w.repetition_penalty as int
        }
    } else {
        0
    }
}

/// A repeated position near the root is not a flat draw for a maximizing side
/// whose edge exceeds the threshold: it is scored as the penalty.
pub proof fn lemma_repetition_with_edge_is_penalised(w: Weights, p: PositionModel, depth: int, initial_depth: int)
    requires
        depth >= initial_depth - 2,
        static_score(w, p) > w.repetition_threshold,
    ensures
        repetition_value(w, p, depth, true, initial_depth) == -w.repetition_penalty,
{
}

/// Whether a search node stops at once with a static score.
pub open spec fn is_leaf(p: PositionModel, depth: int) -> bool {
    depth == 0 || is_terminal(p)
}

/// Whether a search node is a repeated position, cut short.
pub open spec fn is_repeated(p: PositionModel, depth: int, reps: Map<u64, u32>) -> bool {
    !is_leaf(p, depth) && count_in(reps, hash_of(p)) >= 2
}

/// The unpruned minimax value of a search node, with the same leaf, terminal
/// and repetition rules as `search`, from the maximizing player's perspective.
pub open spec fn minimax(
    w: Weights,
    p: PositionModel,
    depth: nat,
    maximizing: bool,
    reps: Map<u64, u32>,
    initial_depth: int,
) -> int
    decreases depth, 0nat, 0nat,
{
    if depth == 0 || is_terminal(p) {
        leaf_value(w, p, maximizing)
    } else if count_in(reps, hash_of(p)) >= 2 {
        repetition_value(w, p, depth as int, maximizing, initial_depth)
    } else {
        let h = hash_of(p);
        let inner = with_count(reps, h, (count_in(reps, h) + 1) as u32);
        best_over(w, p, legal_moves_of(p), (depth - 1) as nat, maximizing, inner, initial_depth)
    }
}

/// The best minimax value among the children that `moves` lead to, for the
/// player to move at `p` (maximizing or not), starting from the sentinel score.
pub open spec fn best_over(
    w: Weights,
    p: PositionModel,
    moves: Seq<Move>,
    child_depth: nat,
    maximizing: bool,
    reps: Map<u64, u32>,
    initial_depth: int,
) -> int
    decreases child_depth, 1nat, moves.len(),
{
    if moves.len() == 0 {
        if maximizing {
            -INFINITY
        } else {
            INFINITY as int
        }
    } else {
        let prev = best_over(w, p, moves.drop_last(), child_depth, maximizing, reps, initial_depth);
        let v = child_value(w, p, moves.last(), child_depth, maximizing, reps, initial_depth);
        if maximizing {
            if v > prev {
                v
            } else {
                prev
            }
        } else {
            if v < prev {
                v
            } else {
                prev
            }
        }
    }
}

/// The minimax value of the child that `m` leads to.
pub open spec fn child_value(
    w: Weights,
    p: PositionModel,
    m: Move,
    child_depth: nat,
    maximizing: bool,
    reps: Map<u64, u32>,
    initial_depth: int,
) -> int
    decreases child_depth, 0nat, 1nat,
{
    minimax(w, successor_of(p, m), child_depth, !maximizing, reps, initial_depth)
}

/// The guarantee of a fail-soft alpha-beta search against the exact value `v`:
/// inside the window the score is exact, below it an upper bound, above it a
/// lower bound.
pub open spec fn window_sound(r: int, v: int, alpha: int, beta: int) -> bool {
    &&& (alpha < r < beta ==> r == v)
    &&& (r <= alpha ==> v <= r)
    &&& (r >= beta ==> v >= r)
}

/// The best value over `moves` is the sentinel or one of the children's values,
/// and no child and not the sentinel is better.
proof fn lemma_best_over_bounds(
    w: Weights,
    p: PositionModel,
    moves: Seq<Move>,
    cd: nat,
    maximizing: bool,
    reps: Map<u64, u32>,
    init: int,
)
    ensures
        ({
            let b = best_over(w, p, moves, cd, maximizing, reps, init);
            &&& maximizing ==> b >= -INFINITY
            &&& !maximizing ==> b <= INFINITY
            &&& forall|i: int| 0 <= i < moves.len() ==> {
                let v = #[trigger] child_value(w, p, moves[i], cd, maximizing, reps, init);
                if maximizing { b >= v } else { b <= v }
            }
            &&& (b == (if maximizing { -INFINITY } else { INFINITY as int })
                || exists|i: int| 0 <= i < moves.len() && b == #[trigger] child_value(w, p, moves[i], cd, maximizing, reps, init))
        }),
    decreases moves.len(),
{
    if moves.len() > 0 {
        let rest = moves.drop_last();
        lemma_best_over_bounds(w, p, rest, cd, maximizing, reps, init);
        let b = best_over(w, p, moves, cd, maximizing, reps, init);
        let prev = best_over(w, p, rest, cd, maximizing, reps, init);
        assert forall|i: int| 0 <= i < moves.len() implies {
            let v = #[trigger] child_value(w, p, moves[i], cd, maximizing, reps, init);
            if maximizing { b >= v } else { b <= v }
        } by {
            if i < moves.len() - 1 {
                assert(moves[i] == rest[i]);
            }
        }
        if b != prev {
            assert(b == child_value(w, p, moves[moves.len() - 1], cd, maximizing, reps, init));
        } else if prev != (if maximizing { -INFINITY } else { INFINITY as int }) {
            let i = choose|i: int| 0 <= i < rest.len() && prev == #[trigger] child_value(w, p, rest[i], cd, maximizing, reps, init);
            assert(moves[i] == rest[i]);
        }
    }
}

/// The best value does not depend on the order in which the moves are listed.
proof fn lemma_best_over_same_moves(
    w: Weights,
    p: PositionModel,
    s: Seq<Move>,
    t: Seq<Move>,
    cd: nat,
    maximizing: bool,
    reps: Map<u64, u32>,
    init: int,
)
    requires
        forall|m: Move| s.contains(m) <==> t.contains(m),
    ensures
        best_over(w, p, s, cd, maximizing, reps, init) == best_over(w, p, t, cd, maximizing, reps, init),
{
    lemma_best_over_bounds(w, p, s, cd, maximizing, reps, init);
    lemma_best_over_bounds(w, p, t, cd, maximizing, reps, init);
    let bs = best_over(w, p, s, cd, maximizing, reps, init);
    let bt = best_over(w, p, t, cd, maximizing, reps, init);
    if bs != (if maximizing { -INFINITY } else { INFINITY as int }) {
        let i = choose|i: int| 0 <= i < s.len() && bs == #[trigger] child_value(w, p, s[i], cd, maximizing, reps, init);
        assert(s.contains(s[i]));
        let j = choose|j: int| 0 <= j < t.len() && t[j] == s[i];
        assert(child_value(w, p, t[j], cd, maximizing, reps, init) == bs);
    }
    if bt != (if maximizing { -INFINITY } else { INFINITY as int }) {
        let i = choose|i: int| 0 <= i < t.len() && bt == #[trigger] child_value(w, p, t[i], cd, maximizing, reps, init);
        assert(t.contains(t[i]));
        let j = choose|j: int| 0 <= j < s.len() && s[j] == t[i];
        assert(child_value(w, p, s[j], cd, maximizing, reps, init) == bt);
    }
}

pub open spec fn score_bound() -> int {
    eval_bound()
}

/// The number of search plies for a position: 4 with fewer than 10 pieces
/// on the board, 3 otherwise.
pub open spec fn depth_for(p: PositionModel) -> u32 {
    if count_pieces(p.squares, 64) < 10 {
        4
    } else {
        3
    }
}

/// The unpruned minimax value of playing `m` at the root of a search of `p`.
pub open spec fn root_value(w: Weights, p: PositionModel, m: Move) -> int {
    let depth = depth_for(p);
    minimax(w, successor_of(p, m), (depth - 1) as nat, false, Map::empty(), depth as int)
}

/// The root moves in the order they are searched.
pub open spec fn root_order(w: Weights, p: PositionModel) -> Seq<Move> {
    stable_order(w, p, legal_moves_of(p))
}

/// `j` is the first position in `order` whose root value is maximal.
pub open spec fn is_first_best(w: Weights, p: PositionModel, order: Seq<Move>, j: int) -> bool {
    &&& 0 <= j < order.len()
    &&& forall|k: int| 0 <= k < order.len() ==> #[trigger] root_value(w, p, order[k]) <= root_value(w, p, order[j])
    &&& forall|k: int| 0 <= k < j ==> #[trigger] root_value(w, p, order[k]) < root_value(w, p, order[j])
}

pub fn target_depth(p: &Position) -> (r: u32)
    requires
        p.wf(),
    ensures
        r == depth_for(p@),
        r >= 1,
{
    if p.piece_count() < 10 {
        4
    } else {
        3
    }
}

/// Scores a repeated position; `e` is its static score.
pub fn repetition_score(w: &Weights, e: i64, depth: u32, maximizing: bool, initial_depth: u32) -> (r: i64)
    requires
        w.wf(),
    ensures
        ({
            let near_root = depth as int >= initial_depth as int - 2;
            let edge = (maximizing && e > w.repetition_threshold) || (!maximizing && e < -w.repetition_threshold);
            r == if near_root && edge {
                if maximizing {
                    -w.repetition_penalty
                } else {
                    w.repetition_penalty as int
                }
            } else {
                0
            }
        }),
{
    if depth as i64 >= initial_depth as i64 - 2 {
        if (maximizing && e > w.repetition_threshold) || (!maximizing && e < -w.repetition_threshold) {
            return if maximizing { -w.repetition_penalty } else { w.repetition_penalty };
        }
    }
    0
}

/// Depth-limited alpha-beta search. The score is from the maximizing player's
/// perspective and agrees with the unpruned minimax value as a fail-soft search
/// does: exactly inside the window `(alpha, beta)`, as a bound outside it. The
/// repetition table is left as it was found.
pub fn search(
    w: &Weights,
    p: &Position,
    depth: u32,
    alpha: i64,
    beta: i64,
    maximizing: bool,
    reps: &mut RepetitionTable,
    initial_depth: u32,
) -> (r: i64)
    requires
        w.wf(),
        p.wf(),
        positive_counts(old(reps)@),
    ensures
        final(reps)@ == old(reps)@,
        alpha < beta ==> window_sound(
            r as int,
            minimax(*w, p@, depth as nat, maximizing, old(reps)@, initial_depth as int),
            alpha as int,
            beta as int,
        ),
        is_leaf(p@, depth as int) ==> r == leaf_value(*w, p@, maximizing),
        is_repeated(p@, depth as int, old(reps)@) ==> r == repetition_value(
            *w,
            p@,
            depth as int,
            maximizing,
            initial_depth as int,
        ),
        -score_bound() <= r <= score_bound(),
    decreases depth,
{
    let moves = p.legal_moves();
    if depth == 0 || moves.len() == 0 {
        let e = evaluate(w, p);
        return if maximizing { e } else { -e };
    }
    let h = p.hash();
    let count = reps.count(h);
    if count >= 2 {
        let e = evaluate(w, p);
        return repetition_score(w, e, depth, maximizing, initial_depth);
    }
    reps.set(h, count + 1);
    let ghost entered = reps@;
    let ghost cd = (depth - 1) as nat;
    let ghost init = initial_depth as int;
    let ordered = order_moves(w, p, &moves);
    proof {
        broadcast use group_to_multiset_ensures;

        assert forall|m: Move| ordered@.contains(m) <==> legal_moves_of(p@).contains(m) by {
            assert(ordered@.contains(m) <==> ordered@.to_multiset().count(m) > 0);
            assert(legal_moves_of(p@).contains(m) <==> legal_moves_of(p@).to_multiset().count(m) > 0);
        }
        lemma_best_over_same_moves(*w, p@, ordered@, legal_moves_of(p@), cd, maximizing, entered, init);
        lemma_best_over_bounds(*w, p@, ordered@, cd, maximizing, entered, init);
        assert(ordered@.subrange(0, 0) =~= Seq::<Move>::empty());
    }
    let ghost full = best_over(*w, p@, ordered@, cd, maximizing, entered, init);
    let mut best: i64 = if maximizing { -INFINITY } else { INFINITY };
    let mut a = alpha;
    let mut b = beta;
    let mut i: usize = 0;
    while i < ordered.len()
        invariant_except_break
            i <= ordered.len(),
            alpha < beta ==> alpha <= a < b <= beta,
            maximizing ==> b == beta,
            !maximizing ==> a == alpha,
            alpha < beta && i == ordered.len() ==> window_sound(best as int, full, alpha as int, beta as int),
            alpha < beta ==> ({
                let vi = best_over(*w, p@, ordered@.subrange(0, i as int), cd, maximizing, entered, init);
                if maximizing {
                    &&& (a == alpha || a <= best)
                    &&& (best == -INFINITY || best <= a)
                    &&& (best > alpha ==> vi == best)
                    &&& (best <= alpha ==> vi <= best)
                } else {
                    &&& (b == beta || b >= best)
                    &&& (best == INFINITY || best >= b)
                    &&& (best < beta ==> vi == best)
                    &&& (best >= beta ==> vi >= best)
                }
            }),
        invariant
            w.wf(),
            p.wf(),
            depth > 0,
            cd == depth - 1,
            init == initial_depth as int,
            ordered@.to_multiset() == legal_moves_of(p@).to_multiset(),
            moves@ == legal_moves_of(p@),
            forall|k: int| 0 <= k < moves.len() ==> valid_move(#[trigger] moves@[k]),
            reps@ == entered,
            positive_counts(entered),
            full == best_over(*w, p@, ordered@, cd, maximizing, entered, init),
            ordered.len() == moves.len(),
            moves.len() > 0,
            maximizing ==> full >= -INFINITY,
            !maximizing ==> full <= INFINITY,
            forall|k: int| 0 <= k < ordered.len() ==> {
                let v = #[trigger] child_value(*w, p@, ordered@[k], cd, maximizing, entered, init);
                if maximizing { full >= v } else { full <= v }
            },
            (i == 0 && best == (if maximizing { -INFINITY } else { INFINITY as int })) || -score_bound() <= best
                <= score_bound(),
        ensures
            alpha < beta ==> window_sound(best as int, full, alpha as int, beta as int),
            -score_bound() <= best <= score_bound(),
        decreases ordered.len() - i,
    {
        let m = ordered[i];
        proof {
            broadcast use group_to_multiset_ensures;

            assert(ordered@.contains(m)) by {
                assert(ordered@[i as int] == m);
            }
            assert(ordered@.to_multiset().count(m) > 0);
        }
        let ghost old_best = best;
        let ghost old_a = a;
        let ghost old_b = b;
        let child = p.apply(m);
        let v = search(w, &child, depth - 1, a, b, !maximizing, reps, initial_depth);
        proof {
            assert(child_value(*w, p@, ordered@[i as int], cd, maximizing, entered, init) == minimax(
                *w,
                child@,
                (depth - 1) as nat,
                !maximizing,
                entered,
                init,
            ));
            let next = ordered@.subrange(0, i + 1);
            assert(next.drop_last() =~= ordered@.subrange(0, i as int));
            assert(next.last() == m);
        }
        if maximizing {
            if v > best {
                best = v;
            }
            if v > a {
                a = v;
            }
        } else {
            if v < best {
                best = v;
            }
            if v < b {
                b = v;
            }
        }
        if b <= a {
            proof {
                if alpha < beta {
                    let cv = child_value(*w, p@, ordered@[i as int], cd, maximizing, entered, init);
                    assert(window_sound(v as int, cv, old_a as int, old_b as int));
                    if maximizing {
                        assert(v >= beta);
                        assert(cv >= v);
                        assert(full >= cv);
                    } else {
                        assert(v <= alpha);
                        assert(cv <= v);
                        assert(full <= cv);
                    }
                    assert(window_sound(best as int, full, alpha as int, beta as int));
                }
            }
            break;
        }
        i = i + 1;
        proof {
            if alpha < beta && i == ordered.len() {
                assert(ordered@.subrange(0, i as int) =~= ordered@);
                assert(window_sound(best as int, full, alpha as int, beta as int));
            }
        }
    }
    reps.set(h, count);
    proof {
        lemma_restore_count(old(reps)@, h, (count + 1) as u32);
    }
    best
}

/// Whether some legal move of `p` mates at once.
pub open spec fn mates_in_one(p: PositionModel) -> bool {
    exists|i: int| 0 <= i < legal_moves_of(p).len() && #[trigger] is_checkmate(successor_of(p, legal_moves_of(p)[i]))
}

/// The first legal move, in the rules engine's order, that mates at once.
pub open spec fn is_first_mate(p: PositionModel, j: int) -> bool {
    &&& 0 <= j < legal_moves_of(p).len()
    &&& is_checkmate(successor_of(p, legal_moves_of(p)[j]))
    &&& forall|k: int| 0 <= k < j ==> !#[trigger] is_checkmate(successor_of(p, legal_moves_of(p)[k]))
}

/// The first legal move that mates at once, if any.
pub fn find_mate(p: &Position, moves: &Vec<Move>) -> (r: Option<usize>)
    requires
        p.wf(),
        moves@ == legal_moves_of(p@),
    ensures
        match r {
            Some(j) => is_first_mate(p@, j as int),
            None => !mates_in_one(p@),
        },
{
    let mut i: usize = 0;
    while i < moves.len()
        invariant
            i <= moves.len(),
            p.wf(),
            moves@ == legal_moves_of(p@),
            forall|k: int| 0 <= k < i ==> !#[trigger] is_checkmate(successor_of(p@, legal_moves_of(p@)[k])),
        decreases moves.len() - i,
    {
        let m = moves[i];
        assert(legal_moves_of(p@).contains(m)) by {
            assert(legal_moves_of(p@)[i as int] == m);
        }
        let child = p.apply(m);
        if child.status() == Status::Checkmate {
            return Some(i);
        }
        i = i + 1;
    }
    None
}

/// Chooses a move: a mate in one if there is one, else the move whose search
/// score is highest (the first of equals, in search order). None when there is
/// no legal move.
pub fn best_move(w: &Weights, p: &Position) -> (r: Option<Move>)
    requires
        w.wf(),
        p.wf(),
    ensures
        r is None <==> legal_moves_of(p@).len() == 0,
        r is Some ==> legal_moves_of(p@).contains(r->Some_0),
        mates_in_one(p@) ==> exists|j: int| is_first_mate(p@, j) && r == Some(legal_moves_of(p@)[j]),
        !mates_in_one(p@) && legal_moves_of(p@).len() > 0 ==> exists|j: int|
            is_first_best(*w, p@, root_order(*w, p@), j) && r == Some(root_order(*w, p@)[j]),
{
    let moves = p.legal_moves();
    if moves.len() == 0 {
        return None;
    }
    match find_mate(p, &moves) {
        Some(j) => {
            return Some(moves[j]);
        },
        None => {},
    }
    let depth = target_depth(p);
    let mut reps = RepetitionTable::new();
    let ordered = order_moves(w, p, &moves);
    let mut chosen: Option<Move> = None;
    let mut best: i64 = -INFINITY;
    let ghost mut cj: int = 0;
    let mut i: usize = 0;
    while i < ordered.len()
        invariant
            w.wf(),
            p.wf(),
            depth >= 1,
            ordered@.to_multiset() == legal_moves_of(p@).to_multiset(),
            ordered.len() == moves.len(),
            moves@ == legal_moves_of(p@),
            positive_counts(reps@),
            i <= ordered.len(),
            i > 0 ==> chosen is Some,
            chosen is Some ==> legal_moves_of(p@).contains(chosen->Some_0),
            !mates_in_one(p@),
            reps@ == Map::<u64, u32>::empty(),
            depth == depth_for(p@),
            ordered@ == root_order(*w, p@),
            0 <= cj <= i,
            i == 0 ==> chosen is None,
            i > 0 ==> 0 <= cj < i && chosen == Some(ordered@[cj]) && root_value(*w, p@, ordered@[cj]) == best,
            forall|k: int| 0 <= k < i ==> #[trigger] root_value(*w, p@, ordered@[k]) <= best,
            forall|k: int| 0 <= k < cj ==> #[trigger] root_value(*w, p@, ordered@[k]) < best,
        decreases ordered.len() - i,
    {
        let m = ordered[i];
        proof {
            broadcast use group_to_multiset_ensures;

            assert(ordered@.contains(m)) by {
                assert(ordered@[i as int] == m);
            }
            assert(ordered@.to_multiset().count(m) > 0);
        }
        let child = p.apply(m);
        let v = search(w, &child, depth - 1, -INFINITY, INFINITY, false, &mut reps, depth);
        assert(v == root_value(*w, p@, ordered@[i as int]));
        if chosen.is_none() || v > best {
            best = v;
            chosen = Some(m);
            proof {
                cj = i as int;
            }
        }
        i = i + 1;
    }
    proof {
        assert(is_first_best(*w, p@, root_order(*w, p@), cj));
    }
    chosen
}

} // verus!
