use vstd::prelude::*;
use vstd::seq_lib::group_to_multiset_ensures;
use crate::board::{
    Move, Position, PositionModel, legal_moves_of, in_check_of, successor_of, is_checkmate,
    valid_move,
};
use crate::eval::{Weights, is_center, center_square, lemma_product_bound};

verus! {

/// The material part of a move's ordering key: the captured piece's value
/// scaled up, less the capturing piece's value scaled down.
pub open spec fn capture_term(w: Weights, p: PositionModel, m: Move) -> int {
    match p.squares[m.to as int] {
        Some(victim) => {
            let attacker = match p.squares[m.from as int] {
                Some(a) => w.value(a.kind),
                None => 0,
            };
            w.value(victim.kind) * w.victim_scale - attacker * w.attacker_scale
        },
        None => 0,
    }
}

pub open spec fn promotion_term(w: Weights, m: Move) -> int {
    match m.promotion {
        Some(k) => w.value(k) * w.promotion_scale,
        None => 0,
    }
}

/// How early a move is tried: a mating move first of all, then by captures,
/// promotions, checks and center moves.
pub open spec fn order_key(w: Weights, p: PositionModel, m: Move) -> int {
    let next = successor_of(p, m);
    if is_checkmate(next) {
        w.mate_priority as int
    } else {
        capture_term(w, p, m) + promotion_term(w, m)
            + (if in_check_of(next) { w.check_bonus as int } else { 0 })
            + (if is_center(m.to as int) { w.center_move_bonus as int } else { 0 })
    }
}

/// `moves` in order of non-increasing key.
pub open spec fn sorted_by_key(w: Weights, p: PositionModel, moves: Seq<Move>) -> bool {
    forall|a: int, b: int|
        0 <= a < b < moves.len() ==> order_key(w, p, #[trigger] moves[a]) >= order_key(w, p, #[trigger] moves[b])
}

/// `m` placed into `s` after every move whose key is at least its own.
pub open spec fn insert_by_key(w: Weights, p: PositionModel, s: Seq<Move>, m: Move) -> Seq<Move>
    decreases s.len(),
{
    if s.len() == 0 {
        seq![m]
    } else if order_key(w, p, s[0]) >= order_key(w, p, m) {
        seq![s[0]] + insert_by_key(w, p, s.drop_first(), m)
    } else {
        seq![m] + s
    }
}

/// The moves sorted by non-increasing key, equal keys kept in their order.
pub open spec fn stable_order(w: Weights, p: PositionModel, moves: Seq<Move>) -> Seq<Move>
    decreases moves.len(),
{
    if moves.len() == 0 {
        seq![]
    } else {
        insert_by_key(w, p, stable_order(w, p, moves.drop_last()), moves.last())
    }
}

proof fn lemma_insert_by_key_at(w: Weights, p: PositionModel, s: Seq<Move>, m: Move, pos: int)
    requires
        0 <= pos <= s.len(),
        forall|k: int| 0 <= k < pos ==> order_key(w, p, #[trigger] s[k]) >= order_key(w, p, m),
        pos < s.len() ==> order_key(w, p, s[pos]) < order_key(w, p, m),
    ensures
        insert_by_key(w, p, s, m) == s.insert(pos, m),
    decreases s.len(),
{
    if s.len() == 0 {
        assert(s.insert(pos, m) =~= seq![m]);
    } else if pos == 0 {
        assert(s.insert(0, m) =~= seq![m] + s);
    } else {
        let t = s.drop_first();
        assert forall|k: int| 0 <= k < pos - 1 implies order_key(w, p, #[trigger] t[k]) >= order_key(w, p, m) by {
            assert(t[k] == s[k + 1]);
        }
        if pos < s.len() {
            assert(t[pos - 1] == s[pos]);
        }
        lemma_insert_by_key_at(w, p, t, m, pos - 1);
        assert(s.insert(pos, m) =~= seq![s[0]] + t.insert(pos - 1, m));
    }
}

/// The ordering key of a legal move.
pub fn move_key(w: &Weights, p: &Position, m: Move) -> (r: i64)
    requires
        w.wf(),
        p.wf(),
        legal_moves_of(p@).contains(m),
        valid_move(m),
    ensures
        r == order_key(*w, p@, m),
{
    let next = p.apply(m);
    let replies = next.legal_moves();
    let check = next.in_check();
    if replies.len() == 0 && check {
        return w.mate_priority;
    }
    let mut key: i64 = 0;
    match p.occupant(m.to) {
        Some(victim) => {
            let attacker = match p.occupant(m.from) {
                Some(a) => w.piece_value(a.kind),
                None => 0,
            };
            let v = w.piece_value(victim.kind);
            proof {
                lemma_product_bound(v as int, w.victim_scale as int);
                lemma_product_bound(attacker as int, w.attacker_scale as int);
            }
            key = v * w.victim_scale - attacker * w.attacker_scale;
        },
        None => {},
    }
    match m.promotion {
        Some(k) => {
            let v = w.piece_value(k);
            proof {
                lemma_product_bound(v as int, w.promotion_scale as int);
            }
            key = key + v * w.promotion_scale;
        },
        None => {},
    }
    if check {
        key = key + w.check_bonus;
    }
    if center_square(m.to) {
        key = key + w.center_move_bonus;
    }
    key
}

proof fn lemma_insert_multiset(s: Seq<Move>, i: int, x: Move)
    requires
        0 <= i <= s.len(),
    ensures
        s.insert(i, x).to_multiset() =~= s.to_multiset().insert(x),
{
    broadcast use group_to_multiset_ensures;

    let t = s.insert(i, x);
    assert(t.remove(i) =~= s);
    assert(t[i] == x);
    assert(t.to_multiset().remove(x) =~= s.to_multiset());
    assert(t.contains(x));
}

/// Orders the legal moves best-first: non-increasing key, equal keys in the
/// order they came.
pub fn order_moves(w: &Weights, p: &Position, moves: &Vec<Move>) -> (r: Vec<Move>)
    requires
        w.wf(),
        p.wf(),
        moves@ == legal_moves_of(p@),
        forall|i: int| 0 <= i < moves.len() ==> valid_move(#[trigger] moves@[i]),
    ensures
        r@ == stable_order(*w, p@, moves@),
        r@.to_multiset() == moves@.to_multiset(),
        r.len() == moves.len(),
        sorted_by_key(*w, p@, r@),
{
    broadcast use group_to_multiset_ensures;

    let mut out: Vec<Move> = Vec::new();
    let mut keys: Vec<i64> = Vec::new();
    let mut i: usize = 0;
    while i < moves.len()
        invariant
            i <= moves.len(),
            w.wf(),
            p.wf(),
            moves@ == legal_moves_of(p@),
            forall|k: int| 0 <= k < moves.len() ==> valid_move(#[trigger] moves@[k]),
            out.len() == i,
            keys.len() == i,
            out@.to_multiset() == moves@.subrange(0, i as int).to_multiset(),
            forall|k: int| 0 <= k < i ==> #[trigger] keys@[k] == order_key(*w, p@, out@[k]),
            sorted_by_key(*w, p@, out@),
            out@ == stable_order(*w, p@, moves@.subrange(0, i as int)),
        decreases moves.len() - i,
    {
        let m = moves[i];
        assert(legal_moves_of(p@).contains(m)) by {
            assert(moves@[i as int] == m);
        }
        let key = move_key(w, p, m);
        let mut pos: usize = 0;
        while pos < keys.len() && keys[pos] >= key
            invariant
                pos <= keys.len(),
                keys.len() == out.len(),
                forall|k: int| 0 <= k < pos ==> #[trigger] keys@[k] >= key,
            decreases keys.len() - pos,
        {
            pos = pos + 1;
        }
        proof {
            assert forall|k: int| 0 <= k < pos implies order_key(*w, p@, #[trigger] out@[k]) >= order_key(*w, p@, m) by {
                assert(keys@[k] == order_key(*w, p@, out@[k]));
            }
            if pos < keys.len() {
                assert(keys@[pos as int] == order_key(*w, p@, out@[pos as int]));
            }
            lemma_insert_by_key_at(*w, p@, out@, m, pos as int);
            let next = moves@.subrange(0, i + 1);
            assert(next.drop_last() =~= moves@.subrange(0, i as int));
            assert(next.last() == m);
            lemma_insert_multiset(out@, pos as int, m);
            assert(moves@.subrange(0, i + 1) =~= moves@.subrange(0, i as int).push(m));
        }
        let ghost old_out = out@;
        let ghost old_keys = keys@;
        out.insert(pos, m);
        keys.insert(pos, key);
        assert(out@ == old_out.insert(pos as int, m));
        proof {
            let done = moves@.subrange(0, i as int);
            assert(done.push(m) =~= done.insert(done.len() as int, m));
            lemma_insert_multiset(done, done.len() as int, m);
        }
        assert forall|k: int| 0 <= k < i + 1 implies #[trigger] keys@[k] == order_key(*w, p@, out@[k]) by {
            if k < pos {
                assert(keys@[k] == old_keys[k]);
            } else if k > pos {
                assert(keys@[k] == old_keys[k - 1]);
            }
        }
        assert forall|a: int, b: int| 0 <= a < b < out.len() implies order_key(*w, p@, #[trigger] out@[a])
            >= order_key(*w, p@, #[trigger] out@[b]) by {
            assert(keys@[a] == order_key(*w, p@, out@[a]));
            assert(keys@[b] == order_key(*w, p@, out@[b]));
            if a < pos && b > pos {
                assert(old_keys[a] == order_key(*w, p@, old_out[a]));
                assert(old_keys[b - 1] == order_key(*w, p@, old_out[b - 1]));
            }
        }
        i = i + 1;
    }
    assert(moves@.subrange(0, moves.len() as int) =~= moves@);
    out
}

} // verus!
