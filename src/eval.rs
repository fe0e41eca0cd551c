use vstd::prelude::*;
use crate::board::{
    Move, Occupant, Position, PositionModel, legal_moves_of, in_check_of, passed, initial_model, initial_square, KING,
    QUEEN, ROOK, KNIGHT, BISHOP, PAWN, E1, E8,
};

verus! {

/// The largest magnitude a weight may have.
pub const WEIGHT_BOUND: i64 = 1_000_000;

/// Mobility counts at most this many legal moves (no chess position has more).
pub const MOBILITY_CAP: usize = 256;

/// Every tunable constant of the engine: evaluation terms, move-ordering terms
/// and the repetition rule.
#[derive(Clone, Copy, PartialEq, Eq, Structural, Debug)]
pub struct Weights {
    pub pawn: i64,
    pub knight: i64,
    pub bishop: i64,
    pub rook: i64,
    pub queen: i64,
    pub king: i64,
    /// Multiplies a piece value in the material term.
    pub material_scale: i64,
    /// For a piece on d4, e4, d5 or e5.
    pub center_bonus: i64,
    /// Mobility adds `moves * mobility_mul / mobility_div`.
    pub mobility_mul: i64,
    pub mobility_div: i64,
    pub check_penalty: i64,
    /// Multiplies the value of each enemy piece that a legal move can capture,
    /// and of each own piece that the opponent could capture were it its turn.
    pub threat_scale: i64,
    /// For a king on its starting square: added for the mover's king,
    /// subtracted for the opponent's.
    pub king_home_bonus: i64,
    /// Per rank a pawn has advanced: added for the mover's pawns, subtracted
    /// for the opponent's.
    pub advancement_scale: i64,
    /// The magnitude of a checkmate score.
    pub mate_score: i64,
    /// Move ordering: multiplies the captured piece's value.
    pub victim_scale: i64,
    /// Move ordering: multiplies the capturing piece's value (subtracted).
    pub attacker_scale: i64,
    /// Move ordering: multiplies the promoted piece's value.
    pub promotion_scale: i64,
    /// Move ordering: for a move that gives check.
    pub check_bonus: i64,
    /// Move ordering: for a move onto a center square.
    pub center_move_bonus: i64,
    /// Move ordering: the key of a move that mates.
    pub mate_priority: i64,
    /// A repeated position is scored as a penalty, not a draw, when the
    /// evaluation exceeds this in favour of the side that would avoid it.
    pub repetition_threshold: i64,
    pub repetition_penalty: i64,
}

pub open spec fn bounded(x: i64) -> bool {
    -WEIGHT_BOUND <= x <= WEIGHT_BOUND
}

impl Weights {
    pub open spec fn wf(&self) -> bool {
        &&& bounded(self.pawn)
        &&& bounded(self.knight)
        &&& bounded(self.bishop)
        &&& bounded(self.rook)
        &&& bounded(self.queen)
        &&& bounded(self.king)
        &&& bounded(self.material_scale)
        &&& bounded(self.center_bonus)
        &&& 0 <= self.mobility_mul <= WEIGHT_BOUND
        &&& 1 <= self.mobility_div <= WEIGHT_BOUND
        &&& bounded(self.check_penalty)
        &&& bounded(self.threat_scale)
        &&& bounded(self.king_home_bonus)
        &&& bounded(self.advancement_scale)
        &&& bounded(self.mate_score)
        &&& bounded(self.victim_scale)
        &&& bounded(self.attacker_scale)
        &&& bounded(self.promotion_scale)
        &&& bounded(self.check_bonus)
        &&& bounded(self.center_move_bonus)
        &&& bounded(self.mate_priority)
        &&& bounded(self.repetition_threshold)
        &&& bounded(self.repetition_penalty)
    }

    /// The value of a piece kind.
    pub open spec fn value(&self, kind: u8) -> int {
        if kind == PAWN {
            self.pawn as int
        } else if kind == 1 {
            self.knight as int
        } else if kind == 2 {
            self.bishop as int
        } else if kind == 3 {
            self.rook as int
        } else if kind == 4 {
            self.queen as int
        } else {
            self.king as int
        }
    }

    /// Material and center only, moves ordered by captures, promotions,
    /// checks and mates.
    pub fn basic() -> (r: Weights)
        ensures
            r.wf(),
            r == (Weights {
                pawn: 1,
                knight: 3,
                bishop: 3,
                rook: 5,
                queen: 9,
                king: 1000,
                material_scale: 1,
                center_bonus: 2,
                mobility_mul: 0,
                mobility_div: 1,
                check_penalty: 0,
                threat_scale: 0,
                king_home_bonus: 0,
                advancement_scale: 0,
                mate_score: 20000,
                victim_scale: 10,
                attacker_scale: 1,
                promotion_scale: 90,
                check_bonus: 100,
                center_move_bonus: 0,
                mate_priority: 20000,
                repetition_threshold: 100,
                repetition_penalty: 5000,
            }),
    {
        Weights {
            pawn: 1,
            knight: 3,
            bishop: 3,
            rook: 5,
            queen: 9,
            king: 1000,
            material_scale: 1,
            center_bonus: 2,
            mobility_mul: 0,
            mobility_div: 1,
            check_penalty: 0,
            threat_scale: 0,
            king_home_bonus: 0,
            advancement_scale: 0,
            mate_score: 20000,
            victim_scale: 10,
            attacker_scale: 1,
            promotion_scale: 90,
            check_bonus: 100,
            center_move_bonus: 0,
            mate_priority: 20000,
            repetition_threshold: 100,
            repetition_penalty: 5000,
        }
    }

    /// Adds a check penalty and a small mobility term.
    pub fn standard() -> (r: Weights)
        ensures
            r.wf(),
            r == (Weights {
                pawn: 1,
                knight: 3,
                bishop: 3,
                rook: 5,
                queen: 9,
                king: 1000,
                material_scale: 1,
                center_bonus: 2,
                mobility_mul: 1,
                mobility_div: 10,
                check_penalty: 30,
                threat_scale: 0,
                king_home_bonus: 0,
                advancement_scale: 0,
                mate_score: 20000,
                victim_scale: 10,
                attacker_scale: 1,
                promotion_scale: 90,
                check_bonus: 100,
                center_move_bonus: 0,
                mate_priority: 20000,
                repetition_threshold: 100,
                repetition_penalty: 5000,
            }),
    {
        Weights {
            check_penalty: 30,
            mobility_mul: 1,
            mobility_div: 10,
            ..Weights::basic()
        }
    }

    /// Material in hundredths of a pawn, with mobility, threats, king safety
    /// and pawn advancement.
    pub fn rich() -> (r: Weights)
        ensures
            r.wf(),
            r == (Weights {
                pawn: 1,
                knight: 3,
                bishop: 3,
                rook: 5,
                queen: 9,
                king: 1000,
                material_scale: 100,
                center_bonus: 20,
                mobility_mul: 5,
                mobility_div: 1,
                check_penalty: 50,
                threat_scale: 10,
                king_home_bonus: 10,
                advancement_scale: 5,
                mate_score: 30000,
                victim_scale: 100,
                attacker_scale: 10,
                promotion_scale: 90,
                check_bonus: 300,
                center_move_bonus: 50,
                mate_priority: 50000,
                repetition_threshold: 100,
                repetition_penalty: 5000,
            }),
    {
        Weights {
            pawn: 1,
            knight: 3,
            bishop: 3,
            rook: 5,
            queen: 9,
            king: 1000,
            material_scale: 100,
            center_bonus: 20,
            mobility_mul: 5,
            mobility_div: 1,
            check_penalty: 50,
            threat_scale: 10,
            king_home_bonus: 10,
            advancement_scale: 5,
            mate_score: 30000,
            victim_scale: 100,
            attacker_scale: 10,
            promotion_scale: 90,
            check_bonus: 300,
            center_move_bonus: 50,
            mate_priority: 50000,
            repetition_threshold: 100,
            repetition_penalty: 5000,
        }
    }

    /// The value of a piece kind.
    pub fn piece_value(&self, kind: u8) -> (r: i64)
        ensures
            r == self.value(kind),
    {
        if kind == PAWN {
            self.pawn
        } else if kind == 1 {
            self.knight
        } else if kind == 2 {
            self.bishop
        } else if kind == 3 {
            self.rook
        } else if kind == 4 {
            self.queen
        } else {
            self.king
        }
    }
}

/// d4, e4, d5 and e5.
pub open spec fn is_center(sq: int) -> bool {
    sq == 27 || sq == 28 || sq == 35 || sq == 36
}

pub fn center_square(sq: u8) -> (r: bool)
    ensures
        r == is_center(sq as int),
{
    sq == 27 || sq == 28 || sq == 35 || sq == 36
}

/// What one square adds to the material-and-center balance seen from `white`'s side
/// (`white` false: from black's side).
pub open spec fn cell_balance(w: Weights, o: Option<Occupant>, sq: int, white: bool) -> int {
    match o {
        None => 0,
        Some(occ) => {
            let v = w.value(occ.kind) * w.material_scale + if is_center(sq) {
                w.center_bonus as int
            } else {
                0
            };
            if occ.white == white {
                v
            } else {
                -v
            }
        },
    }
}

pub open spec fn balance_upto(w: Weights, squares: Seq<Option<Occupant>>, white: bool, n: int) -> int
    decreases n,
{
    if n <= 0 {
        0
    } else {
        balance_upto(w, squares, white, n - 1) + cell_balance(w, squares[n - 1], n - 1, white)
    }
}

/// Material and center control from one side's perspective.
pub open spec fn balance(w: Weights, p: PositionModel, white: bool) -> int {
    balance_upto(w, p.squares, white, 64)
}

/// Whether some legal move captures on `sq` without promoting.
pub open spec fn capturable(moves: Seq<Move>, sq: int) -> bool {
    exists|j: int| 0 <= j < moves.len() && #[trigger] moves[j].to == sq && moves[j].promotion is None
}

/// An enemy piece that one of `moves` captures earns its scaled value; a piece
/// of `white`'s side that one of the opponent's `replies` captures costs it.
pub open spec fn threat_cell(w: Weights, o: Option<Occupant>, sq: int, white: bool, moves: Seq<Move>, replies: Seq<Move>) -> int {
    match o {
        Some(occ) => if occ.white != white && capturable(moves, sq) {
            w.value(occ.kind) * w.threat_scale
        } else if occ.white == white && capturable(replies, sq) {
            -(w.value(occ.kind) * w.threat_scale)
        } else {
            0
        },
        None => 0,
    }
}

pub open spec fn threats_upto(
    w: Weights,
    squares: Seq<Option<Occupant>>,
    white: bool,
    moves: Seq<Move>,
    replies: Seq<Move>,
    n: int,
) -> int
    decreases n,
{
    if n <= 0 {
        0
    } else {
        threats_upto(w, squares, white, moves, replies, n - 1) + threat_cell(w, squares[n - 1], n - 1, white, moves, replies)
    }
}

/// The opponent's legal moves were it its turn in the same placement. The rules
/// engine hands the move over only when the side to move is not in check, so
/// while it is in check no reply is counted and the own-pieces-under-threat
/// term is zero; the check penalty stands in its place.
pub open spec fn opponent_replies(p: PositionModel) -> Seq<Move> {
    if in_check_of(p) {
        Seq::empty()
    } else {
        legal_moves_of(passed(p))
    }
}

/// Ranks that a pawn on `sq` of the given side has advanced from its own back rank.
pub open spec fn ranks_advanced(sq: int, white: bool) -> int {
    if white {
        sq / 8
    } else {
        7 - sq / 8
    }
}

/// A pawn's advancement, counted for its owner and against the other side.
pub open spec fn advance_cell(w: Weights, o: Option<Occupant>, sq: int, white: bool) -> int {
    match o {
        Some(occ) => if occ.kind == PAWN {
            let a = ranks_advanced(sq, occ.white) * w.advancement_scale;
            if occ.white == white {
                a
            } else {
                -a
            }
        } else {
            0
        },
        None => 0,
    }
}

pub open spec fn advance_upto(w: Weights, squares: Seq<Option<Occupant>>, white: bool, n: int) -> int
    decreases n,
{
    if n <= 0 {
        0
    } else {
        advance_upto(w, squares, white, n - 1) + advance_cell(w, squares[n - 1], n - 1, white)
    }
}

/// A side's king still on its starting square, e1 for White, e8 for Black.
pub open spec fn king_home(p: PositionModel, white: bool) -> bool {
    if white {
        p.squares[E1 as int] == Some(Occupant { kind: KING, white: true })
    } else {
        p.squares[E8 as int] == Some(Occupant { kind: KING, white: false })
    }
}

/// King safety seen from `white`'s side: the bonus for its own king at home,
/// less the bonus for the other side's.
pub open spec fn king_term(w: Weights, p: PositionModel, white: bool) -> int {
    (if king_home(p, white) { w.king_home_bonus as int } else { 0 }) - (if king_home(p, !white) {
        w.king_home_bonus as int
    } else {
        0
    })
}

pub open spec fn mobility(w: Weights, n: int) -> int {
    let c = if n > MOBILITY_CAP { MOBILITY_CAP as int } else { n };
    (c * w.mobility_mul) / (w.mobility_div as int)
}

/// The static score of a position for the side to move, given its legal moves,
/// whether the side to move is in check, and the opponent's replies.
pub open spec fn evaluation(w: Weights, p: PositionModel, moves: Seq<Move>, check: bool, replies: Seq<Move>) -> int {
    if moves.len() == 0 {
        if check {
            -w.mate_score
        } else {
            0
        }
    } else {
        let white = p.white_to_move;
        balance(w, p, white) - (if check { w.check_penalty as int } else { 0 })
            + mobility(w, moves.len() as int)
            + threats_upto(w, p.squares, white, moves, replies, 64)
            + king_term(w, p, white)
            + advance_upto(w, p.squares, white, 64)
    }
}

/// The static score of a position for the side to move.
pub open spec fn static_score(w: Weights, p: PositionModel) -> int {
    evaluation(w, p, legal_moves_of(p), in_check_of(p), opponent_replies(p))
}

/// Whether some move in `moves` goes to `sq` without promoting.
pub fn capture_target(moves: &Vec<Move>, sq: u8) -> (r: bool)
    ensures
        r == capturable(moves@, sq as int),
{
    let mut j: usize = 0;
    while j < moves.len()
        invariant
            j <= moves.len(),
            forall|k: int| 0 <= k < j ==> !(#[trigger] moves@[k].to == sq && moves@[k].promotion is None),
        decreases moves.len() - j,
    {
        if moves[j].to == sq && moves[j].promotion.is_none() {
            return true;
        }
        j = j + 1;
    }
    false
}

/// One bound for the magnitude of what any single square adds to any term.
pub open spec fn cell_bound() -> int {
    3_000_000_000_000
}

pub proof fn lemma_product_bound(a: int, b: int)
    requires
        -1_000_000 <= a <= 1_000_000,
        -1_000_000 <= b <= 1_000_000,
    ensures
        -1_000_000_000_000 <= a * b <= 1_000_000_000_000,
{
    assert(-1_000_000_000_000 <= a * b <= 1_000_000_000_000) by (nonlinear_arith)
        requires
            -1_000_000 <= a <= 1_000_000,
            -1_000_000 <= b <= 1_000_000,
    ;
}

proof fn lemma_value_bounded(w: Weights, kind: u8)
    requires
        w.wf(),
    ensures
        -WEIGHT_BOUND <= w.value(kind) <= WEIGHT_BOUND,
{
}

/// The material-and-center balance, the threat term and the advancement term
/// for the side `white`, over all 64 squares.
fn square_terms(w: &Weights, p: &Position, white: bool, moves: &Vec<Move>, replies: &Vec<Move>) -> (r: (i64, i64, i64))
    requires
        w.wf(),
        p.wf(),
    ensures
        r.0 == balance_upto(*w, p@.squares, white, 64),
        r.1 == threats_upto(*w, p@.squares, white, moves@, replies@, 64),
        r.2 == advance_upto(*w, p@.squares, white, 64),
        -64 * cell_bound() <= r.0 <= 64 * cell_bound(),
        -64 * cell_bound() <= r.1 <= 64 * cell_bound(),
        -64 * cell_bound() <= r.2 <= 64 * cell_bound(),
{
    let mut bal: i64 = 0;
    let mut thr: i64 = 0;
    let mut adv: i64 = 0;
    let mut sq: u8 = 0;
    while sq < 64
        invariant
            sq <= 64,
            w.wf(),
            p.wf(),
            bal == balance_upto(*w, p@.squares, white, sq as int),
            thr == threats_upto(*w, p@.squares, white, moves@, replies@, sq as int),
            adv == advance_upto(*w, p@.squares, white, sq as int),
            -(sq as int) * cell_bound() <= bal <= (sq as int) * cell_bound(),
            -(sq as int) * cell_bound() <= thr <= (sq as int) * cell_bound(),
            -(sq as int) * cell_bound() <= adv <= (sq as int) * cell_bound(),
        decreases 64 - sq,
    {
        let cell = p.occupant(sq);
        match cell {
            Some(occ) => {
                let v = w.piece_value(occ.kind);
                proof {
                    lemma_value_bounded(*w, occ.kind);
                    lemma_product_bound(v as int, w.material_scale as int);
                    lemma_product_bound(v as int, w.threat_scale as int);
                    lemma_product_bound((sq / 8) as int, w.advancement_scale as int);
                    lemma_product_bound(7 - (sq / 8) as int, w.advancement_scale as int);
                }
                let mut c = v * w.material_scale;
                if center_square(sq) {
                    c = c + w.center_bonus;
                }
                if occ.white == white {
                    bal = bal + c;
                    if capture_target(replies, sq) {
                        thr = thr - v * w.threat_scale;
                    }
                } else {
                    bal = bal - c;
                    if capture_target(moves, sq) {
                        thr = thr + v * w.threat_scale;
                    }
                }
                if occ.kind == PAWN {
                    let ranks: i64 = if occ.white { (sq / 8) as i64 } else { 7 - (sq / 8) as i64 };
                    if occ.white == white {
                        adv = adv + ranks * w.advancement_scale;
                    } else {
                        adv = adv - ranks * w.advancement_scale;
                    }
                }
            },
            None => {},
        }
        sq = sq + 1;
    }
    (bal, thr, adv)
}

/// Scores a position for the side to move: a checkmate is `-mate_score`, a
/// stalemate 0, anything else the weighted sum of its terms.
pub fn evaluate(w: &Weights, p: &Position) -> (r: i64)
    requires
        w.wf(),
        p.wf(),
    ensures
        r == static_score(*w, p@),
        -eval_bound() <= r <= eval_bound(),
{
    let moves = p.legal_moves();
    let check = p.in_check();
    if moves.len() == 0 {
        return if check { -w.mate_score } else { 0 };
    }
    let white = p.white_to_move();
    let replies = match p.pass() {
        Some(q) => q.legal_moves(),
        None => Vec::new(),
    };
    assert(replies@ =~= opponent_replies(p@));
    let (bal, thr, adv) = square_terms(w, p, white, &moves, &replies);
    let mut score: i64 = bal;
    if check {
        score = score - w.check_penalty;
    }
    let count: i64 = if moves.len() > MOBILITY_CAP { MOBILITY_CAP as i64 } else { moves.len() as i64 };
    proof {
        lemma_product_bound(count as int, w.mobility_mul as int);
    }
    let mob = (count * w.mobility_mul) / w.mobility_div;
    proof {
        lemma_div_bound(count * w.mobility_mul, w.mobility_div as int);
    }
    score = score + mob + thr;
    let white_home = p.occupant(E1) == Some(Occupant { kind: KING, white: true });
    let black_home = p.occupant(E8) == Some(Occupant { kind: KING, white: false });
    if (white && white_home) || (!white && black_home) {
        score = score + w.king_home_bonus;
    }
    if (white && black_home) || (!white && white_home) {
        score = score - w.king_home_bonus;
    }
    score = score + adv;
    score
}

proof fn lemma_div_bound(a: int, d: int)
    requires
        -1_000_000_000_000 <= a <= 1_000_000_000_000,
        1 <= d,
    ensures
        -1_000_000_000_000 <= a / d <= 1_000_000_000_000,
{
    assert(-1_000_000_000_000 <= a / d <= 1_000_000_000_000) by (nonlinear_arith)
        requires
            -1_000_000_000_000 <= a <= 1_000_000_000_000,
            1 <= d,
    ;
}

/// A bound on the magnitude of every static score.
pub open spec fn eval_bound() -> int {
    1_000_000_000_000_000
}

/// Material and center control, seen from one side, are the exact negation of
/// what they are seen from the other side.
pub proof fn lemma_balance_antisymmetric(w: Weights, p: PositionModel)
    ensures
        balance(w, p, true) == -balance(w, p, false),
{
    lemma_balance_upto_antisymmetric(w, p.squares, 64);
}

/// A position and the same placement with the other side to move score as
/// exact negatives of each other: material, center, threats, king safety and
/// pawn advancement are all counted for one side and against the other. The
/// mobility term counts only the mover's moves, so it must weigh nothing here;
/// both positions have legal moves, neither mover is in check, and the first
/// has no en-passant square (handing over the move erases it).
pub proof fn lemma_evaluation_antisymmetric(w: Weights, p: PositionModel, q: PositionModel)
    requires
        w.mobility_mul == 0,
        w.mobility_div >= 1,
        q == passed(p),
        p.en_passant is None,
        legal_moves_of(p).len() > 0,
        legal_moves_of(q).len() > 0,
        !in_check_of(p),
        !in_check_of(q),
    ensures
        static_score(w, p) == -static_score(w, q),
{
    assert(passed(q) == p);
    lemma_balance_antisymmetric(w, p);
    lemma_threats_antisymmetric(w, p.squares, p.white_to_move, legal_moves_of(p), legal_moves_of(q), 64);
    lemma_advance_antisymmetric(w, p.squares, p.white_to_move, 64);
    let np = if legal_moves_of(p).len() > MOBILITY_CAP { MOBILITY_CAP as int } else { legal_moves_of(p).len() as int };
    let nq = if legal_moves_of(q).len() > MOBILITY_CAP { MOBILITY_CAP as int } else { legal_moves_of(q).len() as int };
    assert(np * 0 == 0);
    assert(nq * 0 == 0);
    assert(mobility(w, legal_moves_of(p).len() as int) == 0);
    assert(mobility(w, legal_moves_of(q).len() as int) == 0);
    if p.white_to_move {
        assert(balance(w, q, q.white_to_move) == balance(w, p, false));
    } else {
        lemma_balance_antisymmetric(w, q);
    }
}

proof fn lemma_threats_antisymmetric(
    w: Weights,
    squares: Seq<Option<Occupant>>,
    white: bool,
    moves: Seq<Move>,
    replies: Seq<Move>,
    n: int,
)
    ensures
        threats_upto(w, squares, white, moves, replies, n) == -threats_upto(w, squares, !white, replies, moves, n),
    decreases n,
{
    if n > 0 {
        lemma_threats_antisymmetric(w, squares, white, moves, replies, n - 1);
    }
}

proof fn lemma_advance_antisymmetric(w: Weights, squares: Seq<Option<Occupant>>, white: bool, n: int)
    ensures
        advance_upto(w, squares, white, n) == -advance_upto(w, squares, !white, n),
    decreases n,
{
    if n > 0 {
        lemma_advance_antisymmetric(w, squares, white, n - 1);
    }
}

/// Material and center control balance out in the initial position.
pub proof fn lemma_initial_balance(w: Weights)
    ensures
        balance(w, initial_model(), true) == 0,
        balance(w, initial_model(), false) == 0,
{
    lemma_initial_prefix(w, 64);
    lemma_balance_antisymmetric(w, initial_model());
}

/// The balance of the first `k` squares of the initial position, seen from White.
pub open spec fn initial_prefix(w: Weights, k: int) -> int {
    let pawns = w.pawn * w.material_scale;
    if k <= 8 {
        partial_back(w, k)
    } else if k <= 16 {
        partial_back(w, 8) + (k - 8) * pawns
    } else if k <= 48 {
        partial_back(w, 8) + 8 * pawns
    } else if k <= 56 {
        partial_back(w, 8) + (56 - k) * pawns
    } else {
        partial_back(w, 8) - partial_back(w, k - 56)
    }
}

proof fn lemma_initial_prefix(w: Weights, k: int)
    requires
        0 <= k <= 64,
    ensures
        balance_upto(w, initial_model().squares, true, k) == initial_prefix(w, k),
    decreases k,
{
    if k > 0 {
        lemma_initial_prefix(w, k - 1);
        let sq = initial_model().squares;
        assert(sq[k - 1] == initial_square(k - 1));
        let pawns = w.pawn * w.material_scale;
        assert(!is_center(k - 1) || sq[k - 1] is None);
        if k <= 8 {
        } else if k <= 16 {
            assert((k - 8) * pawns == (k - 9) * pawns + pawns) by (nonlinear_arith);
            assert(0 * pawns == 0) by (nonlinear_arith);
        } else if k <= 48 {
        } else if k <= 56 {
            assert((56 - k) * pawns == (57 - k) * pawns - pawns) by (nonlinear_arith);
            assert(8 * pawns == (57 - 49) * pawns) by (nonlinear_arith);
        } else {
            assert(0 * pawns == 0) by (nonlinear_arith);
            assert(partial_back(w, k - 56) == partial_back(w, k - 57) + cell_balance(w, sq[k - 57 + 0], k - 57, true))
                by {
                assert(sq[k - 57] == initial_square(k - 57));
            }
        }
    }
}

/// The pawn advancement of the first `k` squares of the initial position, seen
/// from White.
pub open spec fn initial_advance_prefix(w: Weights, k: int) -> int {
    let step = w.advancement_scale as int;
    if k <= 8 {
        0
    } else if k <= 16 {
        (k - 8) * step
    } else if k <= 48 {
        8 * step
    } else if k <= 56 {
        (56 - k) * step
    } else {
        0
    }
}

proof fn lemma_initial_advance(w: Weights, k: int)
    requires
        0 <= k <= 64,
    ensures
        advance_upto(w, initial_model().squares, true, k) == initial_advance_prefix(w, k),
    decreases k,
{
    if k > 0 {
        lemma_initial_advance(w, k - 1);
        let sq = initial_model().squares;
        assert(sq[k - 1] == initial_square(k - 1));
        let step = w.advancement_scale as int;
        if 8 < k <= 16 {
            assert((k - 1) / 8 == 1);
            assert(ranks_advanced(k - 1, true) == 1);
            assert(1 * step == step) by (nonlinear_arith);
            assert((k - 8) * step == (k - 9) * step + step) by (nonlinear_arith);
            assert(0 * step == 0) by (nonlinear_arith);
        } else if 48 < k <= 56 {
            assert((k - 1) / 8 == 6);
            assert(ranks_advanced(k - 1, false) == 1);
            assert(1 * step == step) by (nonlinear_arith);
            assert((56 - k) * step == (57 - k) * step - step) by (nonlinear_arith);
            assert(8 * step == (57 - 49) * step) by (nonlinear_arith);
        } else if k > 56 {
            assert(0 * step == 0) by (nonlinear_arith);
        }
    }
}

/// The material of the first `k` back-rank pieces (rook, knight, bishop,
/// queen, king, bishop, knight, rook).
pub open spec fn partial_back(w: Weights, k: int) -> int
    decreases k,
{
    if k <= 0 {
        0
    } else {
        let file = k - 1;
        let kind: u8 = if file == 0 || file == 7 {
            ROOK
        } else if file == 1 || file == 6 {
            KNIGHT
        } else if file == 2 || file == 5 {
            BISHOP
        } else if file == 3 {
            QUEEN
        } else {
            KING
        };
        partial_back(w, k - 1) + w.value(kind) * w.material_scale
    }
}

/// With no weight on mobility, check or threats, the initial position is
/// neutral: material, center control, king safety and pawn advancement balance out.
pub proof fn lemma_initial_position_neutral(w: Weights)
    requires
        w.mobility_mul == 0,
        w.mobility_div >= 1,
        w.check_penalty == 0,
        w.threat_scale == 0,
        legal_moves_of(initial_model()).len() > 0,
    ensures
        static_score(w, initial_model()) == 0,
{
    let p = initial_model();
    lemma_initial_balance(w);
    assert(p.squares[E1 as int] == initial_square(4));
    assert(p.squares[E8 as int] == initial_square(60));
    lemma_no_threats(w, p.squares, true, legal_moves_of(p), opponent_replies(p), 64);
    lemma_initial_advance(w, 64);
    let n = if legal_moves_of(p).len() > MOBILITY_CAP { MOBILITY_CAP as int } else { legal_moves_of(p).len() as int };
    assert(n * 0 == 0);
    assert(mobility(w, legal_moves_of(p).len() as int) == 0);
}

proof fn lemma_no_threats(
    w: Weights,
    squares: Seq<Option<Occupant>>,
    white: bool,
    moves: Seq<Move>,
    replies: Seq<Move>,
    n: int,
)
    requires
        w.threat_scale == 0,
    ensures
        threats_upto(w, squares, white, moves, replies, n) == 0,
    decreases n,
{
    if n > 0 {
        lemma_no_threats(w, squares, white, moves, replies, n - 1);
        match squares[n - 1] {
            Some(occ) => {
                assert(w.value(occ.kind) * 0 == 0);
            },
            None => {},
        }
    }
}

proof fn lemma_balance_upto_antisymmetric(w: Weights, squares: Seq<Option<Occupant>>, n: int)
    ensures
        balance_upto(w, squares, true, n) == -balance_upto(w, squares, false, n),
    decreases n,
{
    if n > 0 {
        lemma_balance_upto_antisymmetric(w, squares, n - 1);
    }
}

} // verus!
