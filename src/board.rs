use vstd::prelude::*;
use chess::{Board, Color, MoveGen, ALL_PIECES, ALL_SQUARES};
use std::str::FromStr;
use vstd::string::StringSliceAdditionalSpecFns;
use crate::fen::{check_placement, placement_sound};

verus! {

/// Piece kinds, numbered as the rules engine numbers them.
pub const PAWN: u8 = 0;
pub const KNIGHT: u8 = 1;
pub const BISHOP: u8 = 2;
pub const ROOK: u8 = 3;
pub const QUEEN: u8 = 4;
pub const KING: u8 = 5;

/// Square indices are `rank * 8 + file`, with a1 = 0 and h8 = 63.
pub const E1: u8 = 4;
pub const E8: u8 = 60;

/// A piece standing on a square.
#[derive(Clone, Copy, PartialEq, Eq, Structural, Debug)]
pub struct Occupant {
    pub kind: u8,
    pub white: bool,
}

/// A move: source square, destination square, optional promotion piece.
#[derive(Clone, Copy, PartialEq, Eq, Structural, Debug)]
pub struct Move {
    pub from: u8,
    pub to: u8,
    pub promotion: Option<u8>,
}

/// The plain description of a position: everything the rules engine keeps
/// about a board, from which it derives the rest.
pub ghost struct PositionModel {
    pub squares: Seq<Option<Occupant>>,
    pub white_to_move: bool,
    pub white_castle: u8,
    pub black_castle: u8,
    pub en_passant: Option<u8>,
}

/// Raised when a board description cannot be read.
#[derive(Clone, Copy, PartialEq, Eq, Structural, Debug)]
pub struct ParseError;

#[verifier::external_type_specification]
#[verifier::external_body]
pub struct ExBoard(chess::Board);

#[verifier::external_type_specification]
#[verifier::external_body]
pub struct ExChessError(chess::Error);

/// The legal moves that the rules engine enumerates for a position, in its order.
pub uninterp spec fn legal_moves_of(p: PositionModel) -> Seq<Move>;

/// Whether the side to move is in check.
pub uninterp spec fn in_check_of(p: PositionModel) -> bool;

/// The rules engine's hash of a position.
pub uninterp spec fn hash_of(p: PositionModel) -> u64;

/// The position after a legal move.
pub uninterp spec fn successor_of(p: PositionModel, m: Move) -> PositionModel;

pub open spec fn valid_occupant(o: Option<Occupant>) -> bool {
    match o {
        Some(occ) => occ.kind <= KING,
        None => true,
    }
}

pub open spec fn valid_move(m: Move) -> bool {
    &&& m.from < 64
    &&& m.to < 64
    &&& match m.promotion {
        Some(k) => k <= KING,
        None => true,
    }
}

/// The shape that every description read from a board has.
pub open spec fn model_shape(p: PositionModel) -> bool {
    &&& p.squares.len() == 64
    &&& forall|i: int| 0 <= i < 64 ==> valid_occupant(#[trigger] p.squares[i])
}

/// The number of pieces of one side among the first `n` squares.
pub open spec fn count_side(squares: Seq<Option<Occupant>>, white: bool, n: int) -> int
    decreases n,
{
    if n <= 0 {
        0
    } else {
        count_side(squares, white, n - 1) + match squares[n - 1] {
            Some(o) => if o.white == white { 1int } else { 0int },
            None => 0int,
        }
    }
}

/// The most pieces a side may have: the rules engine's move generator keeps
/// room for at most 18 movable pieces of the side to move.
pub const MAX_SIDE_PIECES: u8 = 16;

/// A description the engine works on: the shape of a board, and at most 16
/// pieces on each side.
pub open spec fn model_wf(p: PositionModel) -> bool {
    &&& model_shape(p)
    &&& count_side(p.squares, true, 64) <= MAX_SIDE_PIECES
    &&& count_side(p.squares, false, 64) <= MAX_SIDE_PIECES
}

/// The occupant of square `i` in the standard initial position.
pub open spec fn initial_square(i: int) -> Option<Occupant> {
    let file = i % 8;
    let back = if file == 0 || file == 7 {
        ROOK
    } else if file == 1 || file == 6 {
        KNIGHT
    } else if file == 2 || file == 5 {
        BISHOP
    } else if file == 3 {
        QUEEN
    } else {
        KING
    };
    if 0 <= i < 8 {
        Some(Occupant { kind: back, white: true })
    } else if 8 <= i < 16 {
        Some(Occupant { kind: PAWN, white: true })
    } else if 48 <= i < 56 {
        Some(Occupant { kind: PAWN, white: false })
    } else if 56 <= i < 64 {
        Some(Occupant { kind: back, white: false })
    } else {
        None
    }
}

/// The standard initial position: White to move, both sides with both castling
/// rights (castling rights are numbered 0 none, 1 king side, 2 queen side,
/// 3 both), no en-passant square.
pub open spec fn initial_model() -> PositionModel {
    PositionModel {
        squares: Seq::new(64, |i: int| initial_square(i)),
        white_to_move: true,
        white_castle: 3,
        black_castle: 3,
        en_passant: None,
    }
}

/// What the rules engine reads from a board description (FEN), if it accepts it.
pub uninterp spec fn parsed_of(s: Seq<u8>) -> Option<PositionModel>;

/// The game status of a position, as the rules engine derives it from the
/// number of legal moves and the check state.
#[derive(Clone, Copy, PartialEq, Eq, Structural, Debug)]
pub enum Status {
    Ongoing,
    Stalemate,
    Checkmate,
}

pub open spec fn status_of(p: PositionModel) -> Status {
    if legal_moves_of(p).len() > 0 {
        Status::Ongoing
    } else if in_check_of(p) {
        Status::Checkmate
    } else {
        Status::Stalemate
    }
}

pub open spec fn is_checkmate(p: PositionModel) -> bool {
    status_of(p) == Status::Checkmate
}

pub open spec fn is_terminal(p: PositionModel) -> bool {
    legal_moves_of(p).len() == 0
}

/// A position: a board of the rules engine together with its plain description.
/// Positions are only made by reading a board, so the description always
/// determines the board beside it.
pub struct Position {
    board: Board,
    squares: Vec<Option<Occupant>>,
    white_to_move: bool,
    white_castle: u8,
    black_castle: u8,
    en_passant: Option<u8>,
}

impl View for Position {
    type V = PositionModel;

    closed spec fn view(&self) -> PositionModel {
        PositionModel {
            squares: self.squares@,
            white_to_move: self.white_to_move,
            white_castle: self.white_castle,
            black_castle: self.black_castle,
            en_passant: self.en_passant,
        }
    }
}

/// Relies on `Board::piece_on`, `Board::color_on`, `Board::side_to_move`,
/// `Board::castle_rights` and `Board::en_passant`: reads a board into its description,
/// one entry for each of the 64 squares of `ALL_SQUARES`, pieces by `Piece::to_index`.
#[verifier::external_body]
fn describe(b: Board) -> (r: Position)
    ensures
        model_shape(r@),
{
    let squares = ALL_SQUARES.iter().map(|&s| {
        b.piece_on(s).zip(b.color_on(s)).map(|(k, c)| Occupant { kind: k.to_index() as u8, white: c == Color::White })
    }).collect();
    Position {
        board: b,
        squares,
        white_to_move: b.side_to_move() == Color::White,
        white_castle: b.castle_rights(Color::White).to_index() as u8,
        black_castle: b.castle_rights(Color::Black).to_index() as u8,
        en_passant: b.en_passant().map(|s| s.to_int()),
    }
}

/// Relies on `Board::default`, which parses the standard initial position's FEN
/// `rnbqkbnr/pppppppp/8/8/8/8/PPPPPPPP/RNBQKBNR w KQkq - 0 1`.
#[verifier::external_body]
fn default_board() -> (r: Position)
    ensures
        r@ == initial_model(),
        model_shape(r@),
{
    describe(Board::default())
}

/// Relies on `Board::from_str`. Building the board looks up the king of the side
/// to move before any sanity check, so that king must be on the board.
#[verifier::external_body]
fn parse_board(s: &str) -> (r: Result<Position, chess::Error>)
    requires
        placement_sound(s.spec_bytes()),
    ensures
        r is Ok <==> parsed_of(s.spec_bytes()) is Some,
        r is Ok ==> r->Ok_0@ == parsed_of(s.spec_bytes())->Some_0 && model_shape(r->Ok_0@),
{
    Board::from_str(s).map(describe)
}

/// Relies on `MoveGen::new_legal`: the legal moves of the board, in the generator's
/// order. The generator has room for 18 movable pieces of the side to move.
#[verifier::external_body]
fn generate_moves(p: &Position) -> (r: Vec<Move>)
    requires
        model_wf(p@),
    ensures
        r@ == legal_moves_of(p@),
        forall|i: int| 0 <= i < r.len() ==> valid_move(#[trigger] r@[i]),
{
    MoveGen::new_legal(&p.board).map(|m| Move {
        from: m.get_source().to_int(),
        to: m.get_dest().to_int(),
        promotion: m.get_promotion().map(|k| k.to_index() as u8),
    }).collect()
}

/// Relies on `Board::checkers`: the side to move is in check when some piece gives check.
#[verifier::external_body]
fn checked(p: &Position) -> (r: bool)
    ensures
        r == in_check_of(p@),
{
    p.board.checkers().popcnt() > 0
}

/// Relies on `Board::get_hash`: the position's hash.
#[verifier::external_body]
fn board_hash(p: &Position) -> (r: u64)
    ensures
        r == hash_of(p@),
{
    p.board.get_hash()
}

/// The same placement with the other side to move and no en-passant square.
pub open spec fn passed(p: PositionModel) -> PositionModel {
    PositionModel {
        squares: p.squares,
        white_to_move: !p.white_to_move,
        white_castle: p.white_castle,
        black_castle: p.black_castle,
        en_passant: None,
    }
}

/// Relies on `Board::null_move`: none while the side to move is in check, else
/// the board with the other side to move and the en-passant square erased.
#[verifier::external_body]
fn null_move(p: &Position) -> (r: Option<Position>)
    ensures
        r is None <==> in_check_of(p@),
        r is Some ==> r->Some_0@ == passed(p@) && model_shape(r->Some_0@),
{
    p.board.null_move().map(describe)
}

/// Relies on `Board::make_move_new`, which does not panic on a legal move. A
/// move never adds a piece to either side: it captures, moves, castles or
/// turns a pawn into another piece.
#[verifier::external_body]
fn play(p: &Position, m: Move) -> (r: Position)
    requires
        legal_moves_of(p@).contains(m),
    ensures
        r@ == successor_of(p@, m),
        model_shape(r@),
        count_side(r@.squares, true, 64) <= count_side(p@.squares, true, 64),
        count_side(r@.squares, false, 64) <= count_side(p@.squares, false, 64),
{
    let promotion = m.promotion.map(|k| ALL_PIECES[k as usize]);
    let cm = chess::ChessMove::new(ALL_SQUARES[m.from as usize], ALL_SQUARES[m.to as usize], promotion);
    describe(p.board.make_move_new(cm))
}

impl Position {
    pub open spec fn wf(&self) -> bool {
        model_wf(self@)
    }

    /// The standard initial position.
    pub fn initial() -> (r: Position)
        ensures
            r@ == initial_model(),
            r.wf(),
    {
        let p = default_board();
        proof {
            lemma_initial_counts();
        }
        p
    }

    /// Reads a position from its board description (FEN). It is refused when
    /// the placement field is not a full 8 by 8 board with a king for the side
    /// to move, when the rules engine does not accept it, or when a side has
    /// more than 16 pieces.
    pub fn from_fen(s: &str) -> (r: Result<Position, ParseError>)
        ensures
            r is Ok <==> placement_sound(s.spec_bytes()) && parsed_of(s.spec_bytes()) is Some
                && model_wf(parsed_of(s.spec_bytes())->Some_0),
            r is Ok ==> r->Ok_0@ == parsed_of(s.spec_bytes())->Some_0 && r->Ok_0.wf(),
    {
        if !check_placement(s) {
            return Err(ParseError);
        }
        match parse_board(s) {
            Ok(p) => {
                if count_side_exec(&p.squares, true) <= MAX_SIDE_PIECES as usize
                    && count_side_exec(&p.squares, false) <= MAX_SIDE_PIECES as usize {
                    Ok(p)
                } else {
                    Err(ParseError)
                }
            },
            Err(_) => Err(ParseError),
        }
    }

    /// The piece on square `sq`, if any.
    pub fn occupant(&self, sq: u8) -> (r: Option<Occupant>)
        requires
            self.wf(),
            sq < 64,
        ensures
            r == self@.squares[sq as int],
    {
        self.squares[sq as usize]
    }

    pub fn white_to_move(&self) -> (r: bool)
        ensures
            r == self@.white_to_move,
    {
        self.white_to_move
    }

    /// The legal moves, in the rules engine's order.
    pub fn legal_moves(&self) -> (r: Vec<Move>)
        requires
            self.wf(),
        ensures
            r@ == legal_moves_of(self@),
            forall|i: int| 0 <= i < r.len() ==> valid_move(#[trigger] r@[i]),
    {
        generate_moves(self)
    }

    pub fn in_check(&self) -> (r: bool)
        ensures
            r == in_check_of(self@),
    {
        checked(self)
    }

    pub fn hash(&self) -> (r: u64)
        ensures
            r == hash_of(self@),
    {
        board_hash(self)
    }

    /// The position after the legal move `m`.
    pub fn apply(&self, m: Move) -> (r: Position)
        requires
            self.wf(),
            legal_moves_of(self@).contains(m),
        ensures
            r@ == successor_of(self@, m),
            r.wf(),
    {
        play(self, m)
    }

    /// Hands the move to the other side without moving; none while in check.
    pub fn pass(&self) -> (r: Option<Position>)
        requires
            self.wf(),
        ensures
            r is None <==> in_check_of(self@),
            r is Some ==> r->Some_0@ == passed(self@) && r->Some_0.wf(),
    {
        null_move(self)
    }

    /// Whether `m` is among the legal moves.
    pub fn is_legal(&self, m: Move) -> (r: bool)
        requires
            self.wf(),
        ensures
            r == legal_moves_of(self@).contains(m),
    {
        let moves = self.legal_moves();
        contains_move(&moves, m)
    }

    /// Ongoing, checkmate or stalemate.
    pub fn status(&self) -> (r: Status)
        requires
            self.wf(),
        ensures
            r == status_of(self@),
    {
        let moves = self.legal_moves();
        status_from(moves.len(), self.in_check())
    }

    /// The number of pieces on the board.
    pub fn piece_count(&self) -> (r: usize)
        requires
            self.wf(),
        ensures
            r == count_pieces(self@.squares, 64),
    {
        let mut n: usize = 0;
        let mut i: usize = 0;
        while i < 64
            invariant
                i <= 64,
                self.wf(),
                n == count_pieces(self@.squares, i as int),
                n <= i,
            decreases 64 - i,
        {
            if self.squares[i].is_some() {
                n = n + 1;
            }
            i = i + 1;
        }
        n
    }
}

/// The number of pieces of one side on the board.
fn count_side_exec(squares: &Vec<Option<Occupant>>, white: bool) -> (r: usize)
    requires
        squares.len() == 64,
    ensures
        r == count_side(squares@, white, 64),
{
    let mut n: usize = 0;
    let mut i: usize = 0;
    while i < 64
        invariant
            i <= 64,
            squares.len() == 64,
            n == count_side(squares@, white, i as int),
            n <= i,
        decreases 64 - i,
    {
        match squares[i] {
            Some(o) => {
                if o.white == white {
                    n = n + 1;
                }
            },
            None => {},
        }
        i = i + 1;
    }
    n
}

/// Each side has 16 pieces in the initial position.
proof fn lemma_initial_counts()
    ensures
        count_side(initial_model().squares, true, 64) == 16,
        count_side(initial_model().squares, false, 64) == 16,
{
    let sq = initial_model().squares;
    reveal_with_fuel(count_side, 65);
    assert(count_side(sq, true, 64) == 16);
    assert(count_side(sq, false, 64) == 16);
}

/// The number of occupied squares among the first `n`.
pub open spec fn count_pieces(squares: Seq<Option<Occupant>>, n: int) -> int
    decreases n,
{
    if n <= 0 {
        0
    } else {
        count_pieces(squares, n - 1) + if squares[n - 1] is Some { 1int } else { 0int }
    }
}

/// The status that `n` legal moves and a check state give.
pub fn status_from(n: usize, check: bool) -> (r: Status)
    ensures
        r == (if n > 0 {
            Status::Ongoing
        } else if check {
            Status::Checkmate
        } else {
            Status::Stalemate
        }),
{
    if n > 0 {
        Status::Ongoing
    } else if check {
        Status::Checkmate
    } else {
        Status::Stalemate
    }
}

/// Whether `m` occurs in `moves`.
pub fn contains_move(moves: &Vec<Move>, m: Move) -> (r: bool)
    ensures
        r == moves@.contains(m),
{
    let mut i: usize = 0;
    while i < moves.len()
        invariant
            i <= moves.len(),
            forall|j: int| 0 <= j < i ==> moves@[j] != m,
        decreases moves.len() - i,
    {
        if moves[i] == m {
            return true;
        }
        i = i + 1;
    }
    false
}

} // verus!
