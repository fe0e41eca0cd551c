use vstd::prelude::*;
use vstd::string::StringSliceAdditionalSpecFns;

verus! {

/// The state of a left-to-right scan over the start of a board description:
/// the placement field, one space, the side-to-move letter, one more space.
pub ghost struct Scan {
    pub ok: bool,
    /// 0: placement, 1: side letter, 2: the space after it, 3: done.
    pub phase: int,
    pub slashes: int,
    pub file: int,
    pub white_king: bool,
    pub black_king: bool,
    pub white_side: bool,
}

pub open spec fn scan_start() -> Scan {
    Scan { ok: true, phase: 0, slashes: 0, file: 0, white_king: false, black_king: false, white_side: true }
}

pub open spec fn is_white_piece(c: u8) -> bool {
    c == 80 || c == 78 || c == 66 || c == 82 || c == 81 || c == 75  // P N B R Q K
}

pub open spec fn is_black_piece(c: u8) -> bool {
    c == 112 || c == 110 || c == 98 || c == 114 || c == 113 || c == 107  // p n b r q k
}

pub open spec fn fail(t: Scan) -> Scan {
    Scan { ok: false, ..t }
}

/// One byte of the scan. The placement field must be eight ranks of exactly
/// eight files each, so every letter lands on a square of its own.
pub open spec fn scan_step(t: Scan, c: u8) -> Scan {
    if !t.ok {
        t
    } else if t.phase == 0 {
        if c == 32 {
            if t.slashes == 7 && t.file == 8 { Scan { phase: 1, ..t } } else { fail(t) }
        } else if c == 47 {
            if t.file == 8 && t.slashes < 7 { Scan { slashes: t.slashes + 1, file: 0, ..t } } else { fail(t) }
        } else if 49 <= c <= 56 {
            if t.file + (c - 48) <= 8 { Scan { file: t.file + (c - 48), ..t } } else { fail(t) }
        } else if is_white_piece(c) || is_black_piece(c) {
            if t.file < 8 {
                Scan {
                    file: t.file + 1,
                    white_king: t.white_king || c == 75,
                    black_king: t.black_king || c == 107,
                    ..t
                }
            } else {
                fail(t)
            }
        } else {
            fail(t)
        }
    } else if t.phase == 1 {
        if c == 119 || c == 87 {
            Scan { phase: 2, white_side: true, ..t }
        } else if c == 98 || c == 66 {
            Scan { phase: 2, white_side: false, ..t }
        } else {
            fail(t)
        }
    } else if t.phase == 2 {
        if c == 32 { Scan { phase: 3, ..t } } else { fail(t) }
    } else {
        t
    }
}

pub open spec fn scan(b: Seq<u8>, n: int) -> Scan
    decreases n,
{
    if n <= 0 {
        scan_start()
    } else {
        scan_step(scan(b, n - 1), b[n - 1])
    }
}

/// A description whose placement field is a full 8 by 8 board and whose side
/// to move has a king on it.
pub open spec fn placement_sound(b: Seq<u8>) -> bool {
    let t = scan(b, b.len() as int);
    &&& t.ok
    &&& t.phase == 3
    &&& if t.white_side { t.white_king } else { t.black_king }
}

struct ScanState {
    ok: bool,
    phase: u8,
    slashes: u8,
    file: u8,
    white_king: bool,
    black_king: bool,
    white_side: bool,
}

impl ScanState {
    spec fn model(&self) -> Scan {
        Scan {
            ok: self.ok,
            phase: self.phase as int,
            slashes: self.slashes as int,
            file: self.file as int,
            white_king: self.white_king,
            black_king: self.black_king,
            white_side: self.white_side,
        }
    }

    spec fn bounded(&self) -> bool {
        self.phase <= 3 && self.slashes <= 7 && self.file <= 8
    }
}

fn step(t: ScanState, c: u8) -> (r: ScanState)
    requires
        t.bounded(),
    ensures
        r.model() == scan_step(t.model(), c),
        r.bounded(),
{
    let failed = ScanState { ok: false, ..t };
    if !t.ok {
        t
    } else if t.phase == 0 {
        if c == 32 {
            if t.slashes == 7 && t.file == 8 { ScanState { phase: 1, ..t } } else { failed }
        } else if c == 47 {
            if t.file == 8 && t.slashes < 7 { ScanState { slashes: t.slashes + 1, file: 0, ..t } } else { failed }
        } else if 49 <= c && c <= 56 {
            if t.file + (c - 48) <= 8 { ScanState { file: t.file + (c - 48), ..t } } else { failed }
        } else if c == 80 || c == 78 || c == 66 || c == 82 || c == 81 || c == 75 || c == 112 || c == 110
            || c == 98 || c == 114 || c == 113 || c == 107 {
            if t.file < 8 {
                ScanState {
                    file: t.file + 1,
                    white_king: t.white_king || c == 75,
                    black_king: t.black_king || c == 107,
                    ..t
                }
            } else {
                failed
            }
        } else {
            failed
        }
    } else if t.phase == 1 {
        if c == 119 || c == 87 {
            ScanState { phase: 2, white_side: true, ..t }
        } else if c == 98 || c == 66 {
            ScanState { phase: 2, white_side: false, ..t }
        } else {
            failed
        }
    } else if t.phase == 2 {
        if c == 32 { ScanState { phase: 3, ..t } } else { failed }
    } else {
        t
    }
}

/// Whether the description's placement field is a full board on which the
/// side to move has a king.
pub fn check_placement(s: &str) -> (r: bool)
    ensures
        r == placement_sound(s.spec_bytes()),
{
    let b = s.as_bytes();
    let mut t = ScanState {
        ok: true,
        phase: 0,
        slashes: 0,
        file: 0,
        white_king: false,
        black_king: false,
        white_side: true,
    };
    let mut i: usize = 0;
    while i < b.len()
        invariant
            i <= b@.len(),
            b@ == s.spec_bytes(),
            t.bounded(),
            t.model() == scan(b@, i as int),
        decreases b@.len() - i,
    {
        t = step(t, b[i]);
        i = i + 1;
    }
    t.ok && t.phase == 3 && if t.white_side { t.white_king } else { t.black_king }
}

} // verus!
