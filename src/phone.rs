use vstd::prelude::*;

verus! {

/// Coordinates and distances are fixed-point numbers: `SCALE` stands for 1.0.
pub const SCALE: u32 = 1_000_000;

/// Weight of a vowel-to-vowel distance (2.0).
pub const VOWEL_WEIGHT: u64 = 2;

/// Penalty for a vowel pair that differs on both axes (0.1).
pub const IMPERFECT_PUNISH: u64 = 100_000;

/// Penalty for consonants in different rows (0.5).
pub const ROW_PUNISH: u64 = 500_000;

/// Penalty for consonants in different columns (0.1).
pub const COL_PUNISH: u64 = 100_000;

/// Base cost of matching a consonant against silence (0.15).
pub const SILENT_BASE: u64 = 150_000;

/// One articulatory unit. A vowel or a consonant sits at a point of its chart,
/// each coordinate between 0 and `SCALE`; `Silent` is a placeholder inserted
/// only to align pronunciations.
#[derive(Clone, Copy, Debug, PartialEq, Eq, Structural)]
pub enum Phone {
    Vowel(u32, u32),
    Consonant(u32, u32),
    Silent,
}

impl Phone {
    pub open spec fn wf(self) -> bool {
        match self {
            Phone::Vowel(x, y) => x <= SCALE && y <= SCALE,
            Phone::Consonant(x, y) => x <= SCALE && y <= SCALE,
            Phone::Silent => true,
        }
    }

    pub open spec fn vowel(self) -> bool {
        self is Vowel
    }

    pub fn is_vowel(&self) -> (r: bool)
        ensures
            r == self.vowel(),
    {
        matches!(self, Phone::Vowel(..))
    }

    /// Distance between two phones of the same category (a silent placeholder
    /// counts as a consonant).
    pub fn distance(&self, other: &Phone) -> (r: u64)
        requires
            self.wf(),
            other.wf(),
            self.vowel() == other.vowel(),
        ensures
            r == phone_dist(*self, *other),
            r <= 5 * SCALE,
    {
        match (self, other) {
            (Phone::Vowel(x_1, y_1), Phone::Vowel(x_2, y_2)) => vowel_distance(*x_1, *x_2, *y_1, *y_2),
            (Phone::Consonant(x_1, y_1), Phone::Consonant(x_2, y_2)) => consonant_distance(
                *x_1,
                *x_2,
                *y_1,
                *y_2,
            ),
            (Phone::Silent, Phone::Silent) => 0,
            (Phone::Silent, Phone::Consonant(_, y)) => silent_consonant_distance(*y),
            (Phone::Consonant(_, y), Phone::Silent) => silent_consonant_distance(*y),
            (Phone::Vowel(..), _) => 0,
            (_, Phone::Vowel(..)) => 0,
        }
    }
}

pub open spec fn abs_diff(a: u32, b: u32) -> nat {
    if a >= b {
        (a - b) as nat
    } else {
        (b - a) as nat
    }
}

pub open spec fn is_isqrt(n: nat, r: nat) -> bool {
    r * r <= n && n < (r + 1) * (r + 1)
}

/// The integer square root of `n`, rounded down.
pub open spec fn isqrt_spec(n: nat) -> nat {
    choose|r: nat| is_isqrt(n, r)
}

proof fn lemma_isqrt_unique(n: nat, r: nat, s: nat)
    requires
        is_isqrt(n, r),
        is_isqrt(n, s),
    ensures
        r == s,
{
    if r < s {
        assert((r + 1) * (r + 1) <= s * s) by (nonlinear_arith)
            requires r + 1 <= s;
    } else if s < r {
        assert((s + 1) * (s + 1) <= r * r) by (nonlinear_arith)
            requires s + 1 <= r;
    }
}

/// Euclidean length of a difference vector, in fixed point.
pub open spec fn norm(dx: nat, dy: nat) -> nat {
    isqrt_spec(dx * dx + dy * dy)
}

pub open spec fn vowel_dist(x_1: u32, x_2: u32, y_1: u32, y_2: u32) -> nat {
    let dx = abs_diff(x_1, x_2);
    let dy = abs_diff(y_1, y_2);
    let punish: nat = if dx != 0 && dy != 0 { IMPERFECT_PUNISH as nat } else { 0 };
    (norm(dx, dy) + punish) * VOWEL_WEIGHT as nat
}

/// `(norm + row + column penalties) / 1.6 * 0.25`, where `0.25 / 1.6 == 5 / 32`.
pub open spec fn consonant_dist(x_1: u32, x_2: u32, y_1: u32, y_2: u32) -> nat {
    let dx = abs_diff(x_1, x_2);
    let dy = abs_diff(y_1, y_2);
    let row: nat = if dy != 0 { ROW_PUNISH as nat } else { 0 };
    let col: nat = if dx != 0 { COL_PUNISH as nat } else { 0 };
    (norm(dx, dy) + row + col) * 5 / 32
}

/// `2 * |y - 0.5| * 0.25 + 0.15`: a consonant near the middle row is closest to silence.
pub open spec fn silent_consonant_dist(y: u32) -> nat {
    abs_diff(y, SCALE / 2) / 2 + SILENT_BASE as nat
}

/// Distance between two phones; a vowel against a non-vowel never gets compared.
pub open spec fn phone_dist(a: Phone, b: Phone) -> nat {
    match (a, b) {
        (Phone::Vowel(x_1, y_1), Phone::Vowel(x_2, y_2)) => vowel_dist(x_1, x_2, y_1, y_2),
        (Phone::Consonant(x_1, y_1), Phone::Consonant(x_2, y_2)) => consonant_dist(
            x_1,
            x_2,
            y_1,
            y_2,
        ),
        (Phone::Silent, Phone::Consonant(_, y)) => silent_consonant_dist(y),
        (Phone::Consonant(_, y), Phone::Silent) => silent_consonant_dist(y),
        _ => 0,
    }
}

/// The pairwise distance does not depend on the order of its arguments.
pub proof fn lemma_phone_dist_symmetric(a: Phone, b: Phone)
    ensures
        phone_dist(a, b) == phone_dist(b, a),
{
    match (a, b) {
        (Phone::Vowel(x_1, y_1), Phone::Vowel(x_2, y_2)) => {
            assert(abs_diff(x_1, x_2) == abs_diff(x_2, x_1));
            assert(abs_diff(y_1, y_2) == abs_diff(y_2, y_1));
        },
        (Phone::Consonant(x_1, y_1), Phone::Consonant(x_2, y_2)) => {
            assert(abs_diff(x_1, x_2) == abs_diff(x_2, x_1));
            assert(abs_diff(y_1, y_2) == abs_diff(y_2, y_1));
        },
        _ => {},
    }
}

/// A phone is at distance zero from itself.
pub proof fn lemma_phone_dist_self(a: Phone)
    ensures
        phone_dist(a, a) == 0,
{
    assert(is_isqrt(0, 0)) by (nonlinear_arith);
    lemma_isqrt_unique(0, 0, isqrt_spec(0));
}

/// Integer square root, rounded down.
pub fn isqrt(n: u64) -> (r: u64)
    requires
        n < 0x400_0000_0000,
    ensures
        r == isqrt_spec(n as nat),
        r < 0x20_0000,
{
    let mut lo: u64 = 0;
    let mut hi: u64 = 0x20_0000;
    assert(hi * hi == 0x400_0000_0000) by (nonlinear_arith)
        requires hi == 0x20_0000;
    while hi - lo > 1
        invariant
            lo < hi <= 0x20_0000,
            lo * lo <= n,
            n < hi * hi,
        decreases hi - lo,
    {
        let mid = lo + (hi - lo) / 2;
        assert(mid * mid <= 0x20_0000 * 0x20_0000) by (nonlinear_arith)
            requires mid <= 0x20_0000;
        if mid * mid <= n {
            lo = mid;
        } else {
            hi = mid;
        }
    }
    proof {
        assert(is_isqrt(n as nat, lo as nat));
        lemma_isqrt_unique(n as nat, lo as nat, isqrt_spec(n as nat));
    }
    lo
}

fn diff(a: u32, b: u32) -> (r: u64)
    ensures
        r == abs_diff(a, b),
{
    if a >= b {
        (a - b) as u64
    } else {
        (b - a) as u64
    }
}

fn norm_exec(dx: u64, dy: u64) -> (r: u64)
    requires
        dx <= SCALE,
        dy <= SCALE,
    ensures
        r == norm(dx as nat, dy as nat),
        r < 0x20_0000,
{
    assert(dx * dx <= 1_000_000 * 1_000_000) by (nonlinear_arith)
        requires dx <= 1_000_000;
    assert(dy * dy <= 1_000_000 * 1_000_000) by (nonlinear_arith)
        requires dy <= 1_000_000;
    isqrt(dx * dx + dy * dy)
}

/// Distance between two vowels at `(x_1, y_1)` and `(x_2, y_2)`.
pub fn vowel_distance(x_1: u32, x_2: u32, y_1: u32, y_2: u32) -> (r: u64)
    requires
        x_1 <= SCALE,
        x_2 <= SCALE,
        y_1 <= SCALE,
        y_2 <= SCALE,
    ensures
        r == vowel_dist(x_1, x_2, y_1, y_2),
        r <= 5 * SCALE,
{
    let x_diff = diff(x_1, x_2);
    let y_diff = diff(y_1, y_2);
    let imperfect_punish: u64 = if x_diff != 0 && y_diff != 0 {
        IMPERFECT_PUNISH
    } else {
        0
    };
    (norm_exec(x_diff, y_diff) + imperfect_punish) * VOWEL_WEIGHT
}

/// Distance between two consonants at `(x_1, y_1)` and `(x_2, y_2)`.
pub fn consonant_distance(x_1: u32, x_2: u32, y_1: u32, y_2: u32) -> (r: u64)
    requires
        x_1 <= SCALE,
        x_2 <= SCALE,
        y_1 <= SCALE,
        y_2 <= SCALE,
    ensures
        r == consonant_dist(x_1, x_2, y_1, y_2),
        r <= 5 * SCALE,
{
    let x_diff = diff(x_1, x_2);
    let y_diff = diff(y_1, y_2);
    let row_punish: u64 = if y_diff == 0 {
        0
    } else {
        ROW_PUNISH
    };
    let col_punish: u64 = if x_diff == 0 {
        0
    } else {
        COL_PUNISH
    };
    (norm_exec(x_diff, y_diff) + row_punish + col_punish) * 5 / 32
}

/// Distance between silence and a consonant in row `y`.
pub fn silent_consonant_distance(y: u32) -> (r: u64)
    requires
        y <= SCALE,
    ensures
        r == silent_consonant_dist(y),
        r <= 5 * SCALE,
{
    diff(y, SCALE / 2) / 2 + SILENT_BASE
}

} // verus!
