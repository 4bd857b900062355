//! Exact viewing scores.
//!
//! A block of `n` seats whose coordinates sum to `xsum` and `ysum` has its
//! centre at `(xsum / n, ysum / n)`. Normalised by the map's span
//! (`columns - 1` and `rows - 1`, at least 1) the centre is `(x, y)`, and
//! the block scores `100 - 70 |x - 1/2| - 45 |y - 33/50|`, defined only from
//! `y >= 1/5` on. Scores are kept as exact fractions.
use vstd::prelude::*;

use crate::domain::Score;

verus! {

/// The normalising span of a map dimension: one less than it, at least 1.
pub open spec fn span(v: u16) -> int {
    if v >= 2 {
        v - 1
    } else {
        1
    }
}

pub open spec fn abs(v: int) -> int {
    if v < 0 {
        -v
    } else {
        v
    }
}

/// The score's numerator over the common denominator `20 n c r`.
pub open spec fn visual_numerator(xsum: int, ysum: int, n: int, c: int, r: int) -> int {
    2000 * n * c * r - 700 * r * abs(2 * xsum - n * c) - 9 * c * abs(100 * ysum - 66 * n * r)
}

pub open spec fn visual_denominator(n: int, c: int, r: int) -> int {
    20 * n * c * r
}

/// The block is deep enough in the room to be scored: `y >= 1/5`.
pub open spec fn scored_depth(ysum: int, n: int, r: int) -> bool {
    5 * ysum >= n * r
}

/// The exact score of a block with the given coordinate sums, when defined.
pub open spec fn visual_score_spec(xsum: int, ysum: int, n: int, columns: u16, rows: u16) -> Option<
    Score,
> {
    let c = span(columns);
    let r = span(rows);
    if scored_depth(ysum, n, r) {
        Some(
            Score {
                numerator: visual_numerator(xsum, ysum, n, c, r) as i128,
                denominator: visual_denominator(n, c, r) as u128,
            },
        )
    } else {
        None
    }
}

impl Score {
    pub open spec fn valid(self) -> bool {
        self.denominator > 0 && self.numerator > i128::MIN
    }
}

/// `a` is strictly below `b`.
pub open spec fn score_lt(a: Score, b: Score) -> bool {
    a.numerator * b.denominator < b.numerator * a.denominator
}

/// `a` and `b` are the same rational number.
pub open spec fn score_same(a: Score, b: Score) -> bool {
    a.numerator * b.denominator == b.numerator * a.denominator
}

/// `a` is at least the whole number `v`.
pub open spec fn score_at_least(a: Score, v: int) -> bool {
    a.numerator >= v * a.denominator
}

/// The rational number `v`.
pub open spec fn whole(v: int) -> Score {
    Score { numerator: v as i128, denominator: 1 }
}

/// `a` raised by the whole number `v`.
pub open spec fn score_plus(a: Score, v: int) -> Score {
    Score { numerator: (a.numerator + v * a.denominator) as i128, denominator: a.denominator }
}

/// Scores that a valid block produces stay within these bounds, which keep
/// every comparison and bonus free of overflow.
pub open spec fn bounded(a: Score) -> bool {
    &&& 0 < a.denominator <= 0x40_0000_0000_0000_0000_0000_0000
    &&& -0x2000_0000_0000_0000_0000_0000_0000 <= a.numerator <= 0x2000_0000_0000_0000_0000_0000_0000
}

proof fn lemma_division_step(a: int, b: int, c: int, d: int, q1: int, r1: int, q2: int, r2: int)
    requires
        b > 0,
        d > 0,
        a == q1 * b + r1,
        c == q2 * d + r2,
        0 <= r1 < b,
        0 <= r2 < d,
    ensures
        q1 < q2 ==> a * d < c * b,
        q1 > q2 ==> a * d > c * b,
        q1 == q2 ==> a * d - c * b == r1 * d - r2 * b,
{
    assert(a * d - c * b == (q1 - q2) * (b * d) + r1 * d - r2 * b) by (nonlinear_arith)
        requires
            a == q1 * b + r1,
            c == q2 * d + r2,
    ;
    assert(r1 * d < b * d) by (nonlinear_arith)
        requires
            0 <= r1 < b,
            d > 0,
    ;
    assert(r2 * b < b * d) by (nonlinear_arith)
        requires
            0 <= r2 < d,
            b > 0,
    ;
    assert(r1 * d >= 0 && r2 * b >= 0) by (nonlinear_arith)
        requires
            r1 >= 0,
            r2 >= 0,
            b > 0,
            d > 0,
    ;
    if q1 < q2 {
        assert((q1 - q2) * (b * d) <= -(b * d)) by (nonlinear_arith)
            requires
                q1 < q2,
                b * d > 0,
        ;
    }
    if q1 > q2 {
        assert((q1 - q2) * (b * d) >= b * d) by (nonlinear_arith)
            requires
                q1 > q2,
                b * d > 0,
        ;
    }
    if q1 == q2 {
        assert((q1 - q2) * (b * d) == 0) by (nonlinear_arith)
            requires
                q1 == q2,
        ;
    }
}

/// The sign of `a * d - c * b` for non-negative fractions `a / b` and `c / d`,
/// found by comparing integer parts and then the reciprocals of the remainders.
fn compare_fractions(a: u128, b: u128, c: u128, d: u128) -> (r: i8)
    requires
        b > 0,
        d > 0,
    ensures
        r == -1 <==> a * d < c * b,
        r == 0 <==> a * d == c * b,
        r == 1 <==> a * d > c * b,
    decreases b + d,
{
    let q1 = a / b;
    let r1 = a % b;
    let q2 = c / d;
    let r2 = c % d;
    proof {
        vstd::arithmetic::div_mod::lemma_fundamental_div_mod(a as int, b as int);
        vstd::arithmetic::div_mod::lemma_fundamental_div_mod(c as int, d as int);
        assert(a == q1 * b + r1 && c == q2 * d + r2) by (nonlinear_arith)
            requires
                a == b * q1 + r1,
                c == d * q2 + r2,
        ;
        lemma_division_step(a as int, b as int, c as int, d as int, q1 as int, r1 as int, q2 as int, r2 as int);
    }
    if q1 < q2 {
        assert(a * d < c * b);
        -1
    } else if q1 > q2 {
        assert(a * d > c * b);
        1
    } else if r1 == 0 && r2 == 0 {
        proof {
            assert(r1 * d == 0 && r2 * b == 0) by (nonlinear_arith)
                requires
                    r1 == 0,
                    r2 == 0,
            ;
        }
        0
    } else if r1 == 0 {
        proof {
            assert(r1 * d == 0) by (nonlinear_arith)
                requires
                    r1 == 0,
            ;
            assert(r2 * b > 0) by (nonlinear_arith)
                requires
                    r2 > 0,
                    b > 0,
            ;
        }
        -1
    } else if r2 == 0 {
        proof {
            assert(r2 * b == 0) by (nonlinear_arith)
                requires
                    r2 == 0,
            ;
            assert(r1 * d > 0) by (nonlinear_arith)
                requires
                    r1 > 0,
                    d > 0,
            ;
        }
        1
    } else {
        let inner = compare_fractions(b, r1, d, r2);
        proof {
            assert(b * r2 == r2 * b && d * r1 == r1 * d) by (nonlinear_arith);
            assert(a * d - c * b == r1 * d - r2 * b);
            if inner == -1 {
                assert(a * d > c * b);
            } else if inner == 0 {
                assert(a * d == c * b);
            } else {
                assert(a * d < c * b);
            }
        }
        -inner
    }
}

proof fn lemma_negate_cross(an: int, ad: int, bn: int, bd: int)
    ensures
        an * bd - bn * ad == (-bn) * ad - (-an) * bd,
{
    assert(an * bd - bn * ad == (-bn) * ad - (-an) * bd) by (nonlinear_arith);
}

/// Three-way comparison of two exact scores.
pub fn compare_scores(a: &Score, b: &Score) -> (r: i8)
    requires
        a.valid(),
        b.valid(),
    ensures
        r == -1 <==> score_lt(*a, *b),
        r == 0 <==> score_same(*a, *b),
        r == 1 <==> score_lt(*b, *a),
{
    let an = a.numerator;
    let bn = b.numerator;
    let ad = a.denominator;
    let bd = b.denominator;
    if an < 0 && bn >= 0 {
        proof {
            assert(an * bd < 0) by (nonlinear_arith)
                requires
                    an < 0,
                    bd > 0,
            ;
            assert(bn * ad >= 0) by (nonlinear_arith)
                requires
                    bn >= 0,
                    ad > 0,
            ;
        }
        -1
    } else if an >= 0 && bn < 0 {
        proof {
            assert(bn * ad < 0) by (nonlinear_arith)
                requires
                    bn < 0,
                    ad > 0,
            ;
            assert(an * bd >= 0) by (nonlinear_arith)
                requires
                    an >= 0,
                    bd > 0,
            ;
        }
        1
    } else if an >= 0 {
        compare_fractions(an as u128, ad, bn as u128, bd)
    } else {
        let am: u128 = (-an) as u128;
        let bm: u128 = (-bn) as u128;
        proof {
            lemma_negate_cross(an as int, ad as int, bn as int, bd as int);
        }
        compare_fractions(bm, bd, am, ad)
    }
}

/// Whether a score reaches the whole number `v`.
pub fn reaches(a: &Score, v: i128) -> (r: bool)
    requires
        bounded(*a),
        0 <= v <= 1000,
    ensures
        r == score_at_least(*a, v as int),
{
    proof {
        assert(v * a.denominator <= 1000 * 0x40_0000_0000_0000_0000_0000_0000) by (nonlinear_arith)
            requires
                0 <= v <= 1000,
                a.denominator <= 0x40_0000_0000_0000_0000_0000_0000,
        ;
        assert(v * a.denominator >= 0) by (nonlinear_arith)
            requires
                0 <= v,
                a.denominator >= 0,
        ;
    }
    a.numerator >= v * (a.denominator as i128)
}

/// The score raised by a whole-number bonus.
pub fn plus(a: &Score, v: i128) -> (r: Score)
    requires
        bounded(*a),
        0 <= v <= 1000,
    ensures
        r == score_plus(*a, v as int),
        r.valid(),
{
    proof {
        assert(v * a.denominator <= 1000 * 0x40_0000_0000_0000_0000_0000_0000) by (nonlinear_arith)
            requires
                0 <= v <= 1000,
                a.denominator <= 0x40_0000_0000_0000_0000_0000_0000,
        ;
        assert(v * a.denominator >= 0) by (nonlinear_arith)
            requires
                0 <= v,
                a.denominator >= 0,
        ;
    }
    Score { numerator: a.numerator + v * (a.denominator as i128), denominator: a.denominator }
}

/// The exact score of a block of `n` seats with the given coordinate sums
/// on a map of the given size; `None` when the block is too close to the
/// screen to be scored.
pub fn visual_score(xsum: u128, ysum: u128, n: u128, columns: u16, rows: u16) -> (r: Option<Score>)
    requires
        1 <= n <= 0xFFFF_FFFF_FFFF_FFFF,
        xsum <= n * 65535,
        ysum <= n * 65535,
    ensures
        r == visual_score_spec(xsum as int, ysum as int, n as int, columns, rows),
        r matches Some(s) ==> bounded(s) && s.valid(),
{
    let c: u128 = if columns >= 2 {
        (columns - 1) as u128
    } else {
        1
    };
    let r: u128 = if rows >= 2 {
        (rows - 1) as u128
    } else {
        1
    };
    proof {
        assert(n * r <= 0xFFFF_FFFF_FFFF_FFFF * 65535) by (nonlinear_arith)
            requires
                n <= 0xFFFF_FFFF_FFFF_FFFF,
                r <= 65535,
        ;
        assert(n * 65535 <= 0xFFFF_FFFF_FFFF_FFFF * 65535) by (nonlinear_arith)
            requires
                n <= 0xFFFF_FFFF_FFFF_FFFF,
        ;
    }
    if 5 * ysum < n * r {
        return None;
    }
    proof {
        assert(n * c <= 0xFFFF_FFFF_FFFF_FFFF * 65535) by (nonlinear_arith)
            requires
                n <= 0xFFFF_FFFF_FFFF_FFFF,
                c <= 65535,
        ;
    }
    let nc = n * c;
    proof {
        assert(nc * r <= 0xFFFF_FFFF_FFFF_FFFF * 65535 * 65535) by (nonlinear_arith)
            requires
                nc <= 0xFFFF_FFFF_FFFF_FFFF * 65535,
                r <= 65535,
        ;
        assert(nc >= 1) by (nonlinear_arith)
            requires
                nc == n * c,
                n >= 1,
                c >= 1,
        ;
        assert(nc * r >= 1) by (nonlinear_arith)
            requires
                nc >= 1,
                r >= 1,
        ;
    }
    let ncr = nc * r;
    let nr = n * r;
    let den: u128 = 20 * ncr;
    let base: u128 = 2000 * ncr;
    let twice_x = 2 * xsum;
    let dx: u128 = if twice_x >= nc {
        twice_x - nc
    } else {
        nc - twice_x
    };
    proof {
        assert(dx <= 0xFFFF_FFFF_FFFF_FFFF * 65535 * 2);
        assert(r * dx <= 65535 * (0xFFFF_FFFF_FFFF_FFFF * 65535 * 2)) by (nonlinear_arith)
            requires
                r <= 65535,
                dx <= 0xFFFF_FFFF_FFFF_FFFF * 65535 * 2,
        ;
    }
    let hx: u128 = 700 * (r * dx);
    let hundred_y = 100 * ysum;
    let target_y = 66 * nr;
    let dy: u128 = if hundred_y >= target_y {
        hundred_y - target_y
    } else {
        target_y - hundred_y
    };
    proof {
        assert(nr <= 0xFFFF_FFFF_FFFF_FFFF * 65535);
        assert(dy <= 0xFFFF_FFFF_FFFF_FFFF * 65535 * 100);
        assert(c * dy <= 65535 * (0xFFFF_FFFF_FFFF_FFFF * 65535 * 100)) by (nonlinear_arith)
            requires
                c <= 65535,
                dy <= 0xFFFF_FFFF_FFFF_FFFF * 65535 * 100,
        ;
    }
    let hy: u128 = 9 * (c * dy);
    let numerator: i128 = (base as i128) - (hx as i128) - (hy as i128);
    proof {
        let ci = c as int;
        let ri = r as int;
        let ni = n as int;
        assert(ncr == ni * ci * ri) by (nonlinear_arith)
            requires
                nc == ni * ci,
                ncr == nc * ri,
        ;
        assert(nr == ni * ri);
        let ax = abs(2 * xsum - ni * ci);
        let ay = abs(100 * ysum - 66 * ni * ri);
        assert(dx == ax);
        assert(66 * nr == 66 * ni * ri) by (nonlinear_arith)
            requires
                nr == ni * ri,
        ;
        assert(dy == ay);
        assert(700 * (r * dx) == 700 * ri * ax) by (nonlinear_arith)
            requires
                dx == ax,
                ri == r,
        ;
        assert(9 * (c * dy) == 9 * ci * ay) by (nonlinear_arith)
            requires
                dy == ay,
                ci == c,
        ;
        assert(20 * ncr <= 0x40_0000_0000_0000_0000_0000_0000);
        assert(2000 * ncr <= 0x2000_0000_0000_0000_0000_0000_0000);
        assert(2000 * ncr == 2000 * ni * ci * ri) by (nonlinear_arith)
            requires
                ncr == ni * ci * ri,
        ;
        assert(20 * ncr == 20 * ni * ci * ri) by (nonlinear_arith)
            requires
                ncr == ni * ci * ri,
        ;
    }
    Some(Score { numerator, denominator: den })
}

} // verus!
