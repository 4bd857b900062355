//! Orders used to pick the best block: exact scores, and blocks compared
//! seat by seat on `(row, number, x, y, id)`.
use vstd::prelude::*;

use crate::domain::{Score, Seat};
use crate::score::{compare_scores, score_lt, score_same};
use crate::text::{
    compare_text, lemma_text_lt_asymmetric, lemma_text_lt_irreflexive, lemma_text_lt_total,
    lemma_text_lt_transitive, text_lt,
};

verus! {

// ---------------------------------------------------------------------------
// Rational order facts.
// ---------------------------------------------------------------------------
pub proof fn lemma_score_lt_transitive(a: Score, b: Score, c: Score)
    requires
        a.denominator > 0,
        b.denominator > 0,
        c.denominator > 0,
        score_lt(a, b),
        score_lt(b, c),
    ensures
        score_lt(a, c),
{
    let (an, ad, bn, bd, cn, cd) = (
        a.numerator as int,
        a.denominator as int,
        b.numerator as int,
        b.denominator as int,
        c.numerator as int,
        c.denominator as int,
    );
    assert(an * cd < cn * ad) by (nonlinear_arith)
        requires
            ad > 0,
            bd > 0,
            cd > 0,
            an * bd < bn * ad,
            bn * cd < cn * bd,
    {
        assert(an * bd * cd < bn * ad * cd);
        assert(bn * cd * ad < cn * bd * ad);
        assert(an * cd * bd < cn * ad * bd);
    }
}

pub proof fn lemma_score_same_transitive(a: Score, b: Score, c: Score)
    requires
        a.denominator > 0,
        b.denominator > 0,
        c.denominator > 0,
        score_same(a, b),
        score_same(b, c),
    ensures
        score_same(a, c),
{
    let (an, ad, bn, bd, cn, cd) = (
        a.numerator as int,
        a.denominator as int,
        b.numerator as int,
        b.denominator as int,
        c.numerator as int,
        c.denominator as int,
    );
    assert(an * cd == cn * ad) by (nonlinear_arith)
        requires
            ad > 0,
            bd > 0,
            cd > 0,
            an * bd == bn * ad,
            bn * cd == cn * bd,
    {
        assert(an * bd * cd == bn * ad * cd);
        assert(bn * cd * ad == cn * bd * ad);
        assert(an * cd * bd == cn * ad * bd);
    }
}

pub proof fn lemma_score_lt_same(a: Score, b: Score, c: Score)
    requires
        a.denominator > 0,
        b.denominator > 0,
        c.denominator > 0,
    ensures
        score_lt(a, b) && score_same(b, c) ==> score_lt(a, c),
        score_same(a, b) && score_lt(b, c) ==> score_lt(a, c),
{
    let (an, ad, bn, bd, cn, cd) = (
        a.numerator as int,
        a.denominator as int,
        b.numerator as int,
        b.denominator as int,
        c.numerator as int,
        c.denominator as int,
    );
    if score_lt(a, b) && score_same(b, c) {
        assert(an * cd < cn * ad) by (nonlinear_arith)
            requires
                ad > 0,
                bd > 0,
                cd > 0,
                an * bd < bn * ad,
                bn * cd == cn * bd,
        {
            assert(an * bd * cd < bn * ad * cd);
            assert(bn * cd * ad == cn * bd * ad);
            assert(an * cd * bd < cn * ad * bd);
        }
    }
    if score_same(a, b) && score_lt(b, c) {
        assert(an * cd < cn * ad) by (nonlinear_arith)
            requires
                ad > 0,
                bd > 0,
                cd > 0,
                an * bd == bn * ad,
                bn * cd < cn * bd,
        {
            assert(an * bd * cd == bn * ad * cd);
            assert(bn * cd * ad < cn * bd * ad);
            assert(an * cd * bd < cn * ad * bd);
        }
    }
}

// ---------------------------------------------------------------------------
// Block keys.
// ---------------------------------------------------------------------------
/// `a`'s `(row, number, x, y, id)` key is strictly below `b`'s.
pub open spec fn seat_key_lt(a: Seat, b: Seat) -> bool {
    text_lt(a.row@, b.row@) || (a.row@ == b.row@ && (a.number < b.number || (a.number == b.number
        && (a.x < b.x || (a.x == b.x && (a.y < b.y || (a.y == b.y && text_lt(a.id@, b.id@))))))))
}

/// `a` and `b` have the same `(row, number, x, y, id)` key.
pub open spec fn seat_key_eq(a: Seat, b: Seat) -> bool {
    a.row@ == b.row@ && a.number == b.number && a.x == b.x && a.y == b.y && a.id@ == b.id@
}

/// Blocks compared seat by seat by key; a proper prefix sorts first.
pub open spec fn block_key_lt(a: Seq<Seat>, b: Seq<Seat>) -> bool
    decreases a.len(),
{
    if a.len() == 0 {
        b.len() > 0
    } else if b.len() == 0 {
        false
    } else if seat_key_lt(a[0], b[0]) {
        true
    } else if seat_key_lt(b[0], a[0]) {
        false
    } else {
        block_key_lt(a.drop_first(), b.drop_first())
    }
}

proof fn lemma_seat_key_facts(a: Seat, b: Seat, c: Seat)
    ensures
        !seat_key_lt(a, a),
        seat_key_lt(a, b) ==> !seat_key_lt(b, a),
        seat_key_lt(a, b) && seat_key_lt(b, c) ==> seat_key_lt(a, c),
        !seat_key_lt(a, b) && !seat_key_lt(b, a) ==> seat_key_eq(a, b),
{
    lemma_text_lt_irreflexive(a.row@);
    lemma_text_lt_total(a.row@, b.row@);
    if text_lt(a.row@, b.row@) {
        lemma_text_lt_asymmetric(a.row@, b.row@);
    }
    if text_lt(a.row@, b.row@) && text_lt(b.row@, c.row@) {
        lemma_text_lt_transitive(a.row@, b.row@, c.row@);
    }
    if text_lt(b.row@, a.row@) {
        lemma_text_lt_asymmetric(b.row@, a.row@);
    }
    lemma_text_lt_irreflexive(a.id@);
    lemma_text_lt_total(a.id@, b.id@);
    if text_lt(a.id@, b.id@) {
        lemma_text_lt_asymmetric(a.id@, b.id@);
    }
    if text_lt(a.id@, b.id@) && text_lt(b.id@, c.id@) {
        lemma_text_lt_transitive(a.id@, b.id@, c.id@);
    }
}

/// The block order is transitive.
pub proof fn lemma_block_key_transitive(a: Seq<Seat>, b: Seq<Seat>, c: Seq<Seat>)
    requires
        block_key_lt(a, b),
        block_key_lt(b, c),
    ensures
        block_key_lt(a, c),
    decreases a.len(),
{
    if a.len() > 0 && b.len() > 0 && c.len() > 0 {
        lemma_seat_key_facts(a[0], b[0], c[0]);
        lemma_seat_key_facts(b[0], c[0], a[0]);
        lemma_seat_key_facts(a[0], c[0], b[0]);
        lemma_seat_key_facts(c[0], a[0], b[0]);
        lemma_seat_key_facts(b[0], a[0], c[0]);
        lemma_seat_key_facts(c[0], b[0], a[0]);
        if !seat_key_lt(a[0], b[0]) && !seat_key_lt(b[0], a[0]) && !seat_key_lt(b[0], c[0])
            && !seat_key_lt(c[0], b[0]) {
            lemma_block_key_transitive(a.drop_first(), b.drop_first(), c.drop_first());
        }
    }
}

/// The block order is irreflexive.
pub proof fn lemma_block_key_irreflexive(a: Seq<Seat>)
    ensures
        !block_key_lt(a, a),
    decreases a.len(),
{
    if a.len() > 0 {
        lemma_seat_key_facts(a[0], a[0], a[0]);
        lemma_block_key_irreflexive(a.drop_first());
    }
}

/// `a` and `b` have the same key, seat by seat.
pub open spec fn block_key_same(a: Seq<Seat>, b: Seq<Seat>) -> bool {
    a.len() == b.len() && forall|k: int| 0 <= k < a.len() ==> seat_key_eq(#[trigger] a[k], b[k])
}

/// Of two blocks, one sorts before the other or both have the same key.
pub proof fn lemma_block_key_trichotomy(a: Seq<Seat>, b: Seq<Seat>)
    ensures
        block_key_lt(a, b) || block_key_lt(b, a) || block_key_same(a, b),
    decreases a.len(),
{
    if a.len() > 0 && b.len() > 0 {
        lemma_seat_key_facts(a[0], b[0], a[0]);
        lemma_block_key_trichotomy(a.drop_first(), b.drop_first());
        if !seat_key_lt(a[0], b[0]) && !seat_key_lt(b[0], a[0]) && block_key_same(
            a.drop_first(),
            b.drop_first(),
        ) {
            assert forall|k: int| 0 <= k < a.len() implies seat_key_eq(#[trigger] a[k], b[k]) by {
                if k > 0 {
                    assert(a[k] == a.drop_first()[k - 1] && b[k] == b.drop_first()[k - 1]);
                }
            }
        }
    }
}

/// Blocks of the same key sort alike against any other block.
pub proof fn lemma_block_key_congruent(a: Seq<Seat>, b: Seq<Seat>, c: Seq<Seat>)
    requires
        block_key_same(a, b),
    ensures
        block_key_lt(a, c) == block_key_lt(b, c),
        block_key_lt(c, a) == block_key_lt(c, b),
    decreases a.len(),
{
    if a.len() > 0 && c.len() > 0 {
        assert(seat_key_eq(a[0], b[0]));
        assert forall|k: int| 0 <= k < a.drop_first().len() implies seat_key_eq(
            #[trigger] a.drop_first()[k],
            b.drop_first()[k],
        ) by {
            assert(seat_key_eq(a[k + 1], b[k + 1]));
        }
        lemma_block_key_congruent(a.drop_first(), b.drop_first(), c.drop_first());
    }
}

/// Two blocks have the same key exactly when neither sorts before the other.
pub proof fn lemma_block_key_same_iff(a: Seq<Seat>, b: Seq<Seat>)
    ensures
        block_key_same(a, b) <==> (!block_key_lt(a, b) && !block_key_lt(b, a)),
{
    lemma_block_key_trichotomy(a, b);
    if block_key_same(a, b) {
        lemma_block_key_congruent(a, b, b);
        lemma_block_key_irreflexive(b);
    }
}

fn seat_key_compare(a: &Seat, b: &Seat) -> (r: i8)
    ensures
        r < 0 <==> seat_key_lt(*a, *b),
        r > 0 <==> seat_key_lt(*b, *a),
{
    proof {
        lemma_seat_key_facts(*a, *b, *a);
    }
    let c = compare_text(a.row.as_str(), b.row.as_str());
    if c != 0 {
        return c;
    }
    if a.number != b.number {
        return if a.number < b.number {
            -1
        } else {
            1
        };
    }
    if a.x != b.x {
        return if a.x < b.x {
            -1
        } else {
            1
        };
    }
    if a.y != b.y {
        return if a.y < b.y {
            -1
        } else {
            1
        };
    }
    compare_text(a.id.as_str(), b.id.as_str())
}

/// Whether block `a` sorts strictly before block `b`.
pub fn block_key_before(a: &[Seat], b: &[Seat]) -> (r: bool)
    ensures
        r == block_key_lt(a@, b@),
{
    let mut i: usize = 0;
    proof {
        assert(a@.skip(0) =~= a@);
        assert(b@.skip(0) =~= b@);
    }
    while i < a.len() && i < b.len()
        invariant
            i <= a.len(),
            i <= b.len(),
            block_key_lt(a@, b@) == block_key_lt(a@.skip(i as int), b@.skip(i as int)),
        decreases a.len() - i,
    {
        let c = seat_key_compare(&a[i], &b[i]);
        proof {
            assert(a@.skip(i as int)[0] == a@[i as int]);
            assert(b@.skip(i as int)[0] == b@[i as int]);
            assert(a@.skip(i as int).drop_first() =~= a@.skip(i + 1));
            assert(b@.skip(i as int).drop_first() =~= b@.skip(i + 1));
        }
        if c < 0 {
            return true;
        }
        if c > 0 {
            return false;
        }
        i += 1;
    }
    b.len() > i
}

// ---------------------------------------------------------------------------
// Candidate preference.
// ---------------------------------------------------------------------------
/// Block `a` with score `sa` is preferred to block `b` with score `sb`: a
/// higher score, or the same score and a lower block key.
pub open spec fn preferred(sa: Score, a: Seq<Seat>, sb: Score, b: Seq<Seat>) -> bool {
    score_lt(sb, sa) || (score_same(sa, sb) && block_key_lt(a, b))
}

/// Preference is transitive.
pub proof fn lemma_preferred_transitive(
    sa: Score,
    a: Seq<Seat>,
    sb: Score,
    b: Seq<Seat>,
    sc: Score,
    c: Seq<Seat>,
)
    requires
        sa.denominator > 0,
        sb.denominator > 0,
        sc.denominator > 0,
        preferred(sa, a, sb, b),
        preferred(sb, b, sc, c),
    ensures
        preferred(sa, a, sc, c),
{
    lemma_score_lt_same(sc, sb, sa);
    lemma_score_lt_same(sa, sb, sc);
    if score_lt(sb, sa) && score_lt(sc, sb) {
        lemma_score_lt_transitive(sc, sb, sa);
    }
    if score_same(sa, sb) && score_same(sb, sc) {
        lemma_score_same_transitive(sa, sb, sc);
        lemma_block_key_transitive(a, b, c);
    }
    if score_same(sa, sb) && score_lt(sc, sb) {
        lemma_score_lt_same(sc, sb, sa);
    }
    if score_lt(sb, sa) && score_same(sb, sc) {
        lemma_score_lt_same(sc, sb, sa);
    }
}

/// Whether block `a` with score `sa` is preferred to block `b` with score `sb`.
pub fn is_preferred(sa: &Score, a: &[Seat], sb: &Score, b: &[Seat]) -> (r: bool)
    requires
        sa.valid(),
        sb.valid(),
    ensures
        r == preferred(*sa, a@, *sb, b@),
{
    let c = compare_scores(sa, sb);
    if c == 1 {
        true
    } else if c == 0 {
        block_key_before(a, b)
    } else {
        proof {
            assert(score_lt(*sa, *sb));
            assert(!score_lt(*sb, *sa));
            assert(!score_same(*sa, *sb));
        }
        false
    }
}

} // verus!
