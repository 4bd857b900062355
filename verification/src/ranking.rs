//! Preference-aware ordering of viewing assessments.
use vstd::prelude::*;

use crate::domain::{
    Preferences, Quality, Recommendation, Score, Seat, SeatingArrangement, Showtime, StartTime,
    contains_text_item, has_text, same_showtime, texts,
};
use crate::order::{lemma_score_lt_same, lemma_score_lt_transitive, lemma_score_same_transitive};
use crate::score::{bounded, compare_scores, plus, score_lt, score_plus, score_same};
use crate::text::{compare_text, lemma_text_lt_asymmetric, lemma_text_lt_irreflexive,
    lemma_text_lt_total, lemma_text_lt_transitive, owned, text_lt};
use crate::viewing::{ViewingAssessment, alike_blocks, assess, assessed, lemma_assessment_determined};

verus! {

/// The bonus a favorite venue adds to the ranking score.
pub const FAVORITE_VENUE_BONUS: i128 = 8;

/// The reason added for a favorite venue.
pub open spec fn favorite_reason() -> Seq<char> {
    "Sede favorita"@
}

/// The showtime's venue is among the favorites.
pub open spec fn is_favorite(st: Showtime, p: Preferences) -> bool {
    has_text(p.favorite_venue_ids@, st.venue_id@)
}

/// `rec` presents assessment `a` of `st` under preferences `p`: the same
/// block, arrangement, quality and visual score; the ranking score raised by
/// the favorite bonus, and the favorite reason appended, exactly when the
/// venue is a favorite.
pub open spec fn presents(rec: Recommendation, st: Showtime, p: Preferences, a: ViewingAssessment) -> bool {
    let fav = is_favorite(st, p);
    &&& same_showtime(rec.showtime, st)
    &&& rec.block@ == a.block@
    &&& rec.arrangement == a.arrangement
    &&& rec.quality == a.quality
    &&& rec.visual_score == a.visual_score
    &&& rec.score == (if fav {
        score_plus(a.visual_score, 8)
    } else {
        a.visual_score
    })
    &&& rec.reasons@ == (if fav {
        a.reasons@.push(rec.reasons@.last())
    } else {
        a.reasons@
    })
    &&& (fav ==> rec.reasons@.last()@ == favorite_reason())
}

/// `rec` is the analysis of `st` for the party and favorites of `p`.
pub open spec fn analysis_of(st: Showtime, p: Preferences, rec: Recommendation) -> bool {
    exists|a: ViewingAssessment| assessed(st, p.party_size as int, Some(a)) && #[trigger] presents(rec, st, p, a)
}

/// Analyses a showtime for the party and favorite venues of the preferences.
pub fn analyze_showtime(showtime: &Showtime, preferences: &Preferences) -> (r: Option<Recommendation>)
    ensures
        r is None <==> assessed(*showtime, preferences.party_size as int, None),
        r matches Some(rec) ==> analysis_of(*showtime, *preferences, rec) && rec.score.valid()
            && bounded(rec.visual_score),
{
    let assessment = match assess(showtime, preferences.party_size) {
        Some(a) => a,
        None => {
            return None;
        },
    };
    let ghost a = assessment;
    let favorite = contains_text_item(&preferences.favorite_venue_ids, showtime.venue_id.as_str());
    let ViewingAssessment { block, arrangement, quality, visual_score, reason_codes: _, reasons } =
        assessment;
    let mut reasons = reasons;
    let score = if favorite {
        reasons.push(owned("Sede favorita"));
        plus(&visual_score, FAVORITE_VENUE_BONUS)
    } else {
        visual_score
    };
    let rec = Recommendation {
        showtime: showtime.copied(),
        block,
        arrangement,
        quality,
        reasons,
        score,
        visual_score,
    };
    proof {
        assert(presents(rec, *showtime, *preferences, a));
    }
    Some(rec)
}

// ---------------------------------------------------------------------------
// Acceptance by the preferences.
// ---------------------------------------------------------------------------
/// Each non-empty set of accepted languages, formats and room types contains
/// the showtime's.
pub open spec fn acceptable(st: Showtime, p: Preferences) -> bool {
    &&& (p.accepted_languages@.len() == 0 || has_text(p.accepted_languages@, st.modality.language@))
    &&& (p.accepted_formats@.len() == 0 || has_text(
        p.accepted_formats@,
        st.modality.projection_format@,
    ))
    &&& (p.accepted_room_types@.len() == 0 || has_text(
        p.accepted_room_types@,
        st.modality.room_type@,
    ))
}

/// Whether the showtime meets the accepted languages, formats and room types.
pub fn is_acceptable(showtime: &Showtime, preferences: &Preferences) -> (r: bool)
    ensures
        r == acceptable(*showtime, *preferences),
{
    (preferences.accepted_languages.len() == 0 || contains_text_item(
        &preferences.accepted_languages,
        showtime.modality.language.as_str(),
    )) && (preferences.accepted_formats.len() == 0 || contains_text_item(
        &preferences.accepted_formats,
        showtime.modality.projection_format.as_str(),
    )) && (preferences.accepted_room_types.len() == 0 || contains_text_item(
        &preferences.accepted_room_types,
        showtime.modality.room_type.as_str(),
    ))
}

// ---------------------------------------------------------------------------
// Ranking order.
// ---------------------------------------------------------------------------
/// Together before split by an aisle before scattered.
pub open spec fn priority(a: SeatingArrangement) -> int {
    match a {
        SeatingArrangement::Together => 0,
        SeatingArrangement::AcrossAisle { .. } => 1,
        SeatingArrangement::Scattered => 2,
    }
}

pub fn arrangement_priority(a: &SeatingArrangement) -> (r: u8)
    ensures
        r == priority(*a),
{
    match a {
        SeatingArrangement::Together => 0,
        SeatingArrangement::AcrossAisle { .. } => 1,
        SeatingArrangement::Scattered => 2,
    }
}

/// Start `a` is strictly earlier than start `b`.
pub open spec fn starts_before(a: StartTime, b: StartTime) -> bool {
    a.instant_seconds < b.instant_seconds || (a.instant_seconds == b.instant_seconds
        && a.subsec_nanos < b.subsec_nanos)
}

pub open spec fn same_instant(a: StartTime, b: StartTime) -> bool {
    a.instant_seconds == b.instant_seconds && a.subsec_nanos == b.subsec_nanos
}

/// `a` ranks strictly before `b`: a better arrangement; then a higher
/// ranking score; then an earlier start; then the venue id; then the id.
pub open spec fn ranks_before(a: Recommendation, b: Recommendation) -> bool {
    let pa = priority(a.arrangement);
    let pb = priority(b.arrangement);
    pa < pb || (pa == pb && (score_lt(b.score, a.score) || (score_same(a.score, b.score) && (
    starts_before(a.showtime.starts_at, b.showtime.starts_at) || (same_instant(
        a.showtime.starts_at,
        b.showtime.starts_at,
    ) && (text_lt(a.showtime.venue_id@, b.showtime.venue_id@) || (a.showtime.venue_id@
        == b.showtime.venue_id@ && text_lt(a.showtime.id@, b.showtime.id@))))))))
}

fn ranks_before_exec(a: &Recommendation, b: &Recommendation) -> (r: bool)
    requires
        a.score.valid(),
        b.score.valid(),
    ensures
        r == ranks_before(*a, *b),
{
    let pa = arrangement_priority(&a.arrangement);
    let pb = arrangement_priority(&b.arrangement);
    if pa != pb {
        return pa < pb;
    }
    let c = compare_scores(&a.score, &b.score);
    if c != 0 {
        return c == 1;
    }
    let sa = a.showtime.starts_at;
    let sb = b.showtime.starts_at;
    if sa.instant_seconds != sb.instant_seconds {
        return sa.instant_seconds < sb.instant_seconds;
    }
    if sa.subsec_nanos != sb.subsec_nanos {
        return sa.subsec_nanos < sb.subsec_nanos;
    }
    let v = compare_text(a.showtime.venue_id.as_str(), b.showtime.venue_id.as_str());
    if v != 0 {
        return v < 0;
    }
    compare_text(a.showtime.id.as_str(), b.showtime.id.as_str()) < 0
}

/// Inserts `e` after every recommendation that does not rank after it.
pub open spec fn insert_ranked(s: Seq<Recommendation>, e: Recommendation) -> Seq<Recommendation>
    decreases s.len(),
{
    if s.len() == 0 {
        seq![e]
    } else if ranks_before(e, s.last()) {
        insert_ranked(s.drop_last(), e).push(s.last())
    } else {
        s.push(e)
    }
}

/// The stable sort of recommendations by rank.
pub open spec fn sort_ranked(s: Seq<Recommendation>) -> Seq<Recommendation>
    decreases s.len(),
{
    if s.len() == 0 {
        Seq::empty()
    } else {
        insert_ranked(sort_ranked(s.drop_last()), s.last())
    }
}

proof fn lemma_insert_ranked_at(s: Seq<Recommendation>, e: Recommendation, j: int)
    requires
        0 <= j <= s.len(),
        j == 0 || !ranks_before(e, s[j - 1]),
        forall|k: int| j <= k < s.len() ==> ranks_before(e, #[trigger] s[k]),
    ensures
        insert_ranked(s, e) == s.take(j) + seq![e] + s.skip(j),
    decreases s.len() - j,
{
    if s.len() == 0 {
        assert(s.take(j) + seq![e] + s.skip(j) =~= seq![e]);
    } else if j == s.len() {
        assert(s.take(j) + seq![e] + s.skip(j) =~= s.push(e));
    } else {
        let d = s.drop_last();
        assert forall|k: int| j <= k < d.len() implies ranks_before(e, #[trigger] d[k]) by {
            assert(d[k] == s[k]);
        }
        if j > 0 {
            assert(d[j - 1] == s[j - 1]);
        }
        lemma_insert_ranked_at(d, e, j);
        assert(d.take(j) + seq![e] + d.skip(j) + seq![s.last()] =~= s.take(j) + seq![e] + s.skip(j));
    }
}

proof fn lemma_insert_ranked_members(s: Seq<Recommendation>, e: Recommendation)
    ensures
        insert_ranked(s, e).len() == s.len() + 1,
        forall|k: int|
            0 <= k < insert_ranked(s, e).len() ==> #[trigger] insert_ranked(s, e)[k] == e
                || s.contains(insert_ranked(s, e)[k]),
    decreases s.len(),
{
    if s.len() > 0 && ranks_before(e, s.last()) {
        lemma_insert_ranked_members(s.drop_last(), e);
        assert forall|k: int|
            0 <= k < insert_ranked(s, e).len() implies #[trigger] insert_ranked(s, e)[k] == e
                || s.contains(insert_ranked(s, e)[k]) by {
            if k < s.len() {
                let x = insert_ranked(s.drop_last(), e)[k];
                if x != e {
                    let m = choose|m: int| 0 <= m < s.drop_last().len() && s.drop_last()[m] == x;
                    assert(s[m] == x);
                }
            } else {
                assert(insert_ranked(s, e)[k] == s.last());
                assert(s[s.len() - 1] == s.last());
            }
        }
    } else if s.len() > 0 {
        assert forall|k: int|
            0 <= k < insert_ranked(s, e).len() implies #[trigger] insert_ranked(s, e)[k] == e
                || s.contains(insert_ranked(s, e)[k]) by {
            if k < s.len() {
                assert(insert_ranked(s, e)[k] == s[k]);
            }
        }
    }
}

/// Every recommendation of the sorted sequence comes from the input.
pub proof fn lemma_sort_ranked_members(s: Seq<Recommendation>)
    ensures
        sort_ranked(s).len() == s.len(),
        forall|k: int| 0 <= k < sort_ranked(s).len() ==> s.contains(#[trigger] sort_ranked(s)[k]),
    decreases s.len(),
{
    if s.len() > 0 {
        lemma_sort_ranked_members(s.drop_last());
        lemma_insert_ranked_members(sort_ranked(s.drop_last()), s.last());
        assert forall|k: int| 0 <= k < sort_ranked(s).len() implies s.contains(
            #[trigger] sort_ranked(s)[k],
        ) by {
            let x = sort_ranked(s)[k];
            if x == s.last() {
                assert(s[s.len() - 1] == x);
            } else {
                let m = choose|m: int|
                    0 <= m < sort_ranked(s.drop_last()).len() && sort_ranked(s.drop_last())[m] == x;
                assert(s.drop_last().contains(sort_ranked(s.drop_last())[m]));
                let q = choose|q: int| 0 <= q < s.drop_last().len() && s.drop_last()[q] == x;
                assert(s[q] == x);
            }
        }
    }
}

fn insert_recommendation(out: &mut Vec<Recommendation>, e: Recommendation)
    requires
        e.score.valid(),
        forall|k: int| 0 <= k < old(out)@.len() ==> (#[trigger] old(out)@[k]).score.valid(),
    ensures
        final(out)@ == insert_ranked(old(out)@, e),
{
    let mut j: usize = out.len();
    while j > 0 && ranks_before_exec(&e, &out[j - 1])
        invariant
            j <= out.len(),
            out@ == old(out)@,
            e.score.valid(),
            forall|k: int| 0 <= k < out@.len() ==> (#[trigger] out@[k]).score.valid(),
            forall|k: int| j <= k < out.len() ==> ranks_before(e, #[trigger] out@[k]),
        decreases j,
    {
        j -= 1;
    }
    proof {
        lemma_insert_ranked_at(out@, e, j as int);
    }
    out.insert(j, e);
    proof {
        assert(out@ =~= old(out)@.take(j as int) + seq![e] + old(out)@.skip(j as int));
    }
}

/// The stable sort of recommendations by rank.
fn sort_recommendations(v: Vec<Recommendation>) -> (r: Vec<Recommendation>)
    requires
        forall|k: int| 0 <= k < v@.len() ==> (#[trigger] v@[k]).score.valid(),
    ensures
        r@ == sort_ranked(v@),
{
    let mut v = v;
    let ghost input = v@;
    proof {
        assert(input.len() == v.len());
    }
    let mut out: Vec<Recommendation> = Vec::new();
    let mut i: usize = 0;
    while v.len() > 0
        invariant
            i + v@.len() == input.len(),
            input.len() <= usize::MAX,
            v@ == input.skip(i as int),
            out@ == sort_ranked(input.take(i as int)),
            forall|k: int| 0 <= k < input.len() ==> (#[trigger] input[k]).score.valid(),
        decreases v@.len(),
    {
        let e = v.remove(0);
        proof {
            assert(e == input[i as int]);
            assert(input.take(i + 1).drop_last() =~= input.take(i as int));
            assert(input.take(i + 1).last() == input[i as int]);
            lemma_sort_ranked_members(input.take(i as int));
            assert forall|k: int| 0 <= k < out@.len() implies (#[trigger] out@[k]).score.valid() by {
                let x = out@[k];
                let m = choose|m: int| 0 <= m < input.take(i as int).len() && input.take(i as int)[m] == x;
                assert(input[m] == x);
            }
        }
        insert_recommendation(&mut out, e);
        i += 1;
        proof {
            assert(v@ =~= input.skip(i as int));
        }
    }
    proof {
        assert(input.take(i as int) =~= input);
    }
    out
}

// ---------------------------------------------------------------------------
// Which analyses are shown.
// ---------------------------------------------------------------------------
/// A recommendation of good or excellent quality.
pub open spec fn apt(rec: Recommendation) -> bool {
    rec.quality != Quality::Unfavorable
}

pub open spec fn has_apt(c: Seq<Recommendation>) -> bool {
    exists|k: int| 0 <= k < c.len() && apt(#[trigger] c[k])
}

pub open spec fn has_apt_across_aisle(c: Seq<Recommendation>) -> bool {
    exists|k: int| 0 <= k < c.len() && apt(#[trigger] c[k]) && c[k].arrangement is AcrossAisle
}

/// What survives once an apt option exists: apt ones, and unfavorable
/// blocks side by side when some apt option is split by an aisle.
pub open spec fn kept(rec: Recommendation, across: bool) -> bool {
    apt(rec) || (across && rec.arrangement == SeatingArrangement::Together)
}

pub open spec fn keep_all(c: Seq<Recommendation>, across: bool) -> Seq<Recommendation>
    decreases c.len(),
{
    if c.len() == 0 {
        Seq::empty()
    } else if kept(c.last(), across) {
        keep_all(c.drop_last(), across).push(c.last())
    } else {
        keep_all(c.drop_last(), across)
    }
}

/// The analyses that are shown: all of them when none is apt; otherwise only
/// those kept.
pub open spec fn shown(c: Seq<Recommendation>) -> Seq<Recommendation> {
    if has_apt(c) {
        keep_all(c, has_apt_across_aisle(c))
    } else {
        c
    }
}

/// The recommendations returned for analyses `c`: the shown ones, ranked, at
/// most `limit` of them.
pub open spec fn ranked(c: Seq<Recommendation>, limit: int) -> Seq<Recommendation> {
    let s = sort_ranked(shown(c));
    if limit < s.len() {
        s.take(limit)
    } else {
        s
    }
}

/// `c` lists, in order, the analyses of the acceptable showtimes of `sts`
/// that have one.
pub open spec fn analyses(sts: Seq<Showtime>, p: Preferences, c: Seq<Recommendation>) -> bool
    decreases sts.len(),
{
    if sts.len() == 0 {
        c.len() == 0
    } else {
        let st = sts.last();
        if !acceptable(st, p) || assessed(st, p.party_size as int, None) {
            analyses(sts.drop_last(), p, c)
        } else {
            c.len() > 0 && analysis_of(st, p, c.last()) && analyses(sts.drop_last(), p, c.drop_last())
        }
    }
}

proof fn lemma_keep_all_members(c: Seq<Recommendation>, across: bool)
    ensures
        forall|k: int|
            0 <= k < keep_all(c, across).len() ==> c.contains(#[trigger] keep_all(c, across)[k])
                && kept(keep_all(c, across)[k], across),
    decreases c.len(),
{
    if c.len() > 0 {
        lemma_keep_all_members(c.drop_last(), across);
        assert forall|k: int| 0 <= k < keep_all(c, across).len() implies c.contains(
            #[trigger] keep_all(c, across)[k],
        ) && kept(keep_all(c, across)[k], across) by {
            let x = keep_all(c, across)[k];
            if kept(c.last(), across) && k == keep_all(c, across).len() - 1 {
                assert(c[c.len() - 1] == x);
            } else {
                assert(x == keep_all(c.drop_last(), across)[k]);
                let m = choose|m: int| 0 <= m < c.drop_last().len() && c.drop_last()[m] == x;
                assert(c[m] == x);
            }
        }
    }
}

/// `r` is what ranking `sts` under `p` gives at most `limit` of: nothing
/// for an empty party or a zero limit; otherwise the ranked shown analyses.
pub open spec fn recommended(sts: Seq<Showtime>, p: Preferences, limit: int, r: Seq<Recommendation>) -> bool {
    if p.party_size == 0 || limit == 0 {
        r.len() == 0
    } else {
        exists|c: Seq<Recommendation>| #[trigger] analyses(sts, p, c) && r == ranked(c, limit)
    }
}

/// Ranks the analyses of the acceptable showtimes and returns at most
/// `limit` of them. Unfavorable options are hidden once an apt one exists,
/// except blocks side by side when some apt option is split by an aisle.
pub fn recommend(showtimes: &[Showtime], preferences: &Preferences, limit: usize) -> (r: Vec<
    Recommendation,
>)
    ensures
        preferences.party_size == 0 || limit == 0 ==> r@.len() == 0,
        r@.len() <= limit,
        recommended(showtimes@, *preferences, limit as int, r@),
        preferences.party_size > 0 && limit > 0 ==> exists|c: Seq<Recommendation>|
            #[trigger] analyses(showtimes@, *preferences, c) && r@ == ranked(c, limit as int),
        in_rank_order(r@),
{
    if preferences.party_size == 0 || limit == 0 {
        return Vec::new();
    }
    let mut results: Vec<Recommendation> = Vec::new();
    let mut i: usize = 0;
    while i < showtimes.len()
        invariant
            i <= showtimes.len(),
            analyses(showtimes@.take(i as int), *preferences, results@),
            forall|k: int| 0 <= k < results@.len() ==> (#[trigger] results@[k]).score.valid(),
        decreases showtimes.len() - i,
    {
        proof {
            assert(showtimes@.take(i + 1).drop_last() =~= showtimes@.take(i as int));
            assert(showtimes@.take(i + 1).last() == showtimes@[i as int]);
        }
        if is_acceptable(&showtimes[i], preferences) {
            if let Some(rec) = analyze_showtime(&showtimes[i], preferences) {
                let ghost before = results@;
                results.push(rec);
                proof {
                    assert(results@.drop_last() =~= before);
                }
            }
        }
        i += 1;
    }
    proof {
        assert(showtimes@.take(showtimes@.len() as int) =~= showtimes@);
    }
    let ghost c = results@;
    let mut has_apt_x = false;
    let mut has_apt_across = false;
    let mut k: usize = 0;
    while k < results.len()
        invariant
            k <= results.len(),
            has_apt_x == exists|m: int| 0 <= m < k && apt(#[trigger] results@[m]),
            has_apt_across == exists|m: int|
                0 <= m < k && apt(#[trigger] results@[m]) && results@[m].arrangement is AcrossAisle,
        decreases results.len() - k,
    {
        let q = results[k].quality;
        if q != Quality::Unfavorable {
            has_apt_x = true;
            if let SeatingArrangement::AcrossAisle { .. } = results[k].arrangement {
                has_apt_across = true;
            }
        }
        k += 1;
    }
    let mut shown_recs: Vec<Recommendation> = Vec::new();
    if has_apt_x {
        let mut rest = results;
        let mut j: usize = 0;
        while rest.len() > 0
            invariant
                j + rest@.len() == c.len(),
                c.len() <= usize::MAX,
                rest@ == c.skip(j as int),
                shown_recs@ == keep_all(c.take(j as int), has_apt_across),
            decreases rest@.len(),
        {
            let e = rest.remove(0);
            proof {
                assert(e == c[j as int]);
                assert(c.take(j + 1).drop_last() =~= c.take(j as int));
                assert(c.take(j + 1).last() == c[j as int]);
            }
            let keep = e.quality != Quality::Unfavorable || (has_apt_across
                && e.arrangement == SeatingArrangement::Together);
            if keep {
                shown_recs.push(e);
            }
            j += 1;
            proof {
                assert(rest@ =~= c.skip(j as int));
            }
        }
        proof {
            assert(c.take(j as int) =~= c);
            lemma_keep_all_members(c, has_apt_across);
        }
    } else {
        shown_recs = results;
    }
    proof {
        assert(shown_recs@ == shown(c));
        assert forall|m: int| 0 <= m < shown_recs@.len() implies (#[trigger] shown_recs@[m]).score.valid() by {
            if has_apt_x {
                assert(c.contains(shown_recs@[m]));
            }
        }
    }
    let mut sorted = sort_recommendations(shown_recs);
    proof {
        lemma_sort_ranked_members(shown(c));
    }
    if limit < sorted.len() {
        sorted.truncate(limit);
    }
    proof {
        assert(analyses(showtimes@, *preferences, c));
        assert forall|m: int| 0 <= m < c.len() implies (#[trigger] c[m]).score.denominator > 0 by {
            assert(c[m].score.valid());
        }
        lemma_ranked_in_order(c, limit as int);
    }
    sorted
}


proof fn lemma_analyses_members(sts: Seq<Showtime>, p: Preferences, c: Seq<Recommendation>)
    requires
        analyses(sts, p, c),
    ensures
        forall|k: int|
            0 <= k < c.len() ==> exists|m: int|
                0 <= m < sts.len() && acceptable(sts[m], p) && analysis_of(sts[m], p, #[trigger] c[k]),
    decreases sts.len(),
{
    if sts.len() > 0 {
        let st = sts.last();
        if !acceptable(st, p) || assessed(st, p.party_size as int, None) {
            lemma_analyses_members(sts.drop_last(), p, c);
            assert forall|k: int| 0 <= k < c.len() implies exists|m: int|
                0 <= m < sts.len() && acceptable(sts[m], p) && analysis_of(sts[m], p, #[trigger] c[k]) by {
                let m = choose|m: int|
                    0 <= m < sts.drop_last().len() && acceptable(sts.drop_last()[m], p) && analysis_of(
                        sts.drop_last()[m],
                        p,
                        c[k],
                    );
                assert(sts[m] == sts.drop_last()[m]);
            }
        } else {
            lemma_analyses_members(sts.drop_last(), p, c.drop_last());
            assert forall|k: int| 0 <= k < c.len() implies exists|m: int|
                0 <= m < sts.len() && acceptable(sts[m], p) && analysis_of(sts[m], p, #[trigger] c[k]) by {
                if k == c.len() - 1 {
                    assert(sts[sts.len() - 1] == st);
                } else {
                    assert(c[k] == c.drop_last()[k]);
                    let m = choose|m: int|
                        0 <= m < sts.drop_last().len() && acceptable(sts.drop_last()[m], p)
                            && analysis_of(sts.drop_last()[m], p, c.drop_last()[k]);
                    assert(sts[m] == sts.drop_last()[m]);
                }
            }
        }
    }
}

/// Every recommendation returned is the analysis of a showtime that the
/// preferences accept, and no more than `limit` are returned.
pub proof fn lemma_recommendations_are_accepted_analyses(
    sts: Seq<Showtime>,
    p: Preferences,
    c: Seq<Recommendation>,
    limit: int,
)
    requires
        analyses(sts, p, c),
        limit >= 0,
    ensures
        ranked(c, limit).len() <= limit,
        forall|k: int|
            0 <= k < ranked(c, limit).len() ==> exists|m: int|
                0 <= m < sts.len() && acceptable(sts[m], p) && analysis_of(
                    sts[m],
                    p,
                    #[trigger] ranked(c, limit)[k],
                ),
{
    lemma_analyses_members(sts, p, c);
    lemma_sort_ranked_members(shown(c));
    if has_apt(c) {
        lemma_keep_all_members(c, has_apt_across_aisle(c));
    }
    assert forall|k: int| 0 <= k < ranked(c, limit).len() implies exists|m: int|
        0 <= m < sts.len() && acceptable(sts[m], p) && analysis_of(sts[m], p, #[trigger] ranked(c, limit)[k]) by {
        let x = ranked(c, limit)[k];
        assert(x == sort_ranked(shown(c))[k]);
        assert(shown(c).contains(x));
        let q = choose|q: int| 0 <= q < shown(c).len() && shown(c)[q] == x;
        if has_apt(c) {
            assert(c.contains(keep_all(c, has_apt_across_aisle(c))[q]));
        } else {
            assert(c[q] == x);
        }
        let w = choose|w: int| 0 <= w < c.len() && c[w] == x;
        assert(exists|m: int| 0 <= m < sts.len() && acceptable(sts[m], p) && analysis_of(sts[m], p, c[w]));
    }
}

/// Once some analysis is apt, every recommendation returned is apt, or is a
/// block side by side while some apt analysis is split by an aisle.
pub proof fn lemma_apt_options_hide_unfavorable(c: Seq<Recommendation>, limit: int)
    requires
        has_apt(c),
        limit >= 0,
    ensures
        forall|k: int|
            0 <= k < ranked(c, limit).len() ==> kept(
                #[trigger] ranked(c, limit)[k],
                has_apt_across_aisle(c),
            ),
{
    lemma_sort_ranked_members(shown(c));
    lemma_keep_all_members(c, has_apt_across_aisle(c));
    assert forall|k: int| 0 <= k < ranked(c, limit).len() implies kept(
        #[trigger] ranked(c, limit)[k],
        has_apt_across_aisle(c),
    ) by {
        let x = ranked(c, limit)[k];
        assert(x == sort_ranked(shown(c))[k]);
        assert(shown(c).contains(x));
        let q = choose|q: int| 0 <= q < shown(c).len() && shown(c)[q] == x;
        assert(kept(keep_all(c, has_apt_across_aisle(c))[q], has_apt_across_aisle(c)));
    }
}

// ---------------------------------------------------------------------------
// The ranking order.
// ---------------------------------------------------------------------------
/// `a` and `b` tie on every ranking key.
pub open spec fn ranks_even(a: Recommendation, b: Recommendation) -> bool {
    &&& priority(a.arrangement) == priority(b.arrangement)
    &&& score_same(a.score, b.score)
    &&& same_instant(a.showtime.starts_at, b.showtime.starts_at)
    &&& a.showtime.venue_id@ == b.showtime.venue_id@
    &&& a.showtime.id@ == b.showtime.id@
}

/// No recommendation ranks before one that precedes it.
pub open spec fn in_rank_order(s: Seq<Recommendation>) -> bool {
    forall|i: int, j: int| 0 <= i < j < s.len() ==> !ranks_before(#[trigger] s[j], #[trigger] s[i])
}

proof fn lemma_score_trichotomy(a: Score, b: Score)
    ensures
        score_lt(a, b) || score_lt(b, a) || score_same(a, b),
        score_same(a, b) == score_same(b, a),
        !(score_lt(a, b) && score_lt(b, a)),
        !(score_lt(a, b) && score_same(a, b)),
{
}

proof fn lemma_text_facts(a: Seq<char>, b: Seq<char>, c: Seq<char>)
    ensures
        !text_lt(a, a),
        text_lt(a, b) && text_lt(b, c) ==> text_lt(a, c),
        a == b || text_lt(a, b) || text_lt(b, a),
{
    lemma_text_lt_irreflexive(a);
    lemma_text_lt_total(a, b);
    if text_lt(a, b) && text_lt(b, c) {
        lemma_text_lt_transitive(a, b, c);
    }
}

/// Two recommendations are ranked one way or the other, or tie.
proof fn lemma_ranks_total(a: Recommendation, b: Recommendation)
    requires
        a.score.denominator > 0,
        b.score.denominator > 0,
    ensures
        ranks_before(a, b) || ranks_before(b, a) || ranks_even(a, b),
{
    lemma_score_trichotomy(a.score, b.score);
    lemma_text_facts(a.showtime.venue_id@, b.showtime.venue_id@, b.showtime.venue_id@);
    lemma_text_facts(a.showtime.id@, b.showtime.id@, b.showtime.id@);
}

/// The ranking order is irreflexive and transitive, and ties are
/// interchangeable in it.
proof fn lemma_ranks_order(a: Recommendation, b: Recommendation, c: Recommendation)
    requires
        a.score.denominator > 0,
        b.score.denominator > 0,
        c.score.denominator > 0,
    ensures
        !ranks_before(a, a),
        ranks_before(a, b) && ranks_before(b, c) ==> ranks_before(a, c),
        ranks_even(a, b) && ranks_before(b, c) ==> ranks_before(a, c),
        ranks_before(a, b) && ranks_even(b, c) ==> ranks_before(a, c),
        ranks_even(a, b) ==> ranks_even(b, a),
{
    let (sa, sb, sc) = (a.score, b.score, c.score);
    lemma_score_trichotomy(sa, sb);
    lemma_score_trichotomy(sb, sc);
    lemma_score_trichotomy(sa, sc);
    if score_lt(sb, sa) && score_lt(sc, sb) {
        lemma_score_lt_transitive(sc, sb, sa);
    }
    lemma_score_lt_same(sc, sb, sa);
    lemma_score_lt_same(sb, sa, sc);
    lemma_score_lt_same(sc, sa, sb);
    lemma_score_lt_same(sa, sb, sc);
    if score_same(sa, sb) && score_same(sb, sc) {
        lemma_score_same_transitive(sa, sb, sc);
    }
    if score_same(sc, sb) && score_same(sb, sa) {
        lemma_score_same_transitive(sc, sb, sa);
    }
    lemma_text_facts(a.showtime.venue_id@, b.showtime.venue_id@, c.showtime.venue_id@);
    lemma_text_facts(a.showtime.id@, b.showtime.id@, c.showtime.id@);
}

/// The ranking order is a strict weak order: when `a` ranks before `c`,
/// any `b` ranks after `a` or before `c`.
proof fn lemma_ranks_between(a: Recommendation, b: Recommendation, c: Recommendation)
    requires
        a.score.denominator > 0,
        b.score.denominator > 0,
        c.score.denominator > 0,
        ranks_before(a, c),
    ensures
        ranks_before(a, b) || ranks_before(b, c),
{
    lemma_ranks_total(a, b);
    lemma_ranks_total(b, c);
    lemma_ranks_order(b, a, c);
    lemma_ranks_order(a, c, b);
    lemma_ranks_order(c, b, a);
    lemma_ranks_order(b, c, a);
    lemma_ranks_order(a, b, c);
    lemma_ranks_order(c, a, b);
}

proof fn lemma_insert_ranked_ordered(s: Seq<Recommendation>, e: Recommendation)
    requires
        in_rank_order(s),
        e.score.denominator > 0,
        forall|k: int| 0 <= k < s.len() ==> (#[trigger] s[k]).score.denominator > 0,
    ensures
        in_rank_order(insert_ranked(s, e)),
        insert_ranked(s, e).len() == s.len() + 1,
        forall|k: int|
            0 <= k < insert_ranked(s, e).len() ==> (#[trigger] insert_ranked(s, e)[k]).score.denominator
                > 0,
    decreases s.len(),
{
    lemma_insert_ranked_members(s, e);
    let r = insert_ranked(s, e);
    assert forall|k: int| 0 <= k < r.len() implies (#[trigger] r[k]).score.denominator > 0 by {
        if r[k] != e {
            let m = choose|m: int| 0 <= m < s.len() && s[m] == r[k];
        }
    }
    if s.len() > 0 && ranks_before(e, s.last()) {
        let d = s.drop_last();
        assert forall|i: int, j: int| 0 <= i < j < d.len() implies !ranks_before(
            #[trigger] d[j],
            #[trigger] d[i],
        ) by {
            assert(d[i] == s[i] && d[j] == s[j]);
        }
        assert forall|k: int| 0 <= k < d.len() implies (#[trigger] d[k]).score.denominator > 0 by {
            assert(d[k] == s[k]);
        }
        lemma_insert_ranked_ordered(d, e);
        let di = insert_ranked(d, e);
        assert(r == di.push(s.last()));
        assert forall|i: int, j: int| 0 <= i < j < r.len() implies !ranks_before(
            #[trigger] r[j],
            #[trigger] r[i],
        ) by {
            if j < r.len() - 1 {
                assert(r[i] == di[i] && r[j] == di[j]);
            } else {
                assert(r[j] == s.last());
                let x = di[i];
                assert(r[i] == x);
                lemma_insert_ranked_members(d, e);
                if x == e {
                    lemma_ranks_order(e, s.last(), e);
                } else {
                    let m = choose|m: int| 0 <= m < d.len() && d[m] == x;
                    assert(s[m] == x);
                    assert(!ranks_before(s[s.len() - 1], s[m]));
                }
            }
        }
    } else if s.len() > 0 {
        assert(r == s.push(e));
        assert forall|i: int, j: int| 0 <= i < j < r.len() implies !ranks_before(
            #[trigger] r[j],
            #[trigger] r[i],
        ) by {
            if j < s.len() {
                assert(r[i] == s[i] && r[j] == s[j]);
            } else {
                assert(r[j] == e && r[i] == s[i]);
                if i < s.len() - 1 && ranks_before(e, s[i]) {
                    lemma_ranks_between(e, s[s.len() - 1], s[i]);
                    assert(!ranks_before(s[s.len() - 1], s[i]));
                }
            }
        }
    }
}

/// Sorting by rank leaves no recommendation before one that ranks before
/// it.
pub proof fn lemma_sort_ranked_ordered(s: Seq<Recommendation>)
    requires
        forall|k: int| 0 <= k < s.len() ==> (#[trigger] s[k]).score.denominator > 0,
    ensures
        in_rank_order(sort_ranked(s)),
        forall|k: int| 0 <= k < sort_ranked(s).len() ==> (#[trigger] sort_ranked(s)[k]).score.denominator > 0,
    decreases s.len(),
{
    if s.len() > 0 {
        let d = s.drop_last();
        assert forall|k: int| 0 <= k < d.len() implies (#[trigger] d[k]).score.denominator > 0 by {
            assert(d[k] == s[k]);
        }
        lemma_sort_ranked_ordered(d);
        assert(s[s.len() - 1] == s.last());
        lemma_insert_ranked_ordered(sort_ranked(d), s.last());
    }
}


/// The recommendations returned for analyses with valid scores come in rank
/// order: none ranks before one that precedes it.
pub proof fn lemma_ranked_in_order(c: Seq<Recommendation>, limit: int)
    requires
        limit >= 0,
        forall|k: int| 0 <= k < c.len() ==> (#[trigger] c[k]).score.denominator > 0,
    ensures
        in_rank_order(ranked(c, limit)),
{
    let s = shown(c);
    if has_apt(c) {
        lemma_keep_all_members(c, has_apt_across_aisle(c));
    }
    assert forall|k: int| 0 <= k < s.len() implies (#[trigger] s[k]).score.denominator > 0 by {
        if has_apt(c) {
            let q = choose|q: int| 0 <= q < c.len() && c[q] == s[k];
            assert(c[q].score.denominator > 0);
        }
    }
    lemma_sort_ranked_ordered(s);
    let t = sort_ranked(s);
    if limit < t.len() {
        assert forall|i: int, j: int| 0 <= i < j < t.take(limit).len() implies !ranks_before(
            #[trigger] t.take(limit)[j],
            #[trigger] t.take(limit)[i],
        ) by {
            assert(t.take(limit)[j] == t[j] && t.take(limit)[i] == t[i]);
        }
    }
}


// ---------------------------------------------------------------------------
// One ranking per request.
// ---------------------------------------------------------------------------
/// Two recommendations agree on everything they report.
pub open spec fn same_recommendation(a: Recommendation, b: Recommendation) -> bool {
    &&& same_showtime(a.showtime, b.showtime)
    &&& alike_blocks(a.block@, b.block@)
    &&& a.arrangement == b.arrangement
    &&& a.quality == b.quality
    &&& texts(a.reasons@) == texts(b.reasons@)
    &&& a.score == b.score
    &&& a.visual_score == b.visual_score
}

pub open spec fn same_recommendations(a: Seq<Recommendation>, b: Seq<Recommendation>) -> bool {
    a.len() == b.len() && forall|k: int| 0 <= k < a.len() ==> same_recommendation(#[trigger] a[k], b[k])
}

/// The analysis of a showtime reports what assessing it reports: the same
/// block, arrangement, quality and visual score; the ranking score raised by
/// the favorite bonus, and the favorite reason added, exactly for a favorite
/// venue.
pub proof fn lemma_analysis_matches_assessment(
    st: Showtime,
    p: Preferences,
    rec: Recommendation,
    a: ViewingAssessment,
)
    requires
        analysis_of(st, p, rec),
        assessed(st, p.party_size as int, Some(a)),
    ensures
        same_showtime(rec.showtime, st),
        alike_blocks(rec.block@, a.block@),
        rec.arrangement == a.arrangement,
        rec.quality == a.quality,
        rec.visual_score == a.visual_score,
        rec.score == (if is_favorite(st, p) {
            score_plus(a.visual_score, 8)
        } else {
            a.visual_score
        }),
        texts(rec.reasons@) == (if is_favorite(st, p) {
            texts(a.reasons@).push(favorite_reason())
        } else {
            texts(a.reasons@)
        }),
{
    let b = choose|b: ViewingAssessment|
        assessed(st, p.party_size as int, Some(b)) && #[trigger] presents(rec, st, p, b);
    lemma_assessment_determined(st, p.party_size as int, Some(b), Some(a));
    if is_favorite(st, p) {
        assert(texts(rec.reasons@) =~= texts(b.reasons@).push(favorite_reason()));
        assert(texts(rec.reasons@) =~= texts(a.reasons@).push(favorite_reason()));
    } else {
        assert(texts(rec.reasons@) =~= texts(b.reasons@));
    }
}

/// A showtime and the preferences determine the analysis.
pub proof fn lemma_analysis_determined(st: Showtime, p: Preferences, r1: Recommendation, r2: Recommendation)
    requires
        analysis_of(st, p, r1),
        analysis_of(st, p, r2),
    ensures
        same_recommendation(r1, r2),
{
    let a = choose|a: ViewingAssessment|
        assessed(st, p.party_size as int, Some(a)) && #[trigger] presents(r1, st, p, a);
    lemma_analysis_matches_assessment(st, p, r1, a);
    lemma_analysis_matches_assessment(st, p, r2, a);
}

proof fn lemma_analyses_determined(sts: Seq<Showtime>, p: Preferences, c1: Seq<Recommendation>, c2: Seq<Recommendation>)
    requires
        analyses(sts, p, c1),
        analyses(sts, p, c2),
    ensures
        same_recommendations(c1, c2),
    decreases sts.len(),
{
    if sts.len() > 0 {
        let st = sts.last();
        if !acceptable(st, p) || assessed(st, p.party_size as int, None) {
            lemma_analyses_determined(sts.drop_last(), p, c1, c2);
        } else {
            lemma_analyses_determined(sts.drop_last(), p, c1.drop_last(), c2.drop_last());
            lemma_analysis_determined(st, p, c1.last(), c2.last());
            assert forall|k: int| 0 <= k < c1.len() implies same_recommendation(#[trigger] c1[k], c2[k]) by {
                if k < c1.len() - 1 {
                    assert(c1[k] == c1.drop_last()[k] && c2[k] == c2.drop_last()[k]);
                }
            }
        }
    }
}

proof fn lemma_keep_all_same(c1: Seq<Recommendation>, c2: Seq<Recommendation>, across: bool)
    requires
        same_recommendations(c1, c2),
    ensures
        same_recommendations(keep_all(c1, across), keep_all(c2, across)),
    decreases c1.len(),
{
    if c1.len() > 0 {
        let d1 = c1.drop_last();
        let d2 = c2.drop_last();
        assert forall|k: int| 0 <= k < d1.len() implies same_recommendation(#[trigger] d1[k], d2[k]) by {
            assert(same_recommendation(c1[k], c2[k]));
        }
        assert(same_recommendation(c1[c1.len() - 1], c2[c2.len() - 1]));
        lemma_keep_all_same(d1, d2, across);
        let k1 = keep_all(c1, across);
        let k2 = keep_all(c2, across);
        if kept(c1.last(), across) {
            assert forall|k: int| 0 <= k < k1.len() implies same_recommendation(#[trigger] k1[k], k2[k]) by {
                if k < k1.len() - 1 {
                    assert(k1[k] == keep_all(d1, across)[k] && k2[k] == keep_all(d2, across)[k]);
                }
            }
        }
    }
}

proof fn lemma_insert_ranked_same(
    s1: Seq<Recommendation>,
    s2: Seq<Recommendation>,
    e1: Recommendation,
    e2: Recommendation,
)
    requires
        same_recommendations(s1, s2),
        same_recommendation(e1, e2),
    ensures
        same_recommendations(insert_ranked(s1, e1), insert_ranked(s2, e2)),
    decreases s1.len(),
{
    let r1 = insert_ranked(s1, e1);
    let r2 = insert_ranked(s2, e2);
    if s1.len() == 0 {
        assert(same_recommendation(r1[0], r2[0]));
    } else {
        let d1 = s1.drop_last();
        let d2 = s2.drop_last();
        assert(same_recommendation(s1[s1.len() - 1], s2[s2.len() - 1]));
        assert(ranks_before(e1, s1.last()) == ranks_before(e2, s2.last()));
        if ranks_before(e1, s1.last()) {
            assert forall|k: int| 0 <= k < d1.len() implies same_recommendation(#[trigger] d1[k], d2[k]) by {
                assert(same_recommendation(s1[k], s2[k]));
            }
            lemma_insert_ranked_same(d1, d2, e1, e2);
            let t1 = insert_ranked(d1, e1);
            let t2 = insert_ranked(d2, e2);
            assert forall|k: int| 0 <= k < r1.len() implies same_recommendation(#[trigger] r1[k], r2[k]) by {
                if k < t1.len() {
                    assert(r1[k] == t1[k] && r2[k] == t2[k]);
                }
            }
        } else {
            assert forall|k: int| 0 <= k < r1.len() implies same_recommendation(#[trigger] r1[k], r2[k]) by {
                if k < s1.len() {
                    assert(r1[k] == s1[k] && r2[k] == s2[k]);
                }
            }
        }
    }
}

proof fn lemma_sort_ranked_same(s1: Seq<Recommendation>, s2: Seq<Recommendation>)
    requires
        same_recommendations(s1, s2),
    ensures
        same_recommendations(sort_ranked(s1), sort_ranked(s2)),
    decreases s1.len(),
{
    if s1.len() > 0 {
        let d1 = s1.drop_last();
        let d2 = s2.drop_last();
        assert forall|k: int| 0 <= k < d1.len() implies same_recommendation(#[trigger] d1[k], d2[k]) by {
            assert(same_recommendation(s1[k], s2[k]));
        }
        assert(same_recommendation(s1[s1.len() - 1], s2[s2.len() - 1]));
        lemma_sort_ranked_same(d1, d2);
        lemma_insert_ranked_same(sort_ranked(d1), sort_ranked(d2), s1.last(), s2.last());
    }
}

/// The showtimes, the preferences and the limit determine the
/// recommendations: any two results that meet `recommended` agree entry by
/// entry.
pub proof fn lemma_recommendation_determined(
    sts: Seq<Showtime>,
    p: Preferences,
    limit: int,
    r1: Seq<Recommendation>,
    r2: Seq<Recommendation>,
)
    requires
        limit >= 0,
        recommended(sts, p, limit, r1),
        recommended(sts, p, limit, r2),
    ensures
        same_recommendations(r1, r2),
{
    if !(p.party_size == 0 || limit == 0) {
        let c1 = choose|c: Seq<Recommendation>| #[trigger] analyses(sts, p, c) && r1 == ranked(c, limit);
        let c2 = choose|c: Seq<Recommendation>| #[trigger] analyses(sts, p, c) && r2 == ranked(c, limit);
        lemma_analyses_determined(sts, p, c1, c2);
        assert(has_apt(c1) == has_apt(c2)) by {
            if has_apt(c1) {
                let k = choose|k: int| 0 <= k < c1.len() && apt(#[trigger] c1[k]);
                assert(same_recommendation(c1[k], c2[k]));
            }
            if has_apt(c2) {
                let k = choose|k: int| 0 <= k < c2.len() && apt(#[trigger] c2[k]);
                assert(same_recommendation(c1[k], c2[k]));
            }
        }
        assert(has_apt_across_aisle(c1) == has_apt_across_aisle(c2)) by {
            if has_apt_across_aisle(c1) {
                let k = choose|k: int| 0 <= k < c1.len() && apt(#[trigger] c1[k]) && c1[k].arrangement is AcrossAisle;
                assert(same_recommendation(c1[k], c2[k]));
            }
            if has_apt_across_aisle(c2) {
                let k = choose|k: int| 0 <= k < c2.len() && apt(#[trigger] c2[k]) && c2[k].arrangement is AcrossAisle;
                assert(same_recommendation(c1[k], c2[k]));
            }
        }
        if has_apt(c1) {
            lemma_keep_all_same(c1, c2, has_apt_across_aisle(c1));
        }
        lemma_sort_ranked_same(shown(c1), shown(c2));
        let t1 = sort_ranked(shown(c1));
        let t2 = sort_ranked(shown(c2));
        if limit < t1.len() {
            assert(r1 == t1.take(limit) && r2 == t2.take(limit));
            assert forall|k: int| 0 <= k < r1.len() implies same_recommendation(#[trigger] r1[k], r2[k]) by {
                assert(r1[k] == t1[k] && r2[k] == t2[k]);
            }
        }
    }
}

/// Once some analysis is of good or excellent quality, every recommendation
/// returned is of good or excellent quality, or is a block of seats side by
/// side while some good or excellent analysis is split by an aisle.
pub proof fn lemma_unfavorable_hidden_by_apt(c: Seq<Recommendation>, limit: int)
    requires
        limit >= 0,
        exists|k: int| 0 <= k < c.len() && (#[trigger] c[k]).quality != Quality::Unfavorable,
    ensures
        forall|i: int|
            0 <= i < ranked(c, limit).len() ==> (#[trigger] ranked(c, limit)[i]).quality
                != Quality::Unfavorable || (ranked(c, limit)[i].arrangement
                == SeatingArrangement::Together && exists|k: int|
                0 <= k < c.len() && (#[trigger] c[k]).quality != Quality::Unfavorable
                    && c[k].arrangement is AcrossAisle),
{
    let k = choose|k: int| 0 <= k < c.len() && (#[trigger] c[k]).quality != Quality::Unfavorable;
    assert(apt(c[k]));
    lemma_apt_options_hide_unfavorable(c, limit);
    assert forall|i: int| 0 <= i < ranked(c, limit).len() implies (#[trigger] ranked(c, limit)[i]).quality
        != Quality::Unfavorable || (ranked(c, limit)[i].arrangement == SeatingArrangement::Together
        && exists|k: int|
        0 <= k < c.len() && (#[trigger] c[k]).quality != Quality::Unfavorable
            && c[k].arrangement is AcrossAisle) by {
        assert(kept(ranked(c, limit)[i], has_apt_across_aisle(c)));
        if has_apt_across_aisle(c) {
            let m = choose|m: int| 0 <= m < c.len() && apt(#[trigger] c[m]) && c[m].arrangement is AcrossAisle;
            assert(c[m].quality != Quality::Unfavorable);
        }
    }
}

/// A favorite venue adds exactly eight points to the ranking score and
/// nothing else does: the ranking score is the visual score, plus eight for a
/// showtime whose venue id is among the favorite venue ids.
pub proof fn lemma_favorite_bonus_exact(st: Showtime, p: Preferences, rec: Recommendation)
    requires
        analysis_of(st, p, rec),
        bounded(rec.visual_score),
    ensures
        rec.score.denominator == rec.visual_score.denominator,
        rec.score.numerator == rec.visual_score.numerator + (if exists|i: int|
            0 <= i < p.favorite_venue_ids@.len() && (#[trigger] p.favorite_venue_ids@[i])@
                == st.venue_id@ {
            8 * rec.visual_score.denominator
        } else {
            0
        }),
{
    let a = choose|a: ViewingAssessment|
        assessed(st, p.party_size as int, Some(a)) && #[trigger] presents(rec, st, p, a);
    let v = rec.visual_score;
    assert(v.numerator + 8 * v.denominator <= 0x2000_0000_0000_0000_0000_0000_0000 + 8
        * 0x40_0000_0000_0000_0000_0000_0000) by (nonlinear_arith)
        requires
            v.numerator <= 0x2000_0000_0000_0000_0000_0000_0000,
            v.denominator <= 0x40_0000_0000_0000_0000_0000_0000,
    ;
}

/// Recommendations in rank order: a block side by side never follows a
/// split or scattered one, and a split one never follows a scattered one;
/// within one arrangement a lower ranking score never comes before a higher
/// one; and at equal arrangement and score a later start never comes before
/// an earlier one.
pub proof fn lemma_rank_order_explicit(r: Seq<Recommendation>)
    requires
        in_rank_order(r),
    ensures
        forall|i: int, j: int|
            0 <= i < j < r.len() ==> {
                let a = #[trigger] r[i];
                let b = #[trigger] r[j];
                &&& (b.arrangement == SeatingArrangement::Together ==> a.arrangement
                    == SeatingArrangement::Together)
                &&& (b.arrangement is AcrossAisle ==> a.arrangement != SeatingArrangement::Scattered)
                &&& (priority(a.arrangement) == priority(b.arrangement) ==> a.score.numerator
                    * b.score.denominator >= b.score.numerator * a.score.denominator)
                &&& (priority(a.arrangement) == priority(b.arrangement) && a.score.numerator
                    * b.score.denominator == b.score.numerator * a.score.denominator
                    ==> (a.showtime.starts_at.instant_seconds < b.showtime.starts_at.instant_seconds
                    || (a.showtime.starts_at.instant_seconds == b.showtime.starts_at.instant_seconds
                    && a.showtime.starts_at.subsec_nanos <= b.showtime.starts_at.subsec_nanos)))
            },
{
    assert forall|i: int, j: int| 0 <= i < j < r.len() implies {
        let a = #[trigger] r[i];
        let b = #[trigger] r[j];
        &&& (b.arrangement == SeatingArrangement::Together ==> a.arrangement
            == SeatingArrangement::Together)
        &&& (b.arrangement is AcrossAisle ==> a.arrangement != SeatingArrangement::Scattered)
        &&& (priority(a.arrangement) == priority(b.arrangement) ==> a.score.numerator
            * b.score.denominator >= b.score.numerator * a.score.denominator)
        &&& (priority(a.arrangement) == priority(b.arrangement) && a.score.numerator
            * b.score.denominator == b.score.numerator * a.score.denominator
            ==> (a.showtime.starts_at.instant_seconds < b.showtime.starts_at.instant_seconds
            || (a.showtime.starts_at.instant_seconds == b.showtime.starts_at.instant_seconds
            && a.showtime.starts_at.subsec_nanos <= b.showtime.starts_at.subsec_nanos)))
    } by {
        assert(!ranks_before(r[j], r[i]));
    }
}

} // verus!
