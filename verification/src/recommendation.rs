//! The versioned `recommend` response: candidate selection, venue aliases,
//! seat previews, checkout hand-offs and the response itself.
use vstd::prelude::*;

use crate::cli::RecommendArgs;
use crate::clock::{date_label, local_date_text, rfc3339_label, rfc3339_text, utc_now_rfc3339};
use crate::domain::{
    Catalog, Movie, Preferences, Quality, Recommendation, Score, Seat, SeatMap, SeatState,
    SeatingArrangement, Showtime, Venue, copy_opt_text, copy_seats, copy_text, copy_texts, has_text,
    same_showtime,
};
use crate::live::{HydrationFailure, HydrationOutcome};
use crate::ranking::{analyses, ranked, recommend};
use crate::seats::{SeatOrder, lemma_sort_len, sort_seats, sorted_seats};
use crate::viewing::{
    GOOD_VIEWING_ZONE_ID, find_column, first_with_x, free_seats, good_position,
    selected_block_is_in_good_viewing_zone,
};
use crate::text::{
    char_lowercase, compare_text, concat, eq_ignore_ascii_case, owned, trim_char_text, trim_matching, equals_ignoring_ascii_case,
    is_alphanumeric, is_whitespace, lemma_text_lt_asymmetric, lemma_text_lt_irreflexive,
    lemma_text_lt_total, lemma_text_lt_transitive, string_of, text_lt, unicode_alphanumeric,
    unicode_lowercase, unicode_whitespace,
};

verus! {

#[derive(Debug)]
pub enum RecommendError {
    MovieNotFound { query: String },
    AmbiguousMovieTitle { title: String, matches: Vec<MovieMatchV1> },
    RecommendFailed { stage: String, message: String },
}

#[derive(Debug)]
pub struct RecommendationErrorResponseV1 {
    pub version: String,
    pub error: RecommendError,
}

#[derive(Debug, Clone)]
pub struct MovieMatchV1 {
    pub id: String,
    pub title: String,
}

#[derive(Debug, Clone)]
pub struct QueryV1 {
    pub movie_id: String,
    pub movie_title: String,
    pub city: String,
    pub party_size: usize,
    pub dates: Vec<String>,
    pub venues: Vec<String>,
    pub languages: Vec<String>,
    pub formats: Vec<String>,
    pub room_types: Vec<String>,
    pub favorite_venues: Vec<String>,
    pub limit: usize,
}

// ---------------------------------------------------------------------------
// Matching.
// ---------------------------------------------------------------------------
/// No values means no restriction; otherwise some value equals `actual` up
/// to ASCII case.
pub open spec fn matches_any_spec(values: Seq<String>, actual: Seq<char>) -> bool {
    values.len() == 0 || exists|k: int| 0 <= k < values.len() && eq_ignore_ascii_case(
        (#[trigger] values[k])@,
        actual,
    )
}

pub fn matches_any(values: &Vec<String>, actual: &str) -> (r: bool)
    ensures
        r == matches_any_spec(values@, actual@),
{
    if values.len() == 0 {
        return true;
    }
    let mut k: usize = 0;
    while k < values.len()
        invariant
            k <= values.len(),
            forall|m: int| 0 <= m < k ==> !eq_ignore_ascii_case((#[trigger] values@[m])@, actual@),
        decreases values.len() - k,
    {
        if equals_ignoring_ascii_case(values[k].as_str(), actual) {
            return true;
        }
        k += 1;
    }
    false
}

/// The characters of `t` lower-cased one by one, as Unicode does it.
pub open spec fn lowered(t: Seq<char>) -> Seq<char>
    decreases t.len(),
{
    if t.len() == 0 {
        Seq::empty()
    } else {
        lowered(t.drop_last()) + unicode_lowercase(t.last())
    }
}

/// `t` with every character that is not alphanumeric replaced by a space.
pub open spec fn masked(t: Seq<char>) -> Seq<char> {
    t.map_values(|c: char| if unicode_alphanumeric(c) { c } else { ' ' })
}

/// The completed words of `t` and the word still being read, splitting at
/// white space.
pub open spec fn words_read(t: Seq<char>) -> (Seq<Seq<char>>, Seq<char>)
    decreases t.len(),
{
    if t.len() == 0 {
        (Seq::empty(), Seq::empty())
    } else {
        let (done, current) = words_read(t.drop_last());
        if unicode_whitespace(t.last()) {
            if current.len() > 0 {
                (done.push(current), Seq::empty())
            } else {
                (done, Seq::empty())
            }
        } else {
            (done, current.push(t.last()))
        }
    }
}

/// The non-empty runs of `t` between white space, as `split_whitespace`.
pub open spec fn words(t: Seq<char>) -> Seq<Seq<char>> {
    let (done, current) = words_read(t);
    if current.len() > 0 {
        done.push(current)
    } else {
        done
    }
}

/// A word that a venue name may carry as a leading prefix.
pub open spec fn prefix_word(w: Seq<char>) -> bool {
    w == "cp"@ || w == "cineplanet"@ || w == "plaza"@
}

/// `ws` without its leading prefix words.
pub open spec fn strip_prefixes(ws: Seq<Seq<char>>) -> Seq<Seq<char>>
    decreases ws.len(),
{
    if ws.len() > 0 && prefix_word(ws[0]) {
        strip_prefixes(ws.drop_first())
    } else {
        ws
    }
}

/// The words joined by single spaces.
pub open spec fn join_words(ws: Seq<Seq<char>>) -> Seq<char>
    decreases ws.len(),
{
    if ws.len() == 0 {
        Seq::empty()
    } else if ws.len() == 1 {
        ws[0]
    } else {
        join_words(ws.drop_last()) + " "@ + ws.last()
    }
}

/// The comparable form of a venue name: lower case, punctuation as spaces,
/// without leading prefix words, words joined by single spaces; `None` when
/// no word remains.
pub open spec fn venue_alias(t: Seq<char>) -> Option<Seq<char>> {
    alias_from(masked(lowered(t)))
}

/// The alias of a text already lower-cased and masked: its words without
/// leading prefix words, joined by single spaces; `None` when none remains.
pub open spec fn alias_from(m: Seq<char>) -> Option<Seq<char>> {
    let ws = strip_prefixes(words(m));
    if ws.len() == 0 {
        None
    } else {
        Some(join_words(ws))
    }
}

fn lowered_masked(value: &str) -> (r: Vec<char>)
    ensures
        r@ == masked(lowered(value@)),
{
    let cs = crate::text::chars_of(value);
    let mut out: Vec<char> = Vec::new();
    let mut i: usize = 0;
    while i < cs.len()
        invariant
            cs@ == value@,
            i <= cs.len(),
            out@ == masked(lowered(cs@.take(i as int))),
        decreases cs.len() - i,
    {
        let low = char_lowercase(cs[i]);
        let ghost before = out@;
        let mut k: usize = 0;
        while k < low.len()
            invariant
                k <= low.len(),
                out@ == before + masked(low@.take(k as int)),
            decreases low.len() - k,
        {
            let c = low[k];
            let m = if is_alphanumeric(c) {
                c
            } else {
                ' '
            };
            out.push(m);
            proof {
                assert(masked(low@.take(k + 1)) =~= masked(low@.take(k as int)).push(m));
            }
            k += 1;
        }
        proof {
            assert(low@.take(low.len() as int) =~= low@);
            assert(cs@.take(i + 1).drop_last() =~= cs@.take(i as int));
            assert(cs@.take(i + 1).last() == cs@[i as int]);
            assert(masked(lowered(cs@.take(i + 1))) =~= masked(lowered(cs@.take(i as int)))
                + masked(unicode_lowercase(cs@[i as int])));
        }
        i += 1;
    }
    proof {
        assert(cs@.take(cs@.len() as int) =~= cs@);
    }
    out
}

fn split_words(t: &Vec<char>) -> (r: Vec<Vec<char>>)
    ensures
        r@.map_values(|w: Vec<char>| w@) == words(t@),
{
    let mut done: Vec<Vec<char>> = Vec::new();
    let mut current: Vec<char> = Vec::new();
    let mut i: usize = 0;
    while i < t.len()
        invariant
            i <= t.len(),
            (done@.map_values(|w: Vec<char>| w@), current@) == words_read(t@.take(i as int)),
        decreases t.len() - i,
    {
        proof {
            assert(t@.take(i + 1).drop_last() =~= t@.take(i as int));
            assert(t@.take(i + 1).last() == t@[i as int]);
        }
        let c = t[i];
        if is_whitespace(c) {
            if current.len() > 0 {
                let ghost d = done@;
                let word = current;
                current = Vec::new();
                done.push(word);
                proof {
                    assert(done@.map_values(|w: Vec<char>| w@) =~= d.map_values(|w: Vec<char>| w@).push(
                        word@,
                    ));
                }
            } else {
                current = Vec::new();
            }
        } else {
            current.push(c);
        }
        i += 1;
    }
    proof {
        assert(t@.take(t@.len() as int) =~= t@);
    }
    if current.len() > 0 {
        let ghost d = done@;
        let word = current;
        done.push(word);
        proof {
            assert(done@.map_values(|w: Vec<char>| w@) =~= d.map_values(|w: Vec<char>| w@).push(word@));
        }
    }
    done
}

fn is_prefix_word(w: &Vec<char>) -> (r: bool)
    ensures
        r == prefix_word(w@),
{
    let s = string_of(w.as_slice());
    let a = compare_text(s.as_str(), "cp") == 0;
    let b = compare_text(s.as_str(), "cineplanet") == 0;
    let c = compare_text(s.as_str(), "plaza") == 0;
    a || b || c
}

/// The comparable form of a venue name, if any word remains.
pub fn normalized_venue_alias(value: &str) -> (r: Option<String>)
    ensures
        r matches Some(a) ==> venue_alias(value@) == Some(a@),
        r is None ==> venue_alias(value@) is None,
{
    let masked_chars = lowered_masked(value);
    alias_of_masked(&masked_chars)
}

/// The alias of a venue name already lower-cased, with every character that
/// is not alphanumeric replaced by a space.
pub fn alias_of_masked(masked_chars: &Vec<char>) -> (r: Option<String>)
    ensures
        r matches Some(a) ==> alias_from(masked_chars@) == Some(a@),
        r is None ==> alias_from(masked_chars@) is None,
{
    let ws = split_words(masked_chars);
    let ghost all = ws@.map_values(|w: Vec<char>| w@);
    let mut start: usize = 0;
    proof {
        assert(all.skip(0) =~= all);
    }
    while start < ws.len() && is_prefix_word(&ws[start])
        invariant
            start <= ws.len(),
            all == ws@.map_values(|w: Vec<char>| w@),
            strip_prefixes(all) == strip_prefixes(all.skip(start as int)),
        decreases ws.len() - start,
    {
        proof {
            assert(all.skip(start as int)[0] == ws@[start as int]@);
            assert(all.skip(start as int).drop_first() =~= all.skip(start + 1));
        }
        start += 1;
    }
    proof {
        if start < ws.len() {
            assert(all.skip(start as int)[0] == ws@[start as int]@);
        }
    }
    if start == ws.len() {
        proof {
            assert(all.skip(start as int).len() == 0);
        }
        return None;
    }
    let ghost kept = all.skip(start as int);
    let mut out: Vec<char> = Vec::new();
    let mut k: usize = start;
    while k < ws.len()
        invariant
            start < ws.len(),
            start <= k <= ws.len(),
            all == ws@.map_values(|w: Vec<char>| w@),
            kept == all.skip(start as int),
            k > start ==> out@ == join_words(kept.take(k - start)),
            k == start ==> out@.len() == 0,
        decreases ws.len() - k,
    {
        let ghost prev = out@;
        if k > start {
            out.push(' ');
        }
        let w = &ws[k];
        let mut m: usize = 0;
        let ghost base = out@;
        while m < w.len()
            invariant
                m <= w.len(),
                out@ == base + w@.take(m as int),
            decreases w.len() - m,
        {
            out.push(w[m]);
            proof {
                assert(w@.take(m + 1) =~= w@.take(m as int).push(w@[m as int]));
            }
            m += 1;
        }
        proof {
            assert(w@.take(w.len() as int) =~= w@);
            assert(kept.take(k + 1 - start).drop_last() =~= kept.take(k - start));
            assert(kept.take(k + 1 - start).last() == ws@[k as int]@);
            if k > start {
                reveal_strlit(" ");
                assert(out@ =~= prev + " "@ + ws@[k as int]@);
            } else {
                assert(kept.take(1).len() == 1);
                assert(out@ =~= ws@[k as int]@);
            }
        }
        k += 1;
    }
    proof {
        assert(kept.take(ws.len() - start) =~= kept);
    }
    Some(string_of(out.as_slice()))
}

/// A venue query names the venue: its id or name up to ASCII case, or the
/// same comparable form as its name.
pub open spec fn venue_matches_spec(query: Seq<char>, venue_id: Seq<char>, venue_name: Seq<char>) -> bool {
    eq_ignore_ascii_case(query, venue_id) || eq_ignore_ascii_case(query, venue_name) || (venue_alias(
        query,
    ) is Some && venue_alias(query) == venue_alias(venue_name))
}

pub fn venue_matches(query: &str, venue_id: &str, venue_name: &str) -> (r: bool)
    ensures
        r == venue_matches_spec(query@, venue_id@, venue_name@),
{
    if equals_ignoring_ascii_case(query, venue_id) || equals_ignoring_ascii_case(query, venue_name) {
        return true;
    }
    match (normalized_venue_alias(query), normalized_venue_alias(venue_name)) {
        (Some(a), Some(b)) => compare_text(a.as_str(), b.as_str()) == 0,
        _ => false,
    }
}

// ---------------------------------------------------------------------------
// Sorted sets of texts.
// ---------------------------------------------------------------------------
/// Strictly increasing texts: sorted and without repetition.
pub open spec fn strictly_sorted(v: Seq<String>) -> bool {
    forall|a: int, b: int| 0 <= a < b < v.len() ==> text_lt(v[a]@, v[b]@)
}

/// Where `v` belongs in a strictly sorted list: whether it is already there,
/// and the position of its first equal or greater element.
fn locate(out: &Vec<String>, v: &String) -> (r: (usize, bool))
    requires
        strictly_sorted(out@),
    ensures
        r.0 <= out.len(),
        r.1 ==> r.0 < out.len() && out@[r.0 as int]@ == v@,
        !r.1 ==> forall|m: int| 0 <= m < r.0 ==> text_lt((#[trigger] out@[m])@, v@),
        !r.1 ==> r.0 < out.len() ==> text_lt(v@, out@[r.0 as int]@),
{
    let mut j: usize = 0;
    while j < out.len()
        invariant
            j <= out.len(),
            forall|m: int| 0 <= m < j ==> text_lt((#[trigger] out@[m])@, v@),
        decreases out.len() - j,
    {
        let c = compare_text(out[j].as_str(), v.as_str());
        if c == 0 {
            return (j, true);
        }
        if c > 0 {
            return (j, false);
        }
        j += 1;
    }
    (j, false)
}

/// The distinct texts of `values`, in increasing order.
pub fn sorted(values: &Vec<String>) -> (r: Vec<String>)
    ensures
        strictly_sorted(r@),
        forall|t: Seq<char>| has_text(r@, t) <==> has_text(values@, t),
{
    let mut out: Vec<String> = Vec::new();
    let mut i: usize = 0;
    while i < values.len()
        invariant
            i <= values.len(),
            strictly_sorted(out@),
            forall|t: Seq<char>| has_text(out@, t) <==> has_text(values@.take(i as int), t),
        decreases values.len() - i,
    {
        let v = &values[i];
        let (j, found) = locate(&out, v);
        proof {
            assert(values@.take(i + 1) =~= values@.take(i as int).push(values@[i as int]));
        }
        if !found {
            let ghost before = out@;
            out.insert(j, v.clone());
            proof {
                assert(out@ =~= before.take(j as int).push(*v) + before.skip(j as int));
                assert(out@.len() == before.len() + 1);
                assert(out@[j as int] == *v);
                assert forall|q: int| 0 <= q < j implies #[trigger] out@[q] == before[q] by {
                    assert(out@[q] == before.take(j as int)[q]);
                }
                assert forall|q: int| j <= q < before.len() implies #[trigger] out@[q + 1] == before[q] by {
                    assert(out@[q + 1] == before.skip(j as int)[q - j]);
                }
                assert forall|a: int, b: int| 0 <= a < b < out@.len() implies text_lt(
                    out@[a]@,
                    out@[b]@,
                ) by {
                    if b < j {
                        assert(out@[a] == before[a] && out@[b] == before[b]);
                    } else if b == j {
                        assert(out@[a] == before[a]);
                    } else if a == j {
                        assert(out@[b] == before[b - 1]);
                        if b - 1 > j {
                            lemma_text_lt_transitive(v@, before[j as int]@, before[b - 1]@);
                        }
                    } else if a < j {
                        assert(out@[a] == before[a]);
                        assert(out@[b] == before[b - 1]);
                    } else {
                        assert(out@[a] == before[a - 1]);
                        assert(out@[b] == before[b - 1]);
                    }
                }
                assert forall|t: Seq<char>| has_text(out@, t) <==> has_text(values@.take(i + 1), t) by {
                    if has_text(out@, t) {
                        let m = choose|m: int| 0 <= m < out@.len() && (#[trigger] out@[m])@ == t;
                        if m < j {
                            assert(before[m] == out@[m]);
                            assert(has_text(before, t));
                        } else if m > j {
                            assert(before[m - 1] == out@[m]);
                            assert(has_text(before, t));
                        } else {
                            assert(values@.take(i + 1)[i as int] == *v);
                        }
                        if has_text(before, t) {
                            let q = choose|q: int|
                                0 <= q < values@.take(i as int).len() && (#[trigger] values@.take(
                                    i as int,
                                )[q])@ == t;
                            assert(values@.take(i + 1)[q] == values@.take(i as int)[q]);
                        }
                    }
                    if has_text(values@.take(i + 1), t) {
                        let m = choose|m: int|
                            0 <= m < values@.take(i + 1).len() && (#[trigger] values@.take(i + 1)[m])@
                                == t;
                        if m < i {
                            assert(values@.take(i as int)[m] == values@.take(i + 1)[m]);
                            assert(has_text(values@.take(i as int), t));
                            assert(has_text(before, t));
                            let q = choose|q: int| 0 <= q < before.len() && (#[trigger] before[q])@ == t;
                            assert(0 <= q < before.len());
                            if q < j {
                                assert(out@[q] == before[q]);
                            } else {
                                assert(out@[q + 1] == before[q]);
                            }
                        } else {
                            assert(out@[j as int] == *v);
                        }
                    }
                }
            }
        } else {
            proof {
                assert forall|t: Seq<char>| has_text(out@, t) <==> has_text(values@.take(i + 1), t) by {
                    if has_text(values@.take(i + 1), t) {
                        let m = choose|m: int|
                            0 <= m < values@.take(i + 1).len() && (#[trigger] values@.take(i + 1)[m])@
                                == t;
                        if m < i {
                            assert(values@.take(i as int)[m] == values@.take(i + 1)[m]);
                            assert(has_text(values@.take(i as int), t));
                        } else {
                            assert(out@[j as int]@ == t);
                        }
                    }
                    if has_text(out@, t) {
                        assert(has_text(values@.take(i as int), t));
                        let m = choose|m: int|
                            0 <= m < values@.take(i as int).len() && (#[trigger] values@.take(
                                i as int,
                            )[m])@ == t;
                        assert(values@.take(i + 1)[m] == values@.take(i as int)[m]);
                    }
                }
            }
        }
        i += 1;
    }
    proof {
        assert(values@.take(values@.len() as int) =~= values@);
    }
    out
}


// ---------------------------------------------------------------------------
// Candidate selection.
// ---------------------------------------------------------------------------
/// `r` holds the distinct texts of `values` in increasing order.
pub open spec fn sorted_texts(r: Seq<String>, values: Seq<String>) -> bool {
    strictly_sorted(r) && forall|t: Seq<char>| has_text(r, t) <==> has_text(values, t)
}

/// The echoed query of a `recommend` request for the chosen movie.
pub open spec fn echoes(q: QueryV1, movie_id: Seq<char>, movie_title: Seq<char>, args: RecommendArgs) -> bool {
    &&& q.movie_id@ == movie_id
    &&& q.movie_title@ == movie_title
    &&& q.city@ == args.city@
    &&& q.party_size == args.party_size
    &&& sorted_texts(q.dates@, args.dates@)
    &&& sorted_texts(q.venues@, args.venues@)
    &&& sorted_texts(q.languages@, args.languages@)
    &&& sorted_texts(q.formats@, args.formats@)
    &&& sorted_texts(q.room_types@, args.room_types@)
    &&& sorted_texts(q.favorite_venues@, args.favorite_venues@)
    &&& q.limit == args.limit
}

pub fn query(movie_id: String, movie_title: String, args: &RecommendArgs) -> (r: QueryV1)
    ensures
        echoes(r, movie_id@, movie_title@, *args),
{
    QueryV1 {
        movie_id,
        movie_title,
        city: copy_text(&args.city),
        party_size: args.party_size,
        dates: sorted(&args.dates),
        venues: sorted(&args.venues),
        languages: sorted(&args.languages),
        formats: sorted(&args.formats),
        room_types: sorted(&args.room_types),
        favorite_venues: sorted(&args.favorite_venues),
        limit: args.limit,
    }
}

/// Position of the first movie with the given id, if any.
pub open spec fn first_movie_with_id(movies: Seq<Movie>, id: Seq<char>) -> Option<int>
    decreases movies.len(),
{
    if movies.len() == 0 {
        None
    } else if movies[0].id@ == id {
        Some(0)
    } else {
        match first_movie_with_id(movies.drop_first(), id) {
            Some(k) => Some(k + 1),
            None => None,
        }
    }
}

/// The movies whose title equals `title` up to ASCII case, in order.
pub open spec fn titled(movies: Seq<Movie>, title: Seq<char>) -> Seq<Movie>
    decreases movies.len(),
{
    if movies.len() == 0 {
        Seq::empty()
    } else if eq_ignore_ascii_case(movies.last().title@, title) {
        titled(movies.drop_last(), title).push(movies.last())
    } else {
        titled(movies.drop_last(), title)
    }
}

/// Position of the first venue with the given id, if any.
pub open spec fn first_venue_with_id(venues: Seq<Venue>, id: Seq<char>) -> Option<int>
    decreases venues.len(),
{
    if venues.len() == 0 {
        None
    } else if venues[0].id@ == id {
        Some(0)
    } else {
        match first_venue_with_id(venues.drop_first(), id) {
            Some(k) => Some(k + 1),
            None => None,
        }
    }
}

/// The local date text of a showtime's start, empty when unrepresentable.
pub open spec fn start_date(s: Showtime) -> Seq<char> {
    match local_date_text(s.starts_at.instant_seconds, s.starts_at.subsec_nanos, s.starts_at.offset_seconds) {
        Some(d) => d,
        None => Seq::empty(),
    }
}

/// The showtime is of the movie, at a venue of the requested city, and meets
/// every filter of the request.
pub open spec fn candidate_for(venues: Seq<Venue>, args: RecommendArgs, movie_id: Seq<char>, s: Showtime) -> bool {
    &&& s.movie_id@ == movie_id
    &&& match first_venue_with_id(venues, s.venue_id@) {
        Some(k) => eq_ignore_ascii_case(venues[k].city@, args.city@),
        None => false,
    }
    &&& matches_any_spec(args.dates@, start_date(s))
    &&& (args.venues@.len() == 0 || exists|k: int|
        0 <= k < args.venues@.len() && venue_matches_spec(
            (#[trigger] args.venues@[k])@,
            s.venue_id@,
            s.venue_name@,
        ))
    &&& matches_any_spec(args.languages@, s.modality.language@)
    &&& matches_any_spec(args.formats@, s.modality.projection_format@)
    &&& matches_any_spec(args.room_types@, s.modality.room_type@)
}

/// The candidate showtimes, in catalog order.
pub open spec fn candidates_of(
    showtimes: Seq<Showtime>,
    venues: Seq<Venue>,
    args: RecommendArgs,
    movie_id: Seq<char>,
) -> Seq<Showtime>
    decreases showtimes.len(),
{
    if showtimes.len() == 0 {
        Seq::empty()
    } else {
        let rest = candidates_of(showtimes.drop_last(), venues, args, movie_id);
        if candidate_for(venues, args, movie_id, showtimes.last()) {
            rest.push(showtimes.last())
        } else {
            rest
        }
    }
}

/// `a` copies `b` showtime by showtime.
pub open spec fn same_showtimes(a: Seq<Showtime>, b: Seq<Showtime>) -> bool {
    a.len() == b.len() && forall|k: int| 0 <= k < a.len() ==> same_showtime(#[trigger] a[k], b[k])
}

pub(crate) fn find_movie_by_id(movies: &Vec<Movie>, id: &str) -> (r: Option<usize>)
    ensures
        r matches Some(k) ==> first_movie_with_id(movies@, id@) == Some(k as int) && k < movies.len(),
        r is None ==> first_movie_with_id(movies@, id@) is None,
{
    let mut k: usize = 0;
    proof {
        assert(movies@.skip(0) =~= movies@);
    }
    while k < movies.len()
        invariant
            k <= movies.len(),
            first_movie_with_id(movies@, id@) == match first_movie_with_id(movies@.skip(k as int), id@) {
                Some(m) => Some(m + k),
                None => None,
            },
        decreases movies.len() - k,
    {
        proof {
            assert(movies@.skip(k as int)[0] == movies@[k as int]);
            assert(movies@.skip(k as int).drop_first() =~= movies@.skip(k + 1));
        }
        if compare_text(movies[k].id.as_str(), id) == 0 {
            return Some(k);
        }
        k += 1;
    }
    None
}

pub(crate) fn find_venue_by_id(venues: &Vec<Venue>, id: &str) -> (r: Option<usize>)
    ensures
        r matches Some(k) ==> first_venue_with_id(venues@, id@) == Some(k as int) && k < venues.len(),
        r is None ==> first_venue_with_id(venues@, id@) is None,
{
    let mut k: usize = 0;
    proof {
        assert(venues@.skip(0) =~= venues@);
    }
    while k < venues.len()
        invariant
            k <= venues.len(),
            first_venue_with_id(venues@, id@) == match first_venue_with_id(venues@.skip(k as int), id@) {
                Some(m) => Some(m + k),
                None => None,
            },
        decreases venues.len() - k,
    {
        proof {
            assert(venues@.skip(k as int)[0] == venues@[k as int]);
            assert(venues@.skip(k as int).drop_first() =~= venues@.skip(k + 1));
        }
        if compare_text(venues[k].id.as_str(), id) == 0 {
            return Some(k);
        }
        k += 1;
    }
    None
}

fn titled_movies(movies: &Vec<Movie>, title: &str) -> (r: Vec<Movie>)
    ensures
        r@ == titled(movies@, title@),
{
    let mut out: Vec<Movie> = Vec::new();
    let mut k: usize = 0;
    while k < movies.len()
        invariant
            k <= movies.len(),
            out@ == titled(movies@.take(k as int), title@),
        decreases movies.len() - k,
    {
        proof {
            assert(movies@.take(k + 1).drop_last() =~= movies@.take(k as int));
            assert(movies@.take(k + 1).last() == movies@[k as int]);
        }
        if equals_ignoring_ascii_case(movies[k].title.as_str(), title) {
            out.push(movies[k].copied());
        }
        k += 1;
    }
    proof {
        assert(movies@.take(movies@.len() as int) =~= movies@);
    }
    out
}

fn any_venue_matches(queries: &Vec<String>, venue_id: &str, venue_name: &str) -> (r: bool)
    ensures
        r == exists|k: int|
            0 <= k < queries@.len() && venue_matches_spec((#[trigger] queries@[k])@, venue_id@, venue_name@),
{
    let mut k: usize = 0;
    while k < queries.len()
        invariant
            k <= queries.len(),
            forall|m: int| 0 <= m < k ==> !venue_matches_spec((#[trigger] queries@[m])@, venue_id@, venue_name@),
        decreases queries.len() - k,
    {
        if venue_matches(queries[k].as_str(), venue_id, venue_name) {
            return true;
        }
        k += 1;
    }
    false
}

fn is_candidate(catalog: &Catalog, args: &RecommendArgs, movie_id: &str, s: &Showtime) -> (r: bool)
    ensures
        r == candidate_for(catalog.venues@, *args, movie_id@, *s),
{
    if compare_text(s.movie_id.as_str(), movie_id) != 0 {
        return false;
    }
    let city_ok = match find_venue_by_id(&catalog.venues, s.venue_id.as_str()) {
        Some(k) => equals_ignoring_ascii_case(catalog.venues[k].city.as_str(), args.city.as_str()),
        None => false,
    };
    if !city_ok {
        return false;
    }
    let date = date_label(s.starts_at);
    if !matches_any(&args.dates, date.as_str()) {
        return false;
    }
    let venue_ok = args.venues.len() == 0 || any_venue_matches(
        &args.venues,
        s.venue_id.as_str(),
        s.venue_name.as_str(),
    );
    venue_ok && matches_any(&args.languages, s.modality.language.as_str()) && matches_any(
        &args.formats,
        s.modality.projection_format.as_str(),
    ) && matches_any(&args.room_types, s.modality.room_type.as_str())
}

/// Outcome of choosing the movie of a request.
pub open spec fn chosen_movie(movies: Seq<Movie>, args: RecommendArgs) -> Option<Movie> {
    match args.movie_id {
        Some(id) => match first_movie_with_id(movies, id@) {
            Some(k) => Some(movies[k]),
            None => None,
        },
        None => if titled(movies, args.movie_title.unwrap()@).len() == 1 {
            Some(titled(movies, args.movie_title.unwrap()@)[0])
        } else {
            None
        },
    }
}

/// Chooses the movie of a request and the showtimes to hydrate, and builds
/// the ranking preferences and the echoed query.
///
/// A movie id that no movie has, or a title that no movie has up to ASCII
/// case, is not found; a title that several movies share is ambiguous.
pub fn select_candidates(catalog: &Catalog, args: &RecommendArgs) -> (r: Result<
    (QueryV1, Vec<Showtime>, Preferences),
    RecommendError,
>)
    requires
        args.movie_id is Some || args.movie_title is Some,
    ensures
        chosen_movie(catalog.movies@, *args) matches Some(m) ==> r matches Ok((q, cands, prefs)) && {
            &&& echoes(q, m.id@, m.title@, *args)
            &&& same_showtimes(cands@, candidates_of(catalog.showtimes@, catalog.venues@, *args, m.id@))
            &&& prefs.party_size == args.party_size
            &&& sorted_texts(prefs.favorite_venue_ids@, args.favorite_venues@)
            &&& !prefs.onboarding_complete && prefs.city is None
            &&& prefs.accepted_languages@.len() == 0 && prefs.accepted_formats@.len() == 0
                && prefs.accepted_room_types@.len() == 0
        },
        r matches Err(RecommendError::MovieNotFound { query }) ==> chosen_movie(catalog.movies@, *args)
            is None && match args.movie_id {
            Some(id) => query@ == id@,
            None => query@ == args.movie_title.unwrap()@ && titled(
                catalog.movies@,
                args.movie_title.unwrap()@,
            ).len() == 0,
        },
        r matches Err(RecommendError::AmbiguousMovieTitle { title, matches }) ==> args.movie_id is None
            && title@ == args.movie_title.unwrap()@ && titled(catalog.movies@, title@).len() >= 2
            && matches@.len() == titled(catalog.movies@, title@).len() && forall|k: int|
            0 <= k < matches@.len() ==> (#[trigger] matches@[k]).id == titled(catalog.movies@, title@)[k].id
                && matches@[k].title == titled(catalog.movies@, title@)[k].title,
        !(r matches Err(RecommendError::RecommendFailed { .. })),
        chosen_movie(catalog.movies@, *args) is None ==> r is Err,
{
    let movie: Movie = match &args.movie_id {
        Some(id) => match find_movie_by_id(&catalog.movies, id.as_str()) {
            Some(k) => catalog.movies[k].copied(),
            None => {
                return Err(RecommendError::MovieNotFound { query: copy_text(id) });
            },
        },
        None => {
            let title = match &args.movie_title {
                Some(t) => t,
                None => {
                    return Err(RecommendError::MovieNotFound { query: String::new() });
                },
            };
            let found = titled_movies(&catalog.movies, title.as_str());
            if found.len() == 0 {
                return Err(RecommendError::MovieNotFound { query: copy_text(title) });
            }
            if found.len() > 1 {
                let mut matches: Vec<MovieMatchV1> = Vec::new();
                let mut k: usize = 0;
                while k < found.len()
                    invariant
                        k <= found.len(),
                        matches@.len() == k,
                        forall|m: int|
                            0 <= m < k ==> (#[trigger] matches@[m]).id == found@[m].id && matches@[m].title
                                == found@[m].title,
                    decreases found.len() - k,
                {
                    matches.push(
                        MovieMatchV1 { id: copy_text(&found[k].id), title: copy_text(&found[k].title) },
                    );
                    k += 1;
                }
                return Err(RecommendError::AmbiguousMovieTitle { title: copy_text(title), matches });
            }
            found[0].copied()
        },
    };
    let preferences = Preferences {
        onboarding_complete: false,
        party_size: args.party_size,
        favorite_venue_ids: sorted(&args.favorite_venues),
        city: None,
        accepted_languages: Vec::new(),
        accepted_formats: Vec::new(),
        accepted_room_types: Vec::new(),
    };
    let mut candidates: Vec<Showtime> = Vec::new();
    let mut k: usize = 0;
    while k < catalog.showtimes.len()
        invariant
            k <= catalog.showtimes.len(),
            same_showtimes(
                candidates@,
                candidates_of(catalog.showtimes@.take(k as int), catalog.venues@, *args, movie.id@),
            ),
        decreases catalog.showtimes.len() - k,
    {
        proof {
            assert(catalog.showtimes@.take(k + 1).drop_last() =~= catalog.showtimes@.take(k as int));
            assert(catalog.showtimes@.take(k + 1).last() == catalog.showtimes@[k as int]);
        }
        if is_candidate(catalog, args, movie.id.as_str(), &catalog.showtimes[k]) {
            let c = catalog.showtimes[k].copied();
            candidates.push(c);
        }
        k += 1;
    }
    proof {
        assert(catalog.showtimes@.take(catalog.showtimes@.len() as int) =~= catalog.showtimes@);
    }
    let q = query(copy_text(&movie.id), copy_text(&movie.title), args);
    Ok((q, candidates, preferences))
}


// ---------------------------------------------------------------------------
// Response records.
// ---------------------------------------------------------------------------
#[derive(Debug)]
pub struct RecommendationResponseV1 {
    pub version: String,
    pub observed_at: String,
    pub query: QueryV1,
    pub recommendations: Vec<RankedShowtimeV1>,
    pub diagnostics: DiagnosticsV1,
}

#[derive(Debug)]
pub struct RankedShowtimeV1 {
    pub rank: usize,
    pub id: String,
    pub venue: VenueV1,
    pub starts_at: String,
    pub modality: ModalityV1,
    pub available_seat_count: usize,
    pub viewing: ViewingV1,
    pub selected_block: Option<SelectedBlockV1>,
    /// A compact picture of the map that names no seat other than those of
    /// the selected block.
    pub seat_preview: SeatPreviewV1,
    pub checkout_handoff: Option<CheckoutHandoffV1>,
}

#[derive(Debug, Clone)]
pub struct CheckoutHandoffV1 {
    pub movie_slug: String,
    pub cinema_id: String,
    pub session_id: String,
    pub seat_selection_url: String,
    pub selected_seat_labels: Vec<String>,
    /// Binds a revalidation to this cinema session.
    pub session_fingerprint: String,
    pub browser_session_required: bool,
}

#[derive(Debug)]
pub struct SeatPreviewV1 {
    pub screen: String,
    pub symbols: SeatPreviewSymbolsV1,
    pub rows: Vec<SeatPreviewRowV1>,
}

#[derive(Debug)]
pub struct SeatPreviewSymbolsV1 {
    pub available: String,
    pub occupied: String,
    pub accessible: String,
    pub recommended: String,
    pub aisle: String,
}

#[derive(Debug)]
pub struct SeatPreviewRowV1 {
    pub label: String,
    pub layout: String,
}

#[derive(Debug)]
pub struct VenueV1 {
    pub id: String,
    pub name: String,
}

#[derive(Debug)]
pub struct ModalityV1 {
    pub projection_format: String,
    pub language: String,
    pub room_type: String,
}

#[derive(Debug)]
pub struct ViewingV1 {
    pub score: Score,
    pub quality: Quality,
    pub zone: ViewingZoneV1,
    pub reason_codes: Vec<String>,
    pub reasons: Vec<String>,
}

#[derive(Debug)]
pub struct ViewingZoneV1 {
    pub id: String,
    pub selected_block_inside: bool,
}

#[derive(Debug)]
pub struct SelectedBlockV1 {
    pub arrangement: SeatingArrangement,
    pub seats: Vec<SeatV1>,
}

#[derive(Debug)]
pub struct SeatV1 {
    pub id: String,
    pub row: String,
    pub number: u16,
}

#[derive(Debug)]
pub struct DiagnosticsV1 {
    pub candidate_count: usize,
    pub hydrated_count: usize,
    pub map_failures: Vec<MapFailureV1>,
}

#[derive(Debug)]
pub struct MapFailureV1 {
    pub showtime_id: String,
    pub message: String,
}

// ---------------------------------------------------------------------------
// Seat previews.
// ---------------------------------------------------------------------------
/// The seats at depth `y`, in their order in `s`.
pub open spec fn at_depth(s: Seq<Seat>, y: u16) -> Seq<Seat>
    decreases s.len(),
{
    if s.len() == 0 {
        Seq::empty()
    } else if s.last().y == y {
        at_depth(s.drop_last(), y).push(s.last())
    } else {
        at_depth(s.drop_last(), y)
    }
}

/// Some seat of `sel` has identifier `id`.
pub open spec fn has_seat_id(sel: Seq<Seat>, id: Seq<char>) -> bool {
    exists|k: int| 0 <= k < sel.len() && (#[trigger] sel[k]).id@ == id
}

/// The preview character of column `x` of a row: a space for an aisle, a
/// star for a selected seat, else the seat's state.
pub open spec fn preview_char(rs: Seq<Seat>, x: u16, sel: Seq<Seat>) -> char {
    let i = first_with_x(rs, x);
    if i >= rs.len() {
        ' '
    } else if has_seat_id(sel, rs[i].id@) {
        '*'
    } else {
        match rs[i].state {
            SeatState::Available => '.',
            SeatState::Occupied => '#',
            SeatState::Accessible => 'A',
        }
    }
}

/// The seats of depth `y` of the map, ordered by depth, column, row name and
/// number.
pub open spec fn preview_row_seats(map: SeatMap, y: u16) -> Seq<Seat> {
    at_depth(sort_seats(map.seat_map_seats(), SeatOrder::Depth), y)
}

/// `p` pictures `map` with `sel` marked: one row per depth, labelled with
/// the row name of its first seat, one character per column.
pub open spec fn previews(p: SeatPreviewV1, map: SeatMap, sel: Seq<Seat>) -> bool {
    &&& p.screen@ == "PANTALLA"@
    &&& p.symbols.available@ == "."@
    &&& p.symbols.occupied@ == "#"@
    &&& p.symbols.accessible@ == "A"@
    &&& p.symbols.recommended@ == "*"@
    &&& p.symbols.aisle@ == " "@
    &&& p.rows@.len() == map.rows
    &&& forall|y: int|
        0 <= y < map.rows ==> {
            let rs = preview_row_seats(map, y as u16);
            let row = #[trigger] p.rows@[y];
            &&& row.label@ == (if rs.len() > 0 {
                rs[0].row@
            } else {
                Seq::empty()
            })
            &&& row.layout@.len() == map.columns
            &&& forall|x: int| 0 <= x < map.columns ==> row.layout@[x] == preview_char(rs, x as u16, sel)
        }
}

impl SeatMap {
    pub open spec fn seat_map_seats(self) -> Seq<Seat> {
        self.seats@
    }
}

fn seats_at_depth(s: &Vec<Seat>, y: u16) -> (r: Vec<Seat>)
    ensures
        r@ == at_depth(s@, y),
{
    let mut out: Vec<Seat> = Vec::new();
    let mut i: usize = 0;
    while i < s.len()
        invariant
            i <= s.len(),
            out@ == at_depth(s@.take(i as int), y),
        decreases s.len() - i,
    {
        proof {
            assert(s@.take(i + 1).drop_last() =~= s@.take(i as int));
            assert(s@.take(i + 1).last() == s@[i as int]);
        }
        if s[i].y == y {
            out.push(s[i].copied());
        }
        i += 1;
    }
    proof {
        assert(s@.take(s@.len() as int) =~= s@);
    }
    out
}

pub(crate) fn has_id(sel: &[Seat], id: &str) -> (r: bool)
    ensures
        r == has_seat_id(sel@, id@),
{
    let mut k: usize = 0;
    while k < sel.len()
        invariant
            k <= sel.len(),
            forall|m: int| 0 <= m < k ==> (#[trigger] sel@[m]).id@ != id@,
        decreases sel.len() - k,
    {
        if compare_text(sel[k].id.as_str(), id) == 0 {
            return true;
        }
        k += 1;
    }
    false
}

fn preview_symbol(rs: &Vec<Seat>, x: u16, sel: &[Seat]) -> (r: char)
    ensures
        r == preview_char(rs@, x, sel@),
{
    let i = find_column(rs.as_slice(), x);
    if i >= rs.len() {
        ' '
    } else if has_id(sel, rs[i].id.as_str()) {
        '*'
    } else {
        match rs[i].state {
            SeatState::Available => '.',
            SeatState::Occupied => '#',
            SeatState::Accessible => 'A',
        }
    }
}

/// A compact picture of a seat map with the selected seats marked.
pub fn seat_preview(map: &SeatMap, selected: &[Seat]) -> (r: SeatPreviewV1)
    ensures
        previews(r, *map, selected@),
{
    let ordered = sorted_seats(map.seats.as_slice(), SeatOrder::Depth);
    let mut rows: Vec<SeatPreviewRowV1> = Vec::new();
    let mut y: u16 = 0;
    while y < map.rows
        invariant
            y <= map.rows,
            ordered@ == sort_seats(map.seats@, SeatOrder::Depth),
            rows@.len() == y,
            forall|yy: int|
                0 <= yy < y ==> {
                    let rs = preview_row_seats(*map, yy as u16);
                    let row = #[trigger] rows@[yy];
                    &&& row.label@ == (if rs.len() > 0 {
                        rs[0].row@
                    } else {
                        Seq::empty()
                    })
                    &&& row.layout@.len() == map.columns
                    &&& forall|x: int|
                        0 <= x < map.columns ==> row.layout@[x] == preview_char(rs, x as u16, selected@)
                },
        decreases map.rows - y,
    {
        let rs = seats_at_depth(&ordered, y);
        let label = if rs.len() > 0 {
            copy_text(&rs[0].row)
        } else {
            String::new()
        };
        let mut layout: Vec<char> = Vec::new();
        let mut x: u16 = 0;
        while x < map.columns
            invariant
                x <= map.columns,
                layout@.len() == x,
                forall|xx: int| 0 <= xx < x ==> layout@[xx] == preview_char(rs@, xx as u16, selected@),
            decreases map.columns - x,
        {
            layout.push(preview_symbol(&rs, x, selected));
            x += 1;
        }
        rows.push(SeatPreviewRowV1 { label, layout: string_of(layout.as_slice()) });
        y += 1;
    }
    SeatPreviewV1 {
        screen: owned("PANTALLA"),
        symbols: SeatPreviewSymbolsV1 {
            available: owned("."),
            occupied: owned("#"),
            accessible: owned("A"),
            recommended: owned("*"),
            aisle: owned(" "),
        },
        rows,
    }
}

// ---------------------------------------------------------------------------
// Checkout hand-off.
// ---------------------------------------------------------------------------
/// The seat-selection page of a session.
pub open spec fn seat_selection_url_text(slug: Seq<char>, cinema: Seq<char>, session: Seq<char>) -> Seq<char> {
    "https://www.cineplanet.com.pe/compra/"@ + slug + "/"@ + cinema + "/"@ + session + "/asientos"@
}

/// `h` hands the showtime off to the official checkout with the given seat
/// labels: present exactly when the showtime has a checkout slug (without
/// surrounding slashes) and a session id, both non-empty.
pub open spec fn hands_off(h: Option<CheckoutHandoffV1>, st: Showtime, labels: Seq<String>) -> bool {
    match (st.movie_details_url, st.session_id) {
        (Some(url), Some(session)) => {
            let slug = trim_char_text(url@, '/');
            if slug.len() == 0 || session@.len() == 0 {
                h is None
            } else {
                h is Some && {
                    let v = h.unwrap();
                    &&& v.movie_slug@ == slug
                    &&& v.cinema_id@ == st.venue_id@
                    &&& v.session_id@ == session@
                    &&& v.seat_selection_url@ == seat_selection_url_text(slug, st.venue_id@, session@)
                    &&& v.selected_seat_labels@ == labels
                    &&& v.session_fingerprint@ == "cineplanet:"@ + st.venue_id@ + ":"@ + session@
                    &&& v.browser_session_required
                }
            }
        },
        _ => h is None,
    }
}

/// The official checkout hand-off of a showtime for the given seats.
pub fn checkout_handoff(showtime: &Showtime, selected_seat_labels: Vec<String>) -> (r: Option<
    CheckoutHandoffV1,
>)
    ensures
        hands_off(r, *showtime, selected_seat_labels@),
{
    let url = match &showtime.movie_details_url {
        Some(u) => u,
        None => {
            return None;
        },
    };
    let session = match &showtime.session_id {
        Some(v) => v,
        None => {
            return None;
        },
    };
    let slug = trim_matching(url.as_str(), '/');
    if slug.as_str().unicode_len() == 0 || session.as_str().unicode_len() == 0 {
        return None;
    }
    let cinema = copy_text(&showtime.venue_id);
    let u1 = concat("https://www.cineplanet.com.pe/compra/", slug.as_str());
    let u2 = concat(u1.as_str(), "/");
    let u3 = concat(u2.as_str(), cinema.as_str());
    let u4 = concat(u3.as_str(), "/");
    let u5 = concat(u4.as_str(), session.as_str());
    let url_text = concat(u5.as_str(), "/asientos");
    let f1 = concat("cineplanet:", cinema.as_str());
    let f2 = concat(f1.as_str(), ":");
    let fingerprint = concat(f2.as_str(), session.as_str());
    Some(
        CheckoutHandoffV1 {
            movie_slug: slug,
            cinema_id: cinema,
            session_id: copy_text(session),
            seat_selection_url: url_text,
            selected_seat_labels,
            session_fingerprint: fingerprint,
            browser_session_required: true,
        },
    )
}

// ---------------------------------------------------------------------------
// The response.
// ---------------------------------------------------------------------------
/// The label of a seat in a hand-off: its identifier.
pub fn seat_label(seat: &Seat) -> (r: String)
    ensures
        r@ == seat.id@,
{
    copy_text(&seat.id)
}

pub fn map_failure(failure: HydrationFailure) -> (r: MapFailureV1)
    ensures
        r.showtime_id == failure.showtime_id,
        r.message == failure.message,
{
    MapFailureV1 { showtime_id: failure.showtime_id, message: failure.message }
}

/// A recommendation's reason marks its venue as a favorite.
pub open spec fn has_favorite_reason(rec: Recommendation) -> bool {
    exists|k: int| 0 <= k < rec.reasons@.len() && (#[trigger] rec.reasons@[k])@ == "Sede favorita"@
}

/// The machine-readable reasons of a recommendation: its arrangement's, and
/// `favorite_venue` when a reason names a favorite venue.
pub open spec fn reason_codes_of(rec: Recommendation) -> Seq<Seq<char>> {
    let code = crate::viewing::reason_code_text(rec.arrangement);
    if has_favorite_reason(rec) {
        seq![code, "favorite_venue"@]
    } else {
        seq![code]
    }
}

pub fn reason_codes(rec: &Recommendation) -> (r: Vec<String>)
    ensures
        r@.map_values(|s: String| s@) == reason_codes_of(*rec),
{
    let mut codes: Vec<String> = Vec::new();
    match rec.arrangement {
        SeatingArrangement::Together => codes.push(owned("contiguous_central_block")),
        SeatingArrangement::AcrossAisle { .. } => codes.push(owned("across_aisle_block")),
        SeatingArrangement::Scattered => codes.push(owned("no_contiguous_block")),
    }
    let mut favorite = false;
    let mut k: usize = 0;
    while k < rec.reasons.len()
        invariant
            k <= rec.reasons.len(),
            favorite == exists|m: int| 0 <= m < k && (#[trigger] rec.reasons@[m])@ == "Sede favorita"@,
        decreases rec.reasons.len() - k,
    {
        if compare_text(rec.reasons[k].as_str(), "Sede favorita") == 0 {
            favorite = true;
        }
        k += 1;
    }
    if favorite {
        codes.push(owned("favorite_venue"));
    }
    proof {
        assert(codes@.map_values(|s: String| s@) =~= reason_codes_of(*rec));
    }
    codes
}

/// A failure at `stage` of the `recommend` command.
pub fn failure(stage: &str, message: &str) -> (r: RecommendError)
    ensures
        r matches RecommendError::RecommendFailed { stage: s, message: m } && s@ == stage@ && m@
            == message@,
{
    RecommendError::RecommendFailed { stage: owned(stage), message: owned(message) }
}

/// A hydration outcome with every showtime hydrated and no failure.
pub fn demo_outcome(showtimes: Vec<Showtime>) -> (r: HydrationOutcome)
    ensures
        r.showtimes@ == showtimes@,
        r.failures@.len() == 0,
{
    HydrationOutcome { showtimes, failures: Vec::new() }
}

/// The seats of a block as response records.
pub open spec fn lists_seats(v: Seq<SeatV1>, block: Seq<Seat>) -> bool {
    v.len() == block.len() && forall|k: int|
        0 <= k < v.len() ==> (#[trigger] v[k]).id@ == block[k].id@ && v[k].row@ == block[k].row@
            && v[k].number == block[k].number
}

/// `e` is the response entry of rank `k + 1` for recommendation `rec`.
pub open spec fn presents_ranked(e: RankedShowtimeV1, rec: Recommendation, k: int, party_size: usize) -> bool {
    let st = rec.showtime;
    let scattered = rec.arrangement == SeatingArrangement::Scattered;
    &&& e.rank == k + 1
    &&& e.id@ == st.id@
    &&& e.venue.id@ == st.venue_id@
    &&& e.venue.name@ == st.venue_name@
    &&& e.starts_at@ == match rfc3339_text(
        st.starts_at.instant_seconds,
        st.starts_at.subsec_nanos,
        st.starts_at.offset_seconds,
    ) {
        Some(t) => t,
        None => Seq::empty(),
    }
    &&& e.modality.projection_format@ == st.modality.projection_format@
    &&& e.modality.language@ == st.modality.language@
    &&& e.modality.room_type@ == st.modality.room_type@
    &&& e.available_seat_count == free_seats(st.seat_map.seats@).len()
    &&& e.viewing.score == rec.visual_score
    &&& e.viewing.quality == rec.quality
    &&& e.viewing.zone.id@ == "central_middle_rear"@
    &&& e.viewing.zone.selected_block_inside == (!scattered && forall|m: int|
        0 <= m < rec.block@.len() ==> {
            let seat = #[trigger] rec.block@[m];
            seat.x < st.seat_map.columns && seat.y < st.seat_map.rows && good_position(
                st.seat_map.columns,
                st.seat_map.rows,
                seat.x as int,
                seat.y as int,
            )
        })
    &&& e.viewing.reason_codes@.map_values(|s: String| s@) == reason_codes_of(rec)
    &&& e.viewing.reasons@ == rec.reasons@
    &&& (scattered ==> e.selected_block is None)
    &&& (!scattered ==> e.selected_block is Some && e.selected_block.unwrap().arrangement
        == rec.arrangement && lists_seats(e.selected_block.unwrap().seats@, rec.block@))
    &&& previews(e.seat_preview, st.seat_map, if scattered {
        Seq::empty()
    } else {
        rec.block@
    })
    &&& (!scattered && rec.block@.len() == party_size ==> exists|labels: Seq<String>|
        #[trigger] hands_off(e.checkout_handoff, st, labels) && labels.map_values(|s: String| s@)
            == rec.block@.map_values(|s: Seat| s.id@))
    &&& (scattered || rec.block@.len() != party_size ==> e.checkout_handoff is None)
}

fn present_ranked(rec: &Recommendation, k: usize, party_size: usize) -> (r: RankedShowtimeV1)
    requires
        k < usize::MAX,
    ensures
        presents_ranked(r, *rec, k as int, party_size),
{
    let st = &rec.showtime;
    let scattered = rec.arrangement == SeatingArrangement::Scattered;
    let mut free: usize = 0;
    let mut i: usize = 0;
    while i < st.seat_map.seats.len()
        invariant
            i <= st.seat_map.seats.len(),
            free == free_seats(st.seat_map.seats@.take(i as int)).len(),
            free <= i,
        decreases st.seat_map.seats.len() - i,
    {
        proof {
            assert(st.seat_map.seats@.take(i + 1).drop_last() =~= st.seat_map.seats@.take(i as int));
            assert(st.seat_map.seats@.take(i + 1).last() == st.seat_map.seats@[i as int]);
        }
        if st.seat_map.seats[i].state == SeatState::Available {
            free += 1;
        }
        i += 1;
    }
    proof {
        assert(st.seat_map.seats@.take(st.seat_map.seats@.len() as int) =~= st.seat_map.seats@);
    }
    let inside = selected_block_is_in_good_viewing_zone(&st.seat_map, rec.block.as_slice(), &rec.arrangement);
    let handoff = if !scattered && rec.block.len() == party_size {
        let mut labels: Vec<String> = Vec::new();
        let mut m: usize = 0;
        while m < rec.block.len()
            invariant
                m <= rec.block.len(),
                labels@.map_values(|s: String| s@) == rec.block@.take(m as int).map_values(|s: Seat| s.id@),
            decreases rec.block.len() - m,
        {
            let ghost before = labels@;
            labels.push(seat_label(&rec.block[m]));
            proof {
                assert(labels@.map_values(|s: String| s@) =~= before.map_values(|s: String| s@).push(
                    rec.block@[m as int].id@,
                ));
                assert(rec.block@.take(m + 1).map_values(|s: Seat| s.id@) =~= rec.block@.take(
                    m as int,
                ).map_values(|s: Seat| s.id@).push(rec.block@[m as int].id@));
            }
            m += 1;
        }
        proof {
            assert(rec.block@.take(rec.block@.len() as int) =~= rec.block@);
        }
        let ghost labels_view = labels@;
        let h = checkout_handoff(st, labels);
        proof {
            assert(hands_off(h, *st, labels_view));
        }
        h
    } else {
        None
    };
    let empty: Vec<Seat> = Vec::new();
    let preview = if scattered {
        seat_preview(&st.seat_map, empty.as_slice())
    } else {
        seat_preview(&st.seat_map, rec.block.as_slice())
    };
    let selected_block = if scattered {
        None
    } else {
        let mut seats: Vec<SeatV1> = Vec::new();
        let mut m: usize = 0;
        while m < rec.block.len()
            invariant
                m <= rec.block.len(),
                lists_seats(seats@, rec.block@.take(m as int)),
            decreases rec.block.len() - m,
        {
            seats.push(
                SeatV1 {
                    id: copy_text(&rec.block[m].id),
                    row: copy_text(&rec.block[m].row),
                    number: rec.block[m].number,
                },
            );
            m += 1;
        }
        proof {
            assert(rec.block@.take(rec.block@.len() as int) =~= rec.block@);
        }
        Some(SelectedBlockV1 { arrangement: rec.arrangement, seats })
    };
    RankedShowtimeV1 {
        rank: k + 1,
        id: copy_text(&st.id),
        venue: VenueV1 { id: copy_text(&st.venue_id), name: copy_text(&st.venue_name) },
        starts_at: rfc3339_label(st.starts_at),
        modality: ModalityV1 {
            projection_format: copy_text(&st.modality.projection_format),
            language: copy_text(&st.modality.language),
            room_type: copy_text(&st.modality.room_type),
        },
        available_seat_count: free,
        viewing: ViewingV1 {
            score: rec.visual_score,
            quality: rec.quality,
            zone: ViewingZoneV1 { id: owned(GOOD_VIEWING_ZONE_ID), selected_block_inside: inside },
            reason_codes: reason_codes(rec),
            reasons: copy_texts(&rec.reasons),
        },
        selected_block,
        seat_preview: preview,
        checkout_handoff: handoff,
    }
}

/// The response for the hydrated showtimes, observed at `observed_at`.
pub fn build_response_at(
    observed_at: String,
    query: QueryV1,
    candidates: usize,
    preferences: &Preferences,
    limit: usize,
    outcome: HydrationOutcome,
) -> (r: RecommendationResponseV1)
    ensures
        r.version@ == "v1"@,
        r.observed_at == observed_at,
        r.query == query,
        r.diagnostics.candidate_count == candidates,
        r.diagnostics.hydrated_count == outcome.showtimes@.len(),
        r.diagnostics.map_failures@.len() == outcome.failures@.len(),
        forall|k: int|
            0 <= k < outcome.failures@.len() ==> (#[trigger] r.diagnostics.map_failures@[k]).showtime_id
                == outcome.failures@[k].showtime_id && r.diagnostics.map_failures@[k].message
                == outcome.failures@[k].message,
        preferences.party_size == 0 || limit == 0 ==> r.recommendations@.len() == 0,
        preferences.party_size > 0 && limit > 0 ==> exists|c: Seq<Recommendation>|
            #[trigger] analyses(outcome.showtimes@, *preferences, c) && r.recommendations@.len()
                == ranked(c, limit as int).len() && forall|k: int|
                0 <= k < r.recommendations@.len() ==> presents_ranked(
                    #[trigger] r.recommendations@[k],
                    ranked(c, limit as int)[k],
                    k,
                    query.party_size,
                ),
{
    let recs = recommend(outcome.showtimes.as_slice(), preferences, limit);
    let mut entries: Vec<RankedShowtimeV1> = Vec::new();
    let mut k: usize = 0;
    while k < recs.len()
        invariant
            k <= recs.len(),
            entries@.len() == k,
            forall|m: int|
                0 <= m < k ==> presents_ranked(#[trigger] entries@[m], recs@[m], m, query.party_size),
        decreases recs.len() - k,
    {
        entries.push(present_ranked(&recs[k], k, query.party_size));
        k += 1;
    }
    let hydrated = outcome.showtimes.len();
    let mut failures = outcome.failures;
    let ghost given = failures@;
    proof {
        assert(given.len() == failures.len());
    }
    let mut map_failures: Vec<MapFailureV1> = Vec::new();
    let mut j: usize = 0;
    while failures.len() > 0
        invariant
            j + failures@.len() == given.len(),
            given.len() <= usize::MAX,
            failures@ == given.skip(j as int),
            map_failures@.len() == j,
            forall|m: int|
                0 <= m < j ==> (#[trigger] map_failures@[m]).showtime_id == given[m].showtime_id
                    && map_failures@[m].message == given[m].message,
        decreases failures@.len(),
    {
        let f = failures.remove(0);
        proof {
            assert(f == given[j as int]);
        }
        map_failures.push(map_failure(f));
        j += 1;
        proof {
            assert(failures@ =~= given.skip(j as int));
        }
    }
    RecommendationResponseV1 {
        version: owned("v1"),
        observed_at,
        query,
        recommendations: entries,
        diagnostics: DiagnosticsV1 { candidate_count: candidates, hydrated_count: hydrated, map_failures },
    }
}

/// The response for the hydrated showtimes, observed now: `observed_at` is
/// the RFC 3339 text of the current instant in UTC.
pub fn build_response(
    query: QueryV1,
    candidates: usize,
    preferences: &Preferences,
    limit: usize,
    outcome: HydrationOutcome,
) -> (r: RecommendationResponseV1)
    ensures
        r.version@ == "v1"@,
        exists|sec: i64, nanos: u32| rfc3339_text(sec, nanos, 0) == Some(r.observed_at@),
        r.query == query,
        r.diagnostics.candidate_count == candidates,
        r.diagnostics.hydrated_count == outcome.showtimes@.len(),
        r.diagnostics.map_failures@.len() == outcome.failures@.len(),
        forall|k: int|
            0 <= k < outcome.failures@.len() ==> (#[trigger] r.diagnostics.map_failures@[k]).showtime_id
                == outcome.failures@[k].showtime_id && r.diagnostics.map_failures@[k].message
                == outcome.failures@[k].message,
        preferences.party_size == 0 || limit == 0 ==> r.recommendations@.len() == 0,
        preferences.party_size > 0 && limit > 0 ==> exists|c: Seq<Recommendation>|
            #[trigger] analyses(outcome.showtimes@, *preferences, c) && r.recommendations@.len()
                == ranked(c, limit as int).len() && forall|k: int|
                0 <= k < r.recommendations@.len() ==> presents_ranked(
                    #[trigger] r.recommendations@[k],
                    ranked(c, limit as int)[k],
                    k,
                    query.party_size,
                ),
{
    let observed_at = utc_now_rfc3339();
    build_response_at(observed_at, query, candidates, preferences, limit, outcome)
}

proof fn lemma_free_seats_filter(s: Seq<Seat>)
    ensures
        free_seats(s) == s.filter(|x: Seat| x.state == SeatState::Available),
    decreases s.len(),
{
    reveal(Seq::filter);
    if s.len() > 0 {
        lemma_free_seats_filter(s.drop_last());
    }
}

/// Each entry of a response counts the seats of its showtime's map that are
/// available, and only those.
pub proof fn lemma_entry_counts_available_seats(
    e: RankedShowtimeV1,
    rec: Recommendation,
    k: int,
    party_size: usize,
)
    requires
        presents_ranked(e, rec, k, party_size),
    ensures
        e.available_seat_count == rec.showtime.seat_map.seats@.filter(
            |x: Seat| x.state == SeatState::Available,
        ).len(),
{
    lemma_free_seats_filter(rec.showtime.seat_map.seats@);
}

/// The candidates of a request are exactly the showtimes of the movie, in
/// catalog order of appearance, whose venue is the first one with their
/// venue id and lies in the requested city, and that meet every filter: each
/// non-empty list of dates, languages, formats and room types holds, up to
/// ASCII case, the showtime's local date, language, projection format and
/// room type, and a non-empty list of venues names the showtime's venue.
pub proof fn lemma_candidates_meet_filters(
    showtimes: Seq<Showtime>,
    venues: Seq<Venue>,
    args: RecommendArgs,
    movie_id: Seq<char>,
)
    ensures
        forall|k: int|
            0 <= k < candidates_of(showtimes, venues, args, movie_id).len() ==> {
                let s = #[trigger] candidates_of(showtimes, venues, args, movie_id)[k];
                &&& showtimes.contains(s)
                &&& s.movie_id@ == movie_id
                &&& (args.dates@.len() == 0 || exists|f: int|
                    0 <= f < args.dates@.len() && eq_ignore_ascii_case(
                        (#[trigger] args.dates@[f])@,
                        start_date(s),
                    ))
                &&& (args.languages@.len() == 0 || exists|f: int|
                    0 <= f < args.languages@.len() && eq_ignore_ascii_case(
                        (#[trigger] args.languages@[f])@,
                        s.modality.language@,
                    ))
                &&& (args.formats@.len() == 0 || exists|f: int|
                    0 <= f < args.formats@.len() && eq_ignore_ascii_case(
                        (#[trigger] args.formats@[f])@,
                        s.modality.projection_format@,
                    ))
                &&& (args.room_types@.len() == 0 || exists|f: int|
                    0 <= f < args.room_types@.len() && eq_ignore_ascii_case(
                        (#[trigger] args.room_types@[f])@,
                        s.modality.room_type@,
                    ))
                &&& (args.venues@.len() == 0 || exists|f: int|
                    0 <= f < args.venues@.len() && venue_matches_spec(
                        (#[trigger] args.venues@[f])@,
                        s.venue_id@,
                        s.venue_name@,
                    ))
                &&& exists|v: int|
                    0 <= v < venues.len() && (#[trigger] venues[v]).id@ == s.venue_id@
                        && eq_ignore_ascii_case(venues[v].city@, args.city@)
            },
        forall|i: int|
            0 <= i < showtimes.len() && (#[trigger] showtimes[i]).movie_id@ == movie_id
                && (first_venue_with_id(venues, showtimes[i].venue_id@) matches Some(v)
                && eq_ignore_ascii_case(venues[v].city@, args.city@)) && (args.dates@.len() == 0 || exists|f: int|
                0 <= f < args.dates@.len() && eq_ignore_ascii_case(
                    (#[trigger] args.dates@[f])@,
                    start_date(showtimes[i]),
                )) && (args.languages@.len() == 0 || exists|f: int|
                0 <= f < args.languages@.len() && eq_ignore_ascii_case(
                    (#[trigger] args.languages@[f])@,
                    showtimes[i].modality.language@,
                )) && (args.formats@.len() == 0 || exists|f: int|
                0 <= f < args.formats@.len() && eq_ignore_ascii_case(
                    (#[trigger] args.formats@[f])@,
                    showtimes[i].modality.projection_format@,
                )) && (args.room_types@.len() == 0 || exists|f: int|
                0 <= f < args.room_types@.len() && eq_ignore_ascii_case(
                    (#[trigger] args.room_types@[f])@,
                    showtimes[i].modality.room_type@,
                )) && (args.venues@.len() == 0 || exists|f: int|
                0 <= f < args.venues@.len() && venue_matches_spec(
                    (#[trigger] args.venues@[f])@,
                    showtimes[i].venue_id@,
                    showtimes[i].venue_name@,
                )) ==> candidates_of(showtimes, venues, args, movie_id).contains(showtimes[i]),
{
    let all = candidates_of(showtimes, venues, args, movie_id);
    lemma_candidates_members(showtimes, venues, args, movie_id);
    assert forall|k: int| 0 <= k < all.len() implies {
        let s = #[trigger] all[k];
        exists|v: int|
            0 <= v < venues.len() && (#[trigger] venues[v]).id@ == s.venue_id@ && eq_ignore_ascii_case(
                venues[v].city@,
                args.city@,
            )
    } by {
        let s = all[k];
        assert(candidate_for(venues, args, movie_id, s));
        lemma_first_venue_with_id_found(venues, s.venue_id@);
        let v = first_venue_with_id(venues, s.venue_id@)->Some_0;
        assert(venues[v].id@ == s.venue_id@);
    }
    assert forall|i: int| 0 <= i < showtimes.len() && candidate_for(venues, args, movie_id, #[trigger] showtimes[i])
        implies all.contains(showtimes[i]) by {
    }
}

proof fn lemma_first_venue_with_id_found(venues: Seq<Venue>, id: Seq<char>)
    ensures
        first_venue_with_id(venues, id) matches Some(v) ==> 0 <= v < venues.len() && venues[v].id@ == id,
    decreases venues.len(),
{
    if venues.len() > 0 && venues[0].id@ != id {
        lemma_first_venue_with_id_found(venues.drop_first(), id);
        if let Some(k) = first_venue_with_id(venues.drop_first(), id) {
            assert(venues[k + 1] == venues.drop_first()[k]);
        }
    }
}

proof fn lemma_candidates_members(
    showtimes: Seq<Showtime>,
    venues: Seq<Venue>,
    args: RecommendArgs,
    movie_id: Seq<char>,
)
    ensures
        forall|k: int|
            0 <= k < candidates_of(showtimes, venues, args, movie_id).len() ==> showtimes.contains(
                #[trigger] candidates_of(showtimes, venues, args, movie_id)[k],
            ) && candidate_for(venues, args, movie_id, candidates_of(showtimes, venues, args, movie_id)[k]),
        forall|i: int|
            0 <= i < showtimes.len() && candidate_for(venues, args, movie_id, #[trigger] showtimes[i])
                ==> candidates_of(showtimes, venues, args, movie_id).contains(showtimes[i]),
    decreases showtimes.len(),
{
    if showtimes.len() > 0 {
        let d = showtimes.drop_last();
        lemma_candidates_members(d, venues, args, movie_id);
        let last = showtimes.last();
        let rest = candidates_of(d, venues, args, movie_id);
        let all = candidates_of(showtimes, venues, args, movie_id);
        assert(showtimes[showtimes.len() - 1] == last);
        assert forall|k: int| 0 <= k < all.len() implies showtimes.contains(#[trigger] all[k])
            && candidate_for(venues, args, movie_id, all[k]) by {
            if k < rest.len() {
                assert(all[k] == rest[k]);
                let m = choose|m: int| 0 <= m < d.len() && d[m] == rest[k];
                assert(showtimes[m] == d[m]);
            }
        }
        assert forall|i: int|
            0 <= i < showtimes.len() && candidate_for(venues, args, movie_id, #[trigger] showtimes[i])
                implies all.contains(showtimes[i]) by {
            if i < showtimes.len() - 1 {
                assert(showtimes[i] == d[i]);
                assert(rest.contains(d[i]));
                let m = choose|m: int| 0 <= m < rest.len() && rest[m] == d[i];
                if candidate_for(venues, args, movie_id, last) {
                    assert(all[m] == rest[m]);
                }
            } else {
                assert(all[all.len() - 1] == last);
            }
        }
    }
}

} // verus!
