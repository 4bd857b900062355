//! The catalog, seat-map and preference model shared by every module.
use vstd::prelude::*;

use crate::text::{compare_text, concat, owned, split_after_last, after_last};

verus! {

#[derive(Clone, Debug)]
pub struct Movie {
    pub id: String,
    pub title: String,
    /// Official `movieDetailsUrl` slug, when the catalog came from the live
    /// adapter; demo data has no checkout destination.
    pub movie_details_url: Option<String>,
    pub duration_minutes: Option<u16>,
    pub genre: Option<String>,
    pub rating: Option<String>,
}

#[derive(Clone, Debug)]
pub struct Venue {
    pub id: String,
    pub name: String,
    pub city: String,
}

#[derive(Clone, Copy, Debug, PartialEq, Eq, Structural)]
pub enum SeatState {
    Available,
    Occupied,
    Accessible,
}

#[derive(Clone, Debug)]
pub struct Seat {
    pub id: String,
    pub row: String,
    pub number: u16,
    pub x: u16,
    pub y: u16,
    pub state: SeatState,
}

#[derive(Clone, Debug)]
pub struct SeatMap {
    pub rows: u16,
    pub columns: u16,
    pub seats: Vec<Seat>,
}

#[derive(Clone, Debug)]
pub struct Modality {
    pub projection_format: String,
    pub language: String,
    pub room_type: String,
}

/// A start instant: seconds and sub-second nanoseconds since the Unix epoch
/// (UTC), and the local offset east of UTC in seconds.
#[derive(Clone, Copy, Debug, PartialEq, Eq, Structural)]
pub struct StartTime {
    pub instant_seconds: i64,
    pub subsec_nanos: u32,
    pub offset_seconds: i32,
}

#[derive(Clone, Debug)]
pub struct Showtime {
    pub id: String,
    pub movie_id: String,
    pub movie_title: String,
    /// Copied from the movie so that a hydrated recommendation keeps its
    /// checkout destination.
    pub movie_details_url: Option<String>,
    pub venue_id: String,
    pub venue_name: String,
    /// The session identifier used by the checkout URL.
    pub session_id: Option<String>,
    pub starts_at: StartTime,
    pub modality: Modality,
    pub seat_map: SeatMap,
}

/// Persisted preferences. The four string collections are sets: order and
/// repetition carry no meaning (see `has_text`).
#[derive(Clone, Debug)]
pub struct Preferences {
    pub onboarding_complete: bool,
    pub party_size: usize,
    pub favorite_venue_ids: Vec<String>,
    pub city: Option<String>,
    pub accepted_languages: Vec<String>,
    pub accepted_formats: Vec<String>,
    pub accepted_room_types: Vec<String>,
}

#[derive(Clone, Copy, Debug, PartialEq, Eq, Structural)]
pub enum Quality {
    Excellent,
    Good,
    Unfavorable,
}

#[derive(Clone, Copy, Debug, PartialEq, Eq, Structural)]
pub enum SeatingArrangement {
    Together,
    AcrossAisle { first: usize, second: usize },
    Scattered,
}

/// An exact rational score `numerator / denominator`.
#[derive(Clone, Copy, Debug, PartialEq, Eq, Structural)]
pub struct Score {
    pub numerator: i128,
    pub denominator: u128,
}

#[derive(Clone, Debug)]
pub struct Recommendation {
    pub showtime: Showtime,
    pub block: Vec<Seat>,
    pub arrangement: SeatingArrangement,
    pub quality: Quality,
    pub reasons: Vec<String>,
    /// Ranking score: the visual score plus preference bonuses.
    pub score: Score,
    /// Position quality of the block alone.
    pub visual_score: Score,
}

#[derive(Clone, Debug)]
pub struct Catalog {
    pub movies: Vec<Movie>,
    pub venues: Vec<Venue>,
    pub showtimes: Vec<Showtime>,
}

// ---------------------------------------------------------------------------
// Views of string collections.
// ---------------------------------------------------------------------------
/// Some element of `v` reads `t`.
pub open spec fn has_text(v: Seq<String>, t: Seq<char>) -> bool {
    exists|i: int| 0 <= i < v.len() && (#[trigger] v[i])@ == t
}

/// The texts of a sequence of strings.
pub open spec fn texts(v: Seq<String>) -> Seq<Seq<char>> {
    v.map_values(|s: String| s@)
}

/// Whether some element of `v` reads `t`.
pub fn contains_text_item(v: &Vec<String>, t: &str) -> (r: bool)
    ensures
        r == has_text(v@, t@),
{
    let mut i: usize = 0;
    while i < v.len()
        invariant
            i <= v.len(),
            forall|k: int| 0 <= k < i ==> (#[trigger] v@[k])@ != t@,
        decreases v.len() - i,
    {
        if compare_text(v[i].as_str(), t) == 0 {
            return true;
        }
        i += 1;
    }
    false
}

// ---------------------------------------------------------------------------
// Value-preserving copies.
// ---------------------------------------------------------------------------
pub fn copy_text(s: &String) -> (r: String)
    ensures
        r == *s,
        r@ == s@,
{
    s.clone()
}

pub fn copy_opt_text(s: &Option<String>) -> (r: Option<String>)
    ensures
        r == *s,
{
    match s {
        Some(v) => Some(v.clone()),
        None => None,
    }
}

pub fn copy_texts(v: &Vec<String>) -> (r: Vec<String>)
    ensures
        r@ == v@,
{
    let mut out: Vec<String> = Vec::new();
    let mut i: usize = 0;
    while i < v.len()
        invariant
            i <= v.len(),
            out@ == v@.take(i as int),
        decreases v.len() - i,
    {
        out.push(v[i].clone());
        proof {
            assert(v@.take(i + 1) =~= v@.take(i as int).push(v@[i as int]));
        }
        i += 1;
    }
    proof {
        assert(v@.take(v@.len() as int) =~= v@);
    }
    out
}

impl Seat {
    pub fn copied(&self) -> (r: Seat)
        ensures
            r == *self,
    {
        Seat {
            id: self.id.clone(),
            row: self.row.clone(),
            number: self.number,
            x: self.x,
            y: self.y,
            state: self.state,
        }
    }
}

pub fn copy_seats(v: &[Seat]) -> (r: Vec<Seat>)
    ensures
        r@ == v@,
{
    let mut out: Vec<Seat> = Vec::new();
    let mut i: usize = 0;
    while i < v.len()
        invariant
            i <= v.len(),
            out@ == v@.take(i as int),
        decreases v.len() - i,
    {
        out.push(v[i].copied());
        proof {
            assert(v@.take(i + 1) =~= v@.take(i as int).push(v@[i as int]));
        }
        i += 1;
    }
    proof {
        assert(v@.take(v@.len() as int) =~= v@);
    }
    out
}

impl Modality {
    pub fn copied(&self) -> (r: Modality)
        ensures
            r == *self,
    {
        Modality {
            projection_format: self.projection_format.clone(),
            language: self.language.clone(),
            room_type: self.room_type.clone(),
        }
    }
}

impl SeatMap {
    pub fn copied(&self) -> (r: SeatMap)
        ensures
            r.rows == self.rows,
            r.columns == self.columns,
            r.seats@ == self.seats@,
    {
        SeatMap { rows: self.rows, columns: self.columns, seats: copy_seats(&self.seats) }
    }
}

impl Movie {
    pub fn copied(&self) -> (r: Movie)
        ensures
            r == *self,
    {
        Movie {
            id: self.id.clone(),
            title: self.title.clone(),
            movie_details_url: copy_opt_text(&self.movie_details_url),
            duration_minutes: self.duration_minutes,
            genre: copy_opt_text(&self.genre),
            rating: copy_opt_text(&self.rating),
        }
    }
}

impl Venue {
    pub fn copied(&self) -> (r: Venue)
        ensures
            r == *self,
    {
        Venue { id: self.id.clone(), name: self.name.clone(), city: self.city.clone() }
    }
}

/// Two showtimes agree in every field; seat lists agree element by element.
pub open spec fn same_showtime(a: Showtime, b: Showtime) -> bool {
    &&& a.id == b.id
    &&& a.movie_id == b.movie_id
    &&& a.movie_title == b.movie_title
    &&& a.movie_details_url == b.movie_details_url
    &&& a.venue_id == b.venue_id
    &&& a.venue_name == b.venue_name
    &&& a.session_id == b.session_id
    &&& a.starts_at == b.starts_at
    &&& a.modality == b.modality
    &&& a.seat_map.rows == b.seat_map.rows
    &&& a.seat_map.columns == b.seat_map.columns
    &&& a.seat_map.seats@ == b.seat_map.seats@
}

impl Showtime {
    pub fn copied(&self) -> (r: Showtime)
        ensures
            same_showtime(r, *self),
    {
        Showtime {
            id: self.id.clone(),
            movie_id: self.movie_id.clone(),
            movie_title: self.movie_title.clone(),
            movie_details_url: copy_opt_text(&self.movie_details_url),
            venue_id: self.venue_id.clone(),
            venue_name: self.venue_name.clone(),
            session_id: copy_opt_text(&self.session_id),
            starts_at: self.starts_at,
            modality: self.modality.copied(),
            seat_map: self.seat_map.copied(),
        }
    }

    /// Link to this showtime's seat map on the Cineplanet site. `id` is
    /// composed as `venue-session`; the URL uses only the part after the last
    /// hyphen, or the whole id when it has none.
    pub fn purchase_url(&self, movie_slug: &str) -> (r: String)
        ensures
            r@ == purchase_url_text(self.id@, self.venue_id@, movie_slug@),
    {
        let session = match split_after_last(self.id.as_str(), '-') {
            Some(tail) => tail,
            None => owned(self.id.as_str()),
        };
        let a = concat("https://www.cineplanet.com.pe/compra/", movie_slug);
        let b = concat(a.as_str(), "/");
        let c = concat(b.as_str(), self.venue_id.as_str());
        let d = concat(c.as_str(), "/");
        let e = concat(d.as_str(), session.as_str());
        concat(e.as_str(), "/asientos")
    }
}

/// The session part of a composed showtime id.
pub open spec fn session_part(id: Seq<char>) -> Seq<char> {
    match after_last(id, '-') {
        Some(tail) => tail,
        None => id,
    }
}

pub open spec fn purchase_url_text(id: Seq<char>, venue_id: Seq<char>, slug: Seq<char>) -> Seq<char> {
    "https://www.cineplanet.com.pe/compra/"@ + slug + "/"@ + venue_id + "/"@ + session_part(id)
        + "/asientos"@
}

impl Preferences {
    /// The product defaults: onboarding pending, a party of two, no city and
    /// no restrictions.
    pub fn defaults() -> (r: Preferences)
        ensures
            !r.onboarding_complete,
            r.party_size == 2,
            r.favorite_venue_ids@.len() == 0,
            r.city is None,
            r.accepted_languages@.len() == 0,
            r.accepted_formats@.len() == 0,
            r.accepted_room_types@.len() == 0,
    {
        Preferences {
            onboarding_complete: false,
            party_size: 2,
            favorite_venue_ids: Vec::new(),
            city: None,
            accepted_languages: Vec::new(),
            accepted_formats: Vec::new(),
            accepted_room_types: Vec::new(),
        }
    }

    pub fn copied(&self) -> (r: Preferences)
        ensures
            r.onboarding_complete == self.onboarding_complete,
            r.party_size == self.party_size,
            r.favorite_venue_ids@ == self.favorite_venue_ids@,
            r.city == self.city,
            r.accepted_languages@ == self.accepted_languages@,
            r.accepted_formats@ == self.accepted_formats@,
            r.accepted_room_types@ == self.accepted_room_types@,
    {
        Preferences {
            onboarding_complete: self.onboarding_complete,
            party_size: self.party_size,
            favorite_venue_ids: copy_texts(&self.favorite_venue_ids),
            city: copy_opt_text(&self.city),
            accepted_languages: copy_texts(&self.accepted_languages),
            accepted_formats: copy_texts(&self.accepted_formats),
            accepted_room_types: copy_texts(&self.accepted_room_types),
        }
    }
}

impl Default for Preferences {
    fn default() -> (r: Preferences)
        ensures
            !r.onboarding_complete,
            r.party_size == 2,
            r.favorite_venue_ids@.len() == 0,
            r.city is None,
            r.accepted_languages@.len() == 0,
            r.accepted_formats@.len() == 0,
            r.accepted_room_types@.len() == 0,
    {
        Preferences::defaults()
    }
}

} // verus!
