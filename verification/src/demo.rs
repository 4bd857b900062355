//! The demo catalog: three movies at four Lima venues, with eight showtimes
//! placed a fixed number of hours and minutes after the current instant.
use vstd::prelude::*;

use crate::clock::local_now;
use crate::domain::{
    Catalog, Modality, Movie, Seat, SeatMap, SeatState, Showtime, StartTime, Venue, copy_opt_text,
};
use crate::live::{PlacedSeat, placed, placed_all};
use crate::text::{concat, decimal_digits, decimal_text, owned};

verus! {

/// The letter of row `y` (`A` for the first).
pub open spec fn row_letter(y: int) -> char {
    (65 + y) as char
}

/// The demo seat at position `k` of the map, row by row: twelve seats a
/// row, numbered from 1; the recommended pair of the given row is always
/// free, and elsewhere every fifth place (by `x + 3y + seed`) is taken.
pub open spec fn demo_seat(recommended_row: u16, recommended_start_x: u16, seed: u16, k: int) -> PlacedSeat {
    let y = k / 12;
    let x = k % 12;
    let recommended = y == recommended_row && (x == recommended_start_x || x == recommended_start_x + 1);
    let occupied = (x + y * 3 + seed) % 5 == 0;
    PlacedSeat {
        id: seq![row_letter(y)] + decimal_digits((x + 1) as nat),
        row: seq![row_letter(y)],
        number: (x + 1) as u16,
        x: x as u16,
        y: y as u16,
        state: if recommended || !occupied {
            SeatState::Available
        } else {
            SeatState::Occupied
        },
    }
}

/// The first `n` demo seats.
pub open spec fn demo_seats(recommended_row: u16, recommended_start_x: u16, seed: u16, n: nat) -> Seq<PlacedSeat>
    decreases n,
{
    if n == 0 {
        Seq::empty()
    } else {
        demo_seats(recommended_row, recommended_start_x, seed, (n - 1) as nat).push(
            demo_seat(recommended_row, recommended_start_x, seed, n - 1),
        )
    }
}

/// A ten-row, twelve-column demo map.
pub fn seat_map(recommended_row: u16, recommended_start_x: u16, seed: u16) -> (r: SeatMap)
    ensures
        r.rows == 10,
        r.columns == 12,
        placed_all(r.seats@) == demo_seats(recommended_row, recommended_start_x, seed, 120),
{
    let mut seats: Vec<Seat> = Vec::new();
    let mut y: u16 = 0;
    proof {
        assert(placed_all(seats@) =~= demo_seats(recommended_row, recommended_start_x, seed, 0));
    }
    while y < 10
        invariant
            y <= 10,
            placed_all(seats@) == demo_seats(recommended_row, recommended_start_x, seed, (12 * y) as nat),
        decreases 10 - y,
    {
        let mut x: u16 = 0;
        while x < 12
            invariant
                y < 10,
                x <= 12,
                placed_all(seats@) == demo_seats(recommended_row, recommended_start_x, seed, (12 * y + x) as nat),
            decreases 12 - x,
        {
            let number = x + 1;
            let recommended = y == recommended_row && (x == recommended_start_x
                || x as u32 == recommended_start_x as u32 + 1);
            let occupied = (x as u32 + y as u32 * 3 + seed as u32) % 5 == 0;
            let letter = (65u8 + y as u8) as char;
            let row = crate::text::string_of(&[letter]);
            let seat = Seat {
                id: concat(row.as_str(), decimal_text(number as u64).as_str()),
                row,
                number,
                x,
                y,
                state: if recommended || !occupied {
                    SeatState::Available
                } else {
                    SeatState::Occupied
                },
            };
            let ghost k: int = 12 * y + x;
            proof {
                assert(k / 12 == y as int && k % 12 == x as int) by (nonlinear_arith)
                    requires
                        k == 12 * y + x,
                        0 <= x < 12,
                        0 <= y,
                ;
                assert(letter == row_letter(y as int));
                assert(row@ =~= seq![row_letter(y as int)]);
                assert(placed(seat) == demo_seat(recommended_row, recommended_start_x, seed, k));
            }
            let ghost before = placed_all(seats@);
            seats.push(seat);
            proof {
                assert(placed_all(seats@) =~= before.push(placed(seat)));
            }
            x += 1;
        }
        y += 1;
    }
    SeatMap { rows: 10, columns: 12, seats }
}

/// A demo venue in Lima.
pub fn venue(id: &str, name: &str) -> (r: Venue)
    ensures
        r.id@ == id@,
        r.name@ == name@,
        r.city@ == "Lima"@,
{
    Venue { id: owned(id), name: owned(name), city: owned("Lima") }
}

/// One row of the demo table: which movie and venue, how long after the
/// current instant, the modality, and where the recommended pair sits.
pub struct DemoEntry {
    pub movie: int,
    pub venue: int,
    pub hours: int,
    pub minutes: int,
    pub format: Seq<char>,
    pub language: Seq<char>,
    pub room: Seq<char>,
    pub row: u16,
    pub start_x: u16,
}

pub open spec fn entry(movie: int, venue: int, hours: int, minutes: int, format: Seq<char>, language: Seq<char>, room: Seq<char>, row: u16, start_x: u16) -> DemoEntry {
    DemoEntry { movie, venue, hours, minutes, format, language, room, row, start_x }
}

/// The demo table.
pub open spec fn demo_entry(k: int) -> DemoEntry {
    if k == 0 {
        entry(0, 0, 3, 20, "2D"@, "Subtitulada"@, "Regular"@, 6, 4)
    } else if k == 1 {
        entry(0, 1, 18, 19, "2D"@, "Subtitulada"@, "Regular"@, 7, 4)
    } else if k == 2 {
        entry(0, 2, 28, 21, "2D"@, "Subtitulada"@, "Prime"@, 6, 3)
    } else if k == 3 {
        entry(0, 3, 45, 17, "3D"@, "Doblada"@, "Regular"@, 8, 1)
    } else if k == 4 {
        entry(1, 0, 6, 18, "2D"@, "Subtitulada"@, "Regular"@, 6, 4)
    } else if k == 5 {
        entry(1, 2, 24, 21, "2D"@, "Subtitulada"@, "Prime"@, 7, 4)
    } else if k == 6 {
        entry(2, 1, 4, 16, "2D"@, "Doblada"@, "Regular"@, 6, 4)
    } else {
        entry(2, 3, 26, 19, "2D"@, "Doblada"@, "Regular"@, 7, 3)
    }
}

/// The demo movies: id, title, running time, genre and rating.
pub open spec fn demo_movie(m: Movie, k: int) -> bool {
    let (id, title, minutes, genre, rating) = if k == 0 {
        ("spider-man"@, "Spider-Man: Un nuevo día"@, 145u16, "Acción"@, "APT"@)
    } else if k == 1 {
        ("odyssey"@, "La Odisea"@, 132u16, "Aventura"@, "+14"@)
    } else {
        ("toy-story"@, "Toy Story 5"@, 104u16, "Animación"@, "APT"@)
    };
    &&& m.id@ == id
    &&& m.title@ == title
    &&& m.movie_details_url is None
    &&& m.duration_minutes == Some(minutes)
    &&& m.genre is Some && m.genre.unwrap()@ == genre
    &&& m.rating is Some && m.rating.unwrap()@ == rating
}

/// The demo venues, all in Lima.
pub open spec fn demo_venue(v: Venue, k: int) -> bool {
    let (id, name) = if k == 0 {
        ("la-molina"@, "CP La Molina"@)
    } else if k == 1 {
        ("alcazar"@, "CP Alcázar"@)
    } else if k == 2 {
        ("salaverry"@, "CP Salaverry"@)
    } else {
        ("san-miguel"@, "CP San Miguel"@)
    };
    v.id@ == id && v.name@ == name && v.city@ == "Lima"@
}

/// Demo showtime `k`, `hours` and `minutes` after `now`.
pub open spec fn demo_showtime(st: Showtime, k: int, now: StartTime, movies: Seq<Movie>, venues: Seq<Venue>) -> bool {
    let e = demo_entry(k);
    &&& st.id@ == "demo-"@ + decimal_digits(k as nat)
    &&& st.movie_id == movies[e.movie].id
    &&& st.movie_title == movies[e.movie].title
    &&& st.movie_details_url == movies[e.movie].movie_details_url
    &&& st.venue_id == venues[e.venue].id
    &&& st.venue_name == venues[e.venue].name
    &&& st.session_id is None
    &&& st.starts_at == StartTime {
        instant_seconds: (now.instant_seconds + e.hours * 3600 + e.minutes * 60) as i64,
        ..now
    }
    &&& st.modality.projection_format@ == e.format
    &&& st.modality.language@ == e.language
    &&& st.modality.room_type@ == e.room
    &&& st.seat_map.rows == 10
    &&& st.seat_map.columns == 12
    &&& placed_all(st.seat_map.seats@) == demo_seats(e.row, e.start_x, k as u16, 120)
}

fn demo_showtime_at(
    index: u16,
    movie: &Movie,
    venue: &Venue,
    hours: i64,
    minutes: i64,
    format: &str,
    language: &str,
    room: &str,
    row: u16,
    start_x: u16,
    now: StartTime,
) -> (r: Showtime)
    requires
        -10_000_000_000_000 <= now.instant_seconds <= 10_000_000_000_000,
        0 <= hours <= 48,
        0 <= minutes < 60,
    ensures
        r.id@ == "demo-"@ + decimal_digits(index as nat),
        r.movie_id == movie.id,
        r.movie_title == movie.title,
        r.movie_details_url == movie.movie_details_url,
        r.venue_id == venue.id,
        r.venue_name == venue.name,
        r.session_id is None,
        r.starts_at == (StartTime {
            instant_seconds: (now.instant_seconds + hours * 3600 + minutes * 60) as i64,
            ..now
        }),
        r.modality.projection_format@ == format@,
        r.modality.language@ == language@,
        r.modality.room_type@ == room@,
        r.seat_map.rows == 10,
        r.seat_map.columns == 12,
        placed_all(r.seat_map.seats@) == demo_seats(row, start_x, index, 120),
{
    Showtime {
        id: concat("demo-", decimal_text(index as u64).as_str()),
        movie_id: movie.id.clone(),
        movie_title: movie.title.clone(),
        movie_details_url: copy_opt_text(&movie.movie_details_url),
        venue_id: venue.id.clone(),
        venue_name: venue.name.clone(),
        session_id: None,
        starts_at: StartTime {
            instant_seconds: now.instant_seconds + hours * 3600 + minutes * 60,
            subsec_nanos: now.subsec_nanos,
            offset_seconds: now.offset_seconds,
        },
        modality: Modality {
            projection_format: owned(format),
            language: owned(language),
            room_type: owned(room),
        },
        seat_map: seat_map(row, start_x, index),
    }
}

fn demo_movie_of(id: &str, title: &str, minutes: u16, genre: &str, rating: &str) -> (r: Movie)
    ensures
        r.id@ == id@,
        r.title@ == title@,
        r.movie_details_url is None,
        r.duration_minutes == Some(minutes),
        r.genre is Some && r.genre.unwrap()@ == genre@,
        r.rating is Some && r.rating.unwrap()@ == rating@,
{
    Movie {
        id: owned(id),
        title: owned(title),
        movie_details_url: None,
        duration_minutes: Some(minutes),
        genre: Some(owned(genre)),
        rating: Some(owned(rating)),
    }
}

/// Every demo showtime of `r` is placed after `now`.
pub open spec fn placed_after(r: Catalog, now: StartTime) -> bool {
    forall|k: int| 0 <= k < 8 ==> demo_showtime(#[trigger] r.showtimes@[k], k, now, r.movies@, r.venues@)
}

/// The demo catalog with its showtimes placed after `now`.
pub fn catalog_at(now: StartTime) -> (r: Catalog)
    requires
        -10_000_000_000_000 <= now.instant_seconds <= 10_000_000_000_000,
    ensures
        r.movies@.len() == 3,
        forall|k: int| 0 <= k < 3 ==> demo_movie(#[trigger] r.movies@[k], k),
        r.venues@.len() == 4,
        forall|k: int| 0 <= k < 4 ==> demo_venue(#[trigger] r.venues@[k], k),
        r.showtimes@.len() == 8,
        forall|k: int| 0 <= k < 8 ==> demo_showtime(#[trigger] r.showtimes@[k], k, now, r.movies@, r.venues@),
{
    let movies = vec![
        demo_movie_of("spider-man", "Spider-Man: Un nuevo día", 145, "Acción", "APT"),
        demo_movie_of("odyssey", "La Odisea", 132, "Aventura", "+14"),
        demo_movie_of("toy-story", "Toy Story 5", 104, "Animación", "APT"),
    ];
    let venues = vec![
        venue("la-molina", "CP La Molina"),
        venue("alcazar", "CP Alcázar"),
        venue("salaverry", "CP Salaverry"),
        venue("san-miguel", "CP San Miguel"),
    ];
    let showtimes = vec![
        demo_showtime_at(0, &movies[0], &venues[0], 3, 20, "2D", "Subtitulada", "Regular", 6, 4, now),
        demo_showtime_at(1, &movies[0], &venues[1], 18, 19, "2D", "Subtitulada", "Regular", 7, 4, now),
        demo_showtime_at(2, &movies[0], &venues[2], 28, 21, "2D", "Subtitulada", "Prime", 6, 3, now),
        demo_showtime_at(3, &movies[0], &venues[3], 45, 17, "3D", "Doblada", "Regular", 8, 1, now),
        demo_showtime_at(4, &movies[1], &venues[0], 6, 18, "2D", "Subtitulada", "Regular", 6, 4, now),
        demo_showtime_at(5, &movies[1], &venues[2], 24, 21, "2D", "Subtitulada", "Prime", 7, 4, now),
        demo_showtime_at(6, &movies[2], &venues[1], 4, 16, "2D", "Doblada", "Regular", 6, 4, now),
        demo_showtime_at(7, &movies[2], &venues[3], 26, 19, "2D", "Doblada", "Regular", 7, 3, now),
    ];
    let r = Catalog { movies, venues, showtimes };
    proof {
        assert forall|k: int| 0 <= k < 3 implies demo_movie(#[trigger] r.movies@[k], k) by {}
        assert forall|k: int| 0 <= k < 4 implies demo_venue(#[trigger] r.venues@[k], k) by {}
        assert forall|k: int| 0 <= k < 8 implies demo_showtime(#[trigger] r.showtimes@[k], k, now, r.movies@, r.venues@) by {}
    }
    r
}

/// The demo catalog, its showtimes placed after the current local instant.
pub fn catalog() -> (r: Catalog)
    ensures
        r.movies@.len() == 3,
        forall|k: int| 0 <= k < 3 ==> demo_movie(#[trigger] r.movies@[k], k),
        r.venues@.len() == 4,
        forall|k: int| 0 <= k < 4 ==> demo_venue(#[trigger] r.venues@[k], k),
        r.showtimes@.len() == 8,
        exists|now: StartTime| #[trigger] placed_after(r, now),
{
    let now = local_now();
    let r = catalog_at(now);
    proof {
        assert(placed_after(r, now));
    }
    r
}

} // verus!
