//! What the interactive screens show, as text: availability, tags, titles,
//! the seat grid and the key help. Drawing it is the application's.
use vstd::prelude::*;

use crate::app::Screen;
use crate::clock::{format_local_clock, local_clock_text};
use crate::domain::{Modality, Quality, Recommendation, Seat, SeatMap, SeatState, Showtime, StartTime};
use crate::recommendation::{has_id, has_seat_id};
use crate::text::{concat, decimal_digits, decimal_text, owned, text_uppercase, unicode_uppercase_text};
use crate::viewing::free_seats;

verus! {

/// Counts the available seats of a map.
pub fn available_seat_count(map: &SeatMap) -> (r: usize)
    ensures
        r == free_seats(map.seats@).len(),
{
    let seats = &map.seats;
    let mut count: usize = 0;
    let mut k: usize = 0;
    while k < seats.len()
        invariant
            k <= seats.len(),
            count == free_seats(seats@.take(k as int)).len(),
            count <= k,
        decreases seats.len() - k,
    {
        proof {
            assert(seats@.take(k + 1).drop_last() =~= seats@.take(k as int));
            assert(seats@.take(k + 1).last() == seats@[k as int]);
        }
        if seats[k].state == SeatState::Available {
            count += 1;
        }
        k += 1;
    }
    proof {
        assert(seats@.take(seats@.len() as int) =~= seats@);
    }
    count
}

/// The availability of a showtime: unconfirmed without a map, else its
/// number of free seats.
pub open spec fn availability_text(st: Showtime) -> Seq<char> {
    if st.seat_map.seats@.len() == 0 {
        "SIN CONFIRMAR"@
    } else {
        decimal_digits(free_seats(st.seat_map.seats@).len()) + " asientos"@
    }
}

pub fn availability_label(showtime: &Showtime) -> (r: String)
    ensures
        r@ == availability_text(*showtime),
{
    if showtime.seat_map.seats.len() == 0 {
        return owned("SIN CONFIRMAR");
    }
    let n = available_seat_count(&showtime.seat_map);
    concat(decimal_text(n as u64).as_str(), " asientos")
}

/// The local time of day of a start, or the empty text when it cannot be
/// represented.
pub fn start_label(t: StartTime) -> (r: String)
    ensures
        r@ == match local_clock_text(t.instant_seconds, t.subsec_nanos, t.offset_seconds) {
            Some(d) => d,
            None => Seq::empty(),
        },
{
    match format_local_clock(t) {
        Some(d) => d,
        None => String::new(),
    }
}

/// A tag: the text upper-cased, in square brackets.
pub open spec fn tag_text(upper: Seq<char>) -> Seq<char> {
    "["@ + upper + "]"@
}

/// The tags of a modality: room type, language and projection format.
pub open spec fn modality_texts(m: Modality) -> Seq<Seq<char>> {
    seq![
        tag_text(unicode_uppercase_text(m.room_type@)),
        tag_text(unicode_uppercase_text(m.language@)),
        tag_text(unicode_uppercase_text(m.projection_format@)),
    ]
}

fn tag(text: &str) -> (r: String)
    ensures
        r@ == tag_text(unicode_uppercase_text(text@)),
{
    let upper = text_uppercase(text);
    let opened = concat("[", upper.as_str());
    proof {
        reveal_strlit("[");
        reveal_strlit("]");
    }
    concat(opened.as_str(), "]")
}

pub fn modality_tags(m: &Modality) -> (r: Vec<String>)
    ensures
        r@.map_values(|s: String| s@) == modality_texts(*m),
{
    let r = vec![tag(m.room_type.as_str()), tag(m.language.as_str()), tag(m.projection_format.as_str())];
    proof {
        assert(r@.map_values(|s: String| s@) =~= modality_texts(*m));
    }
    r
}

/// The tags of a result: the map is missing; the party does not fit
/// together; or how many sit together (one seat for one person) and the
/// zone's quality.
pub open spec fn status_texts(rec: Recommendation, party_size: usize) -> Seq<Seq<char>> {
    let n = decimal_digits(party_size as nat);
    if rec.showtime.seat_map.seats@.len() == 0 {
        seq!["[MAPA NO DISPONIBLE]"@]
    } else if rec.block@.len() != party_size {
        seq!["[SIN "@ + n + " JUNTOS]"@]
    } else {
        seq![
            if party_size == 1 {
                "[ASIENTO DISPONIBLE]"@
            } else {
                "["@ + n + " JUNTOS]"@
            },
            match rec.quality {
                Quality::Excellent => "[ZONA IDEAL]"@,
                Quality::Good => "[ZONA BUENA]"@,
                Quality::Unfavorable => "[ZONA POCO FAVORABLE]"@,
            },
        ]
    }
}

pub fn status_tags(rec: &Recommendation, party_size: usize) -> (r: Vec<String>)
    ensures
        r@.map_values(|s: String| s@) == status_texts(*rec, party_size),
{
    let mut out: Vec<String> = Vec::new();
    let n = decimal_text(party_size as u64);
    if rec.showtime.seat_map.seats.len() == 0 {
        out.push(owned("[MAPA NO DISPONIBLE]"));
    } else if rec.block.len() != party_size {
        let a = concat("[SIN ", n.as_str());
        out.push(concat(a.as_str(), " JUNTOS]"));
    } else {
        if party_size == 1 {
            out.push(owned("[ASIENTO DISPONIBLE]"));
        } else {
            let a = concat("[", n.as_str());
            out.push(concat(a.as_str(), " JUNTOS]"));
        }
        out.push(
            match rec.quality {
                Quality::Excellent => owned("[ZONA IDEAL]"),
                Quality::Good => owned("[ZONA BUENA]"),
                Quality::Unfavorable => owned("[ZONA POCO FAVORABLE]"),
            },
        );
    }
    proof {
        assert(out@.map_values(|s: String| s@) =~= status_texts(*rec, party_size));
    }
    out
}

/// The title of the results: with the selected counts while a filter is
/// active.
pub open spec fn results_title_text(filters_active: bool, dates: usize, venues: usize) -> Seq<char> {
    if filters_active {
        " Funciones disponibles ("@ + decimal_digits(dates as nat) + " fechas, "@ + decimal_digits(
            venues as nat,
        ) + " sedes) "@
    } else {
        " Funciones disponibles "@
    }
}

pub fn results_title(filters_active: bool, dates: usize, venues: usize) -> (r: String)
    ensures
        r@ == results_title_text(filters_active, dates, venues),
{
    if filters_active {
        let a = concat(" Funciones disponibles (", decimal_text(dates as u64).as_str());
        let b = concat(a.as_str(), " fechas, ");
        let c = concat(b.as_str(), decimal_text(venues as u64).as_str());
        concat(c.as_str(), " sedes) ")
    } else {
        owned(" Funciones disponibles ")
    }
}

/// What a place of the seat grid shows.
#[derive(Clone, Copy, Debug, PartialEq, Eq, Structural)]
pub enum Cell {
    Aisle,
    Recommended,
    Available,
    Occupied,
    Accessible,
}

/// The position of the first seat at `(x, y)`, or the number of seats.
pub open spec fn first_at(s: Seq<Seat>, x: u16, y: u16) -> int
    decreases s.len(),
{
    if s.len() == 0 {
        0
    } else if s[0].x == x && s[0].y == y {
        0
    } else {
        1 + first_at(s.drop_first(), x, y)
    }
}

/// The cell at `(x, y)`: an aisle without a seat there; a recommended seat;
/// else the seat's state.
pub open spec fn cell_at(map: SeatMap, block: Seq<Seat>, x: u16, y: u16) -> Cell {
    let s = map.seats@;
    let i = first_at(s, x, y);
    if i >= s.len() {
        Cell::Aisle
    } else if has_seat_id(block, s[i].id@) {
        Cell::Recommended
    } else {
        match s[i].state {
            SeatState::Available => Cell::Available,
            SeatState::Occupied => Cell::Occupied,
            SeatState::Accessible => Cell::Accessible,
        }
    }
}

fn find_at(seats: &Vec<Seat>, x: u16, y: u16) -> (r: usize)
    ensures
        r == first_at(seats@, x, y),
        r <= seats.len(),
{
    let mut k: usize = 0;
    proof {
        assert(seats@.skip(0) =~= seats@);
    }
    while k < seats.len()
        invariant
            k <= seats.len(),
            first_at(seats@, x, y) == k + first_at(seats@.skip(k as int), x, y),
        decreases seats.len() - k,
    {
        proof {
            assert(seats@.skip(k as int)[0] == seats@[k as int]);
            assert(seats@.skip(k as int).drop_first() =~= seats@.skip(k + 1));
        }
        if seats[k].x == x && seats[k].y == y {
            return k;
        }
        k += 1;
    }
    proof {
        assert(seats@.skip(k as int) =~= Seq::<Seat>::empty());
    }
    k
}

/// The grid of the map, row by row, each row `columns` cells wide.
pub fn seat_cells(map: &SeatMap, block: &[Seat]) -> (r: Vec<Vec<Cell>>)
    ensures
        r@.len() == map.rows,
        forall|y: int|
            0 <= y < map.rows ==> (#[trigger] r@[y])@.len() == map.columns && forall|x: int|
                0 <= x < map.columns ==> r@[y]@[x] == cell_at(*map, block@, x as u16, y as u16),
{
    let mut out: Vec<Vec<Cell>> = Vec::new();
    let mut y: u16 = 0;
    while y < map.rows
        invariant
            y <= map.rows,
            out@.len() == y,
            forall|yy: int|
                0 <= yy < y ==> (#[trigger] out@[yy])@.len() == map.columns && forall|x: int|
                    0 <= x < map.columns ==> out@[yy]@[x] == cell_at(*map, block@, x as u16, yy as u16),
        decreases map.rows - y,
    {
        let mut row: Vec<Cell> = Vec::new();
        let mut x: u16 = 0;
        while x < map.columns
            invariant
                x <= map.columns,
                row@.len() == x,
                forall|xx: int| 0 <= xx < x ==> row@[xx] == cell_at(*map, block@, xx as u16, y),
            decreases map.columns - x,
        {
            let i = find_at(&map.seats, x, y);
            let cell = if i >= map.seats.len() {
                Cell::Aisle
            } else if has_id(block, map.seats[i].id.as_str()) {
                Cell::Recommended
            } else {
                match map.seats[i].state {
                    SeatState::Available => Cell::Available,
                    SeatState::Occupied => Cell::Occupied,
                    SeatState::Accessible => Cell::Accessible,
                }
            };
            row.push(cell);
            x += 1;
        }
        out.push(row);
        y += 1;
    }
    out
}

/// The row name shown for depth `y`: that of the first seat there, else
/// nothing.
pub open spec fn row_label_text(s: Seq<Seat>, y: u16) -> Seq<char>
    decreases s.len(),
{
    if s.len() == 0 {
        Seq::empty()
    } else if s[0].y == y {
        s[0].row@
    } else {
        row_label_text(s.drop_first(), y)
    }
}

pub fn row_label(map: &SeatMap, y: u16) -> (r: String)
    ensures
        r@ == row_label_text(map.seats@, y),
{
    let seats = &map.seats;
    let mut k: usize = 0;
    proof {
        assert(seats@.skip(0) =~= seats@);
    }
    while k < seats.len()
        invariant
            k <= seats.len(),
            seats == &map.seats,
            row_label_text(seats@, y) == row_label_text(seats@.skip(k as int), y),
        decreases seats.len() - k,
    {
        proof {
            assert(seats@.skip(k as int)[0] == seats@[k as int]);
            assert(seats@.skip(k as int).drop_first() =~= seats@.skip(k + 1));
        }
        if seats[k].y == y {
            return seats[k].row.clone();
        }
        k += 1;
    }
    proof {
        assert(seats@.skip(k as int) =~= Seq::<Seat>::empty());
    }
    String::new()
}

/// The key help of each screen.
pub open spec fn footer_text(screen: Screen) -> Seq<char> {
    match screen {
        Screen::Welcome => "Enter comenzar · Q / Ctrl-C salir"@,
        Screen::CitySetup => "↑↓ mover · Enter elegir ciudad · Q salir"@,
        Screen::VenueSetup => "↑↓ mover · Espacio marcar · Enter guardar · Q salir"@,
        Screen::Movies => "Escribe para filtrar · ↑↓ mover · Enter elegir película · Esc sedes · Q salir"@,
        Screen::Filters => "↑↓ mover · Espacio/Enter marcar · baja a Continuar · Esc volver · Q salir"@,
        Screen::Loading => "Actualizando disponibilidad real…"@,
        Screen::Results => "↑↓ mover · Enter ver o modificar · Esc volver · Q salir"@,
        Screen::SeatMap => "Esc volver · Q salir"@,
    }
}

pub fn footer_help(screen: Screen) -> (r: String)
    ensures
        r@ == footer_text(screen),
{
    match screen {
        Screen::Welcome => owned("Enter comenzar · Q / Ctrl-C salir"),
        Screen::CitySetup => owned("↑↓ mover · Enter elegir ciudad · Q salir"),
        Screen::VenueSetup => owned("↑↓ mover · Espacio marcar · Enter guardar · Q salir"),
        Screen::Movies => owned(
            "Escribe para filtrar · ↑↓ mover · Enter elegir película · Esc sedes · Q salir",
        ),
        Screen::Filters => owned(
            "↑↓ mover · Espacio/Enter marcar · baja a Continuar · Esc volver · Q salir",
        ),
        Screen::Loading => owned("Actualizando disponibilidad real…"),
        Screen::Results => owned("↑↓ mover · Enter ver o modificar · Esc volver · Q salir"),
        Screen::SeatMap => owned("Esc volver · Q salir"),
    }
}

} // verus!
