//! The public Cineplanet web contract: plain records of its responses, and
//! the verified conversion of them into the catalog and seat maps.
use vstd::prelude::*;

use crate::domain::{Showtime, session_part};
use crate::text::{
    ascii_upper_text, compare_text, concat, contains, contains_text, equals_ignoring_ascii_case,
    eq_ignore_ascii_case, lemma_text_lt_asymmetric, lemma_text_lt_total, lemma_text_lt_transitive,
    lemma_trim_idempotent, owned, split_after_last, to_ascii_upper, trim, trim_text, after_last,
    text_lt,
};

verus! {

/// The seat maps that were fetched, and the showtimes whose map failed.
#[derive(Debug)]
pub struct HydrationOutcome {
    pub showtimes: Vec<Showtime>,
    pub failures: Vec<HydrationFailure>,
}

#[derive(Debug, Clone)]
pub struct HydrationFailure {
    pub showtime_id: String,
    pub message: String,
}

// ---------------------------------------------------------------------------
// Labels.
// ---------------------------------------------------------------------------
/// The language label for a provider label: the subtitled and dubbed
/// variants (in any ASCII case, around white space) become `Subtitulada` and
/// `Doblada`, a blank label `Sin especificar`, and any other label is kept
/// trimmed.
pub open spec fn normalized_language(raw: Seq<char>) -> Seq<char> {
    let t = trim_text(raw);
    let u = ascii_upper_text(t);
    if u == "SUBTITULAD"@ || u == "SUBTITULADA"@ {
        "Subtitulada"@
    } else if u == "DOBLADA"@ || u == "DOBLADO"@ {
        "Doblada"@
    } else if u.len() == 0 {
        "Sin especificar"@
    } else {
        t
    }
}

/// Maps a provider language label to the label shown to users.
pub fn normalize_language(raw: &str) -> (r: String)
    ensures
        r@ == normalized_language(raw@),
{
    let trimmed = trim(raw);
    let upper = to_ascii_upper(trimmed.as_str());
    let u = upper.as_str();
    if compare_text(u, "SUBTITULAD") == 0 || compare_text(u, "SUBTITULADA") == 0 {
        owned("Subtitulada")
    } else if compare_text(u, "DOBLADA") == 0 || compare_text(u, "DOBLADO") == 0 {
        owned("Doblada")
    } else if u.is_empty() {
        owned("Sin especificar")
    } else {
        trimmed
    }
}

/// Normalizing a normalized label changes nothing.
pub proof fn lemma_normalize_language_idempotent(raw: Seq<char>)
    ensures
        normalized_language(normalized_language(raw)) == normalized_language(raw),
{
    let t = trim_text(raw);
    let n = normalized_language(raw);
    reveal_strlit("Subtitulada");
    reveal_strlit("SUBTITULADA");
    reveal_strlit("SUBTITULAD");
    reveal_strlit("Doblada");
    reveal_strlit("DOBLADA");
    reveal_strlit("DOBLADO");
    reveal_strlit("Sin especificar");
    reveal_strlit("SIN ESPECIFICAR");
    if n == "Subtitulada"@ {
        crate::text::lemma_trim_of_clean(n);
        assert(ascii_upper_text(n) =~= "SUBTITULADA"@);
    } else if n == "Doblada"@ {
        crate::text::lemma_trim_of_clean(n);
        assert(ascii_upper_text(n) =~= "DOBLADA"@);
    } else if n == "Sin especificar"@ {
        crate::text::lemma_trim_of_clean(n);
        assert(ascii_upper_text(n) =~= "SIN ESPECIFICAR"@);
    } else {
        lemma_trim_idempotent(raw);
    }
}

// ---------------------------------------------------------------------------
// Session identifiers, formats and rooms.
// ---------------------------------------------------------------------------
/// The checkout session: the official one when it is not empty; otherwise
/// the part of the cached id after its last hyphen (the whole id without
/// one), when that is not empty.
pub open spec fn checkout_session(official: Option<Seq<char>>, cached: Seq<char>) -> Option<Seq<char>> {
    if official is Some && official.unwrap().len() > 0 {
        official
    } else if session_part(cached).len() > 0 {
        Some(session_part(cached))
    } else {
        None
    }
}

/// The session identifier the checkout URL needs.
pub fn checkout_session_id(official_session_id: Option<&str>, cached_session_id: &str) -> (r: Option<String>)
    ensures
        match r {
            Some(s) => checkout_session(
                match official_session_id {
                    Some(o) => Some(o@),
                    None => None,
                },
                cached_session_id@,
            ) == Some(s@),
            None => checkout_session(
                match official_session_id {
                    Some(o) => Some(o@),
                    None => None,
                },
                cached_session_id@,
            ) is None,
        },
{
    if let Some(session_id) = official_session_id {
        if !session_id.is_empty() {
            return Some(owned(session_id));
        }
    }
    let checkout_id = match split_after_last(cached_session_id, '-') {
        Some(tail) => tail,
        None => owned(cached_session_id),
    };
    if checkout_id.as_str().is_empty() {
        None
    } else {
        Some(checkout_id)
    }
}

/// `3D` when some format reads `3D` in any ASCII case, else `2D`.
pub open spec fn projection_format_of(formats: Seq<String>) -> Seq<char> {
    if exists|k: int| 0 <= k < formats.len() && eq_ignore_ascii_case((#[trigger] formats[k])@, "3D"@) {
        "3D"@
    } else {
        "2D"@
    }
}

/// The projection format of a session's formats.
pub fn projection_format(formats: &[String]) -> (r: String)
    ensures
        r@ == projection_format_of(formats@),
{
    let mut k: usize = 0;
    while k < formats.len()
        invariant
            k <= formats.len(),
            forall|m: int| 0 <= m < k ==> !eq_ignore_ascii_case((#[trigger] formats@[m])@, "3D"@),
        decreases formats.len() - k,
    {
        if equals_ignoring_ascii_case(formats[k].as_str(), "3D") {
            return owned("3D");
        }
        k += 1;
    }
    owned("2D")
}

/// A format that names a room rather than a projection.
pub open spec fn names_room(f: Seq<char>) -> bool {
    f != "2D"@ && f != "3D"@ && f != "REGULAR"@
}

/// The position of the first format that names a room.
pub open spec fn first_room_format(formats: Seq<String>) -> Option<int>
    decreases formats.len(),
{
    if formats.len() == 0 {
        None
    } else if names_room(formats[0]@) {
        Some(0)
    } else {
        match first_room_format(formats.drop_first()) {
            Some(k) => Some(k + 1),
            None => None,
        }
    }
}

/// The room type: the first format that names a room; otherwise `Prime`
/// when the screen's name holds `PRIME` in any ASCII case, else `Regular`.
pub open spec fn room_type_of(formats: Seq<String>, screen_name: Seq<char>) -> Seq<char> {
    match first_room_format(formats) {
        Some(k) => formats[k]@,
        None => if contains_text(ascii_upper_text(screen_name), "PRIME"@) {
            "Prime"@
        } else {
            "Regular"@
        },
    }
}

/// The room type of a session.
pub fn room_type(formats: &[String], screen_name: &str) -> (r: String)
    ensures
        r@ == room_type_of(formats@, screen_name@),
{
    let mut k: usize = 0;
    proof {
        assert(formats@.skip(0) =~= formats@);
    }
    while k < formats.len()
        invariant
            k <= formats.len(),
            first_room_format(formats@) == match first_room_format(formats@.skip(k as int)) {
                Some(m) => Some(m + k),
                None => None,
            },
        decreases formats.len() - k,
    {
        proof {
            assert(formats@.skip(k as int)[0] == formats@[k as int]);
            assert(formats@.skip(k as int).drop_first() =~= formats@.skip(k + 1));
        }
        let f = formats[k].as_str();
        if compare_text(f, "2D") != 0 && compare_text(f, "3D") != 0 && compare_text(f, "REGULAR") != 0 {
            return formats[k].clone();
        }
        k += 1;
    }
    proof {
        assert(formats@.skip(k as int) =~= Seq::empty());
    }
    let upper = to_ascii_upper(screen_name);
    if contains(upper.as_str(), "PRIME") {
        owned("Prime")
    } else {
        owned("Regular")
    }
}

// ---------------------------------------------------------------------------
// Seat plans.
// ---------------------------------------------------------------------------
#[derive(Clone, Copy, Debug)]
pub struct SeatPosition {
    pub row_index: i32,
    pub column_index: i32,
}

#[derive(Clone, Debug)]
pub struct ApiSeat {
    pub id: String,
    pub status: i32,
    pub position: SeatPosition,
}

#[derive(Clone, Debug)]
pub struct SeatRow {
    pub physical_name: Option<String>,
    pub seats: Vec<ApiSeat>,
}

#[derive(Clone, Debug)]
pub struct SeatArea {
    pub number: i32,
    pub left: i32,
    pub top: i32,
    pub column_count: i32,
    pub row_count: i32,
    pub rows: Vec<SeatRow>,
}

#[derive(Clone, Debug)]
pub struct SeatLayout {
    pub areas: Vec<SeatArea>,
}

#[derive(Clone, Debug)]
pub struct SeatPlanResponse {
    pub response_code: String,
    pub error_description: Option<String>,
    pub seat_layout_data: Option<SeatLayout>,
}

/// `v` as a `u16`, when it fits.
pub open spec fn as_u16(v: int) -> Option<u16> {
    if 0 <= v <= 65535 {
        Some(v as u16)
    } else {
        None
    }
}

pub open spec fn sat_add16(a: int, b: int) -> u16 {
    if a + b <= 65535 {
        (a + b) as u16
    } else {
        65535
    }
}

pub open spec fn sat_sub16(a: int, b: int) -> u16 {
    if a >= b {
        (a - b) as u16
    } else {
        0
    }
}

pub open spec fn max16(a: u16, b: u16) -> u16 {
    if a >= b {
        a
    } else {
        b
    }
}

/// Areas go from top to bottom, then left to right, then by number.
pub open spec fn area_before(a: SeatArea, b: SeatArea) -> bool {
    a.top < b.top || (a.top == b.top && (a.left < b.left || (a.left == b.left && a.number < b.number)))
}

/// Inserts `e` after every area whose key is not above its own.
pub open spec fn insert_area(s: Seq<SeatArea>, e: SeatArea) -> Seq<SeatArea>
    decreases s.len(),
{
    if s.len() == 0 {
        seq![e]
    } else if area_before(e, s.last()) {
        insert_area(s.drop_last(), e).push(s.last())
    } else {
        s.push(e)
    }
}

/// The stable sort of the areas by `(top, left, number)`.
pub open spec fn sort_areas(s: Seq<SeatArea>) -> Seq<SeatArea>
    decreases s.len(),
{
    if s.len() == 0 {
        Seq::empty()
    } else {
        insert_area(sort_areas(s.drop_last()), s.last())
    }
}

proof fn lemma_insert_area_at(s: Seq<SeatArea>, e: SeatArea, j: int)
    requires
        0 <= j <= s.len(),
        j == 0 || !area_before(e, s[j - 1]),
        forall|k: int| j <= k < s.len() ==> area_before(e, #[trigger] s[k]),
    ensures
        insert_area(s, e) == s.take(j) + seq![e] + s.skip(j),
    decreases s.len() - j,
{
    if s.len() == 0 {
        assert(s.take(j) + seq![e] + s.skip(j) =~= seq![e]);
    } else if j == s.len() {
        assert(s.take(j) + seq![e] + s.skip(j) =~= s.push(e));
    } else {
        let d = s.drop_last();
        assert forall|k: int| j <= k < d.len() implies area_before(e, #[trigger] d[k]) by {
            assert(d[k] == s[k]);
        }
        if j > 0 {
            assert(d[j - 1] == s[j - 1]);
        }
        lemma_insert_area_at(d, e, j);
        assert(d.take(j) + seq![e] + d.skip(j) + seq![s.last()] =~= s.take(j) + seq![e] + s.skip(j));
    }
}

fn is_area_before(a: &SeatArea, b: &SeatArea) -> (r: bool)
    ensures
        r == area_before(*a, *b),
{
    a.top < b.top || (a.top == b.top && (a.left < b.left || (a.left == b.left && a.number < b.number)))
}

/// The areas, stably sorted by `(top, left, number)`.
fn sorted_areas(areas: Vec<SeatArea>) -> (r: Vec<SeatArea>)
    ensures
        r@ == sort_areas(areas@),
{
    let ghost all = areas@;
    let mut out: Vec<SeatArea> = Vec::new();
    for a in it: areas.into_iter()
        invariant
            it.seq() == all,
            out@ == sort_areas(all.take(it.index() as int)),
    {
        proof {
            assert(all.take(it.index() + 1).drop_last() =~= all.take(it.index() as int));
            assert(all.take(it.index() + 1).last() == a);
        }
        let mut j: usize = out.len();
        while j > 0 && is_area_before(&a, &out[j - 1])
            invariant
                j <= out.len(),
                forall|k: int| j <= k < out.len() ==> area_before(a, #[trigger] out@[k]),
            decreases j,
        {
            j -= 1;
        }
        proof {
            lemma_insert_area_at(out@, a, j as int);
        }
        let ghost before = out@;
        out.insert(j, a);
        proof {
            assert(out@ =~= before.take(j as int) + seq![a] + before.skip(j as int));
        }
    }
    proof {
        assert(all.take(all.len() as int) =~= all);
    }
    out
}

/// The larger of two optional values.
pub open spec fn opt_max(a: Option<u16>, b: Option<u16>) -> Option<u16> {
    match (a, b) {
        (Some(x), Some(y)) => Some(max16(x, y)),
        (Some(x), None) => Some(x),
        (None, y) => y,
    }
}

/// A seat's row index, or its column index.
pub open spec fn coord(s: ApiSeat, rows_axis: bool) -> int {
    if rows_axis {
        s.position.row_index as int
    } else {
        s.position.column_index as int
    }
}

/// The largest index along an axis that fits a `u16`, over some seats.
pub open spec fn seats_max(seats: Seq<ApiSeat>, rows_axis: bool) -> Option<u16>
    decreases seats.len(),
{
    if seats.len() == 0 {
        None
    } else {
        opt_max(seats_max(seats.drop_last(), rows_axis), as_u16(coord(seats.last(), rows_axis)))
    }
}

/// The largest index along an axis that fits a `u16`, over every row.
pub open spec fn rows_max(rows: Seq<SeatRow>, rows_axis: bool) -> Option<u16>
    decreases rows.len(),
{
    if rows.len() == 0 {
        None
    } else {
        opt_max(rows_max(rows.drop_last(), rows_axis), seats_max(rows.last().seats@, rows_axis))
    }
}

/// The extent the seats of an area reach along an axis: one past the
/// largest index, none without seats.
pub open spec fn inferred_extent(rows: Seq<SeatRow>, rows_axis: bool) -> u16 {
    match rows_max(rows, rows_axis) {
        Some(m) => sat_add16(m as int, 1),
        None => 0,
    }
}

/// A seat as placed on the map, its texts as character sequences.
pub struct PlacedSeat {
    pub id: Seq<char>,
    pub row: Seq<char>,
    pub number: u16,
    pub x: u16,
    pub y: u16,
    pub state: crate::domain::SeatState,
}

pub open spec fn placed(s: crate::domain::Seat) -> PlacedSeat {
    PlacedSeat { id: s.id@, row: s.row@, number: s.number, x: s.x, y: s.y, state: s.state }
}

pub open spec fn placed_all(s: Seq<crate::domain::Seat>) -> Seq<PlacedSeat> {
    s.map_values(|x: crate::domain::Seat| placed(x))
}

/// The state of a sellable status: 0 available, 1 occupied, 3 accessible.
pub open spec fn seat_state_of(status: i32) -> Option<crate::domain::SeatState> {
    if status == 0 {
        Some(crate::domain::SeatState::Available)
    } else if status == 1 {
        Some(crate::domain::SeatState::Occupied)
    } else if status == 3 {
        Some(crate::domain::SeatState::Accessible)
    } else {
        None
    }
}

pub open spec fn unknown_status_message(status: i32) -> Seq<char> {
    "estado de asiento de Cineplanet desconocido: "@ + crate::text::signed_decimal(status as int)
}

/// Places one seat of row `name`. Statuses 5 and 7 are placeholders and are
/// left out; columns and rows are mirrored so that the screen is at the
/// bottom and the leftmost seat seen from the room at column 0, and rows
/// are moved down by the offset of the area.
pub open spec fn place_seat(name: Seq<char>, seat: ApiSeat, area_rows: u16, area_columns: u16, y_offset: u16) -> Result<Option<PlacedSeat>, Seq<char>> {
    if seat.status == 5 || seat.status == 7 {
        Ok(None)
    } else {
        match seat_state_of(seat.status) {
            None => Err(unknown_status_message(seat.status)),
            Some(state) => match as_u16(seat.position.column_index as int) {
                None => Err("columna de asiento inválida"@),
                Some(sx) => match as_u16(seat.position.row_index as int) {
                    None => Err("fila de asiento inválida"@),
                    Some(sy) => Ok(
                        Some(
                            PlacedSeat {
                                id: name + seat.id@,
                                row: name,
                                number: match crate::text::parse_unsigned_spec(seat.id@, 65535) {
                                    Some(n) => n as u16,
                                    None => sat_add16(sx as int, 1),
                                },
                                x: sat_sub16(sat_sub16(area_columns as int, 1) as int, sx as int),
                                y: sat_add16(
                                    y_offset as int,
                                    sat_sub16(sat_sub16(area_rows as int, 1) as int, sy as int) as int,
                                ),
                                state,
                            },
                        ),
                    ),
                },
            },
        }
    }
}

/// Places the seats of a row, in order; the first failing seat decides the
/// error.
pub open spec fn place_seats(name: Seq<char>, seats: Seq<ApiSeat>, area_rows: u16, area_columns: u16, y_offset: u16) -> Result<Seq<PlacedSeat>, Seq<char>>
    decreases seats.len(),
{
    if seats.len() == 0 {
        Ok(Seq::empty())
    } else {
        match place_seats(name, seats.drop_last(), area_rows, area_columns, y_offset) {
            Err(e) => Err(e),
            Ok(p) => match place_seat(name, seats.last(), area_rows, area_columns, y_offset) {
                Err(e) => Err(e),
                Ok(None) => Ok(p),
                Ok(Some(q)) => Ok(p.push(q)),
            },
        }
    }
}

/// Places the seats of the named rows, in order; rows without a physical
/// name are not for sale and are skipped.
pub open spec fn place_rows(rows: Seq<SeatRow>, area_rows: u16, area_columns: u16, y_offset: u16) -> Result<Seq<PlacedSeat>, Seq<char>>
    decreases rows.len(),
{
    if rows.len() == 0 {
        Ok(Seq::empty())
    } else {
        match place_rows(rows.drop_last(), area_rows, area_columns, y_offset) {
            Err(e) => Err(e),
            Ok(p) => match rows.last().physical_name {
                None => Ok(p),
                Some(name) => match place_seats(name@, rows.last().seats@, area_rows, area_columns, y_offset) {
                    Err(e) => Err(e),
                    Ok(q) => Ok(p + q),
                },
            },
        }
    }
}

/// The map built so far: its extent, the offset of the next area and the
/// seats placed.
pub struct LayoutProgress {
    pub rows: u16,
    pub columns: u16,
    pub y_offset: u16,
    pub seats: Seq<PlacedSeat>,
}

/// Places one area below the ones before it, one row of aisle between them.
/// Its extent is the larger of the declared one (negative read as zero)
/// and the one its seats reach.
pub open spec fn place_area(st: LayoutProgress, area: SeatArea) -> Result<LayoutProgress, Seq<char>> {
    let declared_rows = if area.row_count < 0 { 0 } else { area.row_count as int };
    let declared_columns = if area.column_count < 0 { 0 } else { area.column_count as int };
    match as_u16(declared_rows) {
        None => Err("cantidad de filas del área inválida"@),
        Some(r0) => match as_u16(declared_columns) {
            None => Err("cantidad de columnas del área inválida"@),
            Some(c0) => {
                let ar = max16(r0, inferred_extent(area.rows@, true));
                let ac = max16(c0, inferred_extent(area.rows@, false));
                match place_rows(area.rows@, ar, ac, st.y_offset) {
                    Err(e) => Err(e),
                    Ok(q) => {
                        let rows = max16(st.rows, sat_add16(st.y_offset as int, ar as int));
                        Ok(
                            LayoutProgress {
                                rows,
                                columns: max16(st.columns, ac),
                                y_offset: sat_add16(rows as int, 1),
                                seats: st.seats + q,
                            },
                        )
                    },
                }
            },
        },
    }
}

pub open spec fn place_areas(areas: Seq<SeatArea>) -> Result<LayoutProgress, Seq<char>>
    decreases areas.len(),
{
    if areas.len() == 0 {
        Ok(LayoutProgress { rows: 0, columns: 0, y_offset: 0, seats: Seq::empty() })
    } else {
        match place_areas(areas.drop_last()) {
            Err(e) => Err(e),
            Ok(st) => place_area(st, areas.last()),
        }
    }
}

/// The seat map of a layout: its areas placed from top to bottom; a map
/// without seats is an error.
pub open spec fn layout_map(layout: SeatLayout) -> Result<LayoutProgress, Seq<char>> {
    match place_areas(sort_areas(layout.areas@)) {
        Err(e) => Err(e),
        Ok(st) => if st.seats.len() == 0 {
            Err("el mapa de Cineplanet no tiene asientos"@)
        } else {
            Ok(st)
        },
    }
}

proof fn lemma_place_seats_inside(name: Seq<char>, seats: Seq<ApiSeat>, ar: u16, ac: u16, yo: u16)
    ensures
        place_seats(name, seats, ar, ac, yo) matches Ok(p) ==> {
            &&& (p.len() > 0 ==> seats_max(seats, true) is Some && seats_max(seats, false) is Some)
            &&& forall|k: int|
                0 <= k < p.len() ==> (ac >= 1 ==> (#[trigger] p[k]).x < ac) && (ar >= 1 ==> p[k].y
                    < yo + ar)
        },
    decreases seats.len(),
{
    if seats.len() > 0 {
        lemma_place_seats_inside(name, seats.drop_last(), ar, ac, yo);
    }
}

proof fn lemma_place_rows_inside(rows: Seq<SeatRow>, ar: u16, ac: u16, yo: u16)
    ensures
        place_rows(rows, ar, ac, yo) matches Ok(p) ==> {
            &&& (p.len() > 0 ==> rows_max(rows, true) is Some && rows_max(rows, false) is Some)
            &&& forall|k: int|
                0 <= k < p.len() ==> (ac >= 1 ==> (#[trigger] p[k]).x < ac) && (ar >= 1 ==> p[k].y
                    < yo + ar)
        },
    decreases rows.len(),
{
    if rows.len() > 0 {
        lemma_place_rows_inside(rows.drop_last(), ar, ac, yo);
        if let Some(name) = rows.last().physical_name {
            lemma_place_seats_inside(name@, rows.last().seats@, ar, ac, yo);
            if let Ok(p) = place_rows(rows, ar, ac, yo) {
                if let Ok(a) = place_rows(rows.drop_last(), ar, ac, yo) {
                    if let Ok(b) = place_seats(name@, rows.last().seats@, ar, ac, yo) {
                        assert(p == a + b);
                        assert forall|k: int| 0 <= k < p.len() implies (ac >= 1 ==> (#[trigger] p[k]).x
                            < ac) && (ar >= 1 ==> p[k].y < yo + ar) by {
                            if k < a.len() {
                                assert(p[k] == a[k]);
                            } else {
                                assert(p[k] == b[k - a.len()]);
                            }
                        }
                    }
                }
            }
        }
    }
}

proof fn lemma_place_areas_inside(areas: Seq<SeatArea>)
    ensures
        place_areas(areas) matches Ok(st) ==> forall|k: int|
            0 <= k < st.seats.len() ==> (#[trigger] st.seats[k]).x < st.columns && (st.seats[k].y
                < st.rows || st.rows == 65535),
    decreases areas.len(),
{
    if areas.len() > 0 {
        let d = areas.drop_last();
        let area = areas.last();
        lemma_place_areas_inside(d);
        if let Ok(st) = place_areas(d) {
            if let Ok(nx) = place_area(st, area) {
                let declared_rows = if area.row_count < 0 { 0 } else { area.row_count as int };
                let declared_columns = if area.column_count < 0 { 0 } else { area.column_count as int };
                let r0 = as_u16(declared_rows).unwrap();
                let c0 = as_u16(declared_columns).unwrap();
                let ar = max16(r0, inferred_extent(area.rows@, true));
                let ac = max16(c0, inferred_extent(area.rows@, false));
                lemma_place_rows_inside(area.rows@, ar, ac, st.y_offset);
                let q = place_rows(area.rows@, ar, ac, st.y_offset)->Ok_0;
                assert(nx.seats == st.seats + q);
                assert forall|k: int| 0 <= k < nx.seats.len() implies (#[trigger] nx.seats[k]).x
                    < nx.columns && (nx.seats[k].y < nx.rows || nx.rows == 65535) by {
                    if k < st.seats.len() {
                        assert(nx.seats[k] == st.seats[k]);
                    } else {
                        assert(nx.seats[k] == q[k - st.seats.len()]);
                        assert(q.len() > 0);
                        assert(ar >= 1 && ac >= 1);
                    }
                }
            }
        }
    }
}

/// Every seat of a parsed layout lies inside the map's grid: its column is
/// below the map's columns, and its row below the map's rows unless the rows
/// reach the largest `u16`.
pub proof fn lemma_layout_seats_inside_grid(layout: SeatLayout)
    ensures
        layout_map(layout) matches Ok(st) ==> forall|k: int|
            0 <= k < st.seats.len() ==> (#[trigger] st.seats[k]).x < st.columns && (st.rows < 65535
                ==> st.seats[k].y < st.rows),
{
    lemma_place_areas_inside(sort_areas(layout.areas@));
}

fn to_u16(v: i32) -> (r: Option<u16>)
    ensures
        r == as_u16(v as int),
{
    if 0 <= v && v <= 65535 {
        Some(v as u16)
    } else {
        None
    }
}

fn max_u16(a: u16, b: u16) -> (r: u16)
    ensures
        r == max16(a, b),
{
    if a >= b {
        a
    } else {
        b
    }
}

fn opt_max_exec(a: Option<u16>, b: Option<u16>) -> (r: Option<u16>)
    ensures
        r == opt_max(a, b),
{
    match (a, b) {
        (Some(x), Some(y)) => Some(max_u16(x, y)),
        (Some(x), None) => Some(x),
        (None, y) => y,
    }
}

/// The extent an area's seats reach along an axis.
fn extent_of(rows: &Vec<SeatRow>, rows_axis: bool) -> (r: u16)
    ensures
        r == inferred_extent(rows@, rows_axis),
{
    let mut best: Option<u16> = None;
    let mut i: usize = 0;
    while i < rows.len()
        invariant
            i <= rows.len(),
            best == rows_max(rows@.take(i as int), rows_axis),
        decreases rows.len() - i,
    {
        proof {
            assert(rows@.take(i + 1).drop_last() =~= rows@.take(i as int));
            assert(rows@.take(i + 1).last() == rows@[i as int]);
        }
        let seats = &rows[i].seats;
        let mut row_best: Option<u16> = None;
        let mut j: usize = 0;
        while j < seats.len()
            invariant
                j <= seats.len(),
                row_best == seats_max(seats@.take(j as int), rows_axis),
            decreases seats.len() - j,
        {
            proof {
                assert(seats@.take(j + 1).drop_last() =~= seats@.take(j as int));
                assert(seats@.take(j + 1).last() == seats@[j as int]);
            }
            let c = if rows_axis {
                seats[j].position.row_index
            } else {
                seats[j].position.column_index
            };
            row_best = opt_max_exec(row_best, to_u16(c));
            j += 1;
        }
        proof {
            assert(seats@.take(seats@.len() as int) =~= seats@);
        }
        best = opt_max_exec(best, row_best);
        i += 1;
    }
    proof {
        assert(rows@.take(rows@.len() as int) =~= rows@);
    }
    match best {
        Some(m) => m.saturating_add(1),
        None => 0,
    }
}

/// Places one seat of row `name` (see `place_seat`).
fn place_one(name: &String, seat: &ApiSeat, area_rows: u16, area_columns: u16, y_offset: u16) -> (r: Result<Option<crate::domain::Seat>, String>)
    ensures
        match (r, place_seat(name@, *seat, area_rows, area_columns, y_offset)) {
            (Ok(None), Ok(None)) => true,
            (Ok(Some(s)), Ok(Some(p))) => placed(s) == p,
            (Err(e), Err(m)) => e@ == m,
            _ => false,
        },
{
    let state = if seat.status == 0 {
        crate::domain::SeatState::Available
    } else if seat.status == 1 {
        crate::domain::SeatState::Occupied
    } else if seat.status == 3 {
        crate::domain::SeatState::Accessible
    } else if seat.status == 5 || seat.status == 7 {
        return Ok(None);
    } else {
        return Err(
            concat(
                "estado de asiento de Cineplanet desconocido: ",
                crate::text::signed_decimal_text(seat.status as i64).as_str(),
            ),
        );
    };
    let source_x = match to_u16(seat.position.column_index) {
        Some(v) => v,
        None => {
            return Err(owned("columna de asiento inválida"));
        },
    };
    let x = area_columns.saturating_sub(1).saturating_sub(source_x);
    let source_y = match to_u16(seat.position.row_index) {
        Some(v) => v,
        None => {
            return Err(owned("fila de asiento inválida"));
        },
    };
    let y = y_offset.saturating_add(area_rows.saturating_sub(1).saturating_sub(source_y));
    let number = match crate::text::parse_unsigned(seat.id.as_str(), 65535) {
        Some(n) => n as u16,
        None => source_x.saturating_add(1),
    };
    Ok(
        Some(
            crate::domain::Seat {
                id: concat(name.as_str(), seat.id.as_str()),
                row: name.clone(),
                number,
                x,
                y,
                state,
            },
        ),
    )
}

proof fn lemma_place_seats_err_persists(name: Seq<char>, seats: Seq<ApiSeat>, j: int, ar: u16, ac: u16, yo: u16)
    requires
        0 <= j <= seats.len(),
        place_seats(name, seats.take(j), ar, ac, yo) is Err,
    ensures
        place_seats(name, seats, ar, ac, yo) == place_seats(name, seats.take(j), ar, ac, yo),
    decreases seats.len(),
{
    if j == seats.len() {
        assert(seats.take(j) =~= seats);
    } else {
        assert(seats.drop_last().take(j) =~= seats.take(j));
        lemma_place_seats_err_persists(name, seats.drop_last(), j, ar, ac, yo);
    }
}

proof fn lemma_place_rows_err_persists(rows: Seq<SeatRow>, i: int, ar: u16, ac: u16, yo: u16)
    requires
        0 <= i <= rows.len(),
        place_rows(rows.take(i), ar, ac, yo) is Err,
    ensures
        place_rows(rows, ar, ac, yo) == place_rows(rows.take(i), ar, ac, yo),
    decreases rows.len(),
{
    if i == rows.len() {
        assert(rows.take(i) =~= rows);
    } else {
        assert(rows.drop_last().take(i) =~= rows.take(i));
        lemma_place_rows_err_persists(rows.drop_last(), i, ar, ac, yo);
    }
}

proof fn lemma_place_areas_err_persists(areas: Seq<SeatArea>, i: int)
    requires
        0 <= i <= areas.len(),
        place_areas(areas.take(i)) is Err,
    ensures
        place_areas(areas) == place_areas(areas.take(i)),
    decreases areas.len(),
{
    if i == areas.len() {
        assert(areas.take(i) =~= areas);
    } else {
        assert(areas.drop_last().take(i) =~= areas.take(i));
        lemma_place_areas_err_persists(areas.drop_last(), i);
    }
}

/// Places the seats of the named rows of an area (see `place_rows`).
fn place_area_rows(rows: &Vec<SeatRow>, area_rows: u16, area_columns: u16, y_offset: u16) -> (r: Result<Vec<crate::domain::Seat>, String>)
    ensures
        match (r, place_rows(rows@, area_rows, area_columns, y_offset)) {
            (Ok(v), Ok(p)) => placed_all(v@) == p,
            (Err(e), Err(m)) => e@ == m,
            _ => false,
        },
{
    let mut out: Vec<crate::domain::Seat> = Vec::new();
    let mut i: usize = 0;
    proof {
        assert(placed_all(out@) =~= Seq::empty());
    }
    while i < rows.len()
        invariant
            i <= rows.len(),
            place_rows(rows@.take(i as int), area_rows, area_columns, y_offset) matches Ok(p) && p
                == placed_all(out@),
        decreases rows.len() - i,
    {
        proof {
            assert(rows@.take(i + 1).drop_last() =~= rows@.take(i as int));
            assert(rows@.take(i + 1).last() == rows@[i as int]);
        }
        if let Some(name) = &rows[i].physical_name {
            let seats = &rows[i].seats;
            let ghost before = placed_all(out@);
            let mut j: usize = 0;
            proof {
                assert(seats@.take(0) =~= Seq::empty());
                assert(placed_all(out@) =~= before + Seq::<PlacedSeat>::empty());
            }
            while j < seats.len()
                invariant
                    i < rows.len(),
                    j <= seats.len(),
                    seats == &rows@[i as int].seats,
                    rows@[i as int].physical_name == Some(*name),
                    place_rows(rows@.take(i as int), area_rows, area_columns, y_offset) == Ok::<
                        Seq<PlacedSeat>,
                        Seq<char>,
                    >(before),
                    place_seats(name@, seats@.take(j as int), area_rows, area_columns, y_offset) matches Ok(q)
                        && placed_all(out@) == before + q,
                decreases seats.len() - j,
            {
                proof {
                    assert(seats@.take(j + 1).drop_last() =~= seats@.take(j as int));
                    assert(seats@.take(j + 1).last() == seats@[j as int]);
                }
                match place_one(name, &seats[j], area_rows, area_columns, y_offset) {
                    Ok(Some(seat)) => {
                        let ghost q = placed_all(out@);
                        out.push(seat);
                        proof {
                            assert(placed_all(out@) =~= q.push(placed(seat)));
                            let q0 = match place_seats(name@, seats@.take(j as int), area_rows, area_columns, y_offset) {
                                Ok(q) => q,
                                Err(_) => Seq::empty(),
                            };
                            assert(before + q0.push(placed(seat)) =~= (before + q0).push(placed(seat)));
                        }
                    },
                    Ok(None) => {},
                    Err(e) => {
                        proof {
                            assert(place_seats(name@, seats@.take(j + 1), area_rows, area_columns, y_offset)
                                == Err::<Seq<PlacedSeat>, Seq<char>>(e@));
                            lemma_place_seats_err_persists(name@, seats@, j + 1, area_rows, area_columns, y_offset);
                            assert(rows@.take(i + 1).drop_last() =~= rows@.take(i as int));
                            assert(rows@.take(i + 1).last() == rows@[i as int]);
                            assert(place_rows(rows@.take(i + 1), area_rows, area_columns, y_offset)
                                == Err::<Seq<PlacedSeat>, Seq<char>>(e@));
                            lemma_place_rows_err_persists(rows@, i + 1, area_rows, area_columns, y_offset);
                        }
                        return Err(e);
                    },
                }
                j += 1;
            }
            proof {
                assert(seats@.take(seats@.len() as int) =~= seats@);
                let q = match place_seats(name@, seats@, area_rows, area_columns, y_offset) {
                    Ok(q) => q,
                    Err(_) => Seq::empty(),
                };
                assert(placed_all(out@) == before + q);
            }
        }
        i += 1;
    }
    proof {
        assert(rows@.take(rows@.len() as int) =~= rows@);
    }
    Ok(out)
}

/// Builds the seat map of a layout (see `layout_map`).
pub fn seat_map_from(layout: SeatLayout) -> (r: Result<crate::domain::SeatMap, String>)
    ensures
        match (r, layout_map(layout)) {
            (Ok(m), Ok(st)) => m.rows == st.rows && m.columns == st.columns && placed_all(m.seats@)
                == st.seats,
            (Err(e), Err(msg)) => e@ == msg,
            _ => false,
        },
        r matches Ok(m) ==> forall|k: int|
            0 <= k < m.seats@.len() ==> (#[trigger] m.seats@[k]).x < m.columns && (m.rows < 65535
                ==> m.seats@[k].y < m.rows),
{
    proof {
        lemma_layout_seats_inside_grid(layout);
    }
    let ghost order = sort_areas(layout.areas@);
    let areas = sorted_areas(layout.areas);
    let mut seats: Vec<crate::domain::Seat> = Vec::new();
    let mut rows: u16 = 0;
    let mut columns: u16 = 0;
    let mut y_offset: u16 = 0;
    let mut k: usize = 0;
    proof {
        assert(areas@.take(0) =~= Seq::empty());
        assert(placed_all(seats@) =~= Seq::empty());
    }
    while k < areas.len()
        invariant
            k <= areas.len(),
            areas@ == order,
            order == sort_areas(layout.areas@),
            place_areas(areas@.take(k as int)) == Ok::<LayoutProgress, Seq<char>>(
                LayoutProgress { rows, columns, y_offset, seats: placed_all(seats@) },
            ),
        decreases areas.len() - k,
    {
        proof {
            assert(areas@.take(k + 1).drop_last() =~= areas@.take(k as int));
            assert(areas@.take(k + 1).last() == areas@[k as int]);
        }
        let area = &areas[k];
        let declared_rows = if area.row_count < 0 {
            0
        } else {
            area.row_count
        };
        let declared_columns = if area.column_count < 0 {
            0
        } else {
            area.column_count
        };
        let r0 = match to_u16(declared_rows) {
            Some(v) => v,
            None => {
                proof {
                    lemma_place_areas_err_persists(areas@, k + 1);
                }
                return Err(owned("cantidad de filas del área inválida"));
            },
        };
        let c0 = match to_u16(declared_columns) {
            Some(v) => v,
            None => {
                proof {
                    lemma_place_areas_err_persists(areas@, k + 1);
                }
                return Err(owned("cantidad de columnas del área inválida"));
            },
        };
        let area_rows = max_u16(r0, extent_of(&area.rows, true));
        let area_columns = max_u16(c0, extent_of(&area.rows, false));
        let mut placed_seats = match place_area_rows(&area.rows, area_rows, area_columns, y_offset) {
            Ok(v) => v,
            Err(e) => {
                proof {
                    lemma_place_areas_err_persists(areas@, k + 1);
                }
                return Err(e);
            },
        };
        let ghost before = placed_all(seats@);
        let ghost added = placed_all(placed_seats@);
        seats.append(&mut placed_seats);
        proof {
            assert(placed_all(seats@) =~= before + added);
        }
        rows = max_u16(rows, y_offset.saturating_add(area_rows));
        columns = max_u16(columns, area_columns);
        y_offset = rows.saturating_add(1);
        k += 1;
    }
    proof {
        assert(areas@.take(areas@.len() as int) =~= areas@);
    }
    if seats.len() == 0 {
        return Err(owned("el mapa de Cineplanet no tiene asientos"));
    }
    proof {
        assert forall|k: int| 0 <= k < seats@.len() implies (#[trigger] seats@[k]).x < columns && (rows
            < 65535 ==> seats@[k].y < rows) by {
            assert(placed_all(seats@)[k] == placed(seats@[k]));
        }
    }
    Ok(crate::domain::SeatMap { rows, columns, seats })
}

/// The showtime with its seat map, or why the plan has none: a response
/// code other than `0` names the venue and the provider's description (or
/// `respuesta inválida`); a plan without layout data has no seats.
pub open spec fn seat_plan_result(venue_name: Seq<char>, response: SeatPlanResponse) -> Result<LayoutProgress, Seq<char>> {
    if response.response_code@ != "0"@ {
        Err(
            "Cineplanet no entregó el mapa de "@ + venue_name + ": "@ + match response.error_description {
                Some(d) => d@,
                None => "respuesta inválida"@,
            },
        )
    } else {
        match response.seat_layout_data {
            None => Err("Cineplanet no devolvió asientos"@),
            Some(layout) => layout_map(layout),
        }
    }
}

/// Puts the seat plan of a response on the showtime.
pub fn apply_seat_plan(showtime: Showtime, response: SeatPlanResponse) -> (r: Result<Showtime, String>)
    ensures
        match (r, seat_plan_result(showtime.venue_name@, response)) {
            (Ok(s), Ok(st)) => s == (Showtime { seat_map: s.seat_map, ..showtime })
                && s.seat_map.rows == st.rows && s.seat_map.columns == st.columns && placed_all(
                s.seat_map.seats@,
            ) == st.seats,
            (Err(e), Err(msg)) => e@ == msg,
            _ => false,
        },
{
    if compare_text(response.response_code.as_str(), "0") != 0 {
        let description = match &response.error_description {
            Some(d) => d.clone(),
            None => owned("respuesta inválida"),
        };
        let a = concat("Cineplanet no entregó el mapa de ", showtime.venue_name.as_str());
        let b = concat(a.as_str(), ": ");
        return Err(concat(b.as_str(), description.as_str()));
    }
    let layout = match response.seat_layout_data {
        Some(layout) => layout,
        None => {
            return Err(owned("Cineplanet no devolvió asientos"));
        },
    };
    let seat_map = seat_map_from(layout)?;
    Ok(Showtime { seat_map, ..showtime })
}

/// The path of a showtime's seat plan: its venue and the session part of
/// its id, which must carry a hyphen.
pub open spec fn seat_plan_path_text(id: Seq<char>, venue_id: Seq<char>) -> Option<Seq<char>> {
    match after_last(id, '-') {
        Some(session) => Some("/seatplan/cinema/"@ + venue_id + "/session/"@ + session),
        None => None,
    }
}

/// The API path of a showtime's seat plan.
pub fn seat_plan_path(showtime: &Showtime) -> (r: Result<String, String>)
    ensures
        match (r, seat_plan_path_text(showtime.id@, showtime.venue_id@)) {
            (Ok(p), Some(t)) => p@ == t,
            (Err(e), None) => e@ == "la función real no contiene un identificador de sesión válido"@,
            _ => false,
        },
{
    match split_after_last(showtime.id.as_str(), '-') {
        Some(session) => {
            let a = concat("/seatplan/cinema/", showtime.venue_id.as_str());
            let b = concat(a.as_str(), "/session/");
            Ok(concat(b.as_str(), session.as_str()))
        },
        None => Err(owned("la función real no contiene un identificador de sesión válido")),
    }
}

// ---------------------------------------------------------------------------
// The catalog.
// ---------------------------------------------------------------------------
#[derive(Clone, Debug)]
pub struct MoviesResponse {
    pub movies: Vec<ApiMovie>,
}

#[derive(Clone, Debug)]
pub struct ApiMovie {
    pub id: String,
    pub title: String,
    pub movie_details_url: Option<String>,
    pub is_coming_soon: bool,
    pub run_time: Option<u16>,
    pub genre: Option<String>,
    pub rating_description: Option<String>,
    pub cinemas: Vec<MovieCinema>,
}

#[derive(Clone, Debug)]
pub struct MovieCinema {
    pub cinema_id: String,
    pub dates: Vec<MovieDate>,
}

#[derive(Clone, Debug)]
pub struct MovieDate {
    pub sessions: Vec<String>,
}

#[derive(Clone, Debug)]
pub struct CinemasResponse {
    pub cinemas: Vec<ApiCinema>,
}

#[derive(Clone, Debug)]
pub struct ApiCinema {
    pub id: String,
    pub name: String,
    pub city: String,
}

#[derive(Clone, Debug)]
pub struct SessionsResponse {
    pub sessions: Vec<ApiSession>,
}

#[derive(Clone, Debug)]
pub struct ApiSession {
    pub id: String,
    pub session_id: Option<String>,
    pub showtime: String,
    pub screen_name: String,
    pub formats: Vec<String>,
    pub languages: Vec<String>,
}

pub open spec fn opt_view(o: Option<String>) -> Option<Seq<char>> {
    match o {
        Some(s) => Some(s@),
        None => None,
    }
}

/// The last venue with the given id (later venues override earlier ones).
pub open spec fn last_venue(venues: Seq<crate::domain::Venue>, id: Seq<char>) -> Option<int>
    decreases venues.len(),
{
    if venues.len() == 0 {
        None
    } else if venues.last().id@ == id {
        Some(venues.len() - 1)
    } else {
        last_venue(venues.drop_last(), id)
    }
}

/// The last session with the given id (later sessions override earlier
/// ones).
pub open spec fn last_session(sessions: Seq<ApiSession>, id: Seq<char>) -> Option<int>
    decreases sessions.len(),
{
    if sessions.len() == 0 {
        None
    } else if sessions.last().id@ == id {
        Some(sessions.len() - 1)
    } else {
        last_session(sessions.drop_last(), id)
    }
}

/// Where a catalog showtime comes from: the movie, the movie's cinema entry
/// with the venue's name, the session, and the session's start.
pub struct SessionSource {
    pub movie: ApiMovie,
    pub cinema_id: String,
    pub venue_name: String,
    pub session: ApiSession,
    pub start: crate::domain::StartTime,
}

/// The language of a session: its first label, normalized, or `Sin
/// especificar` without one.
pub open spec fn language_of(languages: Seq<String>) -> Seq<char> {
    if languages.len() == 0 {
        "Sin especificar"@
    } else {
        normalized_language(languages[0]@)
    }
}

/// `st` is the catalog showtime of source `src`, its seat map still empty.
pub open spec fn showtime_from(st: Showtime, src: SessionSource) -> bool {
    &&& st.id == src.session.id
    &&& st.movie_id == src.movie.id
    &&& st.movie_title == src.movie.title
    &&& st.movie_details_url == src.movie.movie_details_url
    &&& st.venue_id == src.cinema_id
    &&& st.venue_name == src.venue_name
    &&& opt_view(st.session_id) == checkout_session(opt_view(src.session.session_id), src.session.id@)
    &&& st.starts_at == src.start
    &&& st.modality.projection_format@ == projection_format_of(src.session.formats@)
    &&& st.modality.language@ == language_of(src.session.languages@)
    &&& st.modality.room_type@ == room_type_of(src.session.formats@, src.session.screen_name@)
    &&& st.seat_map.rows == 0
    &&& st.seat_map.columns == 0
    &&& st.seat_map.seats@.len() == 0
}

pub open spec fn showtimes_from(sts: Seq<Showtime>, srcs: Seq<SessionSource>) -> bool {
    sts.len() == srcs.len() && forall|k: int| 0 <= k < sts.len() ==> showtime_from(#[trigger] sts[k], srcs[k])
}

/// The sources of the session ids of one date, in order; ids without a
/// session are skipped, and a start that is not RFC 3339 is an error.
pub open spec fn date_sources(movie: ApiMovie, cinema_id: String, venue_name: String, ids: Seq<String>, sessions: Seq<ApiSession>) -> Result<Seq<SessionSource>, Seq<char>>
    decreases ids.len(),
{
    if ids.len() == 0 {
        Ok(Seq::empty())
    } else {
        match date_sources(movie, cinema_id, venue_name, ids.drop_last(), sessions) {
            Err(e) => Err(e),
            Ok(p) => match last_session(sessions, ids.last()@) {
                None => Ok(p),
                Some(k) => match crate::clock::rfc3339_instant(sessions[k].showtime@) {
                    None => Err("hora inválida para la función "@ + ids.last()@),
                    Some(t) => Ok(
                        p.push(
                            SessionSource {
                                movie,
                                cinema_id,
                                venue_name,
                                session: sessions[k],
                                start: crate::domain::StartTime {
                                    instant_seconds: t.0,
                                    subsec_nanos: t.1,
                                    offset_seconds: t.2,
                                },
                            },
                        ),
                    ),
                },
            },
        }
    }
}

/// The sources of every date of a movie's cinema entry, in order.
pub open spec fn dates_sources(movie: ApiMovie, cinema_id: String, venue_name: String, dates: Seq<MovieDate>, sessions: Seq<ApiSession>) -> Result<Seq<SessionSource>, Seq<char>>
    decreases dates.len(),
{
    if dates.len() == 0 {
        Ok(Seq::empty())
    } else {
        match dates_sources(movie, cinema_id, venue_name, dates.drop_last(), sessions) {
            Err(e) => Err(e),
            Ok(p) => match date_sources(movie, cinema_id, venue_name, dates.last().sessions@, sessions) {
                Err(e) => Err(e),
                Ok(q) => Ok(p + q),
            },
        }
    }
}

/// The sources of a movie's cinema entries, in order; entries for unknown
/// venues are skipped.
pub open spec fn cinemas_sources(movie: ApiMovie, entries: Seq<MovieCinema>, venues: Seq<crate::domain::Venue>, sessions: Seq<ApiSession>) -> Result<Seq<SessionSource>, Seq<char>>
    decreases entries.len(),
{
    if entries.len() == 0 {
        Ok(Seq::empty())
    } else {
        match cinemas_sources(movie, entries.drop_last(), venues, sessions) {
            Err(e) => Err(e),
            Ok(p) => match last_venue(venues, entries.last().cinema_id@) {
                None => Ok(p),
                Some(v) => match dates_sources(
                    movie,
                    entries.last().cinema_id,
                    venues[v].name,
                    entries.last().dates@,
                    sessions,
                ) {
                    Err(e) => Err(e),
                    Ok(q) => Ok(p + q),
                },
            },
        }
    }
}

/// The sources of every movie that is not coming soon, in order.
pub open spec fn movies_sources(movies: Seq<ApiMovie>, venues: Seq<crate::domain::Venue>, sessions: Seq<ApiSession>) -> Result<Seq<SessionSource>, Seq<char>>
    decreases movies.len(),
{
    if movies.len() == 0 {
        Ok(Seq::empty())
    } else {
        match movies_sources(movies.drop_last(), venues, sessions) {
            Err(e) => Err(e),
            Ok(p) => if movies.last().is_coming_soon {
                Ok(p)
            } else {
                match cinemas_sources(movies.last(), movies.last().cinemas@, venues, sessions) {
                    Err(e) => Err(e),
                    Ok(q) => Ok(p + q),
                }
            },
        }
    }
}

pub open spec fn venue_of(c: ApiCinema) -> crate::domain::Venue {
    crate::domain::Venue { id: c.id, name: c.name, city: c.city }
}

pub open spec fn movie_of(m: ApiMovie) -> crate::domain::Movie {
    crate::domain::Movie {
        id: m.id,
        title: m.title,
        movie_details_url: m.movie_details_url,
        duration_minutes: m.run_time,
        genre: m.genre,
        rating: m.rating_description,
    }
}

/// The movies that are not coming soon, in order.
pub open spec fn listed_movies(movies: Seq<ApiMovie>) -> Seq<crate::domain::Movie>
    decreases movies.len(),
{
    if movies.len() == 0 {
        Seq::empty()
    } else if movies.last().is_coming_soon {
        listed_movies(movies.drop_last())
    } else {
        listed_movies(movies.drop_last()).push(movie_of(movies.last()))
    }
}

proof fn lemma_showtimes_from_concat(a: Seq<Showtime>, p: Seq<SessionSource>, b: Seq<Showtime>, q: Seq<SessionSource>)
    requires
        showtimes_from(a, p),
        showtimes_from(b, q),
    ensures
        showtimes_from(a + b, p + q),
{
    assert forall|k: int| 0 <= k < (a + b).len() implies showtime_from(#[trigger] (a + b)[k], (p + q)[k]) by {
        if k < a.len() {
            assert((a + b)[k] == a[k] && (p + q)[k] == p[k]);
        } else {
            assert((a + b)[k] == b[k - a.len()] && (p + q)[k] == q[k - a.len()]);
        }
    }
}

proof fn lemma_date_err_persists(movie: ApiMovie, cid: String, vname: String, ids: Seq<String>, sessions: Seq<ApiSession>, j: int)
    requires
        0 <= j <= ids.len(),
        date_sources(movie, cid, vname, ids.take(j), sessions) is Err,
    ensures
        date_sources(movie, cid, vname, ids, sessions) == date_sources(movie, cid, vname, ids.take(j), sessions),
    decreases ids.len(),
{
    if j == ids.len() {
        assert(ids.take(j) =~= ids);
    } else {
        assert(ids.drop_last().take(j) =~= ids.take(j));
        lemma_date_err_persists(movie, cid, vname, ids.drop_last(), sessions, j);
    }
}

proof fn lemma_dates_err_persists(movie: ApiMovie, cid: String, vname: String, dates: Seq<MovieDate>, sessions: Seq<ApiSession>, j: int)
    requires
        0 <= j <= dates.len(),
        dates_sources(movie, cid, vname, dates.take(j), sessions) is Err,
    ensures
        dates_sources(movie, cid, vname, dates, sessions) == dates_sources(movie, cid, vname, dates.take(j), sessions),
    decreases dates.len(),
{
    if j == dates.len() {
        assert(dates.take(j) =~= dates);
    } else {
        assert(dates.drop_last().take(j) =~= dates.take(j));
        lemma_dates_err_persists(movie, cid, vname, dates.drop_last(), sessions, j);
    }
}

proof fn lemma_cinemas_err_persists(movie: ApiMovie, entries: Seq<MovieCinema>, venues: Seq<crate::domain::Venue>, sessions: Seq<ApiSession>, j: int)
    requires
        0 <= j <= entries.len(),
        cinemas_sources(movie, entries.take(j), venues, sessions) is Err,
    ensures
        cinemas_sources(movie, entries, venues, sessions) == cinemas_sources(movie, entries.take(j), venues, sessions),
    decreases entries.len(),
{
    if j == entries.len() {
        assert(entries.take(j) =~= entries);
    } else {
        assert(entries.drop_last().take(j) =~= entries.take(j));
        lemma_cinemas_err_persists(movie, entries.drop_last(), venues, sessions, j);
    }
}

proof fn lemma_movies_err_persists(movies: Seq<ApiMovie>, venues: Seq<crate::domain::Venue>, sessions: Seq<ApiSession>, j: int)
    requires
        0 <= j <= movies.len(),
        movies_sources(movies.take(j), venues, sessions) is Err,
    ensures
        movies_sources(movies, venues, sessions) == movies_sources(movies.take(j), venues, sessions),
    decreases movies.len(),
{
    if j == movies.len() {
        assert(movies.take(j) =~= movies);
    } else {
        assert(movies.drop_last().take(j) =~= movies.take(j));
        lemma_movies_err_persists(movies.drop_last(), venues, sessions, j);
    }
}

fn find_last_venue(venues: &Vec<crate::domain::Venue>, id: &str) -> (r: Option<usize>)
    ensures
        match r {
            Some(k) => last_venue(venues@, id@) == Some(k as int) && k < venues.len(),
            None => last_venue(venues@, id@) is None,
        },
{
    let mut k: usize = venues.len();
    proof {
        assert(venues@.take(k as int) =~= venues@);
    }
    while k > 0
        invariant
            k <= venues.len(),
            last_venue(venues@, id@) == last_venue(venues@.take(k as int), id@),
        decreases k,
    {
        proof {
            assert(venues@.take(k as int).drop_last() =~= venues@.take(k - 1));
            assert(venues@.take(k as int).last() == venues@[k - 1]);
        }
        if compare_text(venues[k - 1].id.as_str(), id) == 0 {
            return Some(k - 1);
        }
        k -= 1;
    }
    None
}

fn find_last_session(sessions: &Vec<ApiSession>, id: &str) -> (r: Option<usize>)
    ensures
        match r {
            Some(k) => last_session(sessions@, id@) == Some(k as int) && k < sessions.len(),
            None => last_session(sessions@, id@) is None,
        },
{
    let mut k: usize = sessions.len();
    proof {
        assert(sessions@.take(k as int) =~= sessions@);
    }
    while k > 0
        invariant
            k <= sessions.len(),
            last_session(sessions@, id@) == last_session(sessions@.take(k as int), id@),
        decreases k,
    {
        proof {
            assert(sessions@.take(k as int).drop_last() =~= sessions@.take(k - 1));
            assert(sessions@.take(k as int).last() == sessions@[k - 1]);
        }
        if compare_text(sessions[k - 1].id.as_str(), id) == 0 {
            return Some(k - 1);
        }
        k -= 1;
    }
    None
}

/// The catalog showtime of a session (see `showtime_from`).
fn session_showtime(movie: &ApiMovie, cinema_id: &String, venue_name: &String, session: &ApiSession, start: crate::domain::StartTime) -> (r: Showtime)
    ensures
        showtime_from(
            r,
            SessionSource {
                movie: *movie,
                cinema_id: *cinema_id,
                venue_name: *venue_name,
                session: *session,
                start,
            },
        ),
{
    let official = match &session.session_id {
        Some(s) => Some(s.as_str()),
        None => None,
    };
    let language = if session.languages.len() == 0 {
        owned("Sin especificar")
    } else {
        normalize_language(session.languages[0].as_str())
    };
    Showtime {
        id: session.id.clone(),
        movie_id: movie.id.clone(),
        movie_title: movie.title.clone(),
        movie_details_url: crate::domain::copy_opt_text(&movie.movie_details_url),
        venue_id: cinema_id.clone(),
        venue_name: venue_name.clone(),
        session_id: checkout_session_id(official, session.id.as_str()),
        starts_at: start,
        modality: crate::domain::Modality {
            projection_format: projection_format(session.formats.as_slice()),
            language,
            room_type: room_type(session.formats.as_slice(), session.screen_name.as_str()),
        },
        seat_map: crate::domain::SeatMap { rows: 0, columns: 0, seats: Vec::new() },
    }
}

fn date_showtimes(movie: &ApiMovie, cinema_id: &String, venue_name: &String, ids: &Vec<String>, sessions: &Vec<ApiSession>) -> (r: Result<Vec<Showtime>, String>)
    ensures
        match (r, date_sources(*movie, *cinema_id, *venue_name, ids@, sessions@)) {
            (Ok(v), Ok(p)) => showtimes_from(v@, p),
            (Err(e), Err(m)) => e@ == m,
            _ => false,
        },
{
    let mut out: Vec<Showtime> = Vec::new();
    let mut j: usize = 0;
    while j < ids.len()
        invariant
            j <= ids.len(),
            date_sources(*movie, *cinema_id, *venue_name, ids@.take(j as int), sessions@) matches Ok(p)
                && showtimes_from(out@, p),
        decreases ids.len() - j,
    {
        proof {
            assert(ids@.take(j + 1).drop_last() =~= ids@.take(j as int));
            assert(ids@.take(j + 1).last() == ids@[j as int]);
        }
        if let Some(k) = find_last_session(sessions, ids[j].as_str()) {
            match crate::clock::parse_rfc3339(sessions[k].showtime.as_str()) {
                Some(start) => {
                    let st = session_showtime(movie, cinema_id, venue_name, &sessions[k], start);
                    let ghost before = out@;
                    out.push(st);
                    proof {
                        let p = match date_sources(*movie, *cinema_id, *venue_name, ids@.take(j as int), sessions@) {
                            Ok(p) => p,
                            Err(_) => Seq::empty(),
                        };
                        let src = SessionSource {
                            movie: *movie,
                            cinema_id: *cinema_id,
                            venue_name: *venue_name,
                            session: sessions@[k as int],
                            start,
                        };
                        assert forall|m: int| 0 <= m < out@.len() implies showtime_from(#[trigger] out@[m], p.push(src)[m]) by {
                            if m < before.len() {
                                assert(out@[m] == before[m]);
                            }
                        }
                    }
                },
                None => {
                    proof {
                        lemma_date_err_persists(*movie, *cinema_id, *venue_name, ids@, sessions@, j + 1);
                    }
                    return Err(concat("hora inválida para la función ", ids[j].as_str()));
                },
            }
        }
        j += 1;
    }
    proof {
        assert(ids@.take(ids@.len() as int) =~= ids@);
    }
    Ok(out)
}

fn dates_showtimes(movie: &ApiMovie, cinema_id: &String, venue_name: &String, dates: &Vec<MovieDate>, sessions: &Vec<ApiSession>) -> (r: Result<Vec<Showtime>, String>)
    ensures
        match (r, dates_sources(*movie, *cinema_id, *venue_name, dates@, sessions@)) {
            (Ok(v), Ok(p)) => showtimes_from(v@, p),
            (Err(e), Err(m)) => e@ == m,
            _ => false,
        },
{
    let mut out: Vec<Showtime> = Vec::new();
    let mut j: usize = 0;
    while j < dates.len()
        invariant
            j <= dates.len(),
            dates_sources(*movie, *cinema_id, *venue_name, dates@.take(j as int), sessions@) matches Ok(p)
                && showtimes_from(out@, p),
        decreases dates.len() - j,
    {
        proof {
            assert(dates@.take(j + 1).drop_last() =~= dates@.take(j as int));
            assert(dates@.take(j + 1).last() == dates@[j as int]);
        }
        match date_showtimes(movie, cinema_id, venue_name, &dates[j].sessions, sessions) {
            Ok(mut more) => {
                let ghost a = out@;
                let ghost b = more@;
                out.append(&mut more);
                proof {
                    assert(out@ =~= a + b);
                    let p = match dates_sources(*movie, *cinema_id, *venue_name, dates@.take(j as int), sessions@) {
                        Ok(p) => p,
                        Err(_) => Seq::empty(),
                    };
                    let q = match date_sources(*movie, *cinema_id, *venue_name, dates@[j as int].sessions@, sessions@) {
                        Ok(q) => q,
                        Err(_) => Seq::empty(),
                    };
                    lemma_showtimes_from_concat(a, p, b, q);
                }
            },
            Err(e) => {
                proof {
                    lemma_dates_err_persists(*movie, *cinema_id, *venue_name, dates@, sessions@, j + 1);
                }
                return Err(e);
            },
        }
        j += 1;
    }
    proof {
        assert(dates@.take(dates@.len() as int) =~= dates@);
    }
    Ok(out)
}

fn cinemas_showtimes(movie: &ApiMovie, venues: &Vec<crate::domain::Venue>, sessions: &Vec<ApiSession>) -> (r: Result<Vec<Showtime>, String>)
    ensures
        match (r, cinemas_sources(*movie, movie.cinemas@, venues@, sessions@)) {
            (Ok(v), Ok(p)) => showtimes_from(v@, p),
            (Err(e), Err(m)) => e@ == m,
            _ => false,
        },
{
    let entries = &movie.cinemas;
    let mut out: Vec<Showtime> = Vec::new();
    let mut j: usize = 0;
    while j < entries.len()
        invariant
            j <= entries.len(),
            entries == &movie.cinemas,
            cinemas_sources(*movie, entries@.take(j as int), venues@, sessions@) matches Ok(p)
                && showtimes_from(out@, p),
        decreases entries.len() - j,
    {
        proof {
            assert(entries@.take(j + 1).drop_last() =~= entries@.take(j as int));
            assert(entries@.take(j + 1).last() == entries@[j as int]);
        }
        let entry = &entries[j];
        if let Some(v) = find_last_venue(venues, entry.cinema_id.as_str()) {
            match dates_showtimes(movie, &entry.cinema_id, &venues[v].name, &entry.dates, sessions) {
                Ok(mut more) => {
                    let ghost a = out@;
                    let ghost b = more@;
                    out.append(&mut more);
                    proof {
                        assert(out@ =~= a + b);
                        let p = match cinemas_sources(*movie, entries@.take(j as int), venues@, sessions@) {
                            Ok(p) => p,
                            Err(_) => Seq::empty(),
                        };
                        let q = match dates_sources(*movie, entry.cinema_id, venues@[v as int].name, entry.dates@, sessions@) {
                            Ok(q) => q,
                            Err(_) => Seq::empty(),
                        };
                        lemma_showtimes_from_concat(a, p, b, q);
                    }
                },
                Err(e) => {
                    proof {
                        lemma_cinemas_err_persists(*movie, entries@, venues@, sessions@, j + 1);
                    }
                    return Err(e);
                },
            }
        }
        j += 1;
    }
    proof {
        assert(entries@.take(entries@.len() as int) =~= entries@);
    }
    Ok(out)
}

/// The catalog of the three cached responses: every cinema as a venue, the
/// movies that are not coming soon, and their showtimes. A catalog without
/// movies or without showtimes is an error.
pub open spec fn catalog_result(movies: MoviesResponse, cinemas: CinemasResponse, sessions: SessionsResponse) -> Result<Seq<SessionSource>, Seq<char>> {
    let venues = cinemas.cinemas@.map_values(|c: ApiCinema| venue_of(c));
    match movies_sources(movies.movies@, venues, sessions.sessions@) {
        Err(e) => Err(e),
        Ok(p) => if listed_movies(movies.movies@).len() == 0 || p.len() == 0 {
            Err("Cineplanet no publicó películas con funciones utilizables"@)
        } else {
            Ok(p)
        },
    }
}

/// Builds the catalog from the cached movies, cinemas and sessions.
pub fn build_catalog(movies: MoviesResponse, cinemas: CinemasResponse, sessions: SessionsResponse) -> (r: Result<crate::domain::Catalog, String>)
    ensures
        match (r, catalog_result(movies, cinemas, sessions)) {
            (Ok(c), Ok(p)) => {
                &&& c.venues@ == cinemas.cinemas@.map_values(|x: ApiCinema| venue_of(x))
                &&& c.movies@ == listed_movies(movies.movies@)
                &&& showtimes_from(c.showtimes@, p)
            },
            (Err(e), Err(m)) => e@ == m,
            _ => false,
        },
{
    let ghost cinema_list = cinemas.cinemas@;
    let mut venues: Vec<crate::domain::Venue> = Vec::new();
    for c in it: cinemas.cinemas.into_iter()
        invariant
            it.seq() == cinema_list,
            venues@ == cinema_list.take(it.index() as int).map_values(|x: ApiCinema| venue_of(x)),
    {
        proof {
            assert(cinema_list.take(it.index() + 1) =~= cinema_list.take(it.index() as int).push(c));
        }
        venues.push(crate::domain::Venue { id: c.id, name: c.name, city: c.city });
        proof {
            assert(venues@ =~= cinema_list.take(it.index() + 1).map_values(|x: ApiCinema| venue_of(x)));
        }
    }
    proof {
        assert(cinema_list.take(cinema_list.len() as int) =~= cinema_list);
    }
    let list = &movies.movies;
    let mut showtimes: Vec<Showtime> = Vec::new();
    let mut listed: Vec<crate::domain::Movie> = Vec::new();
    let mut k: usize = 0;
    while k < list.len()
        invariant
            k <= list.len(),
            list == &movies.movies,
            cinema_list == cinemas.cinemas@,
            venues@ == cinema_list.map_values(|x: ApiCinema| venue_of(x)),
            listed@ == listed_movies(list@.take(k as int)),
            movies_sources(list@.take(k as int), venues@, sessions.sessions@) matches Ok(p)
                && showtimes_from(showtimes@, p),
        decreases list.len() - k,
    {
        proof {
            assert(list@.take(k + 1).drop_last() =~= list@.take(k as int));
            assert(list@.take(k + 1).last() == list@[k as int]);
        }
        let movie = &list[k];
        if !movie.is_coming_soon {
            match cinemas_showtimes(movie, &venues, &sessions.sessions) {
                Ok(mut more) => {
                    let ghost a = showtimes@;
                    let ghost b = more@;
                    showtimes.append(&mut more);
                    proof {
                        assert(showtimes@ =~= a + b);
                        let p = match movies_sources(list@.take(k as int), venues@, sessions.sessions@) {
                            Ok(p) => p,
                            Err(_) => Seq::empty(),
                        };
                        let q = match cinemas_sources(*movie, movie.cinemas@, venues@, sessions.sessions@) {
                            Ok(q) => q,
                            Err(_) => Seq::empty(),
                        };
                        lemma_showtimes_from_concat(a, p, b, q);
                    }
                },
                Err(e) => {
                    proof {
                        lemma_movies_err_persists(list@, venues@, sessions.sessions@, k + 1);
                    }
                    return Err(e);
                },
            }
            listed.push(
                crate::domain::Movie {
                    id: movie.id.clone(),
                    title: movie.title.clone(),
                    movie_details_url: crate::domain::copy_opt_text(&movie.movie_details_url),
                    duration_minutes: movie.run_time,
                    genre: crate::domain::copy_opt_text(&movie.genre),
                    rating: crate::domain::copy_opt_text(&movie.rating_description),
                },
            );
        }
        k += 1;
    }
    proof {
        assert(list@.take(list@.len() as int) =~= list@);
    }
    if listed.len() == 0 || showtimes.len() == 0 {
        return Err(owned("Cineplanet no publicó películas con funciones utilizables"));
    }
    Ok(crate::domain::Catalog { movies: listed, venues, showtimes })
}

// ---------------------------------------------------------------------------
// Hydration outcomes.
// ---------------------------------------------------------------------------
/// Inserts `e` after every element whose key is not above its own.
pub open spec fn insert_by_key<A>(s: Seq<A>, e: A, key: spec_fn(A) -> Seq<char>) -> Seq<A>
    decreases s.len(),
{
    if s.len() == 0 {
        seq![e]
    } else if text_lt(key(e), key(s.last())) {
        insert_by_key(s.drop_last(), e, key).push(s.last())
    } else {
        s.push(e)
    }
}

/// The stable sort of `s` by a text key.
pub open spec fn sort_by_key<A>(s: Seq<A>, key: spec_fn(A) -> Seq<char>) -> Seq<A>
    decreases s.len(),
{
    if s.len() == 0 {
        Seq::empty()
    } else {
        insert_by_key(sort_by_key(s.drop_last(), key), s.last(), key)
    }
}

proof fn lemma_insert_by_key_at<A>(s: Seq<A>, e: A, key: spec_fn(A) -> Seq<char>, j: int)
    requires
        0 <= j <= s.len(),
        j == 0 || !text_lt(key(e), key(s[j - 1])),
        forall|k: int| j <= k < s.len() ==> text_lt(key(e), key(#[trigger] s[k])),
    ensures
        insert_by_key(s, e, key) == s.take(j) + seq![e] + s.skip(j),
    decreases s.len() - j,
{
    if s.len() == 0 {
        assert(s.take(j) + seq![e] + s.skip(j) =~= seq![e]);
    } else if j == s.len() {
        assert(s.take(j) + seq![e] + s.skip(j) =~= s.push(e));
    } else {
        let d = s.drop_last();
        assert forall|k: int| j <= k < d.len() implies text_lt(key(e), key(#[trigger] d[k])) by {
            assert(d[k] == s[k]);
        }
        if j > 0 {
            assert(d[j - 1] == s[j - 1]);
        }
        lemma_insert_by_key_at(d, e, key, j);
        assert(d.take(j) + seq![e] + d.skip(j) + seq![s.last()] =~= s.take(j) + seq![e] + s.skip(j));
    }
}

/// No element's key comes below the key of one before it.
pub open spec fn key_ordered<A>(s: Seq<A>, key: spec_fn(A) -> Seq<char>) -> bool {
    forall|i: int, j: int| 0 <= i < j < s.len() ==> !text_lt(key(#[trigger] s[j]), key(#[trigger] s[i]))
}

proof fn lemma_insert_by_key_members<A>(s: Seq<A>, e: A, key: spec_fn(A) -> Seq<char>)
    ensures
        insert_by_key(s, e, key).len() == s.len() + 1,
        forall|k: int|
            0 <= k < insert_by_key(s, e, key).len() ==> #[trigger] insert_by_key(s, e, key)[k] == e
                || s.contains(insert_by_key(s, e, key)[k]),
    decreases s.len(),
{
    if s.len() > 0 {
        let d = s.drop_last();
        lemma_insert_by_key_members(d, e, key);
        let r = insert_by_key(s, e, key);
        assert forall|k: int| 0 <= k < r.len() implies #[trigger] r[k] == e || s.contains(r[k]) by {
            if text_lt(key(e), key(s.last())) {
                let t = insert_by_key(d, e, key);
                if k == r.len() - 1 {
                    assert(s[s.len() - 1] == r[k]);
                } else if t[k] != e {
                    let m = choose|m: int| 0 <= m < d.len() && d[m] == t[k];
                    assert(s[m] == r[k]);
                }
            } else if k < s.len() {
                assert(s[k] == r[k]);
            }
        }
    }
}

proof fn lemma_insert_by_key_ordered<A>(s: Seq<A>, e: A, key: spec_fn(A) -> Seq<char>)
    requires
        key_ordered(s, key),
    ensures
        key_ordered(insert_by_key(s, e, key), key),
    decreases s.len(),
{
    if s.len() > 0 {
        let d = s.drop_last();
        let l = s.last();
        assert(s[s.len() - 1] == l);
        assert forall|i: int, j: int| 0 <= i < j < d.len() implies !text_lt(
            key(#[trigger] d[j]),
            key(#[trigger] d[i]),
        ) by {
            assert(d[i] == s[i] && d[j] == s[j]);
        }
        if text_lt(key(e), key(l)) {
            lemma_insert_by_key_ordered(d, e, key);
            lemma_insert_by_key_members(d, e, key);
            let t = insert_by_key(d, e, key);
            let r = t.push(l);
            assert forall|i: int, j: int| 0 <= i < j < r.len() implies !text_lt(
                key(#[trigger] r[j]),
                key(#[trigger] r[i]),
            ) by {
                if j == r.len() - 1 {
                    assert(r[i] == t[i] && r[j] == l);
                    if t[i] == e {
                        lemma_text_lt_asymmetric(key(e), key(l));
                    } else {
                        let m = choose|m: int| 0 <= m < d.len() && d[m] == t[i];
                        assert(s[m] == d[m]);
                    }
                } else {
                    assert(r[i] == t[i] && r[j] == t[j]);
                }
            }
        } else {
            let r = s.push(e);
            assert forall|i: int, j: int| 0 <= i < j < r.len() implies !text_lt(
                key(#[trigger] r[j]),
                key(#[trigger] r[i]),
            ) by {
                if j == r.len() - 1 {
                    assert(r[i] == s[i] && r[j] == e);
                    if text_lt(key(e), key(s[i])) && i < s.len() - 1 {
                        lemma_text_lt_total(key(s[i]), key(l));
                        if text_lt(key(s[i]), key(l)) {
                            lemma_text_lt_transitive(key(e), key(s[i]), key(l));
                        }
                    }
                } else {
                    assert(r[i] == s[i] && r[j] == s[j]);
                }
            }
        }
    }
}

/// Sorting by a key leaves no element's key below the key of one before it.
pub proof fn lemma_sort_by_key_ordered<A>(s: Seq<A>, key: spec_fn(A) -> Seq<char>)
    ensures
        key_ordered(sort_by_key(s, key), key),
    decreases s.len(),
{
    if s.len() > 0 {
        lemma_sort_by_key_ordered(s.drop_last(), key);
        lemma_insert_by_key_ordered(sort_by_key(s.drop_last(), key), s.last(), key);
    }
}

pub open spec fn showtime_key() -> spec_fn(Showtime) -> Seq<char> {
    |st: Showtime| st.id@
}

pub open spec fn failure_key() -> spec_fn(HydrationFailure) -> Seq<char> {
    |f: HydrationFailure| f.showtime_id@
}

/// The showtimes whose map was fetched, in the order of the results.
pub open spec fn fetched(results: Seq<(String, Result<Showtime, String>)>) -> Seq<Showtime>
    decreases results.len(),
{
    if results.len() == 0 {
        Seq::empty()
    } else {
        match results.last().1 {
            Ok(st) => fetched(results.drop_last()).push(st),
            Err(_) => fetched(results.drop_last()),
        }
    }
}

/// The failures, in the order of the results.
pub open spec fn failed(results: Seq<(String, Result<Showtime, String>)>) -> Seq<HydrationFailure>
    decreases results.len(),
{
    if results.len() == 0 {
        Seq::empty()
    } else {
        match results.last().1 {
            Ok(_) => failed(results.drop_last()),
            Err(m) => failed(results.drop_last()).push(
                HydrationFailure { showtime_id: results.last().0, message: m },
            ),
        }
    }
}

fn insert_showtime(out: &mut Vec<Showtime>, e: Showtime)
    ensures
        final(out)@ == insert_by_key(old(out)@, e, showtime_key()),
{
    let mut j: usize = out.len();
    while j > 0 && compare_text(e.id.as_str(), out[j - 1].id.as_str()) < 0
        invariant
            j <= out.len(),
            out@ == old(out)@,
            forall|k: int| j <= k < out.len() ==> text_lt(showtime_key()(e), showtime_key()(#[trigger] out@[k])),
        decreases j,
    {
        j -= 1;
    }
    proof {
        lemma_insert_by_key_at(out@, e, showtime_key(), j as int);
    }
    let ghost before = out@;
    out.insert(j, e);
    proof {
        assert(out@ =~= before.take(j as int) + seq![e] + before.skip(j as int));
    }
}

fn insert_failure(out: &mut Vec<HydrationFailure>, e: HydrationFailure)
    ensures
        final(out)@ == insert_by_key(old(out)@, e, failure_key()),
{
    let mut j: usize = out.len();
    while j > 0 && compare_text(e.showtime_id.as_str(), out[j - 1].showtime_id.as_str()) < 0
        invariant
            j <= out.len(),
            out@ == old(out)@,
            forall|k: int| j <= k < out.len() ==> text_lt(failure_key()(e), failure_key()(#[trigger] out@[k])),
        decreases j,
    {
        j -= 1;
    }
    proof {
        lemma_insert_by_key_at(out@, e, failure_key(), j as int);
    }
    let ghost before = out@;
    out.insert(j, e);
    proof {
        assert(out@ =~= before.take(j as int) + seq![e] + before.skip(j as int));
    }
}

/// Gathers the results of fetching seat maps: the showtimes that have one,
/// and a failure, with its message, for each that does not; both stably
/// sorted by showtime id.
pub fn collect_outcome(results: Vec<(String, Result<Showtime, String>)>) -> (r: HydrationOutcome)
    ensures
        r.showtimes@ == sort_by_key(fetched(results@), showtime_key()),
        r.failures@ == sort_by_key(failed(results@), failure_key()),
        key_ordered(r.showtimes@, showtime_key()),
        key_ordered(r.failures@, failure_key()),
{
    let ghost all = results@;
    let mut showtimes: Vec<Showtime> = Vec::new();
    let mut failures: Vec<HydrationFailure> = Vec::new();
    for item in it: results.into_iter()
        invariant
            it.seq() == all,
            showtimes@ == sort_by_key(fetched(all.take(it.index() as int)), showtime_key()),
            failures@ == sort_by_key(failed(all.take(it.index() as int)), failure_key()),
    {
        proof {
            assert(all.take(it.index() + 1).drop_last() =~= all.take(it.index() as int));
            assert(all.take(it.index() + 1).last() == item);
        }
        let ghost prev = all.take(it.index() as int);
        let ghost next = all.take(it.index() + 1);
        let (showtime_id, result) = item;
        match result {
            Ok(showtime) => {
                proof {
                    assert(fetched(next) == fetched(prev).push(showtime));
                    assert(fetched(next).drop_last() =~= fetched(prev));
                    assert(failed(next) == failed(prev));
                }
                insert_showtime(&mut showtimes, showtime);
            },
            Err(message) => {
                let f = HydrationFailure { showtime_id, message };
                proof {
                    assert(failed(next) == failed(prev).push(f));
                    assert(failed(next).drop_last() =~= failed(prev));
                    assert(fetched(next) == fetched(prev));
                }
                insert_failure(&mut failures, f);
            },
        }
    }
    proof {
        assert(all.take(all.len() as int) =~= all);
        lemma_sort_by_key_ordered(fetched(all), showtime_key());
        lemma_sort_by_key_ordered(failed(all), failure_key());
    }
    HydrationOutcome { showtimes, failures }
}

} // verus!
