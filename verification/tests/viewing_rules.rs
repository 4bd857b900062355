use cineplanet_cli::domain::StartTime;
use cineplanet_cli::domain::{Modality, Seat, SeatMap, SeatState, SeatingArrangement, Showtime};
use cineplanet_cli::viewing::{
    GOOD_VIEWING_SCORE_THRESHOLD, assess, good_viewing_zone, run_ending, run_starting,
};

fn parse_rfc3339(text: &str) -> Option<StartTime> {
    let t = chrono::DateTime::parse_from_rfc3339(text).ok()?;
    Some(StartTime {
        instant_seconds: t.timestamp(),
        subsec_nanos: t.timestamp_subsec_nanos(),
        offset_seconds: t.offset().local_minus_utc(),
    })
}

fn seat(id: &str, x: u16, state: SeatState) -> Seat {
    Seat {
        id: id.into(),
        row: "G".into(),
        number: x + 1,
        x,
        y: 6,
        state,
    }
}

fn showtime_with(seats: Vec<Seat>) -> Showtime {
    Showtime {
        id: "test".into(),
        movie_id: "movie".into(),
        movie_title: "Movie".into(),
        movie_details_url: None,
        venue_id: "venue".into(),
        venue_name: "Venue".into(),
        session_id: None,
        starts_at: parse_rfc3339("2026-08-10T20:30:00-05:00").unwrap(),
        modality: Modality {
            projection_format: "2D".into(),
            language: "Subtitulada".into(),
            room_type: "Regular".into(),
        },
        seat_map: SeatMap {
            rows: 10,
            columns: 10,
            seats,
        },
    }
}

#[test]
fn accessible_seats_do_not_complete_a_contiguous_block() {
    let showtime = showtime_with(vec![
        seat("G5", 4, SeatState::Available),
        seat("G6", 5, SeatState::Accessible),
    ]);
    let assessment = assess(&showtime, 2).unwrap();
    assert_eq!(assessment.arrangement, SeatingArrangement::Scattered);
}

#[test]
fn good_viewing_zone_uses_the_same_good_threshold_as_assessment() {
    let map = SeatMap {
        rows: 10,
        columns: 10,
        seats: Vec::new(),
    };

    let zone = good_viewing_zone(&map);

    assert_eq!(zone.score_threshold, GOOD_VIEWING_SCORE_THRESHOLD);
    assert!(zone.contains(4, 6));
    assert!(!zone.contains(0, 6));
    assert!(!zone.contains(4, 0));
}

#[test]
fn run_ending_stops_at_an_occupied_intermediate_seat() {
    let seats = [
        seat("G1", 0, SeatState::Available),
        seat("G2", 1, SeatState::Occupied),
        seat("G3", 2, SeatState::Available),
        seat("G4", 3, SeatState::Available),
        seat("G5", 4, SeatState::Available),
    ];
    let run = run_ending(&seats, 4);
    let ids: Vec<&str> = run.iter().map(|seat| seat.id.as_str()).collect();
    assert_eq!(ids, vec!["G3", "G4", "G5"]);
}

#[test]
fn run_starting_stops_at_an_accessible_intermediate_seat() {
    let seats = [
        seat("G6", 6, SeatState::Available),
        seat("G7", 7, SeatState::Available),
        seat("G8", 8, SeatState::Accessible),
        seat("G9", 9, SeatState::Available),
    ];
    let run = run_starting(&seats, 6);
    let ids: Vec<&str> = run.iter().map(|seat| seat.id.as_str()).collect();
    assert_eq!(ids, vec!["G6", "G7"]);
}

#[test]
fn across_aisle_assessment_excludes_an_occupied_intermediate_seat() {
    let showtime = showtime_with(vec![
        seat("G1", 0, SeatState::Available),
        seat("G2", 1, SeatState::Occupied),
        seat("G3", 2, SeatState::Available),
        seat("G4", 3, SeatState::Available),
        seat("G5", 4, SeatState::Available),
        seat("G6", 6, SeatState::Available),
        seat("G7", 7, SeatState::Available),
        seat("G8", 8, SeatState::Available),
    ]);
    let assessment = assess(&showtime, 5).unwrap();
    for seat in &assessment.block {
        assert_eq!(
            seat.state,
            SeatState::Available,
            "across-aisle block must not contain unavailable seats, got {} ({:?})",
            seat.id,
            seat.state
        );
    }
}

#[test]
fn across_aisle_assessment_excludes_an_accessible_intermediate_seat() {
    let showtime = showtime_with(vec![
        seat("G1", 0, SeatState::Available),
        seat("G2", 1, SeatState::Accessible),
        seat("G3", 2, SeatState::Available),
        seat("G4", 3, SeatState::Available),
        seat("G5", 4, SeatState::Available),
        seat("G6", 6, SeatState::Available),
        seat("G7", 7, SeatState::Available),
        seat("G8", 8, SeatState::Available),
    ]);
    let assessment = assess(&showtime, 5).unwrap();
    for seat in &assessment.block {
        assert_eq!(
            seat.state,
            SeatState::Available,
            "across-aisle block must not contain unavailable seats, got {} ({:?})",
            seat.id,
            seat.state
        );
    }
}
