use cineplanet_cli::domain::StartTime;
use cineplanet_cli::demo;
use cineplanet_cli::domain::{Preferences, Seat, SeatMap, SeatState, SeatingArrangement};
use cineplanet_cli::live::{HydrationFailure, HydrationOutcome};
use cineplanet_cli::recommendation::{QueryV1, build_response, seat_preview, venue_matches};

fn parse_rfc3339(text: &str) -> Option<StartTime> {
    let t = chrono::DateTime::parse_from_rfc3339(text).ok()?;
    Some(StartTime {
        instant_seconds: t.timestamp(),
        subsec_nanos: t.timestamp_subsec_nanos(),
        offset_seconds: t.offset().local_minus_utc(),
    })
}

fn query(limit: usize) -> QueryV1 {
    QueryV1 {
        movie_id: "movie".into(),
        movie_title: "Movie".into(),
        city: "Lima".into(),
        party_size: 2,
        dates: Vec::new(),
        venues: Vec::new(),
        languages: Vec::new(),
        formats: Vec::new(),
        room_types: Vec::new(),
        favorite_venues: Vec::new(),
        limit,
    }
}

#[test]
fn retains_partial_hydration_failures_as_response_diagnostics() {
    let hydrated = demo::catalog().showtimes.into_iter().next().unwrap();
    let response = build_response(
        query(3),
        2,
        &Preferences::default(),
        3,
        HydrationOutcome {
            showtimes: vec![hydrated],
            failures: vec![HydrationFailure {
                showtime_id: "showtime-1".into(),
                message: "network unavailable".into(),
            }],
        },
    );

    assert_eq!(response.diagnostics.candidate_count, 2);
    assert_eq!(response.diagnostics.hydrated_count, 1);
    assert_eq!(response.diagnostics.map_failures[0].showtime_id, "showtime-1");
}

#[test]
fn observed_at_is_present_and_is_an_rfc3339_utc_string() {
    let hydrated = demo::catalog().showtimes.into_iter().next().unwrap();
    let response = build_response(
        query(3),
        1,
        &Preferences::default(),
        3,
        HydrationOutcome {
            showtimes: vec![hydrated],
            failures: Vec::new(),
        },
    );

    let parsed = parse_rfc3339(&response.observed_at).expect("observed_at must be an RFC 3339 string");
    assert_eq!(parsed.offset_seconds, 0, "observed_at must be reported in UTC (offset 0)");
    let now = chrono::Utc::now().timestamp();
    let drift = (parsed.instant_seconds - now).abs();
    assert!(drift <= 5, "observed_at must be within a few seconds of now, drift={drift}s");
}

#[test]
fn exposes_live_checkout_handoff_for_a_complete_non_scattered_block() {
    let mut hydrated = demo::catalog().showtimes.into_iter().next().unwrap();
    hydrated.movie_details_url = Some("la-odisea".into());
    hydrated.venue_id = "0000000007".into();
    hydrated.session_id = Some("66776".into());
    let response = build_response(
        query(1),
        1,
        &Preferences::default(),
        1,
        HydrationOutcome {
            showtimes: vec![hydrated],
            failures: Vec::new(),
        },
    );

    let recommendation = &response.recommendations[0];
    let selected_block = recommendation.selected_block.as_ref().unwrap();
    assert_ne!(selected_block.arrangement, SeatingArrangement::Scattered);
    assert_eq!(selected_block.seats.len(), response.query.party_size);

    let handoff = recommendation.checkout_handoff.as_ref().unwrap();
    assert_eq!(handoff.movie_slug, "la-odisea");
    assert_eq!(handoff.cinema_id, "0000000007");
    assert_eq!(handoff.session_id, "66776");
    assert_eq!(handoff.session_fingerprint, "cineplanet:0000000007:66776");
    assert_eq!(
        handoff.seat_selection_url,
        "https://www.cineplanet.com.pe/compra/la-odisea/0000000007/66776/asientos"
    );
    assert!(handoff.browser_session_required);
    assert_eq!(recommendation.seat_preview.screen, "PANTALLA");
}

#[test]
fn seat_preview_preserves_aisles_states_and_recommended_seats() {
    let map = SeatMap {
        rows: 2,
        columns: 4,
        seats: vec![
            Seat {
                id: "A1".into(),
                row: "A".into(),
                number: 1,
                x: 0,
                y: 0,
                state: SeatState::Available,
            },
            Seat {
                id: "A3".into(),
                row: "A".into(),
                number: 3,
                x: 2,
                y: 0,
                state: SeatState::Occupied,
            },
            Seat {
                id: "B1".into(),
                row: "B".into(),
                number: 1,
                x: 0,
                y: 1,
                state: SeatState::Accessible,
            },
            Seat {
                id: "B2".into(),
                row: "B".into(),
                number: 2,
                x: 1,
                y: 1,
                state: SeatState::Available,
            },
        ],
    };
    let selected = vec![map.seats[0].clone()];

    let preview = seat_preview(&map, &selected);

    assert_eq!(preview.screen, "PANTALLA");
    assert_eq!(preview.rows[0].label, "A");
    assert_eq!(preview.rows[0].layout, "* # ");
    assert_eq!(preview.rows[1].label, "B");
    assert_eq!(preview.rows[1].layout, "A.  ");
}

#[test]
fn scattered_recommendation_preview_keeps_states_without_a_recommended_marker() {
    let mut hydrated = demo::catalog().showtimes.into_iter().next().unwrap();
    for (index, seat) in hydrated.seat_map.seats.iter_mut().enumerate() {
        seat.state = if index == 0 {
            SeatState::Available
        } else {
            SeatState::Occupied
        };
    }
    let response = build_response(
        query(1),
        1,
        &Preferences::default(),
        1,
        HydrationOutcome {
            showtimes: vec![hydrated],
            failures: Vec::new(),
        },
    );

    let recommendation = &response.recommendations[0];
    assert!(recommendation.selected_block.is_none());
    assert!(recommendation.seat_preview.rows.iter().all(|row| !row.layout.contains('*')));
    assert!(recommendation.seat_preview.rows.iter().any(|row| row.layout.contains('.')));
    assert!(recommendation.seat_preview.rows.iter().any(|row| row.layout.contains('#')));
}

#[test]
fn venue_aliases_match_only_after_normalizing_leading_prefixes() {
    assert!(venue_matches("Plaza San Miguel", "san-miguel", "CP San Miguel"));
    assert!(venue_matches("Salaverry", "salaverry", "CP Salaverry"));
    assert!(venue_matches("SAN--MIGUEL", "san-miguel", "CP San Miguel"));
    assert!(!venue_matches("Miguel", "san-miguel", "CP San Miguel"));
}
