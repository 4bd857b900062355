use cineplanet_cli::domain::StartTime;
use cineplanet_cli::domain::{Modality, SeatMap, SeatState, Showtime};
use cineplanet_cli::live::{
    ApiSeat, SeatArea, SeatLayout, SeatPlanResponse, SeatPosition, SeatRow, apply_seat_plan,
    checkout_session_id, normalize_language, seat_map_from,
};

fn parse_rfc3339(text: &str) -> Option<StartTime> {
    let t = chrono::DateTime::parse_from_rfc3339(text).ok()?;
    Some(StartTime {
        instant_seconds: t.timestamp(),
        subsec_nanos: t.timestamp_subsec_nanos(),
        offset_seconds: t.offset().local_minus_utc(),
    })
}

fn make_test_showtime(id: &str) -> Showtime {
    Showtime {
        id: id.into(),
        movie_id: "movie-1".into(),
        movie_title: "Test Movie".into(),
        movie_details_url: None,
        venue_id: "venue-1".into(),
        venue_name: "Test Venue".into(),
        session_id: None,
        starts_at: parse_rfc3339("2024-01-01T12:00:00-05:00").unwrap(),
        modality: Modality {
            projection_format: "2D".into(),
            language: "ESP".into(),
            room_type: "Regular".into(),
        },
        seat_map: SeatMap {
            rows: 0,
            columns: 0,
            seats: Vec::new(),
        },
    }
}

#[test]
fn prefers_official_checkout_session_ids_with_a_cached_id_fallback() {
    assert_eq!(
        checkout_session_id(Some("85899"), "0000000001-85899"),
        Some("85899".into())
    );
    assert_eq!(
        checkout_session_id(Some(""), "0000000007-66776"),
        Some("66776".into())
    );
    assert_eq!(checkout_session_id(None, "66776"), Some("66776".into()));
    assert_eq!(checkout_session_id(None, ""), None);
}

#[test]
fn ignores_non_sellable_rows_without_a_physical_name() {
    let layout = SeatLayout {
        areas: vec![SeatArea {
            number: 0,
            left: 0,
            top: 0,
            column_count: 0,
            row_count: 2,
            rows: vec![
                SeatRow {
                    physical_name: None,
                    seats: Vec::new(),
                },
                SeatRow {
                    physical_name: Some("G".into()),
                    seats: vec![ApiSeat {
                        id: "7".into(),
                        status: 0,
                        position: SeatPosition {
                            row_index: 0,
                            column_index: 6,
                        },
                    }],
                },
            ],
        }],
    };
    let response = SeatPlanResponse {
        response_code: "0".into(),
        error_description: None,
        seat_layout_data: Some(layout),
    };
    let map = seat_map_from(response.seat_layout_data.unwrap()).unwrap();

    assert_eq!(map.rows, 2);
    assert_eq!(map.seats.len(), 1);
    assert_eq!(map.seats[0].row, "G");
}

#[test]
fn normalizes_row_c_to_the_official_mirrored_geometry() {
    let row_c = [
        ("4", 0, 3),
        ("5", 0, 4),
        ("6", 0, 6),
        ("7", 0, 7),
        ("8", 0, 8),
        ("9", 0, 9),
        ("10", 0, 10),
        ("0", 3, 12),
        ("0", 3, 14),
        ("16", 0, 16),
        ("17", 0, 17),
        ("18", 0, 18),
        ("19", 0, 19),
        ("21", 0, 21),
        ("22", 0, 22),
        ("23", 0, 23),
        ("24", 0, 24),
        ("25", 0, 25),
        ("26", 0, 26),
        ("27", 0, 27),
    ]
    .into_iter()
    .map(|(id, status, column_index)| ApiSeat {
        id: id.into(),
        status,
        position: SeatPosition {
            row_index: 0,
            column_index,
        },
    })
    .collect();
    let map = seat_map_from(SeatLayout {
        areas: vec![SeatArea {
            number: 1,
            left: 0,
            top: 0,
            column_count: 28,
            row_count: 1,
            rows: vec![SeatRow {
                physical_name: Some("C".into()),
                seats: row_c,
            }],
        }],
    })
    .unwrap();

    let mut row_c: Vec<_> = map
        .seats
        .iter()
        .filter(|seat| seat.row == "C")
        .map(|seat| (seat.x, seat.state))
        .collect();
    row_c.sort_by_key(|(x, _)| *x);

    assert_eq!(
        row_c,
        vec![
            (0, SeatState::Available),
            (1, SeatState::Available),
            (2, SeatState::Available),
            (3, SeatState::Available),
            (4, SeatState::Available),
            (5, SeatState::Available),
            (6, SeatState::Available),
            (8, SeatState::Available),
            (9, SeatState::Available),
            (10, SeatState::Available),
            (11, SeatState::Available),
            (13, SeatState::Accessible),
            (15, SeatState::Accessible),
            (17, SeatState::Available),
            (18, SeatState::Available),
            (19, SeatState::Available),
            (20, SeatState::Available),
            (21, SeatState::Available),
            (23, SeatState::Available),
            (24, SeatState::Available),
        ]
    );
}

#[test]
fn omits_status_five_placeholders_and_keeps_accessible_seats() {
    let map = seat_map_from(SeatLayout {
        areas: vec![SeatArea {
            number: 1,
            left: 0,
            top: 0,
            column_count: 3,
            row_count: 1,
            rows: vec![SeatRow {
                physical_name: Some("C".into()),
                seats: vec![
                    ApiSeat {
                        id: "1".into(),
                        status: 0,
                        position: SeatPosition {
                            row_index: 0,
                            column_index: 2,
                        },
                    },
                    ApiSeat {
                        id: "placeholder".into(),
                        status: 5,
                        position: SeatPosition {
                            row_index: 0,
                            column_index: 1,
                        },
                    },
                    ApiSeat {
                        id: "2".into(),
                        status: 3,
                        position: SeatPosition {
                            row_index: 0,
                            column_index: 0,
                        },
                    },
                ],
            }],
        }],
    })
    .unwrap();

    assert_eq!(map.seats.len(), 2);
    assert!(!map.seats.iter().any(|seat| seat.id == "Cplaceholder"));
    assert!(
        map.seats
            .iter()
            .any(|seat| seat.id == "C2" && seat.state == SeatState::Accessible)
    );
}

#[test]
fn omits_status_seven_sanitized_seats() {
    let map = seat_map_from(SeatLayout {
        areas: vec![SeatArea {
            number: 1,
            left: 0,
            top: 0,
            column_count: 7,
            row_count: 1,
            rows: vec![SeatRow {
                physical_name: Some("A".into()),
                seats: vec![ApiSeat {
                    id: "8".into(),
                    status: 7,
                    position: SeatPosition {
                        row_index: 0,
                        column_index: 6,
                    },
                }],
            }],
        }],
    })
    .unwrap_err();

    assert!(map.contains("no tiene asientos"));
}

#[test]
fn rejects_unknown_seat_statuses_as_a_contract_error() {
    let error = seat_map_from(SeatLayout {
        areas: vec![SeatArea {
            number: 1,
            left: 0,
            top: 0,
            column_count: 1,
            row_count: 1,
            rows: vec![SeatRow {
                physical_name: Some("A".into()),
                seats: vec![ApiSeat {
                    id: "1".into(),
                    status: 99,
                    position: SeatPosition {
                        row_index: 0,
                        column_index: 0,
                    },
                }],
            }],
        }],
    })
    .unwrap_err();

    assert!(error.contains("estado de asiento de Cineplanet desconocido: 99"));
}

#[test]
fn null_seat_plan_parsing_fails() {
    let showtime = make_test_showtime("st-1");
    let response = SeatPlanResponse {
        response_code: "0".into(),
        error_description: None,
        seat_layout_data: None,
    };
    let result = apply_seat_plan(showtime, response);
    assert!(result.is_err());
    let msg = result.unwrap_err();
    assert!(
        msg.contains("no devolvió asientos"),
        "expected missing-seat error, got: {msg}"
    );
}

#[test]
fn error_response_code_fails() {
    let showtime = make_test_showtime("st-2");
    let response = SeatPlanResponse {
        response_code: "1".into(),
        error_description: Some("sesion no disponible".into()),
        seat_layout_data: None,
    };
    let result = apply_seat_plan(showtime, response);
    assert!(result.is_err());
    let msg = result.unwrap_err();
    assert!(
        msg.contains("no entregó el mapa"),
        "expected delivery error, got: {msg}"
    );
}

#[test]
fn normalize_language_maps_known_provider_labels_to_canonical_forms() {
    assert_eq!(normalize_language("SUBTITULAD"), "Subtitulada");
    assert_eq!(normalize_language("SUBTITULADA"), "Subtitulada");
    assert_eq!(normalize_language("subtitulad"), "Subtitulada");
    assert_eq!(normalize_language("subtitulada"), "Subtitulada");
    assert_eq!(normalize_language("DOBLADA"), "Doblada");
    assert_eq!(normalize_language("DOBLADO"), "Doblada");
    assert_eq!(normalize_language("doblada"), "Doblada");
    assert_eq!(normalize_language("doblado"), "Doblada");
}

#[test]
fn normalize_language_leaves_unknown_labels_trimmed_but_unchanged() {
    assert_eq!(normalize_language("ESP"), "ESP");
    assert_eq!(normalize_language("  ESP  "), "ESP");
    assert_eq!(normalize_language("Castellano"), "Castellano");
}

#[test]
fn normalize_language_replaces_empty_with_sin_especificar() {
    assert_eq!(normalize_language(""), "Sin especificar");
    assert_eq!(normalize_language("   "), "Sin especificar");
}

fn api_seat(id: &str, row_index: i32, column_index: i32) -> ApiSeat {
    ApiSeat {
        id: id.into(),
        status: 0,
        position: SeatPosition {
            row_index,
            column_index,
        },
    }
}

#[test]
fn stacked_areas_keep_every_seat_inside_the_grid() {
    let layout = SeatLayout {
        areas: vec![
            SeatArea {
                number: 2,
                left: 0,
                top: 5,
                column_count: 2,
                row_count: 1,
                rows: vec![SeatRow {
                    physical_name: Some("B".into()),
                    seats: vec![api_seat("1", 0, 0), api_seat("2", 2, 6)],
                }],
            },
            SeatArea {
                number: 1,
                left: 0,
                top: 0,
                column_count: 4,
                row_count: 2,
                rows: vec![SeatRow {
                    physical_name: Some("A".into()),
                    seats: vec![api_seat("1", 0, 0), api_seat("2", 1, 3)],
                }],
            },
        ],
    };
    let map = seat_map_from(layout).unwrap();
    // The top area spans rows 0-1, an aisle row follows, and the lower area
    // grows to the three rows and seven columns its seats reach.
    assert_eq!((map.rows, map.columns), (6, 7));
    assert_eq!(map.seats.len(), 4);
    assert_eq!((map.seats[0].x, map.seats[0].y), (3, 1));
    assert_eq!((map.seats[1].x, map.seats[1].y), (0, 0));
    assert_eq!((map.seats[2].x, map.seats[2].y), (6, 5));
    assert_eq!((map.seats[3].x, map.seats[3].y), (0, 3));
    assert!(map.seats.iter().all(|seat| seat.x < map.columns && seat.y < map.rows));
}
