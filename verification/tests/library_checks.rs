use cineplanet_cli::app::{Action, App, Effect, Screen};
use cineplanet_cli::checkout::{
    BrowserCheckoutResult, checkout_response, ensure_macos, runner_failure,
};
use cineplanet_cli::clock::{date_label, rfc3339_label};
use cineplanet_cli::domain::StartTime;
use cineplanet_cli::demo;
use cineplanet_cli::display::{
    Cell, availability_label, footer_help, results_title, row_label, seat_cells, status_tags,
};
use cineplanet_cli::domain::{
    Modality, Preferences, Quality, Recommendation, Score, Seat, SeatMap, SeatState,
    SeatingArrangement, Showtime,
};
use cineplanet_cli::live::{
    ApiCinema, ApiMovie, ApiSeat, ApiSession, CinemasResponse, HydrationFailure, MovieCinema,
    MovieDate, MoviesResponse, SeatArea, SeatLayout, SeatPlanResponse, SeatPosition, SeatRow,
    SessionsResponse, apply_seat_plan, build_catalog, collect_outcome, normalize_language,
    projection_format, room_type, seat_map_from, seat_plan_path,
};
use cineplanet_cli::recommendation::CheckoutHandoffV1;
use cineplanet_cli::settings::load_or_default_from;

fn parse_rfc3339(text: &str) -> Option<StartTime> {
    let t = chrono::DateTime::parse_from_rfc3339(text).ok()?;
    Some(StartTime {
        instant_seconds: t.timestamp(),
        subsec_nanos: t.timestamp_subsec_nanos(),
        offset_seconds: t.offset().local_minus_utc(),
    })
}

fn lima_app() -> App {
    App::new(
        demo::catalog(),
        Preferences {
            onboarding_complete: true,
            city: Some("Lima".into()),
            ..Preferences::default()
        },
    )
}

fn results_app() -> App {
    let mut app = lima_app();
    app.apply(Action::Confirm);
    app.apply(Action::Confirm);
    let showtimes = app.selected_showtimes();
    app.finish_loading_showtimes(showtimes);
    app
}

fn plain_showtime(id: &str, seats: Vec<Seat>) -> Showtime {
    Showtime {
        id: id.into(),
        movie_id: "movie".into(),
        movie_title: "Movie".into(),
        movie_details_url: None,
        venue_id: "venue".into(),
        venue_name: "Venue".into(),
        session_id: None,
        starts_at: parse_rfc3339("2026-08-10T20:30:00-05:00").unwrap(),
        modality: Modality {
            projection_format: "2D".into(),
            language: "Subtitulada".into(),
            room_type: "Regular".into(),
        },
        seat_map: SeatMap {
            rows: 2,
            columns: 3,
            seats,
        },
    }
}

fn seat(id: &str, x: u16, y: u16, state: SeatState) -> Seat {
    Seat {
        id: id.into(),
        row: id[..1].into(),
        number: x + 1,
        x,
        y,
        state,
    }
}

fn one_area(rows: Vec<SeatRow>, row_count: i32, column_count: i32) -> SeatLayout {
    SeatLayout {
        areas: vec![SeatArea {
            number: 1,
            left: 0,
            top: 0,
            column_count,
            row_count,
            rows,
        }],
    }
}

fn api_seat(id: &str, status: i32, row_index: i32, column_index: i32) -> ApiSeat {
    ApiSeat {
        id: id.into(),
        status,
        position: SeatPosition {
            row_index,
            column_index,
        },
    }
}

// --- the state machine ---------------------------------------------------

#[test]
fn moving_up_then_down_returns_to_the_same_movie() {
    let mut app = lima_app();
    app.apply(Action::Confirm);
    app.apply(Action::Down);
    let before = app.movie_index();
    app.apply(Action::Up);
    app.apply(Action::Down);
    assert_eq!(app.movie_index(), before);
    app.apply(Action::Down);
    app.apply(Action::Up);
    assert_eq!(app.movie_index(), before);
}

#[test]
fn toggling_a_favorite_twice_restores_the_favorites() {
    let mut app = App::new(demo::catalog(), Preferences {
        city: Some("Lima".into()),
        favorite_venue_ids: vec!["san-miguel".into()],
        ..Preferences::default()
    });
    app.apply(Action::Confirm);
    assert_eq!(app.screen(), Screen::VenueSetup);
    let before = app.preferences().favorite_venue_ids.clone();
    app.apply(Action::Toggle);
    assert_ne!(app.preferences().favorite_venue_ids, before);
    app.apply(Action::Toggle);
    assert_eq!(app.preferences().favorite_venue_ids, before);
}

#[test]
fn favorites_are_kept_once_each_in_increasing_order() {
    let app = App::new(demo::catalog(), Preferences {
        favorite_venue_ids: vec!["salaverry".into(), "alcazar".into(), "salaverry".into()],
        ..Preferences::default()
    });
    assert_eq!(app.preferences().favorite_venue_ids, vec!["alcazar", "salaverry"]);
}

#[test]
fn toggling_a_filter_twice_restores_the_selection() {
    let mut app = results_app();
    app.apply(Action::OpenFilters);
    let dates = app.selected_filter_dates().clone();
    let venues = app.selected_filter_venues().clone();
    app.apply(Action::Toggle);
    assert_eq!(app.selected_filter_dates().len() + 1, dates.len());
    app.apply(Action::Toggle);
    assert_eq!(app.selected_filter_dates(), &dates);
    assert_eq!(app.selected_filter_venues(), &venues);
}

#[test]
fn deselecting_a_date_leaves_the_venues_selected() {
    let mut app = results_app();
    app.apply(Action::OpenFilters);
    let venues = app.filter_venues().len();
    app.apply(Action::Toggle);
    assert_eq!(app.selected_filter_venues().len(), venues);
}

#[test]
fn quitting_only_raises_the_quit_flag() {
    let mut app = lima_app();
    let effect = app.apply(Action::Quit);
    assert_eq!(effect, Effect::Nothing);
    assert!(app.should_quit());
    assert_eq!(app.screen(), Screen::Welcome);
}

#[test]
fn backspace_erases_the_last_character_and_nothing_on_an_empty_query() {
    let mut app = lima_app();
    app.apply(Action::Confirm);
    app.apply(Action::Backspace);
    assert_eq!(app.query(), "");
    app.apply(Action::Character('o'));
    app.apply(Action::Character('d'));
    app.apply(Action::Backspace);
    assert_eq!(app.query(), "o");
}

#[test]
fn results_hold_only_showtimes_of_the_selected_movie_that_pass_the_filters() {
    let app = results_app();
    assert!(app.recommendations().len() <= 3);
    for rec in app.recommendations() {
        assert_eq!(rec.showtime.movie_id, "spider-man");
    }
}

#[test]
fn loading_failure_returns_to_the_movies() {
    let mut app = lima_app();
    app.apply(Action::Confirm);
    app.apply(Action::Confirm);
    assert_eq!(app.screen(), Screen::Loading);
    app.loading_failed();
    assert_eq!(app.screen(), Screen::Movies);
}

// --- labels ---------------------------------------------------------------

#[test]
fn normalizing_a_normalized_label_changes_nothing() {
    for raw in ["subtitulad", "  DOBLADO ", "", "  Castellano  ", "Sin especificar"] {
        let once = normalize_language(raw);
        assert_eq!(normalize_language(&once), once);
    }
}

#[test]
fn projection_and_room_follow_the_formats_and_the_screen_name() {
    assert_eq!(projection_format(&["2D".into(), "3d".into()]), "3D");
    assert_eq!(projection_format(&["2D".into()]), "2D");
    assert_eq!(room_type(&["2D".into(), "XTREME".into()], "Sala 1"), "XTREME");
    assert_eq!(room_type(&["3D".into(), "REGULAR".into()], "Sala prime 2"), "Prime");
    assert_eq!(room_type(&[], "Sala 3"), "Regular");
}

// --- seat plans -----------------------------------------------------------

#[test]
fn seat_plan_errors_name_the_field_at_fault() {
    let too_many_rows = seat_map_from(one_area(Vec::new(), 70000, 1)).unwrap_err();
    assert_eq!(too_many_rows, "cantidad de filas del área inválida");
    let too_many_columns = seat_map_from(one_area(Vec::new(), 1, 70000)).unwrap_err();
    assert_eq!(too_many_columns, "cantidad de columnas del área inválida");
    let bad_column = seat_map_from(one_area(
        vec![SeatRow {
            physical_name: Some("A".into()),
            seats: vec![api_seat("1", 0, 0, -1)],
        }],
        1,
        1,
    ))
    .unwrap_err();
    assert_eq!(bad_column, "columna de asiento inválida");
    let bad_row = seat_map_from(one_area(
        vec![SeatRow {
            physical_name: Some("A".into()),
            seats: vec![api_seat("1", 0, -1, 0)],
        }],
        1,
        1,
    ))
    .unwrap_err();
    assert_eq!(bad_row, "fila de asiento inválida");
}

#[test]
fn areas_are_stacked_from_top_to_bottom_with_an_aisle_between_them() {
    let lower = SeatArea {
        number: 2,
        left: 0,
        top: 10,
        column_count: 2,
        row_count: 1,
        rows: vec![SeatRow {
            physical_name: Some("B".into()),
            seats: vec![api_seat("1", 0, 0, 0)],
        }],
    };
    let upper = SeatArea {
        number: 1,
        left: 0,
        top: 0,
        column_count: 2,
        row_count: 2,
        rows: vec![SeatRow {
            physical_name: Some("A".into()),
            seats: vec![api_seat("7", 1, 1, 1)],
        }],
    };
    let map = seat_map_from(SeatLayout {
        areas: vec![lower, upper],
    })
    .unwrap();
    assert_eq!((map.rows, map.columns), (4, 2));
    assert_eq!(map.seats[0].id, "A7");
    assert_eq!((map.seats[0].x, map.seats[0].y), (0, 0));
    assert_eq!(map.seats[0].state, SeatState::Occupied);
    assert_eq!(map.seats[1].id, "B1");
    assert_eq!((map.seats[1].x, map.seats[1].y), (1, 3));
    assert_eq!(map.seats[1].number, 1);
}

#[test]
fn a_seat_without_a_numeric_id_is_numbered_by_its_column() {
    let map = seat_map_from(one_area(
        vec![SeatRow {
            physical_name: Some("C".into()),
            seats: vec![api_seat("X", 0, 0, 4)],
        }],
        1,
        6,
    ))
    .unwrap();
    assert_eq!(map.seats[0].number, 5);
    assert_eq!(map.seats[0].x, 1);
}

#[test]
fn a_delivered_plan_replaces_only_the_seat_map() {
    let showtime = plain_showtime("0000000001-123", Vec::new());
    let response = SeatPlanResponse {
        response_code: "0".into(),
        error_description: None,
        seat_layout_data: Some(one_area(
            vec![SeatRow {
                physical_name: Some("A".into()),
                seats: vec![api_seat("1", 0, 0, 0)],
            }],
            1,
            1,
        )),
    };
    let hydrated = apply_seat_plan(showtime, response).unwrap();
    assert_eq!(hydrated.id, "0000000001-123");
    assert_eq!(hydrated.venue_name, "Venue");
    assert_eq!(hydrated.seat_map.seats.len(), 1);
    assert_eq!((hydrated.seat_map.rows, hydrated.seat_map.columns), (1, 1));
}

#[test]
fn a_refused_plan_names_the_venue_and_the_reason() {
    let refused = apply_seat_plan(
        plain_showtime("x", Vec::new()),
        SeatPlanResponse {
            response_code: "2".into(),
            error_description: None,
            seat_layout_data: None,
        },
    )
    .unwrap_err();
    assert_eq!(refused, "Cineplanet no entregó el mapa de Venue: respuesta inválida");
}

#[test]
fn the_seat_plan_path_uses_the_session_half_of_the_id() {
    let mut showtime = plain_showtime("0000000026-95087", Vec::new());
    showtime.venue_id = "0000000026".into();
    assert_eq!(seat_plan_path(&showtime).unwrap(), "/seatplan/cinema/0000000026/session/95087");
    showtime.id = "95087".into();
    assert_eq!(
        seat_plan_path(&showtime).unwrap_err(),
        "la función real no contiene un identificador de sesión válido"
    );
}

// --- the catalog ----------------------------------------------------------

fn api_movie(id: &str, coming_soon: bool, cinemas: Vec<MovieCinema>) -> ApiMovie {
    ApiMovie {
        id: id.into(),
        title: format!("Title {id}"),
        movie_details_url: Some(format!("slug-{id}")),
        is_coming_soon: coming_soon,
        run_time: Some(100),
        genre: None,
        rating_description: None,
        cinemas,
    }
}

fn api_session(id: &str, showtime: &str) -> ApiSession {
    ApiSession {
        id: id.into(),
        session_id: None,
        showtime: showtime.into(),
        screen_name: "Sala PRIME".into(),
        formats: vec!["2D".into()],
        languages: vec![" subtitulada ".into()],
    }
}

fn cinemas() -> CinemasResponse {
    CinemasResponse {
        cinemas: vec![ApiCinema {
            id: "c1".into(),
            name: "CP Uno".into(),
            city: "Lima".into(),
        }],
    }
}

#[test]
fn the_catalog_keeps_released_movies_and_their_known_sessions() {
    let movies = MoviesResponse {
        movies: vec![
            api_movie(
                "m1",
                false,
                vec![
                    MovieCinema {
                        cinema_id: "c1".into(),
                        dates: vec![MovieDate {
                            sessions: vec!["c1-10".into(), "missing".into()],
                        }],
                    },
                    MovieCinema {
                        cinema_id: "unknown".into(),
                        dates: vec![MovieDate {
                            sessions: vec!["c1-10".into()],
                        }],
                    },
                ],
            ),
            api_movie("m2", true, Vec::new()),
        ],
    };
    let sessions = SessionsResponse {
        sessions: vec![api_session("c1-10", "2026-08-10T20:30:00-05:00")],
    };
    let catalog = build_catalog(movies, cinemas(), sessions).unwrap();
    assert_eq!(catalog.movies.len(), 1);
    assert_eq!(catalog.movies[0].id, "m1");
    assert_eq!(catalog.venues.len(), 1);
    assert_eq!(catalog.showtimes.len(), 1);
    let showtime = &catalog.showtimes[0];
    assert_eq!(showtime.id, "c1-10");
    assert_eq!(showtime.venue_name, "CP Uno");
    assert_eq!(showtime.session_id.as_deref(), Some("10"));
    assert_eq!(showtime.modality.language, "Subtitulada");
    assert_eq!(showtime.modality.room_type, "Prime");
    assert_eq!(showtime.modality.projection_format, "2D");
    assert_eq!(showtime.movie_details_url.as_deref(), Some("slug-m1"));
}

#[test]
fn an_unreadable_start_time_rejects_the_catalog() {
    let movies = MoviesResponse {
        movies: vec![api_movie(
            "m1",
            false,
            vec![MovieCinema {
                cinema_id: "c1".into(),
                dates: vec![MovieDate {
                    sessions: vec!["c1-10".into()],
                }],
            }],
        )],
    };
    let sessions = SessionsResponse {
        sessions: vec![api_session("c1-10", "mañana")],
    };
    assert_eq!(
        build_catalog(movies, cinemas(), sessions).unwrap_err(),
        "hora inválida para la función c1-10"
    );
}

#[test]
fn a_catalog_without_showtimes_is_rejected() {
    let movies = MoviesResponse {
        movies: vec![api_movie("m1", false, Vec::new())],
    };
    let sessions = SessionsResponse { sessions: Vec::new() };
    assert_eq!(
        build_catalog(movies, cinemas(), sessions).unwrap_err(),
        "Cineplanet no publicó películas con funciones utilizables"
    );
}

#[test]
fn hydration_results_are_sorted_by_showtime_id() {
    let outcome = collect_outcome(vec![
        ("b".into(), Ok(plain_showtime("b", Vec::new()))),
        ("z".into(), Err("sin red".into())),
        ("a".into(), Ok(plain_showtime("a", Vec::new()))),
        ("c".into(), Err("rechazado".into())),
    ]);
    let ids: Vec<&str> = outcome.showtimes.iter().map(|s| s.id.as_str()).collect();
    assert_eq!(ids, vec!["a", "b"]);
    let failures: Vec<&HydrationFailure> = outcome.failures.iter().collect();
    assert_eq!(failures[0].showtime_id, "c");
    assert_eq!(failures[0].message, "rechazado");
    assert_eq!(failures[1].showtime_id, "z");
}

// --- checkout and settings -------------------------------------------------

fn handoff(labels: Vec<String>) -> CheckoutHandoffV1 {
    CheckoutHandoffV1 {
        movie_slug: "la-odisea".into(),
        cinema_id: "0000000007".into(),
        session_id: "66776".into(),
        seat_selection_url: "https://www.cineplanet.com.pe/compra/la-odisea/0000000007/66776/asientos".into(),
        selected_seat_labels: labels,
        session_fingerprint: "cineplanet:0000000007:66776".into(),
        browser_session_required: true,
    }
}

fn browser(seats: Vec<String>) -> BrowserCheckoutResult {
    BrowserCheckoutResult {
        status: "held".into(),
        checkout_url: "https://www.cineplanet.com.pe/entradas".into(),
        selected_seats: seats,
        hold_expires_approx_seconds: 600,
        browser_session_required: true,
    }
}

#[test]
fn checkout_requires_macos_and_the_exact_revalidated_seats() {
    assert!(ensure_macos(true).is_ok());
    assert_eq!(
        ensure_macos(false).unwrap_err(),
        "el checkout Playwright está disponible inicialmente solo en macOS"
    );
    let ok = checkout_response(
        "r1".into(),
        "CP Salaverry".into(),
        "2026-08-10T20:30:00-05:00".into(),
        &handoff(vec!["G5".into(), "G6".into()]),
        browser(vec!["G5".into(), "G6".into()]),
    )
    .unwrap();
    assert_eq!(ok.version, "v1");
    assert_eq!(ok.status, "held");
    assert_eq!(ok.recommendation_id, "r1");
    let mismatch = checkout_response(
        "r1".into(),
        "CP Salaverry".into(),
        "2026-08-10T20:30:00-05:00".into(),
        &handoff(vec!["G5".into(), "G6".into()]),
        browser(vec!["G6".into(), "G5".into()]),
    )
    .unwrap_err();
    assert_eq!(mismatch, "Playwright no confirmó exactamente las butacas revalidadas");
    assert_eq!(runner_failure("  \n"), "Playwright no pudo completar el checkout");
    assert_eq!(runner_failure(" boom \n"), "boom");
}

#[test]
fn missing_preferences_use_the_product_defaults() {
    let loaded = load_or_default_from(None).unwrap();
    assert!(!loaded.onboarding_complete);
    assert_eq!(loaded.party_size, 2);
    assert!(loaded.favorite_venue_ids.is_empty());
    assert!(loaded.city.is_none());
    let stored = Preferences {
        party_size: 4,
        ..Preferences::default()
    };
    assert_eq!(load_or_default_from(Some(Ok(stored))).unwrap().party_size, 4);
    assert_eq!(load_or_default_from(Some(Err("roto".into()))).unwrap_err(), "roto");
}

// --- what the screens show ----------------------------------------------

fn recommendation(showtime: Showtime, block: Vec<Seat>, quality: Quality) -> Recommendation {
    Recommendation {
        showtime,
        block,
        arrangement: SeatingArrangement::Together,
        quality,
        reasons: Vec::new(),
        score: Score { numerator: 0, denominator: 1 },
        visual_score: Score { numerator: 0, denominator: 1 },
    }
}

#[test]
fn availability_and_tags_describe_each_result() {
    let seats = vec![
        seat("A1", 0, 0, SeatState::Available),
        seat("A2", 1, 0, SeatState::Occupied),
        seat("B1", 0, 1, SeatState::Available),
    ];
    let showtime = plain_showtime("s", seats.clone());
    assert_eq!(availability_label(&showtime), "2 asientos");
    assert_eq!(availability_label(&plain_showtime("e", Vec::new())), "SIN CONFIRMAR");
    let together = recommendation(showtime.clone(), vec![seats[0].clone(), seats[2].clone()], Quality::Good);
    assert_eq!(status_tags(&together, 2), vec!["[2 JUNTOS]", "[ZONA BUENA]"]);
    assert_eq!(status_tags(&together, 3), vec!["[SIN 3 JUNTOS]"]);
    let single = recommendation(showtime, vec![seats[0].clone()], Quality::Excellent);
    assert_eq!(status_tags(&single, 1), vec!["[ASIENTO DISPONIBLE]", "[ZONA IDEAL]"]);
    let unmapped = recommendation(plain_showtime("e", Vec::new()), Vec::new(), Quality::Unfavorable);
    assert_eq!(status_tags(&unmapped, 2), vec!["[MAPA NO DISPONIBLE]"]);
    assert_eq!(results_title(true, 2, 1), " Funciones disponibles (2 fechas, 1 sedes) ");
    assert_eq!(results_title(false, 2, 1), " Funciones disponibles ");
}

#[test]
fn the_seat_grid_marks_aisles_states_and_the_recommended_block() {
    let seats = vec![
        seat("A1", 0, 0, SeatState::Available),
        seat("A3", 2, 0, SeatState::Occupied),
        seat("B1", 0, 1, SeatState::Accessible),
    ];
    let map = SeatMap {
        rows: 2,
        columns: 3,
        seats: seats.clone(),
    };
    let grid = seat_cells(&map, &[seats[0].clone()]);
    assert_eq!(grid[0], vec![Cell::Recommended, Cell::Aisle, Cell::Occupied]);
    assert_eq!(grid[1], vec![Cell::Accessible, Cell::Aisle, Cell::Aisle]);
    assert_eq!(row_label(&map, 1), "B");
    assert_eq!(row_label(&map, 5), "");
    assert_eq!(footer_help(Screen::SeatMap), "Esc volver · Q salir");
}

// --- the demo catalog and the clock -------------------------------------

#[test]
fn the_demo_catalog_has_three_movies_four_venues_and_eight_showtimes() {
    let catalog = demo::catalog();
    assert_eq!(catalog.movies.len(), 3);
    assert_eq!(catalog.venues.len(), 4);
    assert_eq!(catalog.showtimes.len(), 8);
    assert_eq!(catalog.showtimes[3].id, "demo-3");
    assert_eq!(catalog.showtimes[3].modality.projection_format, "3D");
    let map = demo::seat_map(6, 4, 0);
    assert_eq!(map.seats.len(), 120);
    assert_eq!(map.seats[0].id, "A1");
    assert_eq!(map.seats[0].state, SeatState::Occupied);
    assert_eq!(map.seats[119].id, "J12");
    let recommended: Vec<&Seat> = map.seats.iter().filter(|s| s.y == 6 && (s.x == 4 || s.x == 5)).collect();
    assert!(recommended.iter().all(|s| s.state == SeatState::Available));
}

#[test]
fn start_instants_keep_their_offset_and_local_date() {
    let start = parse_rfc3339("2026-08-10T20:30:00-05:00").unwrap();
    assert_eq!(start.offset_seconds, -5 * 3600);
    assert_eq!(rfc3339_label(start), "2026-08-10T20:30:00-05:00");
    assert_eq!(date_label(start), "2026-08-10");
    assert!(parse_rfc3339("mañana").is_none());
}
