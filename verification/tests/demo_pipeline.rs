use cineplanet_cli::cli::{RecommendArgs, parse_party_size};
use cineplanet_cli::domain::StartTime;
use cineplanet_cli::demo;
use cineplanet_cli::recommendation::{
    RecommendError, RecommendationResponseV1, build_response, demo_outcome, select_candidates,
};

fn parse_rfc3339(text: &str) -> Option<StartTime> {
    let t = chrono::DateTime::parse_from_rfc3339(text).ok()?;
    Some(StartTime {
        instant_seconds: t.timestamp(),
        subsec_nanos: t.timestamp_subsec_nanos(),
        offset_seconds: t.offset().local_minus_utc(),
    })
}

fn args(movie_id: Option<&str>, movie_title: Option<&str>, limit: usize) -> RecommendArgs {
    RecommendArgs {
        movie_id: movie_id.map(String::from),
        movie_title: movie_title.map(String::from),
        city: "Lima".into(),
        party_size: 2,
        dates: Vec::new(),
        venues: Vec::new(),
        languages: Vec::new(),
        formats: Vec::new(),
        room_types: Vec::new(),
        favorite_venues: Vec::new(),
        limit,
    }
}

fn run_demo(args: &RecommendArgs) -> Result<RecommendationResponseV1, RecommendError> {
    let catalog = demo::catalog();
    let (query, candidates, preferences) = select_candidates(&catalog, args)?;
    let count = candidates.len();
    Ok(build_response(query, count, &preferences, args.limit, demo_outcome(candidates)))
}

#[test]
fn recommend_in_demo_returns_a_versioned_json_contract_with_a_compact_seat_preview() {
    let mut request = args(None, Some("la odisea"), 1);
    request.city = "lima".into();
    let response = run_demo(&request).unwrap();
    assert_eq!(response.version, "v1");
    assert_eq!(response.query.movie_title, "La Odisea");
    let first = &response.recommendations[0];
    let preview = &first.seat_preview;
    assert_eq!(preview.screen, "PANTALLA");
    assert_eq!(preview.symbols.available, ".");
    assert_eq!(preview.symbols.occupied, "#");
    assert_eq!(preview.symbols.accessible, "A");
    assert_eq!(preview.symbols.recommended, "*");
    assert_eq!(preview.symbols.aisle, " ");
    assert!(!preview.rows.is_empty());
    assert!(preview.rows.iter().any(|row| row.layout.contains('*')));
    assert!(preview.rows.iter().all(|row| row.layout.is_ascii()));
    assert!(
        first.checkout_handoff.is_none(),
        "demo data must remain valid even when no official checkout URL exists"
    );
    assert!(first.selected_block.is_some());
    assert_eq!(first.viewing.zone.id, "central_middle_rear");
    assert!(first.viewing.zone.selected_block_inside);
}

#[test]
fn recommend_returns_a_structured_not_found_error() {
    let result = run_demo(&args(None, Some("missing"), 3));
    assert!(matches!(result, Err(RecommendError::MovieNotFound { ref query }) if query == "missing"));
}

#[test]
fn recommend_with_filters_and_no_matches_succeeds_with_an_empty_json_result() {
    let mut request = args(Some("odyssey"), None, 3);
    request.venues = vec!["CP La Molina".into()];
    request.languages = vec!["Subtitulada".into()];
    request.formats = vec!["2D".into()];
    request.room_types = vec!["Regular".into()];
    request.dates = vec!["1900-01-01".into()];
    let response = run_demo(&request).unwrap();
    assert_eq!(response.version, "v1");
    assert!(response.recommendations.is_empty());
    assert_eq!(response.diagnostics.candidate_count, 0);
}

#[test]
fn invalid_recommend_arguments_use_the_stderr_error_envelope() {
    assert_eq!(parse_party_size("0"), Err("debe estar entre 1 y 5".to_string()));
    assert_eq!(parse_party_size("dos"), Err("debe ser un entero entre 1 y 5".to_string()));
    assert_eq!(parse_party_size("2"), Ok(2));
}

#[test]
fn favorite_venue_changes_ranking_but_not_the_reported_visual_score() {
    let mut plain_args = args(Some("odyssey"), None, 3);
    plain_args.venues = vec!["la-molina".into()];
    let mut favorite_args = plain_args.clone();
    favorite_args.favorite_venues = vec!["la-molina".into()];
    let plain = run_demo(&plain_args).unwrap();
    let favorite = run_demo(&favorite_args).unwrap();
    assert_eq!(plain.recommendations[0].viewing.score, favorite.recommendations[0].viewing.score);
    assert_eq!(
        favorite.recommendations[0].viewing.reason_codes,
        ["contiguous_central_block", "favorite_venue"]
    );
}

#[test]
fn recommend_response_observed_at_is_present_and_rfc3339_parseable() {
    let mut request = args(None, Some("la odisea"), 1);
    request.city = "lima".into();
    let response = run_demo(&request).unwrap();
    let parsed = parse_rfc3339(&response.observed_at).expect("observed_at must be parseable as RFC 3339");
    assert_eq!(parsed.offset_seconds, 0, "observed_at must be reported in UTC (offset 0)");
    assert_eq!(response.version, "v1");
}
