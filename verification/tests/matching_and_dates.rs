use cineplanet_cli::app::lowered_title_matches_query;
use cineplanet_cli::cli::RecommendArgs;
use cineplanet_cli::clock::date_label;
use cineplanet_cli::demo;
use cineplanet_cli::domain::StartTime;
use cineplanet_cli::recommendation::{alias_of_masked, normalized_venue_alias, select_candidates};

#[test]
fn a_local_date_beyond_the_calendar_is_the_empty_label() {
    let last = StartTime {
        instant_seconds: 8_210_266_876_799,
        subsec_nanos: 0,
        offset_seconds: 3600,
    };
    assert_eq!(date_label(last), "");
    let same_instant_in_utc = StartTime {
        offset_seconds: 0,
        ..last
    };
    assert_eq!(date_label(same_instant_in_utc), "+262142-12-31");
}

#[test]
fn local_dates_follow_the_offset() {
    let evening_in_lima = StartTime {
        instant_seconds: 1_786_411_800,
        subsec_nanos: 0,
        offset_seconds: -5 * 3600,
    };
    assert_eq!(date_label(evening_in_lima), "2026-08-10");
    assert_eq!(
        date_label(StartTime {
            offset_seconds: 0,
            ..evening_in_lima
        }),
        "2026-08-11"
    );
}

#[test]
fn lowered_titles_match_contained_queries() {
    assert!(lowered_title_matches_query("la odisea", "odi"));
    assert!(lowered_title_matches_query("la odisea", ""));
    assert!(!lowered_title_matches_query("la odisea", "spider"));
    assert!(!lowered_title_matches_query("", "a"));
}

#[test]
fn masked_aliases_drop_prefix_words_and_extra_spaces() {
    let chars: Vec<char> = " cp  cineplanet la   molina ".chars().collect();
    assert_eq!(alias_of_masked(&chars), Some("la molina".to_string()));
    let only_prefixes: Vec<char> = "plaza cp".chars().collect();
    assert_eq!(alias_of_masked(&only_prefixes), None);
    assert_eq!(normalized_venue_alias("CP. La-Molina"), Some("la molina".to_string()));
}

#[test]
fn favorite_venues_are_sorted_without_repeats() {
    let args = RecommendArgs {
        movie_id: Some("odyssey".into()),
        movie_title: None,
        city: "Lima".into(),
        party_size: 2,
        dates: Vec::new(),
        venues: Vec::new(),
        languages: Vec::new(),
        formats: Vec::new(),
        room_types: Vec::new(),
        favorite_venues: vec!["salaverry".into(), "la-molina".into(), "salaverry".into()],
        limit: 3,
    };
    let (query, _, preferences) = select_candidates(&demo::catalog(), &args).unwrap();
    assert_eq!(preferences.favorite_venue_ids, ["la-molina", "salaverry"]);
    assert_eq!(query.favorite_venues, ["la-molina", "salaverry"]);
}
