use cineplanet_cli::display::{modality_tags, start_label};
use cineplanet_cli::domain::{
    Modality, Preferences, Seat, SeatMap, SeatState, Showtime, StartTime,
};
use cineplanet_cli::order::block_key_before;
use cineplanet_cli::ranking::analyze_showtime;
use cineplanet_cli::viewing::assess;

fn seat(id: &str, x: u16) -> Seat {
    Seat {
        id: id.into(),
        row: "G".into(),
        number: x + 1,
        x,
        y: 6,
        state: SeatState::Available,
    }
}

fn evening_in_lima() -> StartTime {
    StartTime {
        instant_seconds: 1_786_411_800,
        subsec_nanos: 0,
        offset_seconds: -5 * 3600,
    }
}

#[test]
fn start_labels_show_the_local_time_of_day() {
    assert_eq!(start_label(evening_in_lima()), "20:30");
    assert_eq!(
        start_label(StartTime {
            offset_seconds: 0,
            ..evening_in_lima()
        }),
        "01:30"
    );
    assert_eq!(
        start_label(StartTime {
            instant_seconds: 8_210_266_876_799,
            subsec_nanos: 0,
            offset_seconds: 3600,
        }),
        ""
    );
}

#[test]
fn modality_tags_are_upper_cased_in_brackets() {
    let modality = Modality {
        projection_format: "2D".into(),
        language: "Subtitulada".into(),
        room_type: "Prime".into(),
    };
    assert_eq!(modality_tags(&modality), ["[PRIME]", "[SUBTITULADA]", "[2D]"]);
}

#[test]
fn seats_alike_but_for_their_id_sort_by_id() {
    assert!(block_key_before(&[seat("G5a", 4)], &[seat("G5b", 4)]));
    assert!(!block_key_before(&[seat("G5b", 4)], &[seat("G5a", 4)]));
    assert!(!block_key_before(&[seat("G5a", 4)], &[seat("G5a", 4)]));
}

#[test]
fn the_analysis_reports_the_assessed_block() {
    let showtime = Showtime {
        id: "test".into(),
        movie_id: "movie".into(),
        movie_title: "Movie".into(),
        movie_details_url: None,
        venue_id: "venue".into(),
        venue_name: "Venue".into(),
        session_id: None,
        starts_at: evening_in_lima(),
        modality: Modality {
            projection_format: "2D".into(),
            language: "Subtitulada".into(),
            room_type: "Regular".into(),
        },
        seat_map: SeatMap {
            rows: 10,
            columns: 10,
            seats: (0..10).map(|x| seat(&format!("G{}", x + 1), x)).collect(),
        },
    };
    let preferences = Preferences {
        party_size: 2,
        ..Preferences::default()
    };
    let assessment = assess(&showtime, 2).unwrap();
    let analysis = analyze_showtime(&showtime, &preferences).unwrap();
    let ids = |seats: &[Seat]| seats.iter().map(|s| s.id.clone()).collect::<Vec<_>>();
    assert_eq!(ids(&analysis.block), ids(&assessment.block));
    assert_eq!(analysis.visual_score, assessment.visual_score);
    assert_eq!(analysis.score, assessment.visual_score);
    assert_eq!(analysis.quality, assessment.quality);
}
