use cineplanet_cli::domain::StartTime;
use cineplanet_cli::domain::{Modality, SeatMap, Showtime};

fn parse_rfc3339(text: &str) -> Option<StartTime> {
    let t = chrono::DateTime::parse_from_rfc3339(text).ok()?;
    Some(StartTime {
        instant_seconds: t.timestamp(),
        subsec_nanos: t.timestamp_subsec_nanos(),
        offset_seconds: t.offset().local_minus_utc(),
    })
}

fn showtime_with_id(id: &str, venue_id: &str) -> Showtime {
    Showtime {
        id: id.into(),
        movie_id: "movie-1".into(),
        movie_title: "La Odisea".into(),
        movie_details_url: Some("la-odisea".into()),
        session_id: Some("66776".into()),
        venue_id: venue_id.into(),
        venue_name: "CP Salaverry".into(),
        starts_at: parse_rfc3339("2026-08-16T16:30:00-05:00").unwrap(),
        modality: Modality {
            projection_format: "2D".into(),
            language: "SUBTITULADA".into(),
            room_type: "Regular".into(),
        },
        seat_map: SeatMap {
            rows: 0,
            columns: 0,
            seats: Vec::new(),
        },
    }
}

#[test]
fn builds_the_purchase_url_from_the_session_half_of_the_id() {
    let showtime = showtime_with_id("0000000026-95087", "0000000026");

    assert_eq!(
        showtime.purchase_url("la-odisea"),
        "https://www.cineplanet.com.pe/compra/la-odisea/0000000026/95087/asientos"
    );
}

#[test]
fn falls_back_to_the_whole_id_when_it_carries_no_venue_prefix() {
    let showtime = showtime_with_id("95087", "0000000026");

    assert_eq!(
        showtime.purchase_url("la-odisea"),
        "https://www.cineplanet.com.pe/compra/la-odisea/0000000026/95087/asientos"
    );
}
