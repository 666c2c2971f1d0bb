use now_playing_flagger::classifier::{decide, ClassifyRequest, Confidence};
use now_playing_flagger::db::{classification_row, evidence_row};
use now_playing_flagger::itunes::{parse_release_date, AlbumEntry, ArtistResolution, MatchMethod};

#[test]
fn rows_carry_the_verdict() {
    let req = ClassifyRequest {
        artist_id: "name:nova echo".to_string(),
        artist_name: "Nova Echo".to_string(),
        track_title: "Glow".to_string(),
    };
    let resolution = ArtistResolution {
        itunes_artist_id: 42,
        matched_artist_name: "Nova Echo".to_string(),
        method: MatchMethod::SongGrounded,
    };
    let albums = vec![AlbumEntry {
        release_date: parse_release_date("2026-02-01T08:00:00Z").unwrap(),
        artist_name: Some("Nova Echo".to_string()),
    }];
    let v = decide(req, Some(resolution), Some(albums));
    let row = classification_row(&v, "2026-03-01T00:00:00+00:00");
    assert_eq!(row.artist_id, "name:nova echo");
    assert_eq!(row.artist_name, "Nova Echo");
    assert!(row.is_flagged);
    assert_eq!(row.method, "itunes_search_api");
    assert_eq!(row.confidence, Some(Confidence::High));
    assert_eq!(row.earliest_release_date.as_deref(), Some("2026-02-01"));
    let ev = evidence_row(&v, "{}".to_string(), "2026-03-01T00:00:00+00:00");
    assert_eq!(ev.source, "itunes_search_api");
    assert!(ev.supports_ai);
    assert_eq!(ev.result, "{}");
}
