use now_playing_flagger::classifier::{
    classify_start, decide, has_third_party_corroboration, is_ai_tool_denylisted, is_release_burst,
    ClassifyRequest, ClassifyStep, Confidence, VerdictSource,
};
use now_playing_flagger::itunes::{
    parse_release_date, AlbumEntry, ArtistResolution, MatchMethod, ReleaseDate, SearchResult,
};

fn date(s: &str) -> ReleaseDate {
    parse_release_date(s).unwrap()
}

fn entry(release_date: &str, artist_name: Option<&str>) -> AlbumEntry {
    AlbumEntry {
        release_date: date(release_date),
        artist_name: artist_name.map(str::to_string),
    }
}

fn request(name: &str, track: &str) -> ClassifyRequest {
    ClassifyRequest {
        artist_id: now_playing_flagger::media::artist_id(name),
        artist_name: name.to_string(),
        track_title: track.to_string(),
    }
}

#[test]
fn denylist_matches_exact_name_case_and_accent_insensitively() {
    assert!(is_ai_tool_denylisted("Suno"));
    assert!(is_ai_tool_denylisted("udio"));
    assert!(is_ai_tool_denylisted("  UDIO  "));
}

#[test]
fn denylist_does_not_match_unrelated_or_substring_names() {
    assert!(!is_ai_tool_denylisted("Sunology"));
    assert!(!is_ai_tool_denylisted("Studio Killers"));
    assert!(!is_ai_tool_denylisted("Some Artist"));
}

#[test]
fn burst_requires_minimum_album_count() {
    let dates: Vec<ReleaseDate> = (1..=4).map(|d| date(&format!("2024-01-{d:02}"))).collect();
    assert!(!is_release_burst(&dates));
}

#[test]
fn burst_detects_many_albums_in_a_short_window() {
    let dates: Vec<ReleaseDate> = (1..=6).map(|d| date(&format!("2024-01-{d:02}"))).collect();
    assert!(is_release_burst(&dates));
}

#[test]
fn no_burst_when_albums_span_a_long_time() {
    let dates = vec![
        date("2018-01-01"),
        date("2019-06-01"),
        date("2020-11-01"),
        date("2022-03-01"),
        date("2024-07-01"),
    ];
    assert!(!is_release_burst(&dates));
}

#[test]
fn corroborated_when_credited_under_a_different_primary_artist() {
    let entries = vec![
        entry("2025-01-13", Some("Tiziano Guerzoni")),
        entry("2026-04-05", Some("Dj dodotech")),
    ];
    assert!(has_third_party_corroboration("Tiziano Guerzoni", &entries));
}

#[test]
fn not_corroborated_when_every_collection_is_self_credited() {
    let entries = vec![
        entry("2025-01-13", Some("Tiziano Guerzoni")),
        entry("2025-03-28", Some("tiziano guerzoni")),
    ];
    assert!(!has_third_party_corroboration("Tiziano Guerzoni", &entries));
}

#[test]
fn not_corroborated_when_artist_name_is_missing() {
    let entries = vec![entry("2025-01-13", None)];
    assert!(!has_third_party_corroboration("Tiziano Guerzoni", &entries));
}

#[test]
fn burst_boundary_is_thirty_days_inclusive() {
    let within = vec![
        date("2024-01-01"),
        date("2024-01-10"),
        date("2024-01-20"),
        date("2024-01-25"),
        date("2024-01-31"),
    ];
    assert!(is_release_burst(&within));
    let beyond = vec![
        date("2024-01-01"),
        date("2024-01-10"),
        date("2024-01-20"),
        date("2024-01-25"),
        date("2024-02-01"),
    ];
    assert!(!is_release_burst(&beyond));
}

#[test]
fn new_uncorroborated_artist_is_flagged_with_high_confidence() {
    let resolution = ArtistResolution {
        itunes_artist_id: 42,
        matched_artist_name: "Nova Echo".to_string(),
        method: MatchMethod::SongGrounded,
    };
    let albums = vec![entry("2025-06-01", Some("Nova Echo")), entry("2025-03-14", Some("Nova Echo"))];
    let v = decide(request("Nova Echo", "Glow"), Some(resolution), Some(albums));
    assert!(v.is_flagged);
    assert_eq!(v.confidence, Confidence::High);
    assert_eq!(v.source, VerdictSource::ItunesSearch);
    assert_eq!(v.album_count, 2);
    assert_eq!(v.earliest.as_ref().unwrap().iso, "2025-03-14");
    assert!(!v.release_burst);
    assert!(!v.third_party_corroboration);
}

#[test]
fn corroboration_clears_a_new_artist() {
    let resolution = ArtistResolution {
        itunes_artist_id: 7,
        matched_artist_name: "Tiziano Guerzoni".to_string(),
        method: MatchMethod::ArtistName,
    };
    let albums = vec![
        entry("2025-01-13", Some("Tiziano Guerzoni")),
        entry("2026-04-05", Some("Dj dodotech")),
    ];
    let v = decide(request("Tiziano Guerzoni", "Fliegen"), Some(resolution), Some(albums));
    assert!(!v.is_flagged);
    assert!(v.third_party_corroboration);
    assert_eq!(v.confidence, Confidence::Medium);
}

#[test]
fn burst_flags_even_an_old_corroborated_artist() {
    let resolution = ArtistResolution {
        itunes_artist_id: 9,
        matched_artist_name: "Farm".to_string(),
        method: MatchMethod::SongGrounded,
    };
    let albums = vec![
        entry("2019-05-01", Some("Farm")),
        entry("2019-05-02", Some("Other")),
        entry("2019-05-03", Some("Farm")),
        entry("2019-05-04", Some("Farm")),
        entry("2019-05-05", Some("Farm")),
    ];
    let v = decide(request("Farm", "Song"), Some(resolution), Some(albums));
    assert!(v.is_flagged);
    assert!(v.release_burst);
}

#[test]
fn old_artist_is_not_flagged() {
    let resolution = ArtistResolution {
        itunes_artist_id: 3,
        matched_artist_name: "Veteran".to_string(),
        method: MatchMethod::SongGrounded,
    };
    let albums = vec![entry("2009-09-09", Some("Veteran")), entry("2025-01-01", Some("Veteran"))];
    let v = decide(request("Veteran", "Old"), Some(resolution), Some(albums));
    assert!(!v.is_flagged);
    assert_eq!(v.earliest.as_ref().unwrap().year, 2009);
}

#[test]
fn unresolved_artist_gets_low_confidence_unflagged_verdict() {
    let v = decide(request("Nobody", "Nothing"), None, None);
    assert!(!v.is_flagged);
    assert_eq!(v.confidence, Confidence::Low);
    assert_eq!(v.match_method, MatchMethod::Unresolved);
    assert_eq!(v.album_count, 0);
    assert!(v.earliest.is_none());
}

#[test]
fn song_grounded_match_without_albums_is_low_confidence() {
    let resolution = ArtistResolution {
        itunes_artist_id: 11,
        matched_artist_name: "Quiet".to_string(),
        method: MatchMethod::SongGrounded,
    };
    let v = decide(request("Quiet", "Hush"), Some(resolution), Some(vec![]));
    assert_eq!(v.confidence, Confidence::Low);
    assert!(!v.is_flagged);
}

#[test]
fn denylisted_name_is_recorded_without_lookup() {
    match classify_start(request("Suno", "Generated Song")) {
        ClassifyStep::Record(v) => {
            assert!(v.is_flagged);
            assert_eq!(v.confidence, Confidence::High);
            assert_eq!(v.source.as_str(), "artist_name_denylist");
        }
        _ => panic!("a denylisted name needs no lookup"),
    }
}

#[test]
fn pipeline_falls_back_from_song_search_to_artist_search_then_albums() {
    let step = classify_start(request("Beyoncé", "Halo"));
    let song = match step {
        ClassifyStep::SearchSongs(s) => s,
        _ => panic!("expected the song search first"),
    };
    assert_eq!(
        song.url(),
        "https://itunes.apple.com/search?term=Beyonc%C3%A9%20Halo&entity=song&limit=25"
    );
    let no_match = vec![SearchResult { artist_id: Some(1), artist_name: Some("Someone Else".to_string()) }];
    let artist = match song.on_results(Some(no_match)) {
        ClassifyStep::SearchArtists(a) => a,
        _ => panic!("expected the artist search fallback"),
    };
    assert_eq!(
        artist.url(),
        "https://itunes.apple.com/search?term=Beyonc%C3%A9&entity=musicArtist&limit=5"
    );
    let hits = vec![
        SearchResult { artist_id: None, artist_name: Some("Beyonce".to_string()) },
        SearchResult { artist_id: Some(1419227), artist_name: Some("BEYONCE".to_string()) },
    ];
    let fetch = match artist.on_results(Some(hits)) {
        ClassifyStep::FetchAlbums(f) => f,
        _ => panic!("expected the album lookup"),
    };
    assert_eq!(fetch.itunes_artist_id(), 1419227);
    assert_eq!(fetch.url(), "https://itunes.apple.com/lookup?id=1419227&entity=album&limit=200");
    match fetch.on_albums(Some(vec![entry("2003-06-23", Some("Beyoncé"))])) {
        ClassifyStep::Record(v) => {
            assert!(!v.is_flagged);
            assert_eq!(v.confidence, Confidence::Medium);
            assert_eq!(v.match_method.as_str(), "artist_name");
            assert_eq!(v.resolution.as_ref().unwrap().matched_artist_name, "BEYONCE");
        }
        _ => panic!("expected the verdict"),
    }
}

#[test]
fn failed_song_search_records_unresolved_verdict() {
    let song = match classify_start(request("Band", "Tune")) {
        ClassifyStep::SearchSongs(s) => s,
        _ => panic!("expected the song search first"),
    };
    match song.on_results(None) {
        ClassifyStep::Record(v) => {
            assert!(!v.is_flagged);
            assert_eq!(v.confidence, Confidence::Low);
            assert_eq!(v.match_method, MatchMethod::Unresolved);
        }
        _ => panic!("a failed search leaves the artist unresolved"),
    }
}

#[test]
fn song_grounded_match_goes_straight_to_albums() {
    let song = match classify_start(request("Nova Echo", "Glow")) {
        ClassifyStep::SearchSongs(s) => s,
        _ => panic!("expected the song search first"),
    };
    let hits = vec![SearchResult { artist_id: Some(-5), artist_name: Some("nova  echo".to_string()) }];
    match song.on_results(Some(hits)) {
        ClassifyStep::FetchAlbums(f) => {
            assert_eq!(f.url(), "https://itunes.apple.com/lookup?id=-5&entity=album&limit=200");
            match f.on_albums(None) {
                ClassifyStep::Record(v) => {
                    assert_eq!(v.confidence, Confidence::Low);
                    assert_eq!(v.match_method, MatchMethod::SongGrounded);
                }
                _ => panic!("expected the verdict"),
            }
        }
        _ => panic!("expected the album lookup"),
    }
}

#[test]
fn name_only_match_without_dated_album_is_low_confidence() {
    let resolution = ArtistResolution {
        itunes_artist_id: 12,
        matched_artist_name: "Faint".to_string(),
        method: MatchMethod::ArtistName,
    };
    let v = decide(request("Faint", "Whisper"), Some(resolution), Some(vec![]));
    assert_eq!(v.confidence, Confidence::Low);
    assert!(!v.is_flagged);
    let resolution = ArtistResolution {
        itunes_artist_id: 12,
        matched_artist_name: "Faint".to_string(),
        method: MatchMethod::ArtistName,
    };
    let failed = decide(request("Faint", "Whisper"), Some(resolution), None);
    assert_eq!(failed.confidence, Confidence::Low);
}
