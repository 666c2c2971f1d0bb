use now_playing_flagger::itunes::{
    album_entries, album_lookup_request, best_match, next_retry, parse_release_date, release_dates, spacing_wait_nanos,
    transient_backoff, HttpOutcome, LookupEntry, MatchMethod, RetryDecision, SearchResult,
};

fn lookup(wrapper: Option<&str>, date: Option<&str>, artist: Option<&str>) -> LookupEntry {
    LookupEntry {
        wrapper_type: wrapper.map(str::to_string),
        release_date: date.map(str::to_string),
        artist_name: artist.map(str::to_string),
    }
}

#[test]
fn match_method_labels() {
    assert_eq!(MatchMethod::SongGrounded.as_str(), "song_grounded");
    assert_eq!(MatchMethod::ArtistName.as_str(), "artist_name");
    assert_eq!(MatchMethod::Unresolved.as_str(), "unresolved");
}

#[test]
fn parses_the_date_portion_of_a_timestamp() {
    let d = parse_release_date("2025-03-14T08:00:00Z").unwrap();
    assert_eq!(d.year, 2025);
    assert_eq!(d.iso, "2025-03-14");
    let next = parse_release_date("2025-03-15").unwrap();
    assert_eq!(next.day_number - d.day_number, 1);
    assert!(parse_release_date("2025-13-01T00:00:00Z").is_none());
    assert!(parse_release_date("2025-03").is_none());
    assert!(parse_release_date("not a date at all").is_none());
    assert!(parse_release_date("2025-03-1é").is_none());
}

#[test]
fn album_lookup_keeps_only_dated_collections() {
    let results = vec![
        lookup(Some("artist"), None, Some("Nova Echo")),
        lookup(Some("collection"), Some("2025-06-01T07:00:00Z"), Some("Nova Echo")),
        lookup(Some("collection"), None, Some("Nova Echo")),
        lookup(Some("collection"), Some("garbage"), Some("Nova Echo")),
        lookup(Some("track"), Some("2020-01-01T07:00:00Z"), Some("Nova Echo")),
        lookup(Some("collection"), Some("2024-11-30T08:00:00Z"), None),
    ];
    let albums = album_entries(&results);
    assert_eq!(albums.len(), 2);
    assert_eq!(albums[0].release_date.iso, "2025-06-01");
    assert_eq!(albums[0].artist_name.as_deref(), Some("Nova Echo"));
    assert_eq!(albums[1].artist_name, None);
    let dates = release_dates(&results);
    let isos: Vec<&str> = dates.iter().map(|d| d.iso.as_str()).collect();
    assert_eq!(isos, vec!["2025-06-01", "2024-11-30"]);
}

#[test]
fn best_match_takes_first_complete_matching_result() {
    let results = vec![
        SearchResult { artist_id: Some(1), artist_name: Some("Sigur Rosa".to_string()) },
        SearchResult { artist_id: Some(2), artist_name: None },
        SearchResult { artist_id: Some(3), artist_name: Some("SIGUR RÓS".to_string()) },
        SearchResult { artist_id: Some(4), artist_name: Some("Sigur Ros".to_string()) },
    ];
    let r = best_match(&results, "Sigur Rós", MatchMethod::ArtistName).unwrap();
    assert_eq!(r.itunes_artist_id, 3);
    assert_eq!(r.matched_artist_name, "SIGUR RÓS");
    assert_eq!(r.method, MatchMethod::ArtistName);
    assert!(best_match(&results, "Nobody", MatchMethod::SongGrounded).is_none());
}

#[test]
fn transient_backoff_doubles_from_five_seconds_up_to_sixty() {
    assert_eq!(transient_backoff(1), 5);
    assert_eq!(transient_backoff(2), 10);
    assert_eq!(transient_backoff(3), 20);
    assert_eq!(transient_backoff(4), 40);
    assert_eq!(transient_backoff(5), 60);
    assert_eq!(transient_backoff(6), 60);
    assert_eq!(transient_backoff(1000), 60);
}

#[test]
fn retry_policy_decisions() {
    assert_eq!(next_retry(3, HttpOutcome::Status(403)), (3, RetryDecision::RetryAfter { secs: 60 }));
    assert_eq!(next_retry(0, HttpOutcome::Status(503)), (1, RetryDecision::RetryAfter { secs: 5 }));
    assert_eq!(next_retry(3, HttpOutcome::NetworkError), (4, RetryDecision::RetryAfter { secs: 40 }));
    assert_eq!(next_retry(4, HttpOutcome::NetworkError), (5, RetryDecision::RetryAfter { secs: 60 }));
    assert_eq!(next_retry(5, HttpOutcome::Status(500)), (6, RetryDecision::FailPersistentServerError));
    assert_eq!(next_retry(5, HttpOutcome::NetworkError), (6, RetryDecision::FailNetwork));
    assert_eq!(next_retry(2, HttpOutcome::Status(404)), (2, RetryDecision::FailStatus));
    assert_eq!(next_retry(2, HttpOutcome::Status(200)), (2, RetryDecision::Deliver));
}

#[test]
fn requests_are_spaced_four_seconds_apart() {
    assert_eq!(spacing_wait_nanos(0), 4_000_000_000);
    assert_eq!(spacing_wait_nanos(1_500_000_000), 2_500_000_000);
    assert_eq!(spacing_wait_nanos(4_000_000_000), 0);
    assert_eq!(spacing_wait_nanos(u128::MAX), 0);
}

#[test]
fn album_lookup_request_writes_the_id_in_decimal() {
    assert_eq!(
        album_lookup_request(909253),
        "https://itunes.apple.com/lookup?id=909253&entity=album&limit=200"
    );
    assert_eq!(
        album_lookup_request(0),
        "https://itunes.apple.com/lookup?id=0&entity=album&limit=200"
    );
    assert_eq!(
        album_lookup_request(-42),
        "https://itunes.apple.com/lookup?id=-42&entity=album&limit=200"
    );
    assert_eq!(
        album_lookup_request(i64::MIN),
        "https://itunes.apple.com/lookup?id=-9223372036854775808&entity=album&limit=200"
    );
    assert_eq!(
        album_lookup_request(i64::MAX),
        "https://itunes.apple.com/lookup?id=9223372036854775807&entity=album&limit=200"
    );
}
