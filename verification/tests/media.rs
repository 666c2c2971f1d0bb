use now_playing_flagger::classifier::Confidence;
use now_playing_flagger::media::{
    artist_id, candidate_names, is_spotify_session, now_playing_event, same_session, split_artists, KnownVerdict, MediaMonitor, MprisBackend,
    PlaybackStatus, RawNowPlaying, SmtcBackend,
};
use now_playing_flagger::tray::summarize;

fn raw(track: &str, credit: &str, names: &[&str]) -> RawNowPlaying {
    RawNowPlaying {
        track_title: track.to_string(),
        artist_credit: credit.to_string(),
        artist_names: names.iter().map(|s| s.to_string()).collect(),
        playback_status: PlaybackStatus::Playing,
    }
}

#[test]
fn whole_line_and_splits_are_both_candidates() {
    let candidates = candidate_names(
        "Earth, Wind & Fire",
        &["Earth".to_string(), "Wind".to_string(), "Fire".to_string()],
    );
    assert_eq!(
        candidates,
        vec!["Earth, Wind & Fire", "Earth", "Wind", "Fire"]
    );
}

#[test]
fn single_artist_track_has_no_duplicate_candidate() {
    let candidates = candidate_names("Some Artist", &["Some Artist".to_string()]);
    assert_eq!(candidates, vec!["Some Artist"]);
}

#[test]
fn single_artist_dedup_is_normalization_insensitive() {
    let candidates = candidate_names("Beyoncé", &["beyonce".to_string()]);
    assert_eq!(candidates, vec!["Beyoncé"]);
}

#[test]
fn artist_id_is_prefixed_normalized_name() {
    assert_eq!(artist_id("Beyoncé"), "name:beyonce");
    assert_eq!(artist_id("  Sigur   Rós "), "name:sigur ros");
    assert_eq!(artist_id("Sigur Ros"), artist_id("sigur rós"));
}

#[test]
fn splits_spotify_multi_artist_credits() {
    assert_eq!(split_artists("Earth, Wind & Fire"), vec!["Earth", "Wind", "Fire"]);
    assert_eq!(split_artists("A, B, C & D"), vec!["A", "B", "C", "D"]);
    assert_eq!(split_artists("Tyler,The Creator"), vec!["Tyler,The Creator"]);
    assert_eq!(split_artists("  Solo  "), vec!["Solo"]);
    assert_eq!(split_artists(", & "), vec!["&"]);
    assert_eq!(split_artists(" , "), Vec::<String>::new());
    assert_eq!(split_artists(""), Vec::<String>::new());
}

#[test]
fn backends_construct() {
    let _ = SmtcBackend::new();
    let _ = MprisBackend::new();
}

#[test]
fn unknown_artists_are_classified_once_and_known_ones_never() {
    let mut monitor = MediaMonitor::new();
    let event = raw("Glow", "Nova Echo & Beyoncé", &["Nova Echo", "Beyoncé"]);
    let known = vec![
        None,
        None,
        Some(KnownVerdict { is_flagged: false, confidence: Some(Confidence::High) }),
    ];
    let (state, requests) = monitor.handle_raw_event(Some(event), &known);
    let state = state.unwrap();
    assert_eq!(state.track_title, "Glow");
    assert_eq!(state.artists.len(), 3);
    assert_eq!(state.artists[0].artist_id, "name:nova echo & beyonce");
    assert_eq!(state.artists[2].is_flagged, Some(false));
    assert_eq!(state.artists[2].confidence, Some(Confidence::High));
    assert_eq!(state.artists[1].is_flagged, None);
    let names: Vec<&str> = requests.iter().map(|r| r.artist_name.as_str()).collect();
    assert_eq!(names, vec!["Nova Echo & Beyoncé", "Nova Echo"]);
    assert_eq!(requests[1].artist_id, "name:nova echo");
    assert_eq!(requests[1].track_title, "Glow");

    // The same track again while the lookups are in flight: nothing new is sent.
    let again = raw("Glow", "Nova Echo & Beyoncé", &["Nova Echo", "Beyoncé"]);
    let known_again = vec![
        None,
        None,
        Some(KnownVerdict { is_flagged: false, confidence: Some(Confidence::High) }),
    ];
    let (_, requests) = monitor.handle_raw_event(Some(again), &known_again);
    assert!(requests.is_empty());

    // One lookup finishes: the flag is patched into the snapshot.
    monitor.clear_in_flight("name:nova echo");
    let patched = monitor
        .apply_classification_result(
            "name:nova echo",
            Some(KnownVerdict { is_flagged: true, confidence: Some(Confidence::Medium) }),
        )
        .unwrap();
    assert_eq!(patched.artists[1].is_flagged, Some(true));
    assert_eq!(patched.artists[1].confidence, Some(Confidence::Medium));
    assert_eq!(monitor.current_state().unwrap().artists[1].is_flagged, Some(true));
    assert!(monitor.mark_in_flight("name:nova echo"));
    assert!(!monitor.mark_in_flight("name:nova echo"));

    // The track stops: the snapshot goes idle, and a late result changes nothing.
    let (idle, requests) = monitor.handle_raw_event(None, &vec![]);
    assert!(idle.is_none());
    assert!(requests.is_empty());
    assert!(monitor.current_state().is_none());
    assert!(monitor
        .apply_classification_result("name:nova echo", None)
        .is_none());
}

#[test]
fn result_for_an_artist_no_longer_playing_is_ignored() {
    let mut monitor = MediaMonitor::new();
    let (_, _) = monitor.handle_raw_event(Some(raw("Song", "Other", &["Other"])), &vec![]);
    assert!(monitor
        .apply_classification_result("name:somebody else", None)
        .is_none());
    assert_eq!(monitor.current_state().unwrap().artists[0].name, "Other");
}

#[test]
fn tray_summary_prefers_pending_then_flagged() {
    let mut monitor = MediaMonitor::new();
    let known = vec![None, Some(KnownVerdict { is_flagged: true, confidence: None })];
    let (state, _) = monitor.handle_raw_event(Some(raw("Glow", "A & B", &["A & B", "B"])), &known);
    let state = state.unwrap();
    let s = summarize(Some(&state));
    assert_eq!(s.track_text, "Glow — A & B, B");
    assert_eq!(s.status_text, "Classifying…");
    assert_eq!(s.tooltip, "Glow — A & B, B\nClassifying…");
    assert!(s.flagged);

    let patched = monitor
        .apply_classification_result(
            "name:a & b",
            Some(KnownVerdict { is_flagged: false, confidence: Some(Confidence::Low) }),
        )
        .unwrap();
    let s = summarize(Some(&patched));
    assert_eq!(s.status_text, "Flagged: possible AI artist");
    assert!(s.flagged);

    let idle = summarize(None);
    assert_eq!(idle.track_text, "Nothing playing");
    assert_eq!(idle.status_text, "");
    assert_eq!(idle.tooltip, "Now Playing — AI-Artist Flagger: idle");
    assert!(!idle.flagged);
}

#[test]
fn tray_summary_not_flagged_when_all_clear() {
    let mut monitor = MediaMonitor::new();
    let known = vec![Some(KnownVerdict { is_flagged: false, confidence: None })];
    let (state, _) = monitor.handle_raw_event(Some(raw("Old Song", "Veteran", &[])), &known);
    let s = summarize(state.as_ref());
    assert_eq!(s.status_text, "Not flagged");
    assert!(!s.flagged);
}

#[test]
fn spotify_session_is_recognized_case_insensitively() {
    assert!(is_spotify_session("Spotify.exe"));
    assert!(is_spotify_session("SpotifyAB.SpotifyMusic_zpdnekdrzrea0!Spotify"));
    assert!(is_spotify_session("my-SPOTIFY-player"));
    assert!(!is_spotify_session("Chrome"));
    assert!(!is_spotify_session("spotif"));
    assert!(!is_spotify_session(""));
}

#[test]
fn same_session_compares_app_ids() {
    assert!(same_session(None, None));
    assert!(same_session(Some("Spotify.exe"), Some("Spotify.exe")));
    assert!(!same_session(Some("Spotify.exe"), Some("spotify.exe")));
    assert!(!same_session(Some("Spotify.exe"), None));
    assert!(!same_session(None, Some("Spotify.exe")));
}

#[test]
fn session_event_needs_running_playback_and_a_title() {
    assert!(now_playing_event("Song".into(), "A".into(), PlaybackStatus::Stopped).is_none());
    assert!(now_playing_event(" \t".into(), "A".into(), PlaybackStatus::Playing).is_none());
    assert!(now_playing_event("Song".into(), "A".into(), PlaybackStatus::Paused).is_none());
    let e = now_playing_event("Song".into(), "A, B & C".into(), PlaybackStatus::Playing).unwrap();
    assert_eq!(e.track_title, "Song");
    assert_eq!(e.artist_credit, "A, B & C");
    assert_eq!(e.artist_names, vec!["A, B & C"]);
    assert_eq!(e.playback_status, PlaybackStatus::Playing);
}
