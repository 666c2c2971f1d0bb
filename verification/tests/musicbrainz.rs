use now_playing_flagger::musicbrainz::{
    corroboration_from_lookup, lookup_start, matched_artist_id, ArtistLookup, CreditedArtist,
    LifeSpan, MbCorroboration, MbLookupStep, RecordingResult,
};

fn credit(id: &str, name: &str) -> CreditedArtist {
    CreditedArtist { id: id.to_string(), name: name.to_string() }
}

#[test]
fn corroboration_any_needs_life_span_or_links() {
    let none = MbCorroboration::default();
    assert!(!none.found && !none.any());
    let found_only = MbCorroboration { found: true, has_life_span: false, has_external_links: false };
    assert!(!found_only.any());
    assert!(MbCorroboration { found: true, has_life_span: true, has_external_links: false }.any());
    assert!(MbCorroboration { found: true, has_life_span: false, has_external_links: true }.any());
}

#[test]
fn recording_search_is_grounded_in_the_track() {
    let search = lookup_start("Nika", "Say \"Hi\"");
    assert_eq!(
        search.url(),
        "https://musicbrainz.org/ws/2/recording/?query=recording%3A%22Say%20Hi%22%20AND%20artist%3A%22Nika%22&fmt=json&limit=10"
    );
}

#[test]
fn first_matching_credit_across_recordings_is_looked_up() {
    let recordings = vec![
        RecordingResult { artist_credit: vec![credit("a1", "Other")] },
        RecordingResult { artist_credit: vec![credit("a2", "Someone"), credit("a3", "NIKA")] },
        RecordingResult { artist_credit: vec![credit("a4", "Nika")] },
    ];
    assert_eq!(matched_artist_id(&recordings, "Nika").as_deref(), Some("a3"));
    let search = lookup_start("Nika", "Song");
    match search.on_results(&recordings) {
        MbLookupStep::FetchArtist(f) => {
            assert_eq!(f.url(), "https://musicbrainz.org/ws/2/artist/a3?inc=url-rels&fmt=json");
            let lookup = ArtistLookup {
                life_span: Some(LifeSpan { begin: Some("1990".to_string()) }),
                relation_count: 0,
            };
            let c = f.on_lookup(&lookup);
            assert!(c.found && c.has_life_span && !c.has_external_links);
        }
        MbLookupStep::Done(_) => panic!("expected the artist lookup"),
    }
}

#[test]
fn no_matching_credit_means_nothing_found() {
    let recordings = vec![RecordingResult { artist_credit: vec![credit("a1", "Other")] }];
    match lookup_start("Nika", "Song").on_results(&recordings) {
        MbLookupStep::Done(c) => assert_eq!(c, MbCorroboration::default()),
        MbLookupStep::FetchArtist(_) => panic!("nothing should match"),
    }
}

#[test]
fn lookup_shows_links_and_life_span() {
    let bare = ArtistLookup { life_span: Some(LifeSpan { begin: None }), relation_count: 0 };
    assert_eq!(
        corroboration_from_lookup(&bare),
        MbCorroboration { found: true, has_life_span: false, has_external_links: false }
    );
    let linked = ArtistLookup { life_span: None, relation_count: 3 };
    assert!(corroboration_from_lookup(&linked).has_external_links);
}
