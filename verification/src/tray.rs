//! What the tray shows for a snapshot: the track line, the status line, the
//! tooltip, and whether the flagged icon is up.

use crate::media::{ArtistFlagView, NowPlayingChanged, NowPlayingView, flag_views};
use crate::text::{concat, join, lemma_join_push};
use vstd::prelude::*;

verus! {

/// The tray texts and icon state for one snapshot.
pub struct TraySummary {
    pub track_text: String,
    pub status_text: String,
    pub tooltip: String,
    pub flagged: bool,
}

/// The names of the credited artists.
pub open spec fn artist_names_of(artists: Seq<ArtistFlagView>) -> Seq<Seq<char>> {
    artists.map_values(|a: ArtistFlagView| a.name)
}

/// Some credited artist is flagged.
pub open spec fn any_flagged(artists: Seq<ArtistFlagView>) -> bool {
    exists|i: int| 0 <= i < artists.len() && #[trigger] artists[i].is_flagged == Some(true)
}

/// Some credited artist is still being classified.
pub open spec fn any_pending(artists: Seq<ArtistFlagView>) -> bool {
    exists|i: int| 0 <= i < artists.len() && #[trigger] artists[i].is_flagged is None
}

/// The status line: pending wins over flagged, which wins over not flagged.
pub open spec fn status_line(artists: Seq<ArtistFlagView>) -> Seq<char> {
    if any_pending(artists) {
        "Classifying…"@
    } else if any_flagged(artists) {
        "Flagged: possible AI artist"@
    } else {
        "Not flagged"@
    }
}

/// The track line: the title, a dash, and the artist names joined by commas.
pub open spec fn track_line(state: NowPlayingView) -> Seq<char> {
    state.track_title + " — "@ + join(artist_names_of(state.artists), ", "@)
}

/// Multi-artist tracks: flagged if any credited artist is flagged. With no
/// active track the tray is idle.
pub fn summarize(state: Option<&NowPlayingChanged>) -> (res: TraySummary)
    ensures
        match state {
            None => {
                &&& res.track_text@ == "Nothing playing"@
                &&& res.status_text@ == Seq::<char>::empty()
                &&& res.tooltip@ == "Now Playing — AI-Artist Flagger: idle"@
                &&& !res.flagged
            },
            Some(s) => {
                &&& res.track_text@ == track_line(s@)
                &&& res.status_text@ == status_line(s@.artists)
                &&& res.tooltip@ == track_line(s@) + "\n"@ + status_line(s@.artists)
                &&& res.flagged == any_flagged(s@.artists)
            },
        },
{
    match state {
        None => TraySummary {
            track_text: "Nothing playing".to_owned(),
            status_text: String::new(),
            tooltip: "Now Playing — AI-Artist Flagger: idle".to_owned(),
            flagged: false,
        },
        Some(s) => {
            let ghost av = flag_views(s.artists@);
            let mut names = String::new();
            let mut flagged = false;
            let mut pending = false;
            let mut i: usize = 0;
            while i < s.artists.len()
                invariant
                    i <= s.artists@.len(),
                    av == flag_views(s.artists@),
                    names@ == join(artist_names_of(av).take(i as int), ", "@),
                    flagged == any_flagged(av.take(i as int)),
                    pending == any_pending(av.take(i as int)),
                decreases s.artists@.len() - i,
            {
                let a = &s.artists[i];
                let ghost pre = av.take(i as int);
                let ghost cur = av.take(i + 1);
                proof {
                    assert(cur =~= pre.push(av[i as int]));
                    assert(artist_names_of(av).take(i + 1) =~= artist_names_of(av).take(i as int).push(a.name@));
                    lemma_join_push(artist_names_of(av).take(i as int), ", "@, a.name@);
                }
                if i == 0 {
                    names = a.name.clone();
                } else {
                    let with_sep = concat(names.as_str(), ", ");
                    names = concat(with_sep.as_str(), a.name.as_str());
                }
                proof {
                    assert(any_flagged(cur) == (any_flagged(pre) || av[i as int].is_flagged == Some(true))) by {
                        if any_flagged(cur) {
                            let k = choose|k: int| 0 <= k < cur.len() && #[trigger] cur[k].is_flagged == Some(true);
                            if k < i {
                                assert(pre[k] == cur[k]);
                            }
                        }
                        if any_flagged(pre) {
                            let k = choose|k: int| 0 <= k < pre.len() && #[trigger] pre[k].is_flagged == Some(true);
                            assert(cur[k] == pre[k]);
                        }
                        if av[i as int].is_flagged == Some(true) {
                            assert(cur[i as int] == av[i as int]);
                        }
                    }
                    assert(any_pending(cur) == (any_pending(pre) || av[i as int].is_flagged is None)) by {
                        if any_pending(cur) {
                            let k = choose|k: int| 0 <= k < cur.len() && #[trigger] cur[k].is_flagged is None;
                            if k < i {
                                assert(pre[k] == cur[k]);
                            }
                        }
                        if any_pending(pre) {
                            let k = choose|k: int| 0 <= k < pre.len() && #[trigger] pre[k].is_flagged is None;
                            assert(cur[k] == pre[k]);
                        }
                        if av[i as int].is_flagged is None {
                            assert(cur[i as int] == av[i as int]);
                        }
                    }
                }
                if a.is_flagged == Some(true) {
                    flagged = true;
                }
                if a.is_flagged.is_none() {
                    pending = true;
                }
                i = i + 1;
            }
            assert(av.take(s.artists.len() as int) =~= av);
            assert(artist_names_of(av).take(s.artists.len() as int) =~= artist_names_of(av));
            let status_text = if pending {
                "Classifying…".to_owned()
            } else if flagged {
                "Flagged: possible AI artist".to_owned()
            } else {
                "Not flagged".to_owned()
            };
            let head = concat(s.track_title.as_str(), " — ");
            let track_text = concat(head.as_str(), names.as_str());
            let line = concat(track_text.as_str(), "\n");
            let tooltip = concat(line.as_str(), status_text.as_str());
            TraySummary { track_text, status_text, tooltip, flagged }
        },
    }
}

/// A multi-artist track is flagged when any of its credited artists is, at
/// whatever position, and only then; with every verdict in, the status line
/// says flagged exactly then, and "Not flagged" otherwise.
pub proof fn law_flagged_if_any_artist_flagged(artists: Seq<ArtistFlagView>)
    ensures
        forall|k: int| 0 <= k < artists.len() && #[trigger] artists[k].is_flagged == Some(true) ==> any_flagged(artists),
        (forall|k: int| 0 <= k < artists.len() ==> #[trigger] artists[k].is_flagged != Some(true)) ==> !any_flagged(
            artists,
        ),
        (forall|k: int| 0 <= k < artists.len() ==> #[trigger] artists[k].is_flagged is Some) ==> status_line(artists)
            == if exists|k: int| 0 <= k < artists.len() && #[trigger] artists[k].is_flagged == Some(true) {
            "Flagged: possible AI artist"@
        } else {
            "Not flagged"@
        },
{
    if forall|k: int| 0 <= k < artists.len() ==> #[trigger] artists[k].is_flagged is Some {
        if any_pending(artists) {
            let k = choose|k: int| 0 <= k < artists.len() && #[trigger] artists[k].is_flagged is None;
            assert(artists[k].is_flagged is Some);
        }
    }
}

} // verus!
