# now_playing_flagger

The logic of a tray app that watches the local Spotify session and flags artists
whose earliest release falls in 2025/2026, proved with Verus.

- `src/text.rs` — artist-name normalization (NFKD, marks stripped, whitespace
  collapsed, lowercased), splitting and trimming.
- `src/media.rs` — artist ids, the candidate names of a track, the dedup check
  against stored verdicts, the in-flight guard, and the now-playing snapshot.
- `src/classifier.rs` — the denylist, release-burst and corroboration
  heuristics, confidence tiers, the verdict, and the lookup pipeline as steps.
- `src/itunes.rs` — iTunes request URLs, matching search results, album
  release dates, and the throttling and retry policy.
- `src/musicbrainz.rs` — the MusicBrainz recording search and what an artist
  lookup corroborates.
- `src/tray.rs` — what the tray shows for a snapshot.
- `src/db.rs` — the classification and evidence rows of a verdict.
- `app/` — the Tauri program around the library: HTTP, SQLite, the Windows
  media session, the tray and the event loop.
