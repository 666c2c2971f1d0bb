//! The now-playing side: artist identity, the candidate names of a track, the
//! dedup check against known verdicts, the in-flight guard, and the snapshot
//! that the tray and status window show.

use crate::classifier::{ClassifyRequest, ClassifyRequestView, Confidence};
use crate::text::{
    char_vecs, chars_of, concat, lemma_split_from_no_occurrence, lowercase, normalize_artist_name,
    normalized_name, occurs_at, occurs_at_exec, split_chars, split_on, to_lowercase,
    string_from_chars, strs, trim, trim_chars,
};
use vstd::prelude::*;

verus! {

#[derive(Debug, Clone, Copy, PartialEq, Eq, Structural)]
pub enum PlaybackStatus {
    Playing,
    Paused,
    Stopped,
}

/// The normalized event a platform backend emits. `None` in its place means no
/// active track (stopped/paused/no session) -- the tray goes idle.
pub struct RawNowPlaying {
    pub track_title: String,
    /// The artist credit exactly as reported by the OS.
    pub artist_credit: String,
    /// Individual artist names, when the backend provides them as a structured list.
    pub artist_names: Vec<String>,
    pub playback_status: PlaybackStatus,
}

pub struct RawNowPlayingView {
    pub track_title: Seq<char>,
    pub artist_credit: Seq<char>,
    pub artist_names: Seq<Seq<char>>,
    pub playback_status: PlaybackStatus,
}

impl View for RawNowPlaying {
    type V = RawNowPlayingView;

    open spec fn view(&self) -> RawNowPlayingView {
        RawNowPlayingView {
            track_title: self.track_title@,
            artist_credit: self.artist_credit@,
            artist_names: strs(self.artist_names@),
            playback_status: self.playback_status,
        }
    }
}

/// The Windows media-session backend (SMTC).
pub struct SmtcBackend;

impl SmtcBackend {
    pub fn new() -> Self {
        SmtcBackend
    }
}

/// The Linux media-session backend (MPRIS).
pub struct MprisBackend;

impl MprisBackend {
    pub fn new() -> Self {
        MprisBackend
    }
}

/// What a stored verdict tells about an artist.
#[derive(Debug, Clone, Copy, PartialEq, Eq, Structural)]
pub struct KnownVerdict {
    pub is_flagged: bool,
    pub confidence: Option<Confidence>,
}

/// One credited artist of the current track.
pub struct ArtistFlag {
    pub artist_id: String,
    pub name: String,
    /// `None` while a brand-new artist is still being classified.
    pub is_flagged: Option<bool>,
    /// `None` while pending; otherwise the stored confidence.
    pub confidence: Option<Confidence>,
}

pub struct ArtistFlagView {
    pub artist_id: Seq<char>,
    pub name: Seq<char>,
    pub is_flagged: Option<bool>,
    pub confidence: Option<Confidence>,
}

impl View for ArtistFlag {
    type V = ArtistFlagView;

    open spec fn view(&self) -> ArtistFlagView {
        ArtistFlagView {
            artist_id: self.artist_id@,
            name: self.name@,
            is_flagged: self.is_flagged,
            confidence: self.confidence,
        }
    }
}

impl ArtistFlag {
    pub fn duplicate(&self) -> (res: ArtistFlag)
        ensures
            res@ == self@,
    {
        ArtistFlag {
            artist_id: self.artist_id.clone(),
            name: self.name.clone(),
            is_flagged: self.is_flagged,
            confidence: self.confidence,
        }
    }
}

/// The now-playing snapshot: the track and the flag state of each credited artist.
pub struct NowPlayingChanged {
    pub track_title: String,
    pub artists: Vec<ArtistFlag>,
}

pub struct NowPlayingView {
    pub track_title: Seq<char>,
    pub artists: Seq<ArtistFlagView>,
}

impl View for NowPlayingChanged {
    type V = NowPlayingView;

    open spec fn view(&self) -> NowPlayingView {
        NowPlayingView {
            track_title: self.track_title@,
            artists: flag_views(self.artists@),
        }
    }
}

/// The views of a sequence of artist flags.
pub open spec fn flag_views(v: Seq<ArtistFlag>) -> Seq<ArtistFlagView> {
    v.map_values(|a: ArtistFlag| a@)
}

/// The view of an optional snapshot.
pub open spec fn snapshot_view(s: Option<NowPlayingChanged>) -> Option<NowPlayingView> {
    match s {
        Some(s) => Some(s@),
        None => None,
    }
}

fn duplicate_flags(v: &Vec<ArtistFlag>) -> (res: Vec<ArtistFlag>)
    ensures
        flag_views(res@) == flag_views(v@),
{
    let mut res: Vec<ArtistFlag> = Vec::new();
    let mut i: usize = 0;
    while i < v.len()
        invariant
            i <= v.len(),
            flag_views(res@) == flag_views(v@.take(i as int)),
        decreases v.len() - i,
    {
        let f = v[i].duplicate();
        let ghost before = res@;
        res.push(f);
        proof {
            assert(res@ == before.push(f));
            assert(flag_views(before).len() == before.len());
            assert(before.len() == i);
            assert(res@.len() == i + 1);
            assert(res@[i as int]@ == v@[i as int]@);
            assert(v@.take(i + 1) =~= v@.take(i as int).push(v@[i as int]));
            assert forall|k: int| 0 <= k < i + 1 implies #[trigger] flag_views(res@)[k] == flag_views(v@.take(i + 1))[k] by {
                if k < i {
                    assert(flag_views(before)[k] == flag_views(v@.take(i as int))[k]);
                }
            }
            assert(flag_views(res@) =~= flag_views(v@.take(i + 1)));
        }
        i = i + 1;
    }
    assert(v@.take(v.len() as int) =~= v@);
    res
}

impl NowPlayingChanged {
    pub fn duplicate(&self) -> (res: NowPlayingChanged)
        ensures
            res@ == self@,
    {
        NowPlayingChanged { track_title: self.track_title.clone(), artists: duplicate_flags(&self.artists) }
    }
}

// ---------------------------------------------------------------------------
// Reading the Windows media session.
// ---------------------------------------------------------------------------

/// `pat` occurs somewhere in `s`.
pub open spec fn contains_pattern(s: Seq<char>, pat: Seq<char>) -> bool {
    exists|i: int| #[trigger] occurs_at(s, pat, i)
}

/// Whether a media session belongs to Spotify: its app id contains "spotify",
/// ignoring case.
pub fn is_spotify_session(app_user_model_id: &str) -> (r: bool)
    ensures
        r == contains_pattern(lowercase(app_user_model_id@), "spotify"@),
{
    let lower = to_lowercase(app_user_model_id);
    let s = chars_of(lower.as_str());
    let pat = chars_of("spotify");
    proof {
        reveal_strlit("spotify");
    }
    assert(pat@.len() == 7);
    let mut i: usize = 0;
    while i < s.len() && pat.len() <= s.len() - i
        invariant
            i <= s@.len(),
            s@ == lowercase(app_user_model_id@),
            pat@ == "spotify"@,
            forall|k: int| 0 <= k < i ==> !#[trigger] occurs_at(s@, pat@, k),
        decreases s@.len() - i,
    {
        if occurs_at_exec(&s, &pat, i) {
            return true;
        }
        i = i + 1;
    }
    assert forall|k: int| !#[trigger] occurs_at(s@, pat@, k) by {
        if k >= i {
            assert(k + pat@.len() > s@.len());
        }
    }
    false
}

/// Whether the session found is the one already followed: both absent, or both
/// present with the same app id.
pub fn same_session(current: Option<&str>, found: Option<&str>) -> (r: bool)
    ensures
        r == match (current, found) {
            (Some(c), Some(f)) => c@ == f@,
            (None, None) => true,
            _ => false,
        },
{
    match (current, found) {
        (Some(c), Some(f)) => c.to_owned() == f.to_owned(),
        (None, None) => true,
        _ => false,
    }
}

/// The event for what a media session reports: no active track unless playback
/// is running and the title is not blank (a paused or stopped session is no
/// active track); otherwise the track with its artist credit as the only name (a
/// session's credit line is not reliably split per artist).
pub open spec fn session_event(
    title: Seq<char>,
    artist: Seq<char>,
    status: PlaybackStatus,
) -> Option<RawNowPlayingView> {
    if status != PlaybackStatus::Playing || trim(title).len() == 0 {
        None
    } else {
        Some(
            RawNowPlayingView {
                track_title: title,
                artist_credit: artist,
                artist_names: seq![artist],
                playback_status: status,
            },
        )
    }
}

/// The view of an optional event.
pub open spec fn event_view(e: Option<RawNowPlaying>) -> Option<RawNowPlayingView> {
    match e {
        Some(e) => Some(e@),
        None => None,
    }
}

/// The now-playing event for a session's title, artist and playback status.
pub fn now_playing_event(title: String, artist: String, status: PlaybackStatus) -> (res: Option<
    RawNowPlaying,
>)
    ensures
        event_view(res) == session_event(title@, artist@, status),
{
    if status != PlaybackStatus::Playing {
        return None;
    }
    let title_chars = chars_of(title.as_str());
    let trimmed = trim_chars(&title_chars);
    if trimmed.len() == 0 {
        return None;
    }
    let artist_names = vec![artist.clone()];
    let ev = RawNowPlaying { track_title: title, artist_credit: artist, artist_names, playback_status: status };
    assert(ev@.artist_names =~= seq![ev@.artist_credit]);
    Some(ev)
}

// ---------------------------------------------------------------------------
// Artist identity and candidate names.
// ---------------------------------------------------------------------------

/// The normalized names of a sequence of names.
pub open spec fn name_keys(s: Seq<Seq<char>>) -> Seq<Seq<char>> {
    s.map_values(|c: Seq<char>| normalized_name(c))
}

/// `"name:"` followed by the normalized name.
pub open spec fn artist_id_of(name: Seq<char>) -> Seq<char> {
    "name:"@ + normalized_name(name)
}

/// Whether an earlier entry of `s` than `i` has the same normalized name as `s[i]`.
pub open spec fn has_same_name_before(s: Seq<Seq<char>>, i: int) -> bool {
    exists|j: int| 0 <= j < i && normalized_name(#[trigger] s[j]) == normalized_name(s[i])
}

/// `s` keeping only the first entry of each normalized name, in order.
pub open spec fn dedup_by_name(s: Seq<Seq<char>>) -> Seq<Seq<char>>
    decreases s.len(),
{
    if s.len() == 0 {
        seq![]
    } else if has_same_name_before(s, s.len() - 1) {
        dedup_by_name(s.drop_last())
    } else {
        dedup_by_name(s.drop_last()).push(s.last())
    }
}

/// The names to classify for a track: the credit line, then the structured
/// names, deduplicated by normalized identity.
pub open spec fn candidates_spec(credit: Seq<char>, names: Seq<Seq<char>>) -> Seq<Seq<char>> {
    dedup_by_name(seq![credit] + names)
}

/// Two names have the same artist id exactly when they normalize alike: the id
/// is the artist's identity under normalization.
pub proof fn law_same_id_iff_same_normalized_name(a: Seq<char>, b: Seq<char>)
    ensures
        (artist_id_of(a) == artist_id_of(b)) <==> (normalized_name(a) == normalized_name(b)),
{
    let p = "name:"@;
    if artist_id_of(a) == artist_id_of(b) {
        assert(normalized_name(a) =~= artist_id_of(a).subrange(p.len() as int, artist_id_of(a).len() as int));
        assert(normalized_name(b) =~= artist_id_of(b).subrange(p.len() as int, artist_id_of(b).len() as int));
    }
}

/// Each entry of `dedup_by_name(s)` is an entry of `s`.
pub proof fn lemma_dedup_members(s: Seq<Seq<char>>)
    ensures
        forall|k: int|
            0 <= k < dedup_by_name(s).len() ==> exists|j: int|
                0 <= j < s.len() && #[trigger] dedup_by_name(s)[k] == s[j],
    decreases s.len(),
{
    if s.len() > 0 {
        let p = s.drop_last();
        lemma_dedup_members(p);
        let dp = dedup_by_name(p);
        let d = dedup_by_name(s);
        assert forall|k: int| 0 <= k < d.len() implies exists|j: int|
            0 <= j < s.len() && #[trigger] d[k] == s[j] by {
            if k < dp.len() {
                assert(d[k] == dp[k]);
                let j = choose|j: int| 0 <= j < p.len() && dp[k] == p[j];
                assert(s[j] == p[j]);
            } else {
                assert(d[k] == s[s.len() - 1]);
            }
        }
    }
}

/// Every normalized name of `s` is represented in `dedup_by_name(s)`.
pub proof fn lemma_dedup_covers(s: Seq<Seq<char>>)
    ensures
        forall|j: int|
            #![trigger s[j]]
            0 <= j < s.len() ==> exists|k: int|
                0 <= k < dedup_by_name(s).len() && normalized_name(#[trigger] dedup_by_name(s)[k])
                    == normalized_name(s[j]),
    decreases s.len(),
{
    if s.len() > 0 {
        let p = s.drop_last();
        lemma_dedup_covers(p);
        let dp = dedup_by_name(p);
        let d = dedup_by_name(s);
        assert(forall|k: int| 0 <= k < dp.len() ==> d[k] == dp[k]);
        assert forall|j: int| #![trigger s[j]] 0 <= j < s.len() implies exists|k: int|
            0 <= k < d.len() && normalized_name(#[trigger] d[k]) == normalized_name(s[j]) by {
            if j < s.len() - 1 {
                assert(s[j] == p[j]);
                let k = choose|k: int|
                    0 <= k < dp.len() && normalized_name(#[trigger] dp[k]) == normalized_name(p[j]);
                assert(d[k] == dp[k]);
            } else if has_same_name_before(s, s.len() - 1) {
                let j2 = choose|j2: int|
                    0 <= j2 < s.len() - 1 && normalized_name(#[trigger] s[j2]) == normalized_name(
                        s[s.len() - 1],
                    );
                assert(s[j2] == p[j2]);
                let k = choose|k: int|
                    0 <= k < dp.len() && normalized_name(#[trigger] dp[k]) == normalized_name(p[j2]);
                assert(d[k] == dp[k]);
            } else {
                assert(d[d.len() - 1] == s[j]);
            }
        }
    }
}

/// No two entries of `dedup_by_name(s)` share a normalized name.
pub proof fn lemma_dedup_distinct(s: Seq<Seq<char>>)
    ensures
        forall|k1: int, k2: int|
            0 <= k1 < k2 < dedup_by_name(s).len() ==> normalized_name(
                #[trigger] dedup_by_name(s)[k1],
            ) != normalized_name(#[trigger] dedup_by_name(s)[k2]),
    decreases s.len(),
{
    if s.len() > 0 {
        let p = s.drop_last();
        lemma_dedup_distinct(p);
        lemma_dedup_members(p);
        let dp = dedup_by_name(p);
        let d = dedup_by_name(s);
        if !has_same_name_before(s, s.len() - 1) {
            assert forall|k1: int, k2: int|
                0 <= k1 < k2 < d.len() implies normalized_name(#[trigger] d[k1]) != normalized_name(
                #[trigger] d[k2],
            ) by {
                assert(d[k1] == dp[k1]);
                if k2 == d.len() - 1 {
                    let j = choose|j: int| 0 <= j < p.len() && dp[k1] == p[j];
                    assert(s[j] == p[j]);
                    if normalized_name(d[k1]) == normalized_name(d[k2]) {
                        assert(normalized_name(s[j]) == normalized_name(s[s.len() - 1]));
                        assert(has_same_name_before(s, s.len() - 1));
                    }
                } else {
                    assert(d[k2] == dp[k2]);
                }
            }
        }
    }
}

/// Adding `x` after `pre`: an earlier entry shares its normalized name exactly
/// when the normalized names kept so far include it.
proof fn lemma_dedup_step(pre: Seq<Seq<char>>, x: Seq<char>)
    ensures
        has_same_name_before(pre.push(x), pre.len() as int) <==> name_keys(dedup_by_name(pre)).contains(normalized_name(x)),
{
    let cur = pre.push(x);
    let d = dedup_by_name(pre);
    let m = name_keys(d);
    lemma_dedup_members(pre);
    lemma_dedup_covers(pre);
    if m.contains(normalized_name(x)) {
        let k = choose|k: int| 0 <= k < m.len() && m[k] == normalized_name(x);
        let j = choose|j: int| 0 <= j < pre.len() && d[k] == pre[j];
        assert(cur[j] == pre[j]);
        assert(cur[pre.len() as int] == x);
        assert(has_same_name_before(cur, pre.len() as int));
    }
    if has_same_name_before(cur, pre.len() as int) {
        let j = choose|j: int|
            0 <= j < pre.len() && normalized_name(#[trigger] cur[j]) == normalized_name(
                cur[pre.len() as int],
            );
        assert(cur[j] == pre[j]);
        let k = choose|k: int|
            0 <= k < d.len() && normalized_name(#[trigger] d[k]) == normalized_name(pre[j]);
        assert(m[k] == normalized_name(x));
    }
}

/// artist_id = "name:" + normalize(artist_name). Computable offline from the
/// media event alone, so the stored verdict keyed by it is the dedup cache.
pub fn artist_id(artist_name: &str) -> (res: String)
    ensures
        res@ == artist_id_of(artist_name@),
{
    let normalized = normalize_artist_name(artist_name);
    concat("name:", normalized.as_str())
}

/// Whether some entry of `v` holds exactly the characters of `s`.
fn contains_string(v: &Vec<String>, s: &String) -> (r: bool)
    ensures
        r == strs(v@).contains(s@),
{
    let mut i: usize = 0;
    while i < v.len()
        invariant
            i <= v.len(),
            forall|j: int| 0 <= j < i ==> v@[j]@ != s@,
        decreases v.len() - i,
    {
        if v[i] == *s {
            assert(strs(v@)[i as int] == s@);
            return true;
        }
        i = i + 1;
    }
    assert(!strs(v@).contains(s@)) by {
        if strs(v@).contains(s@) {
            let j = choose|j: int| 0 <= j < strs(v@).len() && strs(v@)[j] == s@;
            assert(v@[j]@ == s@);
        }
    }
    false
}

/// Appends `name` to `candidates` unless a kept candidate has the same
/// normalized name; `seen` holds the normalized names kept so far.
fn push_if_new(
    candidates: &mut Vec<String>,
    seen: &mut Vec<String>,
    name: &str,
    Ghost(pre): Ghost<Seq<Seq<char>>>,
)
    requires
        strs(old(candidates)@) == dedup_by_name(pre),
        strs(old(seen)@) == name_keys(dedup_by_name(pre)),
    ensures
        strs(final(candidates)@) == dedup_by_name(pre.push(name@)),
        strs(final(seen)@) == name_keys(dedup_by_name(pre.push(name@))),
{
    let normalized = normalize_artist_name(name);
    let ghost cur = pre.push(name@);
    proof {
        lemma_dedup_step(pre, name@);
        assert(cur.drop_last() =~= pre);
        assert(cur.last() == name@);
    }
    let found = contains_string(seen, &normalized);
    if !found {
        let ghost old_c = strs(candidates@);
        let ghost old_s = strs(seen@);
        candidates.push(name.to_owned());
        seen.push(normalized);
        proof {
            assert(strs(candidates@) =~= old_c.push(name@));
            assert(strs(seen@) =~= old_s.push(normalized_name(name@)));
            assert(name_keys(dedup_by_name(cur)) =~= name_keys(dedup_by_name(pre)).push(normalized_name(name@)));
        }
    }
}

/// The names to classify for a track: the credit line plus any additional
/// structured names, deduplicated by normalized identity, first occurrence kept.
pub fn candidate_names(artist_credit: &str, artist_names: &[String]) -> (res: Vec<String>)
    ensures
        strs(res@) == candidates_spec(artist_credit@, strs(artist_names@)),
{
    let ghost all = seq![artist_credit@] + strs(artist_names@);
    let mut candidates: Vec<String> = Vec::new();
    let mut seen: Vec<String> = Vec::new();
    proof {
        assert(strs(candidates@) =~= dedup_by_name(seq![]));
        assert(strs(seen@) =~= name_keys(dedup_by_name(seq![])));
    }
    push_if_new(&mut candidates, &mut seen, artist_credit, Ghost(Seq::empty()));
    assert(seq![].push(artist_credit@) =~= all.take(1));
    let mut i: usize = 0;
    while i < artist_names.len()
        invariant
            i <= artist_names@.len(),
            all == seq![artist_credit@] + strs(artist_names@),
            strs(candidates@) == dedup_by_name(all.take(i + 1)),
            strs(seen@) == name_keys(dedup_by_name(all.take(i + 1))),
        decreases artist_names.len() - i,
    {
        let name = artist_names[i].as_str();
        proof {
            assert(all.take(i + 1).push(name@) =~= all.take(i + 2));
        }
        push_if_new(&mut candidates, &mut seen, name, Ghost(all.take(i + 1)));
        i = i + 1;
    }
    assert(all.take(artist_names.len() + 1) =~= all);
    candidates
}

// ---------------------------------------------------------------------------
// The monitor: dedup against known verdicts and the in-flight guard.
// ---------------------------------------------------------------------------

/// The stored verdict looked up for the `i`-th candidate, if any.
pub open spec fn known_at(known: Seq<Option<KnownVerdict>>, i: int) -> Option<KnownVerdict> {
    if 0 <= i < known.len() {
        known[i]
    } else {
        None
    }
}

/// The flag shown for a candidate: pending when nothing is stored, else the
/// stored verdict and confidence.
pub open spec fn flag_for(name: Seq<char>, k: Option<KnownVerdict>) -> ArtistFlagView {
    ArtistFlagView {
        artist_id: artist_id_of(name),
        name: name,
        is_flagged: match k {
            Some(v) => Some(v.is_flagged),
            None => None,
        },
        confidence: match k {
            Some(v) => v.confidence,
            None => None,
        },
    }
}

/// The snapshot for an active track, given the stored verdicts of its candidates.
pub open spec fn snapshot_for(raw: RawNowPlayingView, known: Seq<Option<KnownVerdict>>) -> NowPlayingView {
    let c = candidates_spec(raw.artist_credit, raw.artist_names);
    NowPlayingView {
        track_title: raw.track_title,
        artists: Seq::new(c.len(), |i: int| flag_for(c[i], known_at(known, i))),
    }
}

/// The candidates to send for classification: those with no stored verdict
/// whose id is not already in flight, in order.
pub open spec fn to_classify(
    c: Seq<Seq<char>>,
    known: Seq<Option<KnownVerdict>>,
    flight: Seq<Seq<char>>,
) -> Seq<Seq<char>>
    decreases c.len(),
{
    if c.len() == 0 {
        seq![]
    } else if known_at(known, c.len() - 1) is None && !flight.contains(artist_id_of(c.last())) {
        to_classify(c.drop_last(), known, flight).push(c.last())
    } else {
        to_classify(c.drop_last(), known, flight)
    }
}

/// The ids of a sequence of names.
pub open spec fn ids_of(names: Seq<Seq<char>>) -> Seq<Seq<char>> {
    names.map_values(|n: Seq<char>| artist_id_of(n))
}

/// The classification request for a name surfaced by a track.
pub open spec fn request_for(name: Seq<char>, track: Seq<char>) -> ClassifyRequestView {
    ClassifyRequestView { artist_id: artist_id_of(name), artist_name: name, track_title: track }
}

/// The requests for a sequence of names surfaced by a track.
pub open spec fn requests_for(names: Seq<Seq<char>>, track: Seq<char>) -> Seq<ClassifyRequestView> {
    names.map_values(|n: Seq<char>| request_for(n, track))
}

/// The views of a sequence of requests.
pub open spec fn request_views(v: Seq<ClassifyRequest>) -> Seq<ClassifyRequestView> {
    v.map_values(|r: ClassifyRequest| r@)
}

/// `s` without the entries equal to `x`.
pub open spec fn without(s: Seq<Seq<char>>, x: Seq<char>) -> Seq<Seq<char>> {
    s.filter(|y: Seq<char>| y != x)
}

/// A stored verdict is permanent: a candidate with a stored verdict, or one
/// whose classification is already in flight, is never sent for
/// classification; every name sent is a candidate.
pub proof fn law_no_reclassification(
    c: Seq<Seq<char>>,
    known: Seq<Option<KnownVerdict>>,
    flight: Seq<Seq<char>>,
)
    ensures
        forall|k: int|
            0 <= k < to_classify(c, known, flight).len() ==> exists|i: int|
                0 <= i < c.len() && #[trigger] to_classify(c, known, flight)[k] == c[i] && known_at(known, i) is None
                    && !flight.contains(artist_id_of(c[i])),
    decreases c.len(),
{
    if c.len() > 0 {
        let p = c.drop_last();
        law_no_reclassification(p, known, flight);
        let tp = to_classify(p, known, flight);
        let t = to_classify(c, known, flight);
        assert forall|k: int| 0 <= k < t.len() implies exists|i: int|
            0 <= i < c.len() && #[trigger] t[k] == c[i] && known_at(known, i) is None
                && !flight.contains(artist_id_of(c[i])) by {
            if k < tp.len() {
                assert(t[k] == tp[k]);
                let i = choose|i: int|
                    0 <= i < p.len() && #[trigger] tp[k] == p[i] && known_at(known, i) is None
                        && !flight.contains(artist_id_of(p[i]));
                assert(c[i] == p[i]);
            } else {
                assert(t[k] == c[c.len() - 1]);
            }
        }
    }
}

/// The in-flight guard is per artist id: every candidate with no stored verdict
/// whose own id is not in flight is sent for classification, whatever other ids
/// are in flight, and candidates are sent in the order they were surfaced.
pub proof fn law_every_unknown_idle_candidate_is_sent(
    c: Seq<Seq<char>>,
    known: Seq<Option<KnownVerdict>>,
    flight: Seq<Seq<char>>,
)
    ensures
        forall|i: int|
            0 <= i < c.len() && #[trigger] known_at(known, i) is None && !flight.contains(artist_id_of(c[i]))
                ==> to_classify(c, known, flight).contains(c[i]),
        c.len() > 0 && known_at(known, c.len() - 1) is None && !flight.contains(artist_id_of(c.last()))
            ==> to_classify(c, known, flight).last() == c.last(),
    decreases c.len(),
{
    if c.len() > 0 {
        let p = c.drop_last();
        law_every_unknown_idle_candidate_is_sent(p, known, flight);
        let tp = to_classify(p, known, flight);
        let t = to_classify(c, known, flight);
        assert forall|i: int|
            0 <= i < c.len() && #[trigger] known_at(known, i) is None && !flight.contains(artist_id_of(c[i]))
                implies t.contains(c[i]) by {
            if i < c.len() - 1 {
                assert(p[i] == c[i]);
                assert(known_at(known, i) is None);
                assert(tp.contains(p[i]));
                let k = choose|k: int| 0 <= k < tp.len() && tp[k] == p[i];
                if known_at(known, c.len() - 1) is None && !flight.contains(artist_id_of(c.last())) {
                    assert(t[k] == tp[k]);
                } else {
                    assert(t == tp);
                }
            } else {
                assert(t[t.len() - 1] == c[i]);
            }
        }
    }
}

/// Candidates with distinct normalized names have distinct ids.
proof fn lemma_candidate_ids_distinct(c: Seq<Seq<char>>, i: int, j: int)
    requires
        0 <= i < c.len(),
        0 <= j < c.len(),
        i != j,
        forall|k1: int, k2: int|
            0 <= k1 < k2 < c.len() ==> normalized_name(#[trigger] c[k1]) != normalized_name(#[trigger] c[k2]),
    ensures
        artist_id_of(c[i]) != artist_id_of(c[j]),
{
    law_same_id_iff_same_normalized_name(c[i], c[j]);
}

/// Owns the dedup check against stored verdicts and the in-flight guard, and
/// keeps the last snapshot shown.
pub struct MediaMonitor {
    last_state: Option<NowPlayingChanged>,
    in_flight: Vec<String>,
}

impl MediaMonitor {
    /// The last snapshot shown, if a track is active.
    pub closed spec fn last_state_view(&self) -> Option<NowPlayingView> {
        snapshot_view(self.last_state)
    }

    /// The ids whose classification is in flight.
    pub closed spec fn in_flight_ids(&self) -> Seq<Seq<char>> {
        strs(self.in_flight@)
    }

    /// No id is in flight twice.
    pub open spec fn wf(&self) -> bool {
        self.in_flight_ids().no_duplicates()
    }

    pub fn new() -> (m: MediaMonitor)
        ensures
            m.wf(),
            m.last_state_view() is None,
            m.in_flight_ids() == Seq::<Seq<char>>::empty(),
    {
        let m = MediaMonitor { last_state: None, in_flight: Vec::new() };
        assert(m.in_flight_ids() =~= Seq::<Seq<char>>::empty());
        m
    }

    /// The last snapshot shown, so the status window isn't blank between events.
    pub fn current_state(&self) -> (res: Option<NowPlayingChanged>)
        ensures
            snapshot_view(res) == self.last_state_view(),
    {
        match &self.last_state {
            Some(s) => Some(s.duplicate()),
            None => None,
        }
    }

    /// Marks `id` in flight; `true` when it was not in flight before.
    pub fn mark_in_flight(&mut self, id: &str) -> (r: bool)
        requires
            old(self).wf(),
        ensures
            final(self).wf(),
            r == !old(self).in_flight_ids().contains(id@),
            final(self).in_flight_ids() == if r {
                old(self).in_flight_ids().push(id@)
            } else {
                old(self).in_flight_ids()
            },
            final(self).last_state_view() == old(self).last_state_view(),
    {
        let id_string = id.to_owned();
        if contains_string(&self.in_flight, &id_string) {
            false
        } else {
            let ghost before = self.in_flight_ids();
            self.in_flight.push(id_string);
            proof {
                assert(self.in_flight_ids() =~= before.push(id@));
                assert forall|a: int, b: int|
                    0 <= a < b < self.in_flight_ids().len() implies self.in_flight_ids()[a]
                    != self.in_flight_ids()[b] by {
                    if b == before.len() {
                        assert(before[a] == self.in_flight_ids()[a]);
                    } else {
                        assert(before[a] == self.in_flight_ids()[a]);
                        assert(before[b] == self.in_flight_ids()[b]);
                    }
                }
            }
            true
        }
    }

    /// Clears `id` from the in-flight guard.
    pub fn clear_in_flight(&mut self, id: &str)
        requires
            old(self).wf(),
        ensures
            final(self).wf(),
            final(self).in_flight_ids() == without(old(self).in_flight_ids(), id@),
            final(self).last_state_view() == old(self).last_state_view(),
    {
        let ghost old_ids = self.in_flight_ids();
        let id_string = id.to_owned();
        let mut kept: Vec<String> = Vec::new();
        let mut i: usize = 0;
        while i < self.in_flight.len()
            invariant
                i <= self.in_flight@.len(),
                old_ids == strs(self.in_flight@),
                old_ids.no_duplicates(),
                id_string@ == id@,
                strs(kept@) == without(old_ids.take(i as int), id@),
                forall|k: int| 0 <= k < kept@.len() ==> exists|j: int| 0 <= j < i && #[trigger] strs(kept@)[k] == old_ids[j],
                strs(kept@).no_duplicates(),
            decreases self.in_flight@.len() - i,
        {
            proof {
                reveal_with_fuel(Seq::<_>::filter, 1);
                assert(old_ids.take(i + 1).drop_last() =~= old_ids.take(i as int));
            }
            let ghost before = strs(kept@);
            if !(self.in_flight[i] == id_string) {
                let s = self.in_flight[i].clone();
                kept.push(s);
                proof {
                    assert(strs(kept@) =~= before.push(old_ids[i as int]));
                    assert forall|k: int| 0 <= k < kept@.len() implies exists|j: int|
                        0 <= j < i + 1 && #[trigger] strs(kept@)[k] == old_ids[j] by {
                        if k < before.len() {
                            assert(strs(kept@)[k] == before[k]);
                        } else {
                            assert(strs(kept@)[k] == old_ids[i as int]);
                        }
                    }
                    assert forall|a: int, b: int|
                        0 <= a < b < strs(kept@).len() implies strs(kept@)[a] != strs(kept@)[b] by {
                        if b == before.len() {
                            assert(strs(kept@)[a] == before[a]);
                            let j = choose|j: int| 0 <= j < i && #[trigger] before[a] == old_ids[j];
                            assert(old_ids[j] != old_ids[i as int]);
                        } else {
                            assert(strs(kept@)[a] == before[a]);
                            assert(strs(kept@)[b] == before[b]);
                        }
                    }
                }
            }
            i = i + 1;
        }
        assert(old_ids.take(old_ids.len() as int) =~= old_ids);
        self.in_flight = kept;
    }

    /// Handles a media event. With no active track the snapshot goes idle. For an
    /// active track, `known` holds the stored verdict looked up for each of
    /// `candidate_names` of the track, in that order (an entry missing from it counts
    /// as no stored verdict). Each candidate with no stored verdict and not already
    /// in flight is marked in flight and returned as a classification request; the
    /// new snapshot is kept and returned for display.
    pub fn handle_raw_event(
        &mut self,
        raw: Option<RawNowPlaying>,
        known: &Vec<Option<KnownVerdict>>,
    ) -> (res: (Option<NowPlayingChanged>, Vec<ClassifyRequest>))
        requires
            old(self).wf(),
        ensures
            final(self).wf(),
            final(self).last_state_view() == snapshot_view(res.0),
            match raw {
                None => {
                    &&& res.0 is None
                    &&& res.1@.len() == 0
                    &&& final(self).in_flight_ids() == old(self).in_flight_ids()
                },
                Some(r) => {
                    let c = candidates_spec(r@.artist_credit, r@.artist_names);
                    let names = to_classify(c, known@, old(self).in_flight_ids());
                    &&& snapshot_view(res.0) == Some(snapshot_for(r@, known@))
                    &&& request_views(res.1@) == requests_for(names, r@.track_title)
                    &&& final(self).in_flight_ids() == old(self).in_flight_ids() + ids_of(names)
                },
            },
    {
        match raw {
            None => {
                self.last_state = None;
                (None, Vec::new())
            },
            Some(raw) => {
                let ghost rv = raw@;
                let ghost old_flight = self.in_flight_ids();
                let cands = candidate_names(raw.artist_credit.as_str(), raw.artist_names.as_slice());
                let ghost c = strs(cands@);
                assert(c == candidates_spec(rv.artist_credit, rv.artist_names));
                proof {
                    lemma_dedup_distinct(seq![rv.artist_credit] + rv.artist_names);
                }
                let mut artists: Vec<ArtistFlag> = Vec::new();
                let mut requests: Vec<ClassifyRequest> = Vec::new();
                let mut i: usize = 0;
                while i < cands.len()
                    invariant
                        i <= cands@.len(),
                        c == strs(cands@),
                        rv == raw@,
                        forall|k1: int, k2: int|
                            0 <= k1 < k2 < c.len() ==> normalized_name(#[trigger] c[k1]) != normalized_name(#[trigger] c[k2]),
                        self.wf(),
                        self.last_state_view() == old(self).last_state_view(),
                        old_flight == old(self).in_flight_ids(),
                        flag_views(artists@) == Seq::new(i as nat, |k: int| flag_for(c[k], known_at(known@, k))),
                        request_views(requests@) == requests_for(to_classify(c.take(i as int), known@, old_flight), rv.track_title),
                        self.in_flight_ids() == old_flight + ids_of(to_classify(c.take(i as int), known@, old_flight)),
                    decreases cands@.len() - i,
                {
                    let name = &cands[i];
                    let id = artist_id(name.as_str());
                    let k: Option<KnownVerdict> = if i < known.len() {
                        known[i]
                    } else {
                        None
                    };
                    let (is_flagged, confidence) = match k {
                        Some(v) => (Some(v.is_flagged), v.confidence),
                        None => (None, None),
                    };
                    let ghost before_flags = flag_views(artists@);
                    let ghost before_artists = artists@;
                    let flag = ArtistFlag { artist_id: id.clone(), name: name.clone(), is_flagged, confidence };
                    assert(flag@ == flag_for(c[i as int], known_at(known@, i as int)));
                    artists.push(flag);
                    proof {
                        assert(artists@ == before_artists.push(flag));
                        assert(before_flags.len() == i);
                        assert(flag_views(artists@) =~= Seq::new((i + 1) as nat, |k: int| flag_for(c[k], known_at(known@, k)))) by {
                            assert forall|j: int| 0 <= j < i + 1 implies #[trigger] flag_views(artists@)[j] == flag_for(c[j], known_at(known@, j)) by {
                                if j < i {
                                    assert(flag_views(artists@)[j] == before_flags[j]);
                                }
                            }
                        }
                    }
                    let ghost pre = c.take(i as int);
                    let ghost cur = c.take(i + 1);
                    let ghost tp = to_classify(pre, known@, old_flight);
                    let ghost before_reqs = request_views(requests@);
                    let ghost before_ids = self.in_flight_ids();
                    proof {
                        assert(cur.drop_last() =~= pre);
                        assert(cur.last() == c[i as int]);
                        law_no_reclassification(pre, known@, old_flight);
                        // The id of this candidate is not among those marked earlier in this event.
                        assert(!ids_of(tp).contains(id@)) by {
                            if ids_of(tp).contains(id@) {
                                let m = choose|m: int| 0 <= m < ids_of(tp).len() && ids_of(tp)[m] == id@;
                                let j = choose|j: int| 0 <= j < pre.len() && #[trigger] tp[m] == pre[j] && known_at(known@, j) is None && !old_flight.contains(artist_id_of(pre[j]));
                                assert(pre[j] == c[j]);
                                lemma_candidate_ids_distinct(c, j, i as int);
                            }
                        }
                        assert((old_flight + ids_of(tp)).contains(id@) == old_flight.contains(id@)) by {
                            if (old_flight + ids_of(tp)).contains(id@) {
                                let m = choose|m: int| 0 <= m < (old_flight + ids_of(tp)).len() && (old_flight + ids_of(tp))[m] == id@;
                                if m >= old_flight.len() {
                                    assert(ids_of(tp)[m - old_flight.len()] == id@);
                                }
                            }
                            if old_flight.contains(id@) {
                                let m = choose|m: int| 0 <= m < old_flight.len() && old_flight[m] == id@;
                                assert((old_flight + ids_of(tp))[m] == id@);
                            }
                        }
                    }
                    if is_flagged.is_none() && self.mark_in_flight(id.as_str()) {
                        let req = ClassifyRequest {
                            artist_id: id,
                            artist_name: name.clone(),
                            track_title: raw.track_title.clone(),
                        };
                        requests.push(req);
                        proof {
                            assert(to_classify(cur, known@, old_flight) == tp.push(c[i as int]));
                            assert(request_views(requests@) =~= before_reqs.push(request_for(c[i as int], rv.track_title)));
                            assert(requests_for(tp.push(c[i as int]), rv.track_title) =~= requests_for(tp, rv.track_title).push(request_for(c[i as int], rv.track_title)));
                            assert(ids_of(tp.push(c[i as int])) =~= ids_of(tp).push(id@));
                            assert(self.in_flight_ids() =~= old_flight + ids_of(tp.push(c[i as int])));
                        }
                    } else {
                        proof {
                            assert(to_classify(cur, known@, old_flight) == tp);
                        }
                    }
                    i = i + 1;
                }
                assert(c.take(cands.len() as int) =~= c);
                let state = NowPlayingChanged { track_title: raw.track_title, artists };
                assert(state@ =~= snapshot_for(rv, known@));
                self.last_state = Some(state.duplicate());
                (Some(state), requests)
            },
        }
    }

    /// Patches a just-classified artist's stored verdict into the current snapshot,
    /// if that artist is still part of it, and returns the snapshot to show again.
    /// Returns `None` (nothing to show) when no track is active or the artist is no
    /// longer in the snapshot; with `row` `None` the snapshot is re-shown unchanged.
    pub fn apply_classification_result(&mut self, artist_id: &str, row: Option<KnownVerdict>) -> (res:
        Option<NowPlayingChanged>)
        requires
            old(self).wf(),
        ensures
            final(self).wf(),
            final(self).in_flight_ids() == old(self).in_flight_ids(),
            match old(self).last_state_view() {
                None => res is None && final(self).last_state_view() is None,
                Some(st) => if exists|k: int| 0 <= k < st.artists.len() && #[trigger] st.artists[k].artist_id == artist_id@ {
                    let k = choose|k: int| 0 <= k < st.artists.len() && #[trigger] st.artists[k].artist_id == artist_id@
                        && forall|j: int| 0 <= j < k ==> st.artists[j].artist_id != artist_id@;
                    let patched = match row {
                        Some(v) => NowPlayingView {
                            track_title: st.track_title,
                            artists: st.artists.update(k, ArtistFlagView {
                                is_flagged: Some(v.is_flagged),
                                confidence: v.confidence,
                                ..st.artists[k]
                            }),
                        },
                        None => st,
                    };
                    &&& snapshot_view(res) == Some(patched)
                    &&& final(self).last_state_view() == Some(patched)
                } else {
                    res is None && final(self).last_state_view() == old(self).last_state_view()
                },
            },
    {
        let id_string = artist_id.to_owned();
        let (found, idx) = match &self.last_state {
            None => (false, 0),
            Some(st) => {
                let mut j: usize = 0;
                let mut found = false;
                while j < st.artists.len()
                    invariant_except_break
                        !found,
                    invariant
                        j <= st.artists@.len(),
                        id_string@ == artist_id@,
                        forall|m: int| 0 <= m < j ==> st.artists@[m]@.artist_id != artist_id@,
                    ensures
                        (found && j < st.artists@.len() && st.artists@[j as int]@.artist_id == artist_id@)
                            || (!found && j == st.artists@.len()),
                    decreases st.artists@.len() - j,
                {
                    if st.artists[j].artist_id == id_string {
                        found = true;
                        break;
                    }
                    j = j + 1;
                }
                (found, j)
            },
        };
        let ghost old_view = self.last_state_view();
        if !found {
            proof {
                if let Some(st) = old_view {
                    assert forall|k: int| 0 <= k < st.artists.len() implies #[trigger] st.artists[k].artist_id != artist_id@ by {
                        assert(st.artists[k] == self.last_state->0.artists@[k]@);
                    }
                }
            }
            return None;
        }
        let new_state = match &self.last_state {
            None => {
                return None;
            },
            Some(st) => {
                let ghost stv = st@;
                proof {
                    assert(idx < st.artists@.len());
                    assert(stv.artists[idx as int].artist_id == artist_id@);
                    let k = choose|k: int| 0 <= k < stv.artists.len() && #[trigger] stv.artists[k].artist_id == artist_id@
                        && forall|j: int| 0 <= j < k ==> stv.artists[j].artist_id != artist_id@;
                    if k < idx {
                        assert(st.artists@[k]@ == stv.artists[k]);
                    } else if k > idx {
                        assert(stv.artists[idx as int].artist_id != artist_id@);
                    }
                    assert(k == idx);
                }
                match row {
                    None => st.duplicate(),
                    Some(v) => {
                        let old_flag = st.artists[idx].duplicate();
                        let patched = ArtistFlag {
                            artist_id: old_flag.artist_id,
                            name: old_flag.name,
                            is_flagged: Some(v.is_flagged),
                            confidence: v.confidence,
                        };
                        let artists = replace_flag(&st.artists, idx, patched);
                        let r = NowPlayingChanged { track_title: st.track_title.clone(), artists };
                        assert(r@.artists =~= stv.artists.update(idx as int, ArtistFlagView {
                            is_flagged: Some(v.is_flagged),
                            confidence: v.confidence,
                            ..stv.artists[idx as int]
                        }));
                        r
                    },
                }
            },
        };
        self.last_state = Some(new_state.duplicate());
        Some(new_state)
    }
}

/// `v` with the flag at `idx` replaced by `f`.
fn replace_flag(v: &Vec<ArtistFlag>, idx: usize, f: ArtistFlag) -> (res: Vec<ArtistFlag>)
    requires
        idx < v@.len(),
    ensures
        flag_views(res@) == flag_views(v@).update(idx as int, f@),
{
    let mut res: Vec<ArtistFlag> = Vec::new();
    let mut f = Some(f);
    let ghost fv = f->0@;
    let mut i: usize = 0;
    while i < v.len()
        invariant
            i <= v@.len(),
            idx < v@.len(),
            i <= idx ==> f == Some(f->0) && f->0@ == fv,
            flag_views(res@) == flag_views(v@).update(idx as int, fv).take(i as int),
        decreases v@.len() - i,
    {
        let ghost before = res@;
        let item = if i == idx {
            match f.take() {
                Some(x) => x,
                None => v[i].duplicate(),
            }
        } else {
            v[i].duplicate()
        };
        res.push(item);
        proof {
            assert(res@ == before.push(item));
            assert(flag_views(before).len() == i);
            assert forall|k: int| 0 <= k < i + 1 implies #[trigger] flag_views(res@)[k] == flag_views(v@).update(idx as int, fv).take(i + 1)[k] by {
                if k < i {
                    assert(flag_views(res@)[k] == flag_views(before)[k]);
                }
            }
            assert(flag_views(res@) =~= flag_views(v@).update(idx as int, fv).take(i + 1));
        }
        i = i + 1;
    }
    assert(flag_views(v@).update(idx as int, fv).take(v@.len() as int) =~= flag_views(v@).update(idx as int, fv));
    res
}

// ---------------------------------------------------------------------------
// Laws.
// ---------------------------------------------------------------------------

/// The candidates of a track: the credit line comes first; no two candidates
/// share a normalized name (so no two share an artist id); every credited name
/// is represented by a candidate with the same normalized name; and every
/// candidate is one of the credited names.
pub proof fn law_candidates(credit: Seq<char>, names: Seq<Seq<char>>)
    ensures
        candidates_spec(credit, names).len() >= 1,
        candidates_spec(credit, names)[0] == credit,
        forall|k1: int, k2: int|
            0 <= k1 < k2 < candidates_spec(credit, names).len() ==> artist_id_of(
                #[trigger] candidates_spec(credit, names)[k1],
            ) != artist_id_of(#[trigger] candidates_spec(credit, names)[k2]),
        forall|j: int|
            #![trigger names[j]]
            0 <= j < names.len() ==> exists|k: int|
                0 <= k < candidates_spec(credit, names).len() && normalized_name(
                    #[trigger] candidates_spec(credit, names)[k],
                ) == normalized_name(names[j]),
        forall|k: int|
            0 <= k < candidates_spec(credit, names).len() ==> (#[trigger] candidates_spec(credit, names)[k]
                == credit || names.contains(candidates_spec(credit, names)[k])),
{
    let all = seq![credit] + names;
    let c = candidates_spec(credit, names);
    lemma_dedup_members(all);
    lemma_dedup_covers(all);
    lemma_dedup_distinct(all);
    lemma_dedup_first(all);
    assert forall|k1: int, k2: int| 0 <= k1 < k2 < c.len() implies artist_id_of(#[trigger] c[k1]) != artist_id_of(
        #[trigger] c[k2],
    ) by {
        law_same_id_iff_same_normalized_name(c[k1], c[k2]);
    }
    assert forall|j: int| #![trigger names[j]] 0 <= j < names.len() implies exists|k: int|
        0 <= k < c.len() && normalized_name(#[trigger] c[k]) == normalized_name(names[j]) by {
        assert(all[j + 1] == names[j]);
    }
    assert forall|k: int| 0 <= k < c.len() implies (#[trigger] c[k] == credit || names.contains(c[k])) by {
        let j = choose|j: int| 0 <= j < all.len() && c[k] == all[j];
        if j > 0 {
            assert(all[j] == names[j - 1]);
        }
    }
}

/// The first entry of a non-empty sequence is always kept.
proof fn lemma_dedup_first(s: Seq<Seq<char>>)
    requires
        s.len() > 0,
    ensures
        dedup_by_name(s).len() > 0,
        dedup_by_name(s)[0] == s[0],
    decreases s.len(),
{
    if s.len() == 1 {
        assert(!has_same_name_before(s, 0));
        assert(s.drop_last() =~= Seq::<Seq<char>>::empty());
    } else {
        lemma_dedup_first(s.drop_last());
        assert(s.drop_last()[0] == s[0]);
    }
}

/// A repeat play costs no lookup: when every candidate has a stored verdict,
/// nothing is sent for classification.
pub proof fn law_known_artists_need_no_lookup(
    c: Seq<Seq<char>>,
    known: Seq<Option<KnownVerdict>>,
    flight: Seq<Seq<char>>,
)
    requires
        forall|i: int| 0 <= i < c.len() ==> #[trigger] known_at(known, i) is Some,
    ensures
        to_classify(c, known, flight).len() == 0,
    decreases c.len(),
{
    if c.len() > 0 {
        assert(known_at(known, c.len() - 1) is Some);
        law_known_artists_need_no_lookup(c.drop_last(), known, flight);
    }
}

/// Marking an id in flight, then clearing it, leaves it out of flight; while
/// it is in flight a second mark is refused.
pub proof fn law_in_flight_guard(ids: Seq<Seq<char>>, id: Seq<char>)
    ensures
        ids.push(id).contains(id),
        !without(ids.push(id), id).contains(id),
{
    assert(ids.push(id)[ids.len() as int] == id);
    if without(ids.push(id), id).contains(id) {
        let k = choose|k: int| 0 <= k < without(ids.push(id), id).len() && without(ids.push(id), id)[k] == id;
        ids.push(id).lemma_filter_pred(|y: Seq<char>| y != id, k);
    }
}

// ---------------------------------------------------------------------------
// Splitting a multi-artist credit line.
// ---------------------------------------------------------------------------

/// The separator between artists in an "A, B & C" credit.
pub open spec fn comma_sep() -> Seq<char> {
    seq![',', ' ']
}

/// The separator before the last artist in an "A, B & C" credit.
pub open spec fn amp_sep() -> Seq<char> {
    seq![' ', '&', ' ']
}

/// Each part split again at `" & "`.
pub open spec fn split_each_on_amp(parts: Seq<Seq<char>>) -> Seq<Seq<Seq<char>>> {
    parts.map_values(|p: Seq<char>| split_on(p, amp_sep()))
}

/// Each part trimmed.
pub open spec fn trim_all(parts: Seq<Seq<char>>) -> Seq<Seq<char>> {
    parts.map_values(|p: Seq<char>| trim(p))
}

/// The non-empty parts, in order.
pub open spec fn non_empty(parts: Seq<Seq<char>>) -> Seq<Seq<char>> {
    parts.filter(|p: Seq<char>| p.len() > 0)
}

/// The artists of a credit line in Spotify's "A, B & C" convention: split at
/// `", "`, then at `" & "`, each piece trimmed, empty pieces dropped.
pub open spec fn split_artists_spec(artist: Seq<char>) -> Seq<Seq<char>> {
    non_empty(trim_all(split_each_on_amp(split_on(artist, comma_sep())).flatten()))
}

/// Spotify's own formatting convention for multi-artist credits is "A, B & C" --
/// split on that rather than a generic delimiter set, since a blind comma-split
/// would mangle single-artist names that legitimately contain a comma.
pub fn split_artists(artist: &str) -> (res: Vec<String>)
    ensures
        strs(res@) == split_artists_spec(artist@),
{
    let chars = chars_of(artist);
    let comma: Vec<char> = vec![',', ' '];
    let amp: Vec<char> = vec![' ', '&', ' '];
    assert(comma@ =~= comma_sep());
    assert(amp@ =~= amp_sep());
    let parts = split_chars(&chars, &comma);
    let ghost parts_model = char_vecs(parts@);
    let mut flat: Vec<Vec<char>> = Vec::new();
    let mut i: usize = 0;
    assert(split_each_on_amp(parts_model).take(0).flatten() =~= Seq::<Seq<char>>::empty());
    while i < parts.len()
        invariant
            i <= parts.len(),
            parts_model == char_vecs(parts@),
            amp@ == amp_sep(),
            char_vecs(flat@) == split_each_on_amp(parts_model).take(i as int).flatten(),
        decreases parts.len() - i,
    {
        let mut pieces = split_chars(&parts[i], &amp);
        let ghost before = char_vecs(flat@);
        let ghost piece_model = char_vecs(pieces@);
        flat.append(&mut pieces);
        proof {
            let e = split_each_on_amp(parts_model);
            assert(e[i as int] == piece_model);
            assert(e.take(i + 1) =~= e.take(i as int).push(e[i as int]));
            e.take(i as int).lemma_flatten_push(e[i as int]);
            assert(char_vecs(flat@) =~= before + piece_model);
        }
        i = i + 1;
    }
    let ghost flat_model = char_vecs(flat@);
    assert(split_each_on_amp(parts_model).take(parts.len() as int) =~= split_each_on_amp(parts_model));
    let mut res: Vec<String> = Vec::new();
    let mut j: usize = 0;
    assert(trim_all(flat_model.take(0)) =~= Seq::<Seq<char>>::empty());
    while j < flat.len()
        invariant
            j <= flat.len(),
            flat_model == char_vecs(flat@),
            strs(res@) == non_empty(trim_all(flat_model.take(j as int))),
        decreases flat.len() - j,
    {
        let t = trim_chars(&flat[j]);
        let ghost before = strs(res@);
        proof {
            reveal_with_fuel(Seq::<_>::filter, 1);
            let tp = trim_all(flat_model.take(j + 1));
            assert(tp.drop_last() =~= trim_all(flat_model.take(j as int)));
            assert(tp.last() == t@);
        }
        if t.len() > 0 {
            let s = string_from_chars(&t);
            res.push(s);
            assert(strs(res@) =~= before.push(t@));
        }
        j = j + 1;
    }
    assert(flat_model.take(flat.len() as int) =~= flat_model);
    res
}

/// A credit line with no `", "` and no `" & "` is a single artist: a name
/// that merely contains a comma is kept whole (trimmed, and dropped only when
/// blank).
pub proof fn law_single_artist_credit_kept_whole(s: Seq<char>)
    requires
        forall|k: int| !#[trigger] occurs_at(s, comma_sep(), k),
        forall|k: int| !#[trigger] occurs_at(s, amp_sep(), k),
    ensures
        split_artists_spec(s) == if trim(s).len() > 0 {
            seq![trim(s)]
        } else {
            Seq::<Seq<char>>::empty()
        },
{
    lemma_split_from_no_occurrence(s, comma_sep(), 0, 0);
    lemma_split_from_no_occurrence(s, amp_sep(), 0, 0);
    assert(s.subrange(0, s.len() as int) =~= s);
    let parts = split_on(s, comma_sep());
    assert(parts == seq![s]);
    let e = split_each_on_amp(parts);
    assert(e =~= seq![seq![s]]);
    e.lemma_flatten_one_element();
    assert(e.flatten() == seq![s]);
    let t = trim_all(e.flatten());
    assert(t =~= seq![trim(s)]);
    reveal_with_fuel(Seq::<_>::filter, 2);
    assert(t.drop_last() =~= Seq::<Seq<char>>::empty());
}

} // verus!
