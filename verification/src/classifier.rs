//! Classifying an artist -- the generator-credit denylist, the earliest-release and
//! release-burst heuristics, third-party corroboration, confidence tiers, and
//! the step-by-step lookup pipeline that drives them.

use crate::itunes::{
    AlbumEntry, AlbumEntryView, ArtistResolution, ArtistResolutionView, MatchMethod, ReleaseDate,
    ReleaseDateView, SearchResult, SearchResultView, album_lookup_request, album_lookup_url,
    album_views, artist_search_request, artist_search_url, best_match, date_view, date_views,
    first_hit, is_hit, release_dates_of, resolution_view, result_views, song_search_request,
    song_search_url,
};
use crate::text::{normalize_artist_name, normalized_name};
use vstd::prelude::*;

verus! {

/// Confidence tiers. Only their order matters: `High` > `Medium` > `Low`.
#[derive(Debug, Clone, Copy, PartialEq, Eq, Structural)]
pub enum Confidence {
    High,
    Medium,
    Low,
}

/// Rank of a tier: a higher rank is a more confident verdict.
pub open spec fn confidence_rank(c: Confidence) -> int {
    match c {
        Confidence::High => 2,
        Confidence::Medium => 1,
        Confidence::Low => 0,
    }
}

/// An artist to classify, with the track that surfaced it.
pub struct ClassifyRequest {
    pub artist_id: String,
    pub artist_name: String,
    pub track_title: String,
}

pub struct ClassifyRequestView {
    pub artist_id: Seq<char>,
    pub artist_name: Seq<char>,
    pub track_title: Seq<char>,
}

impl View for ClassifyRequest {
    type V = ClassifyRequestView;

    open spec fn view(&self) -> ClassifyRequestView {
        ClassifyRequestView {
            artist_id: self.artist_id@,
            artist_name: self.artist_name@,
            track_title: self.track_title@,
        }
    }
}

impl ClassifyRequest {
    pub fn duplicate(&self) -> (res: ClassifyRequest)
        ensures
            res@ == self@,
    {
        ClassifyRequest {
            artist_id: self.artist_id.clone(),
            artist_name: self.artist_name.clone(),
            track_title: self.track_title.clone(),
        }
    }
}

// ---------------------------------------------------------------------------
// The heuristics.
// ---------------------------------------------------------------------------

/// Credited-artist names that AI generators use as their own attribution when
/// the uploader doesn't bother renaming it: an exact (normalized) match is an
/// instant, high-confidence flag, with no lookup needed.
pub open spec fn is_denylisted(artist_name: Seq<char>) -> bool {
    normalized_name(artist_name) == "suno"@ || normalized_name(artist_name) == "udio"@
}

/// A back-catalog counts as a burst from this many albums on...
pub const BURST_MIN_ALBUMS: usize = 5;

/// ...when all of them fall within this many days of each other.
pub const BURST_MAX_SPAN_DAYS: i64 = 30;

/// A release burst: at least `BURST_MIN_ALBUMS` dates, any two of them at most
/// `BURST_MAX_SPAN_DAYS` days apart.
pub open spec fn release_burst(dates: Seq<ReleaseDateView>) -> bool {
    &&& dates.len() >= BURST_MIN_ALBUMS
    &&& forall|i: int, j: int|
        0 <= i < dates.len() && 0 <= j < dates.len() ==> #[trigger] dates[j].day_number
            - #[trigger] dates[i].day_number <= BURST_MAX_SPAN_DAYS
}

/// Some collection is credited to a primary artist with a different normalized
/// name than `artist_name`: the artist appears as a featured collaborator on
/// someone else's release.
pub open spec fn third_party_credited(artist_name: Seq<char>, albums: Seq<AlbumEntryView>) -> bool {
    exists|i: int|
        0 <= i < albums.len() && #[trigger] albums[i].artist_name is Some && normalized_name(
            albums[i].artist_name->0,
        ) != normalized_name(artist_name)
}

/// The earliest date (the first of the earliest, when several share a day).
pub open spec fn earliest_of(dates: Seq<ReleaseDateView>) -> Option<ReleaseDateView>
    decreases dates.len(),
{
    if dates.len() == 0 {
        None
    } else {
        match earliest_of(dates.drop_last()) {
            None => Some(dates.last()),
            Some(e) => if dates.last().day_number < e.day_number {
                Some(dates.last())
            } else {
                Some(e)
            },
        }
    }
}

/// The earliest date is one of the dates, no date is earlier, and every date
/// before it in the sequence is later.
pub proof fn lemma_earliest_of(dates: Seq<ReleaseDateView>)
    ensures
        dates.len() == 0 <==> earliest_of(dates) is None,
        earliest_of(dates) matches Some(e) ==> exists|k: int|
            0 <= k < dates.len() && dates[k] == e && (forall|j: int|
                0 <= j < dates.len() ==> e.day_number <= #[trigger] dates[j].day_number) && (forall|j: int|
                0 <= j < k ==> e.day_number < #[trigger] dates[j].day_number),
    decreases dates.len(),
{
    if dates.len() > 0 {
        let p = dates.drop_last();
        lemma_earliest_of(p);
        match earliest_of(p) {
            None => {
                assert(dates[0] == dates.last());
            },
            Some(e) => {
                let k = choose|k: int|
                    0 <= k < p.len() && p[k] == e && (forall|j: int|
                        0 <= j < p.len() ==> e.day_number <= #[trigger] p[j].day_number) && (forall|j: int|
                        0 <= j < k ==> e.day_number < #[trigger] p[j].day_number);
                if dates.last().day_number < e.day_number {
                    assert forall|j: int| 0 <= j < dates.len() implies dates.last().day_number <= #[trigger] dates[j].day_number by {
                        if j < p.len() {
                            assert(dates[j] == p[j]);
                        }
                    }
                    assert forall|j: int| 0 <= j < dates.len() - 1 implies dates.last().day_number < #[trigger] dates[j].day_number by {
                        assert(dates[j] == p[j]);
                    }
                } else {
                    assert(dates[k] == p[k]);
                    assert forall|j: int| 0 <= j < dates.len() implies e.day_number <= #[trigger] dates[j].day_number by {
                        if j < p.len() {
                            assert(dates[j] == p[j]);
                        }
                    }
                    assert forall|j: int| 0 <= j < k implies e.day_number < #[trigger] dates[j].day_number by {
                        assert(dates[j] == p[j]);
                    }
                }
            },
        }
    }
}

/// The earliest of the dates, if any.
pub fn earliest_release(dates: &Vec<ReleaseDate>) -> (res: Option<ReleaseDate>)
    ensures
        date_view(res) == earliest_of(date_views(dates@)),
{
    let ghost dv = date_views(dates@);
    let mut best: Option<ReleaseDate> = None;
    let mut i: usize = 0;
    while i < dates.len()
        invariant
            i <= dates@.len(),
            dv == date_views(dates@),
            date_view(best) == earliest_of(dv.take(i as int)),
        decreases dates@.len() - i,
    {
        proof {
            assert(dv.take(i + 1).drop_last() =~= dv.take(i as int));
            assert(dv.take(i + 1).last() == dates@[i as int]@);
        }
        let replace = match &best {
            None => true,
            Some(b) => dates[i].day_number < b.day_number,
        };
        if replace {
            best = Some(dates[i].duplicate());
        }
        i = i + 1;
    }
    assert(dv.take(dates@.len() as int) =~= dv);
    best
}

/// The normalized name is one of the AI tools' own credits.
pub fn is_ai_tool_denylisted(artist_name: &str) -> (r: bool)
    ensures
        r == is_denylisted(artist_name@),
{
    let normalized = normalize_artist_name(artist_name);
    normalized == "suno".to_owned() || normalized == "udio".to_owned()
}

/// A back-catalog that appears all at once rather than accumulating over
/// months/years: at least `BURST_MIN_ALBUMS` albums within `BURST_MAX_SPAN_DAYS`.
pub fn is_release_burst(dates: &[ReleaseDate]) -> (r: bool)
    ensures
        r == release_burst(date_views(dates@)),
{
    let ghost dv = date_views(dates@);
    if dates.len() < BURST_MIN_ALBUMS {
        return false;
    }
    let mut lo: i32 = dates[0].day_number;
    let mut hi: i32 = dates[0].day_number;
    let ghost mut lo_at: int = 0;
    let ghost mut hi_at: int = 0;
    let mut i: usize = 1;
    while i < dates.len()
        invariant
            1 <= i <= dates@.len(),
            dv == date_views(dates@),
            0 <= lo_at < i,
            0 <= hi_at < i,
            dv[lo_at].day_number == lo,
            dv[hi_at].day_number == hi,
            forall|j: int| 0 <= j < i ==> lo <= #[trigger] dv[j].day_number <= hi,
        decreases dates@.len() - i,
    {
        let d = dates[i].day_number;
        if d < lo {
            lo = d;
            proof {
                lo_at = i as int;
            }
        }
        if d > hi {
            hi = d;
            proof {
                hi_at = i as int;
            }
        }
        i = i + 1;
    }
    let span: i64 = hi as i64 - lo as i64;
    let r = span <= BURST_MAX_SPAN_DAYS;
    proof {
        if r {
            assert forall|a: int, b: int|
                0 <= a < dv.len() && 0 <= b < dv.len() implies #[trigger] dv[b].day_number
                - #[trigger] dv[a].day_number <= BURST_MAX_SPAN_DAYS by {
                assert(lo <= dv[a].day_number);
                assert(dv[b].day_number <= hi);
            }
        } else {
            assert(dv[hi_at].day_number - dv[lo_at].day_number > BURST_MAX_SPAN_DAYS);
        }
    }
    r
}

/// True if any of the artist's collections is credited to a *different* primary
/// artist name, i.e. this artist shows up as a featured collaborator on someone
/// else's release -- much harder to fake cheaply than solo-published volume.
pub fn has_third_party_corroboration(artist_name: &str, entries: &[AlbumEntry]) -> (r: bool)
    ensures
        r == third_party_credited(artist_name@, album_views(entries@)),
{
    let ghost av = album_views(entries@);
    let normalized = normalize_artist_name(artist_name);
    let mut i: usize = 0;
    while i < entries.len()
        invariant
            i <= entries@.len(),
            av == album_views(entries@),
            normalized@ == normalized_name(artist_name@),
            forall|j: int|
                0 <= j < i ==> !(#[trigger] av[j].artist_name is Some && normalized_name(av[j].artist_name->0)
                    != normalized_name(artist_name@)),
        decreases entries@.len() - i,
    {
        assert(av[i as int] == entries@[i as int]@);
        match &entries[i].artist_name {
            Some(name) => {
                let other = normalize_artist_name(name.as_str());
                if !(other == normalized) {
                    assert(av[i as int].artist_name == Some(name@));
                    assert(av[i as int].artist_name is Some && normalized_name(av[i as int].artist_name->0)
                        != normalized_name(artist_name@));
                    return true;
                }
            },
            None => {},
        }
        i = i + 1;
    }
    false
}

// ---------------------------------------------------------------------------
// The verdict.
// ---------------------------------------------------------------------------

/// Where a verdict came from.
#[derive(Debug, Clone, Copy, PartialEq, Eq, Structural)]
pub enum VerdictSource {
    /// The artist name is an AI tool's own credit.
    Denylist,
    /// The iTunes lookups.
    ItunesSearch,
}

/// The label a verdict's source is recorded under (method and evidence source).
pub open spec fn source_label(s: VerdictSource) -> Seq<char> {
    match s {
        VerdictSource::Denylist => "artist_name_denylist"@,
        VerdictSource::ItunesSearch => "itunes_search_api"@,
    }
}

impl VerdictSource {
    pub fn as_str(self) -> (res: &'static str)
        ensures
            res@ == source_label(self),
    {
        match self {
            VerdictSource::Denylist => "artist_name_denylist",
            VerdictSource::ItunesSearch => "itunes_search_api",
        }
    }
}

/// A classification verdict with the evidence it rests on.
pub struct Verdict {
    pub artist_id: String,
    pub artist_name: String,
    pub track_title: String,
    pub source: VerdictSource,
    pub is_flagged: bool,
    pub confidence: Confidence,
    pub resolution: Option<ArtistResolution>,
    pub match_method: MatchMethod,
    pub album_count: usize,
    pub earliest: Option<ReleaseDate>,
    pub release_burst: bool,
    pub third_party_corroboration: bool,
}

pub struct VerdictView {
    pub artist_id: Seq<char>,
    pub artist_name: Seq<char>,
    pub track_title: Seq<char>,
    pub source: VerdictSource,
    pub is_flagged: bool,
    pub confidence: Confidence,
    pub resolution: Option<ArtistResolutionView>,
    pub match_method: MatchMethod,
    pub album_count: nat,
    pub earliest: Option<ReleaseDateView>,
    pub release_burst: bool,
    pub third_party_corroboration: bool,
}

impl View for Verdict {
    type V = VerdictView;

    open spec fn view(&self) -> VerdictView {
        VerdictView {
            artist_id: self.artist_id@,
            artist_name: self.artist_name@,
            track_title: self.track_title@,
            source: self.source,
            is_flagged: self.is_flagged,
            confidence: self.confidence,
            resolution: resolution_view(self.resolution),
            match_method: self.match_method,
            album_count: self.album_count as nat,
            earliest: date_view(self.earliest),
            release_burst: self.release_burst,
            third_party_corroboration: self.third_party_corroboration,
        }
    }
}

/// The verdict for a denylisted name: flagged, high confidence, no lookups.
pub open spec fn denylist_verdict(req: ClassifyRequestView) -> VerdictView {
    VerdictView {
        artist_id: req.artist_id,
        artist_name: req.artist_name,
        track_title: req.track_title,
        source: VerdictSource::Denylist,
        is_flagged: true,
        confidence: Confidence::High,
        resolution: None,
        match_method: MatchMethod::Unresolved,
        album_count: 0,
        earliest: None,
        release_burst: false,
        third_party_corroboration: false,
    }
}

/// High: matched via the track-grounded song search with at least one dated
/// album. Medium: matched via the name-only artist search with at least one
/// dated album. Low: otherwise (unresolved, or resolved with no dated album,
/// including a failed album lookup).
pub open spec fn confidence_for(method: MatchMethod, dated: bool) -> Confidence {
    if !dated {
        Confidence::Low
    } else {
        match method {
            MatchMethod::SongGrounded => Confidence::High,
            MatchMethod::ArtistName => Confidence::Medium,
            MatchMethod::Unresolved => Confidence::Low,
        }
    }
}

/// The earliest release falls in 2025 or 2026.
pub open spec fn is_new_artist(earliest: Option<ReleaseDateView>) -> bool {
    match earliest {
        Some(d) => d.year == 2025 || d.year == 2026,
        None => false,
    }
}

/// Flagged: a brand-new release history that no third party corroborates, or a
/// release burst.
pub open spec fn flag_rule(new_artist: bool, corroborated: bool, burst: bool) -> bool {
    (new_artist && !corroborated) || burst
}

/// The views of an optional album list (`None`: the album lookup failed or was
/// never made).
pub open spec fn albums_view(a: Option<Vec<AlbumEntry>>) -> Option<Seq<AlbumEntryView>> {
    match a {
        Some(v) => Some(album_views(v@)),
        None => None,
    }
}

/// The verdict from the iTunes lookups: the resolution found (if any) and the
/// albums fetched for it (if the album lookup succeeded).
pub open spec fn itunes_verdict(
    req: ClassifyRequestView,
    resolution: Option<ArtistResolutionView>,
    albums: Option<Seq<AlbumEntryView>>,
) -> VerdictView {
    let method = match resolution {
        Some(r) => r.method,
        None => MatchMethod::Unresolved,
    };
    let (earliest, album_count, burst, corroborated) = match albums {
        Some(a) => (
            earliest_of(release_dates_of(a)),
            a.len(),
            release_burst(release_dates_of(a)),
            third_party_credited(req.artist_name, a),
        ),
        None => (None, 0nat, false, false),
    };
    VerdictView {
        artist_id: req.artist_id,
        artist_name: req.artist_name,
        track_title: req.track_title,
        source: VerdictSource::ItunesSearch,
        is_flagged: flag_rule(is_new_artist(earliest), corroborated, burst),
        confidence: confidence_for(method, earliest is Some),
        resolution,
        match_method: method,
        album_count,
        earliest,
        release_burst: burst,
        third_party_corroboration: corroborated,
    }
}

/// The verdict for a denylisted name.
pub fn denylisted_verdict(req: ClassifyRequest) -> (res: Verdict)
    ensures
        res@ == denylist_verdict(req@),
{
    Verdict {
        artist_id: req.artist_id,
        artist_name: req.artist_name,
        track_title: req.track_title,
        source: VerdictSource::Denylist,
        is_flagged: true,
        confidence: Confidence::High,
        resolution: None,
        match_method: MatchMethod::Unresolved,
        album_count: 0,
        earliest: None,
        release_burst: false,
        third_party_corroboration: false,
    }
}

/// The verdict from the iTunes lookups: resolve -> albums -> earliest date ->
/// confidence -> flag. A missing resolution, no dated album or a failed album
/// lookup still gives a verdict (low confidence, not flagged unless a burst says so).
pub fn decide(req: ClassifyRequest, resolution: Option<ArtistResolution>, albums: Option<Vec<AlbumEntry>>) -> (res:
    Verdict)
    ensures
        res@ == itunes_verdict(req@, resolution_view(resolution), albums_view(albums)),
{
    let method = match &resolution {
        Some(r) => r.method,
        None => MatchMethod::Unresolved,
    };
    let (earliest, album_count, burst, corroborated) = match &albums {
        Some(entries) => {
            let mut dates: Vec<ReleaseDate> = Vec::new();
            let ghost av = album_views(entries@);
            let mut i: usize = 0;
            while i < entries.len()
                invariant
                    i <= entries@.len(),
                    av == album_views(entries@),
                    date_views(dates@) == release_dates_of(av.take(i as int)),
                decreases entries@.len() - i,
            {
                let d = entries[i].release_date.duplicate();
                let ghost before = dates@;
                dates.push(d);
                proof {
                    assert(dates@ == before.push(d));
                    assert(date_views(before).len() == i);
                    assert(d@ == av[i as int].release_date);
                    assert forall|k: int| 0 <= k < i + 1 implies #[trigger] date_views(dates@)[k] == release_dates_of(av.take(i + 1))[k] by {
                        if k < i {
                            assert(date_views(dates@)[k] == date_views(before)[k]);
                            assert(release_dates_of(av.take(i + 1))[k] == release_dates_of(av.take(i as int))[k]);
                        }
                    }
                    assert(date_views(dates@) =~= release_dates_of(av.take(i + 1)));
                }
                i = i + 1;
            }
            assert(av.take(entries@.len() as int) =~= av);
            let earliest = earliest_release(&dates);
            let burst = is_release_burst(dates.as_slice());
            let corroborated = has_third_party_corroboration(req.artist_name.as_str(), entries.as_slice());
            (earliest, entries.len(), burst, corroborated)
        },
        None => (None, 0, false, false),
    };
    let confidence = if earliest.is_none() {
        Confidence::Low
    } else {
        match method {
            MatchMethod::SongGrounded => Confidence::High,
            MatchMethod::ArtistName => Confidence::Medium,
            MatchMethod::Unresolved => Confidence::Low,
        }
    };
    let new_artist = match &earliest {
        Some(d) => d.year == 2025 || d.year == 2026,
        None => false,
    };
    let is_flagged = (new_artist && !corroborated) || burst;
    Verdict {
        artist_id: req.artist_id,
        artist_name: req.artist_name,
        track_title: req.track_title,
        source: VerdictSource::ItunesSearch,
        is_flagged,
        confidence,
        resolution,
        match_method: method,
        album_count,
        earliest,
        release_burst: burst,
        third_party_corroboration: corroborated,
    }
}

// ---------------------------------------------------------------------------
// The pipeline: which lookup comes next, and the verdict at the end.
// ---------------------------------------------------------------------------

/// A search the pipeline is waiting on: the song search grounded in the played
/// track.
pub struct SongSearch {
    request: ClassifyRequest,
    url: String,
}

/// A search the pipeline is waiting on: the name-only artist search.
pub struct ArtistSearch {
    request: ClassifyRequest,
    url: String,
}

/// The album lookup the pipeline is waiting on, for a resolved artist.
pub struct AlbumFetch {
    request: ClassifyRequest,
    resolution: ArtistResolution,
    url: String,
}

/// The next step of a classification: a lookup to make (whose outcome the
/// waiting state takes), or the verdict to record.
pub enum ClassifyStep {
    SearchSongs(SongSearch),
    SearchArtists(ArtistSearch),
    FetchAlbums(AlbumFetch),
    Record(Verdict),
}

pub enum StepView {
    SearchSongs { request: ClassifyRequestView, url: Seq<char> },
    SearchArtists { request: ClassifyRequestView, url: Seq<char> },
    FetchAlbums { request: ClassifyRequestView, resolution: ArtistResolutionView, url: Seq<char> },
    Record(VerdictView),
}

impl SongSearch {
    pub closed spec fn request_view(&self) -> ClassifyRequestView {
        self.request@
    }

    pub closed spec fn url_view(&self) -> Seq<char> {
        self.url@
    }
}

impl ArtistSearch {
    pub closed spec fn request_view(&self) -> ClassifyRequestView {
        self.request@
    }

    pub closed spec fn url_view(&self) -> Seq<char> {
        self.url@
    }
}

impl AlbumFetch {
    pub closed spec fn request_view(&self) -> ClassifyRequestView {
        self.request@
    }

    pub closed spec fn resolution_view(&self) -> ArtistResolutionView {
        self.resolution@
    }

    pub closed spec fn url_view(&self) -> Seq<char> {
        self.url@
    }
}

impl View for ClassifyStep {
    type V = StepView;

    open spec fn view(&self) -> StepView {
        match self {
            ClassifyStep::SearchSongs(s) => StepView::SearchSongs { request: s.request_view(), url: s.url_view() },
            ClassifyStep::SearchArtists(s) => StepView::SearchArtists {
                request: s.request_view(),
                url: s.url_view(),
            },
            ClassifyStep::FetchAlbums(f) => StepView::FetchAlbums {
                request: f.request_view(),
                resolution: f.resolution_view(),
                url: f.url_view(),
            },
            ClassifyStep::Record(v) => StepView::Record(v@),
        }
    }
}

/// The view of an optional list of search results (`None`: the search failed).
pub open spec fn results_view(r: Option<Vec<SearchResult>>) -> Option<Seq<SearchResultView>> {
    match r {
        Some(v) => Some(result_views(v@)),
        None => None,
    }
}

/// The album lookup for a resolved artist.
pub open spec fn fetch_albums_step(req: ClassifyRequestView, r: ArtistResolutionView) -> StepView {
    StepView::FetchAlbums { request: req, resolution: r, url: album_lookup_url(r.itunes_artist_id) }
}

/// The first step: a denylisted name is recorded at once; otherwise the song
/// search grounded in the played track comes first.
pub open spec fn start_step(req: ClassifyRequestView) -> StepView {
    if is_denylisted(req.artist_name) {
        StepView::Record(denylist_verdict(req))
    } else {
        StepView::SearchSongs { request: req, url: song_search_url(req.artist_name, req.track_title) }
    }
}

/// After the song search: a failed search leaves the artist unresolved; a
/// matching song resolves it (song-grounded); no match falls back to the
/// name-only artist search.
pub open spec fn after_song_search(req: ClassifyRequestView, results: Option<Seq<SearchResultView>>) -> StepView {
    match results {
        None => StepView::Record(itunes_verdict(req, None, None)),
        Some(rs) => match first_hit(rs, req.artist_name, MatchMethod::SongGrounded) {
            Some(r) => fetch_albums_step(req, r),
            None => StepView::SearchArtists { request: req, url: artist_search_url(req.artist_name) },
        },
    }
}

/// After the artist search: a match resolves the artist (by name); a failed
/// search or no match leaves it unresolved.
pub open spec fn after_artist_search(req: ClassifyRequestView, results: Option<Seq<SearchResultView>>) -> StepView {
    match results {
        None => StepView::Record(itunes_verdict(req, None, None)),
        Some(rs) => match first_hit(rs, req.artist_name, MatchMethod::ArtistName) {
            Some(r) => fetch_albums_step(req, r),
            None => StepView::Record(itunes_verdict(req, None, None)),
        },
    }
}

/// Starts classifying an artist that has no stored verdict.
pub fn classify_start(req: ClassifyRequest) -> (res: ClassifyStep)
    ensures
        res@ == start_step(req@),
{
    if is_ai_tool_denylisted(req.artist_name.as_str()) {
        ClassifyStep::Record(denylisted_verdict(req))
    } else {
        let url = song_search_request(req.artist_name.as_str(), req.track_title.as_str());
        ClassifyStep::SearchSongs(SongSearch { request: req, url })
    }
}

/// The step after a match: fetch the resolved artist's albums.
fn fetch_albums(request: ClassifyRequest, resolution: ArtistResolution) -> (res: ClassifyStep)
    ensures
        res@ == fetch_albums_step(request@, resolution@),
{
    let url = album_lookup_request(resolution.itunes_artist_id);
    ClassifyStep::FetchAlbums(AlbumFetch { request, resolution, url })
}

impl SongSearch {
    /// The search URL to fetch.
    pub fn url(&self) -> (res: &str)
        ensures
            res@ == self.url_view(),
    {
        self.url.as_str()
    }

    /// Takes the search results (`None` when the request failed).
    pub fn on_results(self, results: Option<Vec<SearchResult>>) -> (res: ClassifyStep)
        ensures
            res@ == after_song_search(self.request_view(), results_view(results)),
    {
        match results {
            None => ClassifyStep::Record(decide(self.request, None, None)),
            Some(rs) => {
                match best_match(&rs, self.request.artist_name.as_str(), MatchMethod::SongGrounded) {
                    Some(r) => fetch_albums(self.request, r),
                    None => {
                        let url = artist_search_request(self.request.artist_name.as_str());
                        ClassifyStep::SearchArtists(ArtistSearch { request: self.request, url })
                    },
                }
            },
        }
    }
}

impl ArtistSearch {
    /// The search URL to fetch.
    pub fn url(&self) -> (res: &str)
        ensures
            res@ == self.url_view(),
    {
        self.url.as_str()
    }

    /// Takes the search results (`None` when the request failed).
    pub fn on_results(self, results: Option<Vec<SearchResult>>) -> (res: ClassifyStep)
        ensures
            res@ == after_artist_search(self.request_view(), results_view(results)),
    {
        match results {
            None => ClassifyStep::Record(decide(self.request, None, None)),
            Some(rs) => {
                match best_match(&rs, self.request.artist_name.as_str(), MatchMethod::ArtistName) {
                    Some(r) => fetch_albums(self.request, r),
                    None => ClassifyStep::Record(decide(self.request, None, None)),
                }
            },
        }
    }
}

impl AlbumFetch {
    /// The lookup URL to fetch.
    pub fn url(&self) -> (res: &str)
        ensures
            res@ == self.url_view(),
    {
        self.url.as_str()
    }

    /// The iTunes artist id the lookup is for.
    pub fn itunes_artist_id(&self) -> (res: i64)
        ensures
            res == self.resolution_view().itunes_artist_id,
    {
        self.resolution.itunes_artist_id
    }

    /// Takes the artist's albums (`None` when the lookup failed) and gives the verdict.
    pub fn on_albums(self, albums: Option<Vec<AlbumEntry>>) -> (res: ClassifyStep)
        ensures
            res@ == StepView::Record(
                itunes_verdict(self.request_view(), Some(self.resolution_view()), albums_view(albums)),
            ),
    {
        ClassifyStep::Record(decide(self.request, Some(self.resolution), albums))
    }
}

// ---------------------------------------------------------------------------
// Laws.
// ---------------------------------------------------------------------------

/// A denylisted name is flagged at once, with high confidence and no lookup.
pub proof fn law_denylisted_flagged_without_lookup(req: ClassifyRequestView)
    requires
        is_denylisted(req.artist_name),
    ensures
        start_step(req) matches StepView::Record(v) && v.is_flagged && v.confidence == Confidence::High
            && v.source == VerdictSource::Denylist,
{
}

/// Every artist gets a verdict. The first step is a verdict or the song search;
/// the song search never leads to itself; the artist search leads to the verdict
/// or to the album lookup, whose outcome `AlbumFetch::on_albums` turns into the
/// verdict. So a classification records a verdict after at most three lookups,
/// whatever they return.
pub proof fn law_every_artist_gets_a_verdict(req: ClassifyRequestView, results: Option<Seq<SearchResultView>>)
    ensures
        !(after_song_search(req, results) is SearchSongs),
        after_artist_search(req, results) is Record || after_artist_search(req, results) is FetchAlbums,
        !(start_step(req) is SearchArtists) && !(start_step(req) is FetchAlbums),
{
}

/// An artist that stays unresolved (or whose lookups fail) is recorded as not
/// flagged, with low confidence.
pub proof fn law_unresolved_not_flagged(req: ClassifyRequestView)
    ensures
        !itunes_verdict(req, None, None).is_flagged,
        itunes_verdict(req, None, None).confidence == Confidence::Low,
        itunes_verdict(req, None, None).earliest is None,
{
}

/// Confidence follows the match: with a dated album, a song-grounded match is
/// High and a name-only match Medium; with no dated album (none found, or the
/// album lookup failed) any match is Low; and a resolved artist never ranks
/// below an unresolved one.
pub proof fn law_confidence_order(
    req: ClassifyRequestView,
    r: ArtistResolutionView,
    albums: Option<Seq<AlbumEntryView>>,
)
    ensures
        r.method == MatchMethod::SongGrounded && itunes_verdict(req, Some(r), albums).earliest is Some
            ==> itunes_verdict(req, Some(r), albums).confidence == Confidence::High,
        r.method == MatchMethod::ArtistName && itunes_verdict(req, Some(r), albums).earliest is Some
            ==> itunes_verdict(req, Some(r), albums).confidence == Confidence::Medium,
        itunes_verdict(req, Some(r), albums).earliest is None ==> itunes_verdict(req, Some(r), albums).confidence
            == Confidence::Low,
        confidence_rank(itunes_verdict(req, None, None).confidence) <= confidence_rank(
            itunes_verdict(req, Some(r), albums).confidence,
        ),
{
}

/// A release burst flags the artist whatever else holds; otherwise the artist
/// is flagged exactly when its earliest release falls in 2025 or 2026 and no
/// third party credits it.
pub proof fn law_flag_rule(req: ClassifyRequestView, r: ArtistResolutionView, albums: Seq<AlbumEntryView>)
    ensures
        release_burst(release_dates_of(albums)) ==> itunes_verdict(req, Some(r), Some(albums)).is_flagged,
        !release_burst(release_dates_of(albums)) ==> (itunes_verdict(req, Some(r), Some(albums)).is_flagged
            <==> (is_new_artist(earliest_of(release_dates_of(albums))) && !third_party_credited(
            req.artist_name,
            albums,
        ))),
{
}

/// Fewer than five albums are never a burst.
pub proof fn law_burst_needs_five_albums(dates: Seq<ReleaseDateView>)
    requires
        dates.len() < 5,
    ensures
        !release_burst(dates),
{
}

proof fn lemma_burst_transfer(d1: Seq<ReleaseDateView>, d2: Seq<ReleaseDateView>)
    requires
        d1.to_multiset() == d2.to_multiset(),
        release_burst(d1),
    ensures
        release_burst(d2),
{
    d1.to_multiset_ensures();
    d2.to_multiset_ensures();
    assert(d1.len() == d2.len());
    assert forall|i: int, j: int| 0 <= i < d2.len() && 0 <= j < d2.len() implies #[trigger] d2[j].day_number
        - #[trigger] d2[i].day_number <= BURST_MAX_SPAN_DAYS by {
        assert(d2.contains(d2[i]));
        assert(d2.contains(d2[j]));
        assert(d2.to_multiset().count(d2[i]) > 0);
        assert(d2.to_multiset().count(d2[j]) > 0);
        assert(d1.contains(d2[i]));
        assert(d1.contains(d2[j]));
        let a = choose|a: int| 0 <= a < d1.len() && d1[a] == d2[i];
        let b = choose|b: int| 0 <= b < d1.len() && d1[b] == d2[j];
        assert(d1[b].day_number - d1[a].day_number <= BURST_MAX_SPAN_DAYS);
    }
}

/// Burst detection does not depend on the order of the dates: two lists holding
/// the same dates (as multisets) are both bursts or neither.
pub proof fn law_burst_order_independent(d1: Seq<ReleaseDateView>, d2: Seq<ReleaseDateView>)
    requires
        d1.to_multiset() == d2.to_multiset(),
    ensures
        release_burst(d1) == release_burst(d2),
{
    if release_burst(d1) {
        lemma_burst_transfer(d1, d2);
    }
    if release_burst(d2) {
        lemma_burst_transfer(d2, d1);
    }
}

/// The earliest release date is one of the album dates and no album is
/// earlier.
pub proof fn law_earliest_is_minimum(dates: Seq<ReleaseDateView>)
    ensures
        dates.len() > 0 ==> earliest_of(dates) is Some,
        earliest_of(dates) matches Some(e) ==> dates.contains(e) && forall|j: int|
            0 <= j < dates.len() ==> e.day_number <= #[trigger] dates[j].day_number,
{
    lemma_earliest_of(dates);
    if let Some(e) = earliest_of(dates) {
        let k = choose|k: int|
            0 <= k < dates.len() && dates[k] == e && (forall|j: int|
                0 <= j < dates.len() ==> e.day_number <= #[trigger] dates[j].day_number) && (forall|j: int|
                0 <= j < k ==> e.day_number < #[trigger] dates[j].day_number);
        assert(dates[k] == e);
    }
}

/// Third-party corroboration looks at every album, the first included: no
/// albums corroborate nothing; a single album corroborates exactly when it is
/// credited to a name that normalizes differently from the artist's; and a list
/// split in two is corroborated exactly when one of its parts is. So an album
/// at any position credited to another artist corroborates the artist.
pub proof fn law_corroboration_checks_every_album(
    artist_name: Seq<char>,
    xs: Seq<AlbumEntryView>,
    ys: Seq<AlbumEntryView>,
    a: AlbumEntryView,
)
    ensures
        !third_party_credited(artist_name, Seq::<AlbumEntryView>::empty()),
        third_party_credited(artist_name, seq![a]) <==> (a.artist_name is Some && normalized_name(
            a.artist_name->0,
        ) != normalized_name(artist_name)),
        third_party_credited(artist_name, xs + ys) <==> (third_party_credited(artist_name, xs)
            || third_party_credited(artist_name, ys)),
        forall|k: int|
            0 <= k < xs.len() && #[trigger] xs[k].artist_name is Some && normalized_name(xs[k].artist_name->0)
                != normalized_name(artist_name) ==> third_party_credited(artist_name, xs),
{
    let one = seq![a];
    if a.artist_name is Some && normalized_name(a.artist_name->0) != normalized_name(artist_name) {
        assert(one[0] == a);
    }
    let zs = xs + ys;
    if third_party_credited(artist_name, zs) {
        let i = choose|i: int|
            0 <= i < zs.len() && #[trigger] zs[i].artist_name is Some && normalized_name(zs[i].artist_name->0)
                != normalized_name(artist_name);
        if i < xs.len() {
            assert(zs[i] == xs[i]);
        } else {
            assert(zs[i] == ys[i - xs.len()]);
        }
    }
    if third_party_credited(artist_name, xs) {
        let i = choose|i: int|
            0 <= i < xs.len() && #[trigger] xs[i].artist_name is Some && normalized_name(xs[i].artist_name->0)
                != normalized_name(artist_name);
        assert(zs[i] == xs[i]);
    }
    if third_party_credited(artist_name, ys) {
        let i = choose|i: int|
            0 <= i < ys.len() && #[trigger] ys[i].artist_name is Some && normalized_name(ys[i].artist_name->0)
                != normalized_name(artist_name);
        assert(zs[i + xs.len()] == ys[i]);
    }
}

/// What a search result resolves: the first result, in order, that has an id
/// and a name matching the sought artist under normalization; none when no
/// result does.
proof fn lemma_first_hit(results: Seq<SearchResultView>, artist_name: Seq<char>, method: MatchMethod)
    ensures
        first_hit(results, artist_name, method) matches Some(r) ==> exists|k: int|
            0 <= k < results.len() && #[trigger] is_hit(results[k], artist_name) && (forall|j: int|
                0 <= j < k ==> !#[trigger] is_hit(results[j], artist_name)) && results[k].artist_id == Some(
                r.itunes_artist_id,
            ) && results[k].artist_name == Some(r.matched_artist_name) && r.method == method,
        first_hit(results, artist_name, method) is None ==> forall|j: int|
            0 <= j < results.len() ==> !#[trigger] is_hit(results[j], artist_name),
    decreases results.len(),
{
    if results.len() > 0 {
        let rest = results.drop_first();
        lemma_first_hit(rest, artist_name, method);
        if is_hit(results[0], artist_name) {
            assert(forall|j: int| 0 <= j < 0 ==> !#[trigger] is_hit(results[j], artist_name));
        } else {
            if let Some(r) = first_hit(rest, artist_name, method) {
                let k = choose|k: int|
                    0 <= k < rest.len() && #[trigger] is_hit(rest[k], artist_name) && (forall|j: int|
                        0 <= j < k ==> !#[trigger] is_hit(rest[j], artist_name)) && rest[k].artist_id == Some(
                        r.itunes_artist_id,
                    ) && rest[k].artist_name == Some(r.matched_artist_name) && r.method == method;
                assert(results[k + 1] == rest[k]);
                assert forall|j: int| 0 <= j < k + 1 implies !#[trigger] is_hit(results[j], artist_name) by {
                    if j > 0 {
                        assert(results[j] == rest[j - 1]);
                    }
                }
            } else {
                assert forall|j: int| 0 <= j < results.len() implies !#[trigger] is_hit(results[j], artist_name) by {
                    if j > 0 {
                        assert(results[j] == rest[j - 1]);
                    }
                }
            }
        }
    }
}

/// Either the step is no album lookup, or the lookup is for the first result
/// that has an id and a name normalizing to the sought artist's, with that id and
/// name.
pub open spec fn fetched_for_first_match(step: StepView, req: ClassifyRequestView, rs: Seq<SearchResultView>) -> bool {
    step matches StepView::FetchAlbums { resolution: r, .. } ==> exists|k: int|
        0 <= k < rs.len() && #[trigger] rs[k].artist_id == Some(r.itunes_artist_id) && rs[k].artist_name == Some(
            r.matched_artist_name,
        ) && normalized_name(r.matched_artist_name) == normalized_name(req.artist_name) && (forall|j: int|
            0 <= j < k ==> !(#[trigger] rs[j].artist_id is Some && rs[j].artist_name is Some && normalized_name(
                rs[j].artist_name->0,
            ) == normalized_name(req.artist_name)))
}

proof fn lemma_fetch_for_first_match(req: ClassifyRequestView, rs: Seq<SearchResultView>, method: MatchMethod)
    ensures
        first_hit(rs, req.artist_name, method) matches Some(r) ==> fetched_for_first_match(
            fetch_albums_step(req, r),
            req,
            rs,
        ),
{
    lemma_first_hit(rs, req.artist_name, method);
    if let Some(r) = first_hit(rs, req.artist_name, method) {
        let k = choose|k: int|
            0 <= k < rs.len() && #[trigger] is_hit(rs[k], req.artist_name) && (forall|j: int|
                0 <= j < k ==> !#[trigger] is_hit(rs[j], req.artist_name)) && rs[k].artist_id == Some(
                r.itunes_artist_id,
            ) && rs[k].artist_name == Some(r.matched_artist_name) && r.method == method;
        assert forall|j: int| 0 <= j < k implies !(#[trigger] rs[j].artist_id is Some && rs[j].artist_name is Some
            && normalized_name(rs[j].artist_name->0) == normalized_name(req.artist_name)) by {
            assert(!is_hit(rs[j], req.artist_name));
        }
        assert(rs[k].artist_id == Some(r.itunes_artist_id));
    }
}

/// A search resolves the artist only through a result whose name matches it.
/// After either search, albums are fetched only for a result that has an id and
/// a name normalizing to the sought artist's, and it is the first such result;
/// after the name-only artist search with no such result, the artist is recorded
/// unresolved: not flagged, low confidence.
pub proof fn law_search_resolves_only_matching_names(req: ClassifyRequestView, rs: Seq<SearchResultView>)
    ensures
        fetched_for_first_match(after_artist_search(req, Some(rs)), req, rs),
        fetched_for_first_match(after_song_search(req, Some(rs)), req, rs),
        after_artist_search(req, Some(rs)) matches StepView::FetchAlbums { resolution: r, .. } ==> r.method
            == MatchMethod::ArtistName,
        after_song_search(req, Some(rs)) matches StepView::FetchAlbums { resolution: r, .. } ==> r.method
            == MatchMethod::SongGrounded,
        (forall|j: int|
            0 <= j < rs.len() ==> !(#[trigger] rs[j].artist_id is Some && rs[j].artist_name is Some
                && normalized_name(rs[j].artist_name->0) == normalized_name(req.artist_name)))
            ==> (after_artist_search(req, Some(rs)) matches StepView::Record(v) && v.match_method
            == MatchMethod::Unresolved && v.resolution is None && !v.is_flagged && v.confidence
            == Confidence::Low),
        (exists|j: int|
            0 <= j < rs.len() && #[trigger] rs[j].artist_id is Some && rs[j].artist_name is Some
                && normalized_name(rs[j].artist_name->0) == normalized_name(req.artist_name))
            ==> after_artist_search(req, Some(rs)) is FetchAlbums && after_song_search(req, Some(rs)) is FetchAlbums,
{
    lemma_first_hit(rs, req.artist_name, MatchMethod::ArtistName);
    lemma_first_hit(rs, req.artist_name, MatchMethod::SongGrounded);
    lemma_fetch_for_first_match(req, rs, MatchMethod::ArtistName);
    lemma_fetch_for_first_match(req, rs, MatchMethod::SongGrounded);
    if exists|j: int|
        0 <= j < rs.len() && #[trigger] rs[j].artist_id is Some && rs[j].artist_name is Some
            && normalized_name(rs[j].artist_name->0) == normalized_name(req.artist_name) {
        let j = choose|j: int|
            0 <= j < rs.len() && #[trigger] rs[j].artist_id is Some && rs[j].artist_name is Some
                && normalized_name(rs[j].artist_name->0) == normalized_name(req.artist_name);
        assert(is_hit(rs[j], req.artist_name));
    }
    assert forall|j: int| 0 <= j < rs.len() && !#[trigger] is_hit(rs[j], req.artist_name) implies !(
    rs[j].artist_id is Some && rs[j].artist_name is Some && normalized_name(rs[j].artist_name->0)
        == normalized_name(req.artist_name)) by {}
}

} // verus!
