//! Corroborating evidence from MusicBrainz: the recording search grounded in the
//! played track, picking the credited artist, and what the artist lookup shows.

use crate::itunes::{opt_str, percent_encode, url_encode};
use crate::text::{chars_of, concat, names_match, normalized_name, string_from_chars};
use vstd::prelude::*;
use vstd::utf8::encode_utf8;

verus! {

/// Corroborating evidence found on MusicBrainz for an artist.
#[derive(Debug, Clone, Copy, PartialEq, Eq, Structural)]
pub struct MbCorroboration {
    /// The track was found as a recording credited to this artist.
    pub found: bool,
    /// MusicBrainz records a formation/birth date for this identity.
    pub has_life_span: bool,
    /// MusicBrainz has at least one external URL relationship on file.
    pub has_external_links: bool,
}

impl Default for MbCorroboration {
    fn default() -> (res: Self)
        ensures
            !res.found && !res.has_life_span && !res.has_external_links,
    {
        MbCorroboration { found: false, has_life_span: false, has_external_links: false }
    }
}

impl MbCorroboration {
    /// A documented life-span or an external link counts as corroboration.
    pub fn any(self) -> (r: bool)
        ensures
            r == (self.has_life_span || self.has_external_links),
    {
        self.has_life_span || self.has_external_links
    }
}

/// An artist credited on a recording.
pub struct CreditedArtist {
    pub id: String,
    pub name: String,
}

pub struct CreditedArtistView {
    pub id: Seq<char>,
    pub name: Seq<char>,
}

impl View for CreditedArtist {
    type V = CreditedArtistView;

    open spec fn view(&self) -> CreditedArtistView {
        CreditedArtistView { id: self.id@, name: self.name@ }
    }
}

/// A recording found by the search, with its artist credits.
pub struct RecordingResult {
    pub artist_credit: Vec<CreditedArtist>,
}

/// The views of a recording's credits.
pub open spec fn credit_views(v: Seq<CreditedArtist>) -> Seq<CreditedArtistView> {
    v.map_values(|c: CreditedArtist| c@)
}

/// The credits of each recording.
pub open spec fn recording_views(v: Seq<RecordingResult>) -> Seq<Seq<CreditedArtistView>> {
    v.map_values(|r: RecordingResult| credit_views(r.artist_credit@))
}

/// Every credit of every recording, in order.
pub open spec fn all_credits(recs: Seq<Seq<CreditedArtistView>>) -> Seq<CreditedArtistView> {
    recs.flatten()
}

/// The id of the first credit whose name matches `artist_name` under
/// normalization.
pub open spec fn first_credit_match(credits: Seq<CreditedArtistView>, artist_name: Seq<char>) -> Option<Seq<char>>
    decreases credits.len(),
{
    if credits.len() == 0 {
        None
    } else if normalized_name(credits[0].name) == normalized_name(artist_name) {
        Some(credits[0].id)
    } else {
        first_credit_match(credits.drop_first(), artist_name)
    }
}

/// What a MusicBrainz artist lookup shows: the life-span (with its begin date,
/// if any) and how many URL relationships are on file.
pub struct LifeSpan {
    pub begin: Option<String>,
}

pub struct ArtistLookup {
    pub life_span: Option<LifeSpan>,
    pub relation_count: usize,
}

/// `s` without double quotes.
pub open spec fn strip_quotes(s: Seq<char>) -> Seq<char> {
    s.filter(|c: char| c != '"')
}

/// The recording search query: `recording:"<track>" AND artist:"<artist>"`, with
/// double quotes removed from both.
pub open spec fn recording_query(artist_name: Seq<char>, track_title: Seq<char>) -> Seq<char> {
    "recording:\""@ + strip_quotes(track_title) + "\" AND artist:\""@ + strip_quotes(artist_name) + "\""@
}

/// The recording search URL.
pub open spec fn recording_search_url(artist_name: Seq<char>, track_title: Seq<char>) -> Seq<char> {
    "https://musicbrainz.org/ws/2/recording/?query="@ + percent_encode(
        encode_utf8(recording_query(artist_name, track_title)),
    ) + "&fmt=json&limit=10"@
}

/// The artist lookup URL, with URL relationships included.
pub open spec fn artist_lookup_url(id: Seq<char>) -> Seq<char> {
    "https://musicbrainz.org/ws/2/artist/"@ + id + "?inc=url-rels&fmt=json"@
}

/// `s` without double quotes.
fn remove_quotes(s: &str) -> (res: String)
    ensures
        res@ == strip_quotes(s@),
{
    let chars = chars_of(s);
    let mut out: Vec<char> = Vec::new();
    let mut i: usize = 0;
    while i < chars.len()
        invariant
            i <= chars@.len(),
            chars@ == s@,
            out@ == strip_quotes(chars@.take(i as int)),
        decreases chars@.len() - i,
    {
        proof {
            reveal_with_fuel(Seq::<_>::filter, 1);
            assert(chars@.take(i + 1).drop_last() =~= chars@.take(i as int));
        }
        if chars[i] != '"' {
            out.push(chars[i]);
        }
        i = i + 1;
    }
    assert(chars@.take(chars@.len() as int) =~= chars@);
    string_from_chars(&out)
}

/// The recording search grounded in the played track.
pub fn recording_search_request(artist_name: &str, track_title: &str) -> (res: String)
    ensures
        res@ == recording_search_url(artist_name@, track_title@),
{
    let track = remove_quotes(track_title);
    let artist = remove_quotes(artist_name);
    let q1 = concat("recording:\"", track.as_str());
    let q2 = concat(q1.as_str(), "\" AND artist:\"");
    let q3 = concat(q2.as_str(), artist.as_str());
    let query = concat(q3.as_str(), "\"");
    let encoded = url_encode(query.as_str());
    let head = concat("https://musicbrainz.org/ws/2/recording/?query=", encoded.as_str());
    concat(head.as_str(), "&fmt=json&limit=10")
}

/// The artist lookup for a matched MusicBrainz artist id.
pub fn artist_lookup_request(id: &str) -> (res: String)
    ensures
        res@ == artist_lookup_url(id@),
{
    let head = concat("https://musicbrainz.org/ws/2/artist/", id);
    concat(head.as_str(), "?inc=url-rels&fmt=json")
}

proof fn lemma_first_credit_match_skip(
    x: Seq<CreditedArtistView>,
    rest: Seq<CreditedArtistView>,
    artist_name: Seq<char>,
)
    requires
        x.len() > 0,
        normalized_name(x[0].name) != normalized_name(artist_name),
    ensures
        first_credit_match(x + rest, artist_name) == first_credit_match(x.drop_first() + rest, artist_name),
{
    assert((x + rest).drop_first() =~= x.drop_first() + rest);
    assert((x + rest)[0] == x[0]);
}

/// The id of the first credited artist, across all recordings in order, whose
/// name matches `artist_name` (case- and diacritic-insensitively).
pub fn matched_artist_id(recordings: &Vec<RecordingResult>, artist_name: &str) -> (res: Option<String>)
    ensures
        opt_str(res) == first_credit_match(all_credits(recording_views(recordings@)), artist_name@),
{
    let ghost rv = recording_views(recordings@);
    let mut i: usize = 0;
    assert(rv.subrange(0, rv.len() as int) =~= rv);
    while i < recordings.len()
        invariant
            i <= recordings@.len(),
            rv == recording_views(recordings@),
            first_credit_match(all_credits(rv), artist_name@) == first_credit_match(
                all_credits(rv.subrange(i as int, rv.len() as int)),
                artist_name@,
            ),
        decreases recordings@.len() - i,
    {
        let credits = &recordings[i].artist_credit;
        let ghost cv = credit_views(credits@);
        let ghost tail = all_credits(rv.subrange(i + 1, rv.len() as int));
        proof {
            let sub = rv.subrange(i as int, rv.len() as int);
            assert(sub[0] == cv);
            assert(sub.drop_first() =~= rv.subrange(i + 1, rv.len() as int));
            assert(all_credits(sub) == cv + tail);
            assert(cv.subrange(0, cv.len() as int) =~= cv);
        }
        let mut j: usize = 0;
        while j < credits.len()
            invariant
                j <= credits@.len(),
                rv == recording_views(recordings@),
                cv == credit_views(credits@),
                first_credit_match(all_credits(rv), artist_name@) == first_credit_match(
                    cv.subrange(j as int, cv.len() as int) + tail,
                    artist_name@,
                ),
            decreases credits@.len() - j,
        {
            let c = &credits[j];
            let ghost x = cv.subrange(j as int, cv.len() as int);
            assert(x[0] == c@);
            if names_match(c.name.as_str(), artist_name) {
                assert((x + tail)[0] == c@);
                assert((x + tail).len() > 0);
                assert(first_credit_match(x + tail, artist_name@) == Some(c@.id));
                return Some(c.id.clone());
            }
            proof {
                lemma_first_credit_match_skip(x, tail, artist_name@);
                assert(x.drop_first() =~= cv.subrange(j + 1, cv.len() as int));
            }
            j = j + 1;
        }
        assert(cv.subrange(credits@.len() as int, cv.len() as int) + tail =~= tail);
        i = i + 1;
    }
    None
}

/// What the artist lookup corroborates: a life-span with a begin date, and any
/// URL relationship.
pub open spec fn corroboration_of(has_begin: bool, relation_count: nat) -> MbCorroboration {
    MbCorroboration { found: true, has_life_span: has_begin, has_external_links: relation_count > 0 }
}

/// The life-span of the lookup has a begin date.
pub open spec fn has_begin(lookup: ArtistLookup) -> bool {
    match lookup.life_span {
        Some(l) => l.begin is Some,
        None => false,
    }
}

/// The corroboration an artist lookup shows.
pub fn corroboration_from_lookup(lookup: &ArtistLookup) -> (res: MbCorroboration)
    ensures
        res == corroboration_of(has_begin(*lookup), lookup.relation_count as nat),
        res.found,
        res.has_external_links == (lookup.relation_count >= 1),
        res.has_life_span == (lookup.life_span matches Some(l) && l.begin is Some),
{
    let has_life_span = match &lookup.life_span {
        Some(l) => l.begin.is_some(),
        None => false,
    };
    MbCorroboration { found: true, has_life_span, has_external_links: lookup.relation_count > 0 }
}

/// The recording search the lookup is waiting on.
pub struct RecordingSearch {
    artist_name: String,
    url: String,
}

/// The artist lookup the lookup is waiting on.
pub struct ArtistFetch {
    url: String,
}

/// The next step of a MusicBrainz lookup.
pub enum MbLookupStep {
    FetchArtist(ArtistFetch),
    Done(MbCorroboration),
}

impl RecordingSearch {
    pub closed spec fn artist_view(&self) -> Seq<char> {
        self.artist_name@
    }

    pub closed spec fn url_view(&self) -> Seq<char> {
        self.url@
    }

    /// The search URL to fetch.
    pub fn url(&self) -> (res: &str)
        ensures
            res@ == self.url_view(),
    {
        self.url.as_str()
    }

    /// Takes the recordings found: with no credited artist matching, nothing is
    /// corroborated; otherwise the matched artist is looked up.
    pub fn on_results(self, recordings: &Vec<RecordingResult>) -> (res: MbLookupStep)
        ensures
            match first_credit_match(all_credits(recording_views(recordings@)), self.artist_view()) {
                None => res == MbLookupStep::Done(
                    MbCorroboration { found: false, has_life_span: false, has_external_links: false },
                ),
                Some(id) => res matches MbLookupStep::FetchArtist(f) && f.url_view() == artist_lookup_url(id),
            },
    {
        match matched_artist_id(recordings, self.artist_name.as_str()) {
            None => MbLookupStep::Done(MbCorroboration::default()),
            Some(id) => MbLookupStep::FetchArtist(ArtistFetch { url: artist_lookup_request(id.as_str()) }),
        }
    }
}

impl ArtistFetch {
    pub closed spec fn url_view(&self) -> Seq<char> {
        self.url@
    }

    /// The lookup URL to fetch.
    pub fn url(&self) -> (res: &str)
        ensures
            res@ == self.url_view(),
    {
        self.url.as_str()
    }

    /// Takes the artist lookup and gives the corroboration it shows.
    pub fn on_lookup(self, lookup: &ArtistLookup) -> (res: MbCorroboration)
        ensures
            res == corroboration_of(has_begin(*lookup), lookup.relation_count as nat),
            res.has_external_links == (lookup.relation_count >= 1),
    {
        corroboration_from_lookup(lookup)
    }
}

/// Searches MusicBrainz for a recording matching both `track_title` and
/// `artist_name` together, grounding the match in the track being played.
pub fn lookup_start(artist_name: &str, track_title: &str) -> (res: RecordingSearch)
    ensures
        res.artist_view() == artist_name@,
        res.url_view() == recording_search_url(artist_name@, track_title@),
{
    RecordingSearch {
        artist_name: artist_name.to_owned(),
        url: recording_search_request(artist_name, track_title),
    }
}

/// A found artist counts as corroborated by MusicBrainz when its life-span has a
/// begin date or it has at least one URL relationship: a single relation (an
/// official homepage, say) is enough, and with neither there is none.
pub proof fn law_one_relation_corroborates(has_begin: bool, relation_count: nat)
    ensures
        corroboration_of(has_begin, relation_count).found,
        corroboration_of(has_begin, relation_count).has_external_links == (relation_count >= 1),
        corroboration_of(has_begin, relation_count).has_life_span == has_begin,
        (corroboration_of(has_begin, relation_count).has_life_span || corroboration_of(
            has_begin,
            relation_count,
        ).has_external_links) == (has_begin || relation_count >= 1),
{
}

} // verus!
