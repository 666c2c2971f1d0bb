//! The keyless iTunes Search API side: request URLs, picking the matching
//! artist from search results, reading album release dates from a lookup, and
//! the throttling and retry decisions of the HTTP client.

use crate::text::{concat, names_match, normalized_name, string_from_chars, strs};
use vstd::arithmetic::power2::{lemma2_to64, lemma_pow2_strictly_increases, pow2};
use vstd::prelude::*;
use vstd::string::StringSliceAdditionalSpecFns;
use vstd::utf8::{decode_utf8, encode_utf8, encode_utf8_decode_utf8, is_char_boundary};

verus! {

// ---------------------------------------------------------------------------
// Outside behaviour this module builds on.
// ---------------------------------------------------------------------------

/// Bytes that `urlencoding::encode` leaves as they are: ASCII alphanumerics and
/// `-`, `.`, `_`, `~`.
pub open spec fn is_unreserved(b: u8) -> bool {
    ||| 0x30 <= b <= 0x39
    ||| 0x41 <= b <= 0x5A
    ||| 0x61 <= b <= 0x7A
    ||| b == 0x2D
    ||| b == 0x2E
    ||| b == 0x5F
    ||| b == 0x7E
}

/// An upper-case hexadecimal digit.
pub open spec fn hex_digit(d: int) -> char {
    if d < 10 {
        (48 + d) as char
    } else {
        (55 + d) as char
    }
}

/// One byte percent-encoded: kept when unreserved, else `%` and two upper-case
/// hex digits.
pub open spec fn percent_encode_byte(b: u8) -> Seq<char> {
    if is_unreserved(b) {
        seq![b as char]
    } else {
        seq!['%', hex_digit((b / 16) as int), hex_digit((b % 16) as int)]
    }
}

/// A byte sequence percent-encoded byte by byte.
pub open spec fn percent_encode(bytes: Seq<u8>) -> Seq<char> {
    bytes.map_values(|b: u8| percent_encode_byte(b)).flatten()
}

/// The decimal digits of a natural number, most significant first.
pub open spec fn digits(n: nat) -> Seq<char>
    decreases n,
{
    if n < 10 {
        seq![(48 + n) as char]
    } else {
        digits(n / 10).push((48 + n % 10) as char)
    }
}

/// The decimal form of an integer, with a leading `-` when negative.
pub open spec fn decimal(n: int) -> Seq<char> {
    if n < 0 {
        seq!['-'] + digits((-n) as nat)
    } else {
        digits(n as nat)
    }
}

/// A calendar date as the classifier reads it: the year, the day number
/// (days since 0000-12-31 of the proleptic Gregorian calendar, so that later
/// dates have larger numbers and the difference of two is the days between
/// them) and the `YYYY-MM-DD` text.
pub struct ReleaseDateView {
    pub year: i32,
    pub day_number: i32,
    pub iso: Seq<char>,
}

/// The date that `chrono::NaiveDate::parse_from_str(s, "%Y-%m-%d")` reads from
/// `s`, as its year (`Datelike::year`), its day number
/// (`Datelike::num_days_from_ce`) and its text (`Display`); `None` when chrono
/// rejects `s`.
pub uninterp spec fn chrono_date(s: Seq<char>) -> Option<ReleaseDateView>;

/// Calls `urlencoding::encode`: every byte of the UTF-8 encoding of `s` is kept
/// when it is an ASCII alphanumeric or one of `-._~`, and written as `%XX` with
/// upper-case hex digits otherwise (the crate's `encode_into` and `to_hex_digit`).
#[verifier::external_body]
pub(crate) fn url_encode(s: &str) -> (res: String)
    ensures
        res@ == percent_encode(encode_utf8(s@)),
{
    urlencoding::encode(s).into_owned()
}

/// The character of a decimal digit.
fn digit_char(d: u64) -> (c: char)
    requires
        d < 10,
    ensures
        c == (48 + d) as char,
{
    if d == 0 {
        '0'
    } else if d == 1 {
        '1'
    } else if d == 2 {
        '2'
    } else if d == 3 {
        '3'
    } else if d == 4 {
        '4'
    } else if d == 5 {
        '5'
    } else if d == 6 {
        '6'
    } else if d == 7 {
        '7'
    } else if d == 8 {
        '8'
    } else {
        '9'
    }
}

/// The decimal form of `n`, with a leading `-` when negative.
pub(crate) fn i64_to_string(n: i64) -> (res: String)
    ensures
        res@ == decimal(n as int),
{
    let mag: u64 = if n == i64::MIN {
        9223372036854775808u64
    } else if n < 0 {
        (-n) as u64
    } else {
        n as u64
    };
    let ghost whole: nat = mag as nat;
    let mut m: u64 = mag;
    let mut acc: Vec<char> = Vec::new();
    while m >= 10
        invariant
            digits(whole) == digits(m as nat) + acc@,
        decreases m,
    {
        let c = digit_char(m % 10);
        assert(digits(m as nat) == digits((m / 10) as nat).push(c));
        let ghost before = acc@;
        acc.insert(0, c);
        assert(acc@ =~= seq![c] + before);
        assert(digits(m as nat) + before =~= digits((m / 10) as nat) + acc@);
        m = m / 10;
    }
    let first = digit_char(m);
    acc.insert(0, first);
    assert(digits(whole) =~= acc@);
    if n < 0 {
        acc.insert(0, '-');
    }
    assert(acc@ =~= decimal(n as int));
    string_from_chars(&acc)
}

/// Calls `chrono::NaiveDate::parse_from_str(s, "%Y-%m-%d")` and reads the parsed
/// date's year, day number and text; the result is named `chrono_date(s@)`.
#[verifier::external_body]
fn parse_ymd(s: &str) -> (res: Option<ReleaseDate>)
    ensures
        date_view(res) == chrono_date(s@),
{
    match chrono::NaiveDate::parse_from_str(s, "%Y-%m-%d") {
        Ok(d) => Some(ReleaseDate {
            year: chrono::Datelike::year(&d),
            day_number: chrono::Datelike::num_days_from_ce(&d),
            iso: d.to_string(),
        }),
        Err(_) => None,
    }
}

// ---------------------------------------------------------------------------
// Match methods and resolutions.
// ---------------------------------------------------------------------------

#[derive(Debug, Clone, Copy, PartialEq, Eq, Structural)]
pub enum MatchMethod {
    SongGrounded,
    ArtistName,
    Unresolved,
}

/// The label a match method is recorded under.
pub open spec fn match_method_label(m: MatchMethod) -> Seq<char> {
    match m {
        MatchMethod::SongGrounded => "song_grounded"@,
        MatchMethod::ArtistName => "artist_name"@,
        MatchMethod::Unresolved => "unresolved"@,
    }
}

impl MatchMethod {
    pub fn as_str(self) -> (res: &'static str)
        ensures
            res@ == match_method_label(self),
    {
        match self {
            MatchMethod::SongGrounded => "song_grounded",
            MatchMethod::ArtistName => "artist_name",
            MatchMethod::Unresolved => "unresolved",
        }
    }
}

/// The iTunes artist a name resolved to, and how.
pub struct ArtistResolution {
    pub itunes_artist_id: i64,
    pub matched_artist_name: String,
    pub method: MatchMethod,
}

pub struct ArtistResolutionView {
    pub itunes_artist_id: i64,
    pub matched_artist_name: Seq<char>,
    pub method: MatchMethod,
}

impl View for ArtistResolution {
    type V = ArtistResolutionView;

    open spec fn view(&self) -> ArtistResolutionView {
        ArtistResolutionView {
            itunes_artist_id: self.itunes_artist_id,
            matched_artist_name: self.matched_artist_name@,
            method: self.method,
        }
    }
}

impl ArtistResolution {
    pub fn duplicate(&self) -> (res: ArtistResolution)
        ensures
            res@ == self@,
    {
        ArtistResolution {
            itunes_artist_id: self.itunes_artist_id,
            matched_artist_name: self.matched_artist_name.clone(),
            method: self.method,
        }
    }
}

/// One entry of a search response (a song or an artist): its artist id and
/// artist name, either of which may be missing.
pub struct SearchResult {
    pub artist_id: Option<i64>,
    pub artist_name: Option<String>,
}

pub struct SearchResultView {
    pub artist_id: Option<i64>,
    pub artist_name: Option<Seq<char>>,
}

/// The view of an optional string.
pub open spec fn opt_str(s: Option<String>) -> Option<Seq<char>> {
    match s {
        Some(s) => Some(s@),
        None => None,
    }
}

impl View for SearchResult {
    type V = SearchResultView;

    open spec fn view(&self) -> SearchResultView {
        SearchResultView { artist_id: self.artist_id, artist_name: opt_str(self.artist_name) }
    }
}

/// The views of a sequence of search results.
pub open spec fn result_views(v: Seq<SearchResult>) -> Seq<SearchResultView> {
    v.map_values(|r: SearchResult| r@)
}

/// A result names the sought artist: it has an id and a name, and the name
/// matches under normalization.
pub open spec fn is_hit(r: SearchResultView, artist_name: Seq<char>) -> bool {
    &&& r.artist_id is Some
    &&& r.artist_name is Some
    &&& normalized_name(r.artist_name->0) == normalized_name(artist_name)
}

/// The first result that names the sought artist, as a resolution made by
/// `method`; `None` when no result does.
pub open spec fn first_hit(
    results: Seq<SearchResultView>,
    artist_name: Seq<char>,
    method: MatchMethod,
) -> Option<ArtistResolutionView>
    decreases results.len(),
{
    if results.len() == 0 {
        None
    } else if is_hit(results[0], artist_name) {
        Some(
            ArtistResolutionView {
                itunes_artist_id: results[0].artist_id->0,
                matched_artist_name: results[0].artist_name->0,
                method,
            },
        )
    } else {
        first_hit(results.drop_first(), artist_name, method)
    }
}

/// The view of an optional resolution.
pub open spec fn resolution_view(r: Option<ArtistResolution>) -> Option<ArtistResolutionView> {
    match r {
        Some(r) => Some(r@),
        None => None,
    }
}

/// The first result whose artist name matches `artist_name` (case- and
/// diacritic-insensitively) and that has an artist id, as a resolution made by
/// `method`.
pub fn best_match(results: &Vec<SearchResult>, artist_name: &str, method: MatchMethod) -> (res: Option<
    ArtistResolution,
>)
    ensures
        resolution_view(res) == first_hit(result_views(results@), artist_name@, method),
{
    let ghost rv = result_views(results@);
    assert(rv.subrange(0, rv.len() as int) =~= rv);
    let mut i: usize = 0;
    while i < results.len()
        invariant
            i <= results@.len(),
            rv == result_views(results@),
            first_hit(rv, artist_name@, method) == first_hit(rv.subrange(i as int, rv.len() as int), artist_name@, method),
        decreases results@.len() - i,
    {
        let r = &results[i];
        let ghost rest = rv.subrange(i as int, rv.len() as int);
        assert(rest[0] == r@);
        assert(rest.drop_first() =~= rv.subrange(i + 1, rv.len() as int));
        match (r.artist_id, &r.artist_name) {
            (Some(id), Some(name)) => {
                if names_match(name.as_str(), artist_name) {
                    return Some(
                        ArtistResolution {
                            itunes_artist_id: id,
                            matched_artist_name: name.clone(),
                            method,
                        },
                    );
                }
            },
            _ => {},
        }
        i = i + 1;
    }
    None
}

// ---------------------------------------------------------------------------
// Request URLs.
// ---------------------------------------------------------------------------

/// The song search grounded in the played track:
/// `search?term=<artist + " " + track>&entity=song&limit=25`.
pub open spec fn song_search_url(artist_name: Seq<char>, track_title: Seq<char>) -> Seq<char> {
    "https://itunes.apple.com/search?term="@ + percent_encode(
        encode_utf8(artist_name + " "@ + track_title),
    ) + "&entity=song&limit=25"@
}

/// The name-only artist search: `search?term=<artist>&entity=musicArtist&limit=5`.
pub open spec fn artist_search_url(artist_name: Seq<char>) -> Seq<char> {
    "https://itunes.apple.com/search?term="@ + percent_encode(encode_utf8(artist_name))
        + "&entity=musicArtist&limit=5"@
}

/// The album lookup of an artist: `lookup?id=<id>&entity=album&limit=200`.
pub open spec fn album_lookup_url(itunes_artist_id: i64) -> Seq<char> {
    "https://itunes.apple.com/lookup?id="@ + decimal(itunes_artist_id as int) + "&entity=album&limit=200"@
}

pub fn song_search_request(artist_name: &str, track_title: &str) -> (res: String)
    ensures
        res@ == song_search_url(artist_name@, track_title@),
{
    let with_space = concat(artist_name, " ");
    let term = concat(with_space.as_str(), track_title);
    let encoded = url_encode(term.as_str());
    let head = concat("https://itunes.apple.com/search?term=", encoded.as_str());
    concat(head.as_str(), "&entity=song&limit=25")
}

pub fn artist_search_request(artist_name: &str) -> (res: String)
    ensures
        res@ == artist_search_url(artist_name@),
{
    let encoded = url_encode(artist_name);
    let head = concat("https://itunes.apple.com/search?term=", encoded.as_str());
    concat(head.as_str(), "&entity=musicArtist&limit=5")
}

pub fn album_lookup_request(itunes_artist_id: i64) -> (res: String)
    ensures
        res@ == album_lookup_url(itunes_artist_id),
{
    let id = i64_to_string(itunes_artist_id);
    let head = concat("https://itunes.apple.com/lookup?id=", id.as_str());
    concat(head.as_str(), "&entity=album&limit=200")
}

// ---------------------------------------------------------------------------
// Release dates.
// ---------------------------------------------------------------------------

/// A calendar date, read with chrono.
pub struct ReleaseDate {
    pub year: i32,
    pub day_number: i32,
    pub iso: String,
}

impl View for ReleaseDate {
    type V = ReleaseDateView;

    open spec fn view(&self) -> ReleaseDateView {
        ReleaseDateView { year: self.year, day_number: self.day_number, iso: self.iso@ }
    }
}

impl ReleaseDate {
    pub fn duplicate(&self) -> (res: ReleaseDate)
        ensures
            res@ == self@,
    {
        ReleaseDate { year: self.year, day_number: self.day_number, iso: self.iso.clone() }
    }
}

/// The views of a sequence of dates.
pub open spec fn date_views(v: Seq<ReleaseDate>) -> Seq<ReleaseDateView> {
    v.map_values(|d: ReleaseDate| d@)
}

/// The view of an optional date.
pub open spec fn date_view(d: Option<ReleaseDate>) -> Option<ReleaseDateView> {
    match d {
        Some(d) => Some(d@),
        None => None,
    }
}

/// The first ten bytes of `s` as text (`str::get(0..10)`): `None` when `s` is
/// shorter or byte 10 falls inside a character.
pub open spec fn date_part(s: Seq<char>) -> Option<Seq<char>> {
    let b = encode_utf8(s);
    if b.len() >= 10 && is_char_boundary(b, 10) {
        Some(decode_utf8(b.subrange(0, 10)))
    } else {
        None
    }
}

/// The date of an ISO-8601 timestamp with day precision: its first ten bytes
/// read as `%Y-%m-%d`.
pub open spec fn release_date_of(s: Seq<char>) -> Option<ReleaseDateView> {
    match date_part(s) {
        Some(p) => chrono_date(p),
        None => None,
    }
}

/// ISO-8601 timestamp with day precision, e.g. "2025-03-14T08:00:00Z" -> the date portion.
pub fn parse_release_date(s: &str) -> (res: Option<ReleaseDate>)
    ensures
        date_view(res) == release_date_of(s@),
{
    proof {
        vstd::utf8::encode_utf8_valid_utf8(s@);
    }
    if s.is_char_boundary(10) {
        let (head, _) = s.split_at(10);
        proof {
            encode_utf8_decode_utf8(head@);
            assert(head.spec_bytes() == encode_utf8(head@));
            assert(head.spec_bytes() =~= encode_utf8(s@).subrange(0, 10));
            assert(head@ == decode_utf8(encode_utf8(s@).subrange(0, 10)));
            assert(date_part(s@) == Some(head@));
        }
        parse_ymd(head)
    } else {
        assert(date_part(s@) is None);
        None
    }
}

/// One entry of an album lookup response.
pub struct LookupEntry {
    pub wrapper_type: Option<String>,
    pub release_date: Option<String>,
    pub artist_name: Option<String>,
}

pub struct LookupEntryView {
    pub wrapper_type: Option<Seq<char>>,
    pub release_date: Option<Seq<char>>,
    pub artist_name: Option<Seq<char>>,
}

impl View for LookupEntry {
    type V = LookupEntryView;

    open spec fn view(&self) -> LookupEntryView {
        LookupEntryView {
            wrapper_type: opt_str(self.wrapper_type),
            release_date: opt_str(self.release_date),
            artist_name: opt_str(self.artist_name),
        }
    }
}

/// An album of the artist: its release date and the artist it is credited to.
pub struct AlbumEntry {
    pub release_date: ReleaseDate,
    pub artist_name: Option<String>,
}

pub struct AlbumEntryView {
    pub release_date: ReleaseDateView,
    pub artist_name: Option<Seq<char>>,
}

impl View for AlbumEntry {
    type V = AlbumEntryView;

    open spec fn view(&self) -> AlbumEntryView {
        AlbumEntryView { release_date: self.release_date@, artist_name: opt_str(self.artist_name) }
    }
}

impl AlbumEntry {
    pub fn duplicate(&self) -> (res: AlbumEntry)
        ensures
            res@ == self@,
    {
        AlbumEntry {
            release_date: self.release_date.duplicate(),
            artist_name: match &self.artist_name {
                Some(n) => Some(n.clone()),
                None => None,
            },
        }
    }
}

/// The views of a sequence of album entries.
pub open spec fn album_views(v: Seq<AlbumEntry>) -> Seq<AlbumEntryView> {
    v.map_values(|e: AlbumEntry| e@)
}

/// The views of a sequence of lookup entries.
pub open spec fn lookup_views(v: Seq<LookupEntry>) -> Seq<LookupEntryView> {
    v.map_values(|e: LookupEntry| e@)
}

/// The album a lookup entry describes: a `collection` entry with a release date
/// that parses.
pub open spec fn album_of(e: LookupEntryView) -> Option<AlbumEntryView> {
    if e.wrapper_type == Some("collection"@) && e.release_date is Some {
        match release_date_of(e.release_date->0) {
            Some(d) => Some(AlbumEntryView { release_date: d, artist_name: e.artist_name }),
            None => None,
        }
    } else {
        None
    }
}

/// The albums among the lookup entries, in order. The first entry of a lookup is
/// the artist wrapper itself, which `album_of` leaves out.
pub open spec fn albums_of(entries: Seq<LookupEntryView>) -> Seq<AlbumEntryView>
    decreases entries.len(),
{
    if entries.len() == 0 {
        seq![]
    } else {
        match album_of(entries.last()) {
            Some(a) => albums_of(entries.drop_last()).push(a),
            None => albums_of(entries.drop_last()),
        }
    }
}

/// The release dates of a sequence of albums.
pub open spec fn release_dates_of(albums: Seq<AlbumEntryView>) -> Seq<ReleaseDateView> {
    albums.map_values(|a: AlbumEntryView| a.release_date)
}

/// Every album of an album lookup: entries with `wrapperType == "collection"`
/// and a release date that parses, in order.
pub fn album_entries(results: &Vec<LookupEntry>) -> (res: Vec<AlbumEntry>)
    ensures
        album_views(res@) == albums_of(lookup_views(results@)),
{
    let ghost ev = lookup_views(results@);
    let collection = "collection".to_owned();
    let mut res: Vec<AlbumEntry> = Vec::new();
    let mut i: usize = 0;
    while i < results.len()
        invariant
            i <= results@.len(),
            ev == lookup_views(results@),
            collection@ == "collection"@,
            album_views(res@) == albums_of(ev.take(i as int)),
        decreases results@.len() - i,
    {
        let e = &results[i];
        let ghost before = res@;
        proof {
            assert(ev.take(i + 1).drop_last() =~= ev.take(i as int));
            assert(ev.take(i + 1).last() == e@);
        }
        let is_collection = match &e.wrapper_type {
            Some(w) => *w == collection,
            None => false,
        };
        if is_collection {
            match &e.release_date {
                Some(text) => {
                    match parse_release_date(text.as_str()) {
                        Some(d) => {
                            let artist_name = match &e.artist_name {
                                Some(n) => Some(n.clone()),
                                None => None,
                            };
                            let entry = AlbumEntry { release_date: d, artist_name };
                            res.push(entry);
                            proof {
                                assert(res@ == before.push(entry));
                                assert(album_views(res@) =~= album_views(before).push(entry@));
                            }
                        },
                        None => {},
                    }
                },
                None => {},
            }
        }
        i = i + 1;
    }
    assert(ev.take(results@.len() as int) =~= ev);
    res
}

/// Every album release date of an album lookup (the lookup's first result is
/// the artist wrapper itself, not an album).
pub fn release_dates(results: &Vec<LookupEntry>) -> (res: Vec<ReleaseDate>)
    ensures
        date_views(res@) == release_dates_of(albums_of(lookup_views(results@))),
{
    let albums = album_entries(results);
    let ghost av = album_views(albums@);
    let mut res: Vec<ReleaseDate> = Vec::new();
    let mut i: usize = 0;
    while i < albums.len()
        invariant
            i <= albums@.len(),
            av == album_views(albums@),
            date_views(res@) == release_dates_of(av.take(i as int)),
        decreases albums@.len() - i,
    {
        let d = albums[i].release_date.duplicate();
        let ghost before = res@;
        res.push(d);
        proof {
            assert(res@ == before.push(d));
            assert(date_views(before).len() == i);
            assert(d@ == av[i as int].release_date);
            assert forall|k: int| 0 <= k < i + 1 implies #[trigger] date_views(res@)[k] == release_dates_of(av.take(i + 1))[k] by {
                if k < i {
                    assert(date_views(res@)[k] == date_views(before)[k]);
                    assert(release_dates_of(av.take(i + 1))[k] == release_dates_of(av.take(i as int))[k]);
                }
            }
            assert(date_views(res@) =~= release_dates_of(av.take(i + 1)));
        }
        i = i + 1;
    }
    assert(av.take(albums@.len() as int) =~= av);
    res
}

// ---------------------------------------------------------------------------
// Throttling and retries.
// ---------------------------------------------------------------------------

/// Minimum spacing between two requests, in seconds (~20 requests/min allowed).
pub const MIN_SPACING_SECS: u64 = 4;

/// Pause after a rate-limit (403) answer, in seconds.
pub const RATE_LIMIT_BACKOFF_SECS: u64 = 60;

/// Transient failures (network errors, 5xx) retried before giving up.
pub const MAX_TRANSIENT_RETRIES: u32 = 5;

/// The exponential backoff before transient retry number `attempt`: 5 seconds,
/// doubled per attempt, capped at the rate-limit pause (60 seconds).
pub open spec fn backoff_secs(attempt: u32) -> u64
    recommends
        attempt >= 1,
{
    let p: int = 5 * pow2((attempt - 1) as nat) as int;
    (if p < RATE_LIMIT_BACKOFF_SECS {
        p
    } else {
        RATE_LIMIT_BACKOFF_SECS as int
    }) as u64
}

/// Exponential backoff starting at 5s, capped at 60s.
pub fn transient_backoff(attempt: u32) -> (secs: u64)
    requires
        attempt >= 1,
    ensures
        secs == backoff_secs(attempt),
        5 <= secs <= RATE_LIMIT_BACKOFF_SECS,
{
    let capped: u32 = if attempt < 5 {
        attempt
    } else {
        5
    };
    let exp: u32 = capped - 1;
    assert(exp <= 4);
    let factor: u64 = 1u64 << exp;
    assert(exp == 0 ==> factor == 1) by (bit_vector)
        requires
            factor == 1u64 << exp,
    ;
    assert(exp == 1 ==> factor == 2) by (bit_vector)
        requires
            factor == 1u64 << exp,
    ;
    assert(exp == 2 ==> factor == 4) by (bit_vector)
        requires
            factor == 1u64 << exp,
    ;
    assert(exp == 3 ==> factor == 8) by (bit_vector)
        requires
            factor == 1u64 << exp,
    ;
    assert(exp == 4 ==> factor == 16) by (bit_vector)
        requires
            factor == 1u64 << exp,
    ;
    proof {
        lemma2_to64();
        if attempt >= 5 {
            if attempt > 5 {
                lemma_pow2_strictly_increases(4, (attempt - 1) as nat);
            }
            assert(pow2((attempt - 1) as nat) >= 16);
        } else {
            assert(factor == pow2((attempt - 1) as nat));
        }
    }
    let secs = 5 * factor;
    if secs < RATE_LIMIT_BACKOFF_SECS {
        secs
    } else {
        RATE_LIMIT_BACKOFF_SECS
    }
}

/// How long to wait before the next request so that requests start at least
/// `MIN_SPACING_SECS` apart, given the nanoseconds since the previous one started.
pub fn spacing_wait_nanos(elapsed_nanos: u128) -> (wait: u64)
    ensures
        wait == if elapsed_nanos < MIN_SPACING_SECS * 1_000_000_000 {
            MIN_SPACING_SECS * 1_000_000_000 - elapsed_nanos
        } else {
            0
        },
{
    let spacing: u64 = MIN_SPACING_SECS * 1_000_000_000;
    if elapsed_nanos < spacing as u128 {
        (spacing as u128 - elapsed_nanos) as u64
    } else {
        0
    }
}

/// What came back from one HTTP attempt.
#[derive(Debug, Clone, Copy, PartialEq, Eq, Structural)]
pub enum HttpOutcome {
    /// A response with this status code.
    Status(u16),
    /// The request failed before a response arrived.
    NetworkError,
}

/// What to do after one HTTP attempt.
#[derive(Debug, Clone, Copy, PartialEq, Eq, Structural)]
pub enum RetryDecision {
    /// Hand the response to the caller.
    Deliver,
    /// The response is a client error (4xx other than 403): fail with it.
    FailStatus,
    /// Server errors persisted past the retry budget: fail.
    FailPersistentServerError,
    /// Network errors persisted past the retry budget: fail.
    FailNetwork,
    /// Sleep this many seconds, then send the same request again.
    RetryAfter { secs: u64 },
}

/// 403: the rate limit was hit.
pub open spec fn is_rate_limited(status: u16) -> bool {
    status == 403
}

/// 5xx.
pub open spec fn is_server_error(status: u16) -> bool {
    500 <= status <= 599
}

/// 4xx.
pub open spec fn is_client_error(status: u16) -> bool {
    400 <= status <= 499
}

/// The retry policy: a 403 pauses for the rate-limit backoff and retries without
/// spending an attempt; a 5xx or a network error spends an attempt and retries
/// after the exponential backoff until more than `MAX_TRANSIENT_RETRIES` have
/// been spent; any other 4xx fails; everything else is delivered.
pub open spec fn retry_policy(attempt: u32, outcome: HttpOutcome) -> (u32, RetryDecision) {
    match outcome {
        HttpOutcome::Status(s) => if is_rate_limited(s) {
            (attempt, RetryDecision::RetryAfter { secs: RATE_LIMIT_BACKOFF_SECS })
        } else if is_server_error(s) {
            let a = (attempt + 1) as u32;
            if a > MAX_TRANSIENT_RETRIES {
                (a, RetryDecision::FailPersistentServerError)
            } else {
                (a, RetryDecision::RetryAfter { secs: backoff_secs(a) })
            }
        } else if is_client_error(s) {
            (attempt, RetryDecision::FailStatus)
        } else {
            (attempt, RetryDecision::Deliver)
        },
        HttpOutcome::NetworkError => {
            let a = (attempt + 1) as u32;
            if a > MAX_TRANSIENT_RETRIES {
                (a, RetryDecision::FailNetwork)
            } else {
                (a, RetryDecision::RetryAfter { secs: backoff_secs(a) })
            }
        },
    }
}

/// The next retry decision, given the transient attempts spent so far (at most
/// `MAX_TRANSIENT_RETRIES` while retrying) and the outcome of the last attempt.
pub fn next_retry(attempt: u32, outcome: HttpOutcome) -> (res: (u32, RetryDecision))
    requires
        attempt <= MAX_TRANSIENT_RETRIES,
    ensures
        res == retry_policy(attempt, outcome),
{
    match outcome {
        HttpOutcome::Status(s) => {
            if s == 403 {
                (attempt, RetryDecision::RetryAfter { secs: RATE_LIMIT_BACKOFF_SECS })
            } else if 500 <= s && s <= 599 {
                let a = attempt + 1;
                if a > MAX_TRANSIENT_RETRIES {
                    (a, RetryDecision::FailPersistentServerError)
                } else {
                    (a, RetryDecision::RetryAfter { secs: transient_backoff(a) })
                }
            } else if 400 <= s && s <= 499 {
                (attempt, RetryDecision::FailStatus)
            } else {
                (attempt, RetryDecision::Deliver)
            }
        },
        HttpOutcome::NetworkError => {
            let a = attempt + 1;
            if a > MAX_TRANSIENT_RETRIES {
                (a, RetryDecision::FailNetwork)
            } else {
                (a, RetryDecision::RetryAfter { secs: transient_backoff(a) })
            }
        },
    }
}

// ---------------------------------------------------------------------------
// Laws.
// ---------------------------------------------------------------------------

/// A rate-limit answer pauses for the rate-limit backoff and retries without
/// spending a transient attempt, however many have been spent.
pub proof fn law_rate_limit_spends_no_attempt(attempt: u32)
    ensures
        retry_policy(attempt, HttpOutcome::Status(403)) == (
            attempt,
            RetryDecision::RetryAfter { secs: RATE_LIMIT_BACKOFF_SECS },
        ),
{
}

/// Transient failures are retried until the budget is spent: with `attempt`
/// spent, a server or network error retries while fewer than
/// `MAX_TRANSIENT_RETRIES` were spent, and fails once that many were.
pub proof fn law_retry_budget(attempt: u32, outcome: HttpOutcome)
    requires
        attempt <= MAX_TRANSIENT_RETRIES,
        outcome == HttpOutcome::NetworkError || (outcome matches HttpOutcome::Status(s) && is_server_error(s)),
    ensures
        retry_policy(attempt, outcome).0 == attempt + 1,
        attempt < MAX_TRANSIENT_RETRIES <==> retry_policy(attempt, outcome).1 is RetryAfter,
{
}

/// The transient backoff starts at 5 seconds, doubles per attempt (5, 10, 20,
/// 40), reaches the 60-second cap at the fifth attempt, never shrinks as attempts
/// grow, and never exceeds the rate-limit pause.
pub proof fn law_backoff_grows_and_is_capped(a: u32, b: u32)
    requires
        1 <= a <= b,
    ensures
        backoff_secs(1) == 5,
        backoff_secs(2) == 10,
        backoff_secs(3) == 20,
        backoff_secs(4) == 40,
        backoff_secs(5) == RATE_LIMIT_BACKOFF_SECS,
        backoff_secs(a) <= backoff_secs(b),
        backoff_secs(b) <= RATE_LIMIT_BACKOFF_SECS,
{
    lemma2_to64();
    if a < b {
        lemma_pow2_strictly_increases((a - 1) as nat, (b - 1) as nat);
    }
}

/// A successful answer is always delivered.
pub proof fn law_success_delivered(attempt: u32, status: u16)
    requires
        200 <= status <= 299,
    ensures
        retry_policy(attempt, HttpOutcome::Status(status)).1 == RetryDecision::Deliver,
{
}

} // verus!
