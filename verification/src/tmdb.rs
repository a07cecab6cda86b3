//! The TMDB catalog: requests, replies and the entries in them.

use vstd::prelude::*;

use crate::consts::{
    TMDB_API_BASE, TMDB_IMAGE_BASE, TMDB_POSTER_SIZE, TMDB_RATE_LIMIT_DEFAULT_RETRY_SECS,
};
use crate::item;
use crate::number;
use crate::number::{read_u16, read_u64, write_u64};
use crate::rank;
use crate::rank::rank_desc;
use crate::text;
use crate::text::{
    blank, chars_are, chars_of, lowered, owned, push_chars, push_str, split_words, str_eq,
    string_of, trimmed_string, without_prefix, without_suffix, CharClass,
};
use crate::url;
use crate::url::urlencode;

verus! {

/// The two kinds of TMDB entries that are looked up.
#[derive(Clone, Copy, Debug, PartialEq, Eq, Structural)]
pub enum TmdbKind {
    Movie,
    Tv,
}

/// The path segment of a kind.
pub open spec fn segment(kind: TmdbKind) -> Seq<char> {
    match kind {
        TmdbKind::Movie => "movie"@,
        TmdbKind::Tv => "tv"@,
    }
}

/// The path segment of a kind.
pub fn kind_segment(kind: TmdbKind) -> (r: &'static str)
    ensures
        r@ == segment(kind),
{
    match kind {
        TmdbKind::Movie => "movie",
        TmdbKind::Tv => "tv",
    }
}

/// Where TMDB is reached, and with which token.
#[derive(Debug)]
pub struct TmdbClient {
    pub bearer_token: String,
    pub api_base: String,
    pub image_base: String,
}

/// A base URL without trailing slashes.
pub open spec fn base_of(base: Seq<char>) -> Seq<char> {
    text::trim_end(base, CharClass::Slash)
}

fn base_url(base: &str) -> (r: String)
    ensures
        r@ == base_of(base@),
{
    let cs = chars_of(base);
    string_of(without_suffix(&cs, CharClass::Slash))
}

/// The URL of a poster image.
pub open spec fn poster_url(image_base: Seq<char>, poster_path: Seq<char>) -> Seq<char> {
    base_of(image_base) + "/"@ + TMDB_POSTER_SIZE@ + "/"@ + text::trim_start(
        poster_path,
        CharClass::Slash,
    )
}

impl TmdbClient {
    /// TMDB at its public addresses.
    pub fn new(bearer_token: String) -> (r: Self)
        ensures
            r.bearer_token@ == bearer_token@,
            r.api_base@ == TMDB_API_BASE@,
            r.image_base@ == TMDB_IMAGE_BASE@,
    {
        TmdbClient {
            bearer_token,
            api_base: owned(TMDB_API_BASE),
            image_base: owned(TMDB_IMAGE_BASE),
        }
    }

    /// TMDB at other addresses.
    pub fn with_bases(token: String, api_base: String, image_base: String) -> (r: Self)
        ensures
            r.bearer_token@ == token@,
            r.api_base@ == api_base@,
            r.image_base@ == image_base@,
    {
        TmdbClient { bearer_token: token, api_base, image_base }
    }

    /// The URL of a title search.
    pub fn search_url(&self, kind: TmdbKind, title: &str, year: Option<u16>) -> (r: String)
        ensures
            r@ == base_of(self.api_base@) + "/search/"@ + segment(kind) + "?query="@ + url::encoded(
                title@,
            ) + "&include_adult=false"@ + (match year {
                Some(y) => "&year="@ + number::decimal(y as nat),
                None => Seq::empty(),
            }),
    {
        let mut out = base_url(self.api_base.as_str());
        push_str(&mut out, "/search/");
        push_str(&mut out, kind_segment(kind));
        push_str(&mut out, "?query=");
        push_str(&mut out, urlencode(title).as_str());
        push_str(&mut out, "&include_adult=false");
        if let Some(y) = year {
            let ghost before = out@;
            push_str(&mut out, "&year=");
            push_str(&mut out, write_u64(y as u64).as_str());
            assert(out@ == before + ("&year="@ + number::decimal(y as nat)));
        } else {
            assert(out@ == out@ + Seq::<char>::empty());
        }
        out
    }

    /// The URL of the entry `tmdbid`.
    pub fn details_url(&self, kind: TmdbKind, tmdbid: u64) -> (r: String)
        ensures
            r@ == base_of(self.api_base@) + "/"@ + segment(kind) + "/"@ + number::decimal(
                tmdbid as nat,
            ),
    {
        let mut out = base_url(self.api_base.as_str());
        push_str(&mut out, "/");
        push_str(&mut out, kind_segment(kind));
        push_str(&mut out, "/");
        push_str(&mut out, write_u64(tmdbid).as_str());
        out
    }

    /// The URL of the ids that the entry `tmdbid` has elsewhere.
    pub fn external_ids_url(&self, kind: TmdbKind, tmdbid: u64) -> (r: String)
        ensures
            r@ == base_of(self.api_base@) + "/"@ + segment(kind) + "/"@ + number::decimal(
                tmdbid as nat,
            ) + "/external_ids"@,
    {
        let mut out = self.details_url(kind, tmdbid);
        push_str(&mut out, "/external_ids");
        out
    }

    /// The URL of a search over all kinds.
    pub fn search_multi_url(&self, query: &str) -> (r: String)
        ensures
            r@ == base_of(self.api_base@) + "/search/multi?query="@ + url::encoded(query@)
                + "&include_adult=false"@,
    {
        let mut out = base_url(self.api_base.as_str());
        push_str(&mut out, "/search/multi?query=");
        push_str(&mut out, urlencode(query).as_str());
        push_str(&mut out, "&include_adult=false");
        out
    }

    /// The URL of a catalog list.
    pub fn discovery_url(&self, path_and_query: &str) -> (r: String)
        ensures
            r@ == base_of(self.api_base@) + "/"@ + text::trim_start(
                path_and_query@,
                CharClass::Slash,
            ),
    {
        let mut out = base_url(self.api_base.as_str());
        push_str(&mut out, "/");
        let cs = chars_of(path_and_query);
        push_chars(&mut out, without_prefix(&cs, CharClass::Slash));
        out
    }

    /// The URL of a poster image.
    pub fn poster_cdn_url(&self, poster_path: &str) -> (r: String)
        ensures
            r@ == poster_url(self.image_base@, poster_path@),
    {
        let mut out = base_url(self.image_base.as_str());
        push_str(&mut out, "/");
        push_str(&mut out, TMDB_POSTER_SIZE);
        push_str(&mut out, "/");
        let cs = chars_of(poster_path);
        push_chars(&mut out, without_prefix(&cs, CharClass::Slash));
        out
    }
}

/// The outcome of a TMDB request.
#[derive(Debug)]
pub enum TmdbCall<T> {
    Hit(T),
    /// Nothing was found, or the request failed.
    Miss,
    /// Too many requests: pause for this many seconds.
    RateLimited(u64),
}

/// The pause that a `Retry-After` header asks for, in seconds.
pub open spec fn retry_secs(header: Option<Seq<char>>) -> nat {
    match header {
        Some(h) => match number::parse_unsigned(h, u64::MAX as nat) {
            Some(n) => n,
            None => TMDB_RATE_LIMIT_DEFAULT_RETRY_SECS as nat,
        },
        None => TMDB_RATE_LIMIT_DEFAULT_RETRY_SECS as nat,
    }
}

/// The text in an optional slice.
pub open spec fn str_view(s: Option<&str>) -> Option<Seq<char>> {
    match s {
        Some(t) => Some(t@),
        None => None,
    }
}

/// Reads the pause that a `Retry-After` header asks for.
pub fn parse_tmdb_retry_after(header: Option<&str>) -> (r: u64)
    ensures
        r == retry_secs(str_view(header)),
{
    match header {
        Some(h) => match read_u64(h) {
            Some(n) => n,
            None => TMDB_RATE_LIMIT_DEFAULT_RETRY_SECS,
        },
        None => TMDB_RATE_LIMIT_DEFAULT_RETRY_SECS,
    }
}

/// What a reply is good for, by its status.
#[derive(Clone, Copy, Debug, PartialEq, Eq, Structural)]
pub enum Triage {
    /// Its body is to be read.
    Decode,
    /// It counts as nothing found.
    Miss,
    /// It asks for a pause of this many seconds.
    RateLimited(u64),
}

/// Judges a reply by its status; `reply` is absent where none came in time.
pub fn triage(reply: Option<(u16, Option<&str>)>) -> (r: Triage)
    ensures
        match reply {
            None => r == Triage::Miss,
            Some((status, retry_after)) => if status == 429 {
                r == Triage::RateLimited(retry_secs(str_view(retry_after)) as u64)
            } else if 200 <= status <= 299 {
                r == Triage::Decode
            } else {
                r == Triage::Miss
            },
        },
{
    match reply {
        None => Triage::Miss,
        Some((status, retry_after)) => if status == 429 {
            Triage::RateLimited(parse_tmdb_retry_after(retry_after))
        } else if 200 <= status && status <= 299 {
            Triage::Decode
        } else {
            Triage::Miss
        },
    }
}

/// The outcome of a request: what the body holds where it was to be read and
/// could be.
pub fn settle_call<T>(verdict: Triage, body: Option<T>) -> (r: TmdbCall<T>)
    ensures
        match verdict {
            Triage::RateLimited(secs) => r == TmdbCall::<T>::RateLimited(secs),
            Triage::Miss => r == TmdbCall::<T>::Miss,
            Triage::Decode => match body {
                Some(b) => r == TmdbCall::Hit(b),
                None => r == TmdbCall::<T>::Miss,
            },
        },
{
    match verdict {
        Triage::RateLimited(secs) => TmdbCall::RateLimited(secs),
        Triage::Miss => TmdbCall::Miss,
        Triage::Decode => match body {
            Some(b) => TmdbCall::Hit(b),
            None => TmdbCall::Miss,
        },
    }
}

/// A catalog entry as enrichment uses it.
#[derive(Debug)]
pub struct TmdbHit {
    pub tmdbid: u64,
    pub title: String,
    pub original_title: Option<String>,
    pub original_language: Option<String>,
    pub overview: Option<String>,
    pub year: Option<u16>,
    pub poster_path: Option<String>,
    pub genre_ids: Vec<u32>,
}

/// What a [`TmdbHit`] holds.
#[verifier::ext_equal]
pub struct HitView {
    pub tmdbid: u64,
    pub title: Seq<char>,
    pub original_title: Option<Seq<char>>,
    pub original_language: Option<Seq<char>>,
    pub overview: Option<Seq<char>>,
    pub year: Option<u16>,
    pub poster_path: Option<Seq<char>>,
    pub genre_ids: Seq<u32>,
}

impl View for TmdbHit {
    type V = HitView;

    open spec fn view(&self) -> HitView {
        HitView {
            tmdbid: self.tmdbid,
            title: self.title@,
            original_title: item::text_of(self.original_title),
            original_language: item::text_of(self.original_language),
            overview: item::text_of(self.overview),
            year: self.year,
            poster_path: item::text_of(self.poster_path),
            genre_ids: self.genre_ids@,
        }
    }
}

/// The views of a list of entries.
pub open spec fn hit_views(v: Seq<TmdbHit>) -> Seq<HitView> {
    Seq::new(v.len(), |i: int| v[i]@)
}

/// The text begins with four ASCII characters.
pub open spec fn starts_with_four_ascii(d: Seq<char>) -> bool {
    &&& d.len() >= 4
    &&& (d[0] as u32) < 0x80
    &&& (d[1] as u32) < 0x80
    &&& (d[2] as u32) < 0x80
    &&& (d[3] as u32) < 0x80
}

/// The first four bytes of a date can be cut off: they are four ASCII
/// characters, the date is shorter than that, or a character begins right after
/// them.
pub open spec fn is_date_like(date: Option<Seq<char>>) -> bool {
    match date {
        Some(d) => {
            let bytes = vstd::utf8::encode_utf8(d);
            starts_with_four_ascii(d) || bytes.len() < 4 || vstd::utf8::is_char_boundary(bytes, 4)
        },
        None => true,
    }
}

/// The year at the start of a date.
pub open spec fn date_year(date: Option<Seq<char>>) -> Option<nat> {
    match date {
        Some(d) => if d.len() >= 4 {
            number::parse_unsigned(d.take(4), u16::MAX as nat)
        } else {
            None
        },
        None => None,
    }
}

/// The number in an optional year.
pub open spec fn year_of(y: Option<u16>) -> Option<nat> {
    match y {
        Some(n) => Some(n as nat),
        None => None,
    }
}

fn read_date_year(date: &Option<String>) -> (r: Option<u16>)
    ensures
        year_of(r) == date_year(item::text_of(*date)),
{
    match date {
        Some(d) => {
            let cs = chars_of(d.as_str());
            if cs.len() >= 4 {
                assert(cs@.subrange(0, 4) == cs@.take(4));
                read_u16(&cs[0..4])
            } else {
                None
            }
        },
        None => None,
    }
}

/// One result of a title search or a catalog list. Movies and shows use
/// different fields for the title and the date.
#[derive(Debug)]
pub struct TmdbSearchItem {
    pub id: u64,
    pub title: Option<String>,
    pub name: Option<String>,
    pub original_title: Option<String>,
    pub original_name: Option<String>,
    pub overview: Option<String>,
    pub release_date: Option<String>,
    pub first_air_date: Option<String>,
    pub poster_path: Option<String>,
    pub genre_ids: Vec<u32>,
    pub original_language: Option<String>,
}

impl TmdbSearchItem {
    /// The date of the entry.
    pub open spec fn date(&self, kind: TmdbKind) -> Option<Seq<char>> {
        match kind {
            TmdbKind::Movie => item::text_of(self.release_date),
            TmdbKind::Tv => item::text_of(self.first_air_date),
        }
    }

    /// `hit` is the entry that the result describes.
    pub open spec fn describes(&self, kind: TmdbKind, hit: HitView) -> bool {
        let title = match kind {
            TmdbKind::Movie => item::text_of(self.title),
            TmdbKind::Tv => item::text_of(self.name),
        };
        &&& hit.tmdbid == self.id
        &&& hit.title == (match title {
            Some(t) => t,
            None => "(untitled)"@,
        })
        &&& hit.original_title == (match kind {
            TmdbKind::Movie => item::text_of(self.original_title),
            TmdbKind::Tv => item::text_of(self.original_name),
        })
        &&& hit.original_language == item::text_of(self.original_language)
        &&& hit.overview == item::text_of(self.overview)
        &&& year_of(hit.year) == date_year(self.date(kind))
        &&& hit.poster_path == item::text_of(self.poster_path)
        &&& hit.genre_ids == self.genre_ids@
    }

    /// Makes an entry of the result.
    pub fn into_hit(self, kind: TmdbKind) -> (r: TmdbHit)
        requires
            is_date_like(self.date(kind)),
        ensures
            self.describes(kind, r@),
    {
        let year = match kind {
            TmdbKind::Movie => read_date_year(&self.release_date),
            TmdbKind::Tv => read_date_year(&self.first_air_date),
        };
        let (title, original_title) = match kind {
            TmdbKind::Movie => (self.title, self.original_title),
            TmdbKind::Tv => (self.name, self.original_name),
        };
        TmdbHit {
            tmdbid: self.id,
            title: match title {
                Some(t) => t,
                None => owned("(untitled)"),
            },
            original_title,
            original_language: self.original_language,
            overview: self.overview,
            year,
            poster_path: self.poster_path,
            genre_ids: self.genre_ids,
        }
    }
}

/// The dates of all results can be cut.
pub open spec fn all_date_like(items: Seq<TmdbSearchItem>, kind: TmdbKind) -> bool {
    forall|i: int| 0 <= i < items.len() ==> is_date_like((#[trigger] items[i]).date(kind))
}

/// The outcome of a title search: its first result.
pub fn first_hit(results: Vec<TmdbSearchItem>, kind: TmdbKind) -> (r: TmdbCall<TmdbHit>)
    requires
        results@.len() > 0 ==> is_date_like(results@[0].date(kind)),
    ensures
        match r {
            TmdbCall::Hit(h) => results@.len() > 0 && results@[0].describes(kind, h@),
            TmdbCall::Miss => results@.len() == 0,
            TmdbCall::RateLimited(_) => false,
        },
{
    let mut rest = results;
    if rest.len() == 0 {
        TmdbCall::Miss
    } else {
        TmdbCall::Hit(rest.remove(0).into_hit(kind))
    }
}

/// The entries of a catalog list.
pub fn all_hits(results: Vec<TmdbSearchItem>, kind: TmdbKind) -> (r: Vec<TmdbHit>)
    requires
        all_date_like(results@, kind),
    ensures
        r@.len() == results@.len(),
        forall|i: int| 0 <= i < r@.len() ==> results@[i].describes(kind, (#[trigger] r@[i])@),
{
    let ghost all = results@;
    let mut rest = results;
    let mut out: Vec<TmdbHit> = Vec::new();
    while rest.len() > 0
        invariant
            all_date_like(all, kind),
            out@.len() + rest@.len() == all.len(),
            forall|i: int| 0 <= i < rest@.len() ==> #[trigger] rest@[i] == all[out@.len() + i],
            forall|i: int| 0 <= i < out@.len() ==> all[i].describes(kind, (#[trigger] out@[i])@),
        decreases rest@.len(),
    {
        let first = rest.remove(0);
        assert(first == all[out@.len() as int]);
        assert(is_date_like(all[out@.len() as int].date(kind)));
        out.push(first.into_hit(kind));
    }
    out
}

/// The three-letter code of a language with the two-letter code `code`, for
/// the languages that are known here.
pub open spec fn language3(code: Seq<char>) -> Option<Seq<char>> {
    let c = text::lower(code);
    if c == "en"@ {
        Some("eng"@)
    } else if c == "ja"@ {
        Some("jpn"@)
    } else if c == "fr"@ {
        Some("fra"@)
    } else if c == "de"@ {
        Some("deu"@)
    } else if c == "es"@ {
        Some("spa"@)
    } else if c == "it"@ {
        Some("ita"@)
    } else if c == "ru"@ {
        Some("rus"@)
    } else if c == "ko"@ {
        Some("kor"@)
    } else if c == "zh"@ {
        Some("zho"@)
    } else if c == "pt"@ {
        Some("por"@)
    } else if c == "nl"@ {
        Some("nld"@)
    } else if c == "sv"@ {
        Some("swe"@)
    } else if c == "no"@ {
        Some("nor"@)
    } else if c == "da"@ {
        Some("dan"@)
    } else if c == "fi"@ {
        Some("fin"@)
    } else if c == "pl"@ {
        Some("pol"@)
    } else if c == "tr"@ {
        Some("tur"@)
    } else if c == "ar"@ {
        Some("ara"@)
    } else if c == "hi"@ {
        Some("hin"@)
    } else if c == "th"@ {
        Some("tha"@)
    } else if c == "vi"@ {
        Some("vie"@)
    } else if c == "id"@ {
        Some("ind"@)
    } else if c == "cs"@ {
        Some("ces"@)
    } else if c == "el"@ {
        Some("ell"@)
    } else if c == "he"@ {
        Some("heb"@)
    } else if c == "hu"@ {
        Some("hun"@)
    } else if c == "ro"@ {
        Some("ron"@)
    } else if c == "uk"@ {
        Some("ukr"@)
    } else if c == "fa"@ {
        Some("fas"@)
    } else if c == "ms"@ {
        Some("msa"@)
    } else if c == "tl"@ {
        Some("tgl"@)
    } else if c == "ca"@ {
        Some("cat"@)
    } else if c == "nb"@ {
        Some("nob"@)
    } else {
        None
    }
}

/// Maps a two-letter language code (ISO 639-1) to its three-letter code.
pub fn iso639_1_to_3(code: &str) -> (r: Option<&'static str>)
    ensures
        str_view(r) == language3(code@),
{
    let c = lowered(&chars_of(code));
    if chars_are(&c, "en") {
        return Some("eng");
    }
    if chars_are(&c, "ja") {
        return Some("jpn");
    }
    if chars_are(&c, "fr") {
        return Some("fra");
    }
    if chars_are(&c, "de") {
        return Some("deu");
    }
    if chars_are(&c, "es") {
        return Some("spa");
    }
    if chars_are(&c, "it") {
        return Some("ita");
    }
    if chars_are(&c, "ru") {
        return Some("rus");
    }
    if chars_are(&c, "ko") {
        return Some("kor");
    }
    if chars_are(&c, "zh") {
        return Some("zho");
    }
    if chars_are(&c, "pt") {
        return Some("por");
    }
    if chars_are(&c, "nl") {
        return Some("nld");
    }
    if chars_are(&c, "sv") {
        return Some("swe");
    }
    if chars_are(&c, "no") {
        return Some("nor");
    }
    if chars_are(&c, "da") {
        return Some("dan");
    }
    if chars_are(&c, "fi") {
        return Some("fin");
    }
    if chars_are(&c, "pl") {
        return Some("pol");
    }
    if chars_are(&c, "tr") {
        return Some("tur");
    }
    if chars_are(&c, "ar") {
        return Some("ara");
    }
    if chars_are(&c, "hi") {
        return Some("hin");
    }
    if chars_are(&c, "th") {
        return Some("tha");
    }
    if chars_are(&c, "vi") {
        return Some("vie");
    }
    if chars_are(&c, "id") {
        return Some("ind");
    }
    if chars_are(&c, "cs") {
        return Some("ces");
    }
    if chars_are(&c, "el") {
        return Some("ell");
    }
    if chars_are(&c, "he") {
        return Some("heb");
    }
    if chars_are(&c, "hu") {
        return Some("hun");
    }
    if chars_are(&c, "ro") {
        return Some("ron");
    }
    if chars_are(&c, "uk") {
        return Some("ukr");
    }
    if chars_are(&c, "fa") {
        return Some("fas");
    }
    if chars_are(&c, "ms") {
        return Some("msa");
    }
    if chars_are(&c, "tl") {
        return Some("tgl");
    }
    if chars_are(&c, "ca") {
        return Some("cat");
    }
    if chars_are(&c, "nb") {
        return Some("nob");
    }
    None
}

impl HitView {
    /// The three-letter code of the language that the entry was made in.
    pub open spec fn lang3(self) -> Option<Seq<char>> {
        match self.original_language {
            Some(l) => language3(text::trim(l)),
            None => None,
        }
    }
}

impl TmdbHit {
    /// The three-letter code of the language that the entry was made in.
    pub fn original_lang3(&self) -> (r: Option<&'static str>)
        ensures
            str_view(r) == self@.lang3(),
    {
        match &self.original_language {
            Some(l) => iso639_1_to_3(trimmed_string(l.as_str()).as_str()),
            None => None,
        }
    }
}

/// One season of a show. Season zero holds the specials.
#[derive(Clone, Copy, Debug, PartialEq, Eq, Structural)]
pub struct TmdbSeasonSummary {
    pub season_number: i64,
    pub episode_count: u32,
}

/// A show: its seasons and how it is displayed.
#[derive(Debug)]
pub struct TmdbTvDetails {
    pub number_of_seasons: u32,
    pub seasons: Vec<TmdbSeasonSummary>,
    pub name: String,
    pub original_name: Option<String>,
    pub original_language: Option<String>,
    pub overview: Option<String>,
    pub first_air_date: Option<String>,
    pub poster_path: Option<String>,
}

impl Default for TmdbTvDetails {
    fn default() -> (r: Self)
        ensures
            r.number_of_seasons == 0,
            r.seasons@ == Seq::<TmdbSeasonSummary>::empty(),
            r.name@ == Seq::<char>::empty(),
            r.original_name is None,
            r.original_language is None,
            r.overview is None,
            r.first_air_date is None,
            r.poster_path is None,
    {
        TmdbTvDetails {
            number_of_seasons: 0,
            seasons: Vec::new(),
            name: String::new(),
            original_name: None,
            original_language: None,
            overview: None,
            first_air_date: None,
            poster_path: None,
        }
    }
}

fn copied(v: &Option<String>) -> (r: Option<String>)
    ensures
        item::text_of(r) == item::text_of(*v),
{
    match v {
        Some(s) => Some(owned(s.as_str())),
        None => None,
    }
}

impl TmdbTvDetails {
    /// Tests whether the entry tells how it is displayed.
    pub fn has_display(&self) -> (r: bool)
        ensures
            r == !text::is_blank(self.name@),
    {
        !blank(self.name.as_str())
    }

    /// `hit` is the entry `tmdbid` with these details.
    pub open spec fn describes(&self, tmdbid: u64, hit: HitView) -> bool {
        &&& hit.tmdbid == tmdbid
        &&& hit.title == self.name@
        &&& hit.original_title == item::text_of(self.original_name)
        &&& hit.original_language == item::text_of(self.original_language)
        &&& hit.overview == item::text_of(self.overview)
        &&& year_of(hit.year) == date_year(item::text_of(self.first_air_date))
        &&& hit.poster_path == item::text_of(self.poster_path)
        &&& hit.genre_ids == Seq::<u32>::empty()
    }

    /// The entry `tmdbid`, where the details tell how it is displayed.
    pub fn as_hit(&self, tmdbid: u64) -> (r: Option<TmdbHit>)
        requires
            !text::is_blank(self.name@) ==> is_date_like(item::text_of(self.first_air_date)),
        ensures
            r is Some <==> !text::is_blank(self.name@),
            r matches Some(h) ==> self.describes(tmdbid, h@),
    {
        if !self.has_display() {
            return None;
        }
        Some(
            TmdbHit {
                tmdbid,
                title: owned(self.name.as_str()),
                original_title: copied(&self.original_name),
                original_language: copied(&self.original_language),
                overview: copied(&self.overview),
                year: read_date_year(&self.first_air_date),
                poster_path: copied(&self.poster_path),
                genre_ids: Vec::new(),
            },
        )
    }
}

/// A movie.
#[derive(Debug)]
pub struct TmdbMovieDetails {
    pub id: u64,
    pub title: Option<String>,
    pub original_title: Option<String>,
    pub original_language: Option<String>,
    pub overview: Option<String>,
    pub release_date: Option<String>,
    pub poster_path: Option<String>,
}

impl TmdbMovieDetails {
    /// `hit` is the entry with these details.
    pub open spec fn describes(&self, hit: HitView) -> bool {
        &&& hit.tmdbid == self.id
        &&& hit.title == (match self.title {
            Some(t) => t@,
            None => "(untitled)"@,
        })
        &&& hit.original_title == item::text_of(self.original_title)
        &&& hit.original_language == item::text_of(self.original_language)
        &&& hit.overview == item::text_of(self.overview)
        &&& year_of(hit.year) == date_year(item::text_of(self.release_date))
        &&& hit.poster_path == item::text_of(self.poster_path)
        &&& hit.genre_ids == Seq::<u32>::empty()
    }

    /// Makes an entry of the details.
    pub fn into_hit(self) -> (r: TmdbHit)
        requires
            is_date_like(item::text_of(self.release_date)),
        ensures
            self.describes(r@),
    {
        let year = read_date_year(&self.release_date);
        TmdbHit {
            tmdbid: self.id,
            title: match self.title {
                Some(t) => t,
                None => owned("(untitled)"),
            },
            original_title: self.original_title,
            original_language: self.original_language,
            overview: self.overview,
            year,
            poster_path: self.poster_path,
            genre_ids: Vec::new(),
        }
    }
}

/// One result of a search over all kinds. `popularity` is a rank key: a more
/// popular entry has a greater one.
#[derive(Debug)]
pub struct TmdbMultiItem {
    pub id: u64,
    pub media_type: Option<String>,
    pub title: Option<String>,
    pub name: Option<String>,
    pub popularity: i64,
}

impl TmdbMultiItem {
    /// The kind of the entry; people and other things have none.
    pub open spec fn spec_kind(&self) -> Option<TmdbKind> {
        match self.media_type {
            Some(m) => if m@ == "movie"@ {
                Some(TmdbKind::Movie)
            } else if m@ == "tv"@ {
                Some(TmdbKind::Tv)
            } else {
                None
            },
            None => None,
        }
    }

    /// The kind of the entry.
    pub fn kind(&self) -> (r: Option<TmdbKind>)
        ensures
            r == self.spec_kind(),
    {
        proof {
            reveal_strlit("movie");
            reveal_strlit("tv");
        }
        match &self.media_type {
            Some(m) => if str_eq(m.as_str(), "movie") {
                Some(TmdbKind::Movie)
            } else if str_eq(m.as_str(), "tv") {
                Some(TmdbKind::Tv)
            } else {
                None
            },
            None => None,
        }
    }

    /// The title of the entry: that of a movie, else that of a show.
    pub open spec fn shown_title(&self) -> Seq<char> {
        match (self.title, self.name) {
            (Some(t), _) => t@,
            (None, Some(n)) => n@,
            (None, None) => Seq::empty(),
        }
    }

    /// The title of the entry.
    pub fn display_title(&self) -> (r: &str)
        ensures
            r@ == self.shown_title(),
    {
        match (&self.title, &self.name) {
            (Some(t), _) => t.as_str(),
            (None, Some(n)) => n.as_str(),
            (None, None) => {
                proof {
                    reveal_strlit("");
                    assert(""@ == Seq::<char>::empty());
                }
                ""
            },
        }
    }
}

/// The lower-case words of a text.
pub open spec fn tokens(s: Seq<char>) -> Seq<Seq<char>> {
    let ws = text::words(s, CharClass::UnicodeAlnum);
    Seq::new(ws.len(), |i: int| text::unicode_lowercase(ws[i]))
}

/// The lower-case words of a text: its runs of letters and digits.
pub fn norm_tokens(s: &str) -> (r: Vec<String>)
    ensures
        text::string_views(r@) == tokens(s@),
{
    let ws = split_words(&chars_of(s), CharClass::UnicodeAlnum);
    let ghost all = text::views(ws@);
    let n: usize = ws.len();
    let mut out: Vec<String> = Vec::new();
    let mut i: usize = 0;
    while i < n
        invariant
            n == ws@.len(),
            all == text::views(ws@),
            all == text::words(s@, CharClass::UnicodeAlnum),
            i <= n,
            text::string_views(out@) == tokens(s@).take(i as int),
        decreases n - i,
    {
        let w = string_of(&ws[i]);
        let l = w.as_str().to_lowercase();
        let ghost before = text::string_views(out@);
        let ghost added = l@;
        out.push(l);
        assert(text::string_views(out@) == before.push(added));
        assert(added == tokens(s@)[i as int]);
        i += 1;
    }
    assert(tokens(s@).take(n as int) == tokens(s@));
    out
}

/// Number of words of `query` that occur among the words of `title`.
pub open spec fn overlap(query: Seq<Seq<char>>, title: Seq<Seq<char>>) -> nat
    decreases query.len(),
{
    if query.len() == 0 {
        0
    } else {
        overlap(query.drop_last(), title) + (if title.contains(query.last()) {
            1nat
        } else {
            0nat
        })
    }
}

/// An entry that may anchor the query: a movie or a show whose title has at
/// least half of the words of the query.
pub open spec fn is_candidate(hit: TmdbMultiItem, query: Seq<Seq<char>>) -> bool {
    hit.spec_kind() is Some && 2 * overlap(query, tokens(hit.shown_title())) >= query.len()
}

/// The positions of the candidates, in order.
pub open spec fn candidates(hits: Seq<TmdbMultiItem>, query: Seq<Seq<char>>) -> Seq<int>
    decreases hits.len(),
{
    if hits.len() == 0 {
        Seq::empty()
    } else {
        let before = candidates(hits.drop_last(), query);
        if is_candidate(hits.last(), query) {
            before.push(hits.len() - 1)
        } else {
            before
        }
    }
}

/// The popularity of each candidate.
pub open spec fn popularities(hits: Seq<TmdbMultiItem>, places: Seq<int>) -> Seq<int> {
    Seq::new(places.len(), |i: int| hits[places[i]].popularity as int)
}

/// `r` lists the positions of the `n` most popular candidates, most popular
/// first and equally popular ones in order.
pub open spec fn is_top_n(
    hits: Seq<TmdbMultiItem>,
    query: Seq<Seq<char>>,
    n: nat,
    r: Seq<int>,
) -> bool {
    let places = candidates(hits, query);
    exists|order: Seq<int>| #[trigger]
        rank::is_ranking(popularities(hits, places), order) && r == Seq::new(
            if n <= order.len() {
                n
            } else {
                order.len()
            },
            |i: int| places[order[i]],
        )
}

proof fn lemma_candidates(hits: Seq<TmdbMultiItem>, query: Seq<Seq<char>>)
    ensures
        forall|k: int|
            0 <= k < candidates(hits, query).len() ==> 0 <= #[trigger] candidates(hits, query)[k]
                < hits.len() && is_candidate(hits[candidates(hits, query)[k]], query),
    decreases hits.len(),
{
    if hits.len() > 0 {
        let init = hits.drop_last();
        lemma_candidates(init, query);
        let all = candidates(hits, query);
        let before = candidates(init, query);
        assert forall|k: int| 0 <= k < all.len() implies 0 <= #[trigger] all[k] < hits.len()
            && is_candidate(hits[all[k]], query) by {
            if k < before.len() {
                assert(all[k] == before[k]);
                assert(hits[before[k]] == init[before[k]]);
            }
        }
    }
}

/// The positions that are picked are those of candidates.
pub proof fn lemma_top_n_places(
    hits: Seq<TmdbMultiItem>,
    query: Seq<Seq<char>>,
    n: nat,
    r: Seq<int>,
)
    requires
        is_top_n(hits, query, n, r),
    ensures
        r.len() <= n,
        forall|k: int|
            0 <= k < r.len() ==> 0 <= #[trigger] r[k] < hits.len() && is_candidate(
                hits[r[k]],
                query,
            ),
{
    let places = candidates(hits, query);
    lemma_candidates(hits, query);
    let order = choose|order: Seq<int>| #[trigger]
        rank::is_ranking(popularities(hits, places), order) && r == Seq::new(
            if n <= order.len() {
                n
            } else {
                order.len()
            },
            |i: int| places[order[i]],
        );
    assert forall|k: int| 0 <= k < r.len() implies 0 <= #[trigger] r[k] < hits.len()
        && is_candidate(hits[r[k]], query) by {
        assert(0 <= order[k] < places.len());
        assert(r[k] == places[order[k]]);
    }
}

fn count_overlap(query: &Vec<String>, title: &Vec<String>) -> (r: usize)
    ensures
        r == overlap(text::string_views(query@), text::string_views(title@)),
        r <= query@.len(),
{
    let ghost q = text::string_views(query@);
    let ghost t = text::string_views(title@);
    let n: usize = query.len();
    let mut count: usize = 0;
    let mut i: usize = 0;
    while i < n
        invariant
            n == query@.len(),
            q == text::string_views(query@),
            t == text::string_views(title@),
            i <= n,
            count <= i,
            count == overlap(q.take(i as int), t),
        decreases n - i,
    {
        proof {
            assert(q.take(i + 1).drop_last() == q.take(i as int));
            assert(q.take(i + 1).last() == query@[i as int]@);
        }
        if item::list_has(title, query[i].as_str()) {
            count += 1;
        }
        i += 1;
    }
    assert(q.take(n as int) == q);
    count
}

/// Picks the entries that anchor a query: the positions of up to `n` of them,
/// most popular first. A query without words has none.
pub fn principal_top_n(hits: &Vec<TmdbMultiItem>, query: &str, n: usize) -> (r: Vec<usize>)
    ensures
        tokens(query@).len() == 0 || n == 0 ==> r@.len() == 0,
        tokens(query@).len() > 0 && n > 0 ==> is_top_n(
            hits@,
            tokens(query@),
            n as nat,
            rank::positions(r@),
        ),
{
    let mut out: Vec<usize> = Vec::new();
    let q = norm_tokens(query);
    let words: usize = q.len();
    if words == 0 || n == 0 {
        assert(text::string_views(q@).len() == q@.len());
        return out;
    }
    let ghost wanted = tokens(query@);
    assert(wanted.len() == words);
    let count: usize = hits.len();
    let mut places: Vec<usize> = Vec::new();
    let mut keys: Vec<i64> = Vec::new();
    let mut i: usize = 0;
    assert(rank::positions(places@) == candidates(hits@.take(0), wanted));
    while i < count
        invariant
            count == hits@.len(),
            wanted == text::string_views(q@),
            words == q@.len(),
            wanted.len() == words,
            i <= count,
            rank::positions(places@) == candidates(hits@.take(i as int), wanted),
            keys@.len() == places@.len(),
            forall|k: int|
                0 <= k < places@.len() ==> (#[trigger] places@[k]) < i && keys@[k]
                    == hits@[places@[k] as int].popularity,
        decreases count - i,
    {
        proof {
            assert(hits@.take(i + 1).drop_last() == hits@.take(i as int));
            assert(hits@.take(i + 1).last() == hits@[i as int]);
        }
        let hit = &hits[i];
        if hit.kind().is_some() {
            let title = norm_tokens(hit.display_title());
            let shared: usize = count_overlap(&q, &title);
            if shared >= words - shared {
                let ghost before = rank::positions(places@);
                places.push(i);
                keys.push(hit.popularity);
                assert(rank::positions(places@) == before.push(i as int));
            }
        }
        i += 1;
    }
    assert(hits@.take(count as int) == hits@);
    let order = rank_desc(&keys);
    let ghost spots = rank::positions(places@);
    let ghost ranks = rank::positions(order@);
    assert(rank::ints(keys@) == popularities(hits@, spots));
    let limit: usize = if n <= order.len() {
        n
    } else {
        order.len()
    };
    let ghost best = Seq::new(limit as nat, |i: int| spots[ranks[i]]);
    let mut k: usize = 0;
    while k < limit
        invariant
            limit <= order@.len(),
            spots == rank::positions(places@),
            ranks == rank::positions(order@),
            rank::is_ranking(popularities(hits@, spots), ranks),
            best == Seq::new(limit as nat, |i: int| spots[ranks[i]]),
            k <= limit,
            rank::positions(out@) == best.take(k as int),
        decreases limit - k,
    {
        assert(0 <= ranks[k as int] < spots.len());
        let ghost before = rank::positions(out@);
        out.push(places[order[k]]);
        assert(rank::positions(out@) == before.push(spots[ranks[k as int]]));
        k += 1;
    }
    assert(rank::positions(out@) == best);
    out
}

/// How a season and an episode that were read from a title agree with the
/// seasons of the show.
#[derive(Clone, Copy, Debug, PartialEq, Eq, Structural)]
pub enum SeasonEpisodeBounds {
    /// They agree, or nothing tells that they do not.
    InBounds,
    /// The season lies past the seasons of the show: a numbering of its own.
    SeasonOverflow,
    /// The season is negative, or the episode lies past the end of its season.
    Contradiction,
}

/// The first season with the given number.
pub open spec fn season_entry(seasons: Seq<TmdbSeasonSummary>, number: int) -> Option<
    TmdbSeasonSummary,
>
    decreases seasons.len(),
{
    if seasons.len() == 0 {
        None
    } else if seasons[0].season_number == number {
        Some(seasons[0])
    } else {
        season_entry(seasons.skip(1), number)
    }
}

/// How a season and an episode agree with the seasons of a show. Only a clear
/// disagreement counts: without a season, or where the show has no known
/// seasons, anything goes.
pub open spec fn bounds(
    number_of_seasons: u32,
    seasons: Seq<TmdbSeasonSummary>,
    season: Option<i64>,
    episode: Option<i64>,
) -> SeasonEpisodeBounds {
    match season {
        None => SeasonEpisodeBounds::InBounds,
        Some(s) => if number_of_seasons == 0 && seasons.len() == 0 {
            SeasonEpisodeBounds::InBounds
        } else if s < 0 {
            SeasonEpisodeBounds::Contradiction
        } else {
            match season_entry(seasons, s as int) {
                None => if s > number_of_seasons {
                    SeasonEpisodeBounds::SeasonOverflow
                } else {
                    SeasonEpisodeBounds::InBounds
                },
                Some(entry) => match episode {
                    Some(e) => if entry.episode_count > 0 && e > entry.episode_count {
                        SeasonEpisodeBounds::Contradiction
                    } else {
                        SeasonEpisodeBounds::InBounds
                    },
                    None => SeasonEpisodeBounds::InBounds,
                },
            }
        },
    }
}

fn find_season(seasons: &Vec<TmdbSeasonSummary>, number: i64) -> (r: Option<TmdbSeasonSummary>)
    ensures
        r == season_entry(seasons@, number as int),
{
    let n: usize = seasons.len();
    let mut i: usize = 0;
    assert(seasons@.skip(0) == seasons@);
    while i < n
        invariant
            n == seasons@.len(),
            i <= n,
            season_entry(seasons@, number as int) == season_entry(
                seasons@.skip(i as int),
                number as int,
            ),
        decreases n - i,
    {
        assert(seasons@.skip(i as int)[0] == seasons@[i as int]);
        assert(seasons@.skip(i as int).skip(1) == seasons@.skip(i + 1));
        if seasons[i].season_number == number {
            return Some(seasons[i]);
        }
        i += 1;
    }
    assert(seasons@.skip(n as int).len() == 0);
    None
}

/// Checks a season and an episode against the seasons of a show.
pub fn season_episode_bounds(
    details: &TmdbTvDetails,
    season: Option<i64>,
    episode: Option<i64>,
) -> (r: SeasonEpisodeBounds)
    ensures
        r == bounds(details.number_of_seasons, details.seasons@, season, episode),
{
    let s: i64 = match season {
        Some(s) => s,
        None => {
            return SeasonEpisodeBounds::InBounds;
        },
    };
    if details.number_of_seasons == 0 && details.seasons.len() == 0 {
        return SeasonEpisodeBounds::InBounds;
    }
    if s < 0 {
        return SeasonEpisodeBounds::Contradiction;
    }
    match find_season(&details.seasons, s) {
        None => if s > details.number_of_seasons as i64 {
            SeasonEpisodeBounds::SeasonOverflow
        } else {
            SeasonEpisodeBounds::InBounds
        },
        Some(entry) => match episode {
            Some(e) => if entry.episode_count > 0 && e > entry.episode_count as i64 {
                SeasonEpisodeBounds::Contradiction
            } else {
                SeasonEpisodeBounds::InBounds
            },
            None => SeasonEpisodeBounds::InBounds,
        },
    }
}

/// Tests whether a season of a show is known to have the episode.
pub fn episode_in_season(details: &TmdbTvDetails, season: i64, episode: i64) -> (r: bool)
    ensures
        r == (match season_entry(details.seasons@, season as int) {
            Some(entry) => entry.episode_count > 0 && 1 <= episode <= entry.episode_count,
            None => false,
        }),
{
    match find_season(&details.seasons, season) {
        Some(entry) => entry.episode_count > 0 && episode >= 1 && episode
            <= entry.episode_count as i64,
        None => false,
    }
}

/// An episode that its season is known to have is never out of bounds.
pub proof fn known_episode_is_in_bounds(
    number_of_seasons: u32,
    seasons: Seq<TmdbSeasonSummary>,
    season: i64,
    episode: i64,
)
    requires
        season >= 0,
        season_entry(seasons, season as int) matches Some(entry) && 1 <= episode
            <= entry.episode_count,
    ensures
        bounds(number_of_seasons, seasons, Some(season), Some(episode))
            == SeasonEpisodeBounds::InBounds,
{
}

/// Without a season nothing is out of bounds, and an episode alone never makes
/// a season overflow.
pub proof fn absolute_numbers_are_in_bounds(
    number_of_seasons: u32,
    seasons: Seq<TmdbSeasonSummary>,
    season: Option<i64>,
    episode: Option<i64>,
)
    ensures
        bounds(number_of_seasons, seasons, None, episode) == SeasonEpisodeBounds::InBounds,
        bounds(number_of_seasons, seasons, season, episode) == SeasonEpisodeBounds::SeasonOverflow
            <==> bounds(number_of_seasons, seasons, season, None)
            == SeasonEpisodeBounds::SeasonOverflow,
{
}

proof fn lemma_overlap_bound(query: Seq<Seq<char>>, title: Seq<Seq<char>>)
    requires
        forall|i: int| 0 <= i < query.len() ==> !title.contains(#[trigger] query[i]),
    ensures
        overlap(query, title) == 0,
    decreases query.len(),
{
    if query.len() > 0 {
        assert(query.last() == query[query.len() - 1]);
        assert forall|i: int| 0 <= i < query.drop_last().len() implies !title.contains(
            #[trigger] query.drop_last()[i],
        ) by {
            assert(query.drop_last()[i] == query[i]);
        }
        lemma_overlap_bound(query.drop_last(), title);
    }
}

/// An entry whose title shares no word with the query never anchors it.
pub proof fn unrelated_entry_is_no_candidate(hit: TmdbMultiItem, query: Seq<Seq<char>>)
    requires
        query.len() > 0,
        forall|i: int|
            0 <= i < query.len() ==> !tokens(hit.shown_title()).contains(#[trigger] query[i]),
    ensures
        !is_candidate(hit, query),
{
    lemma_overlap_bound(query, tokens(hit.shown_title()));
}

/// The entry of a season is the first in the list with its number; there is none
/// only where no entry has that number.
pub proof fn season_entry_is_the_first(seasons: Seq<TmdbSeasonSummary>, number: int)
    ensures
        season_entry(seasons, number) matches Some(entry) ==> exists|i: int|
            {
                &&& 0 <= i < seasons.len()
                &&& #[trigger] seasons[i] == entry
                &&& entry.season_number == number
                &&& forall|j: int| 0 <= j < i ==> (#[trigger] seasons[j]).season_number != number
            },
        season_entry(seasons, number) is None ==> forall|i: int|
            0 <= i < seasons.len() ==> (#[trigger] seasons[i]).season_number != number,
    decreases seasons.len(),
{
    if seasons.len() > 0 {
        if seasons[0].season_number != number {
            let rest = seasons.skip(1);
            season_entry_is_the_first(rest, number);
            if let Some(entry) = season_entry(seasons, number) {
                let k = choose|i: int|
                    {
                        &&& 0 <= i < rest.len()
                        &&& #[trigger] rest[i] == entry
                        &&& entry.season_number == number
                        &&& forall|j: int|
                            0 <= j < i ==> (#[trigger] rest[j]).season_number != number
                    };
                assert(seasons[k + 1] == entry);
                assert forall|j: int| 0 <= j < k + 1 implies (
                #[trigger] seasons[j]).season_number != number by {
                    if j > 0 {
                        assert(rest[j - 1] == seasons[j]);
                    }
                }
            } else {
                assert forall|i: int| 0 <= i < seasons.len() implies (
                #[trigger] seasons[i]).season_number != number by {
                    if i > 0 {
                        assert(rest[i - 1] == seasons[i]);
                    }
                }
            }
        } else {
            assert(seasons[0].season_number == number);
        }
    }
}

/// A claim contradicts a show of which anything is known if its season is below
/// zero, or its episode is beyond the known number of episodes of its season. It
/// overflows if the show has no entry for the season and fewer seasons than that.
/// Anything else passes.
pub proof fn claims_are_held_to_the_show(
    number_of_seasons: u32,
    seasons: Seq<TmdbSeasonSummary>,
    season: i64,
    episode: Option<i64>,
)
    ensures
        ({
            let verdict = bounds(number_of_seasons, seasons, Some(season), episode);
            let known = number_of_seasons > 0 || seasons.len() > 0;
            let entry = season_entry(seasons, season as int);
            let count = if entry is Some {
                entry->0.episode_count as int
            } else {
                0
            };
            &&& verdict == SeasonEpisodeBounds::Contradiction <==> known && (season < 0 || (count
                > 0 && episode is Some && episode->0 > count))
            &&& verdict == SeasonEpisodeBounds::SeasonOverflow <==> known && season >= 0
                && entry is None && season > number_of_seasons
            &&& season == 0 ==> verdict != SeasonEpisodeBounds::SeasonOverflow
        }),
{
}

/// The URL of a poster is made of the base without trailing slashes, the size
/// segment and the path without leading slashes, however either is written.
pub proof fn poster_url_form(image_base: Seq<char>, path: Seq<char>)
    ensures
        poster_url(image_base, path) == text::trim_end(image_base, CharClass::Slash) + "/w500/"@
            + text::trim_start(path, CharClass::Slash),
        poster_url(image_base, seq!['/'] + path) == poster_url(image_base, path),
        poster_url(image_base.push('/'), path) == poster_url(image_base, path),
        poster_url(image_base, text::trim_start(path, CharClass::Slash)) == poster_url(
            image_base,
            path,
        ),
{
    reveal_strlit("/");
    reveal_strlit("w500");
    reveal_strlit("/w500/");
    assert("/"@ + TMDB_POSTER_SIZE@ + "/"@ =~= "/w500/"@);
    assert(poster_url(image_base, path) =~= text::trim_end(image_base, CharClass::Slash)
        + "/w500/"@ + text::trim_start(path, CharClass::Slash));
    assert((seq!['/'] + path).skip(1) == path);
    assert(image_base.push('/').drop_last() == image_base);
    text::trimming_takes_slashes_only(path, 0);
}

/// A rate limit reply is paused for as long as it says, in seconds, or for five
/// seconds where it does not say.
pub proof fn retry_is_as_told(n: u64)
    ensures
        retry_secs(Some(number::decimal(n as nat))) == n,
        retry_secs(None) == 5,
{
    number::decimal_reads_back(n as nat, u64::MAX as nat);
}

/// A reply is read if it reports success, asks for a pause if it reports too many
/// requests, and counts as nothing found otherwise, as no reply does.
pub proof fn replies_are_judged_by_status(
    status: u16,
    retry_after: Option<&str>,
    r: Triage,
    none: Triage,
)
    requires
        call_ensures(triage, (Some((status, retry_after)),), r),
        call_ensures(triage, (None,), none),
    ensures
        r == Triage::Decode <==> 200 <= status < 300,
        r is RateLimited <==> status == 429,
        status == 429 ==> r == Triage::RateLimited(
            retry_secs(
                match retry_after {
                    Some(h) => Some(h@),
                    None => None,
                },
            ) as u64,
        ),
        none == Triage::Miss,
{
}

/// A body counts only where the reply was to be read.
pub proof fn bodies_count_where_read<T>(verdict: Triage, body: Option<T>, r: TmdbCall<T>)
    requires
        call_ensures(settle_call::<T>, (verdict, body), r),
    ensures
        r is Hit <==> verdict == Triage::Decode && body is Some,
        r matches TmdbCall::Hit(b) ==> body == Some(b),
        r is RateLimited <==> verdict is RateLimited,
        r matches TmdbCall::RateLimited(secs) ==> verdict == Triage::RateLimited(secs),
{
}

/// The year of a date is the number that its first four characters are. A date
/// that is too short, or that begins otherwise, has none.
pub proof fn year_is_at_the_start(year: nat, rest: Seq<char>, date: Seq<char>)
    requires
        1000 <= year <= 9999,
    ensures
        number::decimal(year).len() == 4,
        date_year(Some(number::decimal(year) + rest)) == Some(year),
        date.len() < 4 ==> date_year(Some(date)) is None,
        date_year(None) is None,
{
    let y = number::decimal(year);
    let y1 = year / 10;
    let y2 = y1 / 10;
    let y3 = y2 / 10;
    assert(number::decimal(y3).len() == 1);
    assert(number::decimal(y2).len() == 2);
    assert(number::decimal(y1).len() == 3);
    assert(y.len() == 4);
    assert((y + rest).take(4) == y);
    number::decimal_reads_back(year, u16::MAX as nat);
}

/// The entry that a search result describes has what the result tells: a movie's
/// title and release date or a show's name and first air date, and the original
/// title, the language, the overview, the poster and the genres as they are.
pub proof fn search_result_is_taken_over(result: TmdbSearchItem, kind: TmdbKind, hit: HitView)
    requires
        result.describes(kind, hit),
    ensures
        hit.tmdbid == result.id,
        hit.overview == item::text_of(result.overview),
        hit.poster_path == item::text_of(result.poster_path),
        hit.original_language == item::text_of(result.original_language),
        hit.genre_ids == result.genre_ids@,
        kind == TmdbKind::Movie ==> {
            &&& result.title matches Some(t) ==> hit.title == t@
            &&& result.title is None ==> hit.title == "(untitled)"@
            &&& hit.original_title == item::text_of(result.original_title)
            &&& year_of(hit.year) == date_year(item::text_of(result.release_date))
        },
        kind == TmdbKind::Tv ==> {
            &&& result.name matches Some(t) ==> hit.title == t@
            &&& result.name is None ==> hit.title == "(untitled)"@
            &&& hit.original_title == item::text_of(result.original_name)
            &&& year_of(hit.year) == date_year(item::text_of(result.first_air_date))
        },
{
}

/// The entry of a show or of a movie has what its details tell.
pub proof fn details_are_taken_over(
    show: TmdbTvDetails,
    tmdbid: u64,
    show_hit: HitView,
    movie: TmdbMovieDetails,
    movie_hit: HitView,
)
    requires
        show.describes(tmdbid, show_hit),
        movie.describes(movie_hit),
    ensures
        show_hit.tmdbid == tmdbid,
        show_hit.title == show.name@,
        show_hit.original_title == item::text_of(show.original_name),
        show_hit.original_language == item::text_of(show.original_language),
        show_hit.overview == item::text_of(show.overview),
        show_hit.poster_path == item::text_of(show.poster_path),
        year_of(show_hit.year) == date_year(item::text_of(show.first_air_date)),
        movie_hit.tmdbid == movie.id,
        movie.title matches Some(t) ==> movie_hit.title == t@,
        movie.title is None ==> movie_hit.title == "(untitled)"@,
        movie_hit.original_title == item::text_of(movie.original_title),
        movie_hit.original_language == item::text_of(movie.original_language),
        movie_hit.overview == item::text_of(movie.overview),
        movie_hit.poster_path == item::text_of(movie.poster_path),
        year_of(movie_hit.year) == date_year(item::text_of(movie.release_date)),
{
}

/// The words of a text are parted by what is neither letter nor digit, and are
/// compared in lower case.
pub proof fn words_are_parted_and_folded(a: Seq<char>, c: char, b: Seq<char>, w: Seq<char>)
    requires
        !text::unicode_alphanumeric(c),
        w.len() > 0,
        forall|i: int| 0 <= i < w.len() ==> text::unicode_alphanumeric(#[trigger] w[i]),
    ensures
        tokens(a + seq![c] + b) == tokens(a) + tokens(b),
        tokens(w) == seq![text::unicode_lowercase(w)],
        tokens(Seq::empty()) == Seq::<Seq<char>>::empty(),
{
    text::words_part_at_other_characters(a, c, b, w, CharClass::UnicodeAlnum);
    assert(tokens(a + seq![c] + b) =~= tokens(a) + tokens(b));
    assert(tokens(w) =~= seq![text::unicode_lowercase(w)]);
    assert(tokens(Seq::empty()) =~= Seq::<Seq<char>>::empty());
}

proof fn lemma_overlap_counts(query: Seq<Seq<char>>, title: Seq<Seq<char>>)
    ensures
        overlap(query, title) == query.filter(|w: Seq<char>| title.contains(w)).len(),
    decreases query.len(),
{
    reveal(Seq::filter);
    if query.len() > 0 {
        lemma_overlap_counts(query.drop_last(), title);
    }
}

/// An entry may anchor a query if it is a movie or a show and its title has at
/// least half of the query's words.
pub proof fn anchors_share_half_of_the_words(hit: TmdbMultiItem, query: Seq<Seq<char>>)
    ensures
        is_candidate(hit, query) <==> {
            let title = match (hit.title, hit.name) {
                (Some(t), _) => tokens(t@),
                (None, Some(n)) => tokens(n@),
                (None, None) => Seq::<Seq<char>>::empty(),
            };
            let shared = query.filter(|w: Seq<char>| title.contains(w));
            &&& hit.media_type matches Some(m) && (m@ == "movie"@ || m@ == "tv"@)
            &&& shared.len() + shared.len() >= query.len()
        },
        hit.spec_kind() == Some(TmdbKind::Movie) <==> (hit.media_type matches Some(m) && m@
            == "movie"@),
        hit.spec_kind() == Some(TmdbKind::Tv) <==> (hit.media_type matches Some(m) && m@
            == "tv"@),
{
    reveal_strlit("movie");
    reveal_strlit("tv");
    assert("movie"@.len() != "tv"@.len());
    lemma_overlap_counts(query, tokens(hit.shown_title()));
    assert(tokens(Seq::empty()) =~= Seq::<Seq<char>>::empty());
}

proof fn lemma_candidates_all(hits: Seq<TmdbMultiItem>, query: Seq<Seq<char>>)
    ensures
        forall|p: int|
            0 <= p < hits.len() && is_candidate(#[trigger] hits[p], query) ==> candidates(
                hits,
                query,
            ).contains(p),
        forall|i: int, j: int|
            0 <= i < j < candidates(hits, query).len() ==> (#[trigger] candidates(hits, query)[i])
                < (#[trigger] candidates(hits, query)[j]),
    decreases hits.len(),
{
    if hits.len() > 0 {
        let init = hits.drop_last();
        let before = candidates(init, query);
        let all = candidates(hits, query);
        lemma_candidates_all(init, query);
        lemma_candidates(init, query);
        assert forall|p: int|
            0 <= p < hits.len() && is_candidate(#[trigger] hits[p], query) implies all.contains(
            p,
        ) by {
            if p < init.len() {
                assert(init[p] == hits[p]);
                assert(before.contains(p));
                let k = choose|k: int| 0 <= k < before.len() && before[k] == p;
                assert(all[k] == p);
            } else {
                assert(all.last() == p);
                assert(all[all.len() - 1] == p);
            }
        }
        assert forall|i: int, j: int| 0 <= i < j < all.len() implies (#[trigger] all[i]) < (
        #[trigger] all[j]) by {
            assert(all[i] == before[i]);
            if j < before.len() {
                assert(all[j] == before[j]);
            }
        }
    }
}

/// The anchors of a query are its most popular candidates: among them the more
/// popular comes first, and of two equally popular ones the one that was found
/// first; none that is left out is more popular than one that is picked; and none
/// is left out while there is room.
pub proof fn anchors_are_the_most_popular(
    hits: Seq<TmdbMultiItem>,
    query: Seq<Seq<char>>,
    n: nat,
    r: Seq<int>,
    p: int,
    i: int,
    j: int,
)
    requires
        is_top_n(hits, query, n, r),
        0 <= p < hits.len(),
    ensures
        r.len() <= n,
        0 <= i < r.len() ==> 0 <= r[i] < hits.len() && is_candidate(hits[r[i]], query),
        0 <= i < j < r.len() ==> hits[r[i]].popularity >= hits[r[j]].popularity,
        0 <= i < j < r.len() && hits[r[i]].popularity == hits[r[j]].popularity ==> r[i] < r[j],
        is_candidate(hits[p], query) && !r.contains(p) ==> r.len() == n,
        is_candidate(hits[p], query) && !r.contains(p) && 0 <= i < r.len()
            ==> hits[r[i]].popularity >= hits[p].popularity,
{
    lemma_top_n_places(hits, query, n, r);
    lemma_candidates(hits, query);
    lemma_candidates_all(hits, query);
    let places = candidates(hits, query);
    let keys = popularities(hits, places);
    let order = choose|order: Seq<int>| #[trigger]
        rank::is_ranking(keys, order) && r == Seq::new(
            if n <= order.len() {
                n
            } else {
                order.len()
            },
            |i: int| places[order[i]],
        );
    if 0 <= i < r.len() {
        assert(r[i] == places[order[i]]);
        assert(0 <= order[i] < keys.len());
    }
    if 0 <= i < j < r.len() {
        assert(r[j] == places[order[j]]);
        assert(0 <= order[j] < keys.len());
        assert(rank::before(keys, order[i], order[j]));
    }
    if is_candidate(hits[p], query) && !r.contains(p) {
        assert(places.contains(p));
        let k = choose|k: int| 0 <= k < places.len() && places[k] == p;
        rank::ranking_covers(keys, order, k);
        let at = choose|at: int| 0 <= at < order.len() && order[at] == k;
        if at < r.len() {
            assert(r[at] == p);
        }
        if 0 <= i < r.len() {
            assert(rank::before(keys, order[i], order[at]));
        }
    }
}

/// The addresses of TMDB that are asked.
pub proof fn addresses_that_are_asked(
    client: TmdbClient,
    title: &str,
    tmdbid: u64,
    movie_search: String,
    show_search: String,
    movie_year_search: String,
    movie_details: String,
    show_details: String,
    show_ids: String,
    any_search: String,
    year: u16,
)
    requires
        call_ensures(TmdbClient::search_url, (&client, TmdbKind::Movie, title, None), movie_search),
        call_ensures(TmdbClient::search_url, (&client, TmdbKind::Tv, title, None), show_search),
        call_ensures(
            TmdbClient::search_url,
            (&client, TmdbKind::Movie, title, Some(year)),
            movie_year_search,
        ),
        call_ensures(TmdbClient::details_url, (&client, TmdbKind::Movie, tmdbid), movie_details),
        call_ensures(TmdbClient::details_url, (&client, TmdbKind::Tv, tmdbid), show_details),
        call_ensures(TmdbClient::external_ids_url, (&client, TmdbKind::Tv, tmdbid), show_ids),
        call_ensures(TmdbClient::search_multi_url, (&client, title), any_search),
    ensures
        ({
            let base = text::trim_end(client.api_base@, CharClass::Slash);
            let id = number::decimal(tmdbid as nat);
            let asked = url::encoded(title@);
            &&& movie_search@ == base + "/search/movie?query="@ + asked + "&include_adult=false"@
            &&& show_search@ == base + "/search/tv?query="@ + asked + "&include_adult=false"@
            &&& movie_year_search@ == movie_search@ + "&year="@ + number::decimal(year as nat)
            &&& movie_details@ == base + "/movie/"@ + id
            &&& show_details@ == base + "/tv/"@ + id
            &&& show_ids@ == base + "/tv/"@ + id + "/external_ids"@
            &&& any_search@ == base + "/search/multi?query="@ + asked + "&include_adult=false"@
        }),
{
    reveal_strlit("/search/");
    reveal_strlit("/search/movie?query=");
    reveal_strlit("/search/tv?query=");
    reveal_strlit("?query=");
    reveal_strlit("/movie/");
    reveal_strlit("/tv/");
    reveal_strlit("movie");
    reveal_strlit("tv");
    reveal_strlit("/");
    let base = text::trim_end(client.api_base@, CharClass::Slash);
    let id = number::decimal(tmdbid as nat);
    let asked = url::encoded(title@);
    assert("/search/"@ + "movie"@ + "?query="@ =~= "/search/movie?query="@);
    assert("/search/"@ + "tv"@ + "?query="@ =~= "/search/tv?query="@);
    assert("/"@ + "movie"@ + "/"@ =~= "/movie/"@);
    assert("/"@ + "tv"@ + "/"@ =~= "/tv/"@);
    assert(movie_search@ =~= base + "/search/movie?query="@ + asked + "&include_adult=false"@);
    assert(show_search@ =~= base + "/search/tv?query="@ + asked + "&include_adult=false"@);
    assert(movie_year_search@ =~= movie_search@ + "&year="@ + number::decimal(year as nat));
    assert(movie_details@ =~= base + "/movie/"@ + id);
    assert(show_details@ =~= base + "/tv/"@ + id);
    assert(show_ids@ =~= base + "/tv/"@ + id + "/external_ids"@);
}

/// The languages that are known, by their two-letter codes in any case; no other
/// code is.
pub proof fn known_languages(code: Seq<char>)
    ensures
        text::lower(code) == "en"@ ==> language3(code) == Some("eng"@),
        text::lower(code) == "ja"@ ==> language3(code) == Some("jpn"@),
        text::lower(code) == "fr"@ ==> language3(code) == Some("fra"@),
        text::lower(code) == "de"@ ==> language3(code) == Some("deu"@),
        text::lower(code) == "es"@ ==> language3(code) == Some("spa"@),
        text::lower(code) == "it"@ ==> language3(code) == Some("ita"@),
        text::lower(code) == "ru"@ ==> language3(code) == Some("rus"@),
        text::lower(code) == "ko"@ ==> language3(code) == Some("kor"@),
        text::lower(code) == "zh"@ ==> language3(code) == Some("zho"@),
        text::lower(code) == "pt"@ ==> language3(code) == Some("por"@),
        text::lower(code) == "nl"@ ==> language3(code) == Some("nld"@),
        text::lower(code) == "sv"@ ==> language3(code) == Some("swe"@),
        text::lower(code) == "no"@ ==> language3(code) == Some("nor"@),
        text::lower(code) == "da"@ ==> language3(code) == Some("dan"@),
        text::lower(code) == "fi"@ ==> language3(code) == Some("fin"@),
        text::lower(code) == "pl"@ ==> language3(code) == Some("pol"@),
        text::lower(code) == "tr"@ ==> language3(code) == Some("tur"@),
        text::lower(code) == "ar"@ ==> language3(code) == Some("ara"@),
        text::lower(code) == "hi"@ ==> language3(code) == Some("hin"@),
        text::lower(code) == "th"@ ==> language3(code) == Some("tha"@),
        text::lower(code) == "vi"@ ==> language3(code) == Some("vie"@),
        text::lower(code) == "id"@ ==> language3(code) == Some("ind"@),
        text::lower(code) == "cs"@ ==> language3(code) == Some("ces"@),
        text::lower(code) == "el"@ ==> language3(code) == Some("ell"@),
        text::lower(code) == "he"@ ==> language3(code) == Some("heb"@),
        text::lower(code) == "hu"@ ==> language3(code) == Some("hun"@),
        text::lower(code) == "ro"@ ==> language3(code) == Some("ron"@),
        text::lower(code) == "uk"@ ==> language3(code) == Some("ukr"@),
        text::lower(code) == "fa"@ ==> language3(code) == Some("fas"@),
        text::lower(code) == "ms"@ ==> language3(code) == Some("msa"@),
        text::lower(code) == "tl"@ ==> language3(code) == Some("tgl"@),
        text::lower(code) == "ca"@ ==> language3(code) == Some("cat"@),
        text::lower(code) == "nb"@ ==> language3(code) == Some("nob"@),
        language3(code) is Some ==> {
            let c = text::lower(code);
            ||| c == "en"@
            ||| c == "ja"@
            ||| c == "fr"@
            ||| c == "de"@
            ||| c == "es"@
            ||| c == "it"@
            ||| c == "ru"@
            ||| c == "ko"@
            ||| c == "zh"@
            ||| c == "pt"@
            ||| c == "nl"@
            ||| c == "sv"@
            ||| c == "no"@
            ||| c == "da"@
            ||| c == "fi"@
            ||| c == "pl"@
            ||| c == "tr"@
            ||| c == "ar"@
            ||| c == "hi"@
            ||| c == "th"@
            ||| c == "vi"@
            ||| c == "id"@
            ||| c == "cs"@
            ||| c == "el"@
            ||| c == "he"@
            ||| c == "hu"@
            ||| c == "ro"@
            ||| c == "uk"@
            ||| c == "fa"@
            ||| c == "ms"@
            ||| c == "tl"@
            ||| c == "ca"@
            ||| c == "nb"@
        },
        language3(code) matches Some(l) ==> code.len() == 2 && l.len() == 3,
{
    let c = text::lower(code);
    assert(c.len() == code.len());
    reveal_strlit("en");
    reveal_strlit("eng");
    reveal_strlit("ja");
    reveal_strlit("jpn");
    reveal_strlit("fr");
    reveal_strlit("fra");
    reveal_strlit("de");
    reveal_strlit("deu");
    reveal_strlit("es");
    reveal_strlit("spa");
    reveal_strlit("it");
    reveal_strlit("ita");
    reveal_strlit("ru");
    reveal_strlit("rus");
    reveal_strlit("ko");
    reveal_strlit("kor");
    reveal_strlit("zh");
    reveal_strlit("zho");
    reveal_strlit("pt");
    reveal_strlit("por");
    reveal_strlit("nl");
    reveal_strlit("nld");
    reveal_strlit("sv");
    reveal_strlit("swe");
    reveal_strlit("no");
    reveal_strlit("nor");
    reveal_strlit("da");
    reveal_strlit("dan");
    reveal_strlit("fi");
    reveal_strlit("fin");
    reveal_strlit("pl");
    reveal_strlit("pol");
    reveal_strlit("tr");
    reveal_strlit("tur");
    reveal_strlit("ar");
    reveal_strlit("ara");
    reveal_strlit("hi");
    reveal_strlit("hin");
    reveal_strlit("th");
    reveal_strlit("tha");
    reveal_strlit("vi");
    reveal_strlit("vie");
    reveal_strlit("id");
    reveal_strlit("ind");
    reveal_strlit("cs");
    reveal_strlit("ces");
    reveal_strlit("el");
    reveal_strlit("ell");
    reveal_strlit("he");
    reveal_strlit("heb");
    reveal_strlit("hu");
    reveal_strlit("hun");
    reveal_strlit("ro");
    reveal_strlit("ron");
    reveal_strlit("uk");
    reveal_strlit("ukr");
    reveal_strlit("fa");
    reveal_strlit("fas");
    reveal_strlit("ms");
    reveal_strlit("msa");
    reveal_strlit("tl");
    reveal_strlit("tgl");
    reveal_strlit("ca");
    reveal_strlit("cat");
    reveal_strlit("nb");
    reveal_strlit("nob");
    assert("en"@[0] == 'e' && "en"@[1] == 'n');
    assert("ja"@[0] == 'j' && "ja"@[1] == 'a');
    assert("fr"@[0] == 'f' && "fr"@[1] == 'r');
    assert("de"@[0] == 'd' && "de"@[1] == 'e');
    assert("es"@[0] == 'e' && "es"@[1] == 's');
    assert("it"@[0] == 'i' && "it"@[1] == 't');
    assert("ru"@[0] == 'r' && "ru"@[1] == 'u');
    assert("ko"@[0] == 'k' && "ko"@[1] == 'o');
    assert("zh"@[0] == 'z' && "zh"@[1] == 'h');
    assert("pt"@[0] == 'p' && "pt"@[1] == 't');
    assert("nl"@[0] == 'n' && "nl"@[1] == 'l');
    assert("sv"@[0] == 's' && "sv"@[1] == 'v');
    assert("no"@[0] == 'n' && "no"@[1] == 'o');
    assert("da"@[0] == 'd' && "da"@[1] == 'a');
    assert("fi"@[0] == 'f' && "fi"@[1] == 'i');
    assert("pl"@[0] == 'p' && "pl"@[1] == 'l');
    assert("tr"@[0] == 't' && "tr"@[1] == 'r');
    assert("ar"@[0] == 'a' && "ar"@[1] == 'r');
    assert("hi"@[0] == 'h' && "hi"@[1] == 'i');
    assert("th"@[0] == 't' && "th"@[1] == 'h');
    assert("vi"@[0] == 'v' && "vi"@[1] == 'i');
    assert("id"@[0] == 'i' && "id"@[1] == 'd');
    assert("cs"@[0] == 'c' && "cs"@[1] == 's');
    assert("el"@[0] == 'e' && "el"@[1] == 'l');
    assert("he"@[0] == 'h' && "he"@[1] == 'e');
    assert("hu"@[0] == 'h' && "hu"@[1] == 'u');
    assert("ro"@[0] == 'r' && "ro"@[1] == 'o');
    assert("uk"@[0] == 'u' && "uk"@[1] == 'k');
    assert("fa"@[0] == 'f' && "fa"@[1] == 'a');
    assert("ms"@[0] == 'm' && "ms"@[1] == 's');
    assert("tl"@[0] == 't' && "tl"@[1] == 'l');
    assert("ca"@[0] == 'c' && "ca"@[1] == 'a');
    assert("nb"@[0] == 'n' && "nb"@[1] == 'b');
}

/// The outcome of a title search is its first result, and a search without results
/// found nothing; a list gives all its results in order.
pub proof fn first_result_is_taken(
    results: Vec<TmdbSearchItem>,
    kind: TmdbKind,
    r: TmdbCall<TmdbHit>,
    all: Vec<TmdbHit>,
    i: int,
)
    requires
        all_date_like(results@, kind),
        call_ensures(first_hit, (results, kind), r),
        call_ensures(all_hits, (results, kind), all),
        0 <= i < results@.len(),
    ensures
        r matches TmdbCall::Hit(h) && results@[0].describes(kind, h@),
        all@.len() == results@.len(),
        results@[i].describes(kind, all@[i]@),
{
    assert(results@[i].describes(kind, all@[i]@));
}

/// A show without a name gives no entry.
pub proof fn nameless_show_is_no_entry(
    show: TmdbTvDetails,
    tmdbid: u64,
    r: Option<TmdbHit>,
    known: bool,
    season: i64,
    episode: i64,
)
    requires
        call_ensures(TmdbTvDetails::as_hit, (&show, tmdbid), r),
        call_ensures(episode_in_season, (&show, season, episode), known),
    ensures
        r is Some <==> !text::is_blank(show.name@),
        r matches Some(h) ==> show.describes(tmdbid, h@),
        known <==> (season_entry(show.seasons@, season as int) matches Some(e) && 1 <= episode
            <= e.episode_count),
{
}

/// TMDB is reached at its public addresses unless others are given, and with the
/// token as it is; a list is asked for below the base, with one slash between.
pub proof fn where_tmdb_is_reached(
    token: String,
    api_base: String,
    image_base: String,
    public: TmdbClient,
    other: TmdbClient,
    path: &str,
    list: String,
    poster: String,
)
    requires
        call_ensures(TmdbClient::new, (token,), public),
        call_ensures(TmdbClient::with_bases, (token, api_base, image_base), other),
        call_ensures(TmdbClient::discovery_url, (&other, path), list),
        call_ensures(TmdbClient::poster_cdn_url, (&other, path), poster),
    ensures
        public.bearer_token@ == token@,
        public.api_base@ == "https://api.themoviedb.org/3"@,
        public.image_base@ == "https://image.tmdb.org/t/p"@,
        other.bearer_token@ == token@,
        other.api_base@ == api_base@,
        other.image_base@ == image_base@,
        list@ == text::trim_end(api_base@, CharClass::Slash) + "/"@ + text::trim_start(
            path@,
            CharClass::Slash,
        ),
        poster@ == text::trim_end(image_base@, CharClass::Slash) + "/w500/"@ + text::trim_start(
            path@,
            CharClass::Slash,
        ),
{
    poster_url_form(image_base@, path@);
}

/// The anchors that are picked are the most popular candidates; a query without
/// words, or asking for none, picks none.
pub proof fn anchors_are_picked(
    hits: Vec<TmdbMultiItem>,
    query: &str,
    n: usize,
    r: Vec<usize>,
)
    requires
        call_ensures(principal_top_n, (&hits, query, n), r),
    ensures
        tokens(query@).len() == 0 || n == 0 ==> r@.len() == 0,
        tokens(query@).len() > 0 && n > 0 ==> is_top_n(
            hits@,
            tokens(query@),
            n as nat,
            rank::positions(r@),
        ),
        r@.len() <= n,
{
    if tokens(query@).len() > 0 && n > 0 {
        lemma_top_n_places(hits@, tokens(query@), n as nat, rank::positions(r@));
        assert(rank::positions(r@).len() == r@.len());
    }
}

/// A result is shown under its title, or else under its name.
pub proof fn results_are_shown_by_title(hit: TmdbMultiItem)
    ensures
        hit.title matches Some(t) ==> hit.shown_title() == t@,
        hit.title is None ==> (hit.name matches Some(n) ==> hit.shown_title() == n@),
        hit.title is None && hit.name is None ==> hit.shown_title().len() == 0,
{
}

/// The language of an entry is read without white space round its code; an entry
/// without a code has none.
pub proof fn language_is_read_from_its_code(hit: HitView)
    ensures
        hit.original_language matches Some(l) ==> hit.lang3() == language3(text::trim(l)),
        hit.original_language is None ==> hit.lang3() is None,
{
}

/// A code is mapped as the table of languages has it, and the language of an entry
/// as its code is.
pub proof fn languages_are_mapped(
    code: &str,
    r: Option<&'static str>,
    hit: TmdbHit,
    own: Option<&'static str>,
    header: &str,
    told: u64,
    untold: u64,
)
    requires
        call_ensures(iso639_1_to_3, (code,), r),
        call_ensures(TmdbHit::original_lang3, (&hit,), own),
        call_ensures(parse_tmdb_retry_after, (Some(header),), told),
        call_ensures(parse_tmdb_retry_after, (None,), untold),
    ensures
        r is Some <==> language3(code@) is Some,
        r matches Some(l) ==> language3(code@) == Some(l@),
        own is Some <==> hit@.lang3() is Some,
        own matches Some(l) ==> hit@.lang3() == Some(l@),
        told == retry_secs(Some(header@)),
        untold == 5,
{
    retry_is_as_told(0);
}

/// A date that begins with four ASCII characters can be cut after them, and a date
/// that is not told needs no cutting; so every list of dated entries can be read.
pub proof fn ordinary_dates_can_be_cut(d: Seq<char>)
    requires
        d.len() >= 4,
        forall|i: int| 0 <= i < 4 ==> (#[trigger] d[i] as u32) < 0x80,
    ensures
        is_date_like(Some(d)),
        is_date_like(None),
{
    assert((d[0] as u32) < 0x80 && (d[1] as u32) < 0x80 && (d[2] as u32) < 0x80 && (d[3] as u32)
        < 0x80);
}

/// A year narrows a search of either kind, and what an entry is called elsewhere is
/// asked for below the entry.
pub proof fn years_narrow_searches(
    client: TmdbClient,
    kind: TmdbKind,
    title: &str,
    year: u16,
    tmdbid: u64,
    wide: String,
    narrow: String,
    details: String,
    ids: String,
)
    requires
        call_ensures(TmdbClient::search_url, (&client, kind, title, None), wide),
        call_ensures(TmdbClient::search_url, (&client, kind, title, Some(year)), narrow),
        call_ensures(TmdbClient::details_url, (&client, kind, tmdbid), details),
        call_ensures(TmdbClient::external_ids_url, (&client, kind, tmdbid), ids),
    ensures
        narrow@ == wide@ + "&year="@ + number::decimal(year as nat),
        ids@ == details@ + "/external_ids"@,
{
    assert(narrow@ =~= wide@ + "&year="@ + number::decimal(year as nat));
}

/// A pause that cannot be read counts as not told.
pub proof fn unreadable_pause_is_five_seconds(header: Seq<char>)
    ensures
        number::parse_unsigned(header, 0xffff_ffff_ffff_ffff) is None ==> retry_secs(Some(header))
            == 5,
        number::parse_unsigned(header, 0xffff_ffff_ffff_ffff) matches Some(n) ==> retry_secs(
            Some(header),
        ) == n,
{
}

} // verus!
