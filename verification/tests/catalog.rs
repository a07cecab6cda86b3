use tribler_feeder::consts::{search_probe_timeout, TMDB_ENRICH_WAIT_DEADLINE_SECS};
use tribler_feeder::discovery::{
    begin_discovery, build_path_and_query, build_seed_record, discovery_kind, discovery_mode,
    filter_is_true, is_discovery_query, DiscoveryMode,
};
use tribler_feeder::keymap::Filters;
use tribler_feeder::record::GatewayQuery;
use tribler_feeder::tmdb::{
    all_hits, episode_in_season, first_hit, iso639_1_to_3, norm_tokens, parse_tmdb_retry_after,
    principal_top_n, season_episode_bounds, settle_call, triage, SeasonEpisodeBounds, TmdbCall,
    TmdbClient, TmdbHit, TmdbKind, TmdbMovieDetails, TmdbMultiItem, TmdbSearchItem,
    TmdbSeasonSummary, TmdbTvDetails, Triage,
};

fn details(num_seasons: u32, seasons: &[(i64, u32)]) -> TmdbTvDetails {
    TmdbTvDetails {
        number_of_seasons: num_seasons,
        seasons: seasons
            .iter()
            .map(|&(season_number, episode_count)| TmdbSeasonSummary {
                season_number,
                episode_count,
            })
            .collect(),
        ..Default::default()
    }
}

#[test]
fn bounds_ok_within_season() {
    let d = details(2, &[(1, 26), (2, 24)]);
    assert_eq!(season_episode_bounds(&d, Some(1), Some(5)), SeasonEpisodeBounds::InBounds);
    assert_eq!(season_episode_bounds(&d, Some(2), Some(24)), SeasonEpisodeBounds::InBounds);
}

#[test]
fn bounds_no_season_or_unknown_structure_is_ok() {
    let d = details(2, &[(1, 26), (2, 24)]);
    assert_eq!(season_episode_bounds(&d, None, Some(999)), SeasonEpisodeBounds::InBounds);
    let unknown = details(0, &[]);
    assert_eq!(season_episode_bounds(&unknown, Some(5), Some(40)), SeasonEpisodeBounds::InBounds);
}

#[test]
fn bounds_season_past_total_is_overflow() {
    let d = details(1, &[(1, 28)]);
    assert_eq!(season_episode_bounds(&d, Some(2), Some(3)), SeasonEpisodeBounds::SeasonOverflow);
}

#[test]
fn bounds_episode_past_matched_season_or_negative_is_contradiction() {
    let d = details(4, &[(1, 26), (2, 13), (3, 13), (4, 12)]);
    assert_eq!(season_episode_bounds(&d, Some(1), Some(27)), SeasonEpisodeBounds::Contradiction);
    assert_eq!(season_episode_bounds(&d, Some(-1), None), SeasonEpisodeBounds::Contradiction);
}

#[test]
fn bounds_of_listed_and_unlisted_seasons() {
    let d = details(1, &[(0, 3), (7, 0)]);
    assert_eq!(season_episode_bounds(&d, Some(0), Some(4)), SeasonEpisodeBounds::Contradiction);
    assert_eq!(season_episode_bounds(&d, Some(7), Some(400)), SeasonEpisodeBounds::InBounds);
    assert_eq!(season_episode_bounds(&d, Some(1), Some(400)), SeasonEpisodeBounds::InBounds);
    assert!(episode_in_season(&d, 0, 3));
    assert!(!episode_in_season(&d, 0, 0));
    assert!(!episode_in_season(&d, 0, 4));
    assert!(!episode_in_season(&d, 7, 1));
    assert!(!episode_in_season(&d, 1, 1));
}

#[test]
fn request_urls() {
    let c = TmdbClient::with_bases(
        "tok".to_string(),
        "http://api/3/".to_string(),
        "http://img".to_string(),
    );
    assert_eq!(
        c.search_url(TmdbKind::Movie, "A B", Some(1999)),
        "http://api/3/search/movie?query=A%20B&include_adult=false&year=1999"
    );
    assert_eq!(
        c.search_url(TmdbKind::Tv, "x", None),
        "http://api/3/search/tv?query=x&include_adult=false"
    );
    assert_eq!(c.details_url(TmdbKind::Tv, 7), "http://api/3/tv/7");
    assert_eq!(c.details_url(TmdbKind::Movie, 7), "http://api/3/movie/7");
    assert_eq!(
        c.external_ids_url(TmdbKind::Movie, 7),
        "http://api/3/movie/7/external_ids"
    );
    assert_eq!(
        c.search_multi_url("a&b"),
        "http://api/3/search/multi?query=a%26b&include_adult=false"
    );
    assert_eq!(c.discovery_url("//movie/popular?page=1"), "http://api/3/movie/popular?page=1");
    assert_eq!(c.poster_cdn_url("/p.jpg"), "http://img/w500/p.jpg");
    let d = TmdbClient::new("t".to_string());
    assert_eq!(d.poster_cdn_url("p.jpg"), "https://image.tmdb.org/t/p/w500/p.jpg");
    assert_eq!(d.details_url(TmdbKind::Tv, 1), "https://api.themoviedb.org/3/tv/1");
    assert_eq!(d.bearer_token, "t");
}

#[test]
fn replies_are_judged_by_status() {
    assert_eq!(triage(None), Triage::Miss);
    assert_eq!(triage(Some((200, None))), Triage::Decode);
    assert_eq!(triage(Some((299, None))), Triage::Decode);
    assert_eq!(triage(Some((300, None))), Triage::Miss);
    assert_eq!(triage(Some((404, Some("9")))), Triage::Miss);
    assert_eq!(triage(Some((429, Some("9")))), Triage::RateLimited(9));
    assert_eq!(triage(Some((429, None))), Triage::RateLimited(5));
    assert_eq!(parse_tmdb_retry_after(Some("soon")), 5);
    assert_eq!(parse_tmdb_retry_after(Some(" 3")), 5);
    assert_eq!(parse_tmdb_retry_after(Some("+3")), 3);
    assert!(matches!(settle_call(Triage::Decode, Some(1)), TmdbCall::Hit(1)));
    assert!(matches!(settle_call::<u8>(Triage::Decode, None), TmdbCall::Miss));
    assert!(matches!(settle_call(Triage::Miss, Some(1)), TmdbCall::Miss));
    assert!(matches!(
        settle_call::<u8>(Triage::RateLimited(4), None),
        TmdbCall::RateLimited(4)
    ));
}

fn item(title: Option<&str>, name: Option<&str>, date: &str) -> TmdbSearchItem {
    TmdbSearchItem {
        id: 11,
        title: title.map(str::to_string),
        name: name.map(str::to_string),
        original_title: Some("OT".to_string()),
        original_name: Some("ON".to_string()),
        overview: Some("o".to_string()),
        release_date: Some(date.to_string()),
        first_air_date: Some("1998-01-02".to_string()),
        poster_path: Some("/p".to_string()),
        genre_ids: vec![1, 2],
        original_language: Some("fr".to_string()),
    }
}

#[test]
fn results_become_entries() {
    let m = item(Some("M"), Some("S"), "2020-05-06").into_hit(TmdbKind::Movie);
    assert_eq!(m.tmdbid, 11);
    assert_eq!(m.title, "M");
    assert_eq!(m.original_title.as_deref(), Some("OT"));
    assert_eq!(m.year, Some(2020));
    assert_eq!(m.genre_ids, vec![1, 2]);
    assert_eq!(m.original_lang3(), Some("fra"));
    let t = item(Some("M"), None, "").into_hit(TmdbKind::Tv);
    assert_eq!(t.title, "(untitled)");
    assert_eq!(t.original_title.as_deref(), Some("ON"));
    assert_eq!(t.year, Some(1998));
    assert_eq!(item(None, None, "202").into_hit(TmdbKind::Movie).year, None);
    assert_eq!(item(None, None, "20x0-1").into_hit(TmdbKind::Movie).year, None);
    match first_hit(vec![item(Some("A"), None, ""), item(Some("B"), None, "")], TmdbKind::Movie) {
        TmdbCall::Hit(h) => assert_eq!(h.title, "A"),
        _ => panic!("hit expected"),
    }
    assert!(matches!(first_hit(vec![], TmdbKind::Movie), TmdbCall::Miss));
    let all = all_hits(vec![item(Some("A"), None, ""), item(Some("B"), None, "")], TmdbKind::Movie);
    assert_eq!(all.iter().map(|h| h.title.as_str()).collect::<Vec<_>>(), vec!["A", "B"]);
}

#[test]
fn details_become_entries() {
    let mut d = details(1, &[]);
    assert!(!d.has_display());
    assert!(d.as_hit(5).is_none());
    d.name = "Show".to_string();
    d.first_air_date = Some("2011-04-17".to_string());
    let h = d.as_hit(5).unwrap();
    assert_eq!((h.tmdbid, h.title.as_str(), h.year), (5, "Show", Some(2011)));
    assert!(h.genre_ids.is_empty());
    let m = TmdbMovieDetails {
        id: 8,
        title: None,
        original_title: None,
        original_language: None,
        overview: Some("o".to_string()),
        release_date: Some("1984".to_string()),
        poster_path: None,
    }
    .into_hit();
    assert_eq!((m.tmdbid, m.title.as_str(), m.year), (8, "(untitled)", Some(1984)));
    assert_eq!(m.original_lang3(), None);
}

#[test]
fn language_codes() {
    assert_eq!(iso639_1_to_3("EN"), Some("eng"));
    assert_eq!(iso639_1_to_3("de"), Some("deu"));
    assert_eq!(iso639_1_to_3("nb"), Some("nob"));
    assert_eq!(iso639_1_to_3("xx"), None);
    assert_eq!(iso639_1_to_3(" en"), None);
}

#[test]
fn tokens_are_lower_case_words() {
    assert_eq!(norm_tokens("Black-Mirror: É 2"), vec!["black", "mirror", "é", "2"]);
    assert!(norm_tokens(" .. ").is_empty());
}

fn multi(id: u64, kind: Option<&str>, title: &str, popularity: i64) -> TmdbMultiItem {
    TmdbMultiItem {
        id,
        media_type: kind.map(str::to_string),
        title: None,
        name: Some(title.to_string()),
        popularity,
    }
}

#[test]
fn anchors_need_half_of_the_words() {
    let hits = vec![
        multi(1, Some("tv"), "Black Mirror", 3),
        multi(2, Some("tv"), "Black Butler", 9),
        multi(3, None, "Black", 100),
        multi(4, Some("movie"), "Something", 50),
        multi(5, Some("movie"), "black lagoon", 9),
    ];
    assert_eq!(principal_top_n(&hits, "black", 10), vec![1, 4, 0]);
    assert_eq!(principal_top_n(&hits, "black", 1), vec![1]);
    assert_eq!(principal_top_n(&hits, "Black mirror", 10), vec![1, 4, 0]);
    assert_eq!(principal_top_n(&hits, "black mirror season", 10), vec![0]);
    assert!(principal_top_n(&hits, "zzz qqq www", 10).is_empty());
    assert!(principal_top_n(&hits, "black", 0).is_empty());
    assert!(principal_top_n(&hits, "", 5).is_empty());
    assert_eq!(hits[0].display_title(), "Black Mirror");
    assert_eq!(hits[2].kind(), None);
}

fn query(free: &str, filters: &[(&str, &[&str])]) -> GatewayQuery {
    let mut f = Filters::new();
    for (k, vs) in filters {
        f.insert(k, vs.iter().map(|v| v.to_string()).collect());
    }
    GatewayQuery {
        free_text: free.to_string(),
        filters: f,
    }
}

#[test]
fn discovery_queries_have_a_list_and_no_text() {
    assert!(is_discovery_query(&query(" ", &[("popular", &["True"])])));
    assert!(!is_discovery_query(&query("x", &[("popular", &["true"])])));
    assert!(!is_discovery_query(&query("", &[("popular", &["yes"])])));
    let all: &[(&str, &[&str])] = &[
        ("top_rated", &["true"]),
        ("popular", &["true"]),
        ("trending", &["false", "true"]),
    ];
    assert_eq!(discovery_mode(&query("", all)), Some(DiscoveryMode::Trending));
    assert_eq!(discovery_mode(&query("", &all[..2])), Some(DiscoveryMode::Popular));
    assert_eq!(discovery_mode(&query("", &all[..1])), Some(DiscoveryMode::TopRated));
    assert!(!filter_is_true(&query("", &[]), "popular"));
}

#[test]
fn discovery_kinds() {
    let k = |vs: &[&str]| discovery_kind(&query("", &[("contentKind", vs)]));
    assert_eq!(k(&["x", " Movie "]), Some(TmdbKind::Movie));
    assert_eq!(k(&["episode"]), Some(TmdbKind::Tv));
    assert_eq!(k(&["TVSHOW"]), Some(TmdbKind::Tv));
    assert_eq!(k(&["tv", "movie"]), Some(TmdbKind::Tv));
    assert_eq!(k(&["music"]), None);
    assert_eq!(discovery_kind(&query("", &[])), None);
}

#[test]
fn list_paths() {
    let p = build_path_and_query;
    assert_eq!(p(DiscoveryMode::Popular, TmdbKind::Movie, false, 1), "movie/popular?page=1");
    assert_eq!(p(DiscoveryMode::TopRated, TmdbKind::Tv, false, 2), "tv/top_rated?page=2");
    assert_eq!(p(DiscoveryMode::Trending, TmdbKind::Tv, false, 3), "trending/tv/week?page=3");
    assert_eq!(
        p(DiscoveryMode::TopRated, TmdbKind::Movie, true, 1),
        "discover/movie?with_keywords=210024&sort_by=vote_average.desc&include_adult=false&vote_count.gte=200&page=1"
    );
    assert_eq!(
        p(DiscoveryMode::Trending, TmdbKind::Tv, true, 1),
        "discover/tv?with_keywords=210024&sort_by=popularity.desc&include_adult=false&page=1"
    );
}

fn entry(id: u64, year: Option<u16>) -> TmdbHit {
    TmdbHit {
        tmdbid: id,
        title: format!("T{id}"),
        original_title: None,
        original_language: None,
        overview: None,
        year,
        poster_path: None,
        genre_ids: vec![],
    }
}

#[test]
fn seeds_echo_the_query() {
    let s = build_seed_record(&entry(603, Some(1999)), TmdbKind::Movie, DiscoveryMode::Popular, true);
    assert_eq!(s.record_id, "tmdb:movie:603");
    assert_eq!(s.upstream_id, "prowlarr");
    for (k, v) in [
        ("popular", "true"),
        ("contentKind", "movie"),
        ("fileType", "video"),
        ("anime", "true"),
        ("title", "T603"),
        ("tmdbid", "603"),
        ("movieYear", "1999"),
    ] {
        assert_eq!(s.fields.get(k).map(String::as_str), Some(v));
    }
    assert_eq!(s.fields.len(), 7);
    let t = build_seed_record(&entry(1, None), TmdbKind::Tv, DiscoveryMode::TopRated, false);
    assert_eq!(t.record_id, "tmdb:tv:1");
    assert_eq!(t.fields.get("contentKind").map(String::as_str), Some("episode"));
    assert_eq!(t.fields.get("top_rated").map(String::as_str), Some("true"));
    assert_eq!(t.fields.len(), 5);
}

#[test]
fn discovery_walks_pages_until_full() {
    let q = query("", &[("popular", &["true"]), ("contentKind", &["movie"])]);
    let mut d = begin_discovery(&q, 30).unwrap();
    assert_eq!(d.pages, 2);
    assert_eq!(d.next_page().as_deref(), Some("movie/popular?page=1"));
    let page: Vec<TmdbHit> = (0..20).map(|i| entry(i, None)).collect();
    assert_eq!(d.take_reply(&TmdbCall::Hit(page)), None);
    assert_eq!(d.next_page().as_deref(), Some("movie/popular?page=2"));
    let page: Vec<TmdbHit> = (20..40).map(|i| entry(i, None)).collect();
    assert_eq!(d.take_reply(&TmdbCall::Hit(page)), None);
    assert_eq!(d.next_page(), None);
    let out = d.finish();
    assert_eq!(out.len(), 30);
    assert_eq!(out[29].record_id, "tmdb:movie:29");
}

#[test]
fn discovery_ends_early() {
    let q = query("", &[("trending", &["true"]), ("contentKind", &["tv"]), ("anime", &["true"])]);
    let mut d = begin_discovery(&q, 100).unwrap();
    assert!(d.anime);
    assert_eq!(d.take_reply(&TmdbCall::RateLimited(8)), Some(8));
    assert_eq!(d.next_page(), None);
    let mut d = begin_discovery(&q, 100).unwrap();
    assert_eq!(d.take_reply(&TmdbCall::Hit(vec![])), None);
    assert_eq!(d.next_page(), None);
    let mut d = begin_discovery(&q, 100).unwrap();
    assert_eq!(d.take_reply(&TmdbCall::Miss), None);
    assert_eq!(d.next_page(), None);
    let mut d = begin_discovery(&q, 100).unwrap();
    d.give_up();
    assert_eq!(d.next_page(), None);
    assert!(d.finish().is_empty());
    let none = begin_discovery(&q, 0).unwrap();
    assert_eq!(none.pages, 1);
    assert_eq!(begin_discovery(&q, 20).unwrap().pages, 1);
    assert_eq!(begin_discovery(&q, 21).unwrap().pages, 2);
    let many: u64 = 20 << 32;
    if let Ok(n) = usize::try_from(many) {
        assert_eq!(begin_discovery(&q, n).unwrap().pages, u32::MAX);
        assert_eq!(begin_discovery(&q, usize::MAX).unwrap().pages, u32::MAX);
    }
    assert_eq!(none.next_page(), None);
    assert!(begin_discovery(&query("", &[("popular", &["true"])]), 5).is_none());
    assert!(begin_discovery(&query("", &[("contentKind", &["tv"])]), 5).is_none());
}

#[test]
fn timeouts() {
    assert_eq!(search_probe_timeout(), 300);
    assert_eq!(TMDB_ENRICH_WAIT_DEADLINE_SECS, 3000);
}
