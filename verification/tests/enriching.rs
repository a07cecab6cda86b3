use tribler_feeder::enrich::{
    after_search, apply_outcome, begin_search, build_enrichment_patch, build_stub_patch,
    decode_cached_hit, decode_principal_list, encode_principal_list, first_anchors, kind_from_str,
    kind_str, needs_tv_details, or_stub, other_kind, plan_lookup, principal_key, principal_step,
    ranked_anchors, raw_title_of, search_source, set_poster_url, settle_principal, settle_request,
    settle_search, stream_outcome, switch_is_on, tmdb_search_key, usable_details, CacheWrite,
    EnrichOutcome, Lookup, PrincipalEntry, PrincipalStep, SearchSource, SearchStep, CACHED_MISS,
};
use tribler_feeder::keymap::Fields;
use tribler_feeder::record::{DiscoveryRecord, GatewaySearchEvent};
use tribler_feeder::tmdb::{
    TmdbCall, TmdbClient, TmdbHit, TmdbKind, TmdbMultiItem, TmdbSeasonSummary, TmdbTvDetails,
};

fn fields(pairs: &[(&str, &str)]) -> Fields {
    let mut f = Fields::new();
    for (k, v) in pairs {
        f.insert(k, v.to_string());
    }
    f
}

fn rec(pairs: &[(&str, &str)]) -> DiscoveryRecord {
    DiscoveryRecord {
        upstream_id: "tribler".to_string(),
        record_id: "r1".to_string(),
        fields: fields(pairs),
    }
}

fn patch_set(outcome: Option<EnrichOutcome>) -> Fields {
    match outcome {
        Some(EnrichOutcome::Patch { set, .. }) => set,
        _ => panic!("expected a stub patch"),
    }
}

fn hit() -> TmdbHit {
    TmdbHit {
        tmdbid: 46260,
        title: "Naruto".to_string(),
        original_title: Some("ナルト".to_string()),
        original_language: Some("ja".to_string()),
        overview: Some("A ninja.".to_string()),
        year: Some(2002),
        poster_path: Some("/abc.jpg".to_string()),
        genre_ids: vec![16],
    }
}

fn get(f: &Fields, key: &str) -> Option<String> {
    f.get(key).cloned()
}

fn some(s: &str) -> Option<String> {
    Some(s.to_string())
}

#[test]
fn xxx_record_with_no_kind_gets_full_video_stub() {
    let set = patch_set(build_stub_patch(&fields(&[
        ("title", "Some Release"),
        ("categories/XXX", "true"),
    ])));
    assert_eq!(set.get("fileType").map(String::as_str), Some("video"));
    assert_eq!(set.get("videoType").map(String::as_str), Some("movie"));
    assert!(set.contains_key("poster"));
    assert!(set.contains_key("description"));
}

#[test]
fn existing_video_kind_and_desc_are_preserved() {
    let set = patch_set(build_stub_patch(&fields(&[
        ("title", "Anime S01E01"),
        ("fileType", "video"),
        ("videoType", "tvshow"),
        ("contentKind", "episode"),
        ("plot/eng", "real synopsis"),
    ])));
    assert!(!set.contains_key("fileType"));
    assert!(!set.contains_key("videoType"));
    assert!(!set.contains_key("description"));
    assert_eq!(
        set.get("poster").map(String::as_str),
        Some("stub-no-tmdb-poster")
    );
}

#[test]
fn no_title_or_nothing_missing_returns_none() {
    assert!(build_stub_patch(&fields(&[("categories/XXX", "true")])).is_none());
    assert!(build_stub_patch(&fields(&[
        ("title", "x"),
        ("fileType", "video"),
        ("poster", "real-cid"),
        ("description", "real"),
    ]))
    .is_none());
}

#[test]
fn stub_keeps_the_content_kind() {
    let set = patch_set(build_stub_patch(&fields(&[("title", "x"), ("contentKind", "episode")])));
    assert!(!set.contains_key("contentKind"));
    assert_eq!(get(&set, "fileType"), some("video"));
    let set = patch_set(build_stub_patch(&fields(&[("title", "x")])));
    assert_eq!(get(&set, "contentKind"), some("movie"));
}

#[test]
fn stub_makes_the_record_complete() {
    let mut r = rec(&[("title", "x"), ("poster", "  "), ("videoType", "EPISODE")]);
    let o = build_stub_patch(&r.fields).unwrap();
    assert!(apply_outcome(&mut r, &o));
    assert_eq!(get(&r.fields, "poster"), some("stub-no-tmdb-poster"));
    assert_eq!(
        get(&r.fields, "description"),
        some("[STUB] Simulated unmatched/polluted record (no TMDB match) — for adult-filter testing.")
    );
    assert_eq!(get(&r.fields, "fileType"), None);
    assert!(build_stub_patch(&r.fields).is_none());
}

#[test]
fn stubs_are_off_unless_switched_on() {
    let r = rec(&[("title", "x")]);
    assert!(matches!(or_stub(EnrichOutcome::Noop, &r, false), EnrichOutcome::Noop));
    assert!(matches!(
        or_stub(EnrichOutcome::Noop, &r, true),
        EnrichOutcome::Patch { .. }
    ));
    assert!(matches!(or_stub(EnrichOutcome::Drop, &r, true), EnrichOutcome::Drop));
    for on in ["1", " TRUE ", "yes", "On"] {
        assert!(switch_is_on(on));
    }
    for off in ["", "0", "false", "enabled"] {
        assert!(!switch_is_on(off));
    }
}

#[test]
fn lookup_prefers_the_named_entry() {
    match plan_lookup(&rec(&[("contentKind", "episode"), ("tmdbid", " 42 "), ("title", "T")])) {
        Lookup::ById { kind, tmdbid } => {
            assert_eq!(kind, TmdbKind::Tv);
            assert_eq!(tmdbid, 42);
        }
        _ => panic!("by id expected"),
    }
    match plan_lookup(&rec(&[("contentKind", "movie"), ("tmdbid", "x"), ("title", " T ")])) {
        Lookup::ByTitle { kind, raw_title } => {
            assert_eq!(kind, TmdbKind::Movie);
            assert_eq!(raw_title, "T");
        }
        _ => panic!("by title expected"),
    }
    assert!(matches!(
        plan_lookup(&rec(&[("contentKind", "music"), ("title", "T")])),
        Lookup::Nowhere
    ));
    assert!(matches!(plan_lookup(&rec(&[("title", "T")])), Lookup::Nowhere));
    assert!(matches!(
        plan_lookup(&rec(&[("contentKind", "movie"), ("title", " ")])),
        Lookup::Nowhere
    ));
    assert_eq!(raw_title_of(&fields(&[("title", " a b ")])), some("a b"));
}

#[test]
fn title_search_falls_back_to_the_other_kind() {
    assert!(matches!(begin_search("", TmdbKind::Tv), SearchStep::GiveUp));
    assert!(matches!(begin_search("x", TmdbKind::Tv), SearchStep::Ask(TmdbKind::Tv)));
    assert!(matches!(
        after_search(TmdbKind::Tv, TmdbKind::Tv, None),
        SearchStep::Ask(TmdbKind::Movie)
    ));
    assert!(matches!(
        after_search(TmdbKind::Tv, TmdbKind::Movie, None),
        SearchStep::GiveUp
    ));
    match after_search(TmdbKind::Movie, TmdbKind::Tv, Some(hit())) {
        SearchStep::Found(h, k) => {
            assert_eq!(h.tmdbid, 46260);
            assert_eq!(k, TmdbKind::Tv);
        }
        _ => panic!("found expected"),
    }
    assert_eq!(other_kind(TmdbKind::Movie), TmdbKind::Tv);
    assert_eq!(other_kind(TmdbKind::Tv), TmdbKind::Movie);
}

#[test]
fn search_keys() {
    assert_eq!(
        tmdb_search_key(TmdbKind::Movie, "Dune", Some(2021)),
        "m\u{1}Dune\u{1}2021"
    );
    assert_eq!(tmdb_search_key(TmdbKind::Tv, "Dark", None), "t\u{1}Dark\u{1}");
}

#[test]
fn cached_null_is_a_miss() {
    assert!(decode_cached_hit("null", Some(hit())).is_none());
    assert_eq!(decode_cached_hit("{}", Some(hit())).unwrap().tmdbid, 46260);
    assert!(decode_cached_hit("garbage", None).is_none());
}

#[test]
fn search_is_settled_by_its_reply() {
    let (h, w, p) = settle_search(Some(TmdbCall::Hit(hit())));
    assert!(h.is_some());
    assert_eq!((w, p), (CacheWrite::Found, None));
    let (h, w, p) = settle_search(Some(TmdbCall::Miss));
    assert!(h.is_none());
    assert_eq!((w, p), (CacheWrite::NotFound, None));
    let (h, w, p) = settle_search(Some(TmdbCall::RateLimited(7)));
    assert!(h.is_none());
    assert_eq!((w, p), (CacheWrite::Nothing, Some(7)));
    let (h, w, p) = settle_search(None);
    assert!(h.is_none());
    assert_eq!((w, p), (CacheWrite::Nothing, None));
    assert_eq!(settle_request(Some(TmdbCall::Hit(3u8))), (Some(3), None));
    assert_eq!(settle_request(Some(TmdbCall::<u8>::Miss)), (None, None));
    assert_eq!(settle_request(Some(TmdbCall::<u8>::RateLimited(9))), (None, Some(9)));
    assert_eq!(settle_request(None::<TmdbCall<u8>>), (None, None));
}

#[test]
fn cache_and_searches_under_way_save_requests() {
    assert!(matches!(
        search_source(Some((CACHED_MISS, Some(hit()))), true),
        SearchSource::Answer(None)
    ));
    match search_source(Some(("{}", Some(hit()))), false) {
        SearchSource::Answer(Some(h)) => assert_eq!(h.tmdbid, 46260),
        _ => panic!("expected an answer"),
    }
    assert!(matches!(
        search_source(Some(("garbage", None)), false),
        SearchSource::Answer(None)
    ));
    assert!(matches!(search_source(None, true), SearchSource::Join));
    assert!(matches!(search_source(None, false), SearchSource::Lead));
}

#[test]
fn details_without_a_name_are_asked_for_anew() {
    assert!(usable_details(None).is_none());
    assert!(usable_details(Some(TmdbTvDetails::default())).is_none());
    let named = TmdbTvDetails {
        name: "Dark".to_string(),
        ..Default::default()
    };
    assert_eq!(usable_details(Some(named)).unwrap().name, "Dark");
}

#[test]
fn different_searches_have_different_keys() {
    let a = tmdb_search_key(TmdbKind::Movie, "a\u{1}2001", None);
    let b = tmdb_search_key(TmdbKind::Movie, "a", Some(2001));
    assert_eq!(a, "m\u{1}a\u{1}2001\u{1}");
    assert_eq!(b, "m\u{1}a\u{1}2001");
    assert_ne!(a, b);
}

#[test]
fn enriched_record_is_found_by_id() {
    let mut r = rec(&[("title", "Naruto 001"), ("contentKind", "movie")]);
    let outcome = build_enrichment_patch(&r, &hit(), TmdbKind::Tv, &some("Naruto 001"), &None);
    assert!(apply_outcome(&mut r, &outcome));
    assert!(matches!(
        plan_lookup(&r),
        Lookup::ById {
            kind: TmdbKind::Tv,
            tmdbid: 46260
        }
    ));
}

#[test]
fn movie_match_clears_season_and_episode() {
    let mut r = rec(&[
        ("title", "[G] Naruto - 05"),
        ("season", "1"),
        ("episode", "5"),
        ("contentKind", "episode"),
    ]);
    assert!(!needs_tv_details(&r, TmdbKind::Movie));
    let o = build_enrichment_patch(
        &r,
        &hit(),
        TmdbKind::Movie,
        &some("[G] Naruto - 05"),
        &None,
    );
    assert!(apply_outcome(&mut r, &o));
    assert_eq!(get(&r.fields, "title"), some("Naruto"));
    assert_eq!(get(&r.fields, "originalTitle"), some("[G] Naruto - 05"));
    assert_eq!(get(&r.fields, "titles/jpn"), some("ナルト"));
    assert_eq!(get(&r.fields, "description/eng"), some("A ninja."));
    assert_eq!(get(&r.fields, "movieYear"), some("2002"));
    assert_eq!(get(&r.fields, "tmdbid"), some("46260"));
    assert_eq!(get(&r.fields, "contentKind"), some("movie"));
    assert_eq!(get(&r.fields, "videoType"), some("movie"));
    assert_eq!(get(&r.fields, "fileType"), some("video"));
    assert_eq!(get(&r.fields, "posterPath"), some("abc.jpg"));
    assert_eq!(get(&r.fields, "season"), None);
    assert_eq!(get(&r.fields, "episode"), None);
}

fn show(number_of_seasons: u32, seasons: &[(i64, u32)]) -> Option<TmdbTvDetails> {
    Some(TmdbTvDetails {
        number_of_seasons,
        seasons: seasons
            .iter()
            .map(|&(season_number, episode_count)| TmdbSeasonSummary {
                season_number,
                episode_count,
            })
            .collect(),
        ..Default::default()
    })
}

#[test]
fn show_match_checks_the_season() {
    let r = rec(&[("title", "t"), ("season", " 2 "), ("episode", "3")]);
    assert!(needs_tv_details(&r, TmdbKind::Tv));
    match build_enrichment_patch(&r, &hit(), TmdbKind::Tv, &None, &show(1, &[(1, 28)])) {
        EnrichOutcome::Patch { set, remove } => {
            assert_eq!(remove, vec!["season".to_string()]);
            assert_eq!(get(&set, "contentKind"), some("episode"));
            assert_eq!(get(&set, "videoType"), some("tvshow"));
            assert_eq!(get(&set, "fileType"), None);
            assert_eq!(get(&set, "originalTitle"), None);
        }
        _ => panic!("patch expected"),
    }
    assert!(matches!(
        build_enrichment_patch(&r, &hit(), TmdbKind::Tv, &None, &show(2, &[(2, 2)])),
        EnrichOutcome::Drop
    ));
    match build_enrichment_patch(&r, &hit(), TmdbKind::Tv, &None, &show(2, &[(2, 3)])) {
        EnrichOutcome::Patch { remove, .. } => assert!(remove.is_empty()),
        _ => panic!("patch expected"),
    }
    match build_enrichment_patch(&r, &hit(), TmdbKind::Tv, &None, &None) {
        EnrichOutcome::Patch { remove, .. } => assert!(remove.is_empty()),
        _ => panic!("patch expected"),
    }
    let absolute = rec(&[("episode", "900")]);
    assert!(!needs_tv_details(&absolute, TmdbKind::Tv));
    assert!(matches!(
        build_enrichment_patch(&absolute, &hit(), TmdbKind::Tv, &None, &show(1, &[(1, 2)])),
        EnrichOutcome::Patch { .. }
    ));
}

#[test]
fn sparse_entry_gives_few_fields() {
    let bare = TmdbHit {
        tmdbid: 1,
        title: "T".to_string(),
        original_title: Some(" ".to_string()),
        original_language: Some("xx".to_string()),
        overview: Some("".to_string()),
        year: None,
        poster_path: None,
        genre_ids: vec![],
    };
    match build_enrichment_patch(&rec(&[]), &bare, TmdbKind::Tv, &None, &None) {
        EnrichOutcome::Patch { set, .. } => {
            let mut keys = set.keys();
            keys.sort();
            assert_eq!(keys, vec!["contentKind", "title", "tmdbid", "videoType"]);
        }
        _ => panic!("patch expected"),
    }
}

fn client() -> TmdbClient {
    TmdbClient::with_bases("t".to_string(), "http://api/".to_string(), "http://img//".to_string())
}

fn apply_events(base: &DiscoveryRecord, events: &[GatewaySearchEvent]) -> Fields {
    let mut out = base.fields.clone();
    for e in events {
        if let GatewaySearchEvent::EnrichPatch { set, remove, .. } = e {
            out.remove_all(remove);
            out.extend(set);
        }
    }
    out
}

fn same(a: &Fields, b: &Fields) -> bool {
    let mut ka = a.keys();
    let mut kb = b.keys();
    ka.sort();
    kb.sort();
    ka == kb && ka.iter().all(|k| a.get(k) == b.get(k))
}

#[test]
fn consumer_ends_up_with_the_kept_record() {
    let base = rec(&[("title", "raw"), ("season", "1")]);
    let o = build_enrichment_patch(&base, &hit(), TmdbKind::Movie, &some("raw"), &None);
    let c = client();
    let s = stream_outcome(base.clone(), Some((o, &c)));
    assert_eq!(s.events.len(), 2);
    let kept = s.kept.unwrap();
    assert_eq!(get(&kept.fields, "poster_url"), some("http://img/w500/abc.jpg"));
    assert_eq!(get(&kept.fields, "posterPath"), None);
    assert!(same(&apply_events(&base, &s.events), &kept.fields));
    for e in &s.events {
        if let GatewaySearchEvent::EnrichPatch { record_id, set, .. } = e {
            assert_eq!(record_id, "r1");
            assert!(!set.contains_key("posterPath"));
        }
    }
}

#[test]
fn dropped_record_is_withdrawn() {
    let c = client();
    let s = stream_outcome(rec(&[("title", "x")]), Some((EnrichOutcome::Drop, &c)));
    assert!(s.kept.is_none());
    assert_eq!(s.events.len(), 1);
    assert!(matches!(&s.events[0], GatewaySearchEvent::Drop { record_id } if record_id == "r1"));
}

#[test]
fn unchanged_record_tells_nothing() {
    let c = client();
    let s = stream_outcome(rec(&[("title", "x")]), Some((EnrichOutcome::Noop, &c)));
    assert!(s.events.is_empty());
    assert!(s.kept.is_some());
    let s = stream_outcome(rec(&[("posterPath", "p")]), None);
    assert!(s.events.is_empty());
    assert_eq!(get(&s.kept.unwrap().fields, "posterPath"), some("p"));
    let s = stream_outcome(rec(&[("posterPath", "p")]), Some((EnrichOutcome::Noop, &c)));
    assert_eq!(s.events.len(), 1);
    let only_path = EnrichOutcome::Patch {
        set: fields(&[("posterPath", "/q")]),
        remove: vec![],
    };
    let s = stream_outcome(rec(&[]), Some((only_path, &c)));
    assert_eq!(s.events.len(), 1);
}

#[test]
fn poster_path_becomes_a_url() {
    let mut r = rec(&[("posterPath", "//a.jpg"), ("x", "y")]);
    set_poster_url(&mut r, &client());
    assert_eq!(get(&r.fields, "poster_url"), some("http://img/w500/a.jpg"));
    assert_eq!(r.fields.len(), 2);
    let mut none = rec(&[("x", "y")]);
    set_poster_url(&mut none, &client());
    assert_eq!(none.fields.len(), 1);
}

#[test]
fn anchors_read_back_from_the_cache() {
    let list = vec![(1, TmdbKind::Tv), (2, TmdbKind::Movie)];
    let cached = encode_principal_list(&list);
    assert_eq!(cached[0].kind, "tv");
    assert_eq!(cached[1].kind, "movie");
    assert_eq!(decode_principal_list(&Some(cached)), list);
    assert!(decode_principal_list(&None).is_empty());
    let odd = Some(vec![
        PrincipalEntry {
            tmdbid: 5,
            kind: "person".to_string(),
        },
        PrincipalEntry {
            tmdbid: 6,
            kind: "tv".to_string(),
        },
    ]);
    assert_eq!(decode_principal_list(&odd), vec![(6, TmdbKind::Tv)]);
    assert_eq!(kind_str(TmdbKind::Movie), "movie");
    assert_eq!(kind_from_str("tv"), Some(TmdbKind::Tv));
    assert_eq!(kind_from_str("Tv"), None);
}

fn black_hits() -> Vec<TmdbMultiItem> {
    let item = |id: u64, kind: &str, title: &str, popularity: i64| TmdbMultiItem {
        id,
        media_type: Some(kind.to_string()),
        title: Some(title.to_string()),
        name: None,
        popularity,
    };
    vec![
        item(1, "tv", "Black Mirror", 5),
        item(2, "person", "Black", 99),
        item(3, "movie", "Black Widow", 8),
        item(4, "movie", "White", 50),
    ]
}

#[test]
fn anchors_come_from_the_cache_or_from_tmdb() {
    // Nothing to look for.
    match principal_step(principal_key(" \t ", 3), &None, 3) {
        PrincipalStep::Answer(list) => assert!(list.is_empty()),
        _ => panic!("no question expected"),
    }
    // Not in the cache.
    match principal_step(principal_key(" Black ", 3), &None, 3) {
        PrincipalStep::Ask(key) => assert_eq!(key, "black"),
        _ => panic!("question expected"),
    }
    let reply = settle_principal(Some(TmdbCall::Hit(black_hits())), "black", 1);
    assert_eq!(reply.anchors, vec![(3, TmdbKind::Movie)]);
    assert_eq!(reply.pause, None);
    // The whole ranking was kept, and answers from then on.
    let cached = Some(reply.write);
    match principal_step(principal_key("black", 5), &cached, 5) {
        PrincipalStep::Answer(list) => {
            assert_eq!(list, vec![(3, TmdbKind::Movie), (1, TmdbKind::Tv)])
        }
        _ => panic!("answer expected"),
    }
    // A cached list that cannot be read holds nothing.
    match principal_step(principal_key("black", 5), &Some(None), 5) {
        PrincipalStep::Answer(list) => assert!(list.is_empty()),
        _ => panic!("answer expected"),
    }
}

#[test]
fn only_results_make_a_cached_ranking() {
    let nothing = settle_principal(Some(TmdbCall::Hit(black_hits())), "zzz qqq www", 5);
    assert!(nothing.anchors.is_empty());
    assert!(nothing.write.unwrap().is_empty());
    let miss = settle_principal(Some(TmdbCall::Miss), "black", 5);
    assert!(miss.anchors.is_empty() && miss.write.is_none() && miss.pause.is_none());
    let limited = settle_principal(Some(TmdbCall::RateLimited(7)), "black", 5);
    assert!(limited.anchors.is_empty() && limited.write.is_none());
    assert_eq!(limited.pause, Some(7));
    let no_permit = settle_principal(None, "black", 5);
    assert!(no_permit.anchors.is_empty() && no_permit.write.is_none());
    assert_eq!(no_permit.pause, None);
}

#[test]
fn keyword_keys_and_anchors() {
    assert_eq!(principal_key("  BLACK É ", 3), some("black é"));
    assert_eq!(principal_key("  ", 3), None);
    assert_eq!(principal_key("x", 0), None);
    let hits = black_hits();
    assert_eq!(
        ranked_anchors(&hits, "black"),
        vec![(3, TmdbKind::Movie), (1, TmdbKind::Tv)]
    );
    assert!(ranked_anchors(&hits, "...").is_empty());
    assert_eq!(
        first_anchors(vec![(3, TmdbKind::Movie), (1, TmdbKind::Tv)], 1),
        vec![(3, TmdbKind::Movie)]
    );
}

#[test]
fn dropped_outcome_leaves_the_record() {
    let mut r = rec(&[("a", "b")]);
    assert!(!apply_outcome(&mut r, &EnrichOutcome::Drop));
    assert!(apply_outcome(&mut r, &EnrichOutcome::Noop));
    assert_eq!(r.fields.len(), 1);
}
