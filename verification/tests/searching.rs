use tribler_feeder::expand::{begin_expansion, finish_expansion, is_obvious_single_file, Expansion};
use tribler_feeder::hash::compute_bt_v1_file_cid;
use tribler_feeder::infohash::decode_infohash;
use tribler_feeder::keymap::{Fields, Filters};
use tribler_feeder::metainfo::TorrentFile;
use tribler_feeder::rank::rank_desc;
use tribler_feeder::record::{DiscoveryRecord, GatewayQuery};
use tribler_feeder::search::{route, Route, SearchRun, Step};
use tribler_feeder::stream::{
    idle_left, local_window, parse_source_of, prepare_hit, rank_by_seeders, stamp_languages,
    wants_video, HitStream, SeasonEpisode, Verdict, SSE_IDLE_EXHAUST_NANOS,
};

const IH: &str = "0123456789abcdef0123456789abcdef01234567";

fn rec(id: &str, pairs: &[(&str, &str)]) -> DiscoveryRecord {
    let mut fields = Fields::new();
    for (k, v) in pairs {
        fields.insert(k, v.to_string());
    }
    DiscoveryRecord {
        upstream_id: "tribler".to_string(),
        record_id: id.to_string(),
        fields,
    }
}

fn file(index: usize, name: &str) -> TorrentFile {
    TorrentFile {
        index,
        name: name.to_string(),
        size: 1,
    }
}

fn cid(index: u64) -> String {
    compute_bt_v1_file_cid(&decode_infohash(IH).unwrap(), index)
}

fn get(r: &DiscoveryRecord, key: &str) -> Option<String> {
    r.fields.get(key).cloned()
}

#[test]
fn single_files_need_no_probe() {
    assert!(is_obvious_single_file("Show S01E02", true));
    assert!(is_obvious_single_file("Movie.2020.MKV", false));
    assert!(!is_obvious_single_file("Show Season 1", false));
    let r = rec(IH, &[("title", "Movie.mkv")]);
    match begin_expansion(r, false) {
        Expansion::Ready(v) => {
            assert_eq!(v.len(), 1);
            assert_eq!(get(&v[0], "cid_btih_v1_file"), Some(cid(0)));
        }
        _ => panic!("no probe expected"),
    }
}

#[test]
fn non_video_hits_are_dropped() {
    for t in ["archive", "audio", "document", "image"] {
        match begin_expansion(rec(IH, &[("title", "x.mkv"), ("fileType", t)]), false) {
            Expansion::Ready(v) => assert!(v.is_empty()),
            _ => panic!("no probe expected"),
        }
    }
}

#[test]
fn hit_without_infohash_passes_untouched() {
    match begin_expansion(rec("tmdb:tv:1", &[("title", "Pack")]), false) {
        Expansion::Ready(v) => {
            assert_eq!(v.len(), 1);
            assert_eq!(v[0].fields.len(), 1);
        }
        _ => panic!("no probe expected"),
    }
}

#[test]
fn packs_are_probed_by_magnet() {
    match begin_expansion(rec(IH, &[("fileName", "Pack")]), false) {
        Expansion::Probe { magnet, infohash, .. } => {
            assert_eq!(magnet, format!("magnet:?xt=urn:btih:{IH}"));
            assert_eq!(infohash, decode_infohash(IH).unwrap());
        }
        _ => panic!("probe expected"),
    }
    match begin_expansion(rec(IH, &[("sourceUrl", "magnet:?x"), ("fileType", "other")]), false) {
        Expansion::Probe { magnet, .. } => assert_eq!(magnet, "magnet:?x"),
        _ => panic!("probe expected"),
    }
}

#[test]
fn probed_pack_becomes_episodes() {
    let ih = decode_infohash(IH).unwrap();
    let files = Some(vec![file(0, "a.mkv"), file(1, "b.txt"), file(2, "c.mkv")]);
    let pack = rec(IH, &[("title", "Pack"), ("contentKind", "movie")]);
    let out = finish_expansion(pack, &ih, &files);
    assert_eq!(out.len(), 2);
    assert_eq!(get(&out[0], "cid_btih_v1_file"), Some(cid(0)));
    assert_eq!(get(&out[1], "cid_btih_v1_file"), Some(cid(2)));
    assert_ne!(cid(0), cid(2));
    for r in &out {
        assert_eq!(get(r, "contentKind"), Some("episode".to_string()));
        assert_eq!(get(r, "title"), Some("Pack".to_string()));
    }
    assert_eq!(get(&out[1], "fileName"), Some("c.mkv".to_string()));
}

#[test]
fn probed_single_video_keeps_its_kind_open() {
    let ih = decode_infohash(IH).unwrap();
    let files = Some(vec![file(3, "a.mkv"), file(1, "b.txt")]);
    let out = finish_expansion(rec(IH, &[("contentKind", "movie")]), &ih, &files);
    assert_eq!(out.len(), 1);
    assert_eq!(get(&out[0], "cid_btih_v1_file"), Some(cid(3)));
    assert_eq!(get(&out[0], "contentKind"), None);
}

#[test]
fn probe_without_video_or_without_list() {
    let ih = decode_infohash(IH).unwrap();
    assert!(finish_expansion(rec(IH, &[]), &ih, &Some(vec![file(0, "a.txt")])).is_empty());
    let one = finish_expansion(rec(IH, &[]), &ih, &None);
    assert_eq!(one.len(), 1);
    assert_eq!(get(&one[0], "cid_btih_v1_file"), Some(cid(0)));
    let kept = finish_expansion(rec(IH, &[("cid_btih_v1_file", "own")]), &ih, &None);
    assert_eq!(get(&kept[0], "cid_btih_v1_file"), Some("own".to_string()));
}

#[test]
fn fan_out_stops_at_the_limit() {
    let ih = decode_infohash(IH).unwrap();
    let files: Vec<TorrentFile> = (0..150).map(|i| file(i, "e.mkv")).collect();
    assert_eq!(finish_expansion(rec(IH, &[]), &ih, &Some(files)).len(), 100);
}

fn query(free: &str, filters: &[(&str, &[&str])]) -> GatewayQuery {
    let mut f = Filters::new();
    for (k, vs) in filters {
        f.insert(k, vs.iter().map(|v| v.to_string()).collect());
    }
    GatewayQuery {
        free_text: free.to_string(),
        filters: f,
    }
}

#[test]
fn video_is_asked_for_in_any_case() {
    assert!(wants_video(&query("x", &[("fileType", &["audio", "VIDEO"])])));
    assert!(!wants_video(&query("x", &[("fileType", &["audio"])])));
    assert!(!wants_video(&query("x", &[("contentKind", &["video"])])));
}

#[test]
fn blank_query_asks_for_anything() {
    assert_eq!(query("", &[]).free_text_or_star(), "*");
    assert_eq!(query("  ", &[]).free_text_or_star(), "*");
    assert_eq!(query("frieren", &[]).free_text_or_star(), "frieren");
}

#[test]
fn local_window_bounds() {
    assert_eq!(local_window(0), 100);
    assert_eq!(local_window(20), 100);
    assert_eq!(local_window(21), 105);
    assert_eq!(local_window(usize::MAX), usize::MAX);
}

#[test]
fn idle_time_runs_out() {
    assert_eq!(idle_left(0), Some(SSE_IDLE_EXHAUST_NANOS));
    assert_eq!(idle_left(19_999_999_999), Some(1));
    assert_eq!(idle_left(20_000_000_000), None);
    assert_eq!(idle_left(u128::MAX), None);
}

#[test]
fn ranking_is_stable() {
    assert_eq!(rank_desc(&vec![1, 5, 1, 9, 5]), vec![3, 1, 4, 0, 2]);
    assert_eq!(rank_desc(&vec![]), Vec::<usize>::new());
}

#[test]
fn best_seeded_come_first() {
    let records = vec![
        rec("a", &[]),
        rec("b", &[("seeders", "5")]),
        rec("c", &[("seeders", "-2")]),
        rec("d", &[("seeders", "70")]),
        rec("e", &[("seeders", "5")]),
    ];
    let ids: Vec<String> = rank_by_seeders(&records)
        .iter()
        .map(|r| r.record_id.clone())
        .collect();
    assert_eq!(ids, vec!["d", "b", "e", "a", "c"]);
}

#[test]
fn hit_without_kind_gets_one() {
    let se = SeasonEpisode {
        season: Some("2".to_string()),
        episode: Some("5".to_string()),
    };
    let none = SeasonEpisode {
        season: None,
        episode: None,
    };
    let r = prepare_hit(rec(IH, &[]), &se);
    assert_eq!(get(&r, "contentKind"), Some("episode".to_string()));
    assert_eq!(get(&r, "season"), Some("2".to_string()));
    assert_eq!(get(&r, "episode"), Some("5".to_string()));
    let r = prepare_hit(rec(IH, &[]), &none);
    assert_eq!(get(&r, "contentKind"), Some("movie".to_string()));
    let r = prepare_hit(rec(IH, &[("contentKind", "movie")]), &se);
    assert_eq!(get(&r, "season"), None);
    let r = prepare_hit(rec(IH, &[("contentKind", "episode"), ("episode", "9")]), &se);
    assert_eq!(get(&r, "episode"), Some("9".to_string()));
    assert_eq!(get(&r, "season"), Some("2".to_string()));
}

#[test]
fn absolute_number_sets_no_season() {
    let se = SeasonEpisode {
        season: None,
        episode: Some("28".to_string()),
    };
    let r = prepare_hit(rec(IH, &[]), &se);
    assert_eq!(get(&r, "contentKind"), Some("episode".to_string()));
    assert_eq!(get(&r, "episode"), Some("28".to_string()));
    assert_eq!(get(&r, "season"), None);
}

#[test]
fn languages_are_marked_once() {
    let mut r = rec(IH, &[("languages/eng", "maybe")]);
    stamp_languages(&mut r, &vec!["eng".to_string(), "fra".to_string()]);
    assert_eq!(get(&r, "languages/eng"), Some("maybe".to_string()));
    assert_eq!(get(&r, "languages/fra"), Some("true".to_string()));
}

#[test]
fn names_are_read_from_the_file() {
    assert_eq!(parse_source_of(&rec(IH, &[("fileName", "f"), ("title", "t")])), "f");
    assert_eq!(parse_source_of(&rec(IH, &[("title", "t")])), "t");
    assert_eq!(parse_source_of(&rec(IH, &[])), "");
}

#[test]
fn stream_sends_each_key_once_up_to_the_limit() {
    let mut s = HitStream::new(2);
    assert!(!s.is_full());
    assert_eq!(s.offer(&rec("a", &[]), false), Verdict::Skip);
    assert_eq!(s.offer(&rec("a", &[]), true), Verdict::Send);
    assert_eq!(s.offer(&rec("a", &[]), true), Verdict::Skip);
    assert_eq!(
        s.offer(&rec("a", &[("cid_btih_v1_file", "x")]), true),
        Verdict::Send
    );
    assert!(s.is_full());
    assert_eq!(s.offer(&rec("b", &[]), true), Verdict::Full);
    assert!(HitStream::new(0).is_full());
}

fn asking(text: &str, filters: &[(&str, &str)]) -> GatewayQuery {
    let mut f = Filters::new();
    for (k, v) in filters {
        f.insert(k, vec![v.to_string()]);
    }
    GatewayQuery {
        free_text: text.to_string(),
        filters: f,
    }
}

#[test]
fn queries_are_routed() {
    let list = asking(" ", &[("popular", "true"), ("contentKind", "movie")]);
    assert_eq!(route(&list, true, false), Route::Catalog);
    assert_eq!(route(&list, false, true), Route::Nothing);
    let words = asking("dune", &[("popular", "true")]);
    assert_eq!(route(&words, true, true), Route::Search);
    assert_eq!(route(&words, true, false), Route::Nothing);
}

#[test]
fn search_goes_from_local_to_remote_to_the_end() {
    let mut run = SearchRun::new(30);
    assert!(matches!(run.next(), Step::SearchLocal(150)));
    run.tell_local(&Some(vec![
        rec("a", &[("seeders", "1")]),
        rec("b", &[("seeders", "9")]),
    ]));
    for want in ["b", "a"] {
        match run.next() {
            Step::Emit(r) => {
                assert_eq!(r.record_id, want);
                assert_eq!(run.offer(&r, true), Verdict::Send);
            }
            _ => panic!("expected a hit"),
        }
        run.tell_emitted(true);
    }
    assert!(matches!(run.next(), Step::SearchRemote));
    run.tell_remote(Some(Some("u-1".to_string())));
    match run.next() {
        Step::Listen(id) => assert_eq!(id, "u-1"),
        _ => panic!("expected to listen"),
    }
    assert_eq!(run.offer(&rec("a", &[]), true), Verdict::Skip);
    assert!(matches!(run.next(), Step::SendDone));
    assert!(matches!(run.next(), Step::Stop));
    run.tell_local(&None);
    run.tell_remote(None);
    run.tell_emitted(false);
    assert!(matches!(run.next(), Step::Stop));
}

#[test]
fn full_search_leaves_the_network_alone() {
    let mut run = SearchRun::new(1);
    assert!(matches!(run.next(), Step::SearchLocal(100)));
    run.tell_local(&Some(vec![rec("a", &[]), rec("b", &[])]));
    match run.next() {
        Step::Emit(r) => assert_eq!(run.offer(&r, true), Verdict::Send),
        _ => panic!("expected a hit"),
    }
    run.tell_emitted(true);
    assert!(run.is_full());
    assert!(matches!(run.next(), Step::SendDone));
    assert!(matches!(run.next(), Step::Stop));
}

#[test]
fn search_survives_failures_and_ends_when_the_consumer_hangs_up() {
    let mut failing = SearchRun::new(3);
    failing.tell_local(&None);
    assert!(matches!(failing.next(), Step::SearchRemote));
    failing.tell_remote(None);
    assert!(matches!(failing.next(), Step::SendDone));
    assert!(matches!(failing.next(), Step::Stop));

    let mut unnamed = SearchRun::new(3);
    unnamed.tell_local(&None);
    assert!(matches!(unnamed.next(), Step::SearchRemote));
    unnamed.tell_remote(Some(None));
    match unnamed.next() {
        Step::Listen(id) => assert_eq!(id, ""),
        _ => panic!("expected to listen"),
    }

    let mut left = SearchRun::new(3);
    left.tell_local(&Some(vec![rec("a", &[]), rec("b", &[])]));
    assert!(matches!(left.next(), Step::Emit(_)));
    left.tell_emitted(false);
    assert!(matches!(left.next(), Step::Stop));
}
