use tribler_feeder::hash::{compute_bt_info_cid, compute_bt_v1_file_cid};
use tribler_feeder::keymap::Fields;
use tribler_feeder::metainfo::TorrentFile;
use tribler_feeder::plugin::{
    after_request, config_schema, enrichment_settings, publisher_settings, FetchStep,
    PluginHealth, TriblerConfigFile, TriblerPlugin,
};
use tribler_feeder::record::{upstream_id_field, GatewayError, HashKind};
use tribler_feeder::resolve::{
    decode_record_id, legacy_single_outcome, magnet_for, mark_fresh, plan_outcomes,
    settle_outcomes, sparse_outcome, to_publish,
};

const IH: &str = "0123456789abcdef0123456789abcdef01234567";

fn infohash() -> [u8; 20] {
    decode_record_id(IH).unwrap()
}

fn fields(pairs: &[(&str, &str)]) -> Fields {
    let mut f = Fields::new();
    for (k, v) in pairs {
        f.insert(k, v.to_string());
    }
    f
}

fn files(names: &[&str]) -> Option<Vec<TorrentFile>> {
    Some(
        names
            .iter()
            .enumerate()
            .map(|(i, n)| TorrentFile {
                index: i,
                name: n.to_string(),
                size: 10 + i as u64,
            })
            .collect(),
    )
}

#[test]
fn bad_record_id_is_a_permanent_error() {
    match decode_record_id("xyz") {
        Err(GatewayError::Permanent(m)) => assert_eq!(
            m,
            "tribler record_id `xyz` is not a v1 BT infohash (expected 40 hex chars or 32 base32 chars)"
        ),
        _ => panic!("permanent error expected"),
    }
}

#[test]
fn season_pack_fans_out() {
    let cached = Some(fields(&[("title", "Pack"), ("season", "1"), ("sourceUrl", "magnet:?m")]));
    let pubs = plan_outcomes(
        &infohash(),
        IH,
        &cached,
        &files(&["a.mkv", "notes.txt", "b.mkv"]),
    );
    assert_eq!(pubs.len(), 3);
    assert_eq!(pubs[0].cid, compute_bt_v1_file_cid(&infohash(), 0));
    assert_eq!(pubs[1].cid, compute_bt_v1_file_cid(&infohash(), 2));
    assert_eq!(pubs[2].cid, compute_bt_info_cid(&infohash()));
    assert_eq!(pubs[1].file_name, "b.mkv");
    assert_eq!(pubs[2].file_name, "Pack");
    assert!(pubs[2].pack && !pubs[0].pack);
    assert!(!pubs[2].record.fields.contains_key("season"));
    let r = settle_outcomes(&pubs, &vec![true, false, true]);
    assert_eq!(r.outcomes.len(), 3);
    assert!(r.outcomes.iter().all(|o| o.record.is_none() && o.bytes.is_none()));
    assert_eq!(r.outcomes[1].hash, pubs[1].cid);
    assert_eq!(r.video_targets.len(), 1);
    assert_eq!(r.video_targets[0].file_name, "a.mkv");
    assert_eq!(r.pack_target.as_ref().unwrap().cid, pubs[2].cid);
    assert!(r.wants_enrichment(true));
    assert!(!r.wants_enrichment(false));
}

#[test]
fn resolving_again_enriches_nothing() {
    let pubs = plan_outcomes(&infohash(), IH, &None, &files(&["a.mkv", "b.mkv"]));
    let r = settle_outcomes(&pubs, &vec![false, false, false]);
    assert_eq!(r.outcomes.len(), 3);
    assert!(r.video_targets.is_empty());
    assert!(r.pack_target.is_none());
    assert!(!r.wants_enrichment(true));
}

#[test]
fn each_content_id_is_published_once() {
    let pubs = plan_outcomes(&infohash(), IH, &None, &files(&["a.mkv", "b.mkv"]));
    // The first file was resolved before.
    let fresh = mark_fresh(&pubs, &vec![true, false, false]);
    assert_eq!(fresh, vec![false, true, true]);
    let written: Vec<&str> = to_publish(&pubs, &fresh).iter().map(|p| p.cid.as_str()).collect();
    assert_eq!(written, vec![pubs[1].cid.as_str(), pubs[2].cid.as_str()]);
    let again = mark_fresh(&pubs, &vec![true, true, true]);
    assert_eq!(again, vec![false, false, false]);
    assert!(to_publish(&pubs, &again).is_empty());
    let (first, second) = (settle_outcomes(&pubs, &fresh), settle_outcomes(&pubs, &again));
    for (a, b) in first.outcomes.iter().zip(&second.outcomes) {
        assert_eq!(a.hash, b.hash);
        assert!(b.record.is_none() && b.bytes.is_none());
    }
    assert!(second.video_targets.is_empty() && second.pack_target.is_none());
}

#[test]
fn files_at_one_index_are_published_once() {
    let mut list = files(&["a.mkv", "b.mkv"]).unwrap();
    list[1].index = 0;
    let pubs = plan_outcomes(&infohash(), IH, &None, &Some(list));
    assert_eq!(pubs[0].cid, pubs[1].cid);
    let fresh = mark_fresh(&pubs, &vec![false, false, false]);
    assert_eq!(fresh, vec![true, false, true]);
    assert_eq!(to_publish(&pubs, &fresh).len(), 2);
}

#[test]
fn lone_video_is_published_at_its_index() {
    let pubs = plan_outcomes(&infohash(), IH, &None, &files(&["x.txt", "b.mkv"]));
    assert_eq!(pubs.len(), 1);
    assert_eq!(pubs[0].cid, compute_bt_v1_file_cid(&infohash(), 1));
    let r = settle_outcomes(&pubs, &vec![true]);
    assert_eq!(r.video_targets.len(), 1);
}

#[test]
fn unknown_files_fall_back_to_the_first() {
    let pubs = plan_outcomes(&infohash(), IH, &None, &None);
    assert_eq!(pubs.len(), 1);
    assert_eq!(pubs[0].cid, compute_bt_v1_file_cid(&infohash(), 0));
    assert_eq!(pubs[0].file_name, IH);
    assert_eq!(pubs[0].record.record_id, IH);
    // Nothing tells that it is a video, so it is not enriched.
    assert!(settle_outcomes(&pubs, &vec![true]).video_targets.is_empty());
    let cached = Some(fields(&[("fileType", "video"), ("title", "T")]));
    let pubs = plan_outcomes(&infohash(), IH, &cached, &None);
    let r = settle_outcomes(&pubs, &vec![true]);
    assert_eq!(r.video_targets[0].file_name, "T");
}

#[test]
fn fan_out_is_limited() {
    let names: Vec<String> = (0..120).map(|i| format!("{i}.mkv")).collect();
    let refs: Vec<&str> = names.iter().map(String::as_str).collect();
    let pubs = plan_outcomes(&infohash(), IH, &None, &files(&refs));
    assert_eq!(pubs.len(), 101);
}

#[test]
fn magnet_comes_from_the_search() {
    assert_eq!(
        magnet_for(IH, &Some(fields(&[("sourceUrl", "magnet:?m")]))),
        "magnet:?m"
    );
    assert_eq!(magnet_for(IH, &None), format!("magnet:?xt=urn:btih:{IH}"));
    assert_eq!(magnet_for("z", &Some(fields(&[]))), "magnet:?xt=urn:btih:z");
}

#[test]
fn gateway_stored_outcome_carries_the_record_once() {
    let cached = Some(fields(&[("title", "T")]));
    let fresh = legacy_single_outcome(&infohash(), IH, false, cached);
    assert_eq!(fresh.len(), 1);
    assert_eq!(fresh[0].hash, compute_bt_v1_file_cid(&infohash(), 0));
    assert_eq!(fresh[0].hash_kind, HashKind::BtV1File);
    let rec = fresh[0].record.as_ref().unwrap();
    assert_eq!(rec.fields.get("title").map(String::as_str), Some("T"));
    let minimal = legacy_single_outcome(&infohash(), IH, false, None);
    assert!(minimal[0].record.as_ref().unwrap().fields.contains_key("triblerid"));
    let again = legacy_single_outcome(&infohash(), IH, true, None);
    assert!(again[0].record.is_none());
    assert_eq!(again[0].hash, fresh[0].hash);
}

#[test]
fn sparse_outcome_is_bare() {
    let o = sparse_outcome("bcid");
    assert_eq!(o.hash, "bcid");
    assert!(o.record.is_none() && o.bytes.is_none() && o.file_extension.is_none());
}

#[test]
fn id_field_name() {
    assert_eq!(upstream_id_field("tribler"), "triblerid");
}

#[test]
fn plugin_defaults_and_setters() {
    let mut p = TriblerPlugin::new();
    assert_eq!(p.base(), "http://tribler-instance:8085");
    assert_eq!(p.api_key_header(), None);
    p.set_sidecar_url("http://core:1//".to_string());
    p.set_api_key("k".to_string());
    assert_eq!(p.base(), "http://core:1");
    assert_eq!(p.api_key_header(), Some("k"));
    assert_eq!(TriblerPlugin::default().base(), TriblerPlugin::new().base());
    assert_eq!(TriblerPlugin::with_sidecar_url("u/".to_string()).base(), "u");
}

#[test]
fn plugin_urls() {
    let p = TriblerPlugin::with_sidecar_url("http://c/".to_string());
    assert_eq!(
        p.local_search_url("a b", 100),
        "http://c/api/metadata/search/local?fts_text=a%20b&first=1&last=100"
    );
    assert_eq!(p.remote_search_url("é"), "http://c/api/search/remote?fts_text=%C3%A9");
    assert_eq!(p.events_url(), "http://c/api/events");
    assert_eq!(p.torrentinfo_url(), "http://c/api/torrentinfo/uri");
}

#[test]
fn config_fills_in_and_blank_does_not_displace() {
    let mut p = TriblerPlugin::new();
    let cfg = TriblerConfigFile {
        meta_core_url: Some(" ".to_string()),
        sidecar_url: Some("http://x".to_string()),
        api_key: Some("k1".to_string()),
        tmdb_api_key: Some("t".to_string()),
        tmdb_language: None,
    };
    p.apply_config(&cfg);
    assert_eq!(p.sidecar_url, "http://x");
    assert_eq!(p.cfg.sidecar_url.as_deref(), Some("http://x"));
    assert_eq!(p.cfg.api_key.as_deref(), Some("k1"));
    assert_eq!(p.cfg.meta_core_url, None);
    assert_eq!(p.cfg.tmdb_api_key.as_deref(), Some("t"));
    let blank = TriblerConfigFile {
        sidecar_url: Some("  ".to_string()),
        api_key: Some("".to_string()),
        ..Default::default()
    };
    p.apply_config(&blank);
    assert_eq!(p.sidecar_url, "http://x");
    assert_eq!(p.api_key.as_deref(), Some("k1"));
    assert_eq!(p.cfg.tmdb_api_key, None);
    let shown = p.cfg.clone();
    p.apply_config(&shown);
    assert_eq!(p.sidecar_url, "http://x");
    assert_eq!(p.cfg.api_key.as_deref(), Some("k1"));
}

#[test]
fn settings_for_the_driver() {
    let cfg = TriblerConfigFile {
        meta_core_url: Some(" http://core ".to_string()),
        tmdb_api_key: Some(" ".to_string()),
        tmdb_language: Some("fr-FR".to_string()),
        ..Default::default()
    };
    let s = enrichment_settings(&cfg);
    assert_eq!(s.meta_core_url.as_deref(), Some("http://core"));
    assert_eq!(s.tmdb_token, None);
    assert_eq!(s.tmdb_language.as_deref(), Some("fr-FR"));
    let p = publisher_settings(&cfg).unwrap();
    assert_eq!(p.meta_core_url.as_deref(), Some("http://core"));
    assert_eq!(p.tmdb_token, None);
    assert_eq!(p.tmdb_language.as_deref(), Some("fr-FR"));
}

#[test]
fn without_a_meta_core_nothing_is_published() {
    assert!(publisher_settings(&TriblerConfigFile::default()).is_none());
    let blank = TriblerConfigFile {
        meta_core_url: Some(" \t".to_string()),
        tmdb_api_key: Some("t".to_string()),
        ..Default::default()
    };
    assert!(publisher_settings(&blank).is_none());
}

#[test]
fn health_needs_configuration() {
    let mut p = TriblerPlugin::new();
    let cfg = TriblerConfigFile {
        sidecar_url: Some("http://x".to_string()),
        ..Default::default()
    };
    p.set_api_key("k".to_string());
    p.set_sidecar_url("http://u".to_string());
    p.apply_config(&cfg);
    p.configure(&cfg, false);
    assert_eq!(p.sidecar_url, "http://x");
    match p.health() {
        PluginHealth::Degraded { reason } => assert_eq!(reason, "configure() not yet called"),
        _ => panic!("degraded expected"),
    }
    p.configure(&cfg, true);
    assert!(matches!(p.health(), PluginHealth::Good));
    p.set_api_key("l".to_string());
    p.configure(&TriblerConfigFile::default(), false);
    assert!(matches!(p.health(), PluginHealth::Good));
    assert!(matches!(p.clone().health(), PluginHealth::Good));
}

#[test]
fn file_list_request_is_retried_once() {
    assert_eq!(after_request(0, true), FetchStep::Read);
    assert_eq!(after_request(0, false), FetchStep::RetryAfter(300));
    assert_eq!(after_request(1, false), FetchStep::GiveUp);
    assert_eq!(after_request(1, true), FetchStep::Read);
}

#[test]
fn schema_lists_every_field() {
    let schema = config_schema();
    let keys: Vec<&str> = schema.iter().map(|f| f.key).collect();
    assert_eq!(
        keys,
        vec!["meta_core_url", "sidecar_url", "api_key", "tmdb_api_key", "tmdb_language"]
    );
    let secret: Vec<&str> = schema.iter().filter(|f| f.secret).map(|f| f.key).collect();
    assert_eq!(secret, vec!["api_key", "tmdb_api_key"]);
    assert!(schema[1].help.contains("\"\u{2197} Tribler UI\""));
}
