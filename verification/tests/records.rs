use tribler_feeder::classify::classify_file_type;
use tribler_feeder::infohash::decode_infohash;
use tribler_feeder::item::{
    build_file_record, build_pack_record, into_discovery_record, magnet_link, minimal_fields,
    seeders_of, stream_key, TriblerItem,
};
use tribler_feeder::keymap::Fields;
use tribler_feeder::metainfo::{
    file_list, looks_like_video, parse_metainfo, pick_videos, MetainfoResponse, MiniFileInfo,
    TorrentFile,
};
use tribler_feeder::record::DiscoveryRecord;
use tribler_feeder::url::urlencode;

const IH: &str = "0123456789abcdef0123456789abcdef01234567";

fn field<'a>(rec: &'a DiscoveryRecord, key: &str) -> Option<&'a str> {
    rec.fields.get(key).map(String::as_str)
}

#[test]
fn into_discovery_record_builds_base_fields() {
    let item = TriblerItem {
        infohash: Some(IH.to_uppercase()),
        name: Some("Some.Show.S02E05.1080p.WEB.h264".to_string()),
        size: Some(1_500_000_000),
        num_seeders: Some(42),
        num_leechers: Some(3),
        category: Some("Video".to_string()),
        trackers: vec!["udp://tracker.example.org:1337".to_string()],
    };
    let rec = into_discovery_record(item).expect("record");
    assert_eq!(rec.upstream_id, "tribler");
    assert_eq!(rec.record_id, IH);
    assert_eq!(rec.fields.get("triblerid").map(String::as_str), Some(IH));
    assert_eq!(
        rec.fields.get("fileType").map(String::as_str),
        Some("video")
    );
    for k in [
        "contentKind",
        "videoType",
        "season",
        "episode",
        "quality",
        "codec",
    ] {
        assert!(
            !rec.fields.contains_key(k),
            "live hit must not carry plugin-owned field `{k}`"
        );
    }
    assert!(!rec.fields.keys().iter().any(|k| k.starts_with("languages/")));
    assert_eq!(
        rec.fields.get("categories/Video").map(String::as_str),
        Some("true")
    );
    assert!(!rec.fields.contains_key("triblerCategory"));
    assert!(rec.fields.get("sourceUrl").unwrap().contains("&tr=udp"));
    assert_eq!(
        rec.fields.get("sizeByte").map(String::as_str),
        Some("1500000000")
    );
    assert!(rec
        .fields
        .get("sourceUrl")
        .unwrap()
        .starts_with("magnet:?xt=urn:btih:0123456789abcdef"));
}

#[test]
fn classify_uses_tribler_category_first() {
    assert_eq!(classify_file_type("anything.bin", Some("Audio")), "audio");
    assert_eq!(
        classify_file_type("anything.bin", Some("Compressed")),
        "archive"
    );
    assert_eq!(
        classify_file_type("anything.bin", Some("Documents")),
        "document"
    );
    assert_eq!(
        classify_file_type("Movie.2020.1080p.mkv", Some("Other")),
        "video"
    );
}

#[test]
fn classify_falls_back_to_name_sniff() {
    assert_eq!(classify_file_type("Album - Discography [FLAC]", None), "audio");
    assert_eq!(classify_file_type("Linux.ISO.collection.rar", None), "archive");
    assert_eq!(classify_file_type("Some Book Title.epub", None), "document");
    assert_eq!(classify_file_type("Show.S01E01.720p.mkv", None), "video");
    assert_eq!(classify_file_type("mystery-blob-2021", None), "other");
}

#[test]
fn into_discovery_record_non_video_omits_video_fields() {
    let item = TriblerItem {
        infohash: Some(IH.to_string()),
        name: Some("Greatest Hits Collection [320kbps].rar".to_string()),
        category: Some("Compressed".to_string()),
        ..Default::default()
    };
    let rec = into_discovery_record(item).expect("record");
    assert_eq!(
        rec.fields.get("fileType").map(String::as_str),
        Some("archive")
    );
    assert!(!rec.fields.contains_key("contentKind"));
    assert!(!rec.fields.contains_key("videoType"));
    assert!(!rec.fields.contains_key("season"));
    assert!(!rec.fields.contains_key("quality"));
    assert!(!rec.fields.contains_key("languages/und"));
}

#[test]
fn into_discovery_record_rejects_bad_infohash() {
    let item = TriblerItem {
        infohash: Some("not-a-hash".to_string()),
        name: Some("x".to_string()),
        ..Default::default()
    };
    assert!(into_discovery_record(item).is_none());
}

#[test]
fn into_discovery_record_requires_infohash() {
    let item = TriblerItem {
        name: Some("orphan".to_string()),
        ..Default::default()
    };
    assert!(into_discovery_record(item).is_none());
}

#[test]
fn category_label_becomes_one_leaf() {
    let item = TriblerItem {
        infohash: Some(format!("  {IH} ")),
        category: Some(" CD/DVD/BD ".to_string()),
        ..Default::default()
    };
    let rec = into_discovery_record(item).expect("record");
    assert_eq!(field(&rec, "categories/CD-DVD-BD"), Some("true"));
    assert_eq!(rec.record_id, IH);
    assert_eq!(field(&rec, "title"), None);
    assert_eq!(field(&rec, "fileType"), Some("other"));
    assert_eq!(field(&rec, "sizeByte"), None);
}

#[test]
fn blank_category_is_not_filed() {
    let item = TriblerItem {
        infohash: Some(IH.to_string()),
        category: Some("   ".to_string()),
        ..Default::default()
    };
    let rec = into_discovery_record(item).expect("record");
    assert!(!rec.fields.keys().iter().any(|k| k.starts_with("categories/")));
}

#[test]
fn seeders_read_back() {
    for n in [42i64, 0, -7, i64::MAX, i64::MIN] {
        let item = TriblerItem {
            infohash: Some(IH.to_string()),
            num_seeders: Some(n),
            ..Default::default()
        };
        assert_eq!(seeders_of(&into_discovery_record(item).unwrap()), n);
    }
    let none = TriblerItem {
        infohash: Some(IH.to_string()),
        ..Default::default()
    };
    let mut rec = into_discovery_record(none).unwrap();
    assert_eq!(seeders_of(&rec), 0);
    rec.fields.insert("seeders", "many".to_string());
    assert_eq!(seeders_of(&rec), 0);
}

#[test]
fn magnet_has_name_and_distinct_trackers() {
    let own = vec![
        " http://a.example/ann ".to_string(),
        "".to_string(),
        "http://a.example/ann".to_string(),
        "udp://open.stealth.si:80/announce".to_string(),
    ];
    let link = magnet_link("abc", "A B&C", &own);
    assert!(link.starts_with(
        "magnet:?xt=urn:btih:abc&dn=A%20B%26C&tr=http%3A%2F%2Fa.example%2Fann&tr=udp%3A%2F%2Fopen.stealth.si"
    ));
    assert_eq!(link.matches("&tr=").count(), 8);
    assert_eq!(link.matches("open.stealth.si").count(), 1);
    let bare = magnet_link("abc", "", &Vec::new());
    assert!(bare.starts_with("magnet:?xt=urn:btih:abc&tr=http%3A%2F%2Fnyaa.tracker.wf%3A7777"));
    assert_eq!(bare.matches("&tr=").count(), 7);
}

#[test]
fn infohash_forms() {
    let hex = decode_infohash(IH).unwrap();
    assert_eq!(hex[0], 0x01);
    assert_eq!(hex[1], 0x23);
    assert_eq!(hex[19], 0x67);
    assert_eq!(decode_infohash(&IH.to_uppercase()).unwrap(), hex);
    // The same bytes in base32.
    let b32 = "AERUKZ4JVPG66AJDIVTYTK6N54ASGRLH";
    assert_eq!(decode_infohash(b32).unwrap(), hex);
    assert_eq!(decode_infohash(&b32.to_lowercase()).unwrap(), hex);
    assert!(decode_infohash("").is_none());
    assert!(decode_infohash(&IH[1..]).is_none());
    assert!(decode_infohash("g123456789abcdef0123456789abcdef01234567").is_none());
    assert!(decode_infohash("1ERUKZ4JVPG66AJDIVTYTK6N54ASGRLH").is_none());
}

#[test]
fn urlencode_bytes() {
    assert_eq!(urlencode("AZaz09-._~"), "AZaz09-._~");
    assert_eq!(urlencode("a b/c?d=e&f"), "a%20b%2Fc%3Fd%3De%26f");
    assert_eq!(urlencode("é"), "%C3%A9");
    assert_eq!(urlencode("+%"), "%2B%25");
    assert_eq!(urlencode(""), "");
}

#[test]
fn file_record_drops_parsed_fields() {
    let mut torrent = Fields::new();
    for k in ["season", "episode", "quality", "codec", "contentKind", "videoType"] {
        torrent.insert(k, "x".to_string());
    }
    torrent.insert("title", "Pack".to_string());
    torrent.insert("fileType", "other".to_string());
    let f = TorrentFile {
        index: 2,
        name: "Show.S01E02.mkv".to_string(),
        size: 77,
    };
    let rec = build_file_record(&torrent, IH, &f);
    assert_eq!(rec.upstream_id, "tribler");
    assert_eq!(rec.record_id, IH);
    assert_eq!(field(&rec, "fileName"), Some("Show.S01E02.mkv"));
    assert_eq!(field(&rec, "sizeByte"), Some("77"));
    assert_eq!(field(&rec, "fileType"), Some("video"));
    assert_eq!(field(&rec, "title"), Some("Pack"));
    assert_eq!(rec.fields.len(), 4);
    let pack = build_pack_record(&torrent, IH);
    assert_eq!(field(&pack, "season"), None);
    assert_eq!(field(&pack, "episode"), None);
    assert_eq!(field(&pack, "quality"), Some("x"));
    assert_eq!(pack.fields.len(), 6);
}

#[test]
fn bare_fields_of_an_infohash() {
    let fields = minimal_fields(IH);
    assert_eq!(fields.get("triblerid").map(String::as_str), Some(IH));
    assert_eq!(
        fields.get("sourceUrl").map(String::as_str),
        Some("magnet:?xt=urn:btih:0123456789abcdef0123456789abcdef01234567")
    );
    assert!(!fields.contains_key("fileType"));
    assert_eq!(fields.len(), 2);
}

#[test]
fn stream_key_prefers_the_file_cid() {
    let mut rec = build_pack_record(&Fields::new(), IH);
    assert_eq!(stream_key(&rec), IH);
    rec.fields.insert("cid_btih_v1_file", "bcid".to_string());
    assert_eq!(stream_key(&rec), "bcid");
}

#[test]
fn looks_like_video_matches_extensions() {
    assert!(looks_like_video("Show.S01E01.1080p.mkv"));
    assert!(looks_like_video("movie.MP4"));
    assert!(!looks_like_video("readme.txt"));
    assert!(!looks_like_video("Pressrelease.pdf"));
    assert!(!looks_like_video("noext"));
}

#[test]
fn looks_like_video_edge_names() {
    assert!(!looks_like_video("mkv"));
    assert!(looks_like_video(".m2ts"));
    assert!(!looks_like_video("mkv."));
    assert!(!looks_like_video(""));
    assert!(!looks_like_video("a.mkv.part"));
}

/// Reads a metainfo reply the way the feeder's JSON layer does.
fn reply(body: &str) -> Option<MetainfoResponse> {
    let v: serde_json::Value = serde_json::from_str(body).ok()?;
    let mut files = Vec::new();
    if let Some(list) = v.get("files").and_then(|f| f.as_array()) {
        for f in list {
            files.push(MiniFileInfo {
                index: f.get("index").and_then(|x| x.as_u64()).map(|x| x as usize),
                name: f.get("name").and_then(|x| x.as_str()).map(str::to_string),
                path: f.get("path").and_then(|x| x.as_str()).map(str::to_string),
                size: f.get("size").and_then(|x| x.as_u64()),
                length: f.get("length").and_then(|x| x.as_u64()),
            });
        }
    }
    Some(MetainfoResponse { files })
}

#[test]
fn parse_metainfo_real_tribler_shape() {
    let body = r#"{"files":[
            {"index":0,"name":"Big_Buck_Bunny_1080p.avi","size":928670754},
            {"index":1,"name":"PROMOTE.txt","size":5008},
            {"index":2,"name":"Pressrelease.pdf","size":3456234},
            {"index":3,"name":"license.txt","size":180}
        ],"name":"Big Buck Bunny","description":""}"#;
    let files = parse_metainfo(&reply(body));
    assert_eq!(files.len(), 4);
    assert_eq!(files[0].index, 0);
    assert_eq!(files[0].name, "Big_Buck_Bunny_1080p.avi");
    assert_eq!(files[0].size, 928670754);
    let videos: Vec<_> = files.iter().filter(|f| looks_like_video(&f.name)).collect();
    assert_eq!(videos.len(), 1, "only the .avi is video");
}

#[test]
fn parse_metainfo_index_fallback_to_position() {
    let body = r#"{"files":[{"name":"a.mkv","size":1},{"name":"b.mkv","size":2}]}"#;
    let files = parse_metainfo(&reply(body));
    assert_eq!(files[0].index, 0);
    assert_eq!(files[1].index, 1);
}

#[test]
fn parse_metainfo_empty_or_garbage() {
    assert!(parse_metainfo(&reply("not json")).is_empty());
    assert!(parse_metainfo(&reply(r#"{"files":[]}"#)).is_empty());
}

#[test]
fn parse_metainfo_alternative_names_and_gaps() {
    let body = r#"{"files":[
        {"name":"  "},
        {"size":5},
        {"path":"dir/c.mkv","length":9},
        {"name":"d.mkv","path":"x","size":1,"length":2,"index":7}]}"#;
    let files = parse_metainfo(&reply(body));
    assert_eq!(files.len(), 2);
    assert_eq!(
        files[0],
        TorrentFile {
            index: 2,
            name: "dir/c.mkv".to_string(),
            size: 9
        }
    );
    assert_eq!(
        files[1],
        TorrentFile {
            index: 7,
            name: "d.mkv".to_string(),
            size: 1
        }
    );
}

#[test]
fn pick_videos_keeps_order_and_limit() {
    let files: Vec<TorrentFile> = ["a.mkv", "b.txt", "c.mp4", "d.ts"]
        .iter()
        .enumerate()
        .map(|(i, n)| TorrentFile {
            index: i,
            name: n.to_string(),
            size: 0,
        })
        .collect();
    let all = pick_videos(&files, 10);
    assert_eq!(all.iter().map(|f| f.index).collect::<Vec<_>>(), vec![0, 2, 3]);
    let two = pick_videos(&files, 2);
    assert_eq!(two.iter().map(|f| f.index).collect::<Vec<_>>(), vec![0, 2]);
    assert!(pick_videos(&files, 0).is_empty());
}

#[test]
fn fields_behave_like_a_map() {
    let mut f = Fields::new();
    assert_eq!(f.len(), 0);
    f.insert("a", "1".to_string());
    f.insert("b", "2".to_string());
    f.insert("a", "3".to_string());
    assert_eq!(f.len(), 2);
    f.insert_if_absent("a", "4".to_string());
    f.insert_if_absent("c", "5".to_string());
    assert_eq!(f.get("a").map(String::as_str), Some("3"));
    assert_eq!(f.get("c").map(String::as_str), Some("5"));
    let g = f.clone();
    assert_eq!(f.remove("a"), Some("3".to_string()));
    assert_eq!(f.remove("a"), None);
    assert!(!f.contains_key("a"));
    assert!(g.contains_key("a"));
    f.extend(&g);
    assert_eq!(f.len(), 3);
    f.remove_all(&vec!["b".to_string(), "zz".to_string()]);
    let mut keys = f.keys();
    keys.sort();
    assert_eq!(keys, vec!["a".to_string(), "c".to_string()]);
}

#[test]
fn reply_without_files_gives_no_file_list() {
    assert!(file_list(&reply("not json")).is_none());
    assert!(file_list(&reply(r#"{"files":[]}"#)).is_none());
    assert!(file_list(&reply(r#"{"files":[{"name":" "}]}"#)).is_none());
    let one = file_list(&reply(r#"{"files":[{"name":"a.mkv","size":1}]}"#)).unwrap();
    assert_eq!(one.len(), 1);
    assert_eq!(one[0].name, "a.mkv");
}
