use tribler_feeder::events::{
    frame_payload, into_records, parse_remote_results, read_item, FrameBuffer,
};
use tribler_feeder::feed::RemoteFeed;
use tribler_feeder::json::{parse_json, Json};

const IH: &str = "0123456789abcdef0123456789abcdef01234567";

#[test]
fn parse_remote_results_flat_shape_matches_uuid() {
    let frame = format!(
        "event: remote_query_results\ndata: {}",
        format!(
            r#"{{"type":"remote_query_results","uuid":"abc-123","results":[{{"infohash":"{IH}","name":"Movie 2021 720p","size":100}}]}}"#
        )
    );
    let items = parse_remote_results(&frame, "abc-123");
    assert_eq!(items.len(), 1);
    assert_eq!(items[0].infohash.as_deref(), Some(IH));
}

#[test]
fn parse_remote_results_nested_event_shape() {
    let frame = format!(
        "data: {}",
        format!(
            r#"{{"topic":"remote_query_results","event":{{"uuid":"u-9","results":[{{"infohash":"{IH}","name":"A"}}]}}}}"#
        )
    );
    let items = parse_remote_results(&frame, "u-9");
    assert_eq!(items.len(), 1);
}

#[test]
fn parse_remote_results_filters_other_uuid() {
    let frame = format!(
        "data: {}",
        format!(
            r#"{{"type":"remote_query_results","uuid":"other","results":[{{"infohash":"{IH}","name":"A"}}]}}"#
        )
    );
    assert!(parse_remote_results(&frame, "mine").is_empty());
}

#[test]
fn parse_remote_results_ignores_unrelated_topic() {
    let frame = format!(
        "data: {}",
        format!(r#"{{"type":"torrent_health","infohash":"{IH}"}}"#)
    );
    assert!(parse_remote_results(&frame, "").is_empty());
}

#[test]
fn parse_remote_results_empty_uuid_accepts_any() {
    let frame = format!(
        "data: {}",
        format!(
            r#"{{"type":"remote_query_results","uuid":"whatever","results":[{{"infohash":"{IH}","name":"A"}}]}}"#
        )
    );
    assert_eq!(parse_remote_results(&frame, "").len(), 1);
}

#[test]
fn parse_remote_results_without_topic_or_json() {
    let bare = format!(r#"data: {{"results":[{{"infohash":"{IH}"}}]}}"#);
    assert_eq!(parse_remote_results(&bare, "x").len(), 1);
    let short = format!(r#"data: {{"name":"results","results":[{{"infohash":"{IH}"}}]}}"#);
    assert_eq!(parse_remote_results(&short, "").len(), 1);
    assert!(parse_remote_results(r#"data: {"topic":"results"}"#, "").is_empty());
    assert!(parse_remote_results(r#"data: {"topic":"remote_query_results"}"#, "").is_empty());
    assert!(parse_remote_results("data: not json", "").is_empty());
    assert!(parse_remote_results("data:   ", "").is_empty());
    assert!(parse_remote_results("event: x", "").is_empty());
    assert!(parse_remote_results("data: [1,2]", "").is_empty());
}

#[test]
fn parse_remote_results_skips_unreadable_items() {
    let frame = format!(
        r#"data: {{"results":[{{"infohash":"{IH}","size":-1}},{{"infohash":5}},{{"infohash":"{IH}","num_seeders":null,"other":[1]}},7]}}"#
    );
    let items = parse_remote_results(&frame, "");
    assert_eq!(items.len(), 1);
    assert_eq!(items[0].num_seeders, None);
}

#[test]
fn payload_joins_data_lines() {
    assert_eq!(frame_payload("data: a\r\nid: 1\ndata:b\n\n"), "a\nb");
    assert_eq!(frame_payload(" data: a"), "");
    assert_eq!(frame_payload(""), "");
    let split = format!("data: {{\"results\":\ndata: [{{\"infohash\":\"{IH}\"}}]}}\n\n");
    assert_eq!(parse_remote_results(&split, "").len(), 1);
}

#[test]
fn item_from_object_and_from_list() {
    let v = parse_json(
        r#"{"infohash":"h","name":"n","size":18446744073709551615,"category":"c",
            "num_seeders":-3,"num_leechers":9223372036854775807,"trackers":["t","u"]}"#,
    )
    .unwrap();
    let item = read_item(&v).unwrap();
    assert_eq!(item.infohash.as_deref(), Some("h"));
    assert_eq!(item.name.as_deref(), Some("n"));
    assert_eq!(item.size, Some(u64::MAX));
    assert_eq!(item.category.as_deref(), Some("c"));
    assert_eq!(item.num_seeders, Some(-3));
    assert_eq!(item.num_leechers, Some(i64::MAX));
    assert_eq!(item.trackers, vec!["t".to_string(), "u".to_string()]);
    let list = parse_json(r#"["h",null,5]"#).unwrap();
    let item = read_item(&list).unwrap();
    assert_eq!(item.infohash.as_deref(), Some("h"));
    assert_eq!(item.name, None);
    assert_eq!(item.size, Some(5));
    assert!(item.trackers.is_empty());
    for bad in [
        r#"["h","n",1,"c",1,1,[],0]"#,
        r#"{"size":1.0}"#,
        r#"{"num_seeders":9223372036854775808}"#,
        r#"{"trackers":null}"#,
        r#"{"trackers":["a",1]}"#,
        r#"{"name":true}"#,
        "3",
        "null",
    ] {
        assert!(read_item(&parse_json(bad).unwrap()).is_none(), "{bad}");
    }
}

#[test]
fn json_documents() {
    assert!(parse_json("{").is_none());
    assert!(parse_json("").is_none());
    let v = parse_json(r#"{"a":{"b":[true,"x",1.5]},"n":null}"#).unwrap();
    let b = v.get("a").unwrap().get("b").unwrap();
    match b {
        Json::List(items) => {
            assert_eq!(items.len(), 3);
            assert!(matches!(items[0], Json::Bool(true)));
            assert_eq!(items[1].as_str(), Some("x"));
            assert!(matches!(
                items[2],
                Json::Number {
                    unsigned: None,
                    signed: None
                }
            ));
        }
        _ => panic!("expected a list"),
    }
    assert!(matches!(v.get("n"), Some(Json::Null)));
    assert!(v.get("z").is_none());
    assert!(b.get("a").is_none());
    assert_eq!(v.as_str(), None);
}

#[test]
fn into_records_leaves_out_unusable_items() {
    let frame = format!(
        r#"data: {{"results":[{{"infohash":"bad"}},{{"infohash":"{IH}","name":"x.mkv"}},{{"name":"y"}}]}}"#
    );
    let items = parse_remote_results(&frame, "");
    assert_eq!(items.len(), 3);
    let records = into_records(items);
    assert_eq!(records.len(), 1);
    assert_eq!(records[0].record_id, IH);
}

#[test]
fn frames_are_cut_at_blank_lines() {
    let mut buf = FrameBuffer::new();
    buf.receive(b"data: a\n");
    assert!(buf.take_frames().is_empty());
    buf.receive(b"\ndata: b\n\n\ndata: c");
    assert_eq!(
        buf.take_frames(),
        vec!["data: a\n\n".to_string(), "data: b\n\n".to_string()]
    );
    assert!(buf.take_frames().is_empty());
    buf.receive(b"\n\n");
    assert_eq!(buf.take_frames(), vec!["\ndata: c\n\n".to_string()]);
}

#[test]
fn invalid_bytes_are_replaced() {
    let mut buf = FrameBuffer::new();
    buf.receive(&[b'x', 0xff, b'\n', b'\n']);
    assert_eq!(buf.take_frames(), vec!["x\u{fffd}\n\n".to_string()]);
}

fn results_frame(uuid: &str, infohash: &str) -> String {
    format!(
        "data: {{\"type\":\"remote_query_results\",\"uuid\":\"{uuid}\",\"results\":[{{\"infohash\":\"{infohash}\",\"name\":\"A\"}}]}}\n\n"
    )
}

#[test]
fn feed_gives_records_whatever_the_chunks() {
    let other = "f".repeat(40);
    let text = format!(
        ": hello\n\n{}{}{}",
        results_frame("mine", IH),
        results_frame("theirs", IH),
        results_frame("mine", &other)
    );
    let mut whole = RemoteFeed::new("mine", 0);
    let ids: Vec<String> = whole
        .receive(text.as_bytes())
        .iter()
        .map(|r| r.record_id.clone())
        .collect();
    assert_eq!(ids, vec![IH.to_string(), other]);
    let mut cut = RemoteFeed::new("mine", 0);
    let mut found: Vec<String> = Vec::new();
    for chunk in text.as_bytes().chunks(7) {
        found.extend(cut.receive(chunk).iter().map(|r| r.record_id.clone()));
    }
    assert_eq!(found, ids);
}

#[test]
fn feed_is_exhausted_after_twenty_quiet_seconds() {
    let second: u64 = 1_000_000_000;
    let mut feed = RemoteFeed::new("", 5 * second);
    assert_eq!(feed.time_left(5 * second), Some(20 * second));
    assert_eq!(feed.time_left(0), Some(20 * second));
    assert_eq!(feed.time_left(24 * second), Some(second));
    assert_eq!(feed.time_left(25 * second), None);
    feed.handled(false, 24 * second);
    assert_eq!(feed.time_left(25 * second), None);
    feed.handled(true, 24 * second);
    assert_eq!(feed.time_left(25 * second), Some(19 * second));
    assert_eq!(feed.time_left(44 * second), None);
}
