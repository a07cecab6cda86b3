//! Unpacking a search hit: a torrent with several videos becomes one record per
//! video file.

use vstd::prelude::*;

use crate::hash;
use crate::hash::compute_bt_v1_file_cid;
use crate::infohash;
use crate::infohash::decode_infohash;
use crate::item;
use crate::item::{bare_magnet_link, build_file_record};
use crate::metainfo;
use crate::metainfo::{pick_videos, FileView, TorrentFile};
use crate::number;
use crate::record;
use crate::record::{field_is, get_or, DiscoveryRecord, RecordView};
use crate::resolve;
use crate::resolve::MAX_FANOUT_FILES;
use crate::text;
use crate::text::{chars_of, has_suffix, lowered, owned};

verus! {

/// The hit is known to hold something other than video.
pub open spec fn is_not_video(fields: Map<Seq<char>, Seq<char>>) -> bool {
    let t = record::field(fields, "fileType"@);
    t == Some("archive"@) || t == Some("audio"@) || t == Some("document"@) || t == Some("image"@)
}

/// The title by which a hit is judged.
pub open spec fn hit_title(fields: Map<Seq<char>, Seq<char>>) -> Seq<char> {
    record::field_or(fields, "title"@, "fileName"@)
}

/// A title that ends like the name of a video file.
pub open spec fn ends_like_video(title: Seq<char>) -> bool {
    let t = text::lower(title);
    ||| text::ends_with(t, ".mkv"@)
    ||| text::ends_with(t, ".mp4"@)
    ||| text::ends_with(t, ".avi"@)
    ||| text::ends_with(t, ".mov"@)
    ||| text::ends_with(t, ".m4v"@)
    ||| text::ends_with(t, ".webm"@)
    ||| text::ends_with(t, ".ts"@)
    ||| text::ends_with(t, ".flv"@)
}

/// Tests whether a title is that of a single file: one episode, or the name of
/// a video file. `names_episode` tells whether an episode number was found in
/// the title.
pub fn is_obvious_single_file(title: &str, names_episode: bool) -> (r: bool)
    ensures
        r == (names_episode || ends_like_video(title@)),
{
    if names_episode {
        return true;
    }
    let t = lowered(&chars_of(title));
    has_suffix(&t, ".mkv") || has_suffix(&t, ".mp4") || has_suffix(&t, ".avi") || has_suffix(
        &t,
        ".mov",
    ) || has_suffix(&t, ".m4v") || has_suffix(&t, ".webm") || has_suffix(&t, ".ts") || has_suffix(
        &t,
        ".flv",
    )
}

/// The title by which a hit is judged.
pub fn title_of_hit(rec: &DiscoveryRecord) -> (r: String)
    ensures
        r@ == hit_title(rec.fields@),
{
    get_or(&rec.fields, "title", "fileName")
}

/// The record with the content id of file `index`, unless it has one.
pub open spec fn with_cid(rec: RecordView, infohash: Seq<u8>, index: nat) -> RecordView {
    if rec.fields.contains_key("cid_btih_v1_file"@) {
        rec
    } else {
        RecordView {
            fields: rec.fields.insert(
                "cid_btih_v1_file"@,
                hash::bt_v1_file_cid(infohash, index),
            ),
            ..rec
        }
    }
}

/// The record of one video file of a hit. In a torrent with several videos each
/// is an episode.
pub open spec fn video_record(
    rec: RecordView,
    infohash: Seq<u8>,
    f: FileView,
    episode: bool,
) -> RecordView {
    let file = item::file_record(rec.fields, rec.record_id, f);
    let fields = file.fields.insert(
        "cid_btih_v1_file"@,
        hash::bt_v1_file_cid(infohash, f.index),
    );
    RecordView {
        fields: if episode {
            fields.insert("contentKind"@, "episode"@)
        } else {
            fields
        },
        ..file
    }
}

/// The file list of the hit has to be asked for.
pub open spec fn needs_probe(rec: RecordView, names_episode: bool) -> bool {
    &&& !is_not_video(rec.fields)
    &&& infohash::decoded(rec.record_id) is Some
    &&& !names_episode
    &&& !ends_like_video(hit_title(rec.fields))
}

/// The records of a hit that needs no file list: none where it is known to hold
/// no video, the hit itself where its id is no info hash, else the hit with the
/// content id of its first file.
pub open spec fn unprobed_records(rec: RecordView) -> Seq<RecordView> {
    if is_not_video(rec.fields) {
        Seq::empty()
    } else {
        match infohash::decoded(rec.record_id) {
            Some(h) => seq![with_cid(rec, h, 0)],
            None => seq![rec],
        }
    }
}

/// The records of a hit with the info hash `infohash` whose file list was asked
/// for: one per video file, within the limit. Without a file list the hit
/// stands for its first file.
pub open spec fn probed_records(
    rec: RecordView,
    infohash: Seq<u8>,
    files: Option<Seq<FileView>>,
) -> Seq<RecordView> {
    match files {
        None => seq![with_cid(rec, infohash, 0)],
        Some(list) => {
            let videos = metainfo::first_videos(list, MAX_FANOUT_FILES as nat);
            Seq::new(
                videos.len(),
                |i: int| video_record(rec, infohash, videos[i], videos.len() >= 2),
            )
        },
    }
}

/// How a hit is unpacked.
#[derive(Debug)]
pub enum Expansion {
    /// These are its records.
    Ready(Vec<DiscoveryRecord>),
    /// The file list for `magnet` has to be asked for first.
    Probe { record: DiscoveryRecord, infohash: [u8; 20], magnet: String },
}

fn with_file_cid(rec: DiscoveryRecord, infohash: &[u8; 20]) -> (r: DiscoveryRecord)
    ensures
        r@ == with_cid(rec@, infohash@, 0),
{
    let mut out = rec;
    let cid = compute_bt_v1_file_cid(infohash, 0);
    out.fields.insert_if_absent("cid_btih_v1_file", cid);
    out
}

/// Begins to unpack a hit. `names_episode` tells whether an episode number was
/// found in the title of the hit.
pub fn begin_expansion(rec: DiscoveryRecord, names_episode: bool) -> (r: Expansion)
    ensures
        match r {
            Expansion::Ready(v) => !needs_probe(rec@, names_episode) && record::record_views(v@)
                == unprobed_records(rec@),
            Expansion::Probe { record, infohash, magnet } => {
                &&& needs_probe(rec@, names_episode)
                &&& record@ == rec@
                &&& infohash::decoded(rec.record_id@) == Some(infohash@)
                &&& magnet@ == resolve::torrent_magnet(Some(rec.fields@), rec.record_id@)
            },
        },
{
    let mut out: Vec<DiscoveryRecord> = Vec::new();
    assert(record::record_views(out@) == Seq::<RecordView>::empty());
    if field_is(&rec.fields, "fileType", "archive") || field_is(&rec.fields, "fileType", "audio")
        || field_is(&rec.fields, "fileType", "document") || field_is(
        &rec.fields,
        "fileType",
        "image",
    ) {
        return Expansion::Ready(out);
    }
    let infohash = match decode_infohash(rec.record_id.as_str()) {
        Some(h) => h,
        None => {
            let ghost only = rec@;
            out.push(rec);
            assert(record::record_views(out@) == seq![only]);
            return Expansion::Ready(out);
        },
    };
    let title = title_of_hit(&rec);
    if is_obvious_single_file(title.as_str(), names_episode) {
        let one = with_file_cid(rec, &infohash);
        let ghost only = one@;
        out.push(one);
        assert(record::record_views(out@) == seq![only]);
        return Expansion::Ready(out);
    }
    let magnet = match rec.fields.get("sourceUrl") {
        Some(u) => owned(u.as_str()),
        None => bare_magnet_link(rec.record_id.as_str()),
    };
    Expansion::Probe { record: rec, infohash, magnet }
}

/// The files in an optional list.
pub open spec fn listed(files: Option<Vec<TorrentFile>>) -> Option<Seq<FileView>> {
    match files {
        Some(v) => Some(metainfo::file_views(v@)),
        None => None,
    }
}

/// Finishes unpacking a hit, once its file list was asked for.
pub fn finish_expansion(
    rec: DiscoveryRecord,
    infohash: &[u8; 20],
    files: &Option<Vec<TorrentFile>>,
) -> (r: Vec<DiscoveryRecord>)
    ensures
        record::record_views(r@) == probed_records(rec@, infohash@, listed(*files)),
{
    let mut out: Vec<DiscoveryRecord> = Vec::new();
    let videos = match files {
        Some(v) => pick_videos(v, MAX_FANOUT_FILES),
        None => {
            let one = with_file_cid(rec, infohash);
            let ghost only = one@;
            out.push(one);
            assert(record::record_views(out@) == seq![only]);
            return out;
        },
    };
    let ghost picked = metainfo::file_views(videos@);
    let ghost whole = probed_records(rec@, infohash@, listed(*files));
    let n: usize = videos.len();
    let mut i: usize = 0;
    assert(record::record_views(out@) == whole.take(0));
    while i < n
        invariant
            n == videos@.len(),
            picked == metainfo::file_views(videos@),
            whole == Seq::new(
                picked.len(),
                |i: int| video_record(rec@, infohash@, picked[i], picked.len() >= 2),
            ),
            i <= n,
            record::record_views(out@) == whole.take(i as int),
        decreases n - i,
    {
        let f = &videos[i];
        assert(picked[i as int] == f@);
        let mut one = build_file_record(&rec.fields, rec.record_id.as_str(), f);
        one.fields.insert("cid_btih_v1_file", compute_bt_v1_file_cid(infohash, f.index as u64));
        if n >= 2 {
            one.fields.insert("contentKind", owned("episode"));
        }
        let ghost before = record::record_views(out@);
        let ghost added = one@;
        out.push(one);
        assert(record::record_views(out@) == before.push(added));
        assert(added == whole[i as int]);
        i += 1;
    }
    assert(whole.take(n as int) == whole);
    out
}

/// Every record of a video hit with an info hash for an id carries a content id
/// of a file, so it can be played.
pub proof fn expanded_records_are_playable(
    rec: RecordView,
    infohash: Seq<u8>,
    files: Option<Seq<FileView>>,
    i: int,
)
    requires
        infohash::decoded(rec.record_id) == Some(infohash),
    ensures
        0 <= i < unprobed_records(rec).len() ==> unprobed_records(rec)[i].fields.contains_key(
            "cid_btih_v1_file"@,
        ),
        0 <= i < probed_records(rec, infohash, files).len() ==> probed_records(
            rec,
            infohash,
            files,
        )[i].fields.contains_key("cid_btih_v1_file"@),
{
}

/// The records of a torrent with several videos stay apart: files at different
/// positions have different stream keys. Each of them is an episode.
pub proof fn episodes_stay_apart(
    rec: RecordView,
    infohash: Seq<u8>,
    files: Seq<FileView>,
    i: int,
    j: int,
)
    requires
        infohash.len() == 20,
        0 <= i < j < probed_records(rec, infohash, Some(files)).len(),
        metainfo::first_videos(files, MAX_FANOUT_FILES as nat)[i].index != metainfo::first_videos(
            files,
            MAX_FANOUT_FILES as nat,
        )[j].index,
    ensures
        ({
            let out = probed_records(rec, infohash, Some(files));
            &&& item::dedup_key(out[i]) != item::dedup_key(out[j])
            &&& record::field(out[i].fields, "contentKind"@) == Some("episode"@)
            &&& record::field(out[j].fields, "contentKind"@) == Some("episode"@)
        }),
{
    let out = probed_records(rec, infohash, Some(files));
    let videos = metainfo::first_videos(files, MAX_FANOUT_FILES as nat);
    reveal_strlit("cid_btih_v1_file");
    reveal_strlit("contentKind");
    assert("cid_btih_v1_file"@[1] == 'i');
    assert("contentKind"@[1] == 'o');
    if item::dedup_key(out[i]) == item::dedup_key(out[j]) {
        hash::bt_v1_file_cid_is_injective(infohash, videos[i].index, infohash, videos[j].index);
    }
}

/// A hit that is known to hold no video is dropped, and so is a torrent whose
/// file list holds none.
pub proof fn non_video_is_dropped(rec: RecordView, infohash: Seq<u8>, files: Seq<FileView>)
    ensures
        is_not_video(rec.fields) ==> unprobed_records(rec).len() == 0,
        metainfo::videos_of(files).len() == 0 ==> probed_records(
            rec,
            infohash,
            Some(files),
        ).len() == 0,
{
}

/// Each video of a probed hit gets a record: at most a hundred, in the order of
/// the files. It tells the file's own name, size and content id, has the hit's id and
/// is a video; with others it is an episode, and alone it tells no kind. It tells
/// no season, episode, quality or codec of the hit, and all else that the hit told.
pub proof fn each_video_gets_a_record(
    rec: RecordView,
    infohash: Seq<u8>,
    files: Seq<FileView>,
    i: int,
    key: Seq<char>,
)
    requires
        0 <= i < probed_records(rec, infohash, Some(files)).len(),
    ensures
        ({
            let records = probed_records(rec, infohash, Some(files));
            let videos = files.filter(|f: FileView| metainfo::is_video_name(f.name));
            let r = records[i];
            &&& records.len() == (if videos.len() <= 100 {
                videos.len()
            } else {
                100
            })
            &&& r.upstream_id == "tribler"@
            &&& r.record_id == rec.record_id
            &&& record::field(r.fields, "fileName"@) == Some(videos[i].name)
            &&& record::field(r.fields, "sizeByte"@) == Some(number::decimal(videos[i].size))
            &&& record::field(r.fields, "fileType"@) == Some("video"@)
            &&& record::field(r.fields, "cid_btih_v1_file"@) == Some(
                hash::bt_v1_file_cid(infohash, videos[i].index),
            )
            &&& record::field(r.fields, "season"@) is None
            &&& record::field(r.fields, "episode"@) is None
            &&& record::field(r.fields, "quality"@) is None
            &&& record::field(r.fields, "codec"@) is None
            &&& record::field(r.fields, "videoType"@) is None
            &&& records.len() >= 2 ==> record::field(r.fields, "contentKind"@) == Some("episode"@)
            &&& records.len() == 1 ==> record::field(r.fields, "contentKind"@) is None
            &&& {
                &&& key != "season"@ && key != "episode"@ && key != "quality"@ && key != "codec"@
                &&& key != "contentKind"@ && key != "videoType"@ && key != "cid_btih_v1_file"@
                &&& key != "fileName"@ && key != "sizeByte"@ && key != "fileType"@
            } ==> record::field(r.fields, key) == record::field(rec.fields, key)
        }),
{
    record::lemma_field_names();
    metainfo::videos_are_picked_in_order(files, MAX_FANOUT_FILES as nat);
    let picked = metainfo::first_videos(files, MAX_FANOUT_FILES as nat);
    assert(picked[i] == metainfo::videos_of(files)[i]);
    item::file_record_tells_of_the_file(rec.fields, rec.record_id, picked[i], key);
    item::file_record_tells_of_the_file(rec.fields, rec.record_id, picked[i], "title"@);
}

/// A hit without a video among its files has no record.
pub proof fn no_video_no_record(rec: RecordView, infohash: Seq<u8>, files: Seq<FileView>)
    ensures
        probed_records(rec, infohash, Some(files)).len() == 0 <==> forall|i: int|
            0 <= i < files.len() ==> !metainfo::is_video_name((#[trigger] files[i]).name),
{
    metainfo::videos_are_picked_in_order(files, MAX_FANOUT_FILES as nat);
    let pred = |f: FileView| metainfo::is_video_name(f.name);
    let videos = files.filter(pred);
    if videos.len() == 0 {
        assert forall|i: int| 0 <= i < files.len() implies !pred(#[trigger] files[i]) by {
            if pred(files[i]) {
                lemma_not_filtered(files, pred, i);
            }
        }
    }
    if videos.len() > 0 {
        assert(files.contains(videos[0]) && pred(videos[0])) by {
            lemma_filtered(files, pred, 0);
        }
        let k = choose|k: int| 0 <= k < files.len() && files[k] == videos[0];
        assert(metainfo::is_video_name(files[k].name));
    }
}

proof fn lemma_not_filtered(files: Seq<FileView>, pred: spec_fn(FileView) -> bool, i: int)
    requires
        0 <= i < files.len(),
        pred(files[i]),
    ensures
        files.filter(pred).len() > 0,
    decreases files.len(),
{
    reveal(Seq::filter);
    if i < files.len() - 1 {
        lemma_not_filtered(files.drop_last(), pred, i);
    }
}

proof fn lemma_filtered(files: Seq<FileView>, pred: spec_fn(FileView) -> bool, i: int)
    requires
        0 <= i < files.filter(pred).len(),
    ensures
        files.contains(files.filter(pred)[i]),
        pred(files.filter(pred)[i]),
    decreases files.len(),
{
    reveal(Seq::filter);
    let init = files.drop_last();
    if i < init.filter(pred).len() {
        lemma_filtered(init, pred, i);
        let k = choose|k: int| 0 <= k < init.len() && init[k] == init.filter(pred)[i];
        assert(files[k] == init[k]);
    } else {
        assert(files[files.len() - 1] == files.last());
    }
}

/// A hit that stands for its first file is sent as it is, with that file's content
/// id unless it has one.
pub proof fn unlisted_hit_stands_for_its_first_file(
    rec: RecordView,
    infohash: Seq<u8>,
    key: Seq<char>,
)
    ensures
        ({
            let records = probed_records(rec, infohash, None);
            let only = records[0];
            &&& records.len() == 1
            &&& only.upstream_id == rec.upstream_id
            &&& only.record_id == rec.record_id
            &&& record::field(only.fields, "cid_btih_v1_file"@) == (if rec.fields.contains_key(
                "cid_btih_v1_file"@,
            ) {
                Some(rec.fields["cid_btih_v1_file"@])
            } else {
                Some(hash::bt_v1_file_cid(infohash, 0))
            })
            &&& key != "cid_btih_v1_file"@ ==> record::field(only.fields, key) == record::field(
                rec.fields,
                key,
            )
        }),
        infohash::decoded(rec.record_id) == Some(infohash) && !is_not_video(rec.fields)
            ==> unprobed_records(rec) == probed_records(rec, infohash, None),
        infohash::decoded(rec.record_id) is None && !is_not_video(rec.fields) ==> unprobed_records(
            rec,
        ) == seq![rec],
        is_not_video(rec.fields) ==> unprobed_records(rec).len() == 0,
{
}

/// A file list is asked for unless the hit is known to hold something other than
/// video, has no info hash for an id, names an episode, or is titled like a video
/// file. The title is read before the file name.
pub proof fn file_list_is_asked_for(rec: RecordView, names_episode: bool, title: Seq<char>)
    requires
        record::field(rec.fields, "title"@) == Some(title) || (record::field(
            rec.fields,
            "title"@,
        ) is None && record::field(rec.fields, "fileName"@) == Some(title)),
    ensures
        needs_probe(rec, names_episode) <==> {
            let t = record::field(rec.fields, "fileType"@);
            let low = text::lower(title);
            &&& t != Some("archive"@) && t != Some("audio"@) && t != Some("document"@) && t != Some(
                "image"@,
            )
            &&& infohash::decoded(rec.record_id) is Some
            &&& !names_episode
            &&& !text::ends_with(low, ".mkv"@) && !text::ends_with(low, ".mp4"@)
            &&& !text::ends_with(low, ".avi"@) && !text::ends_with(low, ".mov"@)
            &&& !text::ends_with(low, ".m4v"@) && !text::ends_with(low, ".webm"@)
            &&& !text::ends_with(low, ".ts"@) && !text::ends_with(low, ".flv"@)
        },
        is_not_video(rec.fields) <==> {
            let t = record::field(rec.fields, "fileType"@);
            t == Some("archive"@) || t == Some("audio"@) || t == Some("document"@) || t == Some(
                "image"@,
            )
        },
{
}

/// A title that ends like a video's is the name of a video file.
pub proof fn single_files_are_videos(title: Seq<char>)
    ensures
        ends_like_video(title) ==> metainfo::is_video_name(title),
{
    metainfo::video_names_end_like_videos(title);
}

/// How a hit is unpacked: as its records where no file list is needed, else by
/// asking for the list with the hit's own magnet link, or a bare one; and then by
/// that list.
pub proof fn hits_are_unpacked(
    rec: DiscoveryRecord,
    names_episode: bool,
    r: Expansion,
    infohash: [u8; 20],
    files: Option<Vec<TorrentFile>>,
    done: Vec<DiscoveryRecord>,
    title: &str,
    single: bool,
)
    requires
        call_ensures(begin_expansion, (rec, names_episode), r),
        call_ensures(finish_expansion, (rec, &infohash, &files), done),
        call_ensures(is_obvious_single_file, (title, names_episode), single),
    ensures
        r is Probe <==> needs_probe(rec@, names_episode),
        r matches Expansion::Ready(v) ==> record::record_views(v@) == unprobed_records(rec@),
        r matches Expansion::Probe { record, infohash: h, magnet } ==> {
            &&& record@ == rec@
            &&& infohash::decoded(rec.record_id@) == Some(h@)
            &&& rec.fields@.contains_key("sourceUrl"@) ==> magnet@ == rec.fields@["sourceUrl"@]
            &&& !rec.fields@.contains_key("sourceUrl"@) ==> magnet@ == "magnet:?xt=urn:btih:"@
                + rec.record_id@
        },
        files matches Some(v) ==> record::record_views(done@) == probed_records(
            rec@,
            infohash@,
            Some(metainfo::file_views(v@)),
        ),
        files is None ==> record::record_views(done@) == probed_records(rec@, infohash@, None),
        single <==> names_episode || ends_like_video(title@),
{
}

} // verus!
