//! Resolving a torrent to content ids: one per video file and one for the
//! torrent as a whole, or a single one.

use vstd::prelude::*;

use crate::hash;
use crate::hash::{compute_bt_info_cid, compute_bt_v1_file_cid};
use crate::infohash;
use crate::infohash::decode_infohash;
use crate::item;
use crate::item::{bare_magnet_link, build_file_record, build_pack_record, minimal_fields};
use crate::keymap::Fields;
use crate::metainfo;
use crate::metainfo::{pick_videos, FileView, TorrentFile};
use crate::number;
use crate::record;
use crate::record::{
    field_is, DiscoveryRecord, GatewayError, HashKind, HashOutcome, OutcomeView, RecordView,
};
use crate::text::{owned, push_str, str_eq};

verus! {

/// Limit on the files of one torrent that get a record of their own.
pub const MAX_FANOUT_FILES: usize = 100;

/// The fields that are known of a torrent: those kept from the search, else the
/// info hash alone.
pub open spec fn known_fields(
    cached: Option<Map<Seq<char>, Seq<char>>>,
    record_id: Seq<char>,
) -> Map<Seq<char>, Seq<char>> {
    match cached {
        Some(m) => m,
        None => item::bare_fields(record_id),
    }
}

/// The name of a torrent: its title, else its id.
pub open spec fn torrent_name(
    cached: Option<Map<Seq<char>, Seq<char>>>,
    record_id: Seq<char>,
) -> Seq<char> {
    match cached {
        Some(m) => match record::field(m, "title"@) {
            Some(t) => t,
            None => record_id,
        },
        None => record_id,
    }
}

/// The magnet link of a torrent: the one kept from the search, else that of the
/// bare info hash.
pub open spec fn torrent_magnet(
    cached: Option<Map<Seq<char>, Seq<char>>>,
    record_id: Seq<char>,
) -> Seq<char> {
    match cached {
        Some(m) => match record::field(m, "sourceUrl"@) {
            Some(u) => u,
            None => item::bare_magnet(record_id),
        },
        None => item::bare_magnet(record_id),
    }
}

/// The fields in an optional map.
pub open spec fn fields_of(cached: Option<Fields>) -> Option<Map<Seq<char>, Seq<char>>> {
    match cached {
        Some(f) => Some(f@),
        None => None,
    }
}

/// The magnet link by which a torrent's file list is asked for.
pub fn magnet_for(record_id: &str, cached: &Option<Fields>) -> (r: String)
    ensures
        r@ == torrent_magnet(fields_of(*cached), record_id@),
{
    match cached {
        Some(fields) => match fields.get("sourceUrl") {
            Some(u) => owned(u.as_str()),
            None => bare_magnet_link(record_id),
        },
        None => bare_magnet_link(record_id),
    }
}

fn name_for(record_id: &str, cached: &Option<Fields>) -> (r: String)
    ensures
        r@ == torrent_name(fields_of(*cached), record_id@),
{
    match cached {
        Some(fields) => match fields.get("title") {
            Some(t) => owned(t.as_str()),
            None => owned(record_id),
        },
        None => owned(record_id),
    }
}

/// The complaint about a record id that is no info hash.
pub open spec fn bad_record_id(record_id: Seq<char>) -> Seq<char> {
    "tribler record_id `"@ + record_id
        + "` is not a v1 BT infohash (expected 40 hex chars or 32 base32 chars)"@
}

/// Reads a record id as the info hash it must be.
pub fn decode_record_id(record_id: &str) -> (r: Result<[u8; 20], GatewayError>)
    ensures
        match r {
            Ok(b) => infohash::decoded(record_id@) == Some(b@),
            Err(GatewayError::Permanent(m)) => infohash::decoded(record_id@) is None && m@
                == bad_record_id(record_id@),
            Err(_) => false,
        },
{
    match decode_infohash(record_id) {
        Some(b) => Ok(b),
        None => {
            let mut m = owned("tribler record_id `");
            push_str(&mut m, record_id);
            push_str(
                &mut m,
                "` is not a v1 BT infohash (expected 40 hex chars or 32 base32 chars)",
            );
            Err(GatewayError::Permanent(m))
        },
    }
}

/// A record to publish under a content id.
#[derive(Debug)]
pub struct Publication {
    pub cid: String,
    pub record: DiscoveryRecord,
    /// The name by which the content is enriched.
    pub file_name: String,
    /// The content is the torrent as a whole, not one file.
    pub pack: bool,
}

/// What a [`Publication`] holds.
#[verifier::ext_equal]
pub struct PublicationView {
    pub cid: Seq<char>,
    pub record: RecordView,
    pub file_name: Seq<char>,
    pub pack: bool,
}

impl View for Publication {
    type V = PublicationView;

    open spec fn view(&self) -> PublicationView {
        PublicationView {
            cid: self.cid@,
            record: self.record@,
            file_name: self.file_name@,
            pack: self.pack,
        }
    }
}

/// The views of a list of publications.
pub open spec fn publication_views(v: Seq<Publication>) -> Seq<PublicationView> {
    Seq::new(v.len(), |i: int| v[i]@)
}

/// The publication of one file.
pub open spec fn file_publication(
    infohash: Seq<u8>,
    record_id: Seq<char>,
    torrent: Map<Seq<char>, Seq<char>>,
    f: FileView,
) -> PublicationView {
    PublicationView {
        cid: hash::bt_v1_file_cid(infohash, f.index),
        record: item::file_record(torrent, record_id, f),
        file_name: f.name,
        pack: false,
    }
}

/// The publication of a torrent as a whole.
pub open spec fn pack_publication(
    infohash: Seq<u8>,
    record_id: Seq<char>,
    torrent: Map<Seq<char>, Seq<char>>,
    name: Seq<char>,
) -> PublicationView {
    PublicationView {
        cid: hash::bt_info_cid(infohash),
        record: item::pack_record(torrent, record_id),
        file_name: name,
        pack: true,
    }
}

/// The publication of a torrent whose files are not known: its first file.
pub open spec fn unlisted_publication(
    infohash: Seq<u8>,
    record_id: Seq<char>,
    torrent: Map<Seq<char>, Seq<char>>,
    name: Seq<char>,
) -> PublicationView {
    PublicationView {
        cid: hash::bt_v1_file_cid(infohash, 0),
        record: RecordView { upstream_id: "tribler"@, record_id, fields: torrent },
        file_name: name,
        pack: false,
    }
}

/// What resolving a torrent publishes. With two or more video files: one entry
/// per file, up to the limit, and one for the torrent. With one: that file.
/// With none, or where the file list is not known: the torrent's first file.
pub open spec fn publications(
    infohash: Seq<u8>,
    record_id: Seq<char>,
    cached: Option<Map<Seq<char>, Seq<char>>>,
    files: Seq<FileView>,
) -> Seq<PublicationView> {
    let torrent = known_fields(cached, record_id);
    let name = torrent_name(cached, record_id);
    let videos = metainfo::first_videos(files, MAX_FANOUT_FILES as nat);
    if videos.len() >= 2 {
        Seq::new(
            videos.len(),
            |i: int| file_publication(infohash, record_id, torrent, videos[i]),
        ).push(pack_publication(infohash, record_id, torrent, name))
    } else if videos.len() == 1 {
        seq![file_publication(infohash, record_id, torrent, videos[0])]
    } else {
        seq![unlisted_publication(infohash, record_id, torrent, name)]
    }
}

/// The files in an optional list.
pub open spec fn files_of(files: Option<Vec<TorrentFile>>) -> Seq<FileView> {
    match files {
        Some(v) => metainfo::file_views(v@),
        None => Seq::empty(),
    }
}

fn publish_file(
    infohash_20: &[u8; 20],
    record_id: &str,
    torrent: &Fields,
    f: &TorrentFile,
) -> (r: Publication)
    ensures
        r@ == file_publication(infohash_20@, record_id@, torrent@, f@),
{
    Publication {
        cid: compute_bt_v1_file_cid(infohash_20, f.index as u64),
        record: build_file_record(torrent, record_id, f),
        file_name: owned(f.name.as_str()),
        pack: false,
    }
}

/// Plans what resolving a torrent publishes, from the fields kept from the
/// search and the file list, where there are any.
pub fn plan_outcomes(
    infohash_20: &[u8; 20],
    record_id: &str,
    cached: &Option<Fields>,
    files: &Option<Vec<TorrentFile>>,
) -> (r: Vec<Publication>)
    ensures
        publication_views(r@) == publications(
            infohash_20@,
            record_id@,
            fields_of(*cached),
            files_of(*files),
        ),
{
    let torrent = match cached {
        Some(fields) => fields.clone(),
        None => minimal_fields(record_id),
    };
    let name = name_for(record_id, cached);
    let videos = match files {
        Some(v) => pick_videos(v, MAX_FANOUT_FILES),
        None => Vec::new(),
    };
    let ghost listed = metainfo::first_videos(files_of(*files), MAX_FANOUT_FILES as nat);
    assert(metainfo::file_views(videos@) == listed);
    let mut out: Vec<Publication> = Vec::new();
    let n: usize = videos.len();
    if n >= 2 {
        let ghost whole = Seq::new(
            listed.len(),
            |i: int| file_publication(infohash_20@, record_id@, torrent@, listed[i]),
        );
        let mut i: usize = 0;
        while i < n
            invariant
                n == videos@.len(),
                metainfo::file_views(videos@) == listed,
                whole == Seq::new(
                    listed.len(),
                    |i: int| file_publication(infohash_20@, record_id@, torrent@, listed[i]),
                ),
                i <= n,
                publication_views(out@) == whole.take(i as int),
            decreases n - i,
        {
            let ghost before = publication_views(out@);
            assert(listed[i as int] == videos@[i as int]@);
            let p = publish_file(infohash_20, record_id, &torrent, &videos[i]);
            let ghost added = p@;
            out.push(p);
            assert(publication_views(out@) == before.push(added));
            i += 1;
        }
        let ghost files_done = publication_views(out@);
        assert(files_done == whole);
        let p = Publication {
            cid: compute_bt_info_cid(infohash_20),
            record: build_pack_record(&torrent, record_id),
            file_name: name,
            pack: true,
        };
        let ghost added = p@;
        out.push(p);
        assert(publication_views(out@) == files_done.push(added));
    } else if n == 1 {
        assert(listed[0] == videos@[0]@);
        let p = publish_file(infohash_20, record_id, &torrent, &videos[0]);
        let ghost added = p@;
        out.push(p);
        assert(publication_views(out@) == seq![added]);
    } else {
        let p = Publication {
            cid: compute_bt_v1_file_cid(infohash_20, 0),
            record: DiscoveryRecord {
                upstream_id: owned("tribler"),
                record_id: owned(record_id),
                fields: torrent,
            },
            file_name: name,
            pack: false,
        };
        let ghost added = p@;
        out.push(p);
        assert(publication_views(out@) == seq![added]);
    }
    out
}

/// An outcome that names a content id and nothing else: the record was
/// published already.
pub open spec fn sparse(cid: Seq<char>) -> OutcomeView {
    OutcomeView {
        hash: cid,
        hash_kind: HashKind::BtV1File,
        bytes: None,
        record: None,
        file_extension: None,
    }
}

/// An outcome that names a content id and nothing else.
pub fn sparse_outcome(cid: &str) -> (r: HashOutcome)
    ensures
        r@ == sparse(cid@),
{
    HashOutcome {
        hash: owned(cid),
        hash_kind: HashKind::BtV1File,
        bytes: None,
        record: None,
        file_extension: None,
    }
}

/// Content to enrich: its id, the name to parse, the fields it starts from.
#[derive(Debug)]
pub struct EnrichTarget {
    pub cid: String,
    pub file_name: String,
    pub base: Fields,
}

/// What an [`EnrichTarget`] holds.
#[verifier::ext_equal]
pub struct TargetView {
    pub cid: Seq<char>,
    pub file_name: Seq<char>,
    pub base: Map<Seq<char>, Seq<char>>,
}

impl View for EnrichTarget {
    type V = TargetView;

    open spec fn view(&self) -> TargetView {
        TargetView { cid: self.cid@, file_name: self.file_name@, base: self.base@ }
    }
}

/// The views of a list of targets.
pub open spec fn target_views(v: Seq<EnrichTarget>) -> Seq<TargetView> {
    Seq::new(v.len(), |i: int| v[i]@)
}

/// The target made of a publication.
pub open spec fn target(p: PublicationView) -> TargetView {
    TargetView { cid: p.cid, file_name: p.file_name, base: p.record.fields }
}

/// Which publications are new: those whose content id was not resolved before
/// and does not occur earlier in the list.
pub open spec fn fresh_marks(pubs: Seq<PublicationView>, resolved: Seq<bool>) -> Seq<bool> {
    Seq::new(
        pubs.len(),
        |i: int| !resolved[i] && forall|j: int| 0 <= j < i ==> (#[trigger] pubs[j]).cid
            != pubs[i].cid,
    )
}

/// Tells of each publication whether its content id is new. `resolved` tells of
/// each whether the id was resolved before. The guard is per content id, so that
/// one torrent may have several that are new.
pub fn mark_fresh(pubs: &Vec<Publication>, resolved: &Vec<bool>) -> (r: Vec<bool>)
    requires
        resolved@.len() == pubs@.len(),
    ensures
        r@ == fresh_marks(publication_views(pubs@), resolved@),
{
    let ghost all = publication_views(pubs@);
    let n: usize = pubs.len();
    let mut out: Vec<bool> = Vec::new();
    let mut i: usize = 0;
    while i < n
        invariant
            n == pubs@.len(),
            n == resolved@.len(),
            all == publication_views(pubs@),
            i <= n,
            out@ == fresh_marks(all, resolved@).take(i as int),
        decreases n - i,
    {
        let mut is_new: bool = !resolved[i];
        let mut j: usize = 0;
        while j < i
            invariant
                n == pubs@.len(),
                n == resolved@.len(),
                all == publication_views(pubs@),
                j <= i < n,
                is_new == (!resolved@[i as int] && forall|k: int|
                    0 <= k < j ==> (#[trigger] all[k]).cid != all[i as int].cid),
            decreases i - j,
        {
            if str_eq(pubs[j].cid.as_str(), pubs[i].cid.as_str()) {
                assert(all[j as int].cid == all[i as int].cid);
                is_new = false;
            }
            j += 1;
        }
        out.push(is_new);
        assert(out@ == fresh_marks(all, resolved@).take(i + 1));
        i += 1;
    }
    assert(fresh_marks(all, resolved@).take(n as int) == fresh_marks(all, resolved@));
    out
}

/// The publications that are new, in order.
pub open spec fn new_publications(pubs: Seq<PublicationView>, fresh: Seq<bool>) -> Seq<
    PublicationView,
>
    decreases pubs.len(),
{
    if pubs.len() == 0 {
        Seq::empty()
    } else {
        let before = new_publications(pubs.drop_last(), fresh);
        if fresh[pubs.len() - 1] {
            before.push(pubs.last())
        } else {
            before
        }
    }
}

/// What the publications in a list of references hold.
pub open spec fn reference_views(v: Seq<&Publication>) -> Seq<PublicationView> {
    Seq::new(v.len(), |i: int| v[i]@)
}

/// The publications whose records are written: those with a new content id.
pub fn to_publish<'a>(pubs: &'a Vec<Publication>, fresh: &Vec<bool>) -> (r: Vec<&'a Publication>)
    requires
        fresh@.len() == pubs@.len(),
    ensures
        reference_views(r@) == new_publications(publication_views(pubs@), fresh@),
{
    let ghost all = publication_views(pubs@);
    let n: usize = pubs.len();
    let mut out: Vec<&'a Publication> = Vec::new();
    let mut i: usize = 0;
    assert(reference_views(out@) == new_publications(all.take(0), fresh@));
    while i < n
        invariant
            n == pubs@.len(),
            n == fresh@.len(),
            all == publication_views(pubs@),
            i <= n,
            reference_views(out@) == new_publications(all.take(i as int), fresh@),
        decreases n - i,
    {
        proof {
            assert(all.take(i + 1).drop_last() == all.take(i as int));
            assert(all.take(i + 1).last() == pubs@[i as int]@);
        }
        if fresh[i] {
            let ghost before = reference_views(out@);
            out.push(&pubs[i]);
            assert(reference_views(out@) == before.push(pubs@[i as int]@));
        }
        i += 1;
    }
    assert(all.take(n as int) == all);
    out
}

/// A publication that is enriched as a video where it is new.
pub open spec fn is_video_publication(p: PublicationView) -> bool {
    !p.pack && record::field(p.record.fields, "fileType"@) == Some("video"@)
}

/// The new videos among the publications, in order.
pub open spec fn new_videos(pubs: Seq<PublicationView>, fresh: Seq<bool>) -> Seq<TargetView>
    decreases pubs.len(),
{
    if pubs.len() == 0 {
        Seq::empty()
    } else {
        let before = new_videos(pubs.drop_last(), fresh);
        if fresh[pubs.len() - 1] && is_video_publication(pubs.last()) {
            before.push(target(pubs.last()))
        } else {
            before
        }
    }
}

/// The last new torrent among the publications.
pub open spec fn new_pack(pubs: Seq<PublicationView>, fresh: Seq<bool>) -> Option<TargetView>
    decreases pubs.len(),
{
    if pubs.len() == 0 {
        None
    } else if fresh[pubs.len() - 1] && pubs.last().pack {
        Some(target(pubs.last()))
    } else {
        new_pack(pubs.drop_last(), fresh)
    }
}

/// The answer to a resolve request, and the enrichment it sets off.
#[derive(Debug)]
pub struct Resolution {
    pub outcomes: Vec<HashOutcome>,
    pub video_targets: Vec<EnrichTarget>,
    pub pack_target: Option<EnrichTarget>,
}

impl Resolution {
    /// Tests whether there is anything to enrich and anyone to do it.
    pub fn wants_enrichment(&self, has_plugins: bool) -> (r: bool)
        ensures
            r == (has_plugins && (self.video_targets@.len() > 0 || self.pack_target is Some)),
    {
        has_plugins && (self.video_targets.len() > 0 || self.pack_target.is_some())
    }
}

fn target_of(p: &Publication) -> (r: EnrichTarget)
    ensures
        r@ == target(p@),
{
    EnrichTarget {
        cid: owned(p.cid.as_str()),
        file_name: owned(p.file_name.as_str()),
        base: p.record.fields.clone(),
    }
}

/// Settles a resolve request. `fresh` tells of each publication whether its
/// content id was new; those that were not are answered but not enriched again.
pub fn settle_outcomes(pubs: &Vec<Publication>, fresh: &Vec<bool>) -> (r: Resolution)
    requires
        fresh@.len() == pubs@.len(),
    ensures
        record::outcome_views(r.outcomes@) == Seq::new(
            pubs@.len(),
            |i: int| sparse(pubs@[i].cid@),
        ),
        target_views(r.video_targets@) == new_videos(publication_views(pubs@), fresh@),
        (match r.pack_target {
            Some(t) => Some(t@),
            None => None,
        }) == new_pack(publication_views(pubs@), fresh@),
{
    let mut outcomes: Vec<HashOutcome> = Vec::new();
    let mut video_targets: Vec<EnrichTarget> = Vec::new();
    let mut pack_target: Option<EnrichTarget> = None;
    let ghost all = publication_views(pubs@);
    let ghost sparse_all = Seq::new(pubs@.len(), |i: int| sparse(pubs@[i].cid@));
    let n: usize = pubs.len();
    let mut i: usize = 0;
    assert(record::outcome_views(outcomes@) == sparse_all.take(0));
    assert(target_views(video_targets@) == new_videos(all.take(0), fresh@));
    while i < n
        invariant
            n == pubs@.len(),
            n == fresh@.len(),
            all == publication_views(pubs@),
            sparse_all == Seq::new(pubs@.len(), |i: int| sparse(pubs@[i].cid@)),
            i <= n,
            record::outcome_views(outcomes@) == sparse_all.take(i as int),
            target_views(video_targets@) == new_videos(all.take(i as int), fresh@),
            (match pack_target {
                Some(t) => Some(t@),
                None => None,
            }) == new_pack(all.take(i as int), fresh@),
        decreases n - i,
    {
        let p = &pubs[i];
        proof {
            assert(all.take(i + 1).drop_last() == all.take(i as int));
            assert(all.take(i + 1).last() == p@);
        }
        let ghost outcomes_before = record::outcome_views(outcomes@);
        let o = sparse_outcome(p.cid.as_str());
        let ghost o_view = o@;
        outcomes.push(o);
        assert(record::outcome_views(outcomes@) == outcomes_before.push(o_view));
        if fresh[i] {
            if p.pack {
                pack_target = Some(target_of(p));
            } else if field_is(&p.record.fields, "fileType", "video") {
                let ghost before = target_views(video_targets@);
                let t = target_of(p);
                let ghost t_view = t@;
                video_targets.push(t);
                assert(target_views(video_targets@) == before.push(t_view));
            }
        }
        i += 1;
    }
    assert(all.take(n as int) == all);
    assert(sparse_all.take(n as int) == sparse_all);
    Resolution { outcomes, video_targets, pack_target }
}

/// Answers a resolve request where the gateway itself stores the record: the
/// torrent's first file, with the record unless it was handed over before.
pub fn legacy_single_outcome(
    infohash_20: &[u8; 20],
    record_id: &str,
    already: bool,
    cached: Option<Fields>,
) -> (r: Vec<HashOutcome>)
    ensures
        r@.len() == 1,
        r@[0]@ == (OutcomeView {
            hash: hash::bt_v1_file_cid(infohash_20@, 0),
            hash_kind: HashKind::BtV1File,
            bytes: None,
            record: if already {
                None
            } else {
                Some(
                    RecordView {
                        upstream_id: "tribler"@,
                        record_id: record_id@,
                        fields: known_fields(fields_of(cached), record_id@),
                    },
                )
            },
            file_extension: None,
        }),
{
    let cid = compute_bt_v1_file_cid(infohash_20, 0);
    let mut out: Vec<HashOutcome> = Vec::new();
    if already {
        out.push(sparse_outcome(cid.as_str()));
        return out;
    }
    let fields = match cached {
        Some(f) => f,
        None => minimal_fields(record_id),
    };
    out.push(
        HashOutcome {
            hash: cid,
            hash_kind: HashKind::BtV1File,
            bytes: None,
            record: Some(
                DiscoveryRecord {
                    upstream_id: owned("tribler"),
                    record_id: owned(record_id),
                    fields,
                },
            ),
            file_extension: None,
        },
    );
    out
}

proof fn lemma_file_record_is_video(
    torrent: Map<Seq<char>, Seq<char>>,
    record_id: Seq<char>,
    f: FileView,
)
    ensures
        record::field(item::file_record(torrent, record_id, f).fields, "fileType"@) == Some(
            "video"@,
        ),
{
    reveal_strlit("fileType");
    reveal_strlit("season");
    reveal_strlit("episode");
    reveal_strlit("quality");
    reveal_strlit("codec");
    reveal_strlit("contentKind");
    reveal_strlit("videoType");
    assert("fileType"@[0] == 'f');
    assert(!item::parsed_fields().contains("fileType"@));
}

/// A torrent always resolves to at least one content id and to at most one per
/// file within the limit and one for the whole.
pub proof fn resolves_to_something(
    infohash: Seq<u8>,
    record_id: Seq<char>,
    cached: Option<Map<Seq<char>, Seq<char>>>,
    files: Seq<FileView>,
)
    ensures
        1 <= publications(infohash, record_id, cached, files).len() <= MAX_FANOUT_FILES + 1,
{
}

/// Every file that is published with others is a video, and the torrent as a
/// whole is published last and only then.
pub proof fn fan_out_is_video(
    infohash: Seq<u8>,
    record_id: Seq<char>,
    cached: Option<Map<Seq<char>, Seq<char>>>,
    files: Seq<FileView>,
)
    ensures
        ({
            let pubs = publications(infohash, record_id, cached, files);
            pubs.len() >= 2 ==> {
                &&& forall|i: int|
                    0 <= i < pubs.len() - 1 ==> is_video_publication(#[trigger] pubs[i])
                &&& pubs.last().pack
            }
        }),
{
    let pubs = publications(infohash, record_id, cached, files);
    let videos = metainfo::first_videos(files, MAX_FANOUT_FILES as nat);
    if pubs.len() >= 2 {
        assert forall|i: int| 0 <= i < pubs.len() - 1 implies is_video_publication(
            #[trigger] pubs[i],
        ) by {
            lemma_file_record_is_video(known_fields(cached, record_id), record_id, videos[i]);
        }
    }
}

/// Files at different positions of one torrent get different content ids, and
/// none of them is the content id of the torrent.
pub proof fn files_get_their_own_cids(
    infohash: Seq<u8>,
    record_id: Seq<char>,
    cached: Option<Map<Seq<char>, Seq<char>>>,
    files: Seq<FileView>,
)
    requires
        infohash.len() == 20,
        forall|i: int, j: int|
            0 <= i < j < files.len() ==> (#[trigger] files[i]).index != (#[trigger] files[j]).index,
    ensures
        ({
            let pubs = publications(infohash, record_id, cached, files);
            forall|i: int, j: int|
                0 <= i < j < pubs.len() ==> (#[trigger] pubs[i]).cid != (#[trigger] pubs[j]).cid
        }),
{
    let pubs = publications(infohash, record_id, cached, files);
    let videos = metainfo::first_videos(files, MAX_FANOUT_FILES as nat);
    lemma_video_indices(files);
    assert forall|i: int, j: int| 0 <= i < j < pubs.len() implies (#[trigger] pubs[i]).cid != (
    #[trigger] pubs[j]).cid by {
        if j == pubs.len() - 1 {
            hash::cid_families_are_disjoint(
                infohash,
                videos[i].index,
                infohash,
                0,
                infohash,
                infohash,
                infohash,
            );
        } else {
            assert(videos[i].index != videos[j].index);
            if pubs[i].cid == pubs[j].cid {
                hash::bt_v1_file_cid_is_injective(
                    infohash,
                    videos[i].index,
                    infohash,
                    videos[j].index,
                );
            }
        }
    }
}

proof fn lemma_video_indices(files: Seq<FileView>)
    requires
        forall|i: int, j: int|
            0 <= i < j < files.len() ==> (#[trigger] files[i]).index != (#[trigger] files[j]).index,
    ensures
        ({
            let v = metainfo::videos_of(files);
            &&& forall|i: int, j: int|
                0 <= i < j < v.len() ==> (#[trigger] v[i]).index != (#[trigger] v[j]).index
            &&& forall|i: int| 0 <= i < v.len() ==> files.contains(#[trigger] v[i])
        }),
    decreases files.len(),
{
    if files.len() > 0 {
        let init = files.drop_last();
        assert forall|i: int, j: int| 0 <= i < j < init.len() implies (#[trigger] init[i]).index
            != (#[trigger] init[j]).index by {
            assert(files[i].index != files[j].index);
        }
        lemma_video_indices(init);
        let before = metainfo::videos_of(init);
        let v = metainfo::videos_of(files);
        assert forall|i: int| 0 <= i < v.len() implies files.contains(#[trigger] v[i]) by {
            if i < before.len() {
                assert(init.contains(before[i]));
                let k = choose|k: int| 0 <= k < init.len() && init[k] == before[i];
                assert(files[k] == v[i]);
            } else {
                assert(files[files.len() - 1] == v[i]);
            }
        }
        assert forall|i: int, j: int| 0 <= i < j < v.len() implies (#[trigger] v[i]).index != (
        #[trigger] v[j]).index by {
            if j < before.len() {
                assert(before[i].index != before[j].index);
            } else {
                assert(init.contains(before[i]));
                let k = choose|k: int| 0 <= k < init.len() && init[k] == before[i];
                assert(files[k].index != files[files.len() - 1].index);
            }
        }
    }
}

/// Content ids that are not new set nothing off: no record is written and
/// nothing is enriched.
pub proof fn resolving_again_is_quiet(pubs: Seq<PublicationView>, fresh: Seq<bool>)
    requires
        fresh.len() == pubs.len(),
        forall|i: int| 0 <= i < fresh.len() ==> !#[trigger] fresh[i],
    ensures
        new_publications(pubs, fresh) == Seq::<PublicationView>::empty(),
        new_videos(pubs, fresh) == Seq::<TargetView>::empty(),
        new_pack(pubs, fresh) is None,
{
    lemma_quiet(pubs, fresh);
}

proof fn lemma_quiet(pubs: Seq<PublicationView>, fresh: Seq<bool>)
    requires
        fresh.len() >= pubs.len(),
        forall|i: int| 0 <= i < fresh.len() ==> !#[trigger] fresh[i],
    ensures
        new_publications(pubs, fresh) == Seq::<PublicationView>::empty(),
        new_videos(pubs, fresh) == Seq::<TargetView>::empty(),
        new_pack(pubs, fresh) is None,
    decreases pubs.len(),
{
    if pubs.len() > 0 {
        lemma_quiet(pubs.drop_last(), fresh);
    }
}

/// Which publications have a content id among the ids `known`.
pub open spec fn resolved_among(pubs: Seq<PublicationView>, known: Set<Seq<char>>) -> Seq<bool> {
    Seq::new(pubs.len(), |i: int| known.contains(pubs[i].cid))
}

/// The content ids that are known once a list of publications was resolved.
pub open spec fn known_after(pubs: Seq<PublicationView>, known: Set<Seq<char>>) -> Set<Seq<char>> {
    Set::new(
        |cid: Seq<char>|
            known.contains(cid) || exists|i: int|
                0 <= i < pubs.len() && (#[trigger] pubs[i]).cid == cid,
    )
}

/// Each content id is published once. Resolving writes a record for every id
/// that was not known, for no id twice and for no id that was known. Resolving
/// the same again writes nothing and enriches nothing.
pub proof fn each_cid_is_published_once(pubs: Seq<PublicationView>, known: Set<Seq<char>>)
    ensures
        ({
            let fresh = fresh_marks(pubs, resolved_among(pubs, known));
            let written = new_publications(pubs, fresh);
            let later = fresh_marks(pubs, resolved_among(pubs, known_after(pubs, known)));
            &&& forall|i: int, j: int|
                0 <= i < j < written.len() ==> (#[trigger] written[i]).cid != (
                #[trigger] written[j]).cid
            &&& forall|i: int| 0 <= i < written.len() ==> !known.contains((#[trigger] written[i]).cid)
            &&& forall|i: int|
                0 <= i < pubs.len() ==> known.contains((#[trigger] pubs[i]).cid) || exists|k: int|
                    0 <= k < written.len() && (#[trigger] written[k]).cid == pubs[i].cid
            &&& new_publications(pubs, later) == Seq::<PublicationView>::empty()
            &&& new_videos(pubs, later) == Seq::<TargetView>::empty()
            &&& new_pack(pubs, later) is None
        }),
{
    let fresh = fresh_marks(pubs, resolved_among(pubs, known));
    let after = known_after(pubs, known);
    let later = fresh_marks(pubs, resolved_among(pubs, after));
    assert(pubs.take(pubs.len() as int) == pubs);
    lemma_written(pubs, known, pubs.len() as int);
    assert forall|i: int| 0 <= i < later.len() implies !#[trigger] later[i] by {
        assert(after.contains(pubs[i].cid));
    }
    resolving_again_is_quiet(pubs, later);
}

proof fn lemma_written(pubs: Seq<PublicationView>, known: Set<Seq<char>>, n: int)
    requires
        0 <= n <= pubs.len(),
    ensures
        ({
            let fresh = fresh_marks(pubs, resolved_among(pubs, known));
            let written = new_publications(pubs.take(n), fresh);
            &&& forall|k: int|
                0 <= k < written.len() ==> exists|i: int|
                    0 <= i < n && (#[trigger] pubs[i]).cid == (#[trigger] written[k]).cid
            &&& forall|i: int, j: int|
                0 <= i < j < written.len() ==> (#[trigger] written[i]).cid != (
                #[trigger] written[j]).cid
            &&& forall|i: int| 0 <= i < written.len() ==> !known.contains((#[trigger] written[i]).cid)
            &&& forall|i: int|
                0 <= i < n ==> known.contains((#[trigger] pubs[i]).cid) || exists|k: int|
                    0 <= k < written.len() && (#[trigger] written[k]).cid == pubs[i].cid
        }),
    decreases n,
{
    let fresh = fresh_marks(pubs, resolved_among(pubs, known));
    if n > 0 {
        lemma_written(pubs, known, n - 1);
        let before = new_publications(pubs.take(n - 1), fresh);
        let written = new_publications(pubs.take(n), fresh);
        let p = pubs[n - 1];
        assert(pubs.take(n).drop_last() == pubs.take(n - 1));
        assert(pubs.take(n).last() == p);
        assert forall|k: int| 0 <= k < written.len() implies exists|i: int|
            0 <= i < n && (#[trigger] pubs[i]).cid == (#[trigger] written[k]).cid by {
            if k < before.len() {
                let i = choose|i: int|
                    0 <= i < n - 1 && (#[trigger] pubs[i]).cid == before[k].cid;
                assert(pubs[i].cid == written[k].cid);
            } else {
                assert(pubs[n - 1].cid == written[k].cid);
            }
        }
        assert forall|i: int, j: int| 0 <= i < j < written.len() implies (#[trigger] written[i]).cid
            != (#[trigger] written[j]).cid by {
            if j < before.len() {
                assert(before[i].cid != before[j].cid);
            } else {
                let k = choose|k: int|
                    0 <= k < n - 1 && (#[trigger] pubs[k]).cid == before[i].cid;
                assert(pubs[k].cid != p.cid);
            }
        }
        assert forall|i: int| 0 <= i < n implies known.contains((#[trigger] pubs[i]).cid)
            || exists|k: int| 0 <= k < written.len() && (#[trigger] written[k]).cid
            == pubs[i].cid by {
            if !known.contains(pubs[i].cid) {
                let m = if i < n - 1 {
                    i
                } else if fresh[n - 1] {
                    n - 1
                } else {
                    choose|j: int| 0 <= j < n - 1 && (#[trigger] pubs[j]).cid == p.cid
                };
                if m < n - 1 {
                    assert(!known.contains(pubs[m].cid));
                    let k = choose|k: int|
                        0 <= k < before.len() && (#[trigger] before[k]).cid == pubs[m].cid;
                    assert(written[k].cid == pubs[i].cid);
                } else {
                    assert(written[written.len() - 1].cid == pubs[i].cid);
                }
            }
        }
    }
}

/// A publication keeps what the search told. Whatever a search result's record
/// held, but for the fields that its name was read into and those that tell of
/// the file, every publication of that torrent holds too.
pub proof fn publications_keep_the_search_fields(
    infohash: Seq<u8>,
    record_id: Seq<char>,
    found: Map<Seq<char>, Seq<char>>,
    files: Seq<FileView>,
    key: Seq<char>,
    i: int,
)
    requires
        0 <= i < publications(infohash, record_id, Some(found), files).len(),
        key != "season"@ && key != "episode"@ && key != "quality"@ && key != "codec"@,
        key != "contentKind"@ && key != "videoType"@,
        key != "fileName"@ && key != "sizeByte"@ && key != "fileType"@,
    ensures
        record::field(publications(infohash, record_id, Some(found), files)[i].record.fields, key)
            == record::field(found, key),
{
    let videos = metainfo::first_videos(files, MAX_FANOUT_FILES as nat);
    if i < videos.len() {
        item::file_record_tells_of_the_file(found, record_id, videos[i], key);
    } else {
        item::pack_record_tells_of_the_torrent(found, record_id, key);
    }
}

/// Of a torrent that no search found, every publication tells the info hash and a
/// bare magnet link.
pub proof fn unsearched_publications_tell_the_infohash(
    infohash: Seq<u8>,
    record_id: Seq<char>,
    files: Seq<FileView>,
    i: int,
)
    requires
        0 <= i < publications(infohash, record_id, None, files).len(),
    ensures
        ({
            let fields = publications(infohash, record_id, None, files)[i].record.fields;
            &&& record::field(fields, "triblerid"@) == Some(record_id)
            &&& record::field(fields, "sourceUrl"@) == Some("magnet:?xt=urn:btih:"@ + record_id)
        }),
{
    record::lemma_field_names();
    let bare = item::bare_fields(record_id);
    let videos = metainfo::first_videos(files, MAX_FANOUT_FILES as nat);
    if i < videos.len() {
        item::file_record_tells_of_the_file(bare, record_id, videos[i], "triblerid"@);
        item::file_record_tells_of_the_file(bare, record_id, videos[i], "sourceUrl"@);
    }
}

/// Every publication is of this torrent. The videos come first, in order and at
/// most a hundred, each under the content id of its place in the torrent, with its
/// own name and size and with no season, episode or kind. Two or more of them are
/// followed by the torrent as a whole, under its title where it has one; and
/// where there is no video, the torrent's first file stands for it.
pub proof fn publications_are_the_videos(
    infohash: Seq<u8>,
    record_id: Seq<char>,
    cached: Option<Map<Seq<char>, Seq<char>>>,
    files: Seq<FileView>,
    i: int,
)
    requires
        0 <= i < publications(infohash, record_id, cached, files).len(),
    ensures
        ({
            let pubs = publications(infohash, record_id, cached, files);
            let videos = files.filter(|f: FileView| metainfo::is_video_name(f.name));
            let listed = if videos.len() <= 100 {
                videos.len()
            } else {
                100
            };
            let title = match cached {
                Some(m) => if m.contains_key("title"@) {
                    m["title"@]
                } else {
                    record_id
                },
                None => record_id,
            };
            let p = pubs[i];
            &&& p.record.upstream_id == "tribler"@
            &&& p.record.record_id == record_id
            &&& pubs.len() == (if listed == 0 {
                1
            } else if listed == 1 {
                1
            } else {
                listed + 1
            })
            &&& i < listed ==> {
                &&& p.cid == hash::bt_v1_file_cid(infohash, videos[i].index)
                &&& p.file_name == videos[i].name
                &&& !p.pack
                &&& record::field(p.record.fields, "fileName"@) == Some(videos[i].name)
                &&& record::field(p.record.fields, "sizeByte"@) == Some(
                    number::decimal(videos[i].size),
                )
                &&& record::field(p.record.fields, "fileType"@) == Some("video"@)
                &&& record::field(p.record.fields, "season"@) is None
                &&& record::field(p.record.fields, "episode"@) is None
                &&& record::field(p.record.fields, "quality"@) is None
                &&& record::field(p.record.fields, "codec"@) is None
                &&& record::field(p.record.fields, "contentKind"@) is None
                &&& record::field(p.record.fields, "videoType"@) is None
            }
            &&& i >= listed && listed >= 2 ==> {
                &&& p.cid == hash::bt_info_cid(infohash)
                &&& p.file_name == title
                &&& p.pack
                &&& record::field(p.record.fields, "season"@) is None
                &&& record::field(p.record.fields, "episode"@) is None
            }
            &&& listed == 0 ==> {
                &&& p.cid == hash::bt_v1_file_cid(infohash, 0)
                &&& p.file_name == title
                &&& !p.pack
                &&& cached matches Some(m) ==> p.record.fields == m
            }
        }),
{
    record::lemma_field_names();
    metainfo::videos_are_picked_in_order(files, MAX_FANOUT_FILES as nat);
    let torrent = known_fields(cached, record_id);
    let picked = metainfo::first_videos(files, MAX_FANOUT_FILES as nat);
    if i < picked.len() {
        assert(picked[i] == metainfo::videos_of(files)[i]);
        item::file_record_tells_of_the_file(torrent, record_id, picked[i], "title"@);
    } else {
        item::pack_record_tells_of_the_torrent(torrent, record_id, "title"@);
    }
}

/// The magnet link by which a torrent's files are asked for is the one that the
/// search found, else the bare one.
pub proof fn magnet_is_the_one_found(
    cached: Option<Map<Seq<char>, Seq<char>>>,
    record_id: Seq<char>,
)
    ensures
        cached matches Some(m) ==> m.contains_key("sourceUrl"@) ==> torrent_magnet(
            cached,
            record_id,
        ) == m["sourceUrl"@],
        cached is None || !cached->0.contains_key("sourceUrl"@) ==> torrent_magnet(
            cached,
            record_id,
        ) == "magnet:?xt=urn:btih:"@ + record_id,
{
}

/// A publication is new unless its content id was resolved before or stands
/// earlier in the list.
pub proof fn fresh_means_unseen(pubs: Seq<PublicationView>, resolved: Seq<bool>, i: int)
    requires
        resolved.len() == pubs.len(),
        0 <= i < pubs.len(),
    ensures
        fresh_marks(pubs, resolved).len() == pubs.len(),
        resolved[i] ==> !fresh_marks(pubs, resolved)[i],
        (exists|j: int| 0 <= j < i && (#[trigger] pubs[j]).cid == pubs[i].cid) ==> !fresh_marks(
            pubs,
            resolved,
        )[i],
        !resolved[i] && (forall|j: int| 0 <= j < i ==> (#[trigger] pubs[j]).cid != pubs[i].cid)
            ==> fresh_marks(pubs, resolved)[i],
{
}

/// What is written, and what is enriched, follows the list: a new publication is
/// written, a new video is also enriched as one, and a new torrent as a whole is
/// enriched apart, each under its own content id, name and fields. What is not
/// new adds nothing.
pub proof fn new_content_is_enriched(
    pubs: Seq<PublicationView>,
    fresh: Seq<bool>,
    p: PublicationView,
    is_fresh: bool,
)
    requires
        fresh.len() == pubs.len(),
    ensures
        ({
            let video = !p.pack && record::field(p.record.fields, "fileType"@) == Some("video"@);
            let own = TargetView { cid: p.cid, file_name: p.file_name, base: p.record.fields };
            let all = pubs.push(p);
            let marks = fresh.push(is_fresh);
            &&& new_publications(all, marks) == (if is_fresh {
                new_publications(pubs, fresh).push(p)
            } else {
                new_publications(pubs, fresh)
            })
            &&& new_videos(all, marks) == (if is_fresh && video {
                new_videos(pubs, fresh).push(own)
            } else {
                new_videos(pubs, fresh)
            })
            &&& new_pack(all, marks) == (if is_fresh && p.pack {
                Some(own)
            } else {
                new_pack(pubs, fresh)
            })
        }),
        new_publications(Seq::empty(), fresh) == Seq::<PublicationView>::empty(),
        new_videos(Seq::empty(), fresh) == Seq::<TargetView>::empty(),
        new_pack(Seq::empty(), fresh) is None,
{
    let all = pubs.push(p);
    assert(all.drop_last() == pubs);
    lemma_marks_prefix(pubs, fresh, fresh.push(is_fresh));
}

proof fn lemma_marks_prefix(pubs: Seq<PublicationView>, a: Seq<bool>, b: Seq<bool>)
    requires
        a.len() >= pubs.len(),
        b.len() >= pubs.len(),
        forall|i: int| 0 <= i < pubs.len() ==> a[i] == b[i],
    ensures
        new_publications(pubs, a) == new_publications(pubs, b),
        new_videos(pubs, a) == new_videos(pubs, b),
        new_pack(pubs, a) == new_pack(pubs, b),
    decreases pubs.len(),
{
    if pubs.len() > 0 {
        lemma_marks_prefix(pubs.drop_last(), a, b);
    }
}

/// A bare outcome names its content id and carries neither bytes nor record.
pub proof fn bare_outcome_names_its_cid(cid: Seq<char>)
    ensures
        sparse(cid).hash == cid,
        sparse(cid).hash_kind == HashKind::BtV1File,
        sparse(cid).bytes is None,
        sparse(cid).record is None,
        sparse(cid).file_extension is None,
{
}

/// What a resolve request comes to, from the record id to the answer: the id is
/// decoded or refused for good; the publications are planned from what the search
/// kept and from the files; each is answered by its content id alone, in order; and
/// those that are new are enriched, as videos or as the torrent as a whole.
pub proof fn resolve_request_is_answered(
    infohash: [u8; 20],
    record_id: &str,
    found: Fields,
    files: Vec<TorrentFile>,
    pubs: Vec<Publication>,
    unlisted: Vec<Publication>,
    fresh: Vec<bool>,
    r: Resolution,
    i: int,
)
    requires
        call_ensures(plan_outcomes, (&infohash, record_id, &Some(found), &Some(files)), pubs),
        call_ensures(plan_outcomes, (&infohash, record_id, &None, &None), unlisted),
        fresh@.len() == pubs@.len(),
        call_ensures(settle_outcomes, (&pubs, &fresh), r),
        0 <= i < pubs@.len(),
    ensures
        publication_views(pubs@) == publications(
            infohash@,
            record_id@,
            Some(found@),
            metainfo::file_views(files@),
        ),
        publication_views(unlisted@) == publications(infohash@, record_id@, None, Seq::empty()),
        r.outcomes@.len() == pubs@.len(),
        r.outcomes@[i].hash@ == pubs@[i].cid@,
        r.outcomes@[i].hash_kind == HashKind::BtV1File,
        r.outcomes@[i].record is None,
        r.outcomes@[i].bytes is None,
        target_views(r.video_targets@) == new_videos(publication_views(pubs@), fresh@),
        r.pack_target is None <==> new_pack(publication_views(pubs@), fresh@) is None,
        r.pack_target matches Some(t) ==> new_pack(publication_views(pubs@), fresh@) == Some(t@),
{
    assert(record::outcome_views(r.outcomes@)[i] == sparse(pubs@[i].cid@));
    assert(record::outcome_views(r.outcomes@).len() == pubs@.len());
    assert(record::outcome_views(r.outcomes@)[i] == r.outcomes@[i]@);
}

/// A record id that is no info hash is refused for good, and the refusal names it.
pub proof fn bad_record_ids_are_refused(record_id: &str, r: Result<[u8; 20], GatewayError>)
    requires
        call_ensures(decode_record_id, (record_id,), r),
    ensures
        r matches Ok(b) ==> infohash::decoded(record_id@) == Some(b@),
        r is Err <==> infohash::decoded(record_id@) is None,
        r matches Err(e) ==> (e matches GatewayError::Permanent(m) && m@ == "tribler record_id `"@
            + record_id@
            + "` is not a v1 BT infohash (expected 40 hex chars or 32 base32 chars)"@),
{
}

/// Where the gateway stores the record, a torrent is answered by its first file,
/// with the record that the search kept, or a bare one; a torrent that was answered
/// before is answered without it.
pub proof fn stored_torrents_are_answered_once_in_full(
    infohash: [u8; 20],
    record_id: &str,
    already: bool,
    cached: Option<Fields>,
    r: Vec<HashOutcome>,
)
    requires
        call_ensures(legacy_single_outcome, (&infohash, record_id, already, cached), r),
    ensures
        r@.len() == 1,
        r@[0].hash@ == hash::bt_v1_file_cid(infohash@, 0),
        r@[0].hash_kind == HashKind::BtV1File,
        r@[0].bytes is None,
        already <==> r@[0].record is None,
        r@[0].record matches Some(rec) ==> {
            &&& rec.upstream_id@ == "tribler"@
            &&& rec.record_id@ == record_id@
            &&& cached matches Some(f) ==> rec.fields@ == f@
            &&& cached is None ==> rec.fields@ == item::bare_fields(record_id@)
        },
{
    let o = r@[0];
    assert(o@.record is None <==> o.record is None);
    if let Some(rec) = o.record {
        assert(o@.record == Some(rec@));
    }
}

/// Enrichment is wanted if there is anyone to do it and anything that is new.
pub proof fn enrichment_is_wanted_for_what_is_new(s: Resolution, has_plugins: bool, r: bool)
    requires
        call_ensures(Resolution::wants_enrichment, (&s, has_plugins), r),
    ensures
        r <==> has_plugins && (s.video_targets@.len() > 0 || s.pack_target is Some),
{
}

} // verus!
