//! The file list of a torrent, as the Tribler core reports it.

use vstd::prelude::*;

use crate::text;
use crate::text::{blank, chars_are, chars_of, find_last, lowered, owned};

verus! {

/// One file inside a torrent. `index` is its zero-based position in the file
/// list of the torrent's info dictionary.
#[derive(Debug, PartialEq, Eq)]
pub struct TorrentFile {
    pub index: usize,
    pub name: String,
    pub size: u64,
}

/// What a [`TorrentFile`] holds.
#[verifier::ext_equal]
pub struct FileView {
    pub index: nat,
    pub name: Seq<char>,
    pub size: nat,
}

impl View for TorrentFile {
    type V = FileView;

    open spec fn view(&self) -> FileView {
        FileView { index: self.index as nat, name: self.name@, size: self.size as nat }
    }
}

impl Clone for TorrentFile {
    fn clone(&self) -> (r: Self)
        ensures
            r@ == self@,
    {
        TorrentFile { index: self.index, name: owned(self.name.as_str()), size: self.size }
    }
}

/// The views of a list of files.
pub open spec fn file_views(v: Seq<TorrentFile>) -> Seq<FileView> {
    Seq::new(v.len(), |i: int| v[i]@)
}

/// The extension of a name: what follows its last dot. A name without a dot has
/// none.
pub open spec fn extension(name: Seq<char>) -> Option<Seq<char>> {
    match text::last_occurrence(name, "."@) {
        Some(i) => Some(name.skip(i + 1)),
        None => None,
    }
}

/// A lower-case extension of a video container.
pub open spec fn is_video_extension(e: Seq<char>) -> bool {
    ||| e == "mkv"@
    ||| e == "mp4"@
    ||| e == "avi"@
    ||| e == "m4v"@
    ||| e == "mov"@
    ||| e == "webm"@
    ||| e == "mpg"@
    ||| e == "mpeg"@
    ||| e == "wmv"@
    ||| e == "flv"@
    ||| e == "ogv"@
    ||| e == "ts"@
    ||| e == "mts"@
    ||| e == "m2ts"@
}

/// The name has the extension of a video container, in any case.
pub open spec fn is_video_name(name: Seq<char>) -> bool {
    extension(name) matches Some(e) && is_video_extension(text::lower(e))
}

/// Tests whether a file name has the extension of a video container.
pub fn looks_like_video(name: &str) -> (r: bool)
    ensures
        r == is_video_name(name@),
{
    let cs = chars_of(name);
    let n: usize = cs.len();
    proof {
        reveal_strlit(".");
    }
    let dot: usize = match find_last(&cs, ".") {
        Some(i) => i,
        None => {
            return false;
        },
    };
    let e = lowered(&cs[dot + 1..n]);
    assert(cs@.subrange(dot + 1, cs@.len() as int) == name@.skip(dot + 1));
    chars_are(&e, "mkv") || chars_are(&e, "mp4") || chars_are(&e, "avi") || chars_are(&e, "m4v")
        || chars_are(&e, "mov") || chars_are(&e, "webm") || chars_are(&e, "mpg") || chars_are(
        &e,
        "mpeg",
    ) || chars_are(&e, "wmv") || chars_are(&e, "flv") || chars_are(&e, "ogv") || chars_are(&e, "ts")
        || chars_are(&e, "mts") || chars_are(&e, "m2ts")
}

/// One entry of a metainfo reply. A file is named by `name` or `path` and
/// sized by `size` or `length`.
#[derive(Debug)]
pub struct MiniFileInfo {
    pub index: Option<usize>,
    pub name: Option<String>,
    pub path: Option<String>,
    pub size: Option<u64>,
    pub length: Option<u64>,
}

/// A metainfo reply.
#[derive(Debug)]
pub struct MetainfoResponse {
    pub files: Vec<MiniFileInfo>,
}

impl MiniFileInfo {
    /// The name of the entry: `name` where there is one, else `path`.
    pub open spec fn shown_name(&self) -> Option<Seq<char>> {
        match self.name {
            Some(n) => Some(n@),
            None => match self.path {
                Some(p) => Some(p@),
                None => None,
            },
        }
    }

    /// The file that the entry at position `pos` describes; an entry without a
    /// name, or with a blank one, describes none.
    pub open spec fn file_at(&self, pos: nat) -> Option<FileView> {
        match self.shown_name() {
            Some(name) => if text::is_blank(name) {
                None
            } else {
                Some(
                    FileView {
                        index: match self.index {
                            Some(i) => i as nat,
                            None => pos,
                        },
                        name,
                        size: match (self.size, self.length) {
                            (Some(s), _) => s as nat,
                            (None, Some(l)) => l as nat,
                            (None, None) => 0,
                        },
                    },
                )
            },
            None => None,
        }
    }
}

/// The files that a list of entries describes, in order.
pub open spec fn listed_files(entries: Seq<MiniFileInfo>) -> Seq<FileView>
    decreases entries.len(),
{
    if entries.len() == 0 {
        Seq::empty()
    } else {
        let before = listed_files(entries.drop_last());
        match entries.last().file_at((entries.len() - 1) as nat) {
            Some(f) => before.push(f),
            None => before,
        }
    }
}

/// The files of a metainfo reply; a reply that could not be read has none.
pub fn parse_metainfo(reply: &Option<MetainfoResponse>) -> (r: Vec<TorrentFile>)
    ensures
        file_views(r@) == (match reply {
            Some(m) => listed_files(m.files@),
            None => Seq::empty(),
        }),
{
    let mut out: Vec<TorrentFile> = Vec::new();
    assert(file_views(out@) == Seq::<FileView>::empty());
    let files = match reply {
        Some(m) => &m.files,
        None => {
            return out;
        },
    };
    let n: usize = files.len();
    let mut pos: usize = 0;
    while pos < n
        invariant
            n == files@.len(),
            pos <= n,
            file_views(out@) == listed_files(files@.take(pos as int)),
        decreases n - pos,
    {
        let entry = &files[pos];
        let ghost before = file_views(out@);
        proof {
            assert(files@.take(pos + 1).drop_last() == files@.take(pos as int));
            assert(files@.take(pos + 1).last() == files@[pos as int]);
        }
        let name = match (&entry.name, &entry.path) {
            (Some(s), _) => Some(s),
            (None, Some(s)) => Some(s),
            (None, None) => None,
        };
        if let Some(name) = name {
            if !blank(name.as_str()) {
                let index: usize = match entry.index {
                    Some(i) => i,
                    None => pos,
                };
                let size: u64 = match (entry.size, entry.length) {
                    (Some(s), _) => s,
                    (None, Some(l)) => l,
                    (None, None) => 0,
                };
                let file = TorrentFile { index, name: owned(name.as_str()), size };
                let ghost added = file@;
                out.push(file);
                assert(file_views(out@) == before.push(added));
            }
        }
        pos += 1;
    }
    assert(files@.take(n as int) == files@);
    out
}

/// The file list that a metainfo reply gives; a reply without files gives none.
pub fn file_list(reply: &Option<MetainfoResponse>) -> (r: Option<Vec<TorrentFile>>)
    ensures
        r is Some <==> (reply matches Some(m) && listed_files(m.files@).len() > 0),
        r matches Some(v) ==> (reply matches Some(m) && file_views(v@) == listed_files(m.files@)),
{
    let files = parse_metainfo(reply);
    assert(file_views(files@).len() == files@.len());
    if files.len() == 0 {
        None
    } else {
        Some(files)
    }
}

/// The video files of a list, in order.
pub open spec fn videos_of(files: Seq<FileView>) -> Seq<FileView>
    decreases files.len(),
{
    if files.len() == 0 {
        Seq::empty()
    } else {
        let before = videos_of(files.drop_last());
        if is_video_name(files.last().name) {
            before.push(files.last())
        } else {
            before
        }
    }
}

/// The first `limit` video files of a list.
pub open spec fn first_videos(files: Seq<FileView>, limit: nat) -> Seq<FileView> {
    let v = videos_of(files);
    if v.len() <= limit {
        v
    } else {
        v.take(limit as int)
    }
}

/// Picks the first `limit` video files of a list.
pub fn pick_videos(files: &Vec<TorrentFile>, limit: usize) -> (r: Vec<TorrentFile>)
    ensures
        file_views(r@) == first_videos(file_views(files@), limit as nat),
{
    let mut out: Vec<TorrentFile> = Vec::new();
    let ghost all = file_views(files@);
    let n: usize = files.len();
    let mut i: usize = 0;
    assert(file_views(out@) == first_videos(all.take(0), limit as nat));
    while i < n
        invariant
            n == files@.len(),
            all == file_views(files@),
            i <= n,
            file_views(out@) == first_videos(all.take(i as int), limit as nat),
        decreases n - i,
    {
        proof {
            assert(all.take(i + 1).drop_last() == all.take(i as int));
            assert(all.take(i + 1).last() == files@[i as int]@);
        }
        if out.len() < limit && looks_like_video(files[i].name.as_str()) {
            let file = files[i].clone();
            let ghost before = file_views(out@);
            let ghost added = file@;
            out.push(file);
            assert(file_views(out@) == before.push(added));
        }
        assert(file_views(out@) == first_videos(all.take(i + 1), limit as nat));
        i += 1;
    }
    assert(all.take(n as int) == all);
    out
}

proof fn lemma_dotted_extension(name: Seq<char>, dotted: Seq<char>)
    requires
        dotted.len() > 0,
        dotted[0] == '.',
        forall|i: int| 1 <= i < dotted.len() ==> #[trigger] dotted[i] != '.',
    ensures
        text::ends_with(text::lower(name), dotted) <==> (extension(name) matches Some(e)
            && text::lower(e) == dotted.skip(1)),
{
    reveal_strlit(".");
    text::last_occurrence_exists(name, "."@);
    let low = text::lower(name);
    let from = name.len() - dotted.len();
    if text::ends_with(low, dotted) {
        assert(low.subrange(from, from + dotted.len()) == dotted);
        assert(low.subrange(from, from + dotted.len())[0] == '.');
        assert(name[from] == '.');
        assert(name.subrange(from, from + 1) == "."@);
        assert(text::occurs_at(name, "."@, from));
        assert forall|j: int| from < j implies !text::occurs_at(name, "."@, j) by {
            if text::occurs_at(name, "."@, j) {
                assert(name.subrange(j, j + 1)[0] == '.');
                assert(low[j] == '.');
                assert(low.subrange(from, from + dotted.len())[j - from] == '.');
                assert(dotted[j - from] == '.');
            }
        }
        text::lemma_last_unique(name, "."@, Some(from));
        let e = name.skip(from + 1);
        assert forall|i: int| 0 <= i < e.len() implies text::lower(e)[i] == dotted.skip(1)[i] by {
            assert(low.subrange(from, from + dotted.len())[i + 1] == low[from + i + 1]);
        }
        assert(text::lower(e) == dotted.skip(1));
    }
    if let Some(e) = extension(name) {
        if text::lower(e) == dotted.skip(1) {
            let at = text::last_occurrence(name, "."@)->0;
            assert(name.subrange(at, at + 1)[0] == '.');
            assert(e.len() == text::lower(e).len());
            assert(at == from);
            assert forall|i: int| 0 <= i < dotted.len() implies low.subrange(
                from,
                from + dotted.len(),
            )[i] == dotted[i] by {
                if i > 0 {
                    assert(text::lower(e)[i - 1] == dotted.skip(1)[i - 1]);
                    assert(e[i - 1] == name[from + i]);
                }
            }
            assert(low.subrange(from, from + dotted.len()) == dotted);
        }
    }
}

/// A name is a video's if and only if it ends, in any case, with one of these
/// extensions.
pub proof fn video_names_end_like_videos(name: Seq<char>)
    ensures
        is_video_name(name) <==> {
            let low = text::lower(name);
            ||| text::ends_with(low, ".mkv"@)
            ||| text::ends_with(low, ".mp4"@)
            ||| text::ends_with(low, ".avi"@)
            ||| text::ends_with(low, ".m4v"@)
            ||| text::ends_with(low, ".mov"@)
            ||| text::ends_with(low, ".webm"@)
            ||| text::ends_with(low, ".mpg"@)
            ||| text::ends_with(low, ".mpeg"@)
            ||| text::ends_with(low, ".wmv"@)
            ||| text::ends_with(low, ".flv"@)
            ||| text::ends_with(low, ".ogv"@)
            ||| text::ends_with(low, ".ts"@)
            ||| text::ends_with(low, ".mts"@)
            ||| text::ends_with(low, ".m2ts"@)
        },
{
    reveal_strlit("mkv");
    reveal_strlit(".mkv");
    assert(".mkv"@.skip(1) =~= "mkv"@);
    lemma_dotted_extension(name, ".mkv"@);
    reveal_strlit("mp4");
    reveal_strlit(".mp4");
    assert(".mp4"@.skip(1) =~= "mp4"@);
    lemma_dotted_extension(name, ".mp4"@);
    reveal_strlit("avi");
    reveal_strlit(".avi");
    assert(".avi"@.skip(1) =~= "avi"@);
    lemma_dotted_extension(name, ".avi"@);
    reveal_strlit("m4v");
    reveal_strlit(".m4v");
    assert(".m4v"@.skip(1) =~= "m4v"@);
    lemma_dotted_extension(name, ".m4v"@);
    reveal_strlit("mov");
    reveal_strlit(".mov");
    assert(".mov"@.skip(1) =~= "mov"@);
    lemma_dotted_extension(name, ".mov"@);
    reveal_strlit("webm");
    reveal_strlit(".webm");
    assert(".webm"@.skip(1) =~= "webm"@);
    lemma_dotted_extension(name, ".webm"@);
    reveal_strlit("mpg");
    reveal_strlit(".mpg");
    assert(".mpg"@.skip(1) =~= "mpg"@);
    lemma_dotted_extension(name, ".mpg"@);
    reveal_strlit("mpeg");
    reveal_strlit(".mpeg");
    assert(".mpeg"@.skip(1) =~= "mpeg"@);
    lemma_dotted_extension(name, ".mpeg"@);
    reveal_strlit("wmv");
    reveal_strlit(".wmv");
    assert(".wmv"@.skip(1) =~= "wmv"@);
    lemma_dotted_extension(name, ".wmv"@);
    reveal_strlit("flv");
    reveal_strlit(".flv");
    assert(".flv"@.skip(1) =~= "flv"@);
    lemma_dotted_extension(name, ".flv"@);
    reveal_strlit("ogv");
    reveal_strlit(".ogv");
    assert(".ogv"@.skip(1) =~= "ogv"@);
    lemma_dotted_extension(name, ".ogv"@);
    reveal_strlit("ts");
    reveal_strlit(".ts");
    assert(".ts"@.skip(1) =~= "ts"@);
    lemma_dotted_extension(name, ".ts"@);
    reveal_strlit("mts");
    reveal_strlit(".mts");
    assert(".mts"@.skip(1) =~= "mts"@);
    lemma_dotted_extension(name, ".mts"@);
    reveal_strlit("m2ts");
    reveal_strlit(".m2ts");
    assert(".m2ts"@.skip(1) =~= "m2ts"@);
    lemma_dotted_extension(name, ".m2ts"@);
}

/// The videos of a list are its files with the name of a video, in order; all of
/// them are taken where there are no more than the limit, else the first ones.
pub proof fn videos_are_picked_in_order(files: Seq<FileView>, limit: nat)
    ensures
        videos_of(files) == files.filter(|f: FileView| is_video_name(f.name)),
        first_videos(files, limit).is_prefix_of(videos_of(files)),
        videos_of(files).len() <= limit ==> first_videos(files, limit) == videos_of(files),
        videos_of(files).len() > limit ==> first_videos(files, limit).len() == limit,
    decreases files.len(),
{
    reveal(Seq::filter);
    if files.len() > 0 {
        videos_are_picked_in_order(files.drop_last(), limit);
    }
}

/// An entry of a reply stands for a file if it has a name that is not blank. The
/// name is taken before the path, the size before the length, and the position in
/// the list where no index is told.
pub proof fn entry_stands_for_file(entry: MiniFileInfo, pos: nat)
    ensures
        entry.name matches Some(n) ==> {
            &&& entry.file_at(pos) is Some <==> !text::is_blank(n@)
            &&& entry.file_at(pos) matches Some(f) ==> f.name == n@
        },
        entry.name is None ==> (entry.path matches Some(p) ==> {
            &&& entry.file_at(pos) is Some <==> !text::is_blank(p@)
            &&& entry.file_at(pos) matches Some(f) ==> f.name == p@
        }),
        entry.name is None && entry.path is None ==> entry.file_at(pos) is None,
        entry.file_at(pos) matches Some(f) ==> {
            &&& entry.index matches Some(i) ==> f.index == i
            &&& entry.index is None ==> f.index == pos
            &&& entry.size matches Some(s) ==> f.size == s
            &&& entry.size is None ==> (entry.length matches Some(l) ==> f.size == l)
            &&& entry.size is None && entry.length is None ==> f.size == 0
        },
{
}

/// The files of a reply come in the order of its entries, and each entry counts
/// for the position of those after it, whether or not it stands for a file.
pub proof fn entries_are_listed_in_order(entries: Seq<MiniFileInfo>, next: MiniFileInfo)
    ensures
        listed_files(Seq::empty()) == Seq::<FileView>::empty(),
        listed_files(entries.push(next)) == (match next.file_at(entries.len()) {
            Some(f) => listed_files(entries).push(f),
            None => listed_files(entries),
        }),
{
    assert(entries.push(next).drop_last() == entries);
}

/// A reply gives its files; one that could not be read gives none, and one without
/// a file gives no list.
pub proof fn replies_give_their_files(
    reply: MetainfoResponse,
    r: Vec<TorrentFile>,
    unread: Vec<TorrentFile>,
    list: Option<Vec<TorrentFile>>,
    none: Option<Vec<TorrentFile>>,
)
    requires
        call_ensures(parse_metainfo, (&Some(reply),), r),
        call_ensures(parse_metainfo, (&None,), unread),
        call_ensures(file_list, (&Some(reply),), list),
        call_ensures(file_list, (&None,), none),
    ensures
        file_views(r@) == listed_files(reply.files@),
        unread@.len() == 0,
        list is Some <==> r@.len() > 0,
        list matches Some(v) ==> file_views(v@) == file_views(r@),
        none is None,
{
    assert(file_views(unread@).len() == unread@.len());
    assert(file_views(r@).len() == r@.len());
}

} // verus!
