//! The coarse type of a torrent's content: `video`, `audio`, `image`,
//! `document`, `archive` or `other`.

use vstd::prelude::*;

use crate::text;
use crate::text::{chars_are, chars_of, has, lowered, trimmed};

verus! {

/// The type that a category label settles by itself; labels are compared
/// without surrounding white space and without case.
pub open spec fn category_type(category: Seq<char>) -> Option<Seq<char>> {
    let c = text::lower(text::trim(category));
    if c == "video"@ || c == "videoclips"@ || c == "xxx"@ {
        Some("video"@)
    } else if c == "audio"@ {
        Some("audio"@)
    } else if c == "documents"@ || c == "document"@ || c == "ebooks"@ || c == "ebook"@ {
        Some("document"@)
    } else if c == "compressed"@ {
        Some("archive"@)
    } else if c == "picture"@ || c == "pictures"@ || c == "image"@ || c == "images"@ {
        Some("image"@)
    } else {
        None
    }
}

/// A lower-case name with the marks of a video release.
pub open spec fn names_video(n: Seq<char>) -> bool {
    ||| text::contains(n, ".mkv"@)
    ||| text::contains(n, ".mp4"@)
    ||| text::contains(n, ".avi"@)
    ||| text::contains(n, ".mov"@)
    ||| text::contains(n, ".wmv"@)
    ||| text::contains(n, ".flv"@)
    ||| text::contains(n, ".m4v"@)
    ||| text::contains(n, ".webm"@)
    ||| text::contains(n, "1080p"@)
    ||| text::contains(n, "720p"@)
    ||| text::contains(n, "2160p"@)
    ||| text::contains(n, "480p"@)
    ||| text::contains(n, "x264"@)
    ||| text::contains(n, "x265"@)
    ||| text::contains(n, "h264"@)
    ||| text::contains(n, "h265"@)
    ||| text::contains(n, "hevc"@)
    ||| text::contains(n, "bluray"@)
    ||| text::contains(n, "blu-ray"@)
    ||| text::contains(n, "bdrip"@)
    ||| text::contains(n, "brrip"@)
    ||| text::contains(n, "dvdrip"@)
    ||| text::contains(n, "web-dl"@)
    ||| text::contains(n, "webrip"@)
    ||| text::contains(n, "hdtv"@)
    ||| text::contains(n, "hdrip"@)
    ||| text::contains(n, "xvid"@)
}

/// A lower-case name with the marks of an audio release.
pub open spec fn names_audio(n: Seq<char>) -> bool {
    ||| text::contains(n, ".mp3"@)
    ||| text::contains(n, ".flac"@)
    ||| text::contains(n, ".wav"@)
    ||| text::contains(n, ".aac"@)
    ||| text::contains(n, ".ogg"@)
    ||| text::contains(n, ".m4a"@)
    ||| text::contains(n, ".opus"@)
    ||| text::contains(n, ".alac"@)
    ||| text::contains(n, ".wma"@)
    ||| text::contains(n, "320kbps"@)
    ||| text::contains(n, "discography"@)
}

/// A lower-case name with the marks of an archive.
pub open spec fn names_archive(n: Seq<char>) -> bool {
    ||| text::contains(n, ".rar"@)
    ||| text::contains(n, ".zip"@)
    ||| text::contains(n, ".7z"@)
    ||| text::contains(n, ".tar"@)
    ||| text::contains(n, ".gz"@)
    ||| text::contains(n, ".tgz"@)
    ||| text::contains(n, ".iso"@)
}

/// A lower-case name with the marks of a document.
pub open spec fn names_document(n: Seq<char>) -> bool {
    ||| text::contains(n, ".pdf"@)
    ||| text::contains(n, ".epub"@)
    ||| text::contains(n, ".mobi"@)
    ||| text::contains(n, ".azw3"@)
    ||| text::contains(n, ".djvu"@)
    ||| text::contains(n, ".cbz"@)
    ||| text::contains(n, ".cbr"@)
    ||| text::contains(n, ".docx"@)
    ||| text::contains(n, ".txt"@)
}

/// A lower-case name with the marks of an image.
pub open spec fn names_image(n: Seq<char>) -> bool {
    ||| text::contains(n, ".jpg"@)
    ||| text::contains(n, ".jpeg"@)
    ||| text::contains(n, ".png"@)
    ||| text::contains(n, ".gif"@)
    ||| text::contains(n, ".bmp"@)
    ||| text::contains(n, ".webp"@)
    ||| text::contains(n, ".tiff"@)
}

/// The type that a release name suggests: the first family whose marks occur
/// in it, whatever their case.
pub open spec fn name_type(name: Seq<char>) -> Seq<char> {
    let n = text::lower(name);
    if names_video(n) {
        "video"@
    } else if names_audio(n) {
        "audio"@
    } else if names_archive(n) {
        "archive"@
    } else if names_document(n) {
        "document"@
    } else if names_image(n) {
        "image"@
    } else {
        "other"@
    }
}

/// The type of a torrent: its category decides where it can, else its name.
pub open spec fn file_type(name: Seq<char>, category: Option<Seq<char>>) -> Seq<char> {
    match category {
        Some(c) => match category_type(c) {
            Some(t) => t,
            None => name_type(name),
        },
        None => name_type(name),
    }
}

/// Classifies a torrent by its category and its name.
pub fn classify_file_type(name: &str, category: Option<&str>) -> (r: &'static str)
    ensures
        r@ == file_type(name@, match category { Some(c) => Some(c@), None => None }),
{
    if let Some(label) = category {
        let chars = chars_of(label);
        let c = lowered(trimmed(&chars));
        if chars_are(&c, "video") || chars_are(&c, "videoclips") || chars_are(&c, "xxx") {
            return "video";
        }
        if chars_are(&c, "audio") {
            return "audio";
        }
        if chars_are(&c, "documents") || chars_are(&c, "document") || chars_are(&c, "ebooks")
            || chars_are(&c, "ebook") {
            return "document";
        }
        if chars_are(&c, "compressed") {
            return "archive";
        }
        if chars_are(&c, "picture") || chars_are(&c, "pictures") || chars_are(&c, "image")
            || chars_are(&c, "images") {
            return "image";
        }
    }
    classify_from_name(name)
}

/// Classifies a torrent by its name alone.
pub fn classify_from_name(name: &str) -> (r: &'static str)
    ensures
        r@ == name_type(name@),
{
    let n = lowered(&chars_of(name));
    if has(&n, ".mkv") || has(&n, ".mp4") || has(&n, ".avi") || has(&n, ".mov") || has(&n, ".wmv")
        || has(&n, ".flv") || has(&n, ".m4v") || has(&n, ".webm") || has(&n, "1080p") || has(
        &n,
        "720p",
    ) || has(&n, "2160p") || has(&n, "480p") || has(&n, "x264") || has(&n, "x265") || has(
        &n,
        "h264",
    ) || has(&n, "h265") || has(&n, "hevc") || has(&n, "bluray") || has(&n, "blu-ray") || has(
        &n,
        "bdrip",
    ) || has(&n, "brrip") || has(&n, "dvdrip") || has(&n, "web-dl") || has(&n, "webrip") || has(
        &n,
        "hdtv",
    ) || has(&n, "hdrip") || has(&n, "xvid") {
        return "video";
    }
    if has(&n, ".mp3") || has(&n, ".flac") || has(&n, ".wav") || has(&n, ".aac") || has(&n, ".ogg")
        || has(&n, ".m4a") || has(&n, ".opus") || has(&n, ".alac") || has(&n, ".wma") || has(
        &n,
        "320kbps",
    ) || has(&n, "discography") {
        return "audio";
    }
    if has(&n, ".rar") || has(&n, ".zip") || has(&n, ".7z") || has(&n, ".tar") || has(&n, ".gz")
        || has(&n, ".tgz") || has(&n, ".iso") {
        return "archive";
    }
    if has(&n, ".pdf") || has(&n, ".epub") || has(&n, ".mobi") || has(&n, ".azw3") || has(
        &n,
        ".djvu",
    ) || has(&n, ".cbz") || has(&n, ".cbr") || has(&n, ".docx") || has(&n, ".txt") {
        return "document";
    }
    if has(&n, ".jpg") || has(&n, ".jpeg") || has(&n, ".png") || has(&n, ".gif") || has(&n, ".bmp")
        || has(&n, ".webp") || has(&n, ".tiff") {
        return "image";
    }
    "other"
}

/// One of the six types.
pub open spec fn is_file_type(t: Seq<char>) -> bool {
    ||| t == "video"@
    ||| t == "audio"@
    ||| t == "archive"@
    ||| t == "document"@
    ||| t == "image"@
    ||| t == "other"@
}

/// Every torrent has one of the six types, and the case of its name and of its
/// category does not matter.
pub proof fn file_type_ignores_case(name: Seq<char>, category: Seq<char>)
    ensures
        is_file_type(file_type(name, Some(category))),
        is_file_type(file_type(name, None)),
        file_type(text::lower(name), None) == file_type(name, None),
        file_type(text::lower(name), Some(text::lower(category))) == file_type(
            name,
            Some(category),
        ),
{
    assert(text::lower(text::lower(name)) == text::lower(name));
    text::lemma_trim_lower(category);
    let t = text::trim(category);
    assert(text::lower(text::lower(t)) == text::lower(t));
}

/// The marks by which a name tells its type, in any case: those of a video go
/// before those of audio, and these before those of an archive, of a document and
/// of an image. A name without any is of no known type.
pub proof fn marks_tell_the_type(name: Seq<char>)
    ensures
        ({
            let n = text::lower(name);
            let video = {
                ||| text::contains(n, ".mkv"@)
                ||| text::contains(n, ".mp4"@)
                ||| text::contains(n, ".avi"@)
                ||| text::contains(n, ".mov"@)
                ||| text::contains(n, ".wmv"@)
                ||| text::contains(n, ".flv"@)
                ||| text::contains(n, ".m4v"@)
                ||| text::contains(n, ".webm"@)
                ||| text::contains(n, "1080p"@)
                ||| text::contains(n, "720p"@)
                ||| text::contains(n, "2160p"@)
                ||| text::contains(n, "480p"@)
                ||| text::contains(n, "x264"@)
                ||| text::contains(n, "x265"@)
                ||| text::contains(n, "h264"@)
                ||| text::contains(n, "h265"@)
                ||| text::contains(n, "hevc"@)
                ||| text::contains(n, "bluray"@)
                ||| text::contains(n, "blu-ray"@)
                ||| text::contains(n, "bdrip"@)
                ||| text::contains(n, "brrip"@)
                ||| text::contains(n, "dvdrip"@)
                ||| text::contains(n, "web-dl"@)
                ||| text::contains(n, "webrip"@)
                ||| text::contains(n, "hdtv"@)
                ||| text::contains(n, "hdrip"@)
                ||| text::contains(n, "xvid"@)
            };
            let audio = {
                ||| text::contains(n, ".mp3"@)
                ||| text::contains(n, ".flac"@)
                ||| text::contains(n, ".wav"@)
                ||| text::contains(n, ".aac"@)
                ||| text::contains(n, ".ogg"@)
                ||| text::contains(n, ".m4a"@)
                ||| text::contains(n, ".opus"@)
                ||| text::contains(n, ".alac"@)
                ||| text::contains(n, ".wma"@)
                ||| text::contains(n, "320kbps"@)
                ||| text::contains(n, "discography"@)
            };
            let archive = {
                ||| text::contains(n, ".rar"@)
                ||| text::contains(n, ".zip"@)
                ||| text::contains(n, ".7z"@)
                ||| text::contains(n, ".tar"@)
                ||| text::contains(n, ".gz"@)
                ||| text::contains(n, ".tgz"@)
                ||| text::contains(n, ".iso"@)
            };
            let document = {
                ||| text::contains(n, ".pdf"@)
                ||| text::contains(n, ".epub"@)
                ||| text::contains(n, ".mobi"@)
                ||| text::contains(n, ".azw3"@)
                ||| text::contains(n, ".djvu"@)
                ||| text::contains(n, ".cbz"@)
                ||| text::contains(n, ".cbr"@)
                ||| text::contains(n, ".docx"@)
                ||| text::contains(n, ".txt"@)
            };
            let image = {
                ||| text::contains(n, ".jpg"@)
                ||| text::contains(n, ".jpeg"@)
                ||| text::contains(n, ".png"@)
                ||| text::contains(n, ".gif"@)
                ||| text::contains(n, ".bmp"@)
                ||| text::contains(n, ".webp"@)
                ||| text::contains(n, ".tiff"@)
            };
            let t = name_type(name);
            &&& t == "video"@ <==> video
            &&& t == "audio"@ <==> audio && !video
            &&& t == "archive"@ <==> archive && !video && !audio
            &&& t == "document"@ <==> document && !video && !audio && !archive
            &&& t == "image"@ <==> image && !video && !audio && !archive && !document
            &&& t == "other"@ <==> !video && !audio && !archive && !document && !image
        }),
{
    lemma_types_differ();
}

proof fn lemma_types_differ()
    ensures
        "video"@.len() == 5 && "video"@[0] == 'v',
        "audio"@.len() == 5 && "audio"@[0] == 'a',
        "archive"@.len() == 7,
        "document"@.len() == 8,
        "image"@.len() == 5 && "image"@[0] == 'i',
        "other"@.len() == 5 && "other"@[0] == 'o',
{
    reveal_strlit("video");
    reveal_strlit("audio");
    reveal_strlit("archive");
    reveal_strlit("document");
    reveal_strlit("image");
    reveal_strlit("other");
}

/// A category that says what a torrent holds decides, whatever the name; without
/// such a category the name does.
pub proof fn category_goes_before_name(name: Seq<char>, category: Seq<char>)
    ensures
        ({
            let c = text::lower(text::trim(category));
            let t = file_type(name, Some(category));
            let video = c == "video"@ || c == "videoclips"@ || c == "xxx"@;
            let audio = c == "audio"@;
            let document = c == "documents"@ || c == "document"@ || c == "ebooks"@ || c
                == "ebook"@;
            let archive = c == "compressed"@;
            let image = c == "picture"@ || c == "pictures"@ || c == "image"@ || c == "images"@;
            &&& video ==> t == "video"@
            &&& audio ==> t == "audio"@
            &&& document ==> t == "document"@
            &&& archive ==> t == "archive"@
            &&& image ==> t == "image"@
            &&& !video && !audio && !document && !archive && !image ==> t == name_type(name)
        }),
        file_type(name, None) == name_type(name),
{
    reveal_strlit("video");
    reveal_strlit("videoclips");
    reveal_strlit("xxx");
    reveal_strlit("audio");
    reveal_strlit("documents");
    reveal_strlit("document");
    reveal_strlit("ebooks");
    reveal_strlit("ebook");
    reveal_strlit("compressed");
    reveal_strlit("picture");
    reveal_strlit("pictures");
    reveal_strlit("image");
    reveal_strlit("images");
    assert("video"@.len() == 5 && "video"@[0] == 'v');
    assert("videoclips"@.len() == 10 && "videoclips"@[0] == 'v');
    assert("xxx"@.len() == 3);
    assert("audio"@.len() == 5 && "audio"@[0] == 'a');
    assert("documents"@.len() == 9);
    assert("document"@.len() == 8 && "document"@[0] == 'd');
    assert("ebooks"@.len() == 6 && "ebooks"@[0] == 'e');
    assert("ebook"@.len() == 5 && "ebook"@[0] == 'e');
    assert("compressed"@.len() == 10 && "compressed"@[0] == 'c');
    assert("picture"@.len() == 7);
    assert("pictures"@.len() == 8 && "pictures"@[0] == 'p');
    assert("image"@.len() == 5 && "image"@[0] == 'i');
    assert("images"@.len() == 6 && "images"@[0] == 'i');
}

} // verus!
