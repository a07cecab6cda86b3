//! Reading release titles: what kind of thing they name, which year, and the
//! title behind the release tags.

use vstd::prelude::*;

use crate::number;
use crate::number::{read_u16, write_u64};
use crate::text;
use crate::text::{
    chars_are, chars_eq, chars_of, find_last, has_suffix, is_digit_char, joined, lowered,
    run_length, split_words, string_of, trimmed, CharClass,
};
use crate::tmdb::TmdbKind;

verus! {

/// A title in the form that TMDB is asked for, with the hints found beside it.
#[derive(Debug)]
pub struct CleanedTitle {
    pub title: String,
    /// The year that the release title names.
    pub year: Option<u16>,
    /// Whether the release title reads like an episode or like a movie.
    pub kind: TmdbKind,
}

/// Square brackets that are open at the end of a text.
pub open spec fn open_square(s: Seq<char>) -> nat
    decreases s.len(),
{
    if s.len() == 0 {
        0
    } else {
        let d = open_square(s.drop_last());
        if s.last() == '[' {
            d + 1
        } else if s.last() == ']' && d > 0 {
            (d - 1) as nat
        } else {
            d
        }
    }
}

/// Round brackets that are open at the end of a text.
pub open spec fn open_round(s: Seq<char>) -> nat
    decreases s.len(),
{
    if s.len() == 0 {
        0
    } else {
        let d = open_round(s.drop_last());
        if s.last() == '(' {
            d + 1
        } else if s.last() == ')' && d > 0 {
            (d - 1) as nat
        } else {
            d
        }
    }
}

/// Position `i` lies in a square segment that is closed further on.
pub open spec fn in_square_segment(s: Seq<char>, i: int) -> bool {
    exists|j: int| i < j <= s.len() && open_square(#[trigger] s.take(j)) < open_square(s.take(i))
}

/// Position `i` lies in a round segment that is closed further on.
pub open spec fn in_round_segment(s: Seq<char>, i: int) -> bool {
    exists|j: int| i < j <= s.len() && open_round(#[trigger] s.take(j)) < open_round(s.take(i))
}

/// The character at position `i` stays when the bracketed segments are dropped:
/// it opens no bracket, and none is open before it. A closing bracket that
/// closes nothing also stays after brackets of the other kind, where they are
/// never closed.
pub open spec fn stays(s: Seq<char>, i: int) -> bool {
    let square = open_square(s.take(i));
    let round = open_round(s.take(i));
    if s[i] == '[' || s[i] == '(' {
        false
    } else if s[i] == ']' && square == 0 {
        !in_round_segment(s, i)
    } else if s[i] == ')' && round == 0 {
        !in_square_segment(s, i)
    } else {
        square == 0 && round == 0
    }
}

/// The characters before position `n` that stay.
pub open spec fn kept_before(s: Seq<char>, n: int) -> Seq<char>
    decreases n,
{
    if n <= 0 {
        Seq::empty()
    } else if stays(s, n - 1) {
        kept_before(s, n - 1).push(s[n - 1])
    } else {
        kept_before(s, n - 1)
    }
}

/// The text without its bracketed segments.
pub open spec fn unbracketed(s: Seq<char>) -> Seq<char> {
    kept_before(s, s.len() as int)
}

fn square_closes_later(cs: &Vec<char>, i: usize, open: usize) -> (r: bool)
    requires
        i < cs@.len(),
        open == open_square(cs@.take(i as int)),
        open <= i,
    ensures
        r == in_square_segment(cs@, i as int),
{
    let n: usize = cs.len();
    let mut depth: usize = open;
    let mut j: usize = i;
    while j < n
        invariant
            n == cs@.len(),
            i <= j <= n,
            open == open_square(cs@.take(i as int)),
            depth == open_square(cs@.take(j as int)),
            open <= depth <= j,
            forall|k: int| i < k <= j ==> open_square(#[trigger] cs@.take(k)) >= open,
        decreases n - j,
    {
        proof {
            assert(cs@.take(j + 1).drop_last() == cs@.take(j as int));
            assert(cs@.take(j + 1).last() == cs@[j as int]);
        }
        if cs[j] == '[' {
            depth += 1;
        } else if cs[j] == ']' && depth > 0 {
            depth -= 1;
            if depth < open {
                assert(open_square(cs@.take(j + 1)) < open_square(cs@.take(i as int)));
                return true;
            }
        }
        j += 1;
    }
    false
}

fn round_closes_later(cs: &Vec<char>, i: usize, open: usize) -> (r: bool)
    requires
        i < cs@.len(),
        open == open_round(cs@.take(i as int)),
        open <= i,
    ensures
        r == in_round_segment(cs@, i as int),
{
    let n: usize = cs.len();
    let mut depth: usize = open;
    let mut j: usize = i;
    while j < n
        invariant
            n == cs@.len(),
            i <= j <= n,
            open == open_round(cs@.take(i as int)),
            depth == open_round(cs@.take(j as int)),
            open <= depth <= j,
            forall|k: int| i < k <= j ==> open_round(#[trigger] cs@.take(k)) >= open,
        decreases n - j,
    {
        proof {
            assert(cs@.take(j + 1).drop_last() == cs@.take(j as int));
            assert(cs@.take(j + 1).last() == cs@[j as int]);
        }
        if cs[j] == '(' {
            depth += 1;
        } else if cs[j] == ')' && depth > 0 {
            depth -= 1;
            if depth < open {
                assert(open_round(cs@.take(j + 1)) < open_round(cs@.take(i as int)));
                return true;
            }
        }
        j += 1;
    }
    false
}

/// Drops the bracketed segments of a title.
pub fn strip_bracketed(s: &str) -> (r: String)
    ensures
        r@ == unbracketed(s@),
{
    let cs = chars_of(s);
    let n: usize = cs.len();
    let mut out = String::new();
    let mut square: usize = 0;
    let mut round: usize = 0;
    let mut i: usize = 0;
    while i < n
        invariant
            n == cs@.len(),
            i <= n,
            square == open_square(cs@.take(i as int)),
            round == open_round(cs@.take(i as int)),
            square <= i,
            round <= i,
            out@ == kept_before(cs@, i as int),
        decreases n - i,
    {
        let c = cs[i];
        proof {
            assert(cs@.take(i + 1).drop_last() == cs@.take(i as int));
            assert(cs@.take(i + 1).last() == c);
        }
        if c == '[' {
            square += 1;
        } else if c == '(' {
            round += 1;
        } else if c == ']' && square > 0 {
            square -= 1;
        } else if c == ')' && round > 0 {
            round -= 1;
        } else if c == ']' {
            if !round_closes_later(&cs, i, round) {
                out.push(c);
            }
        } else if c == ')' {
            if !square_closes_later(&cs, i, square) {
                out.push(c);
            }
        } else if square == 0 && round == 0 {
            out.push(c);
        }
        i += 1;
    }
    out
}

/// The length of the video extension that a text ends with, with its dot.
pub open spec fn extension_len(t: Seq<char>) -> nat {
    let l = text::lower(t);
    if text::ends_with(l, ".mkv"@) || text::ends_with(l, ".mp4"@) || text::ends_with(l, ".avi"@)
        || text::ends_with(l, ".m4v"@) {
        4
    } else if text::ends_with(l, ".ts"@) {
        3
    } else if text::ends_with(l, ".webm"@) {
        5
    } else {
        0
    }
}

/// The trimmed text without a video extension.
pub open spec fn without_extension(s: Seq<char>) -> Seq<char> {
    let t = text::trim(s);
    t.take(t.len() - extension_len(t))
}

/// Trims a title and drops a video extension.
pub fn strip_file_extension(s: &str) -> (r: String)
    ensures
        r@ == without_extension(s@),
{
    proof {
        reveal_strlit(".mkv");
        reveal_strlit(".mp4");
        reveal_strlit(".avi");
        reveal_strlit(".m4v");
        reveal_strlit(".ts");
        reveal_strlit(".webm");
    }
    let cs = chars_of(s);
    let t = trimmed(&cs);
    let l = lowered(t);
    let drop: usize = if has_suffix(&l, ".mkv") || has_suffix(&l, ".mp4") || has_suffix(&l, ".avi")
        || has_suffix(&l, ".m4v") {
        4
    } else if has_suffix(&l, ".ts") {
        3
    } else if has_suffix(&l, ".webm") {
        5
    } else {
        0
    };
    assert(t@.take(t@.len() - drop) == t@.subrange(0, t@.len() - drop));
    string_of(&t[0..t.len() - drop])
}

/// A lower-case word like `s01` or `s01e02`: `s`, one or two digits, and
/// perhaps `e` with at least one digit.
pub open spec fn is_season_marker(w: Seq<char>) -> bool {
    w.len() > 0 && w[0] == 's' && {
        let d = text::run_len(w.skip(1), CharClass::Digit);
        let after = w.skip((1 + d) as int);
        1 <= d <= 2 && (after.len() == 0 || (after[0] == 'e' && after.len() > 1
            && number::all_digits(after.skip(1))))
    }
}

/// A lower-case word like `ep05`: `ep` and at least one digit.
pub open spec fn is_episode_word(w: Seq<char>) -> bool {
    w.len() > 2 && w[0] == 'e' && w[1] == 'p' && number::all_digits(w.skip(2))
}

/// A lower-case word that only the title of an episode or a season has.
pub open spec fn is_tv_word(w: Seq<char>) -> bool {
    w == "season"@ || is_season_marker(w) || is_episode_word(w)
}

/// An episode number like `117` or `117v2`: one to four digits, alone or with a
/// version, which is `v` or `V` and at least one digit.
pub open spec fn is_episode_number(w: Seq<char>) -> bool {
    let d = text::run_len(w, CharClass::Digit);
    let after = w.skip(d as int);
    1 <= d <= 4 && (after.len() == 0 || ((after[0] == 'v' || after[0] == 'V') && after.len() > 1
        && number::all_digits(after.skip(1))))
}

/// The text ends with ` - ` and an episode number.
pub open spec fn ends_with_episode_number(s: Seq<char>) -> bool {
    let t = text::trim(s);
    match text::last_occurrence(t, " - "@) {
        Some(i) => is_episode_number(text::trim(t.skip(i + 3))),
        None => false,
    }
}

/// The kind of thing that a title names.
pub open spec fn title_kind(s: Seq<char>) -> TmdbKind {
    let ws = text::words(text::lower(s), CharClass::Alnum);
    if (exists|i: int| 0 <= i < ws.len() && is_tv_word(#[trigger] ws[i]))
        || ends_with_episode_number(s) {
        TmdbKind::Tv
    } else {
        TmdbKind::Movie
    }
}

fn digits_only(cs: &[char]) -> (r: bool)
    ensures
        r == number::all_digits(cs@),
{
    let n: usize = cs.len();
    let mut i: usize = 0;
    while i < n
        invariant
            n == cs@.len(),
            i <= n,
            forall|j: int| 0 <= j < i ==> text::is_digit(#[trigger] cs@[j]),
        decreases n - i,
    {
        if !is_digit_char(cs[i]) {
            assert(!text::is_digit(cs@[i as int]));
            return false;
        }
        i += 1;
    }
    true
}

fn season_marker(w: &[char]) -> (r: bool)
    ensures
        r == is_season_marker(w@),
{
    let n: usize = w.len();
    if n == 0 || w[0] != 's' {
        return false;
    }
    assert(w@.subrange(1, n as int) == w@.skip(1));
    let d: usize = run_length(&w[1..n], CharClass::Digit);
    if d < 1 || d > 2 {
        return false;
    }
    let after = &w[1 + d..n];
    assert(after@ == w@.skip(1 + d));
    if after.len() == 0 {
        return true;
    }
    if after[0] != 'e' || after.len() == 1 {
        return false;
    }
    assert(after@.subrange(1, after@.len() as int) == after@.skip(1));
    digits_only(&after[1..after.len()])
}

fn episode_word(w: &[char]) -> (r: bool)
    ensures
        r == is_episode_word(w@),
{
    let n: usize = w.len();
    if n <= 2 || w[0] != 'e' || w[1] != 'p' {
        return false;
    }
    assert(w@.subrange(2, n as int) == w@.skip(2));
    digits_only(&w[2..n])
}

fn episode_number(w: &[char]) -> (r: bool)
    ensures
        r == is_episode_number(w@),
{
    let n: usize = w.len();
    let d: usize = run_length(w, CharClass::Digit);
    if d < 1 || d > 4 {
        return false;
    }
    let after = &w[d..n];
    assert(after@ == w@.skip(d as int));
    if after.len() == 0 {
        return true;
    }
    if (after[0] != 'v' && after[0] != 'V') || after.len() == 1 {
        return false;
    }
    assert(after@.subrange(1, after@.len() as int) == after@.skip(1));
    digits_only(&after[1..after.len()])
}

/// Tests for an episode number after the last ` - ` of a title.
pub fn has_trailing_episode_number(s: &str) -> (r: bool)
    ensures
        r == ends_with_episode_number(s@),
{
    proof {
        reveal_strlit(" - ");
    }
    let cs = chars_of(s);
    let t = trimmed(&cs);
    let n: usize = t.len();
    match find_last(t, " - ") {
        Some(i) => {
            assert(t@.subrange(i + 3, n as int) == t@.skip(i + 3));
            episode_number(trimmed(&t[i + 3..n]))
        },
        None => false,
    }
}

/// Tells whether a title names an episode or a movie.
pub fn detect_kind(s: &str) -> (r: TmdbKind)
    ensures
        r == title_kind(s@),
{
    let l = lowered(&chars_of(s));
    let ws = split_words(&l, CharClass::Alnum);
    let ghost all = text::views(ws@);
    let n: usize = ws.len();
    let mut i: usize = 0;
    while i < n
        invariant
            n == ws@.len(),
            all == text::views(ws@),
            all == text::words(text::lower(s@), CharClass::Alnum),
            i <= n,
            forall|j: int| 0 <= j < i ==> !is_tv_word(#[trigger] all[j]),
        decreases n - i,
    {
        if chars_are(&ws[i], "season") || season_marker(&ws[i]) || episode_word(&ws[i]) {
            assert(is_tv_word(all[i as int]));
            return TmdbKind::Tv;
        }
        i += 1;
    }
    if has_trailing_episode_number(s) {
        TmdbKind::Tv
    } else {
        TmdbKind::Movie
    }
}

/// A word that reads as a year from 1900 to 2099.
pub open spec fn is_year(w: Seq<char>) -> bool {
    w.len() == 4 && number::all_digits(w) && 1900 <= number::digits_value(w) <= 2099
}

/// The first year among the words `ws`.
pub open spec fn first_year(ws: Seq<Seq<char>>) -> Option<nat>
    decreases ws.len(),
{
    if ws.len() == 0 {
        None
    } else if is_year(ws[0]) {
        Some(number::digits_value(ws[0]))
    } else {
        first_year(ws.skip(1))
    }
}

/// The year that a title names: its first word that reads as one.
pub open spec fn title_year(s: Seq<char>) -> Option<nat> {
    first_year(text::words(s, CharClass::Alnum))
}

/// Finds the year that a title names.
pub fn extract_year(s: &str) -> (r: Option<u16>)
    ensures
        r is Some <==> title_year(s@) is Some,
        r matches Some(y) ==> title_year(s@) == Some(y as nat),
{
    let ws = split_words(&chars_of(s), CharClass::Alnum);
    let ghost all = text::views(ws@);
    let n: usize = ws.len();
    let mut i: usize = 0;
    assert(all.skip(0) == all);
    while i < n
        invariant
            n == ws@.len(),
            all == text::views(ws@),
            all == text::words(s@, CharClass::Alnum),
            i <= n,
            first_year(all) == first_year(all.skip(i as int)),
        decreases n - i,
    {
        let w = &ws[i];
        proof {
            assert(all.skip(i as int)[0] == w@);
            assert(all.skip(i as int).skip(1) == all.skip(i + 1));
        }
        if w.len() == 4 && digits_only(w) {
            assert(number::unsigned_digits(w@) == w@) by {
                assert(text::is_digit(w@[0]));
            }
            match read_u16(w) {
                Some(y) => {
                    if 1900 <= y && y <= 2099 {
                        return Some(y);
                    }
                },
                None => {},
            }
        }
        i += 1;
    }
    assert(all.skip(n as int).len() == 0);
    None
}

/// An `s` with a run of digits and `e` after it is an episode marker: it has two
/// digits and no more, or two digits at least and then an `e` with a digit.
pub open spec fn is_marker(probe: Seq<char>) -> bool {
    let d = text::run_len(probe.skip(1), CharClass::Digit);
    let after = probe.skip((1 + d) as int);
    d >= 2 && (if after.len() == 0 {
        d == 2
    } else {
        (after[0] == 'e' || after[0] == 'E') && after.len() > 1 && text::is_digit(after[1])
    })
}

/// The text without its episode markers.
pub open spec fn unmarked(s: Seq<char>) -> Seq<char>
    decreases s.len(),
{
    if s.len() == 0 {
        Seq::empty()
    } else if (s[0] == 's' || s[0] == 'S') && s.len() > 1 && text::is_digit(s[1]) {
        let n = 1 + text::run_len(s.skip(1), CharClass::DigitOrE);
        if n > s.len() {
            Seq::empty()
        } else if is_marker(s.take(n as int)) {
            unmarked(s.skip(n as int))
        } else {
            s.take(n as int) + unmarked(s.skip(n as int))
        }
    } else {
        seq![s[0]] + unmarked(s.skip(1))
    }
}

/// The title without its episode number or its episode markers.
pub open spec fn without_episode(s: Seq<char>) -> Seq<char> {
    let t = text::trim(s);
    match text::last_occurrence(t, " - "@) {
        Some(i) => if is_episode_number(t.skip(i + 3)) {
            text::trim(t.take(i))
        } else {
            text::trim(unmarked(t))
        },
        None => text::trim(unmarked(t)),
    }
}

fn marker(probe: &[char]) -> (r: bool)
    requires
        probe@.len() > 0,
    ensures
        r == is_marker(probe@),
{
    let n: usize = probe.len();
    assert(probe@.subrange(1, n as int) == probe@.skip(1));
    let d: usize = run_length(&probe[1..n], CharClass::Digit);
    let after = &probe[1 + d..n];
    assert(after@ == probe@.skip(1 + d));
    if after.len() == 0 {
        d == 2
    } else {
        d >= 2 && (after[0] == 'e' || after[0] == 'E') && after.len() > 1 && is_digit_char(after[1])
    }
}

/// Drops the episode number or the episode markers of a title.
pub fn strip_episode_markers(s: &str) -> (r: String)
    ensures
        r@ == without_episode(s@),
{
    proof {
        reveal_strlit(" - ");
    }
    let cs = chars_of(s);
    let t = trimmed(&cs);
    let n: usize = t.len();
    match find_last(t, " - ") {
        Some(i) => {
            assert(t@.subrange(i + 3, n as int) == t@.skip(i + 3));
            assert(t@.subrange(0, i as int) == t@.take(i as int));
            if episode_number(&t[i + 3..n]) {
                return string_of(trimmed(&t[0..i]));
            }
        },
        None => {},
    }
    let mut out: Vec<char> = Vec::new();
    let mut i: usize = 0;
    assert(t@.skip(0) == t@);
    assert(out@ + unmarked(t@) == unmarked(t@));
    while i < n
        invariant
            n == t@.len(),
            i <= n,
            out@ + unmarked(t@.skip(i as int)) == unmarked(t@),
        decreases n - i,
    {
        let c = t[i];
        let ghost rest = t@.skip(i as int);
        let ghost done = out@;
        if (c == 's' || c == 'S') && i + 1 < n && is_digit_char(t[i + 1]) {
            assert(t@.subrange(i + 1, n as int) == rest.skip(1));
            let len: usize = 1 + run_length(&t[i + 1..n], CharClass::DigitOrE);
            let probe = &t[i..i + len];
            assert(probe@ == rest.take(len as int));
            assert(rest.skip(len as int) == t@.skip(i + len));
            if !marker(probe) {
                out.extend_from_slice(probe);
                assert(done + (probe@ + unmarked(t@.skip(i + len))) == out@ + unmarked(
                    t@.skip(i + len),
                ));
            }
            i += len;
        } else {
            out.push(c);
            assert(rest.skip(1) == t@.skip(i + 1));
            assert(done + (seq![c] + unmarked(t@.skip(i + 1))) == out@ + unmarked(t@.skip(i + 1)));
            i += 1;
        }
    }
    assert(t@.skip(n as int).len() == 0);
    assert(out@ + Seq::<char>::empty() == out@);
    string_of(trimmed(&out))
}

/// A lower-case release tag: resolution, source, codec, audio, language or the
/// like.
pub open spec fn is_junk(w: Seq<char>) -> bool {
    ||| w == "1080p"@
    ||| w == "720p"@
    ||| w == "480p"@
    ||| w == "2160p"@
    ||| w == "4k"@
    ||| w == "uhd"@
    ||| w == "hd"@
    ||| w == "bluray"@
    ||| w == "bdrip"@
    ||| w == "bdremux"@
    ||| w == "remux"@
    ||| w == "web-dl"@
    ||| w == "webdl"@
    ||| w == "webrip"@
    ||| w == "hdtv"@
    ||| w == "dvdrip"@
    ||| w == "hdrip"@
    ||| w == "dsnp"@
    ||| w == "amzn"@
    ||| w == "atvp"@
    ||| w == "nf"@
    ||| w == "hulu"@
    ||| w == "adn"@
    ||| w == "x264"@
    ||| w == "x265"@
    ||| w == "h264"@
    ||| w == "h265"@
    ||| w == "hevc"@
    ||| w == "avc"@
    ||| w == "10bit"@
    ||| w == "10-bit"@
    ||| w == "8bit"@
    ||| w == "8-bit"@
    ||| w == "aac"@
    ||| w == "ac3"@
    ||| w == "flac"@
    ||| w == "dts"@
    ||| w == "dd5"@
    ||| w == "ddp"@
    ||| w == "ddp5"@
    ||| w == "ddp7"@
    ||| w == "atmos"@
    ||| w == "mp3"@
    ||| w == "opus"@
    ||| w == "5.1"@
    ||| w == "7.1"@
    ||| w == "2.0"@
    ||| w == "multi"@
    ||| w == "multisub"@
    ||| w == "multi-sub"@
    ||| w == "multi-subs"@
    ||| w == "vostfr"@
    ||| w == "dual-audio"@
    ||| w == "dualaudio"@
    ||| w == "sub"@
    ||| w == "subs"@
    ||| w == "subbed"@
    ||| w == "mkv"@
    ||| w == "mp4"@
    ||| w == "avi"@
    ||| w == "ts"@
    ||| w == "m4v"@
    ||| w == "proper"@
    ||| w == "repack"@
    ||| w == "internal"@
    ||| w == "limited"@
    ||| w == "extended"@
    ||| w == "uncut"@
    ||| w == "directors"@
    ||| w == "remastered"@
    ||| w == "anniversary"@
    ||| w == "ova"@
    ||| w == "oad"@
    ||| w == "ona"@
    ||| w == "movie"@
}

/// The word belongs to the title: no release tag, not the year, and no number
/// of more than two digits.
pub open spec fn is_title_word(w: Seq<char>, year: Option<u16>) -> bool {
    &&& !is_junk(text::lower(w))
    &&& (year matches Some(y) ==> w != number::decimal(y as nat))
    &&& !(w.len() > 2 && number::all_digits(w))
}

/// The words that belong to the title, in order.
pub open spec fn title_words(ws: Seq<Seq<char>>, year: Option<u16>) -> Seq<Seq<char>>
    decreases ws.len(),
{
    if ws.len() == 0 {
        Seq::empty()
    } else {
        let before = title_words(ws.drop_last(), year);
        if is_title_word(ws.last(), year) {
            before.push(ws.last())
        } else {
            before
        }
    }
}

fn junk(w: &[char]) -> (r: bool)
    ensures
        r == is_junk(w@),
{
    chars_are(w, "1080p") || chars_are(w, "720p") || chars_are(w, "480p")
        || chars_are(w, "2160p") || chars_are(w, "4k") || chars_are(w, "uhd")
        || chars_are(w, "hd") || chars_are(w, "bluray") || chars_are(w, "bdrip")
        || chars_are(w, "bdremux") || chars_are(w, "remux") || chars_are(w, "web-dl")
        || chars_are(w, "webdl") || chars_are(w, "webrip") || chars_are(w, "hdtv")
        || chars_are(w, "dvdrip") || chars_are(w, "hdrip") || chars_are(w, "dsnp")
        || chars_are(w, "amzn") || chars_are(w, "atvp") || chars_are(w, "nf")
        || chars_are(w, "hulu") || chars_are(w, "adn") || chars_are(w, "x264")
        || chars_are(w, "x265") || chars_are(w, "h264") || chars_are(w, "h265")
        || chars_are(w, "hevc") || chars_are(w, "avc") || chars_are(w, "10bit")
        || chars_are(w, "10-bit") || chars_are(w, "8bit") || chars_are(w, "8-bit")
        || chars_are(w, "aac") || chars_are(w, "ac3") || chars_are(w, "flac")
        || chars_are(w, "dts") || chars_are(w, "dd5") || chars_are(w, "ddp")
        || chars_are(w, "ddp5") || chars_are(w, "ddp7") || chars_are(w, "atmos")
        || chars_are(w, "mp3") || chars_are(w, "opus") || chars_are(w, "5.1")
        || chars_are(w, "7.1") || chars_are(w, "2.0") || chars_are(w, "multi")
        || chars_are(w, "multisub") || chars_are(w, "multi-sub") || chars_are(w, "multi-subs")
        || chars_are(w, "vostfr") || chars_are(w, "dual-audio") || chars_are(w, "dualaudio")
        || chars_are(w, "sub") || chars_are(w, "subs") || chars_are(w, "subbed")
        || chars_are(w, "mkv") || chars_are(w, "mp4") || chars_are(w, "avi")
        || chars_are(w, "ts") || chars_are(w, "m4v") || chars_are(w, "proper")
        || chars_are(w, "repack") || chars_are(w, "internal") || chars_are(w, "limited")
        || chars_are(w, "extended") || chars_are(w, "uncut") || chars_are(w, "directors")
        || chars_are(w, "remastered") || chars_are(w, "anniversary") || chars_are(w, "ova")
        || chars_are(w, "oad") || chars_are(w, "ona") || chars_are(w, "movie")
}

/// The words of a text that belong to the title, with single spaces between
/// them.
pub fn tokenize_and_filter(s: &str, extracted_year: Option<u16>) -> (r: String)
    ensures
        r@ == text::trim(
            text::join(
                title_words(text::words(s@, CharClass::AlnumOrApostrophe), extracted_year),
                seq![' '],
            ),
        ),
{
    let ws = split_words(&chars_of(s), CharClass::AlnumOrApostrophe);
    let ghost all = text::views(ws@);
    let year_text = match extracted_year {
        Some(y) => chars_of(write_u64(y as u64).as_str()),
        None => Vec::new(),
    };
    let n: usize = ws.len();
    let mut kept: Vec<Vec<char>> = Vec::new();
    let mut i: usize = 0;
    assert(text::views(kept@) == title_words(all.take(0), extracted_year));
    while i < n
        invariant
            n == ws@.len(),
            all == text::views(ws@),
            extracted_year matches Some(y) ==> year_text@ == number::decimal(y as nat),
            i <= n,
            text::views(kept@) == title_words(all.take(i as int), extracted_year),
        decreases n - i,
    {
        let w = &ws[i];
        proof {
            assert(all.take(i + 1).drop_last() == all.take(i as int));
            assert(all.take(i + 1).last() == w@);
        }
        let is_tag = junk(&lowered(w));
        let is_the_year = extracted_year.is_some() && chars_eq(w, &year_text);
        if !is_tag && !is_the_year && !(w.len() > 2 && digits_only(w)) {
            let mut copy: Vec<char> = Vec::new();
            copy.extend_from_slice(w);
            assert(copy@ == w@);
            let ghost before = text::views(kept@);
            kept.push(copy);
            assert(text::views(kept@) == before.push(w@));
        }
        i += 1;
    }
    assert(all.take(n as int) == all);
    let text_joined = joined(&kept, ' ');
    let cs = chars_of(text_joined.as_str());
    string_of(trimmed(&cs))
}

/// Cleans a release title: `title` is the title that was found in it, to which
/// this adds the year and the kind.
pub fn clean_torrent_title(raw: &str, title: String) -> (r: CleanedTitle)
    ensures
        r.title@ == title@,
        r.year is Some <==> title_year(raw@) is Some,
        r.year matches Some(y) ==> title_year(raw@) == Some(y as nat),
        r.kind == title_kind(without_extension(unbracketed(raw@))),
{
    let bare = strip_bracketed(raw);
    let kind = detect_kind(strip_file_extension(bare.as_str()).as_str());
    CleanedTitle { title, year: extract_year(raw), kind }
}

proof fn lemma_no_opening(s: Seq<char>, n: int)
    requires
        0 <= n <= s.len(),
    ensures
        forall|i: int|
            0 <= i < kept_before(s, n).len() ==> (#[trigger] kept_before(s, n)[i]) != '['
                && kept_before(s, n)[i] != '(',
    decreases n,
{
    if n > 0 {
        lemma_no_opening(s, n - 1);
        let before = kept_before(s, n - 1);
        assert forall|i: int| 0 <= i < kept_before(s, n).len() implies (#[trigger] kept_before(
            s,
            n,
        )[i]) != '[' && kept_before(s, n)[i] != '(' by {
            if i < before.len() {
                assert(kept_before(s, n)[i] == before[i]);
            }
        }
    }
}

proof fn lemma_nothing_open(s: Seq<char>, n: int)
    requires
        0 <= n <= s.len(),
        forall|i: int| 0 <= i < s.len() ==> (#[trigger] s[i]) != '[' && s[i] != '(',
    ensures
        open_square(s.take(n)) == 0,
        open_round(s.take(n)) == 0,
        kept_before(s, n) == s.take(n),
    decreases n,
{
    if n > 0 {
        lemma_nothing_open(s, n - 1);
        assert(s.take(n).drop_last() == s.take(n - 1));
        assert(s.take(n).last() == s[n - 1]);
        assert(s.take(n) == s.take(n - 1).push(s[n - 1]));
    }
}

/// Dropping the bracketed segments leaves no opening bracket, and doing it again
/// changes nothing. A title without an opening bracket stays as it is.
pub proof fn unbracketing_is_idempotent(s: Seq<char>)
    ensures
        forall|i: int|
            0 <= i < unbracketed(s).len() ==> (#[trigger] unbracketed(s)[i]) != '['
                && unbracketed(s)[i] != '(',
        unbracketed(unbracketed(s)) == unbracketed(s),
        (forall|i: int| 0 <= i < s.len() ==> (#[trigger] s[i]) != '[' && s[i] != '(')
            ==> unbracketed(s) == s,
{
    let u = unbracketed(s);
    lemma_no_opening(s, s.len() as int);
    lemma_nothing_open(u, u.len() as int);
    assert(u.take(u.len() as int) == u);
    if forall|i: int| 0 <= i < s.len() ==> (#[trigger] s[i]) != '[' && s[i] != '(' {
        lemma_nothing_open(s, s.len() as int);
        assert(s.take(s.len() as int) == s);
    }
}

proof fn lemma_first_year(ws: Seq<Seq<char>>)
    ensures
        first_year(ws) matches Some(y) ==> 1900 <= y <= 2099,
    decreases ws.len(),
{
    if ws.len() > 0 && !is_year(ws[0]) {
        lemma_first_year(ws.skip(1));
    }
}

/// A year that is found lies between 1900 and 2099.
pub proof fn title_year_is_plausible(s: Seq<char>)
    ensures
        title_year(s) matches Some(y) ==> 1900 <= y <= 2099,
{
    lemma_first_year(text::words(s, CharClass::Alnum));
}

proof fn lemma_open_after(a: Seq<char>, b: Seq<char>)
    ensures
        open_square(a) == 0 ==> open_square(a + b) == open_square(b),
        open_round(a) == 0 ==> open_round(a + b) == open_round(b),
    decreases b.len(),
{
    if b.len() == 0 {
        assert(a + b == a);
    } else {
        lemma_open_after(a, b.drop_last());
        assert((a + b).drop_last() == a + b.drop_last());
        assert((a + b).last() == b.last());
    }
}

proof fn lemma_stays_in_front(a: Seq<char>, b: Seq<char>, i: int)
    requires
        open_square(a) == 0,
        open_round(a) == 0,
        0 <= i < a.len(),
    ensures
        stays(a + b, i) == stays(a, i),
{
    let s = a + b;
    assert(s.take(i) == a.take(i));
    assert(s.take(a.len() as int) == a);
    assert(a.take(a.len() as int) == a);
    if open_square(a.take(i)) > 0 {
        assert(in_square_segment(s, i));
        assert(in_square_segment(a, i));
    }
    if open_round(a.take(i)) > 0 {
        assert(in_round_segment(s, i));
        assert(in_round_segment(a, i));
    }
}

proof fn lemma_stays_behind(a: Seq<char>, b: Seq<char>, i: int)
    requires
        open_square(a) == 0,
        open_round(a) == 0,
        0 <= i < b.len(),
    ensures
        stays(a + b, a.len() + i) == stays(b, i),
{
    let s = a + b;
    let at = a.len() as int;
    assert forall|k: int| 0 <= k <= b.len() implies open_square(#[trigger] s.take(at + k))
        == open_square(b.take(k)) && open_round(s.take(at + k)) == open_round(b.take(k)) by {
        assert(s.take(at + k) == a + b.take(k));
        lemma_open_after(a, b.take(k));
    }
    assert(s.take(at + i) == a + b.take(i));
    lemma_open_after(a, b.take(i));
    if in_square_segment(s, at + i) {
        let j = choose|j: int|
            at + i < j <= s.len() && open_square(#[trigger] s.take(j)) < open_square(
                s.take(at + i),
            );
        assert(s.take(at + (j - at)) == s.take(j));
        assert(open_square(b.take(j - at)) < open_square(b.take(i)));
        assert(in_square_segment(b, i));
    }
    if in_square_segment(b, i) {
        let j = choose|j: int|
            i < j <= b.len() && open_square(#[trigger] b.take(j)) < open_square(b.take(i));
        assert(open_square(s.take(at + j)) < open_square(s.take(at + i)));
        assert(in_square_segment(s, at + i));
    }
    if in_round_segment(s, at + i) {
        let j = choose|j: int|
            at + i < j <= s.len() && open_round(#[trigger] s.take(j)) < open_round(s.take(at + i));
        assert(s.take(at + (j - at)) == s.take(j));
        assert(open_round(b.take(j - at)) < open_round(b.take(i)));
        assert(in_round_segment(b, i));
    }
    if in_round_segment(b, i) {
        let j = choose|j: int|
            i < j <= b.len() && open_round(#[trigger] b.take(j)) < open_round(b.take(i));
        assert(open_round(s.take(at + j)) < open_round(s.take(at + i)));
        assert(in_round_segment(s, at + i));
    }
}

proof fn lemma_kept_in_front(a: Seq<char>, b: Seq<char>, n: int)
    requires
        open_square(a) == 0,
        open_round(a) == 0,
        0 <= n <= a.len(),
    ensures
        kept_before(a + b, n) == kept_before(a, n),
    decreases n,
{
    if n > 0 {
        lemma_kept_in_front(a, b, n - 1);
        lemma_stays_in_front(a, b, n - 1);
    }
}

proof fn lemma_kept_behind(a: Seq<char>, b: Seq<char>, n: int)
    requires
        open_square(a) == 0,
        open_round(a) == 0,
        0 <= n <= b.len(),
    ensures
        kept_before(a + b, a.len() + n) == unbracketed(a) + kept_before(b, n),
    decreases n,
{
    if n == 0 {
        lemma_kept_in_front(a, b, a.len() as int);
        assert(unbracketed(a) + kept_before(b, 0) == unbracketed(a));
    } else {
        lemma_kept_behind(a, b, n - 1);
        lemma_stays_behind(a, b, n - 1);
        let s = a + b;
        assert(s[a.len() + n - 1] == b[n - 1]);
        assert(unbracketed(a) + kept_before(b, n - 1).push(b[n - 1]) == (unbracketed(a)
            + kept_before(b, n - 1)).push(b[n - 1]));
    }
}

proof fn lemma_segment(x: Seq<char>, round: bool, n: int)
    requires
        forall|i: int|
            0 <= i < x.len() ==> (#[trigger] x[i]) != '[' && x[i] != ']' && x[i] != '(' && x[i]
                != ')',
        0 <= n <= x.len() + 1,
    ensures
        ({
            let (opening, closing) = if round {
                ('(', ')')
            } else {
                ('[', ']')
            };
            let s = seq![opening] + x + seq![closing];
            &&& open_square(s.take(n)) == (if round || n == 0 {
                0nat
            } else {
                1nat
            })
            &&& open_round(s.take(n)) == (if !round || n == 0 {
                0nat
            } else {
                1nat
            })
            &&& kept_before(s, n) == Seq::<char>::empty()
        }),
    decreases n,
{
    let (opening, closing) = if round {
        ('(', ')')
    } else {
        ('[', ']')
    };
    let s = seq![opening] + x + seq![closing];
    if n > 0 {
        lemma_segment(x, round, n - 1);
        assert(s.take(n).drop_last() == s.take(n - 1));
        assert(s.take(n).last() == s[n - 1]);
        if n == 1 {
            assert(s[0] == opening);
        } else {
            assert(s[n - 1] == x[n - 2]);
        }
        assert(!stays(s, n - 1));
    }
}

proof fn lemma_segment_goes(x: Seq<char>, round: bool)
    requires
        forall|i: int|
            0 <= i < x.len() ==> (#[trigger] x[i]) != '[' && x[i] != ']' && x[i] != '(' && x[i]
                != ')',
    ensures
        ({
            let s = if round {
                seq!['('] + x + seq![')']
            } else {
                seq!['['] + x + seq![']']
            };
            &&& open_square(s) == 0
            &&& open_round(s) == 0
            &&& unbracketed(s) == Seq::<char>::empty()
        }),
{
    let (opening, closing) = if round {
        ('(', ')')
    } else {
        ('[', ']')
    };
    let s = seq![opening] + x + seq![closing];
    let n = x.len() as int + 1;
    lemma_segment(x, round, n);
    assert(s.take(n) == s.drop_last());
    assert(s.last() == closing);
    assert(s[n] == closing);
    assert(!stays(s, n));
}

/// A bracketed segment goes with its brackets, and what stands before and after it
/// stays: the text before is read as if it ended there, the text after as if it
/// began there.
pub proof fn bracketed_segments_go(a: Seq<char>, x: Seq<char>, b: Seq<char>)
    requires
        open_square(a) == 0,
        open_round(a) == 0,
        forall|i: int|
            0 <= i < x.len() ==> (#[trigger] x[i]) != '[' && x[i] != ']' && x[i] != '(' && x[i]
                != ')',
    ensures
        unbracketed(a + b) == unbracketed(a) + unbracketed(b),
        unbracketed(a + (seq!['['] + x + seq![']']) + b) == unbracketed(a) + unbracketed(b),
        unbracketed(a + (seq!['('] + x + seq![')']) + b) == unbracketed(a) + unbracketed(b),
        unbracketed(x) == x,
{
    let square = seq!['['] + x + seq![']'];
    let round = seq!['('] + x + seq![')'];
    lemma_segment_goes(x, false);
    lemma_segment_goes(x, true);
    lemma_kept_behind(a, b, b.len() as int);
    lemma_kept_behind(a, square, square.len() as int);
    lemma_kept_behind(a, round, round.len() as int);
    lemma_open_after(a, square);
    lemma_open_after(a, round);
    assert(unbracketed(a) + Seq::<char>::empty() == unbracketed(a));
    assert(unbracketed(a + square) == unbracketed(a));
    assert(unbracketed(a + round) == unbracketed(a));
    lemma_kept_behind(a + square, b, b.len() as int);
    lemma_kept_behind(a + round, b, b.len() as int);
    unbracketing_is_idempotent(x);
}

/// A title loses the white space round it and then one of these extensions, in any
/// case, and nothing else.
pub proof fn extensions_go(s: Seq<char>)
    ensures
        ({
            let t = text::trim(s);
            let l = text::lower(t);
            let four = text::ends_with(l, ".mkv"@) || text::ends_with(l, ".mp4"@)
                || text::ends_with(l, ".avi"@) || text::ends_with(l, ".m4v"@);
            let three = text::ends_with(l, ".ts"@);
            let five = text::ends_with(l, ".webm"@);
            &&& four ==> t.len() >= 4 && without_extension(s) == t.take(t.len() - 4)
            &&& three ==> t.len() >= 3 && without_extension(s) == t.take(t.len() - 3)
            &&& five ==> t.len() >= 5 && without_extension(s) == t.take(t.len() - 5)
            &&& !four && !three && !five ==> without_extension(s) == t
        }),
{
    reveal_strlit(".mkv");
    reveal_strlit(".mp4");
    reveal_strlit(".avi");
    reveal_strlit(".m4v");
    reveal_strlit(".ts");
    reveal_strlit(".webm");
    let t = text::trim(s);
    let l = text::lower(t);
    let n = l.len() as int;
    if text::ends_with(l, ".ts"@) {
        assert(l.subrange(n - 3, n)[2] == 's');
        assert(l[n - 1] == 's');
    }
    if text::ends_with(l, ".mkv"@) {
        assert(l.subrange(n - 4, n)[3] == 'v');
        assert(l[n - 1] == 'v');
    }
    if text::ends_with(l, ".mp4"@) {
        assert(l.subrange(n - 4, n)[3] == '4');
        assert(l[n - 1] == '4');
    }
    if text::ends_with(l, ".avi"@) {
        assert(l.subrange(n - 4, n)[3] == 'i');
        assert(l[n - 1] == 'i');
    }
    if text::ends_with(l, ".m4v"@) {
        assert(l.subrange(n - 4, n)[3] == 'v');
        assert(l[n - 1] == 'v');
    }
    if text::ends_with(l, ".webm"@) {
        assert(l.subrange(n - 5, n)[4] == 'm');
        assert(l[n - 1] == 'm');
    }
    assert(t.take(n) == t);
}

proof fn lemma_digit_run(head: Seq<char>, tail: Seq<char>)
    requires
        number::all_digits(head),
        tail.len() > 0 ==> !text::is_digit(tail[0]),
    ensures
        text::run_len(head + tail, CharClass::Digit) == head.len(),
        (head + tail).skip(head.len() as int) == tail,
{
    let s = head + tail;
    assert forall|i: int| 0 <= i < head.len() implies CharClass::Digit.contains(
        #[trigger] s[i],
    ) by {
        assert(s[i] == head[i]);
    }
    if tail.len() > 0 {
        assert(s[head.len() as int] == tail[0]);
    }
    text::lemma_run_len(s, CharClass::Digit, head.len() as int);
    assert(s.skip(head.len() as int) == tail);
}

/// What marks an episode: `s` with one or two digits, alone or with `e` and digits
/// after it; `ep` with digits; and the word `season`. Three digits after an `s` do
/// not.
pub proof fn episode_marks(d: Seq<char>, n: Seq<char>)
    requires
        number::all_digits(d),
        number::all_digits(n),
        d.len() > 0,
        n.len() > 0,
    ensures
        is_season_marker(seq!['s'] + d) <==> d.len() <= 2,
        is_season_marker(seq!['s'] + d + seq!['e'] + n) <==> d.len() <= 2,
        !is_season_marker(seq!['s'] + d + seq!['e']),
        is_episode_word(seq!['e', 'p'] + n),
        !is_episode_word(seq!['e', 'p']),
        is_tv_word("season"@),
        d.len() <= 2 ==> is_tv_word(seq!['s'] + d) && is_tv_word(seq!['s'] + d + seq!['e'] + n),
        is_tv_word(seq!['e', 'p'] + n),
        !is_tv_word(d),
{
    let none = Seq::<char>::empty();
    lemma_digit_run(d, none);
    assert(d + none == d);
    let w = seq!['s'] + d;
    assert(w.skip(1) == d);
    assert(w.skip(1 + d.len() as int).len() == 0);
    let tail = seq!['e'] + n;
    lemma_digit_run(d, tail);
    let v = seq!['s'] + d + seq!['e'] + n;
    assert(v.skip(1) == d + tail);
    assert(v.skip(1 + d.len() as int) == tail);
    assert(tail.skip(1) == n);
    let short = seq!['e'];
    lemma_digit_run(d, short);
    let u = seq!['s'] + d + seq!['e'];
    assert(u.skip(1) == d + short);
    assert(u.skip(1 + d.len() as int) == short);
    assert((seq!['e', 'p'] + n).skip(2) == n);
    reveal_strlit("season");
    assert("season"@[0] == 's');
    assert(text::is_digit(d[0]));
}

/// An episode number has one to four digits, alone or with a version.
pub proof fn episode_numbers(d: Seq<char>, n: Seq<char>)
    requires
        number::all_digits(d),
        number::all_digits(n),
        d.len() > 0,
        n.len() > 0,
    ensures
        is_episode_number(d) <==> d.len() <= 4,
        is_episode_number(d + seq!['v'] + n) <==> d.len() <= 4,
        is_episode_number(d + seq!['V'] + n) <==> d.len() <= 4,
        !is_episode_number(d + seq!['v']),
        !is_episode_number(Seq::empty()),
{
    let none = Seq::<char>::empty();
    lemma_digit_run(d, none);
    assert(d + none == d);
    lemma_digit_run(d, seq!['v'] + n);
    assert(d + seq!['v'] + n == d + (seq!['v'] + n));
    assert((seq!['v'] + n).skip(1) == n);
    lemma_digit_run(d, seq!['V'] + n);
    assert(d + seq!['V'] + n == d + (seq!['V'] + n));
    assert((seq!['V'] + n).skip(1) == n);
    lemma_digit_run(d, seq!['v']);
}

/// A title names an episode if one of its words does, in any case, or if it ends
/// with a dash and an episode number; else it names a movie.
pub proof fn kind_follows_from_the_words(s: Seq<char>, i: int)
    ensures
        ({
            let ws = text::words(text::lower(s), CharClass::Alnum);
            &&& 0 <= i < ws.len() && is_tv_word(ws[i]) ==> title_kind(s) == TmdbKind::Tv
            &&& ends_with_episode_number(s) ==> title_kind(s) == TmdbKind::Tv
            &&& title_kind(s) == TmdbKind::Tv && !ends_with_episode_number(s) ==> exists|j: int|
                0 <= j < ws.len() && is_tv_word(#[trigger] ws[j])
            &&& title_kind(s) == TmdbKind::Tv || title_kind(s) == TmdbKind::Movie
        }),
{
}

/// A title with a dash and an episode number at its end names an episode, and
/// without these it is what stands before the dash.
pub proof fn trailing_number_goes(t: Seq<char>, n: Seq<char>)
    requires
        t.len() > 0,
        !text::is_space(t[0]),
        number::all_digits(n),
        1 <= n.len() <= 4,
    ensures
        title_kind(t + " - "@ + n) == TmdbKind::Tv,
        without_episode(t + " - "@ + n) == text::trim(t),
{
    reveal_strlit(" - ");
    let s = t + " - "@ + n;
    let at = t.len() as int;
    assert(s[0] == t[0]);
    assert(s.last() == n[n.len() - 1]);
    assert(text::is_digit(n[n.len() - 1]));
    text::trimming_takes_white_space_only(s, 0);
    assert(s.subrange(at, at + 3) == " - "@);
    assert forall|j: int| at < j implies !text::occurs_at(s, " - "@, j) by {
        if text::occurs_at(s, " - "@, j) {
            assert(s.subrange(j, j + 3)[0] == ' ');
            assert(s.subrange(j, j + 3)[1] == '-');
            assert(s[j] == ' ' && s[j + 1] == '-');
            if j >= at + 2 {
                assert(s[j + 1] == n[j + 1 - at - 3]);
                assert(text::is_digit(n[j + 1 - at - 3]));
            }
        }
    }
    text::lemma_last_unique(s, " - "@, Some(at));
    assert(s.skip(at + 3) == n);
    assert(s.take(at) == t);
    assert(text::is_digit(n[0]));
    text::trimming_takes_white_space_only(n, 0);
    episode_numbers(n, n);
}

/// A marker such as `S01E02` goes, wherever it stands, with the letters and digits
/// that belong to it; any character but `s` that begins no marker stays.
pub proof fn markers_go(c: char, d: Seq<char>, n: Seq<char>, rest: Seq<char>)
    requires
        c != 's' && c != 'S',
        number::all_digits(d),
        number::all_digits(n),
        d.len() == 2,
        n.len() > 0,
        rest.len() > 0 ==> !CharClass::DigitOrE.contains(rest[0]),
    ensures
        unmarked(Seq::empty()) == Seq::<char>::empty(),
        unmarked(seq![c] + rest) == seq![c] + unmarked(rest),
        unmarked(seq!['S'] + d + seq!['E'] + n + rest) == unmarked(rest),
        unmarked(seq!['s'] + d + seq!['e'] + n + rest) == unmarked(rest),
        unmarked(seq!['s'] + d + seq!['E'] + n + rest) == unmarked(rest),
        unmarked(seq!['S'] + d + seq!['e'] + n + rest) == unmarked(rest),
        unmarked(seq!['S'] + d + rest) == unmarked(rest),
        unmarked(seq!['s'] + d + rest) == unmarked(rest),
{
    assert((seq![c] + rest)[0] == c);
    assert((seq![c] + rest).skip(1) == rest);
    lemma_marker_goes('S', 'E', d, n, rest);
    lemma_marker_goes('s', 'e', d, n, rest);
    lemma_marker_goes('S', 'e', d, n, rest);
    lemma_marker_goes('s', 'E', d, n, rest);
}

proof fn lemma_marker_goes(
    s: char,
    e: char,
    d: Seq<char>,
    n: Seq<char>,
    rest: Seq<char>,
)
    requires
        s == 's' || s == 'S',
        e == 'e' || e == 'E',
        number::all_digits(d),
        number::all_digits(n),
        d.len() == 2,
        n.len() > 0,
        rest.len() > 0 ==> !CharClass::DigitOrE.contains(rest[0]),
    ensures
        unmarked(seq![s] + d + seq![e] + n + rest) == unmarked(rest),
        unmarked(seq![s] + d + rest) == unmarked(rest),
{
    let body = d + (seq![e] + n);
    let long = seq![s] + d + seq![e] + n + rest;
    assert(long == seq![s] + (body + rest));
    assert(long[0] == s);
    assert(text::is_digit(d[0]) && text::is_digit(d[1]) && text::is_digit(n[0]));
    assert(long[1] == d[0]);
    assert(long.skip(1) == body + rest);
    let tail = body + rest;
    assert forall|i: int| 0 <= i < body.len() implies CharClass::DigitOrE.contains(
        #[trigger] tail[i],
    ) by {
        if i < 2 {
            assert(tail[i] == d[i]);
        } else if i > 2 {
            assert(tail[i] == n[i - 3]);
        }
    }
    if rest.len() > 0 {
        assert(tail[body.len() as int] == rest[0]);
    }
    text::lemma_run_len(tail, CharClass::DigitOrE, body.len() as int);
    let k = 1 + body.len() as int;
    let probe = long.take(k);
    assert(probe == seq![s] + body);
    assert(probe.skip(1) == body);
    lemma_digit_run(d, seq![e] + n);
    assert(probe.skip(3) == seq![e] + n);
    assert((seq![e] + n)[1] == n[0]);
    assert(is_marker(probe));
    assert(long.skip(k) == rest);
    let short = seq![s] + d + rest;
    assert(short[0] == s);
    assert(short[1] == d[0]);
    let end = d + rest;
    assert(short.skip(1) == end);
    assert forall|i: int| 0 <= i < 2 implies CharClass::DigitOrE.contains(#[trigger] end[i]) by {
        assert(end[i] == d[i]);
    }
    if rest.len() > 0 {
        assert(end[2] == rest[0]);
    }
    text::lemma_run_len(end, CharClass::DigitOrE, 2);
    let bare = short.take(3);
    assert(bare == seq![s] + d);
    assert(bare.skip(1) == d);
    lemma_digit_run(d, Seq::empty());
    assert(d + Seq::<char>::empty() == d);
    assert(bare.skip(3).len() == 0);
    assert(is_marker(bare));
    assert(short.skip(3) == rest);
}

/// The year of a title is its first word that is a number from 1900 to 2099; other
/// words are passed over.
pub proof fn year_is_the_first_plausible_word(y: nat, w: Seq<char>, ws: Seq<Seq<char>>)
    ensures
        1900 <= y <= 2099 ==> first_year(seq![number::decimal(y)] + ws) == Some(y),
        w.len() != 4 || !number::all_digits(w) ==> first_year(seq![w] + ws) == first_year(ws),
        1000 <= y < 1900 || 2100 <= y <= 9999 ==> first_year(seq![number::decimal(y)] + ws)
            == first_year(ws),
        first_year(Seq::empty()) is None,
{
    let d = number::decimal(y);
    number::lemma_decimal_digits(y);
    if 1000 <= y <= 9999 {
        let y1 = y / 10;
        let y2 = y1 / 10;
        let y3 = y2 / 10;
        assert(number::decimal(y3).len() == 1);
        assert(number::decimal(y2).len() == 2);
        assert(number::decimal(y1).len() == 3);
        assert(d.len() == 4);
    }
    assert((seq![d] + ws)[0] == d);
    assert((seq![d] + ws).skip(1) == ws);
    assert((seq![w] + ws)[0] == w);
    assert((seq![w] + ws).skip(1) == ws);
}

/// The words of a title are those of the release title, in order, without release
/// tags in any case, without the year, and without numbers of three or more digits.
pub proof fn title_words_are_what_is_left(ws: Seq<Seq<char>>, year: Option<u16>, w: Seq<char>)
    ensures
        title_words(ws, year) == ws.filter(|w: Seq<char>| is_title_word(w, year)),
        is_title_word(w, year) <==> {
            &&& !is_junk(text::lower(w))
            &&& !(year is Some && w == number::decimal(year->0 as nat))
            &&& !(w.len() >= 3 && number::all_digits(w))
        },
    decreases ws.len(),
{
    reveal(Seq::filter);
    if ws.len() > 0 {
        title_words_are_what_is_left(ws.drop_last(), year, w);
    }
}

/// The words that count as release tags; no other word does.
pub proof fn release_tags(w: Seq<char>)
    ensures
        is_junk(w) <==> {
            ||| w == "1080p"@
            ||| w == "720p"@
            ||| w == "480p"@
            ||| w == "2160p"@
            ||| w == "4k"@
            ||| w == "uhd"@
            ||| w == "hd"@
            ||| w == "bluray"@
            ||| w == "bdrip"@
            ||| w == "bdremux"@
            ||| w == "remux"@
            ||| w == "web-dl"@
            ||| w == "webdl"@
            ||| w == "webrip"@
            ||| w == "hdtv"@
            ||| w == "dvdrip"@
            ||| w == "hdrip"@
            ||| w == "dsnp"@
            ||| w == "amzn"@
            ||| w == "atvp"@
            ||| w == "nf"@
            ||| w == "hulu"@
            ||| w == "adn"@
            ||| w == "x264"@
            ||| w == "x265"@
            ||| w == "h264"@
            ||| w == "h265"@
            ||| w == "hevc"@
            ||| w == "avc"@
            ||| w == "10bit"@
            ||| w == "10-bit"@
            ||| w == "8bit"@
            ||| w == "8-bit"@
            ||| w == "aac"@
            ||| w == "ac3"@
            ||| w == "flac"@
            ||| w == "dts"@
            ||| w == "dd5"@
            ||| w == "ddp"@
            ||| w == "ddp5"@
            ||| w == "ddp7"@
            ||| w == "atmos"@
            ||| w == "mp3"@
            ||| w == "opus"@
            ||| w == "5.1"@
            ||| w == "7.1"@
            ||| w == "2.0"@
            ||| w == "multi"@
            ||| w == "multisub"@
            ||| w == "multi-sub"@
            ||| w == "multi-subs"@
            ||| w == "vostfr"@
            ||| w == "dual-audio"@
            ||| w == "dualaudio"@
            ||| w == "sub"@
            ||| w == "subs"@
            ||| w == "subbed"@
            ||| w == "mkv"@
            ||| w == "mp4"@
            ||| w == "avi"@
            ||| w == "ts"@
            ||| w == "m4v"@
            ||| w == "proper"@
            ||| w == "repack"@
            ||| w == "internal"@
            ||| w == "limited"@
            ||| w == "extended"@
            ||| w == "uncut"@
            ||| w == "directors"@
            ||| w == "remastered"@
            ||| w == "anniversary"@
            ||| w == "ova"@
            ||| w == "oad"@
            ||| w == "ona"@
            ||| w == "movie"@
        },
{
}

/// What is made of a release title: the title that was found in it, the first year
/// that it names, and its kind, which is read without what stands in brackets.
pub proof fn cleaned_title_tells_year_and_kind(
    raw: &str,
    title: String,
    r: CleanedTitle,
    rest: String,
    year: Option<u16>,
)
    requires
        call_ensures(clean_torrent_title, (raw, title), r),
        call_ensures(tokenize_and_filter, (raw, year), rest),
    ensures
        r.title@ == title@,
        r.year matches Some(y) ==> title_year(raw@) == Some(y as nat),
        r.year is None ==> title_year(raw@) is None,
        title_year(raw@) == first_year(text::words(raw@, CharClass::Alnum)),
        r.kind == title_kind(without_extension(unbracketed(raw@))),
        rest@ == text::trim(
            text::join(
                text::words(raw@, CharClass::AlnumOrApostrophe).filter(
                    |w: Seq<char>| is_title_word(w, year),
                ),
                " "@,
            ),
        ),
{
    reveal_strlit(" ");
    assert(" "@ =~= seq![' ']);
    title_words_are_what_is_left(
        text::words(raw@, CharClass::AlnumOrApostrophe),
        year,
        Seq::empty(),
    );
}

/// Without an episode number at its end a title only loses its markers, and the
/// white space round it.
pub proof fn other_titles_lose_their_markers(s: Seq<char>, i: int)
    ensures
        !text::contains(text::trim(s), " - "@) ==> without_episode(s) == text::trim(
            unmarked(text::trim(s)),
        ),
        text::is_last_occurrence(text::trim(s), " - "@, Some(i)) && !is_episode_number(
            text::trim(s).skip(i + 3),
        ) ==> without_episode(s) == text::trim(unmarked(text::trim(s))),
{
    let t = text::trim(s);
    if !text::contains(t, " - "@) {
        text::lemma_last_unique(t, " - "@, None);
    }
    if text::is_last_occurrence(t, " - "@, Some(i)) {
        text::lemma_last_unique(t, " - "@, Some(i));
    }
}

/// An `s` with one digit, or with three or more and no `e` after them, is no marker
/// and stays.
pub proof fn other_numbers_stay(c: char, d: Seq<char>, rest: Seq<char>)
    requires
        c == 's' || c == 'S',
        number::all_digits(d),
        d.len() == 1 || d.len() >= 3,
        rest.len() > 0 ==> !CharClass::DigitOrE.contains(rest[0]),
    ensures
        unmarked(seq![c] + d + rest) == seq![c] + d + unmarked(rest),
{
    let s = seq![c] + d + rest;
    let end = d + rest;
    assert(s[0] == c);
    assert(s[1] == d[0]);
    assert(text::is_digit(d[0]));
    assert(s.skip(1) == end);
    assert forall|i: int| 0 <= i < d.len() implies CharClass::DigitOrE.contains(
        #[trigger] end[i],
    ) by {
        assert(end[i] == d[i]);
    }
    if rest.len() > 0 {
        assert(end[d.len() as int] == rest[0]);
    }
    text::lemma_run_len(end, CharClass::DigitOrE, d.len() as int);
    let n = 1 + d.len() as int;
    let probe = s.take(n);
    assert(probe == seq![c] + d);
    assert(probe.skip(1) == d);
    lemma_digit_run(d, Seq::empty());
    assert(d + Seq::<char>::empty() == d);
    assert(probe.skip(n).len() == 0);
    assert(!is_marker(probe));
    assert(s.skip(n) == rest);
}

} // verus!
