use tribler_feeder::number::{read_i64, read_u16, read_u64, write_i64, write_u64};
use tribler_feeder::text::{
    blank, chars_of, eq_ignoring_case, find, find_last, has, joined, split_words, trimmed_string,
    CharClass,
};
use tribler_feeder::title::{
    clean_torrent_title, detect_kind, extract_year, has_trailing_episode_number, strip_bracketed,
    strip_episode_markers, strip_file_extension, tokenize_and_filter,
};
use tribler_feeder::tmdb::TmdbKind;

#[test]
fn brackets_are_dropped() {
    assert_eq!(strip_bracketed("[Group] Show - 117 [1080p].mkv"), " Show - 117 .mkv");
    assert_eq!(strip_bracketed("a (b [c) d] e"), "a  e");
    assert_eq!(strip_bracketed("a] b)"), "a] b)");
    assert_eq!(strip_bracketed("(a]b"), "]");
    assert_eq!(strip_bracketed("[a)b"), ")");
    assert_eq!(strip_bracketed("[a)b] (c]d"), " ]");
    assert_eq!(strip_bracketed("((a]b)"), "");
    assert_eq!(strip_bracketed("x [a)b] y"), "x  y");
    assert_eq!(strip_bracketed("open [never closed"), "open ");
    let once = strip_bracketed("x (y) ] z");
    assert_eq!(strip_bracketed(&once), once);
}

#[test]
fn extensions_are_dropped() {
    assert_eq!(strip_file_extension(" Show.MKV "), "Show");
    assert_eq!(strip_file_extension("a.webm"), "a");
    assert_eq!(strip_file_extension("a.ts"), "a");
    assert_eq!(strip_file_extension("a.m4v"), "a");
    assert_eq!(strip_file_extension(".mp4"), "");
    assert_eq!(strip_file_extension("a.mov"), "a.mov");
    assert_eq!(strip_file_extension("a.mkv.mkv"), "a.mkv");
}

#[test]
fn kinds_of_titles() {
    for tv in [
        "Show S01E02",
        "show.s1",
        "Show Season Two",
        "Show - 117",
        "Show - 12v2",
        "x.S01E123.y",
        "Show Ep05",
        "show.ep7.mkv",
        "Show - 0117V12 ",
    ] {
        assert_eq!(detect_kind(tv), TmdbKind::Tv, "{tv}");
    }
    for movie in ["Movie 2020", "S123 Movie", "Show s01x02", "Seasons", "A - 12345", "A -5", "se01"] {
        assert_eq!(detect_kind(movie), TmdbKind::Movie, "{movie}");
    }
    for movie in ["Ep Movie", "Episode5", "A - 12 Monkeys", "A - 12v", "A - 12v2x", "A - v2"] {
        assert_eq!(detect_kind(movie), TmdbKind::Movie, "{movie}");
    }
    assert!(has_trailing_episode_number(" A - B - 0007 "));
    assert!(!has_trailing_episode_number("A - B"));
    assert!(!has_trailing_episode_number("A - 12 Monkeys"));
    assert!(!has_trailing_episode_number(""));
}

#[test]
fn years_of_titles() {
    assert_eq!(extract_year("Movie (2023) 1080p"), Some(2023));
    assert_eq!(extract_year("2001 A Space Odyssey 1968"), Some(2001));
    assert_eq!(extract_year("Blade Runner 2149 1982"), Some(1982));
    assert_eq!(extract_year("1899x"), None);
    assert_eq!(extract_year("1899 2100"), None);
    assert_eq!(extract_year("1900"), Some(1900));
}

#[test]
fn episode_markers_are_dropped() {
    assert_eq!(strip_episode_markers("Show - 117"), "Show");
    assert_eq!(strip_episode_markers("Show - 12v2"), "Show");
    assert_eq!(strip_episode_markers("Show - v"), "Show - v");
    assert_eq!(strip_episode_markers("Show S01E02 x"), "Show  x");
    assert_eq!(strip_episode_markers("Show s01"), "Show");
    assert_eq!(strip_episode_markers("Show S1"), "Show S1");
    assert_eq!(strip_episode_markers("S1E2"), "S1E2");
    assert_eq!(strip_episode_markers("S123"), "S123");
    assert_eq!(strip_episode_markers("Show S01E"), "Show S01E");
    assert_eq!(strip_episode_markers("Show S01E02E03"), "Show");
    assert_eq!(strip_episode_markers("Show S100E07"), "Show");
    assert_eq!(strip_episode_markers("Show - 12345"), "Show - 12345");
    assert_eq!(strip_episode_markers("Show - v2"), "Show - v2");
    assert_eq!(strip_episode_markers(" Seven "), "Seven");
}

#[test]
fn release_tags_are_dropped() {
    assert_eq!(
        tokenize_and_filter("The.Movie's.Name.2020.1080p.BluRay.x264", Some(2020)),
        "The Movie's Name"
    );
    assert_eq!(tokenize_and_filter("Show 12 117 HDTV", None), "Show 12");
    assert_eq!(tokenize_and_filter("1080p mkv", None), "");
}

#[test]
fn cleaned_titles() {
    let c = clean_torrent_title("[G] Show (2019) - 05 [1080p].mkv", "Show".to_string());
    assert_eq!(c.title, "Show");
    assert_eq!(c.year, Some(2019));
    assert_eq!(c.kind, TmdbKind::Tv);
    let m = clean_torrent_title("Movie.2020.mkv", "Movie".to_string());
    assert_eq!((m.year, m.kind), (Some(2020), TmdbKind::Movie));
}

#[test]
fn numerals_read_back() {
    for n in [0u64, 9, 10, 99, 100, u64::MAX] {
        assert_eq!(write_u64(n), n.to_string());
        assert_eq!(read_u64(&write_u64(n)), Some(n));
    }
    for n in [0i64, -1, 42, i64::MAX, i64::MIN] {
        assert_eq!(write_i64(n), n.to_string());
        assert_eq!(read_i64(&write_i64(n)), Some(n));
    }
    for s in ["", "+", "-", "1 ", "18446744073709551616", "x", "--1", "+-1"] {
        assert_eq!(read_u64(s), s.parse::<u64>().ok());
        assert_eq!(read_i64(s), s.parse::<i64>().ok());
    }
    for s in ["+7", "007", "-0", "9223372036854775808", "-9223372036854775808", "-9223372036854775809"] {
        assert_eq!(read_u64(s), s.parse::<u64>().ok(), "{s}");
        assert_eq!(read_i64(s), s.parse::<i64>().ok(), "{s}");
    }
    assert_eq!(read_u16(&chars_of("65535")), Some(65535));
    assert_eq!(read_u16(&chars_of("65536")), None);
}

#[test]
fn text_matches_the_standard_library() {
    for s in ["", "  a b  ", "\u{3000}x\u{85}", "\u{2003}", "a\u{200b}", "\tq\r\n"] {
        assert_eq!(trimmed_string(s), s.trim());
        assert_eq!(blank(s), s.trim().is_empty());
    }
    assert!(eq_ignoring_case("ViDeO", "video"));
    assert!(!eq_ignoring_case("É", "é"));
    let cs = chars_of("abcabc");
    assert_eq!(find(&cs, "bc"), Some(1));
    assert_eq!(find_last(&cs, "bc"), Some(4));
    assert_eq!(find(&cs, ""), Some(0));
    assert_eq!(find_last(&cs, "x"), None);
    assert!(has(&cs, "cab"));
    let ws = split_words(&chars_of("a-b  été9"), CharClass::UnicodeAlnum);
    assert_eq!(joined(&ws, '|'), "a|b|été9");
    let ws = split_words(&chars_of("été"), CharClass::Alnum);
    assert_eq!(joined(&ws, '|'), "t");
}

#[test]
fn white_space_matches_for_every_character() {
    for c in '\u{0}'..='\u{ffff}' {
        let s = c.to_string();
        assert_eq!(blank(&s), s.trim().is_empty(), "{}", c as u32);
    }
}
