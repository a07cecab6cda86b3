//! Text primitives over sequences of characters: trimming, splitting into
//! words, ASCII case folding and substring search.

use vstd::prelude::*;

verus! {

/// `String::push`: appends one character to the end of the string.
pub assume_specification[ String::push ](s: &mut String, c: char)
    ensures
        final(s)@ == old(s)@.push(c),
;

/// Whether `char::is_alphanumeric` holds of `c` (the Unicode derived property
/// `Alphabetic` or one of the numeric general categories).
pub uninterp spec fn unicode_alphanumeric(c: char) -> bool;

/// `char::is_alphanumeric`: a fixed property of the character.
pub assume_specification[ char::is_alphanumeric ](c: char) -> (r: bool)
    ensures
        r == unicode_alphanumeric(c),
;

/// The Unicode lowercase equivalent of a text, as `str::to_lowercase` gives it.
pub uninterp spec fn unicode_lowercase(s: Seq<char>) -> Seq<char>;

/// `str::to_lowercase`: the Unicode lowercase equivalent, which depends on the
/// text alone.
pub assume_specification[ str::to_lowercase ](s: &str) -> (r: String)
    ensures
        r@ == unicode_lowercase(s@),
;

/// An ASCII digit.
pub open spec fn is_digit(c: char) -> bool {
    '0' <= c <= '9'
}

/// An ASCII letter or digit.
pub open spec fn is_alnum(c: char) -> bool {
    is_digit(c) || 'a' <= c <= 'z' || 'A' <= c <= 'Z'
}

/// A character with the Unicode property `White_Space`.
pub open spec fn is_space(c: char) -> bool {
    ||| '\u{9}' <= c <= '\u{d}'
    ||| c == ' '
    ||| c == '\u{85}'
    ||| c == '\u{a0}'
    ||| c == '\u{1680}'
    ||| '\u{2000}' <= c <= '\u{200a}'
    ||| c == '\u{2028}'
    ||| c == '\u{2029}'
    ||| c == '\u{202f}'
    ||| c == '\u{205f}'
    ||| c == '\u{3000}'
}

/// A set of characters that texts are trimmed of or split into.
#[derive(Clone, Copy, PartialEq, Eq, Debug)]
pub enum CharClass {
    /// Unicode white space.
    Space,
    /// The character `/`.
    Slash,
    /// ASCII letters and digits.
    Alnum,
    /// ASCII letters, digits and the apostrophe.
    AlnumOrApostrophe,
    /// Unicode letters and digits.
    UnicodeAlnum,
    /// ASCII digits.
    Digit,
    /// ASCII digits and the letter `e` in either case.
    DigitOrE,
}

impl CharClass {
    /// Membership of `c` in the class.
    pub open spec fn contains(self, c: char) -> bool {
        match self {
            CharClass::Space => is_space(c),
            CharClass::Slash => c == '/',
            CharClass::Alnum => is_alnum(c),
            CharClass::AlnumOrApostrophe => is_alnum(c) || c == '\'',
            CharClass::UnicodeAlnum => unicode_alphanumeric(c),
            CharClass::Digit => is_digit(c),
            CharClass::DigitOrE => is_digit(c) || c == 'e' || c == 'E',
        }
    }

    /// Tests whether `c` belongs to the class.
    pub fn has(self, c: char) -> (r: bool)
        ensures
            r == self.contains(c),
    {
        match self {
            CharClass::Space => is_space_char(c),
            CharClass::Slash => c == '/',
            CharClass::Alnum => is_alnum_char(c),
            CharClass::AlnumOrApostrophe => is_alnum_char(c) || c == '\'',
            CharClass::UnicodeAlnum => c.is_alphanumeric(),
            CharClass::Digit => is_digit_char(c),
            CharClass::DigitOrE => is_digit_char(c) || c == 'e' || c == 'E',
        }
    }
}

/// Tests for an ASCII digit.
pub fn is_digit_char(c: char) -> (r: bool)
    ensures
        r == is_digit(c),
{
    '0' <= c && c <= '9'
}

/// Tests for an ASCII letter or digit.
pub fn is_alnum_char(c: char) -> (r: bool)
    ensures
        r == is_alnum(c),
{
    is_digit_char(c) || ('a' <= c && c <= 'z') || ('A' <= c && c <= 'Z')
}

/// Tests for Unicode white space.
pub fn is_space_char(c: char) -> (r: bool)
    ensures
        r == is_space(c),
{
    ('\u{9}' <= c && c <= '\u{d}') || c == ' ' || c == '\u{85}' || c == '\u{a0}' || c == '\u{1680}'
        || ('\u{2000}' <= c && c <= '\u{200a}') || c == '\u{2028}' || c == '\u{2029}' || c
        == '\u{202f}' || c == '\u{205f}' || c == '\u{3000}'
}

/// The ASCII lowercase form of one character.
pub open spec fn lower_char(c: char) -> char {
    if 'A' <= c <= 'Z' {
        ((c as int) + 32) as char
    } else {
        c
    }
}

/// The ASCII lowercase form of a text: letters `A` to `Z` become `a` to `z`.
pub open spec fn lower(s: Seq<char>) -> Seq<char> {
    Seq::new(s.len(), |i: int| lower_char(s[i]))
}

/// Equality up to ASCII case.
pub open spec fn same_ignoring_case(a: Seq<char>, b: Seq<char>) -> bool {
    lower(a) == lower(b)
}

/// The text without its longest prefix of characters in `class`.
pub open spec fn trim_start(s: Seq<char>, class: CharClass) -> Seq<char>
    decreases s.len(),
{
    if s.len() > 0 && class.contains(s[0]) {
        trim_start(s.skip(1), class)
    } else {
        s
    }
}

/// The text without its longest suffix of characters in `class`.
pub open spec fn trim_end(s: Seq<char>, class: CharClass) -> Seq<char>
    decreases s.len(),
{
    if s.len() > 0 && class.contains(s.last()) {
        trim_end(s.drop_last(), class)
    } else {
        s
    }
}

/// The text without leading and trailing white space.
pub open spec fn trim(s: Seq<char>) -> Seq<char> {
    trim_end(trim_start(s, CharClass::Space), CharClass::Space)
}

/// Nothing but white space.
pub open spec fn is_blank(s: Seq<char>) -> bool {
    forall|i: int| 0 <= i < s.len() ==> is_space(#[trigger] s[i])
}

/// Length of the longest prefix of characters in `class`.
pub open spec fn run_len(s: Seq<char>, class: CharClass) -> nat
    decreases s.len(),
{
    if s.len() > 0 && class.contains(s[0]) {
        1 + run_len(s.skip(1), class)
    } else {
        0
    }
}

/// The maximal non-empty runs of characters in `class`, from left to right.
pub open spec fn words(s: Seq<char>, class: CharClass) -> Seq<Seq<char>>
    decreases s.len(),
{
    if s.len() == 0 {
        Seq::empty()
    } else if !class.contains(s[0]) {
        words(s.skip(1), class)
    } else {
        let n = run_len(s, class);
        if n <= s.len() && n > 0 {
            seq![s.take(n as int)] + words(s.skip(n as int), class)
        } else {
            Seq::empty()
        }
    }
}

/// `p` occurs in `s` at position `i`.
pub open spec fn occurs_at(s: Seq<char>, p: Seq<char>, i: int) -> bool {
    0 <= i <= s.len() - p.len() && s.subrange(i, i + p.len()) == p
}

/// `p` occurs in `s`.
pub open spec fn contains(s: Seq<char>, p: Seq<char>) -> bool {
    exists|i: int| occurs_at(s, p, i)
}

/// `s` ends with `p`.
pub open spec fn ends_with(s: Seq<char>, p: Seq<char>) -> bool {
    occurs_at(s, p, s.len() - p.len())
}

/// `s` begins with `p`.
pub open spec fn starts_with(s: Seq<char>, p: Seq<char>) -> bool {
    occurs_at(s, p, 0)
}

/// `r` is the position of the last occurrence of `p` in `s`, if there is one.
pub open spec fn is_last_occurrence(s: Seq<char>, p: Seq<char>, r: Option<int>) -> bool {
    match r {
        Some(i) => occurs_at(s, p, i) && forall|j: int| i < j ==> !occurs_at(s, p, j),
        None => !contains(s, p),
    }
}

/// Position of the last occurrence of `p` in `s`.
pub open spec fn last_occurrence(s: Seq<char>, p: Seq<char>) -> Option<int> {
    choose|r: Option<int>| is_last_occurrence(s, p, r)
}

/// `r` is the position of the first occurrence of `p` in `s`, if there is one.
pub open spec fn is_first_occurrence(s: Seq<char>, p: Seq<char>, r: Option<int>) -> bool {
    match r {
        Some(i) => occurs_at(s, p, i) && forall|j: int| j < i ==> !occurs_at(s, p, j),
        None => !contains(s, p),
    }
}

/// Position of the first occurrence of `p` in `s`.
pub open spec fn first_occurrence(s: Seq<char>, p: Seq<char>) -> Option<int> {
    choose|r: Option<int>| is_first_occurrence(s, p, r)
}

/// The pieces with `sep` between each two.
pub open spec fn join(pieces: Seq<Seq<char>>, sep: Seq<char>) -> Seq<char>
    decreases pieces.len(),
{
    if pieces.len() == 0 {
        Seq::empty()
    } else if pieces.len() == 1 {
        pieces[0]
    } else {
        join(pieces.drop_last(), sep) + sep + pieces.last()
    }
}

/// The text with every `from` turned into `to`.
pub open spec fn replaced(s: Seq<char>, from: char, to: char) -> Seq<char> {
    Seq::new(
        s.len(),
        |i: int|
            if s[i] == from {
                to
            } else {
                s[i]
            },
    )
}

/// The characters of `s`, in order.
pub fn chars_of(s: &str) -> (r: Vec<char>)
    ensures
        r@ == s@,
{
    let mut out: Vec<char> = Vec::new();
    for c in it: s.chars()
        invariant
            it.seq() == s@,
            out@ == s@.take(it.index()),
    {
        out.push(c);
    }
    out
}

/// The string made of `cs`.
pub fn string_of(cs: &[char]) -> (r: String)
    ensures
        r@ == cs@,
{
    let mut out = String::new();
    let n: usize = cs.len();
    let mut i: usize = 0;
    while i < n
        invariant
            n == cs@.len(),
            i <= n,
            out@ == cs@.take(i as int),
        decreases n - i,
    {
        out.push(cs[i]);
        i += 1;
    }
    out
}

/// An owned copy of `s`.
pub fn owned(s: &str) -> (r: String)
    ensures
        r@ == s@,
{
    let mut out = String::new();
    push_str(&mut out, s);
    out
}

/// Appends `piece` to `out`.
pub fn push_str(out: &mut String, piece: &str)
    ensures
        final(out)@ == old(out)@ + piece@,
{
    let ghost before = out@;
    for c in it: piece.chars()
        invariant
            it.seq() == piece@,
            out@ == before + piece@.take(it.index()),
    {
        out.push(c);
    }
}

/// Appends the characters of `piece` to `out`.
pub fn push_chars(out: &mut String, piece: &[char])
    ensures
        final(out)@ == old(out)@ + piece@,
{
    let ghost before = out@;
    let n: usize = piece.len();
    let mut i: usize = 0;
    while i < n
        invariant
            n == piece@.len(),
            i <= n,
            out@ == before + piece@.take(i as int),
        decreases n - i,
    {
        out.push(piece[i]);
        i += 1;
    }
}

/// Tests two character slices for equality.
pub fn chars_eq(x: &[char], y: &[char]) -> (r: bool)
    ensures
        r == (x@ == y@),
{
    if x.len() != y.len() {
        return false;
    }
    let n: usize = x.len();
    let mut i: usize = 0;
    while i < n
        invariant
            n == x@.len(),
            n == y@.len(),
            i <= n,
            x@.take(i as int) == y@.take(i as int),
        decreases n - i,
    {
        if x[i] != y[i] {
            return false;
        }
        i += 1;
    }
    assert(x@ == x@.take(n as int));
    assert(y@ == y@.take(n as int));
    true
}

/// Tests two texts for equality.
pub fn str_eq(a: &str, b: &str) -> (r: bool)
    ensures
        r == (a@ == b@),
{
    let x = chars_of(a);
    let y = chars_of(b);
    chars_eq(&x, &y)
}

/// Tests a character slice for being the text `b`.
pub fn chars_are(x: &[char], b: &str) -> (r: bool)
    ensures
        r == (x@ == b@),
{
    let y = chars_of(b);
    chars_eq(x, &y)
}

/// The ASCII lowercase form of one character.
pub fn lowered_char(c: char) -> (r: char)
    ensures
        r == lower_char(c),
{
    if 'A' <= c && c <= 'Z' {
        ((c as u8) + 32) as char
    } else {
        c
    }
}

/// The ASCII lowercase form of a text.
pub fn lowered(cs: &[char]) -> (r: Vec<char>)
    ensures
        r@ == lower(cs@),
{
    let mut out: Vec<char> = Vec::new();
    let n: usize = cs.len();
    let mut i: usize = 0;
    while i < n
        invariant
            n == cs@.len(),
            i <= n,
            out@ == lower(cs@).take(i as int),
        decreases n - i,
    {
        out.push(lowered_char(cs[i]));
        i += 1;
    }
    out
}

/// Tests two texts for equality up to ASCII case.
pub fn eq_ignoring_case(a: &str, b: &str) -> (r: bool)
    ensures
        r == same_ignoring_case(a@, b@),
{
    let x = lowered(&chars_of(a));
    let y = lowered(&chars_of(b));
    chars_eq(&x, &y)
}

/// Drops the longest prefix of characters in `class`.
pub fn without_prefix<'a>(cs: &'a [char], class: CharClass) -> (r: &'a [char])
    ensures
        r@ == trim_start(cs@, class),
        r@.len() <= cs@.len(),
{
    let n: usize = cs.len();
    let mut i: usize = 0;
    assert(cs@.skip(0) == cs@);
    while i < n && class.has(cs[i])
        invariant
            n == cs@.len(),
            i <= n,
            trim_start(cs@, class) == trim_start(cs@.skip(i as int), class),
        decreases n - i,
    {
        assert(cs@.skip(i as int).skip(1) == cs@.skip(i + 1));
        i += 1;
    }
    assert(cs@.skip(i as int) == cs@.subrange(i as int, n as int));
    &cs[i..n]
}

/// Drops the longest suffix of characters in `class`.
pub fn without_suffix<'a>(cs: &'a [char], class: CharClass) -> (r: &'a [char])
    ensures
        r@ == trim_end(cs@, class),
        r@.len() <= cs@.len(),
{
    let mut n: usize = cs.len();
    assert(cs@.take(n as int) == cs@);
    while n > 0 && class.has(cs[n - 1])
        invariant
            n <= cs@.len(),
            trim_end(cs@, class) == trim_end(cs@.take(n as int), class),
        decreases n,
    {
        assert(cs@.take(n as int).drop_last() == cs@.take(n - 1));
        n -= 1;
    }
    assert(cs@.take(n as int) == cs@.subrange(0, n as int));
    &cs[0..n]
}

/// Drops leading and trailing white space.
pub fn trimmed<'a>(cs: &'a [char]) -> (r: &'a [char])
    ensures
        r@ == trim(cs@),
        r@.len() <= cs@.len(),
{
    without_suffix(without_prefix(cs, CharClass::Space), CharClass::Space)
}

/// A copy of `s` without leading and trailing white space.
pub fn trimmed_string(s: &str) -> (r: String)
    ensures
        r@ == trim(s@),
{
    let cs = chars_of(s);
    string_of(trimmed(&cs))
}

/// Tests for a text with nothing but white space.
pub fn blank(s: &str) -> (r: bool)
    ensures
        r == is_blank(s@),
        r == (trim(s@).len() == 0),
{
    let cs = chars_of(s);
    let t = trimmed(&cs);
    proof {
        lemma_trim_blank(s@);
    }
    t.len() == 0
}

/// A text trims to nothing exactly when it is all white space.
pub proof fn lemma_trim_blank(s: Seq<char>)
    ensures
        is_blank(s) == (trim(s).len() == 0),
{
    lemma_trim_start_shape(s);
    lemma_trim_end_shape(trim_start(s, CharClass::Space));
    let t = trim_start(s, CharClass::Space);
    if t.len() > 0 {
        assert(!is_space(t[0]));
        assert(s[s.len() - t.len()] == t[0]);
        if trim(s).len() == 0 {
            assert(is_space(t[0]));
        }
    } else {
        assert forall|i: int| 0 <= i < s.len() implies is_space(#[trigger] s[i]) by {}
    }
}

proof fn lemma_trim_start_shape(s: Seq<char>)
    ensures
        ({
            let t = trim_start(s, CharClass::Space);
            &&& t.len() <= s.len()
            &&& t == s.skip(s.len() - t.len())
            &&& t.len() > 0 ==> !is_space(t[0])
            &&& forall|i: int| 0 <= i < s.len() - t.len() ==> is_space(#[trigger] s[i])
        }),
    decreases s.len(),
{
    if s.len() > 0 && is_space(s[0]) {
        let u = s.skip(1);
        lemma_trim_start_shape(u);
        let t = trim_start(s, CharClass::Space);
        assert forall|i: int| 0 <= i < s.len() - t.len() implies is_space(#[trigger] s[i]) by {
            if i > 0 {
                assert(u[i - 1] == s[i]);
            }
        }
        assert(t == s.skip(s.len() - t.len()));
    } else {
        assert(s == s.skip(0));
    }
}

proof fn lemma_trim_end_shape(s: Seq<char>)
    ensures
        ({
            let t = trim_end(s, CharClass::Space);
            &&& t.len() <= s.len()
            &&& t == s.take(t.len() as int)
            &&& forall|i: int| t.len() <= i < s.len() ==> is_space(#[trigger] s[i])
        }),
    decreases s.len(),
{
    if s.len() > 0 && is_space(s.last()) {
        let u = s.drop_last();
        lemma_trim_end_shape(u);
        let t = trim_end(s, CharClass::Space);
        assert forall|i: int| t.len() <= i < s.len() implies is_space(#[trigger] s[i]) by {
            if i < u.len() {
                assert(u[i] == s[i]);
            }
        }
        assert(t == s.take(t.len() as int));
    } else {
        assert(s == s.take(s.len() as int));
    }
}

proof fn lemma_trim_start_lower(s: Seq<char>)
    ensures
        trim_start(lower(s), CharClass::Space) == lower(trim_start(s, CharClass::Space)),
    decreases s.len(),
{
    if s.len() > 0 && is_space(s[0]) {
        lemma_trim_start_lower(s.skip(1));
        assert(lower(s).skip(1) == lower(s.skip(1)));
    }
}

proof fn lemma_trim_end_lower(s: Seq<char>)
    ensures
        trim_end(lower(s), CharClass::Space) == lower(trim_end(s, CharClass::Space)),
    decreases s.len(),
{
    if s.len() > 0 && is_space(s.last()) {
        lemma_trim_end_lower(s.drop_last());
        assert(lower(s).drop_last() == lower(s.drop_last()));
    }
}

/// Trimming and ASCII case folding commute.
pub proof fn lemma_trim_lower(s: Seq<char>)
    ensures
        trim(lower(s)) == lower(trim(s)),
{
    lemma_trim_start_lower(s);
    lemma_trim_end_lower(trim_start(s, CharClass::Space));
}

/// The views of a list of character vectors.
pub open spec fn views(v: Seq<Vec<char>>) -> Seq<Seq<char>> {
    Seq::new(v.len(), |i: int| v[i]@)
}

/// The views of a list of strings.
pub open spec fn string_views(v: Seq<String>) -> Seq<Seq<char>> {
    Seq::new(v.len(), |i: int| v[i]@)
}

/// A run ends where the class does, or the text.
pub proof fn lemma_run_len(s: Seq<char>, class: CharClass, n: int)
    requires
        0 <= n <= s.len(),
        forall|i: int| 0 <= i < n ==> class.contains(#[trigger] s[i]),
        n == s.len() || !class.contains(s[n]),
    ensures
        run_len(s, class) == n,
    decreases s.len(),
{
    if n > 0 {
        let u = s.skip(1);
        assert forall|i: int| 0 <= i < n - 1 implies class.contains(#[trigger] u[i]) by {
            assert(u[i] == s[i + 1]);
        }
        lemma_run_len(u, class, n - 1);
    }
}

/// Length of the longest prefix of characters in `class`.
pub fn run_length(cs: &[char], class: CharClass) -> (r: usize)
    ensures
        r == run_len(cs@, class),
        r <= cs@.len(),
{
    let n: usize = cs.len();
    let mut i: usize = 0;
    while i < n && class.has(cs[i])
        invariant
            n == cs@.len(),
            i <= n,
            forall|j: int| 0 <= j < i ==> class.contains(#[trigger] cs@[j]),
        decreases n - i,
    {
        i += 1;
    }
    proof {
        lemma_run_len(cs@, class, i as int);
    }
    i
}

/// Splits a text into its maximal non-empty runs of characters in `class`.
pub fn split_words(cs: &[char], class: CharClass) -> (r: Vec<Vec<char>>)
    ensures
        views(r@) == words(cs@, class),
{
    let mut out: Vec<Vec<char>> = Vec::new();
    let n: usize = cs.len();
    let mut i: usize = 0;
    assert(cs@.skip(0) == cs@);
    while i < n
        invariant
            n == cs@.len(),
            i <= n,
            words(cs@, class) == views(out@) + words(cs@.skip(i as int), class),
        decreases n - i,
    {
        let ghost rest = cs@.skip(i as int);
        if !class.has(cs[i]) {
            assert(rest.skip(1) == cs@.skip(i + 1));
            i += 1;
        } else {
            let start: usize = i;
            let mut word: Vec<char> = Vec::new();
            while i < n && class.has(cs[i])
                invariant
                    n == cs@.len(),
                    start <= i <= n,
                    word@ == cs@.subrange(start as int, i as int),
                    forall|j: int| start <= j < i ==> class.contains(#[trigger] cs@[j]),
                decreases n - i,
            {
                word.push(cs[i]);
                i += 1;
            }
            proof {
                let len = i - start;
                assert forall|j: int| 0 <= j < len implies class.contains(#[trigger] rest[j]) by {
                    assert(rest[j] == cs@[start + j]);
                }
                lemma_run_len(rest, class, len);
                assert(class.contains(cs@[start as int]));
                assert(rest.take(len) == word@);
                assert(rest.skip(len) == cs@.skip(i as int));
            }
            let ghost before = views(out@);
            let ghost w = word@;
            out.push(word);
            assert(views(out@) == before.push(w));
            assert(before + (seq![w] + words(cs@.skip(i as int), class)) == views(out@) + words(
                cs@.skip(i as int),
                class,
            ));
        }
    }
    assert(cs@.skip(n as int).len() == 0);
    assert(views(out@) + words(cs@.skip(n as int), class) == views(out@));
    out
}

/// Tests whether `p` occurs in `cs` at position `i`.
pub fn found_at(cs: &[char], p: &[char], i: usize) -> (r: bool)
    ensures
        r == occurs_at(cs@, p@, i as int),
{
    if p.len() > cs.len() || i > cs.len() - p.len() {
        return false;
    }
    chars_eq(&cs[i..i + p.len()], p)
}

/// Tests whether `cs` ends with the text `p`.
pub fn has_suffix(cs: &[char], p: &str) -> (r: bool)
    ensures
        r == ends_with(cs@, p@),
{
    let q = chars_of(p);
    if q.len() > cs.len() {
        return false;
    }
    found_at(cs, &q, cs.len() - q.len())
}

/// Tests whether `cs` begins with the text `p`.
pub fn has_prefix(cs: &[char], p: &str) -> (r: bool)
    ensures
        r == starts_with(cs@, p@),
{
    let q = chars_of(p);
    found_at(cs, &q, 0)
}

/// Position of the first occurrence of `p` in `cs`.
pub fn find(cs: &[char], p: &str) -> (r: Option<usize>)
    ensures
        is_first_occurrence(cs@, p@, match r { Some(i) => Some(i as int), None => None }),
        first_occurrence(cs@, p@) == (match r { Some(i) => Some(i as int), None => None::<int> }),
{
    let q = chars_of(p);
    let n: usize = cs.len();
    let mut i: usize = 0;
    while i < n
        invariant
            n == cs@.len(),
            q@ == p@,
            i <= n,
            forall|j: int| j < i ==> !occurs_at(cs@, p@, j),
        decreases n - i,
    {
        if found_at(cs, &q, i) {
            proof {
                lemma_first_unique(cs@, p@, Some(i as int));
            }
            return Some(i);
        }
        i += 1;
    }
    if found_at(cs, &q, n) {
        proof {
            lemma_first_unique(cs@, p@, Some(n as int));
        }
        Some(n)
    } else {
        proof {
            lemma_first_unique(cs@, p@, None);
        }
        None
    }
}

/// Tests whether the text `p` occurs in `cs`.
pub fn has(cs: &[char], p: &str) -> (r: bool)
    ensures
        r == contains(cs@, p@),
{
    find(cs, p).is_some()
}

/// Position of the last occurrence of `p` in `cs`.
pub fn find_last(cs: &[char], p: &str) -> (r: Option<usize>)
    ensures
        is_last_occurrence(cs@, p@, match r { Some(i) => Some(i as int), None => None }),
        last_occurrence(cs@, p@) == (match r { Some(i) => Some(i as int), None => None::<int> }),
{
    let q = chars_of(p);
    let mut i: usize = cs.len();
    while i > 0
        invariant
            i <= cs@.len(),
            q@ == p@,
            forall|j: int| i < j ==> !occurs_at(cs@, p@, j),
        decreases i,
    {
        if found_at(cs, &q, i) {
            proof {
                lemma_last_unique(cs@, p@, Some(i as int));
            }
            return Some(i);
        }
        i -= 1;
    }
    if found_at(cs, &q, 0) {
        proof {
            lemma_last_unique(cs@, p@, Some(0));
        }
        Some(0)
    } else {
        proof {
            lemma_last_unique(cs@, p@, None);
        }
        None
    }
}

/// There is only one first occurrence.
pub proof fn lemma_first_unique(s: Seq<char>, p: Seq<char>, r: Option<int>)
    requires
        is_first_occurrence(s, p, r),
    ensures
        first_occurrence(s, p) == r,
{
    let c = first_occurrence(s, p);
    assert(is_first_occurrence(s, p, c));
    if c is Some && r is Some {
        assert(!(c->0 < r->0));
        assert(!(r->0 < c->0));
    }
}

/// The first occurrence is one where there is any.
pub proof fn first_occurrence_exists(s: Seq<char>, p: Seq<char>)
    ensures
        is_first_occurrence(s, p, first_occurrence(s, p)),
{
    if contains(s, p) {
        let i = choose|i: int| occurs_at(s, p, i);
        lemma_first_below(s, p, i);
    } else {
        assert(is_first_occurrence(s, p, None));
    }
}

proof fn lemma_first_below(s: Seq<char>, p: Seq<char>, i: int)
    requires
        occurs_at(s, p, i),
    ensures
        exists|r: Option<int>| is_first_occurrence(s, p, r),
    decreases i,
{
    if exists|j: int| j < i && occurs_at(s, p, j) {
        let j = choose|j: int| j < i && occurs_at(s, p, j);
        lemma_first_below(s, p, j);
    } else {
        assert(is_first_occurrence(s, p, Some(i)));
    }
}

/// There is only one last occurrence.
pub proof fn lemma_last_unique(s: Seq<char>, p: Seq<char>, r: Option<int>)
    requires
        is_last_occurrence(s, p, r),
    ensures
        last_occurrence(s, p) == r,
{
    let c = last_occurrence(s, p);
    assert(is_last_occurrence(s, p, c));
    if c is Some && r is Some {
        assert(!(c->0 < r->0));
        assert(!(r->0 < c->0));
    }
}

/// The text with every `from` turned into `to`.
pub fn with_replaced(cs: &[char], from: char, to: char) -> (r: Vec<char>)
    ensures
        r@ == replaced(cs@, from, to),
{
    let mut out: Vec<char> = Vec::new();
    let n: usize = cs.len();
    let mut i: usize = 0;
    while i < n
        invariant
            n == cs@.len(),
            i <= n,
            out@ == replaced(cs@, from, to).take(i as int),
        decreases n - i,
    {
        let c = cs[i];
        if c == from {
            out.push(to);
        } else {
            out.push(c);
        }
        i += 1;
    }
    out
}

/// The pieces with `sep` between each two.
pub fn joined(pieces: &Vec<Vec<char>>, sep: char) -> (r: String)
    ensures
        r@ == join(views(pieces@), seq![sep]),
{
    let mut out = String::new();
    let n: usize = pieces.len();
    let mut i: usize = 0;
    while i < n
        invariant
            n == pieces@.len(),
            i <= n,
            out@ == join(views(pieces@).take(i as int), seq![sep]),
        decreases n - i,
    {
        let ghost before = out@;
        if i > 0 {
            out.push(sep);
            push_chars(&mut out, &pieces[i]);
            assert(out@ == before + seq![sep] + pieces[i as int]@);
        } else {
            push_chars(&mut out, &pieces[i]);
            assert(out@ == pieces[i as int]@);
        }
        assert(views(pieces@).take(i + 1).drop_last() == views(pieces@).take(i as int));
        i += 1;
    }
    assert(views(pieces@).take(n as int) == views(pieces@));
    out
}

proof fn lemma_run_len_shape(s: Seq<char>, class: CharClass)
    ensures
        run_len(s, class) <= s.len(),
        forall|i: int| 0 <= i < run_len(s, class) ==> class.contains(#[trigger] s[i]),
        run_len(s, class) < s.len() ==> !class.contains(s[run_len(s, class) as int]),
    decreases s.len(),
{
    if s.len() > 0 && class.contains(s[0]) {
        let u = s.skip(1);
        lemma_run_len_shape(u, class);
        assert forall|i: int| 0 <= i < run_len(s, class) implies class.contains(
            #[trigger] s[i],
        ) by {
            if i > 0 {
                assert(u[i - 1] == s[i]);
            }
        }
    }
}

/// A character outside the class ends a word and belongs to none; between such
/// characters stands one word, or nothing.
pub proof fn words_part_at_other_characters(
    a: Seq<char>,
    c: char,
    b: Seq<char>,
    w: Seq<char>,
    class: CharClass,
)
    requires
        !class.contains(c),
        forall|i: int| 0 <= i < w.len() ==> class.contains(#[trigger] w[i]),
    ensures
        words(a + seq![c] + b, class) == words(a, class) + words(b, class),
        words(w, class) == (if w.len() == 0 {
            Seq::empty()
        } else {
            seq![w]
        }),
    decreases a.len(),
{
    let s = a + seq![c] + b;
    if a.len() == 0 {
        assert(s.skip(1) == b);
        assert(words(a, class) + words(b, class) == words(b, class));
    } else if !class.contains(a[0]) {
        words_part_at_other_characters(a.skip(1), c, b, w, class);
        assert(s.skip(1) == a.skip(1) + seq![c] + b);
    } else {
        lemma_run_len_shape(a, class);
        let n = run_len(a, class) as int;
        assert forall|i: int| 0 <= i < n implies class.contains(#[trigger] s[i]) by {
            assert(s[i] == a[i]);
        }
        lemma_run_len(s, class, n);
        words_part_at_other_characters(a.skip(n), c, b, w, class);
        assert(s.skip(n) == a.skip(n) + seq![c] + b);
        assert(s.take(n) == a.take(n));
        assert(words(s, class) == words(a, class) + words(b, class));
    }
    if w.len() > 0 {
        lemma_run_len(w, class, w.len() as int);
        assert(w.take(w.len() as int) == w);
        assert(words(w.skip(w.len() as int), class) == Seq::<Seq<char>>::empty());
        assert(class.contains(w[0]));
        assert(words(w, class) =~= seq![w]);
    }
}

proof fn lemma_trims(s: Seq<char>, class: CharClass)
    ensures
        ({
            let t = trim_start(s, class);
            &&& t.len() <= s.len()
            &&& t == s.skip(s.len() - t.len())
            &&& t.len() > 0 ==> !class.contains(t[0])
            &&& forall|i: int| 0 <= i < s.len() - t.len() ==> class.contains(#[trigger] s[i])
        }),
        ({
            let t = trim_end(s, class);
            &&& t.len() <= s.len()
            &&& t == s.take(t.len() as int)
            &&& t.len() > 0 ==> !class.contains(t.last())
            &&& forall|i: int| t.len() <= i < s.len() ==> class.contains(#[trigger] s[i])
        }),
    decreases s.len(),
{
    if s.len() > 0 && class.contains(s[0]) {
        let u = s.skip(1);
        lemma_trims(u, class);
        let t = trim_start(s, class);
        assert forall|i: int| 0 <= i < s.len() - t.len() implies class.contains(
            #[trigger] s[i],
        ) by {
            if i > 0 {
                assert(u[i - 1] == s[i]);
            }
        }
        assert(t == s.skip(s.len() - t.len()));
    } else {
        assert(s == s.skip(0));
    }
    if s.len() > 0 && class.contains(s.last()) {
        let u = s.drop_last();
        lemma_trims(u, class);
        let t = trim_end(s, class);
        assert forall|i: int| t.len() <= i < s.len() implies class.contains(#[trigger] s[i]) by {
            if i < u.len() {
                assert(u[i] == s[i]);
            }
        }
        assert(t == s.take(t.len() as int));
    } else {
        assert(s == s.take(s.len() as int));
    }
}

/// Trimming takes away white space at both ends and nothing else, and leaves none
/// there. A text that begins and ends otherwise stays as it is.
pub proof fn trimming_takes_white_space_only(s: Seq<char>, i: int)
    ensures
        ({
            let skipped = s.len() - trim_start(s, CharClass::Space).len();
            &&& 0 <= skipped <= skipped + trim(s).len() <= s.len()
            &&& trim(s) == s.subrange(skipped, skipped + trim(s).len())
            &&& 0 <= i < skipped ==> is_space(s[i])
            &&& skipped + trim(s).len() <= i < s.len() ==> is_space(s[i])
            &&& trim(s).len() > 0 ==> !is_space(trim(s)[0]) && !is_space(trim(s).last())
        }),
        s.len() > 0 && !is_space(s[0]) && !is_space(s.last()) ==> trim(s) == s,
{
    lemma_trims(s, CharClass::Space);
    let t = trim_start(s, CharClass::Space);
    lemma_trims(t, CharClass::Space);
    let skipped = s.len() - t.len();
    assert(trim(s) == s.subrange(skipped, skipped + trim(s).len()));
    if skipped + trim(s).len() <= i < s.len() {
        assert(t[i - skipped] == s[i]);
    }
    if s.len() > 0 && !is_space(s[0]) && !is_space(s.last()) {
        assert(t == s);
    }
}

/// Trimming slashes takes away the slashes at that end and nothing else.
pub proof fn trimming_takes_slashes_only(s: Seq<char>, i: int)
    ensures
        ({
            let t = trim_start(s, CharClass::Slash);
            &&& t.len() <= s.len()
            &&& t == s.skip(s.len() - t.len())
            &&& t.len() > 0 ==> t[0] != '/'
            &&& 0 <= i < s.len() - t.len() ==> s[i] == '/'
        }),
        ({
            let t = trim_end(s, CharClass::Slash);
            &&& t.len() <= s.len()
            &&& t == s.take(t.len() as int)
            &&& t.len() > 0 ==> t.last() != '/'
            &&& t.len() <= i < s.len() ==> s[i] == '/'
        }),
{
    lemma_trims(s, CharClass::Slash);
}

/// Of the ASCII characters, white space is the blank, and those from the
/// horizontal tab to the carriage return.
pub proof fn ascii_white_space(c: char)
    requires
        c <= '\u{7f}',
    ensures
        is_space(c) <==> c == ' ' || c == '\t' || c == '\n' || c == '\u{b}' || c == '\u{c}' || c
            == '\r',
{
}

/// Case folding changes the letters `A` to `Z`, each to its small form, and
/// nothing else; folding again changes nothing.
pub proof fn folding_case(s: Seq<char>, i: int)
    requires
        0 <= i < s.len(),
    ensures
        lower(s).len() == s.len(),
        !('A' <= s[i] <= 'Z') ==> lower(s)[i] == s[i],
        'A' <= s[i] <= 'Z' ==> 'a' <= lower(s)[i] <= 'z' && lower(s)[i] as int - 'a' as int
            == s[i] as int - 'A' as int,
        lower(lower(s)) == lower(s),
{
    assert(lower(lower(s)) =~= lower(s));
}

/// The last occurrence is one where there is any.
pub proof fn last_occurrence_exists(s: Seq<char>, p: Seq<char>)
    ensures
        is_last_occurrence(s, p, last_occurrence(s, p)),
{
    if contains(s, p) {
        let i = choose|i: int| occurs_at(s, p, i);
        lemma_last_above(s, p, i);
    } else {
        assert(is_last_occurrence(s, p, None));
    }
}

proof fn lemma_last_above(s: Seq<char>, p: Seq<char>, i: int)
    requires
        occurs_at(s, p, i),
    ensures
        exists|r: Option<int>| is_last_occurrence(s, p, r),
    decreases s.len() - i,
{
    if exists|j: int| i < j && occurs_at(s, p, j) {
        let j = choose|j: int| i < j && occurs_at(s, p, j);
        lemma_last_above(s, p, j);
    } else {
        assert(is_last_occurrence(s, p, Some(i)));
    }
}

/// A text begins with what it was made of first, ends with what was added last,
/// and contains everything between.
pub proof fn parts_are_found(a: Seq<char>, p: Seq<char>, b: Seq<char>)
    ensures
        starts_with(p + b, p),
        ends_with(a + p, p),
        contains(a + p + b, p),
        occurs_at(a + p + b, p, a.len() as int),
{
    assert((p + b).subrange(0, p.len() as int) == p);
    assert((a + p).subrange(a.len() as int, (a + p).len() as int) == p);
    assert((a + p + b).subrange(a.len() as int, (a.len() + p.len()) as int) == p);
    assert(occurs_at(a + p + b, p, a.len() as int));
}

/// Pieces are joined with one separator between each two, and none at the ends.
pub proof fn separators_stand_between(pieces: Seq<Seq<char>>, p: Seq<char>, sep: Seq<char>)
    ensures
        join(Seq::empty(), sep) == Seq::<char>::empty(),
        join(seq![p], sep) == p,
        pieces.len() > 0 ==> join(pieces.push(p), sep) == join(pieces, sep) + sep + p,
{
    assert(pieces.push(p).drop_last() == pieces);
}

/// Replacing a character changes each of its places and no other.
pub proof fn replacing_changes_one_character(s: Seq<char>, from: char, to: char, i: int)
    requires
        0 <= i < s.len(),
    ensures
        replaced(s, from, to).len() == s.len(),
        s[i] == from ==> replaced(s, from, to)[i] == to,
        s[i] != from ==> replaced(s, from, to)[i] == s[i],
{
}

/// What the classes of characters hold.
pub proof fn classes_of_characters(c: char)
    ensures
        is_digit(c) <==> '0' <= c && c <= '9',
        is_alnum(c) <==> ('0' <= c && c <= '9') || ('a' <= c && c <= 'z') || ('A' <= c && c
            <= 'Z'),
        CharClass::Digit.contains(c) <==> is_digit(c),
        CharClass::DigitOrE.contains(c) <==> is_digit(c) || c == 'e' || c == 'E',
        CharClass::Alnum.contains(c) <==> is_alnum(c),
        CharClass::AlnumOrApostrophe.contains(c) <==> is_alnum(c) || c == '\'',
        CharClass::UnicodeAlnum.contains(c) <==> unicode_alphanumeric(c),
        CharClass::Slash.contains(c) <==> c == '/',
        CharClass::Space.contains(c) <==> is_space(c),
        c > '\u{7f}' ==> (is_space(c) <==> c == '\u{85}' || c == '\u{a0}' || c == '\u{1680}' || (
        '\u{2000}' <= c && c <= '\u{200a}') || c == '\u{2028}' || c == '\u{2029}' || c
            == '\u{202f}' || c == '\u{205f}' || c == '\u{3000}'),
{
}

/// Texts are the same without case if folding case makes them so; a blank text has
/// nothing but white space.
pub proof fn comparing_without_case(a: Seq<char>, b: Seq<char>, i: int)
    requires
        same_ignoring_case(a, b),
        0 <= i < a.len(),
    ensures
        a.len() == b.len(),
        lower(a)[i] == lower(b)[i],
        is_blank(a) ==> is_space(a[i]),
        same_ignoring_case(a, lower(a)),
{
    assert(lower(a).len() == a.len() && lower(b).len() == b.len());
    folding_case(a, i);
}

} // verus!
