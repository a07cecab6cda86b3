//! Percent-encoding of query values.

use vstd::prelude::*;

use crate::text;

verus! {

/// A byte that stands for itself in a URL component: an ASCII letter or digit,
/// or one of `-`, `.`, `_`, `~`.
pub open spec fn is_unreserved(b: u8) -> bool {
    ||| 0x30 <= b <= 0x39
    ||| 0x41 <= b <= 0x5a
    ||| 0x61 <= b <= 0x7a
    ||| b == 0x2d
    ||| b == 0x2e
    ||| b == 0x5f
    ||| b == 0x7e
}

/// The upper-case hexadecimal digit for a value under 16.
pub open spec fn hex_digit(n: int) -> char {
    if n < 10 {
        (n + 0x30) as char
    } else {
        (n + 0x37) as char
    }
}

/// The encoding of one byte: itself, or `%` and two hexadecimal digits.
pub open spec fn percent(b: u8) -> Seq<char> {
    if is_unreserved(b) {
        seq![b as char]
    } else {
        seq!['%', hex_digit(b as int / 16), hex_digit(b as int % 16)]
    }
}

/// The encoding of a byte string, byte by byte.
pub open spec fn percent_all(bytes: Seq<u8>) -> Seq<char>
    decreases bytes.len(),
{
    if bytes.len() == 0 {
        Seq::empty()
    } else {
        percent_all(bytes.drop_last()) + percent(bytes.last())
    }
}

/// The percent-encoding of a text, over its UTF-8 bytes.
pub open spec fn encoded(s: Seq<char>) -> Seq<char> {
    percent_all(vstd::utf8::encode_utf8(s))
}

fn hex_digit_char(n: u8) -> (c: char)
    requires
        n < 16,
    ensures
        c == hex_digit(n as int),
{
    if n < 10 {
        (n + 0x30) as char
    } else {
        (n + 0x37) as char
    }
}

fn unreserved(b: u8) -> (r: bool)
    ensures
        r == is_unreserved(b),
{
    (0x30 <= b && b <= 0x39) || (0x41 <= b && b <= 0x5a) || (0x61 <= b && b <= 0x7a) || b == 0x2d
        || b == 0x2e || b == 0x5f || b == 0x7e
}

/// Percent-encodes a text for use as a URL query value.
pub fn urlencode(s: &str) -> (r: String)
    ensures
        r@ == encoded(s@),
{
    let bytes = s.as_bytes();
    let n: usize = bytes.len();
    let mut out = String::new();
    let mut i: usize = 0;
    while i < n
        invariant
            n == bytes@.len(),
            i <= n,
            out@ == percent_all(bytes@.take(i as int)),
        decreases n - i,
    {
        let b: u8 = bytes[i];
        let ghost before = out@;
        if unreserved(b) {
            out.push(b as char);
        } else {
            out.push('%');
            out.push(hex_digit_char(b / 16));
            out.push(hex_digit_char(b % 16));
        }
        proof {
            assert(out@ == before + percent(b));
            assert(bytes@.take(i + 1).drop_last() == bytes@.take(i as int));
            assert(bytes@.take(i + 1).last() == b);
        }
        i += 1;
    }
    assert(bytes@.take(n as int) == bytes@);
    out
}

/// A character that a percent-encoded text may hold.
pub open spec fn is_url_safe(c: char) -> bool {
    text::is_alnum(c) || c == '-' || c == '.' || c == '_' || c == '~' || c == '%'
}

proof fn lemma_percent_safe(bytes: Seq<u8>)
    ensures
        forall|i: int| 0 <= i < percent_all(bytes).len() ==> is_url_safe(
            #[trigger] percent_all(bytes)[i],
        ),
    decreases bytes.len(),
{
    if bytes.len() > 0 {
        let init = percent_all(bytes.drop_last());
        let last = percent(bytes.last());
        lemma_percent_safe(bytes.drop_last());
        assert forall|i: int| 0 <= i < last.len() implies is_url_safe(#[trigger] last[i]) by {}
        assert forall|i: int| 0 <= i < percent_all(bytes).len() implies is_url_safe(
            #[trigger] percent_all(bytes)[i],
        ) by {
            if i < init.len() {
                assert(percent_all(bytes)[i] == init[i]);
            } else {
                assert(percent_all(bytes)[i] == last[i - init.len()]);
            }
        }
    }
}

/// An encoded text holds no character that delimits URL components: neither
/// `&`, `=`, `?`, `#`, `/`, `+` nor white space, whatever the text was.
pub proof fn encoded_text_is_url_safe(s: Seq<char>)
    ensures
        forall|i: int| 0 <= i < encoded(s).len() ==> is_url_safe(#[trigger] encoded(s)[i]),
{
    lemma_percent_safe(vstd::utf8::encode_utf8(s));
}

proof fn lemma_percent_injective(a: Seq<u8>, b: Seq<u8>)
    requires
        percent_all(a) == percent_all(b),
    ensures
        a == b,
    decreases a.len(),
{
    if a.len() == 0 || b.len() == 0 {
        if a.len() > 0 {
            assert(percent_all(a).len() > 0);
        }
        if b.len() > 0 {
            assert(percent_all(b).len() > 0);
        }
        assert(a == b);
    } else {
        let p = percent_all(a.drop_last());
        let q = percent_all(b.drop_last());
        let x = percent(a.last());
        let y = percent(b.last());
        let s = p + x;
        assert(s == q + y);
        lemma_last_piece(p, x, q, y, a.last(), b.last(), a.drop_last(), b.drop_last());
        lemma_percent_injective(a.drop_last(), b.drop_last());
        assert(a == a.drop_last().push(a.last()));
        assert(b == b.drop_last().push(b.last()));
    }
}

/// No `%` stands within the last two characters of an encoding unless it opens
/// its last group.
spec fn closed_groups(s: Seq<char>) -> bool {
    &&& s.len() >= 1 ==> s[s.len() - 1] != '%'
    &&& s.len() >= 2 ==> s[s.len() - 2] != '%'
}

proof fn lemma_closed_groups(bytes: Seq<u8>)
    ensures
        closed_groups(percent_all(bytes)),
    decreases bytes.len(),
{
    if bytes.len() > 0 {
        lemma_closed_groups(bytes.drop_last());
        let init = percent_all(bytes.drop_last());
        let last = percent(bytes.last());
        let s = init + last;
        assert(s[s.len() - 1] == last[last.len() - 1]);
        if last.len() == 1 {
            if s.len() >= 2 {
                assert(s[s.len() - 2] == init[init.len() - 1]);
            }
        } else {
            assert(s[s.len() - 2] == last[1]);
        }
    }
}

proof fn lemma_last_piece(
    p: Seq<char>,
    x: Seq<char>,
    q: Seq<char>,
    y: Seq<char>,
    a: u8,
    b: u8,
    before_a: Seq<u8>,
    before_b: Seq<u8>,
)
    requires
        p + x == q + y,
        x == percent(a),
        y == percent(b),
        p == percent_all(before_a),
        q == percent_all(before_b),
    ensures
        a == b,
        p == q,
{
    let s = p + x;
    let t = q + y;
    lemma_closed_groups(before_a);
    lemma_closed_groups(before_b);
    if x.len() == 3 && y.len() == 1 {
        assert(s[s.len() - 3] == '%');
        assert(t[t.len() - 3] == q[q.len() - 2]);
        assert(false);
    }
    if x.len() == 1 && y.len() == 3 {
        assert(t[t.len() - 3] == '%');
        assert(s[s.len() - 3] == p[p.len() - 2]);
        assert(false);
    }
    assert(x.len() == y.len());
    assert(p == s.take(p.len() as int));
    assert(q == t.take(q.len() as int));
    assert(x == s.skip(p.len() as int));
    assert(y == t.skip(q.len() as int));
    if x.len() == 1 {
        assert(x[0] == y[0]);
    } else {
        assert(x[1] == y[1]);
        assert(x[2] == y[2]);
    }
}

/// Different texts have different encodings.
pub proof fn encoding_is_injective(a: Seq<char>, b: Seq<char>)
    requires
        encoded(a) == encoded(b),
    ensures
        a == b,
{
    lemma_percent_injective(vstd::utf8::encode_utf8(a), vstd::utf8::encode_utf8(b));
    vstd::utf8::encode_utf8_decode_utf8(a);
    vstd::utf8::encode_utf8_decode_utf8(b);
}

/// Each byte is encoded apart: a letter, a digit and `-`, `.`, `_`, `~` as
/// themselves, any other byte as `%` and its two hexadecimal digits.
pub proof fn bytes_are_encoded_apart(bytes: Seq<u8>, b: u8)
    ensures
        percent_all(Seq::empty()) == Seq::<char>::empty(),
        percent_all(bytes.push(b)) == percent_all(bytes) + percent(b),
        text::is_alnum(b as char) || b as char == '-' || b as char == '.' || b as char == '_'
            || b as char == '~' ==> percent(b) == seq![b as char],
        !(text::is_alnum(b as char) || b as char == '-' || b as char == '.' || b as char == '_'
            || b as char == '~') ==> percent(b) == seq![
            '%',
            "0123456789ABCDEF"@[b as int / 16],
            "0123456789ABCDEF"@[b as int % 16],
        ],
{
    assert(bytes.push(b).drop_last() == bytes);
    reveal_strlit("0123456789ABCDEF");
}

/// A text is encoded over the bytes of its UTF-8 form.
pub proof fn texts_are_encoded_as_utf8(s: Seq<char>)
    ensures
        encoded(s) == percent_all(vstd::utf8::encode_utf8(s)),
{
}

} // verus!
