//! Percent-encoding (RFC 3986 `%XX` escapes) of UTF-8 text, and its decoding.
use vstd::prelude::*;
use vstd::utf8::{
    char_is_scalar, decode_utf8, encode_scalar, encode_utf8, encode_utf8_decode_utf8,
    encode_utf8_valid_utf8, has_width_1_encoding, is_ascii_chars, is_ascii_chars_encode_utf8,
    valid_utf8,
};
use crate::text::push_char;

verus! {

/// The value of the hexadecimal digit byte `b`, if it is one.
pub open spec fn hex_value(b: u8) -> Option<u8> {
    if 0x30 <= b && b <= 0x39 {
        Some((b - 0x30) as u8)
    } else if 0x41 <= b && b <= 0x46 {
        Some((b - 0x41 + 10) as u8)
    } else if 0x61 <= b && b <= 0x66 {
        Some((b - 0x61 + 10) as u8)
    } else {
        None
    }
}

/// The bytes that percent-decoding gives: each `%` followed by two hexadecimal digits
/// becomes the byte they spell, and every other byte stays as it is.
pub open spec fn percent_decode(b: Seq<u8>) -> Seq<u8>
    decreases b.len(),
{
    if b.len() == 0 {
        Seq::empty()
    } else if b[0] == 0x25 && b.len() >= 3 && hex_value(b[1]) is Some && hex_value(b[2]) is Some {
        seq![(hex_value(b[1])->0 * 16 + hex_value(b[2])->0) as u8] + percent_decode(
            b.subrange(3, b.len() as int),
        )
    } else {
        seq![b[0]] + percent_decode(b.drop_first())
    }
}

/// The text that decoding a URI component gives: the percent-decoded UTF-8 bytes of `s`
/// read as UTF-8, or `s` itself where those bytes are not valid UTF-8.
pub open spec fn decoded_component(s: Seq<char>) -> Seq<char> {
    let d = percent_decode(encode_utf8(s));
    if valid_utf8(d) {
        decode_utf8(d)
    } else {
        s
    }
}

/// The upper-case hexadecimal digit for `n < 16`.
pub open spec fn hex_upper(n: int) -> char {
    if n < 10 {
        (('0' as int) + n) as char
    } else {
        (('A' as int) + n - 10) as char
    }
}

/// The escape `%XX` of a byte.
pub open spec fn percent_byte(b: u8) -> Seq<char> {
    seq!['%', hex_upper(b as int / 16), hex_upper(b as int % 16)]
}

/// The bytes that a URI component keeps as they are: ASCII letters and digits and
/// `-` `_` `.` `!` `~` `*` `'` `(` `)`; a path keeps `/` too.
pub open spec fn keeps(b: u8, path: bool) -> bool {
    ||| (0x30 <= b && b <= 0x39)
    ||| (0x41 <= b && b <= 0x5a)
    ||| (0x61 <= b && b <= 0x7a)
    ||| b == 0x2d
    ||| b == 0x5f
    ||| b == 0x2e
    ||| b == 0x21
    ||| b == 0x7e
    ||| b == 0x2a
    ||| b == 0x27
    ||| b == 0x28
    ||| b == 0x29
    ||| (path && b == 0x2f)
}

/// The text for one byte: the byte itself where it is kept, its escape otherwise.
pub open spec fn encode_byte(b: u8, path: bool) -> Seq<char> {
    if keeps(b, path) {
        seq![b as char]
    } else {
        percent_byte(b)
    }
}

/// The percent-encoding of the bytes `b`.
pub open spec fn percent_encode(b: Seq<u8>, path: bool) -> Seq<char>
    decreases b.len(),
{
    if b.len() == 0 {
        Seq::empty()
    } else {
        encode_byte(b[0], path) + percent_encode(b.drop_first(), path)
    }
}

/// The percent-encoding of the UTF-8 bytes of `s`.
pub open spec fn encode_uri(s: Seq<char>, path: bool) -> Seq<char> {
    percent_encode(encode_utf8(s), path)
}

/// Encoding a sequence one byte longer adds the text of that byte at the end.
pub proof fn lemma_percent_encode_push(b: Seq<u8>, x: u8, path: bool)
    ensures
        percent_encode(b.push(x), path) == percent_encode(b, path) + encode_byte(x, path),
    decreases b.len(),
{
    if b.len() == 0 {
        assert(b.push(x).drop_first() =~= Seq::<u8>::empty());
        assert(b.push(x)[0] == x);
        assert(percent_encode(Seq::<u8>::empty(), path) =~= Seq::<char>::empty());
        assert(percent_encode(b.push(x), path) =~= encode_byte(x, path));
    } else {
        assert(b.push(x).drop_first() =~= b.drop_first().push(x));
        lemma_percent_encode_push(b.drop_first(), x, path);
        assert(percent_encode(b.push(x), path) =~= percent_encode(b, path) + encode_byte(x, path));
    }
}

/// Percent-decodes `s` and reads the bytes as UTF-8
/// (`percent_encoding::percent_decode_str(s).decode_utf8()`): the text, or `None` where
/// the decoded bytes are not valid UTF-8.
#[verifier::external_body]
fn percent_decode_utf8(s: &str) -> (r: Option<String>)
    ensures
        r is Some <==> valid_utf8(percent_decode(encode_utf8(s@))),
        r matches Some(t) ==> t@ == decode_utf8(percent_decode(encode_utf8(s@))),
{
    match percent_encoding::percent_decode_str(s).decode_utf8() {
        Ok(t) => Some(t.into_owned()),
        Err(_) => None,
    }
}

/// The escape `%XX` of a byte, with upper-case digits (`percent_encoding::percent_encode_byte`).
#[verifier::external_body]
fn escape_byte(b: u8) -> (r: &'static str)
    ensures
        r@ == percent_byte(b),
{
    percent_encoding::percent_encode_byte(b)
}

/// Decodes `%XX` escapes in `s`; where the decoded bytes are not valid UTF-8, `s` is
/// returned unchanged.
pub fn decode_uri_component(s: &str) -> (r: String)
    ensures
        r@ == decoded_component(s@),
{
    match percent_decode_utf8(s) {
        Some(d) => d,
        None => s.to_owned(),
    }
}

/// Tests whether a URI component (or, with `path`, a URI path) keeps byte `b` as it is.
pub fn keeps_byte(b: u8, path: bool) -> (r: bool)
    ensures
        r == keeps(b, path),
{
    (0x30 <= b && b <= 0x39) || (0x41 <= b && b <= 0x5a) || (0x61 <= b && b <= 0x7a) || b == 0x2d
        || b == 0x5f || b == 0x2e || b == 0x21 || b == 0x7e || b == 0x2a || b == 0x27 || b == 0x28
        || b == 0x29 || (path && b == 0x2f)
}

/// Appends the percent-encoding of the UTF-8 bytes of `s` to `out`: every byte that is not
/// kept becomes `%XX`.
pub fn push_encoded(out: &mut String, s: &str, path: bool)
    ensures
        final(out)@ == old(out)@ + encode_uri(s@, path),
{
    let bytes = s.as_bytes();
    let ghost start = out@;
    let mut i: usize = 0;
    while i < bytes.len()
        invariant
            i <= bytes@.len(),
            bytes@ == encode_utf8(s@),
            out@ == start + percent_encode(bytes@.take(i as int), path),
        decreases bytes@.len() - i,
    {
        let b = bytes[i];
        proof {
            lemma_percent_encode_push(bytes@.take(i as int), b, path);
            assert(bytes@.take(i as int).push(b) =~= bytes@.take(i + 1));
        }
        if keeps_byte(b, path) {
            push_char(out, b as char);
        } else {
            out.append(escape_byte(b));
        }
        i = i + 1;
        assert(out@ =~= start + percent_encode(bytes@.take(i as int), path));
    }
    assert(bytes@.take(i as int) =~= bytes@);
}

/// A character that percent-encoding may produce: an ASCII letter or digit, one of
/// `-` `_` `.` `!` `~` `*` `'` `(` `)` `/`, or `%`.
pub open spec fn uri_safe(c: char) -> bool {
    ||| ('0' <= c && c <= '9')
    ||| ('A' <= c && c <= 'Z')
    ||| ('a' <= c && c <= 'z')
    ||| c == '-'
    ||| c == '_'
    ||| c == '.'
    ||| c == '!'
    ||| c == '~'
    ||| c == '*'
    ||| c == '\''
    ||| c == '('
    ||| c == ')'
    ||| c == '/'
    ||| c == '%'
}

/// Every character of `s` may be produced by percent-encoding.
pub open spec fn all_uri_safe(s: Seq<char>) -> bool {
    forall|i: int| 0 <= i < s.len() ==> #[trigger] uri_safe(s[i])
}

/// The bytes of an ASCII text.
pub open spec fn ascii_bytes(s: Seq<char>) -> Seq<u8> {
    s.map_values(|c: char| c as u8)
}

/// The upper-case hexadecimal digit of `n < 16` reads back as `n`.
proof fn lemma_hex_upper(n: int)
    requires
        0 <= n < 16,
    ensures
        uri_safe(hex_upper(n)),
        hex_value(hex_upper(n) as u8) == Some(n as u8),
{
}

/// The text of one byte is made of characters that percent-encoding may produce, and its
/// bytes percent-decode to that byte.
proof fn lemma_encode_byte(b: u8, path: bool, rest: Seq<u8>)
    ensures
        all_uri_safe(encode_byte(b, path)),
        encode_byte(b, path).len() >= 1,
        percent_decode(ascii_bytes(encode_byte(b, path)) + rest) == seq![b] + percent_decode(rest),
{
    let e = encode_byte(b, path);
    let s = ascii_bytes(e) + rest;
    if keeps(b, path) {
        assert(ascii_bytes(e) =~= seq![b]);
        assert(s.drop_first() =~= rest);
        assert(s[0] == b);
    } else {
        lemma_hex_upper(b as int / 16);
        lemma_hex_upper(b as int % 16);
        assert(s[0] == 0x25);
        assert(s.subrange(3, s.len() as int) =~= rest);
        assert((hex_value(s[1])->0 * 16 + hex_value(s[2])->0) as u8 == b);
        assert forall|i: int| 0 <= i < e.len() implies #[trigger] uri_safe(e[i]) by {
        }
    }
}

/// Percent-encoded text is made of characters that percent-encoding may produce, is no
/// shorter than the bytes, and its bytes percent-decode to those bytes.
pub proof fn lemma_percent_round_trip(b: Seq<u8>, path: bool)
    ensures
        all_uri_safe(percent_encode(b, path)),
        percent_encode(b, path).len() >= b.len(),
        percent_decode(ascii_bytes(percent_encode(b, path))) == b,
    decreases b.len(),
{
    if b.len() == 0 {
        assert(ascii_bytes(Seq::<char>::empty()) =~= Seq::<u8>::empty());
    } else {
        let e = encode_byte(b[0], path);
        let r = percent_encode(b.drop_first(), path);
        lemma_percent_round_trip(b.drop_first(), path);
        lemma_encode_byte(b[0], path, ascii_bytes(r));
        assert(ascii_bytes(e + r) =~= ascii_bytes(e) + ascii_bytes(r));
        assert(seq![b[0]] + b.drop_first() =~= b);
        assert forall|i: int| 0 <= i < (e + r).len() implies #[trigger] uri_safe((e + r)[i]) by {
            if i < e.len() {
                assert((e + r)[i] == e[i]);
            } else {
                assert((e + r)[i] == r[i - e.len()]);
            }
        }
    }
}

/// Characters that percent-encoding may produce are ASCII.
proof fn lemma_uri_safe_ascii(s: Seq<char>)
    requires
        all_uri_safe(s),
    ensures
        is_ascii_chars(s),
        encode_utf8(s) == ascii_bytes(s),
{
    assert forall|i: int| 0 <= i < s.len() implies '\0' <= #[trigger] s[i] <= '\u{7f}' by {
        assert(uri_safe(s[i]));
    }
    is_ascii_chars_encode_utf8(s);
    assert(encode_utf8(s) =~= ascii_bytes(s));
}

/// Decoding the encoding of a text gives the text back; the encoding is made of characters
/// that percent-encoding may produce, and is empty only where the text is.
pub proof fn lemma_decode_encode(s: Seq<char>, path: bool)
    ensures
        decoded_component(encode_uri(s, path)) == s,
        all_uri_safe(encode_uri(s, path)),
        encode_uri(s, path).len() == 0 <==> s.len() == 0,
{
    let b = encode_utf8(s);
    let e = encode_uri(s, path);
    lemma_percent_round_trip(b, path);
    lemma_uri_safe_ascii(e);
    encode_utf8_valid_utf8(s);
    encode_utf8_decode_utf8(s);
    if s.len() > 0 {
        assert(b.len() > 0);
    } else {
        assert(b =~= Seq::<u8>::empty());
    }
}

/// The UTF-8 encoding of two texts one after the other.
pub proof fn lemma_encode_utf8_concat(a: Seq<char>, b: Seq<char>)
    ensures
        encode_utf8(a + b) == encode_utf8(a) + encode_utf8(b),
    decreases a.len(),
{
    if a.len() == 0 {
        assert(a + b =~= b);
        assert(encode_utf8(a) =~= Seq::<u8>::empty());
        assert(encode_utf8(a) + encode_utf8(b) =~= encode_utf8(b));
    } else {
        assert((a + b)[0] == a[0]);
        assert((a + b).drop_first() =~= a.drop_first() + b);
        lemma_encode_utf8_concat(a.drop_first(), b);
        assert(encode_utf8(a + b) =~= encode_utf8(a) + encode_utf8(b));
    }
}

/// The percent-encoding of two byte sequences one after the other.
pub proof fn lemma_percent_encode_concat(a: Seq<u8>, b: Seq<u8>, path: bool)
    ensures
        percent_encode(a + b, path) == percent_encode(a, path) + percent_encode(b, path),
    decreases a.len(),
{
    if a.len() == 0 {
        assert(a + b =~= b);
        assert(percent_encode(a, path) =~= Seq::<char>::empty());
        assert(percent_encode(a, path) + percent_encode(b, path) =~= percent_encode(b, path));
    } else {
        assert((a + b)[0] == a[0]);
        assert((a + b).drop_first() =~= a.drop_first() + b);
        lemma_percent_encode_concat(a.drop_first(), b, path);
        assert(percent_encode(a + b, path) =~= percent_encode(a, path) + percent_encode(b, path));
    }
}

/// The URI encoding of two texts one after the other.
pub proof fn lemma_encode_uri_concat(a: Seq<char>, b: Seq<char>, path: bool)
    ensures
        encode_uri(a + b, path) == encode_uri(a, path) + encode_uri(b, path),
{
    lemma_encode_utf8_concat(a, b);
    lemma_percent_encode_concat(encode_utf8(a), encode_utf8(b), path);
}

/// An ASCII character that is kept stands for itself in the encoding.
pub proof fn lemma_encode_kept_char(c: char, path: bool)
    requires
        '\0' <= c <= '\u{7f}',
        keeps(c as u8, path),
    ensures
        encode_uri(seq![c], path) == seq![c],
{
    let s = seq![c];
    assert(is_ascii_chars(s));
    is_ascii_chars_encode_utf8(s);
    assert(encode_utf8(s) =~= seq![c as u8]);
    let b = seq![c as u8];
    assert(b.drop_first() =~= Seq::<u8>::empty());
    assert(percent_encode(b.drop_first(), path) =~= Seq::<char>::empty());
    assert(((c as u8) as char) == c);
    assert(percent_encode(b, path) =~= seq![c]);
}

/// Percent-decoding leaves bytes before an escape as they are.
pub proof fn lemma_percent_decode_prefix(a: Seq<u8>, b: Seq<u8>)
    requires
        forall|i: int| 0 <= i < a.len() ==> #[trigger] a[i] != 0x25,
    ensures
        percent_decode(a + b) == a + percent_decode(b),
    decreases a.len(),
{
    if a.len() == 0 {
        assert(a + b =~= b);
    } else {
        let s = a + b;
        assert(s[0] == a[0]);
        assert(s.drop_first() =~= a.drop_first() + b);
        lemma_percent_decode_prefix(a.drop_first(), b);
        assert(percent_decode(s) =~= a + percent_decode(b));
    }
}

/// Decoding a text made of plain ASCII characters without `%` followed by an encoding
/// gives those characters followed by the encoded text.
pub proof fn lemma_decode_prefixed(x: Seq<char>, s: Seq<char>, path: bool)
    requires
        forall|i: int| 0 <= i < x.len() ==> '\0' <= #[trigger] x[i] <= '\u{7f}' && x[i] != '%',
    ensures
        decoded_component(x + encode_uri(s, path)) == x + s,
{
    let e = encode_uri(s, path);
    lemma_decode_encode(s, path);
    lemma_percent_round_trip(encode_utf8(s), path);
    lemma_uri_safe_ascii(e);
    assert(is_ascii_chars(x));
    is_ascii_chars_encode_utf8(x);
    assert(encode_utf8(x) =~= ascii_bytes(x));
    lemma_encode_utf8_concat(x, e);
    assert forall|i: int| 0 <= i < ascii_bytes(x).len() implies #[trigger] ascii_bytes(x)[i] != 0x25 by {
        assert(x[i] != '%');
        assert(x[i] as u8 == ascii_bytes(x)[i]);
    }
    lemma_percent_decode_prefix(ascii_bytes(x), ascii_bytes(e));
    lemma_encode_utf8_concat(x, s);
    encode_utf8_valid_utf8(x + s);
    encode_utf8_decode_utf8(x + s);
}

/// An upper-case hexadecimal digit, as escapes are written with.
pub open spec fn is_upper_hex(c: char) -> bool {
    ('0' <= c && c <= '9') || ('A' <= c && c <= 'F')
}

/// Where an encoding ends with text that holds no `%` and does not start with a hexadecimal
/// digit, that text is made of bytes kept as they are, and they end the bytes.
pub proof fn lemma_encode_tail(b: Seq<u8>, t: Seq<char>, path: bool)
    requires
        t.len() >= 1,
        percent_encode(b, path).len() >= t.len(),
        percent_encode(b, path).skip(percent_encode(b, path).len() - t.len()) == t,
        forall|i: int| 0 <= i < t.len() ==> #[trigger] t[i] != '%',
        !is_upper_hex(t[0]),
    ensures
        b.len() >= t.len(),
        forall|i: int| 0 <= i < t.len() ==> (#[trigger] b[b.len() - t.len() + i]) as char == t[i]
            && keeps(b[b.len() - t.len() + i], path),
    decreases t.len(),
{
    if b.len() == 0 {
        assert(percent_encode(b, path) =~= Seq::<char>::empty());
    } else {
        let x = b.last();
        let b2 = b.drop_last();
        assert(b2.push(x) =~= b);
        lemma_percent_encode_push(b2, x, path);
        let e = percent_encode(b, path);
        let e2 = percent_encode(b2, path);
        let n = t.len() as int;
        assert(e[e.len() - 1] == t[n - 1]);
        if keeps(x, path) {
            assert(e == e2 + seq![x as char]);
            assert(t[n - 1] == x as char);
            if n > 1 {
                let t2 = t.drop_last();
                assert(e2.skip(e2.len() - t2.len()) =~= t2) by {
                    assert forall|i: int| 0 <= i < t2.len() implies e2.skip(e2.len() - t2.len())[i] == t2[i] by {
                        assert(e[e.len() - n + i] == t[i]);
                        assert(e[e.len() - n + i] == e2[e2.len() - t2.len() + i]);
                    }
                }
                assert(t2[0] == t[0]);
                lemma_encode_tail(b2, t2, path);
                assert forall|i: int| 0 <= i < t.len() implies (#[trigger] b[b.len() - t.len() + i]) as char == t[i]
                    && keeps(b[b.len() - t.len() + i], path) by {
                    if i < n - 1 {
                        assert(b[b.len() - t.len() + i] == b2[b2.len() - t2.len() + i]);
                        assert(t[i] == t2[i]);
                    }
                }
            }
        } else {
            assert(e == e2 + percent_byte(x));
            lemma_hex_upper(x as int / 16);
            lemma_hex_upper(x as int % 16);
            if n >= 3 {
                assert(e[e.len() - 3] == '%');
                assert(t[n - 3] == e[e.len() - 3]);
            } else if n == 2 {
                assert(t[0] == e[e.len() - 2]);
            } else {
                assert(t[0] == e[e.len() - 1]);
            }
        }
    }
}

/// Where the UTF-8 encoding of `s` ends with `n` ASCII bytes, `s` ends with the `n`
/// characters of those bytes.
pub proof fn lemma_utf8_ascii_tail(s: Seq<char>, n: int)
    requires
        0 <= n <= encode_utf8(s).len(),
        forall|i: int|
            encode_utf8(s).len() - n <= i < encode_utf8(s).len() ==> #[trigger] encode_utf8(s)[i]
                < 0x80,
    ensures
        n <= s.len(),
        forall|i: int|
            0 <= i < n ==> (#[trigger] s[s.len() - n + i]) as u32 == encode_utf8(s)[encode_utf8(
                s,
            ).len() - n + i] as u32,
    decreases n,
{
    if n > 0 {
        let b = encode_utf8(s);
        if s.len() == 0 {
            assert(b =~= Seq::<u8>::empty());
        }
        let q = s.drop_last();
        let c = s.last();
        assert(q + seq![c] =~= s);
        lemma_encode_utf8_concat(q, seq![c]);
        let bq = encode_utf8(q);
        let u = c as u32;
        char_is_scalar(c);
        assert(seq![c].drop_first() =~= Seq::<char>::empty());
        assert(encode_utf8(Seq::<char>::empty()) =~= Seq::<u8>::empty());
        assert(seq![c][0] == c);
        assert(encode_utf8(seq![c]) =~= encode_scalar(u));
        assert(b =~= bq + encode_scalar(u));
        if has_width_1_encoding(u) {
            assert((u & 0x7F) as u8 == u) by (bit_vector)
                requires
                    u <= 0x7F,
            ;
            assert(b =~= bq.push(u as u8));
            assert forall|i: int| bq.len() - (n - 1) <= i < bq.len() implies #[trigger] bq[i]
                < 0x80 by {
                assert(bq[i] == b[i]);
            }
            lemma_utf8_ascii_tail(q, n - 1);
            assert forall|i: int| 0 <= i < n implies (#[trigger] s[s.len() - n + i]) as u32
                == b[b.len() - n + i] as u32 by {
                if i < n - 1 {
                    assert(s[s.len() - n + i] == q[q.len() - (n - 1) + i]);
                    assert(b[b.len() - n + i] == bq[bq.len() - (n - 1) + i]);
                }
            }
        } else {
            assert(0x80 | (u & 0x3F) as u8 >= 0x80) by (bit_vector);
            assert(b[b.len() - 1] == encode_scalar(u).last());
        }
    }
}

} // verus!
