//! Building the `search-ms:` URI handed to Windows Search.
use vstd::prelude::*;
use vstd::utf8::{decode_utf8, encode_utf8};
use crate::text::{
    chars_of, is_control_char, is_control_spec, push_char, string_from_chars, trim_bounds,
    trim_spec,
};

verus! {

/// Characters removed from a query before it is encoded: control characters and quotes.
pub open spec fn is_stripped(c: char) -> bool {
    is_control_spec(c) || c == '"' || c == '\''
}

/// The query with control characters and quotes removed.
pub open spec fn strip_unsafe(q: Seq<char>) -> Seq<char>
    decreases q.len(),
{
    if q.len() == 0 {
        seq![]
    } else if is_stripped(q.last()) {
        strip_unsafe(q.drop_last())
    } else {
        strip_unsafe(q.drop_last()).push(q.last())
    }
}

/// Bytes that RFC 3986 leaves unencoded: letters, digits, `-`, `_`, `.` and `~`.
pub open spec fn is_unreserved(b: u8) -> bool {
    (0x61 <= b && b <= 0x7a) || (0x41 <= b && b <= 0x5a) || (0x30 <= b && b <= 0x39) || b == 0x2d
        || b == 0x5f || b == 0x2e || b == 0x7e
}

/// The upper-case hexadecimal digit for `d` (`d < 16`).
pub open spec fn hex_digit(d: u8) -> char {
    if d < 10 {
        ((0x30 + d) as u8) as char
    } else {
        ((0x41 + d - 10) as u8) as char
    }
}

/// One byte, percent-encoded.
pub open spec fn encode_byte(b: u8) -> Seq<char> {
    if is_unreserved(b) {
        seq![b as char]
    } else {
        seq!['%', hex_digit(b / 16), hex_digit(b % 16)]
    }
}

/// Bytes, percent-encoded one by one.
pub open spec fn percent_encode(bytes: Seq<u8>) -> Seq<char>
    decreases bytes.len(),
{
    if bytes.len() == 0 {
        seq![]
    } else {
        percent_encode(bytes.drop_last()) + encode_byte(bytes.last())
    }
}

/// The search URI for a query: the bare scheme when there is no usable query; otherwise
/// the query, stripped of control characters and quotes and trimmed, percent-encoded
/// byte by byte from its UTF-8 form.
pub open spec fn search_uri(query: Option<Seq<char>>) -> Seq<char> {
    match query {
        None => "search-ms:"@,
        Some(q) => {
            let t = trim_spec(strip_unsafe(q));
            if t.len() == 0 {
                "search-ms:"@
            } else {
                "search-ms:query="@ + percent_encode(encode_utf8(t))
            }
        },
    }
}

/// Stripping removes exactly the control characters (`char::is_control`: U+0000..=U+001F
/// and U+007F..=U+009F), `"` and `'`, and keeps every other character in order.
pub proof fn lemma_strip_unsafe_is_filter(q: Seq<char>)
    ensures
        strip_unsafe(q) == q.filter(
            |c: char|
                !((c as u32) <= 0x1f || (0x7f <= (c as u32) && (c as u32) <= 0x9f) || c == '"' || c
                    == '\''),
        ),
    decreases q.len(),
{
    reveal(Seq::filter);
    if q.len() > 0 {
        lemma_strip_unsafe_is_filter(q.drop_last());
    }
}

fn hex_digit_char(d: u8) -> (c: char)
    requires
        d < 16,
    ensures
        c == hex_digit(d),
{
    if d < 10 {
        (0x30u8 + d) as char
    } else {
        (0x41u8 + d - 10) as char
    }
}

/// Builds a safe `search-ms:` URI: control characters, quotes and newlines are removed,
/// surrounding white space is trimmed, and the rest is percent-encoded (RFC 3986).
pub fn build_search_ms_uri(query: Option<&str>) -> (uri: String)
    ensures
        uri@ == search_uri(
            match query {
                Some(q) => Some(q@),
                None => None,
            },
        ),
        query matches Some(q) ==> ({
            let t = trim_spec(
                q@.filter(
                    |c: char|
                        !((c as u32) <= 0x1f || (0x7f <= (c as u32) && (c as u32) <= 0x9f) || c == '"'
                            || c == '\''),
                ),
            );
            uri@ == if t.len() == 0 {
                "search-ms:"@
            } else {
                "search-ms:query="@ + percent_encode(encode_utf8(t))
            }
        }),
{
    proof {
        if let Some(q) = query {
            lemma_strip_unsafe_is_filter(q@);
        }
    }
    let q = match query {
        Some(s) => s,
        None => {
            return "search-ms:".to_owned();
        },
    };
    let chars = chars_of(q);
    let mut clean: Vec<char> = Vec::new();
    let n = chars.len();
    let mut i: usize = 0;
    while i < n
        invariant
            n == chars.len(),
            chars@ == q@,
            i <= n,
            clean@ == strip_unsafe(q@.take(i as int)),
        decreases n - i,
    {
        let c = chars[i];
        assert(q@.take(i + 1).drop_last() =~= q@.take(i as int));
        if !(is_control_char(c) || c == '"' || c == '\'') {
            clean.push(c);
        }
        i = i + 1;
    }
    assert(q@.take(n as int) =~= q@);
    let (start, end) = trim_bounds(&clean);
    if start == end {
        return "search-ms:".to_owned();
    }
    let trimmed = string_from_chars(&clean, start, end);
    let bytes = trimmed.as_str().as_bytes();
    let mut encoded = "search-ms:query=".to_owned();
    let m = bytes.len();
    let mut k: usize = 0;
    while k < m
        invariant
            m == bytes@.len(),
            bytes@ == encode_utf8(trimmed@),
            k <= m,
            encoded@ == "search-ms:query="@ + percent_encode(bytes@.take(k as int)),
        decreases m - k,
    {
        let b = bytes[k];
        assert(bytes@.take(k + 1).drop_last() =~= bytes@.take(k as int));
        if (0x61 <= b && b <= 0x7a) || (0x41 <= b && b <= 0x5a) || (0x30 <= b && b <= 0x39) || b
            == 0x2d || b == 0x5f || b == 0x2e || b == 0x7e {
            push_char(&mut encoded, b as char);
            assert(encoded@ =~= "search-ms:query="@ + percent_encode(bytes@.take(k + 1)));
        } else {
            push_char(&mut encoded, '%');
            push_char(&mut encoded, hex_digit_char(b / 16));
            push_char(&mut encoded, hex_digit_char(b % 16));
            assert(encoded@ =~= "search-ms:query="@ + percent_encode(bytes@.take(k + 1)));
        }
        k = k + 1;
    }
    assert(bytes@.take(m as int) =~= bytes@);
    encoded
}

/// Characters a search URI is made of: ASCII letters and digits, `-`, `_`, `.`, `~`,
/// and the `%`, `:` and `=` of the scheme and the encoding.
pub open spec fn is_uri_char(c: char) -> bool {
    ('a' <= c && c <= 'z') || ('A' <= c && c <= 'Z') || ('0' <= c && c <= '9') || c == '-' || c
        == '_' || c == '.' || c == '~' || c == '%' || c == ':' || c == '='
}

proof fn lemma_percent_encode_safe(bytes: Seq<u8>)
    ensures
        forall|i: int| 0 <= i < percent_encode(bytes).len() ==> is_uri_char(#[trigger] percent_encode(bytes)[i]),
    decreases bytes.len(),
{
    if bytes.len() > 0 {
        lemma_percent_encode_safe(bytes.drop_last());
        let b = bytes.last();
        let pre = percent_encode(bytes.drop_last());
        let e = encode_byte(b);
        assert(b / 16 < 16);
        assert forall|i: int| 0 <= i < e.len() implies is_uri_char(#[trigger] e[i]) by {
            if is_unreserved(b) {
                assert(e[0] == b as char);
            }
        }
        assert forall|i: int| 0 <= i < percent_encode(bytes).len() implies is_uri_char(
            #[trigger] percent_encode(bytes)[i],
        ) by {
            if i < pre.len() {
                assert(percent_encode(bytes)[i] == pre[i]);
            } else {
                assert(percent_encode(bytes)[i] == e[i - pre.len()]);
            }
        }
    }
}

/// Every search URI starts with the `search-ms:` scheme and holds only URI-safe
/// characters: whatever the query held, no control character, quote, space or
/// non-ASCII character reaches the command line.
pub proof fn lemma_search_uri_safe(query: Option<Seq<char>>)
    ensures
        search_uri(query).len() >= 10,
        search_uri(query).subrange(0, 10) == "search-ms:"@,
        forall|i: int| 0 <= i < search_uri(query).len() ==> is_uri_char(#[trigger] search_uri(query)[i]),
{
    reveal_strlit("search-ms:");
    reveal_strlit("search-ms:query=");
    let u = search_uri(query);
    match query {
        None => {},
        Some(q) => {
            let t = trim_spec(strip_unsafe(q));
            if t.len() != 0 {
                let pe = percent_encode(encode_utf8(t));
                lemma_percent_encode_safe(encode_utf8(t));
                assert forall|i: int| 0 <= i < u.len() implies is_uri_char(#[trigger] u[i]) by {
                    if i >= 16 {
                        assert(u[i] == pe[i - 16]);
                    }
                }
            }
        },
    }
    assert(u.subrange(0, 10) =~= "search-ms:"@);
}

/// The value of a hexadecimal digit character (0 for any other character).
pub open spec fn hex_char_value(c: char) -> int {
    if '0' <= c && c <= '9' {
        (c as int) - 0x30
    } else if 'A' <= c && c <= 'F' {
        (c as int) - 0x41 + 10
    } else if 'a' <= c && c <= 'f' {
        (c as int) - 0x61 + 10
    } else {
        0
    }
}

/// Percent-decoding: `%XY` stands for the byte with hexadecimal value `XY`, and any other
/// character for its own code as a byte.
pub open spec fn percent_decode(s: Seq<char>) -> Seq<u8>
    decreases s.len(),
{
    if s.len() == 0 {
        seq![]
    } else if s[0] == '%' && s.len() >= 3 {
        seq![(hex_char_value(s[1]) * 16 + hex_char_value(s[2])) as u8] + percent_decode(s.skip(3))
    } else {
        seq![s[0] as u8] + percent_decode(s.drop_first())
    }
}

proof fn lemma_decode_encoded_byte(b: u8, rest: Seq<char>)
    ensures
        percent_decode(encode_byte(b) + rest) == seq![b] + percent_decode(rest),
{
    let e = encode_byte(b);
    let s = e + rest;
    if is_unreserved(b) {
        assert(s[0] == b as char);
        assert(s.drop_first() =~= rest);
        assert((b as char) as u8 == b);
    } else {
        let hi = b / 16;
        let lo = b % 16;
        assert(hi < 16 && lo < 16);
        assert(s[0] == '%');
        assert(s[1] == hex_digit(hi));
        assert(s[2] == hex_digit(lo));
        assert(hex_char_value(hex_digit(hi)) == hi);
        assert(hex_char_value(hex_digit(lo)) == lo);
        assert(s.skip(3) =~= rest);
    }
}

proof fn lemma_decode_encoded(bytes: Seq<u8>, rest: Seq<char>)
    ensures
        percent_decode(percent_encode(bytes) + rest) == bytes + percent_decode(rest),
    decreases bytes.len(),
{
    if bytes.len() == 0 {
        assert(percent_encode(bytes) + rest =~= rest);
        assert(bytes + percent_decode(rest) =~= percent_decode(rest));
    } else {
        let init = bytes.drop_last();
        let b = bytes.last();
        assert(percent_encode(bytes) + rest =~= percent_encode(init) + (encode_byte(b) + rest));
        lemma_decode_encoded(init, encode_byte(b) + rest);
        lemma_decode_encoded_byte(b, rest);
        assert(init + (seq![b] + percent_decode(rest)) =~= bytes + percent_decode(rest));
    }
}

/// Characters the encoded query is made of: unreserved ASCII and `%`.
pub open spec fn is_query_char(c: char) -> bool {
    ('a' <= c && c <= 'z') || ('A' <= c && c <= 'Z') || ('0' <= c && c <= '9') || c == '-' || c
        == '_' || c == '.' || c == '~' || c == '%'
}

/// An upper-case hexadecimal digit.
pub open spec fn is_upper_hex(c: char) -> bool {
    ('0' <= c && c <= '9') || ('A' <= c && c <= 'F')
}

proof fn lemma_encoded_shape(bytes: Seq<u8>)
    ensures
        forall|i: int| 0 <= i < percent_encode(bytes).len() ==> is_query_char(#[trigger] percent_encode(bytes)[i]),
        forall|i: int|
            0 <= i < percent_encode(bytes).len() && #[trigger] percent_encode(bytes)[i] == '%' ==> i + 2
                < percent_encode(bytes).len() && is_upper_hex(percent_encode(bytes)[i + 1])
                && is_upper_hex(percent_encode(bytes)[i + 2]),
    decreases bytes.len(),
{
    if bytes.len() > 0 {
        lemma_encoded_shape(bytes.drop_last());
        let b = bytes.last();
        let pre = percent_encode(bytes.drop_last());
        let e = encode_byte(b);
        let all = percent_encode(bytes);
        assert(all == pre + e);
        assert(b / 16 < 16);
        assert forall|i: int| 0 <= i < all.len() implies is_query_char(#[trigger] all[i]) by {
            if i < pre.len() {
                assert(all[i] == pre[i]);
            } else {
                assert(all[i] == e[i - pre.len()]);
            }
        }
        assert forall|i: int| 0 <= i < all.len() && #[trigger] all[i] == '%' implies i + 2 < all.len()
            && is_upper_hex(all[i + 1]) && is_upper_hex(all[i + 2]) by {
            if i < pre.len() {
                assert(all[i] == pre[i]);
                assert(all[i + 1] == pre[i + 1]);
                assert(all[i + 2] == pre[i + 2]);
            } else {
                assert(all[i] == e[i - pre.len()]);
                if is_unreserved(b) {
                    assert(e[0] == b as char);
                } else {
                    assert(i == pre.len());
                    assert(all[i + 1] == e[1]);
                    assert(all[i + 2] == e[2]);
                }
            }
        }
    }
}

/// What the URI carries is the query: either the bare scheme (no query, or nothing left
/// after stripping and trimming), or `search-ms:query=` followed by unreserved characters
/// and `%XX` escapes with upper-case hex digits, which percent-decode to the UTF-8 bytes of
/// the query stripped of control characters and quotes and trimmed.
pub proof fn lemma_search_uri_decodes(query: Option<Seq<char>>)
    ensures
        search_uri(query) == "search-ms:"@ || ({
            let s = search_uri(query).skip(16);
            &&& search_uri(query).take(16) == "search-ms:query="@
            &&& (forall|i: int| 0 <= i < s.len() ==> is_query_char(#[trigger] s[i]))
            &&& (forall|i: int|
                0 <= i < s.len() && #[trigger] s[i] == '%' ==> i + 2 < s.len() && is_upper_hex(s[i + 1])
                    && is_upper_hex(s[i + 2]))
            &&& query matches Some(q) && decode_utf8(percent_decode(s)) == trim_spec(strip_unsafe(q))
        }),
{
    match query {
        None => {},
        Some(q) => {
            let t = trim_spec(strip_unsafe(q));
            if t.len() != 0 {
                reveal_strlit("search-ms:query=");
                let pe = percent_encode(encode_utf8(t));
                let u = search_uri(query);
                assert(u.skip(16) =~= pe);
                assert(u.take(16) =~= "search-ms:query="@);
                lemma_encoded_shape(encode_utf8(t));
                lemma_decode_encoded(encode_utf8(t), seq![]);
                assert(pe + Seq::<char>::empty() =~= pe);
                assert(encode_utf8(t) + Seq::<u8>::empty() =~= encode_utf8(t));
                vstd::utf8::encode_utf8_decode_utf8(t);
            }
        },
    }
}

/// The query a URI carries is the input with exactly its control characters
/// (U+0000..=U+001F, U+007F..=U+009F), `"` and `'` removed and then trimmed: when nothing
/// is left the URI is the bare scheme; otherwise what follows `search-ms:query=`
/// percent-decodes to the UTF-8 of what is left.
pub proof fn lemma_search_uri_carries_kept_chars(q: Seq<char>)
    ensures
        ({
            let t = trim_spec(
                q.filter(
                    |c: char|
                        !((c as u32) <= 0x1f || (0x7f <= (c as u32) && (c as u32) <= 0x9f) || c == '"'
                            || c == '\''),
                ),
            );
            let u = search_uri(Some(q));
            &&& t.len() == 0 ==> u == "search-ms:"@
            &&& t.len() > 0 ==> u.take(16) == "search-ms:query="@ && decode_utf8(percent_decode(u.skip(16))) == t
        }),
{
    lemma_strip_unsafe_is_filter(q);
    let t = trim_spec(strip_unsafe(q));
    if t.len() != 0 {
        reveal_strlit("search-ms:query=");
        let pe = percent_encode(encode_utf8(t));
        let u = search_uri(Some(q));
        assert(u.skip(16) =~= pe);
        assert(u.take(16) =~= "search-ms:query="@);
        lemma_decode_encoded(encode_utf8(t), seq![]);
        assert(pe + Seq::<char>::empty() =~= pe);
        assert(encode_utf8(t) + Seq::<u8>::empty() =~= encode_utf8(t));
        vstd::utf8::encode_utf8_decode_utf8(t);
    }
}

} // verus!
