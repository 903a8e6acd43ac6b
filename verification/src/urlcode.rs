use vstd::prelude::*;
use vstd::utf8::*;

verus! {

/// Bytes that percent-encoding leaves as they are: ASCII letters, digits and `-`, `.`, `_`, `~`.
pub open spec fn is_unreserved(b: u8) -> bool {
    ||| (48 <= b && b <= 57)
    ||| (65 <= b && b <= 90)
    ||| (97 <= b && b <= 122)
    ||| b == 45
    ||| b == 46
    ||| b == 95
    ||| b == 126
}

/// The ASCII code of the upper-case hexadecimal digit for `d < 16`.
pub open spec fn upper_hex_digit(d: u8) -> u8 {
    if d < 10 {
        (48 + d) as u8
    } else {
        (55 + d) as u8
    }
}

/// Whether `b` is the ASCII code of a hexadecimal digit, in either case.
pub open spec fn is_hex_digit(b: u8) -> bool {
    (48 <= b && b <= 57) || (65 <= b && b <= 70) || (97 <= b && b <= 102)
}

/// The value of the hexadecimal digit with ASCII code `b`.
pub open spec fn hex_digit_value(b: u8) -> int {
    if 48 <= b && b <= 57 {
        b - 48
    } else if 65 <= b && b <= 70 {
        b - 55
    } else {
        b - 87
    }
}

/// Percent-encoding of a byte string: unreserved bytes stay, every other byte becomes
/// `%` followed by its value in two upper-case hexadecimal digits.
pub open spec fn percent_encode(b: Seq<u8>) -> Seq<u8>
    decreases b.len(),
{
    if b.len() == 0 {
        Seq::empty()
    } else {
        let c = b[0];
        let head = if is_unreserved(c) {
            seq![c]
        } else {
            seq![37u8, upper_hex_digit(c / 16), upper_hex_digit(c % 16)]
        };
        head + percent_encode(b.drop_first())
    }
}

/// Percent-decoding of a byte string: `%` followed by two hexadecimal digits becomes the byte
/// they denote; every other byte, a `%` that does not start such a triple included, stays.
pub open spec fn percent_decode(b: Seq<u8>) -> Seq<u8>
    decreases b.len(),
{
    if b.len() == 0 {
        Seq::empty()
    } else if b[0] == 37 && b.len() >= 3 && is_hex_digit(b[1]) && is_hex_digit(b[2]) {
        seq![(hex_digit_value(b[1]) * 16 + hex_digit_value(b[2])) as u8] + percent_decode(b.skip(3))
    } else {
        seq![b[0]] + percent_decode(b.drop_first())
    }
}

/// The characters whose codes are the given ASCII bytes.
pub open spec fn ascii_text(b: Seq<u8>) -> Seq<char> {
    b.map_values(|x: u8| x as char)
}

/// The URL encoding of `s`: its UTF-8 bytes, percent-encoded.
pub open spec fn url_encoded(s: Seq<char>) -> Seq<char> {
    ascii_text(percent_encode(encode_utf8(s)))
}

/// The URL decoding of `s`: its UTF-8 bytes percent-decoded, when they form UTF-8 text.
pub open spec fn url_decoded(s: Seq<char>) -> Option<Seq<char>> {
    let b = percent_decode(encode_utf8(s));
    if valid_utf8(b) {
        Some(decode_utf8(b))
    } else {
        None
    }
}

/// The decoded form of a stored tag: its URL decoding, or the empty text when that fails.
pub open spec fn decoded_tag(s: Seq<char>) -> Seq<char> {
    match url_decoded(s) {
        Some(d) => d,
        None => Seq::empty(),
    }
}

/// Calls `urlencoding::encode`. Claimed: the result is the UTF-8 bytes of `s` with every
/// byte but ASCII letters, digits, `-`, `.`, `_` and `~` written as `%` and two upper-case
/// hexadecimal digits, which is what the crate's `encode_into` does.
#[verifier::external_body]
pub(crate) fn url_encode(s: &str) -> (res: String)
    ensures
        res@ == url_encoded(s@),
{
    urlencoding::encode(s).into_owned()
}

/// Calls `urlencoding::decode`. Claimed: on the UTF-8 bytes of `s` it replaces each `%`
/// followed by two hexadecimal digits by the byte they denote and keeps every other byte;
/// the result is `None` exactly when the bytes so obtained are not UTF-8, which is what the
/// crate's `decode_binary` followed by `String::from_utf8` does.
#[verifier::external_body]
pub(crate) fn url_decode(s: &str) -> (res: Option<String>)
    ensures
        match res {
            Some(d) => url_decoded(s@) == Some(d@),
            None => url_decoded(s@) is None,
        },
{
    match urlencoding::decode(s) {
        Ok(d) => Some(d.into_owned()),
        Err(_) => None,
    }
}

/// Decodes a stored, URL-encoded tag for display; a tag that does not decode to UTF-8
/// text becomes the empty string.
pub fn decode_tags(tags: &str) -> (res: String)
    ensures
        res@ == decoded_tag(tags@),
{
    match url_decode(tags) {
        Some(d) => d,
        None => String::new(),
    }
}

/// Encodes a tag for storage.
pub fn encode_tag(tag: &str) -> (res: String)
    ensures
        res@ == url_encoded(tag@),
{
    url_encode(tag)
}

proof fn lemma_percent_encode_ascii(b: Seq<u8>)
    ensures
        forall|i: int| 0 <= i < percent_encode(b).len() ==> #[trigger] percent_encode(b)[i] < 128,
        percent_encode(b).len() >= b.len(),
    decreases b.len(),
{
    if b.len() > 0 {
        lemma_percent_encode_ascii(b.drop_first());
    }
}

proof fn lemma_percent_decode_encode(b: Seq<u8>)
    ensures
        percent_decode(percent_encode(b)) == b,
    decreases b.len(),
{
    if b.len() > 0 {
        let c = b[0];
        let rest = percent_encode(b.drop_first());
        lemma_percent_decode_encode(b.drop_first());
        let e = percent_encode(b);
        if is_unreserved(c) {
            assert(e =~= seq![c] + rest);
            assert(e.drop_first() =~= rest);
        } else {
            let hi = upper_hex_digit(c / 16);
            let lo = upper_hex_digit(c % 16);
            assert(e =~= seq![37u8, hi, lo] + rest);
            assert(e.skip(3) =~= rest);
            assert(hex_digit_value(hi) == c / 16);
            assert(hex_digit_value(lo) == c % 16);
            assert((hex_digit_value(hi) * 16 + hex_digit_value(lo)) as u8 == c);
        }
        assert(percent_decode(e) =~= seq![c] + b.drop_first());
    }
}

/// URL decoding undoes URL encoding: a tag stored in encoded form reads back as it was typed.
pub proof fn lemma_url_decode_encode(s: Seq<char>)
    ensures
        url_decoded(url_encoded(s)) == Some(s),
        decoded_tag(url_encoded(s)) == s,
{
    let b = encode_utf8(s);
    let e = percent_encode(b);
    let t = ascii_text(e);
    lemma_percent_encode_ascii(b);
    assert(is_ascii_chars(t)) by {
        assert forall|i| 0 <= i < t.len() implies '\0' <= #[trigger] t[i] <= '\u{7f}' by {
            assert(e[i] < 128);
        }
    }
    is_ascii_chars_encode_utf8(t);
    assert(encode_utf8(t) =~= e) by {
        assert forall|i| 0 <= i < e.len() implies encode_utf8(t)[i] == e[i] by {
            assert(t[i] as u8 == encode_utf8(t)[i]);
        }
    }
    lemma_percent_decode_encode(b);
    encode_utf8_valid_utf8(s);
    encode_utf8_decode_utf8(s);
}

/// URL encoding is empty exactly when the text is.
pub proof fn lemma_url_encoded_empty(s: Seq<char>)
    ensures
        (url_encoded(s).len() == 0) <==> (s.len() == 0),
{
    lemma_percent_encode_ascii(encode_utf8(s));
    if s.len() > 0 {
        assert(encode_utf8(s).len() > 0) by {
            reveal_with_fuel(encode_utf8, 1);
        }
    }
}

} // verus!
