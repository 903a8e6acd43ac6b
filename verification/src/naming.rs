use vstd::prelude::*;
use vstd::utf8::*;
use crate::urlcode::ascii_text;

verus! {

/// The SHA-256 digest of a byte string.
pub uninterp spec fn sha256_digest(data: Seq<u8>) -> Seq<u8>;

/// The ASCII code of the lower-case hexadecimal digit for `d < 16`.
pub open spec fn lower_hex_digit(d: u8) -> u8 {
    if d < 10 {
        (48 + d) as u8
    } else {
        (87 + d) as u8
    }
}

/// Each byte written as two lower-case hexadecimal digits, high digit first.
pub open spec fn lower_hex(b: Seq<u8>) -> Seq<u8>
    decreases b.len(),
{
    if b.len() == 0 {
        Seq::empty()
    } else {
        seq![lower_hex_digit(b[0] / 16), lower_hex_digit(b[0] % 16)] + lower_hex(b.drop_first())
    }
}

/// The name under which a video fetched from `url` is stored: the first ten characters of
/// the lower-case hexadecimal SHA-256 digest of the URL's UTF-8 bytes.
pub open spec fn video_name_spec(url: Seq<char>) -> Seq<char> {
    ascii_text(lower_hex(sha256_digest(encode_utf8(url)))).take(10)
}

/// Whether `c` is a lower-case hexadecimal digit.
pub open spec fn is_lower_hex_char(c: char) -> bool {
    ('0' <= c && c <= '9') || ('a' <= c && c <= 'f')
}

/// Calls `Sha256::digest` of the `sha2` crate. Claimed: the result is the digest of `data`,
/// named `sha256_digest`, and is 32 bytes long, the output size of SHA-256.
#[verifier::external_body]
fn sha256(data: &[u8]) -> (res: Vec<u8>)
    ensures
        res@ == sha256_digest(data@),
        res@.len() == 32,
{
    <sha2::Sha256 as sha2::Digest>::digest(data).to_vec()
}

/// Calls `hex::encode`. Claimed: each byte becomes two lower-case hexadecimal digits, high
/// digit first, which is what the crate does with its lower-case digit table.
#[verifier::external_body]
fn hex_encode(data: &[u8]) -> (res: String)
    ensures
        res@ == ascii_text(lower_hex(data@)),
{
    hex::encode(data)
}

proof fn lemma_lower_hex(b: Seq<u8>)
    ensures
        lower_hex(b).len() == 2 * b.len(),
        forall|i: int| 0 <= i < lower_hex(b).len() ==> is_lower_hex_char(
            #[trigger] lower_hex(b)[i] as char,
        ),
    decreases b.len(),
{
    if b.len() > 0 {
        lemma_lower_hex(b.drop_first());
        assert forall|i: int| 0 <= i < lower_hex(b).len() implies is_lower_hex_char(
            #[trigger] lower_hex(b)[i] as char,
        ) by {
            if i >= 2 {
                assert(lower_hex(b)[i] == lower_hex(b.drop_first())[i - 2]);
            }
        }
    }
}

proof fn lemma_lower_hex_prefix(b: Seq<u8>, n: nat)
    requires
        n <= b.len(),
    ensures
        lower_hex(b).take(2 * n as int) == lower_hex(b.take(n as int)),
    decreases n,
{
    lemma_lower_hex(b);
    lemma_lower_hex(b.take(n as int));
    if n > 0 {
        lemma_lower_hex_prefix(b.drop_first(), (n - 1) as nat);
        assert(b.take(n as int).drop_first() =~= b.drop_first().take(n - 1));
        assert(lower_hex(b).take(2 * n as int) =~= lower_hex(b.take(n as int)));
    } else {
        assert(lower_hex(b).take(0) =~= Seq::<u8>::empty());
    }
}

/// The storage name of a video fetched from `url`: ten lower-case hexadecimal digits taken
/// from the front of the SHA-256 digest of the URL.
pub fn calculate_hash(url: &str) -> (res: String)
    ensures
        res@ == video_name_spec(url@),
        res@ == ascii_text(lower_hex(sha256_digest(encode_utf8(url@)).take(5))),
        res@.len() == 10,
        forall|i: int| 0 <= i < 10 ==> is_lower_hex_char(#[trigger] res@[i]),
{
    let digest = sha256(url.as_bytes());
    let full = hex_encode(digest.as_slice());
    let ghost d = sha256_digest(encode_utf8(url@));
    proof {
        lemma_lower_hex(d);
        lemma_lower_hex_prefix(d, 5);
        assert(is_ascii_chars(full@)) by {
            assert forall|i| 0 <= i < full@.len() implies '\0' <= #[trigger] full@[i] <= '\u{7f}' by {
                assert(is_lower_hex_char(lower_hex(d)[i] as char));
            }
        }
    }
    let short = full.as_str().substring_ascii(0, 10);
    let res = short.to_owned();
    proof {
        assert(res@ =~= ascii_text(lower_hex(d)).take(10));
        assert(ascii_text(lower_hex(d)).take(10) =~= ascii_text(lower_hex(d).take(10)));
        assert forall|i: int| 0 <= i < 10 implies is_lower_hex_char(#[trigger] res@[i]) by {
            assert(is_lower_hex_char(lower_hex(d)[i] as char));
        }
    }
    res
}

/// The name of the metadata file that the fetch scripts write for video `name`.
pub fn metadata_file_name(name: &str) -> (res: String)
    ensures
        res@ == name@ + ".js"@,
{
    let mut res = String::from_str(name);
    res.append(".js");
    res
}

/// The name of the thumbnail image of video `name`.
pub fn thumbnail_file_name(name: &str) -> (res: String)
    ensures
        res@ == name@ + ".thumbnail.png"@,
{
    let mut res = String::from_str(name);
    res.append(".thumbnail.png");
    res
}

} // verus!
