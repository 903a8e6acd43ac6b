use vstd::prelude::*;
use crate::mime::{mime_for_extension, mime_type_from_path, path_extension};
use crate::text::views;
use crate::urlcode::ascii_text;

verus! {

/// The ASCII code of the standard base64 digit for `v < 64`.
pub open spec fn base64_digit(v: int) -> u8 {
    if v < 26 {
        (65 + v) as u8
    } else if v < 52 {
        (71 + v) as u8
    } else if v < 62 {
        (v - 4) as u8
    } else if v == 62 {
        43u8
    } else {
        47u8
    }
}

/// Standard base64 with padding: each group of three bytes becomes four digits; a final
/// group of one or two bytes becomes two or three digits followed by `=` padding.
pub open spec fn base64_standard(b: Seq<u8>) -> Seq<u8>
    decreases b.len(),
{
    if b.len() == 0 {
        Seq::empty()
    } else if b.len() == 1 {
        seq![base64_digit((b[0] / 4) as int), base64_digit((b[0] % 4) * 16), 61u8, 61u8]
    } else if b.len() == 2 {
        seq![
            base64_digit((b[0] / 4) as int),
            base64_digit((b[0] % 4) * 16 + b[1] / 16),
            base64_digit((b[1] % 16) * 4),
            61u8,
        ]
    } else {
        seq![
            base64_digit((b[0] / 4) as int),
            base64_digit((b[0] % 4) * 16 + b[1] / 16),
            base64_digit((b[1] % 16) * 4 + b[2] / 64),
            base64_digit((b[2] % 64) as int),
        ] + base64_standard(b.skip(3))
    }
}

/// The data URL that carries an image of the given MIME type.
pub open spec fn data_url(mime: Seq<char>, image: Seq<u8>) -> Seq<char> {
    "data:"@ + mime + ";base64,"@ + ascii_text(base64_standard(image))
}

/// Why the tags of an image could not be read from the vision service's reply.
#[derive(Debug)]
pub enum TaggerError {
    /// The reply held no choice.
    NoChoices,
}

impl TaggerError {
    /// The message reported for this error.
    pub fn message(&self) -> (res: &'static str)
        ensures
            res@ == "No choices returned from API"@,
    {
        match self {
            TaggerError::NoChoices => "No choices returned from API",
        }
    }
}

/// What the vision service is asked about each image.
pub const TAG_PROMPT: &'static str = "Analyze this image and return exactly 50 tags or features that best describe it. Output ONLY a JSON array of strings, no explanation, no markdown, no code block. Example: [\"tag1\", \"tag2\", ...]";

/// A request for the tags of one image: a single, non-streamed user message holding the
/// prompt and the image.
#[derive(Debug)]
pub struct TagRequest {
    pub model: String,
    pub stream: bool,
    pub role: String,
    pub prompt: String,
    pub image_url: String,
}

/// The request that asks `model` for the tags of the image at `image_url`.
pub fn tag_request(model: &str, image_url: String) -> (res: TagRequest)
    ensures
        res.model@ == model@,
        !res.stream,
        res.role@ == "user"@,
        res.prompt@ == TAG_PROMPT@,
        res.image_url == image_url,
{
    TagRequest {
        model: model.to_owned(),
        stream: false,
        role: String::from_str("user"),
        prompt: String::from_str(TAG_PROMPT),
        image_url,
    }
}

/// Calls `Engine::encode` of the `base64` crate's `STANDARD` engine. Claimed: the result is
/// the standard padded base64 encoding of `data`.
#[verifier::external_body]
fn base64_encode(data: &[u8]) -> (res: String)
    ensures
        res@ == ascii_text(base64_standard(data@)),
{
    <base64::engine::GeneralPurpose as base64::Engine>::encode(
        &base64::engine::general_purpose::STANDARD,
        data,
    )
}

/// The data URL under which the image read from `image_path` is sent to the vision
/// service: its MIME type, judged by the file's extension, and its bytes in base64.
pub fn image_data_url(image_path: &str, image: &[u8]) -> (res: String)
    ensures
        res@ == data_url(mime_for_extension(path_extension(image_path@)), image@),
{
    let mime = mime_type_from_path(image_path);
    let encoded = base64_encode(image);
    let mut res = String::from_str("data:");
    res.append(mime);
    res.append(";base64,");
    res.append(encoded.as_str());
    res
}

/// The most tags kept from one reply of the vision service.
pub const MAX_TAGS: usize = 50;

/// The first `n` texts of `s`, or all of them when there are fewer.
pub open spec fn at_most(s: Seq<Seq<char>>, n: nat) -> Seq<Seq<char>> {
    if s.len() <= n {
        s
    } else {
        s.take(n as int)
    }
}

/// The tags that the vision service's reply gives: the tag list of its first choice, up to
/// its first 50 tags; `choices` holds each choice's tag list, in order.
pub fn tags_from_reply(choices: Vec<Vec<String>>) -> (res: Result<Vec<String>, TaggerError>)
    ensures
        choices@.len() == 0 <==> res is Err,
        match res {
            Ok(tags) => views(tags@) == at_most(views(choices@[0]@), MAX_TAGS as nat),
            Err(e) => e == TaggerError::NoChoices,
        },
{
    let mut choices = choices;
    if choices.len() == 0 {
        return Err(TaggerError::NoChoices);
    }
    let mut tags = choices.swap_remove(0);
    let ghost all = views(tags@);
    tags.truncate(MAX_TAGS);
    assert(views(tags@) =~= at_most(all, MAX_TAGS as nat));
    Ok(tags)
}

} // verus!
