use vstd::prelude::*;
use crate::text::{after_last, has_prefix, last_piece, starts_with, trim, trimmed};

verus! {

/// Where a submitted video comes from.
#[derive(Debug)]
pub enum VideoSource {
    /// A Coub video, known by the last segment of its URL.
    Coub { name: String },
    /// Any other video URL.
    Generic { url: String },
}

/// Why a submission through the add-video form is refused.
#[derive(Debug)]
pub enum SubmitError {
    /// The URL field was empty or blank.
    MissingUrl,
}

/// The address prefix of Coub videos.
pub open spec fn coub_prefix() -> Seq<char> {
    "https://coub.com"@
}

/// Whether the source is a Coub video named `name`.
pub open spec fn is_coub(src: VideoSource, name: Seq<char>) -> bool {
    match src {
        VideoSource::Coub { name: n } => n@ == name,
        VideoSource::Generic { .. } => false,
    }
}

/// Whether the source is the generic video at `url`.
pub open spec fn is_generic(src: VideoSource, url: Seq<char>) -> bool {
    match src {
        VideoSource::Generic { url: u } => u@ == url,
        VideoSource::Coub { .. } => false,
    }
}

/// The source that a URL designates: a Coub video, named by the text after the URL's last
/// `/`, when it starts with the Coub address; otherwise the URL itself.
pub open spec fn source_of(src: VideoSource, url: Seq<char>) -> bool {
    if has_prefix(url, coub_prefix()) {
        is_coub(src, after_last(url, '/'))
    } else {
        is_generic(src, url)
    }
}

impl SubmitError {
    /// The message shown to the user for this error.
    pub fn message(&self) -> (res: &'static str)
        ensures
            res@ == "Please enter a URL."@,
    {
        match self {
            SubmitError::MissingUrl => "Please enter a URL.",
        }
    }
}

/// Classifies a video URL by where the video is to be fetched from.
pub fn video_source(url: &str) -> (res: VideoSource)
    ensures
        source_of(res, url@),
{
    if starts_with(url, "https://coub.com") {
        let name = last_piece(url, '/');
        VideoSource::Coub { name: name.to_owned() }
    } else {
        VideoSource::Generic { url: url.to_owned() }
    }
}

/// Reads the URL typed into the add-video form: surrounding white space is ignored, and a
/// blank URL is refused.
pub fn form_submission(url: &str) -> (res: Result<VideoSource, SubmitError>)
    ensures
        trimmed(url@).len() == 0 <==> res is Err,
        match res {
            Ok(src) => source_of(src, trimmed(url@)),
            Err(e) => e == SubmitError::MissingUrl,
        },
{
    let t = trim(url);
    if t.is_empty() {
        Err(SubmitError::MissingUrl)
    } else {
        Ok(video_source(t))
    }
}

} // verus!

verus! {

/// Every URL that starts with `https://coub.com` designates a Coub video, named by the text
/// after its last `/`; that name holds no `/` and ends the URL. Every other URL designates
/// a generic video at that very URL.
pub proof fn lemma_coub_urls(src: VideoSource, url: Seq<char>)
    requires
        source_of(src, url),
    ensures
        has_prefix(url, "https://coub.com"@) ==> is_coub(src, after_last(url, '/')),
        !has_prefix(url, "https://coub.com"@) ==> is_generic(src, url),
        has_prefix(url, "https://coub.com"@) ==> (src matches VideoSource::Coub { name } && (forall|i: int|
            0 <= i < name@.len() ==> #[trigger] name@[i] != '/') && url == url.take(
            url.len() - name@.len(),
        ) + name@),
{
    crate::text::lemma_after_last(url, '/');
}

} // verus!
