use vstd::prelude::*;
use crate::json::{json_array, json_string_list, tags_from_column};
use crate::tags::{dedup, or_empty};
use crate::text::views;
use crate::video::Video;

verus! {

/// The stored form of a creation time.
pub fn timestamp_column(t: u32) -> (res: i64)
    ensures
        res == t as i64,
{
    t as i64
}

/// The creation time of a stored value, keeping its low 32 bits.
pub fn timestamp_from_column(x: i64) -> (res: u32)
    ensures
        res == x as u32,
{
    x as u32
}

/// A stored creation time reads back as the time that was stored.
pub proof fn lemma_timestamp_round_trip(t: u32)
    ensures
        (t as i64) as u32 == t,
{
}

/// The video that a stored row describes. A row written from a video reads back as that
/// video, its tags each kept once.
pub fn video_from_row(
    name: String,
    url: String,
    tags: &str,
    original: String,
    thumbnail: String,
    creation_timestamp: i64,
) -> (res: Video)
    ensures
        res.name == name,
        res.url == url,
        views(res.tags@) == or_empty(json_string_list(tags@)),
        forall|t: Seq<Seq<char>>| #[trigger] json_array(dedup(t)) == tags@ ==> views(res.tags@)
            == dedup(t),
        res.original == original,
        res.thumbnail == thumbnail,
        res.creation_timestamp == creation_timestamp as u32,
{
    Video {
        name,
        tags: tags_from_column(tags),
        url,
        original,
        thumbnail,
        creation_timestamp: timestamp_from_column(creation_timestamp),
    }
}

} // verus!
