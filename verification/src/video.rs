use vstd::prelude::*;

verus! {

/// A video of the archive, with the metadata the fetch scripts write for it.
#[derive(Debug)]
pub struct Video {
    pub name: String,
    pub tags: Vec<String>,
    pub url: String,
    pub original: String,
    pub thumbnail: String,
    pub creation_timestamp: u32,
}

/// Whether the videos are ordered newest first (by creation time, latest first).
pub open spec fn newest_first(s: Seq<Video>) -> bool {
    forall|i: int, j: int|
        0 <= i < j < s.len() ==> #[trigger] s[i].creation_timestamp >= #[trigger] s[j].creation_timestamp
}

/// The videos of `s` created at time `t`, in their order in `s`.
pub open spec fn created_at(s: Seq<Video>, t: u32) -> Seq<Video>
    decreases s.len(),
{
    if s.len() == 0 {
        Seq::empty()
    } else {
        let r = created_at(s.drop_last(), t);
        if s.last().creation_timestamp == t {
            r.push(s.last())
        } else {
            r
        }
    }
}

/// Selecting by creation time distributes over concatenation.
pub proof fn lemma_created_at_concat(a: Seq<Video>, b: Seq<Video>, t: u32)
    ensures
        created_at(a + b, t) == created_at(a, t) + created_at(b, t),
    decreases b.len(),
{
    if b.len() == 0 {
        assert(a + b =~= a);
        assert(created_at(a, t) + created_at(b, t) =~= created_at(a, t));
    } else {
        lemma_created_at_concat(a, b.drop_last(), t);
        assert((a + b).drop_last() =~= a + b.drop_last());
        assert((a + b).last() == b.last());
        if b.last().creation_timestamp == t {
            assert(created_at(a, t) + created_at(b.drop_last(), t).push(b.last()) =~= (created_at(a, t)
                + created_at(b.drop_last(), t)).push(b.last()));
        }
    }
}

/// No video of `s` is selected when none was created at `t`.
pub proof fn lemma_created_at_none(s: Seq<Video>, t: u32)
    requires
        forall|i: int| 0 <= i < s.len() ==> #[trigger] s[i].creation_timestamp != t,
    ensures
        created_at(s, t) == Seq::<Video>::empty(),
    decreases s.len(),
{
    if s.len() > 0 {
        lemma_created_at_none(s.drop_last(), t);
    }
}

/// Selecting from a sequence extended by one video.
proof fn lemma_created_at_push(s: Seq<Video>, v: Video, t: u32)
    ensures
        created_at(s.push(v), t) == if t == v.creation_timestamp {
            created_at(s, t).push(v)
        } else {
            created_at(s, t)
        },
{
    assert(s.push(v).drop_last() =~= s);
}

/// Inserting `v` where every later video is older adds `v` to the end of its group.
proof fn lemma_insert_keeps_groups(before: Seq<Video>, p: int, v: Video, t: u32)
    requires
        0 <= p <= before.len(),
        forall|i: int| p <= i < before.len() ==> #[trigger] before[i].creation_timestamp
            < v.creation_timestamp,
    ensures
        created_at(before.insert(p, v), t) == if t == v.creation_timestamp {
            created_at(before, t).push(v)
        } else {
            created_at(before, t)
        },
{
    let pre = before.subrange(0, p);
    let post = before.subrange(p, before.len() as int);
    assert(before =~= pre + post);
    assert(before.insert(p, v) =~= (pre + seq![v]) + post);
    lemma_created_at_concat(pre + seq![v], post, t);
    lemma_created_at_concat(pre, seq![v], t);
    lemma_created_at_concat(pre, post, t);
    lemma_created_at_push(Seq::<Video>::empty(), v, t);
    assert(Seq::<Video>::empty().push(v) =~= seq![v]);
    assert(created_at(Seq::<Video>::empty(), t) =~= Seq::<Video>::empty());
    if t == v.creation_timestamp {
        assert forall|i: int| 0 <= i < post.len() implies #[trigger] post[i].creation_timestamp != t by {
            assert(post[i] == before[p + i]);
        }
        lemma_created_at_none(post, t);
        assert(created_at(pre, t) + created_at(post, t) =~= created_at(pre, t));
        assert(created_at(pre + seq![v], t) + created_at(post, t) =~= created_at(pre + seq![v], t));
        assert(created_at(pre, t) + created_at(seq![v], t) =~= created_at(pre, t).push(v));
    } else {
        assert(created_at(pre, t) + created_at(seq![v], t) =~= created_at(pre, t));
    }
}

/// Inserting `v` after the videos at least as new and before the older ones keeps the order.
proof fn lemma_insert_keeps_order(before: Seq<Video>, p: int, v: Video)
    requires
        0 <= p <= before.len(),
        newest_first(before),
        forall|i: int| 0 <= i < p ==> #[trigger] before[i].creation_timestamp >= v.creation_timestamp,
        forall|i: int| p <= i < before.len() ==> #[trigger] before[i].creation_timestamp
            < v.creation_timestamp,
    ensures
        newest_first(before.insert(p, v)),
{
    let out = before.insert(p, v);
    assert forall|i: int, j: int| 0 <= i < j < out.len() implies #[trigger] out[i].creation_timestamp
        >= #[trigger] out[j].creation_timestamp by {
        if j < p {
            assert(out[i] == before[i]);
            assert(out[j] == before[j]);
        } else if j == p {
            assert(out[i] == before[i]);
        } else if i < p {
            assert(out[i] == before[i]);
            assert(out[j] == before[j - 1]);
        } else if i == p {
            assert(out[j] == before[j - 1]);
        } else {
            assert(out[j] == before[j - 1]);
            assert(out[i] == before[i - 1]);
        }
    }
}

/// Orders the videos newest first; videos created at the same time keep their order, as a
/// stable sort by descending creation time does.
pub fn sort_newest_first(videos: Vec<Video>) -> (res: Vec<Video>)
    ensures
        newest_first(res@),
        res@.len() == videos@.len(),
        res@.to_multiset() == videos@.to_multiset(),
        forall|t: u32| #[trigger] created_at(res@, t) == created_at(videos@, t),
{
    let ghost orig = videos@;
    let mut rest = videos;
    let mut out: Vec<Video> = Vec::new();
    let ghost mut k: int = 0;
    assert(orig.take(0) =~= out@);
    while rest.len() > 0
        invariant
            0 <= k <= orig.len(),
            rest@ == orig.skip(k),
            out@.len() == k,
            out@.to_multiset() == orig.take(k).to_multiset(),
            newest_first(out@),
            forall|t: u32| #[trigger] created_at(out@, t) == created_at(orig.take(k), t),
        decreases rest@.len(),
    {
        let v = rest.remove(0);
        assert(v == orig[k]);
        assert(rest@ =~= orig.skip(k + 1));
        let mut p: usize = 0;
        while p < out.len() && out[p].creation_timestamp >= v.creation_timestamp
            invariant
                p <= out@.len(),
                forall|i: int| 0 <= i < p ==> #[trigger] out@[i].creation_timestamp >= v.creation_timestamp,
            decreases out@.len() - p,
        {
            p = p + 1;
        }
        let ghost before = out@;
        proof {
            assert forall|i: int| p <= i < before.len() implies #[trigger] before[i].creation_timestamp
                < v.creation_timestamp by {
                if p < before.len() {
                    assert(before[p as int].creation_timestamp < v.creation_timestamp);
                    assert(before[p as int].creation_timestamp >= before[i].creation_timestamp);
                }
            }
        }
        out.insert(p, v);
        proof {
            assert(orig.take(k + 1) =~= orig.take(k).push(v));
            assert forall|t: u32| #[trigger] created_at(out@, t) == created_at(orig.take(k + 1), t) by {
                lemma_insert_keeps_groups(before, p as int, v, t);
                lemma_created_at_push(orig.take(k), v, t);
            }
            lemma_insert_keeps_order(before, p as int, v);
            vstd::seq_lib::to_multiset_insert(before, p as int, v);
            vstd::seq_lib::to_multiset_build(orig.take(k), v);
            k = k + 1;
        }
    }
    assert(orig.take(k) =~= orig);
    out
}

} // verus!
