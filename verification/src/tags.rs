use vstd::prelude::*;
use crate::text::{split_by, split_spec, trim, trimmed, views};
use crate::urlcode::{decode_tags, decoded_tag, encode_tag, url_encoded};
use crate::video::Video;

verus! {

/// The texts of `s`, each kept at its first occurrence only.
pub open spec fn dedup(s: Seq<Seq<char>>) -> Seq<Seq<char>>
    decreases s.len(),
{
    if s.len() == 0 {
        Seq::empty()
    } else {
        let r = dedup(s.drop_last());
        if s.drop_last().contains(s.last()) {
            r
        } else {
            r.push(s.last())
        }
    }
}

/// No text occurs twice in `s`.
pub open spec fn no_duplicates(s: Seq<Seq<char>>) -> bool {
    forall|i: int, j: int| 0 <= i < j < s.len() ==> s[i] != s[j]
}

/// The tags typed into the tag form, for storage: each comma-separated piece, trimmed and
/// URL-encoded, with the pieces that are empty after trimming left out.
pub open spec fn typed_tags(pieces: Seq<Seq<char>>) -> Seq<Seq<char>>
    decreases pieces.len(),
{
    if pieces.len() == 0 {
        Seq::empty()
    } else {
        let r = typed_tags(pieces.drop_last());
        let e = url_encoded(trimmed(pieces.last()));
        if e.len() == 0 {
            r
        } else {
            r.push(e)
        }
    }
}

/// The tags of a video's tag list, in order, after each list of the videos before it.
pub open spec fn all_tags(videos: Seq<Video>) -> Seq<Seq<char>>
    decreases videos.len(),
{
    if videos.len() == 0 {
        Seq::empty()
    } else {
        all_tags(videos.drop_last()) + views(videos.last().tags@)
    }
}

/// The listed texts, or no text when there is no list.
pub open spec fn or_empty(list: Option<Seq<Seq<char>>>) -> Seq<Seq<char>> {
    match list {
        Some(s) => s,
        None => Seq::empty(),
    }
}

/// The views of an optional list of strings.
pub open spec fn option_views(v: Option<Vec<String>>) -> Option<Seq<Seq<char>>> {
    match v {
        Some(l) => Some(views(l@)),
        None => None,
    }
}

/// `dedup` keeps exactly the texts of its input.
pub proof fn lemma_dedup_contains(s: Seq<Seq<char>>, x: Seq<char>)
    ensures
        dedup(s).contains(x) <==> s.contains(x),
    decreases s.len(),
{
    if s.len() > 0 {
        lemma_dedup_contains(s.drop_last(), x);
        let r = dedup(s.drop_last());
        if s.contains(x) {
            let i = choose|i: int| 0 <= i < s.len() && s[i] == x;
            if i < s.len() - 1 {
                assert(s.drop_last()[i] == x);
            }
        }
        if s.drop_last().contains(x) {
            let i = choose|i: int| 0 <= i < s.drop_last().len() && s.drop_last()[i] == x;
            assert(s[i] == x);
        }
        if !s.drop_last().contains(s.last()) {
            if r.push(s.last()).contains(x) {
                let i = choose|i: int| 0 <= i < r.push(s.last()).len() && r.push(s.last())[i] == x;
                if i < r.len() {
                    assert(r[i] == x);
                }
            }
            if r.contains(x) {
                let i = choose|i: int| 0 <= i < r.len() && r[i] == x;
                assert(r.push(s.last())[i] == x);
            }
            if x == s.last() {
                assert(r.push(s.last())[r.len() as int] == x);
            }
        } else if x == s.last() {
            let i = choose|i: int| 0 <= i < s.drop_last().len() && s.drop_last()[i] == x;
            assert(s.drop_last()[i] == x);
        }
    }
}

/// `dedup` leaves no text twice.
pub proof fn lemma_dedup_no_duplicates(s: Seq<Seq<char>>)
    ensures
        no_duplicates(dedup(s)),
    decreases s.len(),
{
    if s.len() > 0 {
        lemma_dedup_no_duplicates(s.drop_last());
        lemma_dedup_contains(s.drop_last(), s.last());
        let r = dedup(s.drop_last());
        if !s.drop_last().contains(s.last()) {
            let r2 = r.push(s.last());
            assert forall|i: int, j: int| 0 <= i < j < r2.len() implies r2[i] != r2[j] by {
                if j == r.len() {
                    assert(r2[i] == r[i]);
                    if r[i] == s.last() {
                        assert(r.contains(s.last()));
                    }
                } else {
                    assert(r2[i] == r[i]);
                    assert(r2[j] == r[j]);
                }
            }
        }
    }
}

/// Whether `v` holds a string equal to `x`.
pub fn contains_text(v: &Vec<String>, x: &String) -> (res: bool)
    ensures
        res == views(v@).contains(x@),
{
    let mut i: usize = 0;
    while i < v.len()
        invariant
            i <= v@.len(),
            forall|k: int| 0 <= k < i ==> v@[k]@ != x@,
        decreases v@.len() - i,
    {
        if v[i] == *x {
            assert(views(v@)[i as int] == x@);
            return true;
        }
        i = i + 1;
    }
    assert forall|k: int| 0 <= k < views(v@).len() implies views(v@)[k] != x@ by {
        assert(views(v@)[k] == v@[k]@);
    }
    false
}

/// Appends to `out` the strings of `items` that it does not hold yet, in order.
pub(crate) fn push_new(out: &mut Vec<String>, items: &Vec<String>, Ghost(base): Ghost<Seq<Seq<char>>>)
    requires
        views(old(out)@) == dedup(base),
    ensures
        views(final(out)@) == dedup(base + views(items@)),
{
    let mut i: usize = 0;
    assert(base + views(items@).take(0) =~= base);
    while i < items.len()
        invariant
            i <= items@.len(),
            views(out@) == dedup(base + views(items@).take(i as int)),
        decreases items@.len() - i,
    {
        let ghost prev = base + views(items@).take(i as int);
        let ghost next = base + views(items@).take(i + 1);
        assert(next =~= prev.push(items@[i as int]@));
        assert(next.drop_last() =~= prev);
        proof {
            lemma_dedup_contains(prev, items@[i as int]@);
        }
        if !contains_text(out, &items[i]) {
            let x = items[i].clone();
            out.push(x);
            assert(views(out@) =~= dedup(prev).push(items@[i as int]@));
        }
        i = i + 1;
    }
    assert(views(items@).take(items@.len() as int) =~= views(items@));
}

/// The tags typed into the tag form, ready for storage: the comma-separated pieces,
/// trimmed and URL-encoded, with empty ones left out.
pub fn parse_tag_input(tags: &str) -> (res: Vec<String>)
    ensures
        views(res@) == typed_tags(split_spec(tags@, ',')),
        forall|i: int| 0 <= i < res@.len() ==> #[trigger] res@[i]@.len() > 0,
{
    let pieces = split_by(tags, ',');
    let ghost pv = pieces@.map_values(|p: &str| p@);
    let mut res: Vec<String> = Vec::new();
    let mut i: usize = 0;
    while i < pieces.len()
        invariant
            i <= pieces@.len(),
            pv == pieces@.map_values(|p: &str| p@),
            views(res@) == typed_tags(pv.take(i as int)),
            forall|k: int| 0 <= k < res@.len() ==> #[trigger] res@[k]@.len() > 0,
        decreases pieces@.len() - i,
    {
        assert(pv.take(i + 1).drop_last() =~= pv.take(i as int));
        assert(pv.take(i + 1).last() == pieces@[i as int]@);
        let e = encode_tag(trim(pieces[i]));
        if !e.as_str().is_empty() {
            res.push(e);
            assert(views(res@) =~= typed_tags(pv.take(i as int)).push(e@));
        }
        i = i + 1;
    }
    assert(pv.take(pieces@.len() as int) =~= pv);
    res
}

/// The tags to store for a video whose tag form was submitted: the typed tags and the
/// suggested ones, each kept once.
pub fn tags_to_save(form_tags: &str, suggested: Option<Vec<String>>) -> (res: Vec<String>)
    ensures
        views(res@) == dedup(typed_tags(split_spec(form_tags@, ',')) + or_empty(
            option_views(suggested),
        )),
        no_duplicates(views(res@)),
{
    let typed = parse_tag_input(form_tags);
    let extra = match suggested {
        Some(s) => s,
        None => Vec::new(),
    };
    assert(or_empty(option_views(suggested)) =~= views(extra@));
    let mut res: Vec<String> = Vec::new();
    assert(views(res@) =~= dedup(Seq::<Seq<char>>::empty()));
    push_new(&mut res, &typed, Ghost(Seq::<Seq<char>>::empty()));
    assert(Seq::<Seq<char>>::empty() + views(typed@) =~= views(typed@));
    push_new(&mut res, &extra, Ghost(views(typed@)));
    proof {
        lemma_dedup_no_duplicates(views(typed@) + views(extra@));
    }
    res
}

/// Every tag of the archive, decoded for display, each kept once.
pub fn collect_tags(videos: &Vec<Video>) -> (res: Vec<String>)
    ensures
        views(res@) == dedup(all_tags(videos@).map_values(|t: Seq<char>| decoded_tag(t))),
        no_duplicates(views(res@)),
{
    let mut res: Vec<String> = Vec::new();
    let mut i: usize = 0;
    assert(views(res@) =~= dedup(Seq::<Seq<char>>::empty()));
    assert(all_tags(videos@.take(0)).map_values(|t: Seq<char>| decoded_tag(t)) =~= Seq::<
        Seq<char>,
    >::empty());
    while i < videos.len()
        invariant
            i <= videos@.len(),
            views(res@) == dedup(
                all_tags(videos@.take(i as int)).map_values(|t: Seq<char>| decoded_tag(t)),
            ),
        decreases videos@.len() - i,
    {
        let ghost base = all_tags(videos@.take(i as int)).map_values(|t: Seq<char>| decoded_tag(t));
        let tags = &videos[i].tags;
        let mut decoded: Vec<String> = Vec::new();
        let mut j: usize = 0;
        while j < tags.len()
            invariant
                j <= tags@.len(),
                views(decoded@) == views(tags@).take(j as int).map_values(
                    |t: Seq<char>| decoded_tag(t),
                ),
            decreases tags@.len() - j,
        {
            let d = decode_tags(tags[j].as_str());
            let ghost old_views = views(decoded@);
            let ghost dv = d@;
            decoded.push(d);
            assert(views(decoded@) =~= old_views.push(dv));
            assert(dv == decoded_tag(tags@[j as int]@));
            assert(views(tags@)[j as int] == tags@[j as int]@);
            assert(views(tags@).take(j + 1) =~= views(tags@).take(j as int).push(tags@[j as int]@));
            assert(views(decoded@) =~= views(tags@).take(j + 1).map_values(
                |t: Seq<char>| decoded_tag(t),
            ));
            j = j + 1;
        }
        assert(views(tags@).take(tags@.len() as int) =~= views(tags@));
        push_new(&mut res, &decoded, Ghost(base));
        assert(videos@.take(i + 1).drop_last() =~= videos@.take(i as int));
        assert(all_tags(videos@.take(i + 1)).map_values(|t: Seq<char>| decoded_tag(t)) =~= base
            + views(decoded@));
        i = i + 1;
    }
    assert(videos@.take(videos@.len() as int) =~= videos@);
    proof {
        lemma_dedup_no_duplicates(all_tags(videos@).map_values(|t: Seq<char>| decoded_tag(t)));
    }
    res
}

/// Adds the suggested tags, if the suggestion succeeded, after the video's own tags.
pub fn add_suggested_tags(video: &mut Video, suggested: Option<Vec<String>>)
    ensures
        views(final(video).tags@) == views(old(video).tags@) + or_empty(
            option_views(suggested),
        ),
        final(video).name == old(video).name,
        final(video).url == old(video).url,
        final(video).original == old(video).original,
        final(video).thumbnail == old(video).thumbnail,
        final(video).creation_timestamp == old(video).creation_timestamp,
{
    match suggested {
        Some(mut s) => {
            let ghost added = views(s@);
            video.tags.append(&mut s);
            assert(views(video.tags@) =~= views(old(video).tags@) + added);
        },
        None => {
            assert(views(video.tags@) =~= views(old(video).tags@) + Seq::<Seq<char>>::empty());
        },
    }
}

} // verus!

verus! {

/// The lower-case form of a text, as `str::to_lowercase` computes it.
pub uninterp spec fn lowercase(s: Seq<char>) -> Seq<char>;

/// Calls `str::to_lowercase`. Claimed: the result is the lower-case form of `s`, named
/// `lowercase`; what the Unicode case mapping does to each character is not stated.
#[verifier::external_body]
fn to_lowercase(s: &str) -> (res: String)
    ensures
        res@ == lowercase(s@),
{
    s.to_lowercase()
}

/// The tags of a fetched Coub video as they are kept: URL-decoded and lower-cased.
pub fn normalize_coub_tags(tags: &Vec<String>) -> (res: Vec<String>)
    ensures
        views(res@) == views(tags@).map_values(|t: Seq<char>| lowercase(decoded_tag(t))),
{
    let mut res: Vec<String> = Vec::new();
    let mut j: usize = 0;
    while j < tags.len()
        invariant
            j <= tags@.len(),
            views(res@) == views(tags@).take(j as int).map_values(
                |t: Seq<char>| lowercase(decoded_tag(t)),
            ),
        decreases tags@.len() - j,
    {
        let d = decode_tags(tags[j].as_str());
        let l = to_lowercase(d.as_str());
        let ghost old_views = views(res@);
        let ghost lv = l@;
        res.push(l);
        assert(views(res@) =~= old_views.push(lv));
        assert(views(tags@)[j as int] == tags@[j as int]@);
        assert(views(tags@).take(j + 1) =~= views(tags@).take(j as int).push(tags@[j as int]@));
        assert(views(res@) =~= views(tags@).take(j + 1).map_values(
            |t: Seq<char>| lowercase(decoded_tag(t)),
        ));
        j = j + 1;
    }
    assert(views(tags@).take(tags@.len() as int) =~= views(tags@));
    res
}

/// The texts of `items` joined with `sep` between consecutive ones.
pub open spec fn joined(items: Seq<Seq<char>>, sep: Seq<char>) -> Seq<char>
    decreases items.len(),
{
    if items.len() == 0 {
        Seq::empty()
    } else if items.len() == 1 {
        items[0]
    } else {
        joined(items.drop_last(), sep) + sep + items.last()
    }
}

/// The tag text shown on a video's card: its tags, decoded, joined by `, `.
pub fn card_tags(video: &Video) -> (res: String)
    ensures
        res@ == joined(views(video.tags@).map_values(|t: Seq<char>| decoded_tag(t)), ", "@),
{
    let tags = &video.tags;
    let ghost shown = views(tags@).map_values(|t: Seq<char>| decoded_tag(t));
    let mut res = String::new();
    let mut j: usize = 0;
    while j < tags.len()
        invariant
            j <= tags@.len(),
            shown == views(tags@).map_values(|t: Seq<char>| decoded_tag(t)),
            res@ == joined(shown.take(j as int), ", "@),
        decreases tags@.len() - j,
    {
        let d = decode_tags(tags[j].as_str());
        assert(shown[j as int] == d@);
        assert(shown.take(j + 1).drop_last() =~= shown.take(j as int));
        if j > 0 {
            res.append(", ");
        } else {
            assert(shown.take(0) =~= Seq::<Seq<char>>::empty());
            assert(res@ =~= Seq::<char>::empty());
        }
        res.append(d.as_str());
        assert(res@ =~= joined(shown.take(j + 1), ", "@));
        j = j + 1;
    }
    assert(shown.take(tags@.len() as int) =~= shown);
    res
}

} // verus!

verus! {

/// The pieces that are not blank, trimmed.
pub open spec fn kept_pieces(pieces: Seq<Seq<char>>) -> Seq<Seq<char>>
    decreases pieces.len(),
{
    if pieces.len() == 0 {
        Seq::empty()
    } else {
        let r = kept_pieces(pieces.drop_last());
        let t = trimmed(pieces.last());
        if t.len() == 0 {
            r
        } else {
            r.push(t)
        }
    }
}

/// Tags typed into the tag form are shown back, once decoded, as they were typed: trimmed,
/// and with the blank ones gone.
pub proof fn lemma_typed_tags_read_back(pieces: Seq<Seq<char>>)
    ensures
        typed_tags(pieces).map_values(|t: Seq<char>| decoded_tag(t)) == kept_pieces(pieces),
    decreases pieces.len(),
{
    if pieces.len() > 0 {
        lemma_typed_tags_read_back(pieces.drop_last());
        let t = trimmed(pieces.last());
        crate::urlcode::lemma_url_encoded_empty(t);
        crate::urlcode::lemma_url_decode_encode(t);
        let r = typed_tags(pieces.drop_last());
        if t.len() != 0 {
            assert(r.push(url_encoded(t)).map_values(|x: Seq<char>| decoded_tag(x)) =~= r.map_values(
                |x: Seq<char>| decoded_tag(x),
            ).push(t));
        }
    }
}

/// The position of the first video named `name`, if any.
pub fn find_video(videos: &Vec<Video>, name: &str) -> (res: Option<usize>)
    ensures
        match res {
            Some(i) => i < videos@.len() && videos@[i as int].name@ == name@ && forall|k: int|
                0 <= k < i ==> #[trigger] videos@[k].name@ != name@,
            None => forall|k: int| 0 <= k < videos@.len() ==> #[trigger] videos@[k].name@ != name@,
        },
{
    let mut i: usize = 0;
    while i < videos.len()
        invariant
            i <= videos@.len(),
            forall|k: int| 0 <= k < i ==> #[trigger] videos@[k].name@ != name@,
        decreases videos@.len() - i,
    {
        if crate::text::same_text(videos[i].name.as_str(), name) {
            return Some(i);
        }
        i = i + 1;
    }
    None
}

/// The tags of a video after `added` ones are attached: its tags, then the new ones, each
/// kept once.
pub fn tags_with_added(existing: &Vec<String>, added: &Vec<String>) -> (res: Vec<String>)
    ensures
        views(res@) == dedup(views(existing@) + views(added@)),
        no_duplicates(views(res@)),
{
    let mut res: Vec<String> = Vec::new();
    assert(views(res@) =~= dedup(Seq::<Seq<char>>::empty()));
    push_new(&mut res, existing, Ghost(Seq::<Seq<char>>::empty()));
    assert(Seq::<Seq<char>>::empty() + views(existing@) =~= views(existing@));
    push_new(&mut res, added, Ghost(views(existing@)));
    proof {
        lemma_dedup_no_duplicates(views(existing@) + views(added@));
    }
    res
}

} // verus!

verus! {

/// The total length of the texts.
pub open spec fn total_len(items: Seq<Seq<char>>) -> nat
    decreases items.len(),
{
    if items.len() == 0 {
        0
    } else {
        total_len(items.drop_last()) + items.last().len()
    }
}

/// Joining splits at every boundary: the texts before position `k` joined, the separator,
/// then the texts from `k` on joined. So `sep` stands between every two consecutive texts.
pub proof fn lemma_joined_split(items: Seq<Seq<char>>, sep: Seq<char>, k: int)
    requires
        0 < k < items.len(),
    ensures
        joined(items, sep) == joined(items.take(k), sep) + sep + joined(items.skip(k), sep),
    decreases items.len(),
{
    let n = items.len() as int;
    if k == n - 1 {
        assert(items.take(k) =~= items.drop_last());
        assert(items.skip(k) =~= seq![items.last()]);
        assert(joined(seq![items.last()], sep) == items.last());
    } else {
        lemma_joined_split(items.drop_last(), sep, k);
        assert(items.drop_last().take(k) =~= items.take(k));
        assert(items.skip(k).drop_last() =~= items.drop_last().skip(k));
        assert(items.skip(k).last() == items.last());
        assert(joined(items.skip(k), sep) == joined(items.skip(k).drop_last(), sep) + sep
            + items.skip(k).last());
        assert(joined(items, sep) =~= joined(items.take(k), sep) + sep + joined(items.skip(k), sep));
    }
}

/// No texts join to the empty text; `n` joined texts take their own lengths plus `n - 1`
/// separators.
pub proof fn lemma_joined_len(items: Seq<Seq<char>>, sep: Seq<char>)
    ensures
        items.len() == 0 ==> joined(items, sep) == Seq::<char>::empty(),
        items.len() >= 1 ==> joined(items, sep).len() == total_len(items) + (items.len() - 1)
            * sep.len(),
    decreases items.len(),
{
    if items.len() == 0 {
    } else if items.len() == 1 {
        assert(items.drop_last() =~= Seq::<Seq<char>>::empty());
        assert((items.len() - 1) * sep.len() == 0) by (nonlinear_arith)
            requires
                items.len() == 1,
        ;
        assert(total_len(items.drop_last()) == 0);
        assert(total_len(items) == items[0].len());
        assert(joined(items, sep) == items[0]);
    } else {
        lemma_joined_len(items.drop_last(), sep);
        assert(items.drop_last().len() >= 1);
        assert(joined(items.drop_last(), sep).len() == total_len(items.drop_last()) + (items.len()
            - 2) * sep.len());
        assert(joined(items, sep) == joined(items.drop_last(), sep) + sep + items.last());
        assert((items.len() - 1) * sep.len() == (items.len() - 2) * sep.len() + sep.len())
            by (nonlinear_arith);
        assert(total_len(items) == total_len(items.drop_last()) + items.last().len());
    }
}

/// A joining begins with the first text.
pub proof fn lemma_joined_first(items: Seq<Seq<char>>, sep: Seq<char>)
    requires
        items.len() >= 1,
    ensures
        joined(items, sep).len() >= items[0].len(),
        joined(items, sep).take(items[0].len() as int) == items[0],
    decreases items.len(),
{
    if items.len() > 1 {
        lemma_joined_first(items.drop_last(), sep);
        let jd = joined(items.drop_last(), sep);
        assert(joined(items, sep).take(items[0].len() as int) =~= jd.take(items[0].len() as int));
    }
}

/// Every text appears whole in the joining, right after the joining of the texts before it
/// and a separator.
pub proof fn lemma_joined_holds_each(items: Seq<Seq<char>>, sep: Seq<char>, i: int)
    requires
        0 < i < items.len(),
    ensures
        joined(items, sep).subrange(
            (joined(items.take(i), sep).len() + sep.len()) as int,
            (joined(items.take(i), sep).len() + sep.len() + items[i].len()) as int,
        ) == items[i],
{
    lemma_joined_split(items, sep, i);
    lemma_joined_first(items.skip(i), sep);
    let a = (joined(items.take(i), sep).len() + sep.len()) as int;
    let rest = joined(items.skip(i), sep);
    assert(joined(items, sep).subrange(a, a + items[i].len()) =~= rest.take(
        items.skip(i)[0].len() as int,
    ));
}

} // verus!
