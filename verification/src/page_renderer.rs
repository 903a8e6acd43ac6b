use vstd::prelude::*;
use crate::tags::{card_tags, joined};
use crate::text::views;
use crate::urlcode::decoded_tag;
use crate::video::Video;
use crate::status::Status;

verus! {

/// The page up to the content of its `style` element.
pub const PAGE_START: &'static str = "<!DOCTYPE html><html lang=\"en\"><head><meta charset=\"utf-8\"><meta name=\"viewport\" content=\"width=device-width, initial-scale=1\"><title>Couber</title><script src=\"https://unpkg.com/htmx.org@2.0.8\"></script><link rel=\"stylesheet\" href=\"https://cdn.jsdelivr.net/npm/@tarekraafat/autocomplete.js@10.2.7/dist/css/autoComplete.min.css\"><script src=\"https://cdn.jsdelivr.net/npm/@tarekraafat/autocomplete.js@10.2.7/dist/autoComplete.min.js\"></script><style>";

/// From the end of the `style` element to the end of the page's header.
pub const PAGE_BEFORE_GRID: &'static str = "</head><body><header><div class=\"tag-search\"><input id=\"tag-input\" type=\"text\" placeholder=\"Filter by tag…\" autocomplete=\"off\"></div><button class=\"btn btn-icon\" onclick=\"document.getElementById('add-video-dialog').showModal()\">+</button></header>";

/// From the end of the page's main part to its last `script` element: the dialogs.
pub const PAGE_AFTER_GRID: &'static str = "<dialog id=\"add-video-dialog\" onclose=\"document.getElementById('video-url').value=''; document.getElementById('add-video-status').innerHTML='';\"><div class=\"dialog-header\"><h2>Add Video</h2><button class=\"btn btn-secondary\" onclick=\"document.getElementById('add-video-dialog').close()\">×</button></div><form hx-post=\"/add-video\" hx-target=\"#add-video-status\" hx-swap=\"innerHTML\"><div class=\"dialog-body\"><label for=\"video-url\">Video URL</label><input type=\"text\" name=\"url\" id=\"video-url\" placeholder=\"https://coub.com/view/... or any video URL\" required><div id=\"add-video-status\" class=\"status-msg\"></div></div><div class=\"dialog-footer\"><button type=\"button\" class=\"btn btn-secondary\" onclick=\"document.getElementById('add-video-dialog').close()\">Close</button><button type=\"submit\" class=\"btn\">Add Video<span class=\"htmx-indicator\">…</span></button></div></form></dialog><dialog id=\"tags-dialog\"><div class=\"dialog-header\"><h2>Edit Tags</h2><button class=\"btn btn-secondary\" onclick=\"document.getElementById('tags-dialog').close()\">×</button></div><div class=\"dialog-body\"><input type=\"hidden\" id=\"tags-video-name\"><div class=\"tags-section\"><label>Current tags</label><div id=\"tags-chips\" class=\"chips-container\"></div></div><div class=\"tags-section\"><label>Add tag</label><div class=\"tag-add-row\"><input id=\"tags-new-input\" type=\"text\" placeholder=\"Type a tag and press Enter…\" autocomplete=\"off\"></div></div><div class=\"tags-section\"><div class=\"suggest-header\"><label>Suggested tags</label><div class=\"suggest-actions\"><button id=\"select-all-btn\" type=\"button\" class=\"btn btn-secondary btn-sm\" onclick=\"selectAllSuggested()\" hidden>Select all</button><button id=\"suggest-btn\" type=\"button\" class=\"btn btn-secondary btn-sm\" onclick=\"suggestTags()\">Suggest from image</button></div></div><div id=\"suggested-chips\" class=\"chips-container\"></div><div id=\"suggest-status\" class=\"status-msg\"></div></div><div id=\"tags-status\" class=\"status-msg\"></div></div><div class=\"dialog-footer\"><button type=\"button\" class=\"btn btn-danger\" onclick=\"deleteVideo()\">Delete video</button><div class=\"footer-right\"><button type=\"button\" class=\"btn btn-secondary\" onclick=\"document.getElementById('tags-dialog').close()\">Close</button><button id=\"save-tags-btn\" type=\"button\" class=\"btn\" onclick=\"saveTags()\">Save Tags</button></div></div><div id=\"delete-status\" class=\"status-msg\"></div></dialog>";

/// The end of the page, after its script.
pub const PAGE_END: &'static str = "</script></body></html>";

/// A card's opening up to the value of its tag attribute.
pub const CARD_OPEN: &'static str = "<div class=\"video-card invisible\" data-tags=\"";

/// Between the card's tag attribute and its poster attribute.
pub const CARD_POSTER: &'static str = "\"><img data-poster=\"";

/// Between the poster and the video source attributes.
pub const CARD_SOURCE: &'static str = "\" data-src=\"";

/// Between the video source and the video name attributes.
pub const CARD_NAME: &'static str = "\" data-video-name=\"";

/// The rest of a card, after its video name attribute.
pub const CARD_CLOSE: &'static str = "\" loading=\"lazy\"></img><div class=\"video-overlay\"><span class=\"video-tags\"></span><button class=\"video-edit-btn\">Edit</button></div></div>";

/// The HTML escape of one character: `&`, `<`, `>` and `"` become entities.
pub open spec fn html_escaped_char(c: char) -> Seq<char> {
    if c == '&' {
        "&amp;"@
    } else if c == '<' {
        "&lt;"@
    } else if c == '>' {
        "&gt;"@
    } else if c == '"' {
        "&quot;"@
    } else {
        seq![c]
    }
}

/// The HTML escape of a text.
pub open spec fn html_escaped(s: Seq<char>) -> Seq<char>
    decreases s.len(),
{
    if s.len() == 0 {
        Seq::empty()
    } else {
        html_escaped(s.drop_last()) + html_escaped_char(s.last())
    }
}

/// The tag text shown on a video's card.
pub open spec fn card_tags_text(v: Video) -> Seq<char> {
    joined(views(v.tags@).map_values(|t: Seq<char>| decoded_tag(t)), ", "@)
}

/// The HTML of a video's card.
pub open spec fn card_html(v: Video) -> Seq<char> {
    CARD_OPEN@ + html_escaped(card_tags_text(v)) + CARD_POSTER@ + html_escaped(v.thumbnail@)
        + CARD_SOURCE@ + html_escaped(v.url@) + CARD_NAME@ + html_escaped(v.name@) + CARD_CLOSE@
}

/// The HTML of the cards of the videos, in order.
pub open spec fn cards_html(videos: Seq<Video>) -> Seq<char>
    decreases videos.len(),
{
    if videos.len() == 0 {
        Seq::empty()
    } else {
        cards_html(videos.drop_last()) + card_html(videos.last())
    }
}

/// The page's main part: the grid holding the cards of the videos, in order.
pub open spec fn grid_html(videos: Seq<Video>) -> Seq<char> {
    "<main><div id=\"videos-container\" class=\"videos-grid\">"@ + cards_html(videos)
        + "</div></main>"@
}

/// The HTML of the archive's page showing the videos; the style sheet and the script are
/// embedded verbatim in the page's `style` element and in its last `script` element.
pub open spec fn page_html(videos: Seq<Video>, style_sheet: Seq<char>, script: Seq<char>) -> Seq<
    char,
> {
    PAGE_START@ + style_sheet + "</style>"@ + PAGE_BEFORE_GRID@ + grid_html(videos)
        + PAGE_AFTER_GRID@ + "<script>"@ + script + PAGE_END@
}

/// The opening of a status line's element for a success or a failure.
pub open spec fn status_open(success: bool) -> Seq<char> {
    if success {
        "<span class=\"status-success\">"@
    } else {
        "<span class=\"status-error\">"@
    }
}

/// Calls `Render::render` of `maud` on a string. Claimed: `&`, `<`, `>` and `"` are
/// replaced by their entities and every other character is kept, which is what the crate's
/// `escape_to_string` does byte by byte.
#[verifier::external_body]
fn html_escape(text: &str) -> (res: String)
    ensures
        res@ == html_escaped(text@),
{
    maud::Render::render(text).into_string()
}

/// An escaped text holds none of the characters that could end an attribute value or
/// start a tag, so what a video's metadata holds cannot change the page's structure.
pub proof fn lemma_escaped_is_inert(s: Seq<char>)
    ensures
        forall|i: int| 0 <= i < html_escaped(s).len() ==> {
            let c = #[trigger] html_escaped(s)[i];
            c != '<' && c != '>' && c != '"'
        },
    decreases s.len(),
{
    if s.len() > 0 {
        lemma_escaped_is_inert(s.drop_last());
        reveal_strlit("&amp;");
        reveal_strlit("&lt;");
        reveal_strlit("&gt;");
        reveal_strlit("&quot;");
        let a = html_escaped(s.drop_last());
        let b = html_escaped_char(s.last());
        assert forall|i: int| 0 <= i < (a + b).len() implies {
            let c = #[trigger] (a + b)[i];
            c != '<' && c != '>' && c != '"'
        } by {
            if i >= a.len() {
                assert((a + b)[i] == b[i - a.len()]);
            } else {
                assert((a + b)[i] == a[i]);
            }
        }
    }
}

/// The HTML of a video's card.
pub fn render_video_card(video: &Video) -> (res: String)
    ensures
        res@ == card_html(*video),
{
    let tags = card_tags(video);
    let mut res = String::from_str(CARD_OPEN);
    res.append(html_escape(tags.as_str()).as_str());
    res.append(CARD_POSTER);
    res.append(html_escape(video.thumbnail.as_str()).as_str());
    res.append(CARD_SOURCE);
    res.append(html_escape(video.url.as_str()).as_str());
    res.append(CARD_NAME);
    res.append(html_escape(video.name.as_str()).as_str());
    res.append(CARD_CLOSE);
    res
}

/// The archive's page: a search field, the grid of video cards in the given order, and the
/// dialogs that add videos and edit tags, with the style sheet and the script embedded.
pub fn render_page(videos: &[Video], style_sheet: &str, script: &str) -> (res: String)
    ensures
        res@ == page_html(videos@, style_sheet@, script@),
{
    let mut res = String::from_str(PAGE_START);
    res.append(style_sheet);
    res.append("</style>");
    res.append(PAGE_BEFORE_GRID);
    res.append("<main><div id=\"videos-container\" class=\"videos-grid\">");
    let ghost head = res@;
    let mut i: usize = 0;
    assert(videos@.take(0) =~= Seq::<Video>::empty());
    while i < videos.len()
        invariant
            i <= videos@.len(),
            res@ == head + cards_html(videos@.take(i as int)),
        decreases videos@.len() - i,
    {
        let card = render_video_card(&videos[i]);
        res.append(card.as_str());
        assert(videos@.take(i + 1).drop_last() =~= videos@.take(i as int));
        i = i + 1;
    }
    assert(videos@.take(videos@.len() as int) =~= videos@);
    res.append("</div></main>");
    res.append(PAGE_AFTER_GRID);
    res.append("<script>");
    res.append(script);
    res.append(PAGE_END);
    res
}

/// The page embeds its style sheet and its script verbatim, not escaped: the style sheet
/// right after the `<style>` that ends the page's head start and before `</style>`, the
/// script between `<script>` and the `</script></body></html>` that ends the page.
pub proof fn lemma_page_embeds_verbatim(videos: Seq<Video>, style_sheet: Seq<char>, script: Seq<char>)
    ensures
        exists|head: Seq<char>| #[trigger] page_html(videos, style_sheet, script) == head + "<script>"@
            + script + "</script></body></html>"@,
        exists|head: Seq<char>, tail: Seq<char>|
            #[trigger] page_html(videos, style_sheet, script) == head + "<style>"@ + style_sheet
                + "</style>"@ + tail,
        page_html(videos, style_sheet, script).len() == PAGE_START@.len() + style_sheet.len()
            + "</style>"@.len() + PAGE_BEFORE_GRID@.len() + grid_html(videos).len()
            + PAGE_AFTER_GRID@.len() + "<script>"@.len() + script.len() + "</script></body></html>"@.len(),
{
    let page = page_html(videos, style_sheet, script);
    let head = PAGE_START@ + style_sheet + "</style>"@ + PAGE_BEFORE_GRID@ + grid_html(videos)
        + PAGE_AFTER_GRID@;
    assert(PAGE_END@ == "</script></body></html>"@);
    assert(page =~= head + "<script>"@ + script + "</script></body></html>"@);
    reveal_strlit("<style>");
    reveal_strlit("<!DOCTYPE html><html lang=\"en\"><head><meta charset=\"utf-8\"><meta name=\"viewport\" content=\"width=device-width, initial-scale=1\"><title>Couber</title><script src=\"https://unpkg.com/htmx.org@2.0.8\"></script><link rel=\"stylesheet\" href=\"https://cdn.jsdelivr.net/npm/@tarekraafat/autocomplete.js@10.2.7/dist/css/autoComplete.min.css\"><script src=\"https://cdn.jsdelivr.net/npm/@tarekraafat/autocomplete.js@10.2.7/dist/autoComplete.min.js\"></script><style>");
    let n = PAGE_START@.len();
    let h = PAGE_START@.subrange(0, n - 7);
    assert(PAGE_START@ =~= h + "<style>"@);
    let tail = PAGE_BEFORE_GRID@ + grid_html(videos) + PAGE_AFTER_GRID@ + "<script>"@ + script
        + PAGE_END@;
    assert(page =~= h + "<style>"@ + style_sheet + "</style>"@ + tail);
}

/// The cards stand in the order of the videos: the cards of the videos before position `i`,
/// the card of video `i`, then the cards of the videos after it. No videos give no cards.
pub proof fn lemma_cards_in_order(videos: Seq<Video>, i: int)
    requires
        0 <= i < videos.len(),
    ensures
        cards_html(videos) == cards_html(videos.take(i)) + card_html(videos[i]) + cards_html(
            videos.skip(i + 1),
        ),
        cards_html(Seq::<Video>::empty()) == Seq::<char>::empty(),
    decreases videos.len(),
{
    if i == videos.len() - 1 {
        assert(videos.take(i) =~= videos.drop_last());
        assert(videos.skip(i + 1) =~= Seq::<Video>::empty());
        assert(cards_html(videos) =~= cards_html(videos.take(i)) + card_html(videos[i])
            + Seq::<char>::empty());
    } else {
        lemma_cards_in_order(videos.drop_last(), i);
        assert(videos.drop_last().take(i) =~= videos.take(i));
        assert(videos.skip(i + 1).drop_last() =~= videos.drop_last().skip(i + 1));
        assert(videos.skip(i + 1).last() == videos.last());
        assert(cards_html(videos) =~= cards_html(videos.take(i)) + card_html(videos[i])
            + cards_html(videos.skip(i + 1)));
    }
}

/// The page shows the cards, and nothing else, inside its grid.
pub proof fn lemma_page_holds_grid(videos: Seq<Video>, style_sheet: Seq<char>, script: Seq<char>)
    ensures
        exists|head: Seq<char>, tail: Seq<char>|
            #[trigger] page_html(videos, style_sheet, script) == head
                + "<main><div id=\"videos-container\" class=\"videos-grid\">"@ + cards_html(videos)
                + "</div></main>"@ + tail,
{
    let head = PAGE_START@ + style_sheet + "</style>"@ + PAGE_BEFORE_GRID@;
    let tail = PAGE_AFTER_GRID@ + "<script>"@ + script + PAGE_END@;
    assert(page_html(videos, style_sheet, script) =~= head
        + "<main><div id=\"videos-container\" class=\"videos-grid\">"@ + cards_html(videos)
        + "</div></main>"@ + tail);
}

/// Each of the card's attributes holds the escaped value it shows: the decoded tags, the
/// thumbnail, the video's address and its name.
pub proof fn lemma_card_attributes(v: Video)
    ensures
        exists|pre: Seq<char>, post: Seq<char>|
            #[trigger] card_html(v) == pre + " data-tags=\""@ + html_escaped(card_tags_text(v)) + "\""@
                + post,
        exists|pre: Seq<char>, post: Seq<char>|
            #[trigger] card_html(v) == pre + " data-poster=\""@ + html_escaped(v.thumbnail@) + "\""@
                + post,
        exists|pre: Seq<char>, post: Seq<char>|
            #[trigger] card_html(v) == pre + " data-src=\""@ + html_escaped(v.url@) + "\""@ + post,
        exists|pre: Seq<char>, post: Seq<char>|
            #[trigger] card_html(v) == pre + " data-video-name=\""@ + html_escaped(v.name@) + "\""@
                + post,
{
    lemma_card_tags_attribute(v);
    lemma_card_poster_attribute(v);
    lemma_card_source_attribute(v);
    lemma_card_name_attribute(v);
}

#[verifier::spinoff_prover]
proof fn lemma_card_tags_attribute(v: Video)
    ensures
        exists|pre: Seq<char>, post: Seq<char>|
            #[trigger] card_html(v) == pre + " data-tags=\""@ + html_escaped(card_tags_text(v)) + "\""@
                + post,
{
    reveal_strlit("<div class=\"video-card invisible\" data-tags=\"");
    reveal_strlit("\"><img data-poster=\"");
    reveal_strlit(" data-tags=\"");
    reveal_strlit("\"");
    let open = CARD_OPEN@;
    let pre = open.subrange(0, open.len() - 12);
    assert(open =~= pre + " data-tags=\""@);
    let rest = CARD_POSTER@.subrange(1, CARD_POSTER@.len() as int);
    assert(CARD_POSTER@ =~= "\""@ + rest);
    let post = rest + html_escaped(v.thumbnail@) + CARD_SOURCE@ + html_escaped(v.url@) + CARD_NAME@
        + html_escaped(v.name@) + CARD_CLOSE@;
    assert(card_html(v) =~= pre + " data-tags=\""@ + html_escaped(card_tags_text(v)) + "\""@
        + post);
}

#[verifier::spinoff_prover]
proof fn lemma_card_poster_attribute(v: Video)
    ensures
        exists|pre: Seq<char>, post: Seq<char>|
            #[trigger] card_html(v) == pre + " data-poster=\""@ + html_escaped(v.thumbnail@) + "\""@
                + post,
{
    reveal_strlit("\"><img data-poster=\"");
    reveal_strlit("\" data-src=\"");
    reveal_strlit(" data-poster=\"");
    reveal_strlit("\"");
    let poster = CARD_POSTER@;
    let pp = poster.subrange(0, poster.len() - 14);
    assert(poster =~= pp + " data-poster=\""@);
    let rest = CARD_SOURCE@.subrange(1, CARD_SOURCE@.len() as int);
    assert(CARD_SOURCE@ =~= "\""@ + rest);
    let pre = CARD_OPEN@ + html_escaped(card_tags_text(v)) + pp;
    let post = rest + html_escaped(v.url@) + CARD_NAME@ + html_escaped(v.name@) + CARD_CLOSE@;
    assert(card_html(v) =~= pre + " data-poster=\""@ + html_escaped(v.thumbnail@) + "\""@ + post);
}

#[verifier::spinoff_prover]
proof fn lemma_card_source_attribute(v: Video)
    ensures
        exists|pre: Seq<char>, post: Seq<char>|
            #[trigger] card_html(v) == pre + " data-src=\""@ + html_escaped(v.url@) + "\""@ + post,
{
    reveal_strlit("\" data-src=\"");
    reveal_strlit("\" data-video-name=\"");
    reveal_strlit(" data-src=\"");
    reveal_strlit("\"");
    let q = "\""@;
    assert(CARD_SOURCE@ =~= q + " data-src=\""@);
    let rest = CARD_NAME@.subrange(1, CARD_NAME@.len() as int);
    assert(CARD_NAME@ =~= q + rest);
    let pre = CARD_OPEN@ + html_escaped(card_tags_text(v)) + CARD_POSTER@ + html_escaped(
        v.thumbnail@,
    ) + q;
    let post = rest + html_escaped(v.name@) + CARD_CLOSE@;
    assert(card_html(v) =~= pre + " data-src=\""@ + html_escaped(v.url@) + q + post);
}

#[verifier::spinoff_prover]
proof fn lemma_card_name_attribute(v: Video)
    ensures
        exists|pre: Seq<char>, post: Seq<char>|
            #[trigger] card_html(v) == pre + " data-video-name=\""@ + html_escaped(v.name@) + "\""@
                + post,
{
    reveal_strlit("\" data-video-name=\"");
    reveal_strlit(" data-video-name=\"");
    reveal_strlit("\"");
    reveal_strlit("\" loading=\"lazy\"></img><div class=\"video-overlay\"><span class=\"video-tags\"></span><button class=\"video-edit-btn\">Edit</button></div></div>");
    let q = "\""@;
    assert(CARD_NAME@ =~= q + " data-video-name=\""@);
    let rest = CARD_CLOSE@.subrange(1, CARD_CLOSE@.len() as int);
    assert(CARD_CLOSE@ =~= q + rest);
    let pre = CARD_OPEN@ + html_escaped(card_tags_text(v)) + CARD_POSTER@ + html_escaped(
        v.thumbnail@,
    ) + CARD_SOURCE@ + html_escaped(v.url@) + q;
    assert(card_html(v) =~= pre + " data-video-name=\""@ + html_escaped(v.name@) + q + rest);
}

/// The HTML of a status line: a `span` marked as success or error around the escaped text.
pub fn render_status(status: &Status) -> (res: String)
    ensures
        res@ == status_open(status.success) + html_escaped(status.text@) + "</span>"@,
{
    let mut res = if status.success {
        String::from_str("<span class=\"status-success\">")
    } else {
        String::from_str("<span class=\"status-error\">")
    };
    res.append(html_escape(status.text.as_str()).as_str());
    res.append("</span>");
    res
}

} // verus!
