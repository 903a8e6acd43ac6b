use couber::json::{tags_column, tags_from_column};
use couber::mime::mime_type_from_path;
use couber::page_renderer::{render_page, render_status, render_video_card, PAGE_END, PAGE_START};
use couber::naming::{calculate_hash, metadata_file_name, thumbnail_file_name};
use couber::records::{timestamp_column, timestamp_from_column, video_from_row};
use couber::status::{Status, added_status, error_status, refused_status, tags_saved_status, ApiFailure};
use couber::submission::{form_submission, video_source, SubmitError, VideoSource};
use couber::tagger::{image_data_url, tag_request, tags_from_reply, TaggerError, TAG_PROMPT};
use couber::tags::{
    add_suggested_tags, card_tags, collect_tags, find_video, normalize_coub_tags, parse_tag_input,
    tags_to_save, tags_with_added,
};
use couber::text::{last_piece, same_text, split_by, starts_with, trim};
use couber::urlcode::{decode_tags, encode_tag};
use couber::video::{sort_newest_first, Video};
use couber::video_fetcher::VideoFetcher;
use couber::video_store::VideoStore;
use std::path::PathBuf;

fn strings(items: &[&str]) -> Vec<String> {
    items.iter().map(|s| s.to_string()).collect()
}

fn video(name: &str, tags: &[&str], ts: u32) -> Video {
    Video {
        name: name.to_string(),
        tags: strings(tags),
        url: format!("{}.mp4", name),
        original: format!("{}.orig.mp4", name),
        thumbnail: format!("{}.png", name),
        creation_timestamp: ts,
    }
}

#[test]
fn trim_removes_unicode_white_space() {
    assert_eq!(trim("  \u{3000}x y\t\n"), "x y");
    assert_eq!(trim("   "), "");
    assert_eq!(trim(""), "");
    assert_eq!(trim("a"), "a");
}

#[test]
fn split_keeps_empty_pieces() {
    assert_eq!(split_by("a,,b,", ','), vec!["a", "", "b", ""]);
    assert_eq!(split_by("", ','), vec![""]);
}

#[test]
fn prefix_and_last_piece() {
    assert!(starts_with("https://coub.com/view/x", "https://coub.com"));
    assert!(!starts_with("https://coub.co", "https://coub.com"));
    assert_eq!(last_piece("a/b/c", '/'), "c");
    assert_eq!(last_piece("a/b/", '/'), "");
    assert_eq!(last_piece("abc", '/'), "abc");
    assert!(same_text("abc", "abc"));
    assert!(!same_text("abc", "abd"));
}

#[test]
fn decode_tags_decodes_percent_escapes() {
    assert_eq!(decode_tags("hello%20world"), "hello world");
    assert_eq!(decode_tags("caf%C3%A9"), "café");
    assert_eq!(decode_tags("100%"), "100%");
    assert_eq!(decode_tags("%zz"), "%zz");
    assert_eq!(decode_tags("a+b"), "a+b");
}

#[test]
fn decode_tags_gives_empty_on_invalid_utf8() {
    assert_eq!(decode_tags("%FF"), "");
}

#[test]
fn encode_tag_escapes_reserved_bytes() {
    assert_eq!(encode_tag("café au lait"), "caf%C3%A9%20au%20lait");
    assert_eq!(encode_tag("a-b_c.d~e"), "a-b_c.d~e");
    assert_eq!(encode_tag(""), "");
}

#[test]
fn encoded_tags_decode_back() {
    for s in ["héllo wörld/?&", "100%", "", "日本語 タグ", "a,b"] {
        assert_eq!(decode_tags(&encode_tag(s)), s);
    }
}

#[test]
fn mime_type_follows_extension() {
    assert_eq!(mime_type_from_path("videos/abc/abc.thumbnail.png"), "image/png");
    assert_eq!(mime_type_from_path("photo.jpeg"), "image/jpeg");
    assert_eq!(mime_type_from_path("photo.jpg"), "image/jpeg");
    assert_eq!(mime_type_from_path("anim.gif"), "image/gif");
    assert_eq!(mime_type_from_path("x.webp/"), "image/webp");
    assert_eq!(mime_type_from_path("x.webp/."), "image/webp");
    assert_eq!(mime_type_from_path("image.PNG"), "image/jpeg");
    assert_eq!(mime_type_from_path("dir/.png"), "image/jpeg");
    assert_eq!(mime_type_from_path("x.png/.."), "image/jpeg");
    assert_eq!(mime_type_from_path("noext"), "image/jpeg");
    assert_eq!(mime_type_from_path(""), "image/jpeg");
    assert_eq!(mime_type_from_path("/"), "image/jpeg");
}

#[test]
fn video_name_is_prefix_of_sha256_hex() {
    assert_eq!(calculate_hash("https://example.com/video.mp4"), "da09b2ab4d");
    assert_eq!(calculate_hash(""), "e3b0c44298");
    assert_eq!(calculate_hash("x").len(), 10);
}

#[test]
fn file_names_of_a_video() {
    assert_eq!(metadata_file_name("abc"), "abc.js");
    assert_eq!(thumbnail_file_name("abc"), "abc.thumbnail.png");
}

#[test]
fn sort_newest_first_is_stable() {
    let videos = vec![
        video("a", &[], 5),
        video("b", &[], 9),
        video("c", &[], 5),
        video("d", &[], 1),
        video("e", &[], 9),
    ];
    let sorted = sort_newest_first(videos);
    let names: Vec<&str> = sorted.iter().map(|v| v.name.as_str()).collect();
    assert_eq!(names, vec!["b", "e", "a", "c", "d"]);
    assert!(sort_newest_first(vec![]).is_empty());
}

#[test]
fn parse_tag_input_trims_encodes_and_drops_blanks() {
    assert_eq!(
        parse_tag_input(" funny , cats,, ,dog food"),
        strings(&["funny", "cats", "dog%20food"])
    );
    assert!(parse_tag_input("").is_empty());
    assert!(parse_tag_input(" , ,").is_empty());
}

#[test]
fn typed_tags_read_back_as_typed() {
    let saved = parse_tag_input(" héllo , x y ");
    let shown: Vec<String> = saved.iter().map(|t| decode_tags(t)).collect();
    assert_eq!(shown, strings(&["héllo", "x y"]));
}

#[test]
fn tags_to_save_merges_without_duplicates() {
    assert_eq!(
        tags_to_save("a,b,a", Some(strings(&["b", "c"]))),
        strings(&["a", "b", "c"])
    );
    assert_eq!(tags_to_save("x", None), strings(&["x"]));
}

#[test]
fn collect_tags_decodes_and_dedups() {
    let videos = vec![video("v1", &["a%20b", "c"], 1), video("v2", &["c", "%FF", "a b"], 2)];
    assert_eq!(collect_tags(&videos), strings(&["a b", "c", ""]));
    assert!(collect_tags(&vec![]).is_empty());
}

#[test]
fn normalize_coub_tags_decodes_and_lowercases() {
    assert_eq!(
        normalize_coub_tags(&strings(&["Funny%20Cats", "DOG", "%FF"])),
        strings(&["funny cats", "dog", ""])
    );
}

#[test]
fn card_tags_joins_decoded_tags() {
    assert_eq!(card_tags(&video("v", &["a%20b", "c"], 0)), "a b, c");
    assert_eq!(card_tags(&video("v", &["only"], 0)), "only");
    assert_eq!(card_tags(&video("v", &[], 0)), "");
}

#[test]
fn add_suggested_tags_appends() {
    let mut v = video("v", &["a"], 3);
    add_suggested_tags(&mut v, Some(strings(&["a", "b"])));
    assert_eq!(v.tags, strings(&["a", "a", "b"]));
    add_suggested_tags(&mut v, None);
    assert_eq!(v.tags, strings(&["a", "a", "b"]));
    assert_eq!(v.creation_timestamp, 3);
}

#[test]
fn find_video_and_added_tags() {
    let videos = vec![video("a", &[], 1), video("b", &[], 2), video("b", &[], 3)];
    assert_eq!(find_video(&videos, "b"), Some(1));
    assert_eq!(find_video(&videos, "z"), None);
    assert_eq!(
        tags_with_added(&strings(&["x", "y"]), &strings(&["y", "z", "z"])),
        strings(&["x", "y", "z"])
    );
}

#[test]
fn tags_column_round_trip() {
    let column = tags_column(&strings(&["a", "b", "a"]));
    assert_eq!(column, "[\"a\",\"b\"]");
    assert_eq!(tags_from_column(&column), strings(&["a", "b"]));
    let tricky = strings(&["say \"hi\"", "back\\slash", "tab\there", "\u{1}"]);
    let column = tags_column(&tricky);
    assert_eq!(column, "[\"say \\\"hi\\\"\",\"back\\\\slash\",\"tab\\there\",\"\\u0001\"]");
    assert_eq!(tags_from_column(&column), tricky);
    assert_eq!(tags_column(&vec![]), "[]");
}

#[test]
fn tags_from_column_tolerates_garbage() {
    assert!(tags_from_column("not json").is_empty());
    assert!(tags_from_column("[]").is_empty());
    assert!(tags_from_column("{\"a\":1}").is_empty());
}

#[test]
fn timestamps_round_trip_and_truncate() {
    assert_eq!(timestamp_from_column(timestamp_column(12345)), 12345);
    assert_eq!(timestamp_from_column(timestamp_column(u32::MAX)), u32::MAX);
    assert_eq!(timestamp_from_column(4294967297), 1);
    assert_eq!(timestamp_from_column(-1), u32::MAX);
}

#[test]
fn video_from_row_reads_columns() {
    let v = video_from_row(
        "toto".to_string(),
        "video.mp4".to_string(),
        "[\"x\"]",
        "ori.mp4".to_string(),
        "thumbnail.png".to_string(),
        12345,
    );
    assert_eq!(v.name, "toto");
    assert_eq!(v.url, "video.mp4");
    assert_eq!(v.tags, strings(&["x"]));
    assert_eq!(v.original, "ori.mp4");
    assert_eq!(v.thumbnail, "thumbnail.png");
    assert_eq!(v.creation_timestamp, 12345);
}

#[test]
fn classify_urls() {
    match video_source("https://coub.com/view/abc123") {
        VideoSource::Coub { name } => assert_eq!(name, "abc123"),
        other => panic!("unexpected {:?}", other),
    }
    match video_source("https://youtube.com/watch?v=1") {
        VideoSource::Generic { url } => assert_eq!(url, "https://youtube.com/watch?v=1"),
        other => panic!("unexpected {:?}", other),
    }
    match video_source(" https://coub.com/view/abc") {
        VideoSource::Generic { url } => assert_eq!(url, " https://coub.com/view/abc"),
        other => panic!("unexpected {:?}", other),
    }
}

#[test]
fn form_submission_trims_and_refuses_blank() {
    assert!(matches!(form_submission("   "), Err(SubmitError::MissingUrl)));
    assert!(matches!(form_submission(""), Err(SubmitError::MissingUrl)));
    match form_submission("  https://coub.com/view/x  ") {
        Ok(VideoSource::Coub { name }) => assert_eq!(name, "x"),
        other => panic!("unexpected {:?}", other),
    }
    assert_eq!(SubmitError::MissingUrl.message(), "Please enter a URL.");
}

#[test]
fn image_data_url_uses_mime_and_base64() {
    assert_eq!(image_data_url("pic.png", b"abc"), "data:image/png;base64,YWJj");
    assert_eq!(image_data_url("pic.jpg", b"ab"), "data:image/jpeg;base64,YWI=");
    assert_eq!(image_data_url("pic.webp", b"a"), "data:image/webp;base64,YQ==");
    assert_eq!(image_data_url("pic", b""), "data:image/jpeg;base64,");
}

#[test]
fn tags_from_reply_reads_first_choice() {
    assert!(matches!(tags_from_reply(vec![]), Err(TaggerError::NoChoices)));
    assert_eq!(
        tags_from_reply(vec![strings(&["x", "y"]), strings(&["z"])]).unwrap(),
        strings(&["x", "y"])
    );
    assert!(tags_from_reply(vec![vec![]]).unwrap().is_empty());
    assert_eq!(TaggerError::NoChoices.message(), "No choices returned from API");
}

#[test]
fn tag_request_asks_for_fifty_tags() {
    let r = tag_request("some/model", "data:image/png;base64,YQ==".to_string());
    assert_eq!(r.model, "some/model");
    assert!(!r.stream);
    assert_eq!(r.role, "user");
    assert_eq!(r.image_url, "data:image/png;base64,YQ==");
    assert_eq!(
        r.prompt,
        "Analyze this image and return exactly 50 tags or features that best describe it. Output ONLY a JSON array of strings, no explanation, no markdown, no code block. Example: [\"tag1\", \"tag2\", ...]"
    );
    assert_eq!(r.prompt, TAG_PROMPT);
}

#[test]
fn status_lines() {
    let s = added_status(Ok(()));
    assert!(s.success);
    assert_eq!(s.text, "Video added successfully!");
    let s = added_status(Err("disk full".to_string()));
    assert!(!s.success);
    assert_eq!(s.text, "Error: disk full");
    let s = tags_saved_status(Ok(()));
    assert_eq!(s.text, "Tags saved!");
    let s = tags_saved_status(Err("x".to_string()));
    assert_eq!(s.text, "Error: x");
    assert_eq!(error_status("boom").text, "Error: boom");
    assert_eq!(refused_status(&SubmitError::MissingUrl).text, "Please enter a URL.");
    assert_eq!(ApiFailure::Store.status_code(), 400);
    assert_eq!(ApiFailure::Fetch.status_code(), 500);
    assert_eq!(ApiFailure::Listing.status_code(), 500);
    assert_eq!(ApiFailure::TagUpdate.status_code(), 500);
}

#[test]
fn fetcher_and_store_keep_their_paths() {
    let f = VideoFetcher::new(PathBuf::from("/scripts"));
    assert_eq!(f.scripts_path, PathBuf::from("/scripts"));
    let s = VideoStore::new(PathBuf::from("/videos"));
    assert_eq!(s.videos_path, PathBuf::from("/videos"));
}

#[test]
fn video_card_escapes_metadata() {
    let v = Video {
        name: "a\"<b>&".to_string(),
        tags: strings(&["x%22y", "z"]),
        url: "u.mp4".to_string(),
        original: "o.mp4".to_string(),
        thumbnail: "t.png".to_string(),
        creation_timestamp: 1,
    };
    assert_eq!(
        render_video_card(&v),
        "<div class=\"video-card invisible\" data-tags=\"x&quot;y, z\"><img data-poster=\"t.png\" data-src=\"u.mp4\" data-video-name=\"a&quot;&lt;b&gt;&amp;\" loading=\"lazy\"></img><div class=\"video-overlay\"><span class=\"video-tags\"></span><button class=\"video-edit-btn\">Edit</button></div></div>"
    );
}

#[test]
fn page_holds_cards_in_order() {
    let videos = vec![video("first", &[], 2), video("second", &[], 1)];
    let page = render_page(&videos, "body{margin:0}", "init();");
    assert!(page.starts_with(PAGE_START));
    assert!(page.ends_with(PAGE_END));
    let first = page.find(&render_video_card(&videos[0])).unwrap();
    let second = page.find(&render_video_card(&videos[1])).unwrap();
    assert!(first < second);
    assert!(page.contains("<main><div id=\"videos-container\" class=\"videos-grid\"><div class=\"video-card"));
    let empty = render_page(&[], "", "");
    assert!(empty.contains("class=\"videos-grid\"></div></main>"));
    assert!(page.contains("<style>body{margin:0}</style>"));
    assert!(page.contains("<script>init();</script></body></html>"));
}


#[test]
fn tags_from_reply_keeps_at_most_fifty() {
    let many: Vec<String> = (0..51).map(|i| format!("t{}", i)).collect();
    let tags = tags_from_reply(vec![many.clone()]).unwrap();
    assert_eq!(tags.len(), 50);
    assert_eq!(tags, many[..50].to_vec());
    let fifty = many[..50].to_vec();
    assert_eq!(tags_from_reply(vec![fifty.clone()]).unwrap(), fifty);
}

#[test]
fn status_markup_escapes_text() {
    let ok = Status { success: true, text: "Tags saved!".to_string() };
    assert_eq!(render_status(&ok), "<span class=\"status-success\">Tags saved!</span>");
    let err = error_status("<b>\"x\"&");
    assert_eq!(
        render_status(&err),
        "<span class=\"status-error\">Error: &lt;b&gt;&quot;x&quot;&amp;</span>"
    );
}
