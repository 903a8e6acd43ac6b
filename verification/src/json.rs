use vstd::prelude::*;
use crate::naming::lower_hex_digit;
use crate::tags::{dedup, no_duplicates, option_views, or_empty, push_new, lemma_dedup_no_duplicates};
use crate::text::views;

verus! {

/// How the JSON writer spells one character inside a string literal: quote, backslash and
/// the control characters are escaped, every other character stands for itself.
pub open spec fn json_escaped_char(c: char) -> Seq<char> {
    if c == '"' {
        seq!['\\', '"']
    } else if c == '\\' {
        seq!['\\', '\\']
    } else if c == '\u{8}' {
        seq!['\\', 'b']
    } else if c == '\t' {
        seq!['\\', 't']
    } else if c == '\n' {
        seq!['\\', 'n']
    } else if c == '\u{c}' {
        seq!['\\', 'f']
    } else if c == '\r' {
        seq!['\\', 'r']
    } else if (c as u32) < 32 {
        seq![
            '\\',
            'u',
            '0',
            '0',
            lower_hex_digit(((c as u32) / 16) as u8) as char,
            lower_hex_digit(((c as u32) % 16) as u8) as char,
        ]
    } else {
        seq![c]
    }
}

/// The escaped body of a JSON string literal.
pub open spec fn json_escaped(s: Seq<char>) -> Seq<char>
    decreases s.len(),
{
    if s.len() == 0 {
        Seq::empty()
    } else {
        json_escaped(s.drop_last()) + json_escaped_char(s.last())
    }
}

/// A JSON string literal.
pub open spec fn json_string(s: Seq<char>) -> Seq<char> {
    seq!['"'] + json_escaped(s) + seq!['"']
}

/// JSON string literals separated by commas.
pub open spec fn json_items(items: Seq<Seq<char>>) -> Seq<char>
    decreases items.len(),
{
    if items.len() == 0 {
        Seq::empty()
    } else if items.len() == 1 {
        json_string(items[0])
    } else {
        json_items(items.drop_last()) + seq![','] + json_string(items.last())
    }
}

/// A compact JSON array of strings.
pub open spec fn json_array(items: Seq<Seq<char>>) -> Seq<char> {
    seq!['['] + json_items(items) + seq![']']
}

/// The list of strings that a JSON text denotes, if it is a JSON array of strings.
pub uninterp spec fn json_string_list(text: Seq<char>) -> Option<Seq<Seq<char>>>;

/// Calls `serde_json::to_string` on a list of strings. Claimed: the result is the compact
/// JSON array of the strings, each escaped as the crate's `format_escaped_str_contents`
/// does (quote, backslash and control characters escaped, `\u00xx` in lower case).
#[verifier::external_body]
fn strings_to_json(items: &Vec<String>) -> (res: String)
    ensures
        res@ == json_array(views(items@)),
{
    serde_json::to_string(items).unwrap_or_default()
}

/// Calls `serde_json::from_str` for a list of strings. Claimed: the result is the list
/// named `json_string_list`, and the compact array that the writer above produces for a
/// list parses back to that list.
#[verifier::external_body]
fn json_to_strings(text: &str) -> (res: Option<Vec<String>>)
    ensures
        option_views(res) == json_string_list(text@),
        forall|items: Seq<Seq<char>>| #[trigger] json_array(items) == text@ ==> option_views(res)
            == Some(items),
{
    serde_json::from_str::<Vec<String>>(text).ok()
}

/// The stored form of a tag list: a JSON array holding each tag once.
pub fn tags_column(tags: &Vec<String>) -> (res: String)
    ensures
        res@ == json_array(dedup(views(tags@))),
{
    let mut unique: Vec<String> = Vec::new();
    assert(views(unique@) =~= dedup(Seq::<Seq<char>>::empty()));
    push_new(&mut unique, tags, Ghost(Seq::<Seq<char>>::empty()));
    assert(Seq::<Seq<char>>::empty() + views(tags@) =~= views(tags@));
    strings_to_json(&unique)
}

/// The tag list of a stored tag column; a column that is not a JSON array of strings
/// gives no tags. A column written by `tags_column` reads back as the tags it was
/// written from, each once.
pub fn tags_from_column(text: &str) -> (res: Vec<String>)
    ensures
        views(res@) == or_empty(json_string_list(text@)),
        forall|t: Seq<Seq<char>>| #[trigger] json_array(dedup(t)) == text@ ==> views(res@) == dedup(t)
            && no_duplicates(views(res@)),
{
    let parsed = json_to_strings(text);
    proof {
        assert forall|t: Seq<Seq<char>>| #[trigger] json_array(dedup(t)) == text@ implies option_views(
            parsed,
        ) == Some(dedup(t)) && no_duplicates(dedup(t)) by {
            lemma_dedup_no_duplicates(t);
        }
    }
    match parsed {
        Some(v) => v,
        None => Vec::new(),
    }
}

} // verus!
