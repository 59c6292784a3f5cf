//! Request headers and referer URLs for Naver News requests.
use vstd::prelude::*;
use crate::text::{decimal, push_decimal, push_str, string_of};

verus! {

/// The section page that serves as referer for a section id.
pub open spec fn spec_section_referer(section_id: u32) -> Seq<char> {
    "https://news.naver.com/main/main.naver?mode=LSD&mid=shm&sid1="@ + decimal(section_id as nat)
}

/// Generate referer URL for a Naver news section ID (100 politics, 101
/// economy, 102 society, 103 culture, 104 world, 105 IT/science).
pub fn section_referer(section_id: u32) -> (r: String)
    ensures
        r@ == spec_section_referer(section_id),
{
    let mut out: Vec<char> = Vec::new();
    push_str(&mut out, "https://news.naver.com/main/main.naver?mode=LSD&mid=shm&sid1=");
    push_decimal(&mut out, section_id as u64);
    string_of(out.as_slice())
}

/// A text that an HTTP header value can hold: tabs and characters from
/// space on, except DEL.
pub open spec fn is_header_value(s: Seq<char>) -> bool {
    forall|i: int| 0 <= i < s.len() ==> (#[trigger] s[i] >= ' ' && s[i] != '\u{7f}') || s[i] == '\t'
}

/// Header names and values, names in lower case.
pub open spec fn pair_views(v: Seq<(String, String)>) -> Seq<(Seq<char>, Seq<char>)> {
    v.map_values(|p: (String, String)| (p.0@, p.1@))
}

/// The browser-like headers sent to Naver News pages.
pub open spec fn naver_headers(user_agent: Seq<char>, referer: Seq<char>) -> Seq<(Seq<char>, Seq<char>)> {
    seq![
        ("user-agent"@, user_agent),
        ("referer"@, referer),
        ("accept"@, "text/html,application/xhtml+xml,application/xml;q=0.9,image/webp,*/*;q=0.8"@),
        ("accept-language"@, "ko-KR,ko;q=0.9,en-US;q=0.8,en;q=0.7"@),
        ("accept-encoding"@, "gzip, deflate, br"@),
        ("sec-fetch-dest"@, "document"@),
        ("sec-fetch-mode"@, "navigate"@),
        ("sec-fetch-site"@, "same-origin"@),
        ("sec-fetch-user"@, "?1"@),
        ("upgrade-insecure-requests"@, "1"@),
    ]
}

/// The headers sent to the comment API (an AJAX request from the article).
pub open spec fn comment_headers(article_url: Seq<char>) -> Seq<(Seq<char>, Seq<char>)> {
    seq![
        ("x-requested-with"@, "XMLHttpRequest"@),
        ("accept"@, "application/json, text/javascript, */*; q=0.01"@),
        ("referer"@, article_url),
        ("accept-language"@, "ko-KR,ko;q=0.9,en-US;q=0.8,en;q=0.7"@),
        ("accept-encoding"@, "gzip, deflate, br"@),
        ("sec-fetch-dest"@, "empty"@),
        ("sec-fetch-mode"@, "cors"@),
        ("sec-fetch-site"@, "same-origin"@),
    ]
}

fn pair(name: &str, value: &str) -> (r: (String, String))
    ensures
        r.0@ == name@,
        r.1@ == value@,
{
    (name.to_owned(), value.to_owned())
}

/// Build anti-bot headers for Naver News, as (name, value) pairs.
pub fn build_naver_headers(user_agent: &str, referer: &str) -> (r: Vec<(String, String)>)
    requires
        is_header_value(user_agent@),
        is_header_value(referer@),
    ensures
        pair_views(r@) == naver_headers(user_agent@, referer@),
{
    let mut v: Vec<(String, String)> = Vec::new();
    v.push(pair("user-agent", user_agent));
    v.push(pair("referer", referer));
    v.push(pair("accept", "text/html,application/xhtml+xml,application/xml;q=0.9,image/webp,*/*;q=0.8"));
    v.push(pair("accept-language", "ko-KR,ko;q=0.9,en-US;q=0.8,en;q=0.7"));
    v.push(pair("accept-encoding", "gzip, deflate, br"));
    v.push(pair("sec-fetch-dest", "document"));
    v.push(pair("sec-fetch-mode", "navigate"));
    v.push(pair("sec-fetch-site", "same-origin"));
    v.push(pair("sec-fetch-user", "?1"));
    v.push(pair("upgrade-insecure-requests", "1"));
    assert(pair_views(v@) =~= naver_headers(user_agent@, referer@));
    v
}

/// Build headers for the comment API, as (name, value) pairs.
pub fn build_comment_headers(article_url: &str) -> (r: Vec<(String, String)>)
    requires
        is_header_value(article_url@),
    ensures
        pair_views(r@) == comment_headers(article_url@),
{
    let mut v: Vec<(String, String)> = Vec::new();
    v.push(pair("x-requested-with", "XMLHttpRequest"));
    v.push(pair("accept", "application/json, text/javascript, */*; q=0.01"));
    v.push(pair("referer", article_url));
    v.push(pair("accept-language", "ko-KR,ko;q=0.9,en-US;q=0.8,en;q=0.7"));
    v.push(pair("accept-encoding", "gzip, deflate, br"));
    v.push(pair("sec-fetch-dest", "empty"));
    v.push(pair("sec-fetch-mode", "cors"));
    v.push(pair("sec-fetch-site", "same-origin"));
    assert(pair_views(v@) =~= comment_headers(article_url@));
    v
}

/// Whether a text can be sent as a header value.
pub fn header_value_ok(s: &str) -> (r: bool)
    ensures
        r == is_header_value(s@),
{
    let c = crate::text::chars_of(s);
    let mut i: usize = 0;
    while i < c.len()
        invariant
            i <= c@.len(),
            c@ == s@,
            forall|j: int| 0 <= j < i ==> (#[trigger] c@[j] >= ' ' && c@[j] != '\u{7f}') || c@[j] == '\t',
        decreases c@.len() - i,
    {
        if !((c[i] >= ' ' && c[i] != '\u{7f}') || c[i] == '\t') {
            return false;
        }
        i = i + 1;
    }
    true
}

} // verus!
