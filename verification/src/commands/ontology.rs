//! Reading article markdown files for ontology extraction.
use vstd::prelude::*;
use crate::clock::now_unix_secs;
use crate::models::ParsedArticle;
use crate::text::{chars_of, string_of};
use super::frontmatter::{BodyRule, scan_markdown, split_lines, first_heading, meta_field, body_lines, join_lines, opt_chars};
use super::index::or_empty;

verus! {

fn or_empty_string(o: Option<String>) -> (r: String)
    ensures
        r@ == or_empty(opt_chars(o)),
{
    match o {
        Some(s) => s,
        None => String::new(),
    }
}

/// Turn the text of a markdown article file into an article.
///
/// The title is the first `# ` heading (`Untitled` without one); the body is
/// every line after the front matter that does not open with `#`, joined by
/// line feeds. The publication time is left unset, the crawl time is now.
pub fn parse_markdown_to_article(text: &str) -> (r: ParsedArticle)
    ensures
        ({
            let ls = split_lines(text@);
            &&& r.title@ == match first_heading(ls) {
                Some(t) => t,
                None => "Untitled"@,
            }
            &&& r.oid@ == or_empty(meta_field(ls, "oid"@, "oid"@))
            &&& r.aid@ == or_empty(meta_field(ls, "aid"@, "aid"@))
            &&& r.content@ == join_lines(body_lines(BodyRule::AfterFrontMatter, ls))
            &&& r.url@ == or_empty(meta_field(ls, "url"@, "url"@))
            &&& r.category@ == or_empty(meta_field(ls, "category"@, "category"@))
            &&& opt_chars(r.publisher) == meta_field(ls, "publisher"@, "publisher"@)
            &&& opt_chars(r.author) == meta_field(ls, "author"@, "author"@)
            &&& r.published_at is None
            &&& r.content_hash is None
        }),
{
    let fm = scan_markdown(text, BodyRule::AfterFrontMatter);
    let title = match fm.title {
        Some(t) => t,
        None => string_of(chars_of("Untitled").as_slice()),
    };
    ParsedArticle {
        oid: or_empty_string(fm.oid),
        aid: or_empty_string(fm.aid),
        title,
        content: fm.body,
        url: or_empty_string(fm.url),
        category: or_empty_string(fm.category),
        publisher: fm.publisher,
        author: fm.author,
        published_at: None,
        crawled_at: now_unix_secs(),
        content_hash: None,
    }
}

} // verus!
