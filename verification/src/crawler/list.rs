//! List page URLs, date validation and pagination detection.
use vstd::prelude::*;
use crate::models::NewsCategory;
use crate::text::{
    chars_of, contains_lit, contains_seq, decimal, push_decimal, push_str, extend_chars, string_of,
    contains_chars, is_digit, all_digits, char_is_digit, strictly_sorted, insert_sorted_unique,
};
use crate::crawler::url::{UrlExtractor, linked_article_urls};
use crate::crawler::url::validators::digits_value;

verus! {

broadcast use vstd::slice::group_slice_axioms;

/// URL builder for different Naver News list formats.
pub struct ListUrlBuilder;

/// The daily list page of a category.
pub open spec fn spec_main_list(category: NewsCategory, date: Seq<char>, page: u32) -> Seq<char> {
    "https://news.naver.com/main/list.naver?mode=LSD&mid=shm&sid1="@ + decimal(
        category.spec_section_id() as nat,
    ) + "&date="@ + date + "&page="@ + decimal(page as nat)
}

/// The daily ranking page of a category.
pub open spec fn spec_ranking_list(category: NewsCategory) -> Seq<char> {
    "https://news.naver.com/main/ranking/popularDay.naver?mid=etc&sid1="@ + decimal(
        category.spec_section_id() as nat,
    )
}

/// The latest-news section page of a category.
pub open spec fn spec_section_latest(category: NewsCategory) -> Seq<char> {
    "https://news.naver.com/section/"@ + decimal(category.spec_section_id() as nat)
}

impl ListUrlBuilder {
    /// Build main news list URL.
    pub fn main_list(category: NewsCategory, date: &str, page: u32) -> (r: String)
        ensures
            r@ == spec_main_list(category, date@, page),
    {
        let mut out: Vec<char> = Vec::new();
        push_str(&mut out, "https://news.naver.com/main/list.naver?mode=LSD&mid=shm&sid1=");
        push_decimal(&mut out, category.to_section_id() as u64);
        push_str(&mut out, "&date=");
        push_str(&mut out, date);
        push_str(&mut out, "&page=");
        push_decimal(&mut out, page as u64);
        string_of(out.as_slice())
    }

    /// Build section ranking list URL:
    /// `https://news.naver.com/main/ranking/popularDay.naver?mid=etc&sid1={section_id}`.
    /// The ranking is a single page, so `page` does not enter the URL.
    pub fn ranking_list(category: NewsCategory, page: u32) -> (r: String)
        ensures
            r@ == spec_ranking_list(category),
    {
        let mut out: Vec<char> = Vec::new();
        push_str(&mut out, "https://news.naver.com/main/ranking/popularDay.naver?mid=etc&sid1=");
        push_decimal(&mut out, category.to_section_id() as u64);
        string_of(out.as_slice())
    }

    /// Build latest news list URL (newer format).
    pub fn section_latest(category: NewsCategory) -> (r: String)
        ensures
            r@ == spec_section_latest(category),
    {
        let mut out: Vec<char> = Vec::new();
        push_str(&mut out, "https://news.naver.com/section/");
        push_decimal(&mut out, category.to_section_id() as u64);
        string_of(out.as_slice())
    }
}

/// A `YYYYMMDD` date with year 2000..=2100, month 1..=12 and day 1..=31.
pub open spec fn spec_is_valid_date_format(date: Seq<char>) -> bool {
    &&& date.len() == 8
    &&& all_digits(date)
    &&& 2000 <= digits_value(date.subrange(0, 4)) <= 2100
    &&& 1 <= digits_value(date.subrange(4, 6)) <= 12
    &&& 1 <= digits_value(date.subrange(6, 8)) <= 31
}

/// The digit a character stands for.
pub open spec fn digit_of(c: char) -> int {
    c as int - '0' as int
}

/// A crawl date is valid exactly when it is eight ASCII digits `YYYYMMDD`
/// with the year from 2000 to 2100, the month from 1 to 12 and the day from
/// 1 to 31.
pub proof fn valid_dates_are_eight_digits_in_range(date: Seq<char>)
    ensures
        spec_is_valid_date_format(date) == ({
            &&& date.len() == 8
            &&& forall|i: int| 0 <= i < 8 ==> '0' <= #[trigger] date[i] <= '9'
            &&& 2000 <= 1000 * digit_of(date[0]) + 100 * digit_of(date[1]) + 10 * digit_of(date[2]) + digit_of(
                date[3],
            ) <= 2100
            &&& 1 <= 10 * digit_of(date[4]) + digit_of(date[5]) <= 12
            &&& 1 <= 10 * digit_of(date[6]) + digit_of(date[7]) <= 31
        }),
{
    if date.len() == 8 && all_digits(date) {
        assert(is_digit(date[0]) && is_digit(date[1]) && is_digit(date[2]) && is_digit(date[3]));
        assert(is_digit(date[4]) && is_digit(date[5]) && is_digit(date[6]) && is_digit(date[7]));
        let y = date.subrange(0, 4);
        let m = date.subrange(4, 6);
        let d = date.subrange(6, 8);
        assert(y.drop_last().drop_last().drop_last().drop_last() =~= Seq::<char>::empty());
        assert(y.drop_last().drop_last().drop_last() =~= seq![date[0]]);
        assert(y.drop_last().drop_last() =~= seq![date[0], date[1]]);
        assert(y.drop_last() =~= seq![date[0], date[1], date[2]]);
        assert(m.drop_last().drop_last() =~= Seq::<char>::empty());
        assert(m.drop_last() =~= seq![date[4]]);
        assert(d.drop_last().drop_last() =~= Seq::<char>::empty());
        assert(d.drop_last() =~= seq![date[6]]);
        reveal_with_fuel(digits_value, 5);
        assert(digits_value(seq![date[0]]) == digit_of(date[0])) by {
            assert(seq![date[0]].drop_last() =~= Seq::<char>::empty());
        }
        assert(digits_value(m) == 10 * digit_of(date[4]) + digit_of(date[5])) by {
            assert(digits_value(seq![date[4]]) == digit_of(date[4])) by {
                assert(seq![date[4]].drop_last() =~= Seq::<char>::empty());
            }
        }
        assert(digits_value(d) == 10 * digit_of(date[6]) + digit_of(date[7])) by {
            assert(digits_value(seq![date[6]]) == digit_of(date[6])) by {
                assert(seq![date[6]].drop_last() =~= Seq::<char>::empty());
            }
        }
        assert(digits_value(y) == 1000 * digit_of(date[0]) + 100 * digit_of(date[1]) + 10 * digit_of(date[2])
            + digit_of(date[3])) by {
            assert(seq![date[0], date[1]].drop_last() =~= seq![date[0]]);
            assert(seq![date[0], date[1], date[2]].drop_last() =~= seq![date[0], date[1]]);
            assert(digits_value(seq![date[0], date[1]]) == 10 * digit_of(date[0]) + digit_of(date[1]));
            assert(digits_value(seq![date[0], date[1], date[2]]) == 100 * digit_of(date[0]) + 10 * digit_of(
                date[1],
            ) + digit_of(date[2]));
        }
    }
}

fn digits_at(d: &[char], from: usize, to: usize) -> (r: u32)
    requires
        from <= to <= d@.len(),
        to - from <= 4,
        forall|i: int| from <= i < to ==> is_digit(#[trigger] d@[i]),
    ensures
        r == digits_value(d@.subrange(from as int, to as int)),
{
    let mut v: u32 = 0;
    let mut i: usize = from;
    while i < to
        invariant
            from <= i <= to,
            to <= d@.len(),
            to - from <= 4,
            forall|k: int| from <= k < to ==> is_digit(#[trigger] d@[k]),
            v == digits_value(d@.subrange(from as int, i as int)),
            v < pow10((i - from) as nat),
        decreases to - i,
    {
        proof {
            assert(d@.subrange(from as int, i + 1).drop_last() =~= d@.subrange(from as int, i as int));
            assert(is_digit(d@[i as int]));
            lemma_pow10_step((i - from) as nat);
        }
        v = v * 10 + (d[i] as u32 - '0' as u32);
        i = i + 1;
    }
    v
}

/// Ten to a small power.
pub open spec fn pow10(n: nat) -> nat
    decreases n,
{
    if n == 0 { 1 } else { 10 * pow10((n - 1) as nat) }
}

proof fn lemma_pow10_step(n: nat)
    requires
        n < 4,
    ensures
        pow10(n + 1) == 10 * pow10(n),
        pow10(n + 1) <= 10000,
{
    reveal_with_fuel(pow10, 5);
}

/// A list page has a next page: it links to `page={current_page + 1}`, shows
/// a next button, or still lists article links.
pub open spec fn spec_has_next_page(html: Seq<char>, current_page: u32) -> bool {
    ||| contains_seq(html, "page="@ + decimal(current_page as nat + 1))
    ||| contains_seq(html, "다음</a>"@)
    ||| contains_seq(html, "class=\"next\""@)
    ||| !linked_article_urls(html).is_empty()
}

/// A list page has a next page exactly when it links to the page after the
/// current one (`page=` and the decimal of `current_page + 1`), shows a next
/// button, or still lists article links; in particular a link to the
/// following page always means there is one.
pub proof fn link_to_following_page_means_more(html: Seq<char>, current_page: u32)
    ensures
        contains_seq(html, "page="@ + decimal(current_page as nat + 1)) ==> spec_has_next_page(html, current_page),
        contains_seq(html, "다음</a>"@) ==> spec_has_next_page(html, current_page),
        contains_seq(html, "class=\"next\""@) ==> spec_has_next_page(html, current_page),
        !linked_article_urls(html).is_empty() ==> spec_has_next_page(html, current_page),
        spec_has_next_page(html, current_page) ==> contains_seq(html, "page="@ + decimal(current_page as nat + 1))
            || contains_seq(html, "다음</a>"@) || contains_seq(html, "class=\"next\""@)
            || !linked_article_urls(html).is_empty(),
{
}

/// Reads list pages: pagination and date checks, and gathering the article
/// URLs of a category's pages. Fetching the pages is the caller's.
pub struct NewsListCrawler {
    url_extractor: UrlExtractor,
}

impl NewsListCrawler {
    /// Create a new list reader.
    pub fn new() -> (r: Self) {
        NewsListCrawler { url_extractor: UrlExtractor::new() }
    }

    /// Check if there are more pages based on HTML content.
    pub fn has_next_page(&self, html: &str, current_page: u32) -> (r: bool)
        requires
            current_page < u32::MAX,
        ensures
            r == spec_has_next_page(html@, current_page),
    {
        let h = chars_of(html);
        let mut key: Vec<char> = Vec::new();
        push_str(&mut key, "page=");
        push_decimal(&mut key, (current_page + 1) as u64);
        if contains_chars(h.as_slice(), key.as_slice()) {
            return true;
        }
        if contains_lit(h.as_slice(), "다음</a>") || contains_lit(h.as_slice(), "class=\"next\"") {
            return true;
        }
        let urls = self.url_extractor.extract_urls(html);
        proof {
            let v = urls@.map_values(|u: String| u@);
            if urls@.len() == 0 {
                assert(v.to_set() =~= Set::<Seq<char>>::empty());
            } else {
                assert(v.to_set().contains(v[0]));
            }
        }
        urls.len() != 0
    }

    /// Validate date format (YYYYMMDD).
    pub fn is_valid_date_format(date: &str) -> (r: bool)
        ensures
            r == spec_is_valid_date_format(date@),
    {
        let d = chars_of(date);
        if d.len() != 8 {
            return false;
        }
        let mut i: usize = 0;
        while i < 8
            invariant
                d@.len() == 8,
                d@ == date@,
                i <= 8,
                forall|k: int| 0 <= k < i ==> is_digit(#[trigger] d@[k]),
            decreases 8 - i,
        {
            if !char_is_digit(d[i]) {
                assert(!is_digit(d@[i as int]));
                return false;
            }
            i = i + 1;
        }
        let year = digits_at(d.as_slice(), 0, 4);
        let month = digits_at(d.as_slice(), 4, 6);
        let day = digits_at(d.as_slice(), 6, 8);
        2000 <= year && year <= 2100 && 1 <= month && month <= 12 && 1 <= day && day <= 31
    }
}

/// Why collecting a category's article URLs failed.
#[derive(Debug)]
pub enum ListError {
    /// The date is not `YYYYMMDD`
    InvalidDate(String),
    /// No page listed any article
    NoArticlesFound,
}

/// Gathering the article URLs of a category's list pages, page by page.
pub struct UrlCollection {
    page: u32,
    max_pages: u32,
    done: bool,
    urls: Vec<Vec<char>>,
}

impl UrlCollection {
    pub closed spec fn spec_page(&self) -> u32 {
        self.page
    }

    pub closed spec fn spec_max_pages(&self) -> u32 {
        self.max_pages
    }

    pub closed spec fn spec_done(&self) -> bool {
        self.done
    }

    /// The URLs gathered so far.
    pub closed spec fn spec_urls(&self) -> Set<Seq<char>> {
        self.urls@.map_values(|u: Vec<char>| u@).to_set()
    }

    pub closed spec fn wf(&self) -> bool {
        strictly_sorted(self.urls@.map_values(|u: Vec<char>| u@))
    }

    /// Start at page 1 for a date (`YYYYMMDD`); `max_pages` of 0 means no
    /// limit.
    pub fn new(date: &str, max_pages: u32) -> (r: Result<Self, ListError>)
        ensures
            match r {
                Ok(c) => spec_is_valid_date_format(date@) && c.wf() && c.spec_page() == 1
                    && c.spec_max_pages() == max_pages && !c.spec_done() && c.spec_urls().is_empty(),
                Err(ListError::InvalidDate(m)) => !spec_is_valid_date_format(date@) && m@ == "Invalid date format: "@
                    + date@ + ". Expected YYYYMMDD"@,
                Err(ListError::NoArticlesFound) => false,
            },
    {
        if !NewsListCrawler::is_valid_date_format(date) {
            let mut m: Vec<char> = Vec::new();
            push_str(&mut m, "Invalid date format: ");
            push_str(&mut m, date);
            push_str(&mut m, ". Expected YYYYMMDD");
            return Err(ListError::InvalidDate(string_of(m.as_slice())));
        }
        let c = UrlCollection { page: 1, max_pages, done: false, urls: Vec::new() };
        proof {
            assert(c.urls@.map_values(|u: Vec<char>| u@) =~= Seq::<Seq<char>>::empty());
            assert(c.spec_urls() =~= Set::<Seq<char>>::empty());
        }
        Ok(c)
    }

    /// The page to fetch next, if any.
    pub fn next_page(&self) -> (r: Option<u32>)
        ensures
            r == if self.spec_done() || (self.spec_max_pages() > 0 && self.spec_page() > self.spec_max_pages()) {
                None
            } else {
                Some(self.spec_page())
            },
    {
        if self.done || (self.max_pages > 0 && self.page > self.max_pages) {
            None
        } else {
            Some(self.page)
        }
    }

    /// Take in the URLs of the page last fetched and whether it has a next
    /// page: a page without URLs, or without a next page, ends the paging.
    pub fn absorb(&mut self, urls: Vec<String>, has_more: bool)
        requires
            old(self).wf(),
            !old(self).spec_done(),
            old(self).spec_page() < u32::MAX,
        ensures
            final(self).wf(),
            final(self).spec_max_pages() == old(self).spec_max_pages(),
            final(self).spec_urls() == old(self).spec_urls().union(urls@.map_values(|u: String| u@).to_set()),
            final(self).spec_done() == (urls@.len() == 0 || !has_more),
            !final(self).spec_done() ==> final(self).spec_page() == old(self).spec_page() + 1,
    {
        if urls.len() == 0 {
            self.done = true;
            proof {
                assert(urls@.map_values(|u: String| u@).to_set() =~= Set::<Seq<char>>::empty());
                assert(self.spec_urls() =~= old(self).spec_urls().union(Set::<Seq<char>>::empty()));
            }
            return;
        }
        let ghost added = urls@.map_values(|u: String| u@);
        let mut i: usize = 0;
        while i < urls.len()
            invariant
                i <= urls@.len(),
                added == urls@.map_values(|u: String| u@),
                strictly_sorted(self.urls@.map_values(|u: Vec<char>| u@)),
                self.urls@.map_values(|u: Vec<char>| u@).to_set() == old(self).spec_urls().union(
                    added.take(i as int).to_set(),
                ),
                self.page == old(self).page,
                self.max_pages == old(self).max_pages,
                self.done == old(self).done,
            decreases urls@.len() - i,
        {
            let ghost before = self.urls@.map_values(|u: Vec<char>| u@).to_set();
            let x = chars_of(urls[i].as_str());
            insert_sorted_unique(&mut self.urls, x);
            proof {
                assert(added.take(i + 1) =~= added.take(i as int).push(added[i as int]));
                added.take(i as int).lemma_push_to_set_commute(added[i as int]);
                assert(self.urls@.map_values(|u: Vec<char>| u@).to_set() =~= old(self).spec_urls().union(
                    added.take(i + 1).to_set(),
                ));
            }
            i = i + 1;
        }
        proof {
            assert(added.take(added.len() as int) =~= added);
        }
        if !has_more {
            self.done = true;
        } else {
            self.page = self.page + 1;
        }
    }

    /// The URLs gathered, sorted; without any, no articles were found.
    pub fn finish(self) -> (r: Result<Vec<String>, ListError>)
        requires
            self.wf(),
        ensures
            match r {
                Ok(v) => !self.spec_urls().is_empty() && strictly_sorted(v@.map_values(|u: String| u@))
                    && v@.map_values(|u: String| u@).to_set() == self.spec_urls(),
                Err(ListError::NoArticlesFound) => self.spec_urls().is_empty(),
                Err(ListError::InvalidDate(_)) => false,
            },
    {
        let ghost all = self.urls@.map_values(|u: Vec<char>| u@);
        if self.urls.len() == 0 {
            proof {
                assert(all =~= Seq::<Seq<char>>::empty());
                assert(self.spec_urls() =~= Set::<Seq<char>>::empty());
            }
            return Err(ListError::NoArticlesFound);
        }
        let mut out: Vec<String> = Vec::new();
        let mut i: usize = 0;
        while i < self.urls.len()
            invariant
                i <= self.urls@.len(),
                all == self.urls@.map_values(|u: Vec<char>| u@),
                out@.map_values(|u: String| u@) == all.take(i as int),
            decreases self.urls@.len() - i,
        {
            let ghost prev = out@;
            let u = string_of(self.urls[i].as_slice());
            out.push(u);
            proof {
                assert(out@.map_values(|u: String| u@) =~= prev.map_values(|u: String| u@).push(all[i as int]));
                assert(all.take(i + 1) =~= all.take(i as int).push(all[i as int]));
            }
            i = i + 1;
        }
        proof {
            assert(all.take(all.len() as int) =~= all);
            assert(all.to_set().contains(all[0]));
        }
        Ok(out)
    }
}

} // verus!
