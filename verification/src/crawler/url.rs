//! URL extraction and normalization for Naver News articles.
//!
//! Article identifiers are read with two patterns: the modern path form
//! `/(?:mnews/)?article/(\d{3})/(\d{10,})` and the legacy query form
//! `oid=(\d{3})&aid=(\d{10,})`, where `\d` is any Unicode decimal digit.
pub mod validators;

use vstd::prelude::*;
use crate::text::{
    chars_of, string_of, push_str, extend_chars, matches_at, occurs_at, is_decimal_number,
    char_is_decimal_number, starts_with, lex_lt, strictly_sorted, insert_sorted_unique, copy_range,
};
use validators::{spec_is_allowed_domain, spec_is_safe_url, is_allowed_domain, is_safe_url};

verus! {

broadcast use vstd::slice::group_slice_axioms;

/// Errors raised while reading identifiers out of a URL.
#[derive(Debug, Clone, Copy, PartialEq, Eq)]
pub enum ParseError {
    /// Neither URL pattern carries an (oid, aid) pair.
    IdExtractionFailed,
}

/// Length of the run of decimal-number characters of `s` that starts at `i`.
pub open spec fn digit_run(s: Seq<char>, i: int) -> nat
    decreases s.len() - i,
{
    if 0 <= i < s.len() && is_decimal_number(s[i]) {
        1 + digit_run(s, i + 1)
    } else {
        0
    }
}

/// `(\d{3})` then the separator `sep`, then `(\d{10,})`, starting at `d`.
pub open spec fn ids_at(s: Seq<char>, d: int, sep: Seq<char>) -> Option<(Seq<char>, Seq<char>)> {
    let a = d + 3 + sep.len();
    if 0 <= d && d + 3 <= s.len() && is_decimal_number(s[d]) && is_decimal_number(s[d + 1])
        && is_decimal_number(s[d + 2]) && occurs_at(s, sep, d + 3) && digit_run(s, a) >= 10 {
        Some((s.subrange(d, d + 3), s.subrange(a, a + digit_run(s, a))))
    } else {
        None
    }
}

/// A match of the path pattern that starts at position `i`.
pub open spec fn path_match_at(s: Seq<char>, i: int) -> Option<(Seq<char>, Seq<char>)> {
    if occurs_at(s, "/mnews/article/"@, i) && ids_at(s, i + "/mnews/article/"@.len(), "/"@) is Some {
        ids_at(s, i + "/mnews/article/"@.len(), "/"@)
    } else if occurs_at(s, "/article/"@, i) {
        ids_at(s, i + "/article/"@.len(), "/"@)
    } else {
        None
    }
}

/// A match of the legacy query pattern that starts at position `i`.
pub open spec fn query_match_at(s: Seq<char>, i: int) -> Option<(Seq<char>, Seq<char>)> {
    if occurs_at(s, "oid="@, i) {
        ids_at(s, i + "oid="@.len(), "&aid="@)
    } else {
        None
    }
}

/// Leftmost match of the path pattern at or after position `i`.
pub open spec fn path_ids_from(s: Seq<char>, i: int) -> Option<(Seq<char>, Seq<char>)>
    decreases s.len() + 1 - i,
{
    if i < 0 || i > s.len() {
        None
    } else {
        match path_match_at(s, i) {
            Some(ids) => Some(ids),
            None => path_ids_from(s, i + 1),
        }
    }
}

/// Leftmost match of the query pattern at or after position `i`.
pub open spec fn query_ids_from(s: Seq<char>, i: int) -> Option<(Seq<char>, Seq<char>)>
    decreases s.len() + 1 - i,
{
    if i < 0 || i > s.len() {
        None
    } else {
        match query_match_at(s, i) {
            Some(ids) => Some(ids),
            None => query_ids_from(s, i + 1),
        }
    }
}

/// The (oid, aid) pair of a URL: the path form first, then the query form.
pub open spec fn spec_extract_ids(url: Seq<char>) -> Option<(Seq<char>, Seq<char>)> {
    match path_ids_from(url, 0) {
        Some(ids) => Some(ids),
        None => query_ids_from(url, 0),
    }
}

/// The canonical desktop URL of an article.
pub open spec fn canonical_url(oid: Seq<char>, aid: Seq<char>) -> Seq<char> {
    "https://n.news.naver.com/mnews/article/"@ + oid + "/"@ + aid
}

/// The canonical form of a URL, when it carries article identifiers.
pub open spec fn spec_normalize_url(url: Seq<char>) -> Option<Seq<char>> {
    match spec_extract_ids(url) {
        Some((oid, aid)) => Some(canonical_url(oid, aid)),
        None => None,
    }
}

/// A URL that carries article identifiers, is on an allowed host and is safe.
pub open spec fn spec_is_valid_article_url(url: Seq<char>) -> bool {
    spec_extract_ids(url) is Some && spec_is_allowed_domain(url) && spec_is_safe_url(url)
}

/// A quote character that may open or close an `href` value.
pub open spec fn is_quote(c: char) -> bool {
    c == '"' || c == '\''
}

/// Length of the run of non-quote characters of `s` that starts at `i`.
pub open spec fn unquoted_run(s: Seq<char>, i: int) -> nat
    decreases s.len() - i,
{
    if 0 <= i < s.len() && !is_quote(s[i]) {
        1 + unquoted_run(s, i + 1)
    } else {
        0
    }
}

/// A match of `href=["']([^"']+)["']` at position `i`: the captured value and
/// the position right after the closing quote.
pub open spec fn href_match_at(s: Seq<char>, i: int) -> Option<(Seq<char>, int)> {
    let v = i + "href="@.len() + 1;
    if occurs_at(s, "href="@, i) && v <= s.len() && is_quote(s[v - 1]) && unquoted_run(s, v) >= 1
        && v + unquoted_run(s, v) < s.len() {
        Some((s.subrange(v, v + unquoted_run(s, v)), v + unquoted_run(s, v) + 1))
    } else {
        None
    }
}

/// The captured `href` values of all successive, non-overlapping matches at
/// or after position `i`, leftmost first.
pub open spec fn href_values_from(s: Seq<char>, i: int) -> Seq<Seq<char>>
    decreases s.len() + 1 - i,
{
    if i < 0 || i > s.len() {
        Seq::empty()
    } else {
        match href_match_at(s, i) {
            Some((v, e)) => if e > i { seq![v] + href_values_from(s, e) } else { Seq::empty() },
            None => href_values_from(s, i + 1),
        }
    }
}

/// The canonical article URL that an `href` value contributes to a list page,
/// if any: it must normalize, and the normalized URL must be valid.
pub open spec fn accepted_article_url(v: Seq<char>) -> Option<Seq<char>> {
    match spec_normalize_url(v) {
        Some(n) => if spec_is_valid_article_url(n) { Some(n) } else { None },
        None => None,
    }
}

/// The canonical article URLs that a sequence of `href` values contributes.
pub open spec fn accepted_urls(values: Seq<Seq<char>>) -> Set<Seq<char>> {
    Set::new(|n: Seq<char>| exists|k: int| 0 <= k < values.len()
        && accepted_article_url(#[trigger] values[k]) == Some(n))
}

/// The set of canonical article URLs that a page links to.
pub open spec fn linked_article_urls(html: Seq<char>) -> Set<Seq<char>> {
    accepted_urls(href_values_from(html, 0))
}

proof fn lemma_accepted_push(values: Seq<Seq<char>>, v: Seq<char>)
    ensures
        accepted_urls(values.push(v)) == match accepted_article_url(v) {
            Some(n) => accepted_urls(values).insert(n),
            None => accepted_urls(values),
        },
{
    let nv = values.push(v);
    let rhs = match accepted_article_url(v) {
        Some(n) => accepted_urls(values).insert(n),
        None => accepted_urls(values),
    };
    assert forall|x: Seq<char>| #[trigger] accepted_urls(nv).contains(x) <==> rhs.contains(x) by {
        if accepted_urls(nv).contains(x) {
            let k = choose|k: int| 0 <= k < nv.len() && accepted_article_url(#[trigger] nv[k]) == Some(x);
            if k < values.len() {
                assert(values[k] == nv[k]);
                assert(accepted_urls(values).contains(x));
            }
        }
        if accepted_urls(values).contains(x) {
            let k = choose|k: int| 0 <= k < values.len() && accepted_article_url(#[trigger] values[k]) == Some(x);
            assert(nv[k] == values[k]);
        }
        if accepted_article_url(v) == Some(x) {
            assert(nv[values.len() as int] == v);
        }
    }
    assert(accepted_urls(nv) =~= rhs);
}

/// Where `Url::parse(base)` and then `Url::join` with `url` succeed, the
/// resolved absolute URL as `Url`'s `Display` spells it.
pub uninterp spec fn joined_url(base: Seq<char>, url: Seq<char>) -> Option<Seq<char>>;

/// Parses `base` with `url::Url::parse`, joins `url` onto it with `Url::join`
/// and spells the result with `to_string`. The WHATWG resolution rules are
/// not restated: the result is the name `joined_url` of the two texts.
#[verifier::external_body]
fn join_url(base: &str, url: &str) -> (r: Option<String>)
    ensures
        match r {
            Some(j) => joined_url(base@, url@) == Some(j@),
            None => joined_url(base@, url@) is None,
        },
{
    match url::Url::parse(base) {
        Ok(b) => match b.join(url) {
            Ok(j) => Some(j.to_string()),
            Err(_) => None,
        },
        Err(_) => None,
    }
}

/// The absolute form of a possibly relative URL.
pub open spec fn spec_to_absolute(url: Seq<char>, base: Seq<char>) -> Seq<char> {
    if starts_with(url, "http://"@) || starts_with(url, "https://"@) {
        url
    } else {
        match joined_url(base, url) {
            Some(j) => j,
            None => url,
        }
    }
}

fn unquoted_run_exec(s: &[char], i: usize) -> (r: usize)
    requires
        i <= s@.len(),
    ensures
        r == unquoted_run(s@, i as int),
        i + r <= s@.len(),
{
    let mut k: usize = i;
    while k < s.len() && !(s[k] == '"' || s[k] == '\'')
        invariant
            i <= k <= s@.len(),
            unquoted_run(s@, i as int) == (k - i) + unquoted_run(s@, k as int),
        decreases s@.len() - k,
    {
        k = k + 1;
    }
    k - i
}

fn href_match_exec(s: &[char], i: usize, key: &[char]) -> (r: Option<(Vec<char>, usize)>)
    requires
        key@ == "href="@,
    ensures
        match r {
            Some((v, e)) => href_match_at(s@, i as int) == Some((v@, e as int)),
            None => href_match_at(s@, i as int) is None,
        },
{
    if !(i <= s.len() && matches_at(s, key, i)) {
        return None;
    }
    assert(i + key@.len() <= s@.len());
    let q = i + key.len();
    if q >= s.len() {
        return None;
    }
    let v = q + 1;
    if !(s[v - 1] == '"' || s[v - 1] == '\'') {
        return None;
    }
    let run = unquoted_run_exec(s, v);
    if run < 1 || v + run >= s.len() {
        return None;
    }
    Some((copy_range(s, v, v + run), v + run + 1))
}

fn digit_run_exec(s: &[char], i: usize) -> (r: usize)
    requires
        i <= s@.len(),
    ensures
        r == digit_run(s@, i as int),
        i + r <= s@.len(),
{
    let mut k: usize = i;
    while k < s.len() && char_is_decimal_number(s[k])
        invariant
            i <= k <= s@.len(),
            forall|j: int| i <= j < k ==> is_decimal_number(#[trigger] s@[j]),
            digit_run(s@, i as int) == (k - i) + digit_run(s@, k as int),
        decreases s@.len() - k,
    {
        k = k + 1;
    }
    k - i
}

fn ids_at_exec(s: &[char], d: usize, sep: &[char]) -> (r: Option<(Vec<char>, Vec<char>)>)
    ensures
        match r {
            Some((o, a)) => ids_at(s@, d as int, sep@) == Some((o@, a@)),
            None => ids_at(s@, d as int, sep@) is None,
        },
{
    if d > s.len() || s.len() - d < 3 {
        return None;
    }
    if !(char_is_decimal_number(s[d]) && char_is_decimal_number(s[d + 1]) && char_is_decimal_number(s[d + 2])) {
        return None;
    }
    if !matches_at(s, sep, d + 3) {
        return None;
    }
    let a = d + 3 + sep.len();
    let run = digit_run_exec(s, a);
    if run < 10 {
        return None;
    }
    let mut oid: Vec<char> = Vec::new();
    oid.push(s[d]);
    oid.push(s[d + 1]);
    oid.push(s[d + 2]);
    let mut aid: Vec<char> = Vec::new();
    let mut k: usize = a;
    while k < a + run
        invariant
            a <= k <= a + run,
            a + run <= s.len(),
            aid@ == s@.subrange(a as int, k as int),
        decreases a + run - k,
    {
        aid.push(s[k]);
        proof {
            assert(s@.subrange(a as int, k + 1) == s@.subrange(a as int, k as int).push(s@[k as int]));
        }
        k = k + 1;
    }
    proof {
        assert(oid@ =~= s@.subrange(d as int, d + 3));
    }
    Some((oid, aid))
}

fn path_match_exec(s: &[char], i: usize, long: &[char], short: &[char], slash: &[char]) -> (r: Option<(Vec<char>, Vec<char>)>)
    requires
        long@ == "/mnews/article/"@,
        short@ == "/article/"@,
        slash@ == "/"@,
    ensures
        match r {
            Some((o, a)) => path_match_at(s@, i as int) == Some((o@, a@)),
            None => path_match_at(s@, i as int) is None,
        },
{
    if i <= s.len() && matches_at(s, long, i) {
        assert(i + long@.len() <= s@.len());
        let r = ids_at_exec(s, i + long.len(), slash);
        if r.is_some() {
            return r;
        }
    }
    if i <= s.len() && matches_at(s, short, i) {
        assert(i + short@.len() <= s@.len());
        ids_at_exec(s, i + short.len(), slash)
    } else {
        None
    }
}

fn query_match_exec(s: &[char], i: usize, oid_key: &[char], aid_key: &[char]) -> (r: Option<(Vec<char>, Vec<char>)>)
    requires
        oid_key@ == "oid="@,
        aid_key@ == "&aid="@,
    ensures
        match r {
            Some((o, a)) => query_match_at(s@, i as int) == Some((o@, a@)),
            None => query_match_at(s@, i as int) is None,
        },
{
    if i <= s.len() && matches_at(s, oid_key, i) {
        assert(i + oid_key@.len() <= s@.len());
        ids_at_exec(s, i + oid_key.len(), aid_key)
    } else {
        None
    }
}

fn first_path_match(s: &[char]) -> (r: Option<(Vec<char>, Vec<char>)>)
    ensures
        match r {
            Some((o, a)) => path_ids_from(s@, 0) == Some((o@, a@)),
            None => path_ids_from(s@, 0) is None,
        },
{
    let long = chars_of("/mnews/article/");
    let short = chars_of("/article/");
    let slash = chars_of("/");
    let mut i: usize = 0;
    while i <= s.len()
        invariant
            long@ == "/mnews/article/"@,
            short@ == "/article/"@,
            slash@ == "/"@,
            i <= s@.len(),
            path_ids_from(s@, 0) == path_ids_from(s@, i as int),
        decreases s@.len() - i,
    {
        let m = path_match_exec(s, i, long.as_slice(), short.as_slice(), slash.as_slice());
        if m.is_some() {
            return m;
        }
        if i == s.len() {
            assert(path_ids_from(s@, i + 1) is None);
            return None;
        }
        i = i + 1;
    }
    None
}

fn first_query_match(s: &[char]) -> (r: Option<(Vec<char>, Vec<char>)>)
    ensures
        match r {
            Some((o, a)) => query_ids_from(s@, 0) == Some((o@, a@)),
            None => query_ids_from(s@, 0) is None,
        },
{
    let oid_key = chars_of("oid=");
    let aid_key = chars_of("&aid=");
    let mut j: usize = 0;
    while j <= s.len()
        invariant
            oid_key@ == "oid="@,
            aid_key@ == "&aid="@,
            j <= s@.len(),
            query_ids_from(s@, 0) == query_ids_from(s@, j as int),
        decreases s@.len() - j,
    {
        let m = query_match_exec(s, j, oid_key.as_slice(), aid_key.as_slice());
        if m.is_some() {
            return m;
        }
        if j == s.len() {
            assert(query_ids_from(s@, j + 1) is None);
            return None;
        }
        j = j + 1;
    }
    None
}

/// Leftmost (oid, aid) of the path pattern, then of the query pattern.
pub fn find_ids(s: &[char]) -> (r: Option<(Vec<char>, Vec<char>)>)
    ensures
        match r {
            Some((o, a)) => spec_extract_ids(s@) == Some((o@, a@)),
            None => spec_extract_ids(s@) is None,
        },
{
    let p = first_path_match(s);
    if p.is_some() {
        return p;
    }
    first_query_match(s)
}

/// Article URL extractor from list pages.
///
/// Handles the modern `/mnews/article/{oid}/{aid}`, the standard
/// `/article/{oid}/{aid}`, the old `read.naver?oid={oid}&aid={aid}` and the
/// mobile `https://m.news.naver.com/...` forms.
pub struct UrlExtractor {}

impl UrlExtractor {
    /// Create a new URL extractor.
    pub fn new() -> (r: Self) {
        UrlExtractor {}
    }

    /// Extract oid (publisher ID) and aid (article ID) from a URL.
    pub fn extract_ids(&self, url: &str) -> (r: Result<(String, String), ParseError>)
        ensures
            match r {
                Ok((o, a)) => spec_extract_ids(url@) == Some((o@, a@)),
                Err(e) => spec_extract_ids(url@) is None && e == ParseError::IdExtractionFailed,
            },
    {
        let s = chars_of(url);
        match find_ids(s.as_slice()) {
            Some((o, a)) => Ok((string_of(o.as_slice()), string_of(a.as_slice()))),
            None => Err(ParseError::IdExtractionFailed),
        }
    }

    /// Normalize a URL to the standard desktop format
    /// `https://n.news.naver.com/mnews/article/{oid}/{aid}`.
    pub fn normalize_url(&self, url: &str) -> (r: Option<String>)
        ensures
            match r {
                Some(n) => spec_normalize_url(url@) == Some(n@),
                None => spec_normalize_url(url@) is None,
            },
    {
        let s = chars_of(url);
        match find_ids(s.as_slice()) {
            Some((o, a)) => {
                let mut out: Vec<char> = Vec::new();
                push_str(&mut out, "https://n.news.naver.com/mnews/article/");
                extend_chars(&mut out, o.as_slice());
                push_str(&mut out, "/");
                extend_chars(&mut out, a.as_slice());
                Some(string_of(out.as_slice()))
            },
            None => None,
        }
    }

    /// Extract article URLs from list page HTML: every `href` value that
    /// normalizes to a valid article URL, normalized, deduplicated and sorted.
    pub fn extract_urls(&self, html: &str) -> (r: Vec<String>)
        ensures
            strictly_sorted(r@.map_values(|u: String| u@)),
            r@.map_values(|u: String| u@).to_set() == linked_article_urls(html@),
    {
        let s = chars_of(html);
        let key = chars_of("href=");
        let mut found: Vec<Vec<char>> = Vec::new();
        let mut i: usize = 0;
        let ghost all = href_values_from(s@, 0);
        let ghost mut seen: Seq<Seq<char>> = Seq::empty();
        proof {
            assert(found@.map_values(|e: Vec<char>| e@) =~= Seq::<Seq<char>>::empty());
            assert(accepted_urls(seen) =~= Set::<Seq<char>>::empty());
            assert(found@.map_values(|e: Vec<char>| e@).to_set() =~= Set::<Seq<char>>::empty());
        }
        while i <= s.len()
            invariant
                key@ == "href="@,
                i <= s@.len() + 1,
                all == href_values_from(s@, 0),
                all == seen + href_values_from(s@, i as int),
                strictly_sorted(found@.map_values(|e: Vec<char>| e@)),
                found@.map_values(|e: Vec<char>| e@).to_set() == accepted_urls(seen),
            ensures
                href_values_from(s@, i as int) =~= Seq::<Seq<char>>::empty(),
            decreases s@.len() + 1 - i,
        {
            let m = href_match_exec(s.as_slice(), i, key.as_slice());
            match m {
                Some((v, e)) => {
                    proof {
                        assert(href_values_from(s@, i as int) == seq![v@] + href_values_from(s@, e as int));
                    }
                    let vs = string_of(v.as_slice());
                    let ghost old_found = found@.map_values(|e: Vec<char>| e@);
                    match self.normalize_url(vs.as_str()) {
                        Some(n) => {
                            if self.is_valid_article_url(n.as_str()) {
                                let nc = chars_of(n.as_str());
                                insert_sorted_unique(&mut found, nc);
                            }
                        },
                        None => {},
                    }
                    proof {
                        let nseen = seen.push(v@);
                        lemma_accepted_push(seen, v@);
                        assert(seq![v@] + href_values_from(s@, e as int) =~= seq![v@].add(href_values_from(s@, e as int)));
                        assert(nseen + href_values_from(s@, e as int) =~= seen + (seq![v@] + href_values_from(s@, e as int)));
                        seen = nseen;
                    }
                    i = e;
                },
                None => {
                    if i == s.len() {
                        assert(href_values_from(s@, i + 1) =~= Seq::<Seq<char>>::empty());
                        break;
                    }
                    i = i + 1;
                },
            }
        }
        proof {
            assert(seen =~= all);
        }
        let mut out: Vec<String> = Vec::new();
        let mut j: usize = 0;
        while j < found.len()
            invariant
                j <= found@.len(),
                out@.map_values(|u: String| u@) == found@.map_values(|e: Vec<char>| e@).take(j as int),
            decreases found@.len() - j,
        {
            out.push(string_of(found[j].as_slice()));
            proof {
                assert(found@.map_values(|e: Vec<char>| e@).take(j + 1) =~= found@.map_values(|e: Vec<char>| e@).take(j as int).push(found@[j as int]@));
                assert(out@.map_values(|u: String| u@) =~= found@.map_values(|e: Vec<char>| e@).take(j as int).push(found@[j as int]@));
            }
            j = j + 1;
        }
        proof {
            let fv = found@.map_values(|e: Vec<char>| e@);
            assert(fv.take(fv.len() as int) =~= fv);
            assert(fv.to_set() =~= linked_article_urls(html@));
        }
        out
    }

    /// Convert a relative URL to an absolute one against `base`.
    pub fn to_absolute(&self, url: &str, base: &str) -> (r: String)
        ensures
            r@ == spec_to_absolute(url@, base@),
    {
        let u = chars_of(url);
        let http = chars_of("http://");
        let https = chars_of("https://");
        if matches_at(u.as_slice(), http.as_slice(), 0) || matches_at(u.as_slice(), https.as_slice(), 0) {
            return string_of(u.as_slice());
        }
        match join_url(base, url) {
            Some(j) => j,
            None => string_of(u.as_slice()),
        }
    }

    /// Validate that a URL is a Naver news article URL on an allowed, safe host.
    pub fn is_valid_article_url(&self, url: &str) -> (r: bool)
        ensures
            r == spec_is_valid_article_url(url@),
    {
        if self.extract_ids(url).is_err() {
            return false;
        }
        if !is_allowed_domain(url) {
            return false;
        }
        is_safe_url(url)
    }
}

} // verus!

verus! {

proof fn lemma_digit_run_all(s: Seq<char>, i: int)
    requires
        0 <= i <= s.len(),
    ensures
        i + digit_run(s, i) <= s.len(),
        forall|k: int| i <= k < i + digit_run(s, i) ==> is_decimal_number(#[trigger] s[k]),
    decreases s.len() - i,
{
    if i < s.len() && is_decimal_number(s[i]) {
        lemma_digit_run_all(s, i + 1);
    }
}

proof fn lemma_digit_run_to_end(s: Seq<char>, i: int)
    requires
        0 <= i <= s.len(),
        forall|k: int| i <= k < s.len() ==> is_decimal_number(#[trigger] s[k]),
    ensures
        digit_run(s, i) == s.len() - i,
    decreases s.len() - i,
{
    if i < s.len() {
        lemma_digit_run_to_end(s, i + 1);
    }
}

/// Identifiers that the patterns can capture: three decimal digits for the
/// publisher, ten or more for the article.
pub open spec fn well_formed_ids(oid: Seq<char>, aid: Seq<char>) -> bool {
    &&& oid.len() == 3
    &&& aid.len() >= 10
    &&& forall|k: int| 0 <= k < oid.len() ==> is_decimal_number(#[trigger] oid[k])
    &&& forall|k: int| 0 <= k < aid.len() ==> is_decimal_number(#[trigger] aid[k])
}

proof fn lemma_ids_at_well_formed(s: Seq<char>, d: int, sep: Seq<char>)
    requires
        ids_at(s, d, sep) is Some,
    ensures
        match ids_at(s, d, sep) { Some((o, a)) => well_formed_ids(o, a), None => true },
{
    let a = d + 3 + sep.len();
    lemma_digit_run_all(s, a);
    let (o, aid) = ids_at(s, d, sep)->0;
    assert forall|k: int| 0 <= k < o.len() implies is_decimal_number(#[trigger] o[k]) by {
        assert(o[k] == s[d + k]);
    }
    assert forall|k: int| 0 <= k < aid.len() implies is_decimal_number(#[trigger] aid[k]) by {
        assert(aid[k] == s[a + k]);
    }
}

proof fn lemma_path_ids_from_well_formed(s: Seq<char>, i: int)
    requires
        path_ids_from(s, i) is Some,
    ensures
        match path_ids_from(s, i) { Some((o, a)) => well_formed_ids(o, a), None => true },
    decreases s.len() + 1 - i,
{
    if 0 <= i <= s.len() {
        match path_match_at(s, i) {
            Some(_) => {
                if occurs_at(s, "/mnews/article/"@, i) && ids_at(s, i + "/mnews/article/"@.len(), "/"@) is Some {
                    lemma_ids_at_well_formed(s, i + "/mnews/article/"@.len(), "/"@);
                } else {
                    lemma_ids_at_well_formed(s, i + "/article/"@.len(), "/"@);
                }
            },
            None => lemma_path_ids_from_well_formed(s, i + 1),
        }
    }
}

proof fn lemma_query_ids_from_well_formed(s: Seq<char>, i: int)
    requires
        query_ids_from(s, i) is Some,
    ensures
        match query_ids_from(s, i) { Some((o, a)) => well_formed_ids(o, a), None => true },
    decreases s.len() + 1 - i,
{
    if 0 <= i <= s.len() {
        match query_match_at(s, i) {
            Some(_) => lemma_ids_at_well_formed(s, i + "oid="@.len(), "&aid="@),
            None => lemma_query_ids_from_well_formed(s, i + 1),
        }
    }
}

proof fn lemma_canonical_prefix_skips(c: Seq<char>, i: int)
    requires
        0 <= i <= 24,
        c.len() >= 39,
        c.subrange(0, 39) == "https://n.news.naver.com/mnews/article/"@,
    ensures
        path_ids_from(c, i) == path_ids_from(c, 24),
    decreases 24 - i,
{
    reveal_strlit("https://n.news.naver.com/mnews/article/");
    reveal_strlit("/mnews/article/");
    reveal_strlit("/article/");
    if i < 24 {
        let p = "https://n.news.naver.com/mnews/article/"@;
        assert(c[i] == p[i]);
        assert(c[i + 1] == p[i + 1]);
        if occurs_at(c, "/mnews/article/"@, i) {
            assert(c.subrange(i, i + 15)[0] == c[i]);
            assert(c.subrange(i, i + 15)[1] == c[i + 1]);
        }
        if occurs_at(c, "/article/"@, i) {
            assert(c.subrange(i, i + 9)[0] == c[i]);
            assert(c.subrange(i, i + 9)[1] == c[i + 1]);
        }
        assert(path_match_at(c, i) is None);
        lemma_canonical_prefix_skips(c, i + 1);
    }
}

/// The canonical URL built from well-formed identifiers reads back as them.
pub proof fn lemma_canonical_url_ids(oid: Seq<char>, aid: Seq<char>)
    requires
        well_formed_ids(oid, aid),
    ensures
        spec_extract_ids(canonical_url(oid, aid)) == Some((oid, aid)),
{
    let p = "https://n.news.naver.com/mnews/article/"@;
    reveal_strlit("https://n.news.naver.com/mnews/article/");
    reveal_strlit("/mnews/article/");
    reveal_strlit("/");
    let c = canonical_url(oid, aid);
    assert(c =~= p + oid + "/"@ + aid);
    assert(c.subrange(0, 39) =~= p);
    lemma_canonical_prefix_skips(c, 0);
    assert(c.subrange(24, 39) =~= "/mnews/article/"@);
    assert(occurs_at(c, "/mnews/article/"@, 24));
    assert(c[39] == oid[0]);
    assert(c[40] == oid[1]);
    assert(c[41] == oid[2]);
    assert(c.subrange(42, 43) =~= "/"@);
    assert forall|k: int| 43 <= k < c.len() implies is_decimal_number(#[trigger] c[k]) by {
        assert(c[k] == aid[k - 43]);
    }
    lemma_digit_run_to_end(c, 43);
    assert(c.subrange(39, 42) =~= oid);
    assert(c.subrange(43, 43 + digit_run(c, 43) as int) =~= aid);
    assert(path_match_at(c, 24) == Some((oid, aid)));
}

/// Normalizing a URL twice gives the same canonical URL as normalizing once.
pub proof fn normalize_url_is_idempotent(url: Seq<char>)
    requires
        spec_normalize_url(url) is Some,
    ensures
        spec_normalize_url(spec_normalize_url(url)->0) == spec_normalize_url(url),
{
    let ids = spec_extract_ids(url)->0;
    match path_ids_from(url, 0) {
        Some(_) => lemma_path_ids_from_well_formed(url, 0),
        None => lemma_query_ids_from_well_formed(url, 0),
    }
    lemma_canonical_url_ids(ids.0, ids.1);
}

} // verus!
