//! Fetching Naver News pages: the retry policy with exponential backoff, the
//! browser-like request headers with a rotating User-Agent, and reading a
//! response body as UTF-8 or EUC-KR.
//!
//! Sending the requests and waiting for the rate limiter is the caller's; the
//! fetcher here holds the settings and makes every decision in between.
use vstd::prelude::*;
use vstd::arithmetic::power2::{pow2, lemma_pow2_unfold, lemma_pow2_pos};
use vstd::utf8::{valid_utf8, decode_utf8};
use rand::rngs::{OsRng, StdRng};
use rand::seq::SliceRandom;
use rand::SeedableRng;
use crate::text::{chars_of, string_of, push_str, push_decimal, decimal, lowercase, to_lowercase, contains_seq, contains_lit};
use super::headers::{is_header_value, header_value_ok, pair_views};

verus! {

broadcast use vstd::slice::group_slice_axioms;

/// Errors of a fetch.
#[derive(Debug)]
pub enum FetchError {
    /// The HTTP client failed, with its message
    Http(String),
    /// The request timed out
    Timeout,
    /// The server answered with a status that is not a success
    ServerError(u16),
    /// The body could not be decoded
    Decode(String),
    /// Every attempt failed
    MaxRetriesExceeded,
}

/// The pool of User-Agent strings that requests rotate through.
pub open spec fn user_agent_pool() -> Seq<Seq<char>> {
    seq![
        "Mozilla/5.0 (Windows NT 10.0; Win64; x64) AppleWebKit/537.36 (KHTML, like Gecko) Chrome/120.0.0.0 Safari/537.36"@,
        "Mozilla/5.0 (Macintosh; Intel Mac OS X 10_15_7) AppleWebKit/537.36 (KHTML, like Gecko) Chrome/120.0.0.0 Safari/537.36"@,
        "Mozilla/5.0 (Windows NT 10.0; Win64; x64; rv:121.0) Gecko/20100101 Firefox/121.0"@,
        "Mozilla/5.0 (Macintosh; Intel Mac OS X 10_15_7) AppleWebKit/605.1.15 (KHTML, like Gecko) Version/17.2 Safari/605.1.15"@,
    ]
}

/// The User-Agent strings of the pool, in order.
pub fn user_agents() -> (r: Vec<&'static str>)
    ensures
        r@.map_values(|a: &'static str| a@) == user_agent_pool(),
{
    let mut v: Vec<&'static str> = Vec::new();
    v.push("Mozilla/5.0 (Windows NT 10.0; Win64; x64) AppleWebKit/537.36 (KHTML, like Gecko) Chrome/120.0.0.0 Safari/537.36");
    v.push("Mozilla/5.0 (Macintosh; Intel Mac OS X 10_15_7) AppleWebKit/537.36 (KHTML, like Gecko) Chrome/120.0.0.0 Safari/537.36");
    v.push("Mozilla/5.0 (Windows NT 10.0; Win64; x64; rv:121.0) Gecko/20100101 Firefox/121.0");
    v.push("Mozilla/5.0 (Macintosh; Intel Mac OS X 10_15_7) AppleWebKit/605.1.15 (KHTML, like Gecko) Version/17.2 Safari/605.1.15");
    assert(v@.map_values(|a: &'static str| a@) =~= user_agent_pool());
    v
}

#[verifier::external_type_specification]
#[verifier::external_body]
pub struct ExStdRng(StdRng);

/// `rand::SeedableRng::from_rng(OsRng)`: a `StdRng` seeded from the
/// operating system's generator, or `None` when the system cannot supply
/// randomness (the call's error). The seed is random, so nothing is stated
/// of it.
#[verifier::external_body]
fn seeded_rng() -> (r: Option<StdRng>) {
    match StdRng::from_rng(OsRng) {
        Ok(g) => Some(g),
        Err(_) => None,
    }
}

/// `rand::seq::SliceRandom::choose` with a generator: one element of the
/// slice, picked at random, or nothing for an empty slice. Which one is
/// picked is left open.
#[verifier::external_body]
fn choose_agent(agents: &[&'static str], rng: &mut StdRng) -> (r: Option<&'static str>)
    ensures
        (r is Some) == (agents@.len() > 0),
        r matches Some(a) ==> exists|i: int| 0 <= i < agents@.len() && (#[trigger] agents@[i])@ == a@,
{
    agents.choose(rng).copied()
}

/// The User-Agent used for a draw from the pool: the agent drawn, or the
/// first of the pool when no draw could be made.
pub open spec fn agent_of_draw(draw: Option<&'static str>) -> Seq<char> {
    match draw {
        Some(a) => a@,
        None => user_agent_pool()[0],
    }
}

/// Whether a status code is worth another attempt: 429, 500, 502, 503, 504.
pub open spec fn spec_should_retry(status: u16) -> bool {
    status == 429 || status == 500 || status == 502 || status == 503 || status == 504
}

/// A success status (2xx).
pub open spec fn is_success_status(status: u16) -> bool {
    200 <= status <= 299
}

/// What to do with the status of a response.
#[derive(Debug, Clone, Copy, PartialEq, Eq, Structural)]
pub enum StatusAction {
    /// Success: decode the body
    Decode,
    /// A retryable error status
    Retry,
    /// Any other status: give up with a server error
    Fail,
}

/// The referer sent with an article request of a section.
pub open spec fn spec_section_referer(section_id: u32) -> Seq<char> {
    "https://news.naver.com/section/"@ + decimal(section_id as nat)
}

/// The headers of a page request: the User-Agent, the usual browser
/// headers, and the referer when it can be sent as a header value.
pub open spec fn fetch_headers(agent: Seq<char>, referer: Seq<char>) -> Seq<(Seq<char>, Seq<char>)> {
    let base = seq![
        ("user-agent"@, agent),
        ("accept"@, "text/html,application/xhtml+xml,application/xml;q=0.9,image/webp,*/*;q=0.8"@),
        ("accept-language"@, "ko-KR,ko;q=0.9,en-US;q=0.8,en;q=0.7"@),
        ("accept-encoding"@, "gzip, deflate, br"@),
    ];
    if is_header_value(referer) {
        base.push(("referer"@, referer))
    } else {
        base
    }
}

/// The encodings a page body is read in.
#[derive(Debug, Clone, Copy, PartialEq, Eq, Structural)]
pub enum TextEncoding {
    Utf8,
    EucKr,
}

/// The text that `encoding_rs` decodes from the bytes in an encoding, when
/// it decodes them without malformed sequences.
pub uninterp spec fn decoded_text(encoding: TextEncoding, bytes: Seq<u8>) -> Option<Seq<char>>;

/// `encoding_rs::Encoding::decode` (on `UTF_8` or `EUC_KR`): the text of the
/// bytes, or nothing when the decoder met malformed sequences. The result is
/// named `decoded_text`; the encodings (and the byte-order-mark sniffing
/// that `decode` does first) are not restated here. The bound on the length
/// keeps the decoder's buffer size from overflowing, on which it panics.
#[verifier::external_body]
fn decode_in(encoding: TextEncoding, bytes: &[u8]) -> (r: Option<String>)
    requires
        bytes@.len() <= usize::MAX / 8,
    ensures
        match r {
            Some(s) => decoded_text(encoding, bytes@) == Some(s@),
            None => decoded_text(encoding, bytes@) is None,
        },
{
    let enc = match encoding {
        TextEncoding::Utf8 => encoding_rs::UTF_8,
        TextEncoding::EucKr => encoding_rs::EUC_KR,
    };
    let (cow, _encoding, had_errors) = enc.decode(bytes);
    if had_errors {
        None
    } else {
        Some(cow.into_owned())
    }
}

/// `std::str::from_utf8`: the text of bytes that are valid UTF-8, else
/// nothing.
#[verifier::external_body]
fn utf8_text(bytes: &[u8]) -> (r: Option<String>)
    ensures
        (r is Some) == valid_utf8(bytes@),
        r matches Some(s) ==> s@ == decode_utf8(bytes@),
{
    match std::str::from_utf8(bytes) {
        Ok(s) => Some(s.to_owned()),
        Err(_) => None,
    }
}

/// The first `n` bytes, or all of them when there are fewer.
pub open spec fn prefix_bytes(bytes: Seq<u8>, n: int) -> Seq<u8> {
    if bytes.len() <= n { bytes } else { bytes.take(n) }
}

/// The body read in one encoding, or the error that reading it gives.
pub open spec fn read_in(encoding: TextEncoding, bytes: Seq<u8>) -> Result<Seq<char>, Seq<char>> {
    match decoded_text(encoding, bytes) {
        Some(t) => Ok(t),
        None => Err(
            match encoding {
                TextEncoding::Utf8 => "UTF-8 decoding errors"@,
                TextEncoding::EucKr => "EUC-KR decoding errors"@,
            },
        ),
    }
}

/// The UTF-8 text of the bytes, unless it does not decode cleanly or opens
/// with a replacement character.
pub open spec fn clean_utf8(bytes: Seq<u8>) -> Option<Seq<char>> {
    match decoded_text(TextEncoding::Utf8, bytes) {
        Some(t) => if t.len() > 0 && t[0] == '\u{FFFD}' { None } else { Some(t) },
        None => None,
    }
}

/// How a body is decoded: the charset that the content type names wins;
/// else UTF-8 when it decodes cleanly and does not open with a replacement
/// character; else EUC-KR; else, when the first kilobyte is UTF-8 naming
/// the EUC-KR charset, EUC-KR's own error; else a decode failure. A decode
/// error carries its message.
pub open spec fn spec_decode_bytes(bytes: Seq<u8>, content_type: Seq<char>) -> Result<Seq<char>, Seq<char>> {
    let ct = lowercase(content_type);
    if contains_seq(ct, "charset=euc-kr"@) {
        read_in(TextEncoding::EucKr, bytes)
    } else if contains_seq(ct, "charset=utf-8"@) {
        read_in(TextEncoding::Utf8, bytes)
    } else if clean_utf8(bytes) is Some {
        Ok(clean_utf8(bytes)->0)
    } else if decoded_text(TextEncoding::EucKr, bytes) is Some {
        Ok(decoded_text(TextEncoding::EucKr, bytes)->0)
    } else if valid_utf8(prefix_bytes(bytes, 1024)) && contains_seq(
        lowercase(decode_utf8(prefix_bytes(bytes, 1024))),
        "charset=euc-kr"@,
    ) {
        read_in(TextEncoding::EucKr, bytes)
    } else {
        Err("Failed to decode content with UTF-8 or EUC-KR"@)
    }
}

/// The decode result as a fetch result.
pub open spec fn decode_result_is(r: Result<String, FetchError>, s: Result<Seq<char>, Seq<char>>) -> bool {
    match r {
        Ok(t) => s == Ok::<Seq<char>, Seq<char>>(t@),
        Err(FetchError::Decode(m)) => s == Err::<Seq<char>, Seq<char>>(m@),
        Err(_) => false,
    }
}

fn read_body(encoding: TextEncoding, bytes: &[u8]) -> (r: Result<String, FetchError>)
    requires
        bytes@.len() <= usize::MAX / 8,
    ensures
        decode_result_is(r, read_in(encoding, bytes@)),
{
    match decode_in(encoding, bytes) {
        Some(t) => Ok(t),
        None => match encoding {
            TextEncoding::Utf8 => Err(FetchError::Decode("UTF-8 decoding errors".to_owned())),
            TextEncoding::EucKr => Err(FetchError::Decode("EUC-KR decoding errors".to_owned())),
        },
    }
}

fn first_bytes(bytes: &[u8], n: usize) -> (r: Vec<u8>)
    ensures
        r@ == prefix_bytes(bytes@, n as int),
{
    let m = if bytes.len() <= n { bytes.len() } else { n };
    let mut out: Vec<u8> = Vec::new();
    let mut i: usize = 0;
    while i < m
        invariant
            m <= bytes@.len(),
            m == if bytes@.len() <= n { bytes@.len() } else { n as nat },
            i <= m,
            out@ == bytes@.take(i as int),
        decreases m - i,
    {
        out.push(bytes[i]);
        assert(bytes@.take(i + 1) =~= bytes@.take(i as int).push(bytes@[i as int]));
        i = i + 1;
    }
    assert(bytes@.take(bytes@.len() as int) =~= bytes@);
    out
}

/// Whether a status code should trigger a retry.
pub fn should_retry_status(status: u16) -> (r: bool)
    ensures
        r == spec_should_retry(status),
{
    status == 429 || status == 500 || status == 502 || status == 503 || status == 504
}

/// What to do with a response status: decode on success, retry on a
/// retryable status, else fail.
pub fn status_action(status: u16) -> (r: StatusAction)
    ensures
        r == if is_success_status(status) {
            StatusAction::Decode
        } else if spec_should_retry(status) {
            StatusAction::Retry
        } else {
            StatusAction::Fail
        },
{
    if 200 <= status && status <= 299 {
        StatusAction::Decode
    } else if should_retry_status(status) {
        StatusAction::Retry
    } else {
        StatusAction::Fail
    }
}

/// The referer of an article request in a section:
/// `https://news.naver.com/section/{section_id}`.
pub fn section_referer_url(section_id: u32) -> (r: String)
    ensures
        r@ == spec_section_referer(section_id),
{
    let mut out: Vec<char> = Vec::new();
    push_str(&mut out, "https://news.naver.com/section/");
    push_decimal(&mut out, section_id as u64);
    string_of(out.as_slice())
}

/// Delay before attempt `attempt` (from 1): the base delay doubled for each
/// attempt after the first retry.
pub open spec fn backoff_ms(base_delay_ms: u64, attempt: u32) -> int {
    base_delay_ms * pow2((attempt - 1) as nat)
}

/// The delay of a retry, in milliseconds.
pub fn backoff_delay_ms(base_delay_ms: u64, attempt: u32) -> (r: u64)
    requires
        attempt >= 1,
        backoff_ms(base_delay_ms, attempt) <= u64::MAX,
    ensures
        r == backoff_ms(base_delay_ms, attempt),
{
    let mut d: u64 = base_delay_ms;
    let mut k: u32 = 0;
    proof {
        assert(pow2(0) == 1) by {
            vstd::arithmetic::power2::lemma2_to64();
        }
    }
    while k < attempt - 1
        invariant
            attempt >= 1,
            k <= attempt - 1,
            d == base_delay_ms * pow2(k as nat),
            base_delay_ms * pow2((attempt - 1) as nat) <= u64::MAX,
        decreases attempt - 1 - k,
    {
        proof {
            lemma_pow2_unfold((k + 1) as nat);
            lemma_pow2_monotone(base_delay_ms as nat, (k + 1) as nat, (attempt - 1) as nat);
            assert(base_delay_ms * pow2((k + 1) as nat) == 2 * (base_delay_ms * pow2(k as nat))) by (nonlinear_arith)
                requires
                    pow2((k + 1) as nat) == 2 * pow2(k as nat),
            ;
        }
        d = d * 2;
        k = k + 1;
    }
    d
}

proof fn lemma_pow2_monotone(b: nat, i: nat, j: nat)
    requires
        i <= j,
    ensures
        b * pow2(i) <= b * pow2(j),
    decreases j - i,
{
    if i < j {
        lemma_pow2_monotone(b, i, (j - 1) as nat);
        lemma_pow2_unfold(j);
        lemma_pow2_pos((j - 1) as nat);
        assert(b * pow2((j - 1) as nat) <= b * pow2(j)) by (nonlinear_arith)
            requires
                pow2(j) == 2 * pow2((j - 1) as nat),
        ;
    }
}

/// Fetcher settings: the rate limit, the request timeout, the number of
/// retries and the backoff base, and an optional base URL put in front of
/// every requested URL. The HTTP client and the rate limiter built from them
/// are the caller's.
#[derive(Debug)]
pub struct NaverFetcher {
    /// Requests per second, at least 1
    pub requests_per_second: u32,
    /// Request timeout in seconds
    pub timeout_secs: u64,
    /// Maximum number of retry attempts for failed requests
    pub max_retries: u32,
    /// Base delay in milliseconds for exponential backoff
    pub base_delay_ms: u64,
    /// Optional base URL override
    pub base_url: Option<String>,
}

impl NaverFetcher {
    /// Create a fetcher: 3 retries, 30 s timeout.
    pub fn new(requests_per_second: u32) -> (r: Self)
        ensures
            r.requests_per_second == if requests_per_second == 0 { 1 } else { requests_per_second },
            r.max_retries == 3,
            r.timeout_secs == 30,
            r.base_delay_ms == 1000,
            r.base_url is None,
    {
        Self::with_config(requests_per_second, 3, 30)
    }

    /// Create a fetcher with custom settings; a rate of 0 becomes 1.
    pub fn with_config(requests_per_second: u32, max_retries: u32, timeout_secs: u64) -> (r: Self)
        ensures
            r.requests_per_second == if requests_per_second == 0 { 1 } else { requests_per_second },
            r.max_retries == max_retries,
            r.timeout_secs == timeout_secs,
            r.base_delay_ms == 1000,
            r.base_url is None,
    {
        NaverFetcher {
            requests_per_second: if requests_per_second == 0 { 1 } else { requests_per_second },
            timeout_secs,
            max_retries,
            base_delay_ms: 1000,
            base_url: None,
        }
    }

    /// Create a fetcher that puts `base_url` in front of every URL.
    pub fn with_base_url(base_url: &str, requests_per_second: u32) -> (r: Self)
        ensures
            r.requests_per_second == if requests_per_second == 0 { 1 } else { requests_per_second },
            r.max_retries == 3,
            r.timeout_secs == 30,
            r.base_delay_ms == 1000,
            r.base_url matches Some(b) && b@ == base_url@,
    {
        let mut f = Self::new(requests_per_second);
        f.base_url = Some(base_url.to_owned());
        f
    }

    /// Create a fetcher with custom settings and a base URL.
    pub fn with_config_and_base_url(base_url: &str, requests_per_second: u32, max_retries: u32, timeout_secs: u64) -> (r: Self)
        ensures
            r.requests_per_second == if requests_per_second == 0 { 1 } else { requests_per_second },
            r.max_retries == max_retries,
            r.timeout_secs == timeout_secs,
            r.base_delay_ms == 1000,
            r.base_url matches Some(b) && b@ == base_url@,
    {
        let mut f = Self::with_config(requests_per_second, max_retries, timeout_secs);
        f.base_url = Some(base_url.to_owned());
        f
    }

    /// Determine if a status code should trigger a retry.
    pub fn should_retry(status: u16) -> (r: bool)
        ensures
            r == spec_should_retry(status),
    {
        should_retry_status(status)
    }

    /// The URL actually requested: the base URL, when set, followed by `url`.
    pub fn full_url(&self, url: &str) -> (r: String)
        ensures
            r@ == match self.base_url {
                Some(b) => b@ + url@,
                None => url@,
            },
    {
        match &self.base_url {
            Some(b) => {
                let mut out = chars_of(b.as_str());
                push_str(&mut out, url);
                string_of(out.as_slice())
            },
            None => url.to_owned(),
        }
    }

    /// The User-Agent used for a draw from the pool: the agent drawn, or
    /// the first of the pool when no draw could be made.
    pub fn user_agent_for(draw: Option<&'static str>) -> (r: &'static str)
        ensures
            r@ == agent_of_draw(draw),
    {
        match draw {
            Some(a) => a,
            None => {
                let agents = user_agents();
                let ghost pool = agents@.map_values(|a: &'static str| a@);
                assert(pool.len() == agents@.len() && pool.len() == 4);
                assert(pool[0] == agents@[0]@);
                agents[0]
            },
        }
    }

    /// A User-Agent from the pool, picked at random with `SliceRandom::choose`
    /// on a generator seeded from the system; the first of the pool when the
    /// system supplies no randomness.
    pub fn random_user_agent(&self) -> (r: &'static str)
        ensures
            user_agent_pool().contains(r@),
            exists|draw: Option<&'static str>|
                (draw matches Some(a) ==> user_agent_pool().contains(a@)) && r@ == #[trigger] agent_of_draw(draw),
    {
        let agents = user_agents();
        let ghost pool = agents@.map_values(|a: &'static str| a@);
        assert(pool.len() == agents@.len() && pool.len() == 4);
        let draw = match seeded_rng() {
            Some(mut g) => choose_agent(agents.as_slice(), &mut g),
            None => None,
        };
        proof {
            if let Some(a) = draw {
                let i = choose|i: int| 0 <= i < agents@.len() && (#[trigger] agents@[i])@ == a@;
                assert(pool[i] == a@);
            }
            assert(pool[0] == agents@[0]@);
        }
        let r = Self::user_agent_for(draw);
        assert(r@ == agent_of_draw(draw));
        r
    }

    /// Build the headers of a page request, with a random User-Agent.
    pub fn build_headers(&self, referer: &str) -> (r: Vec<(String, String)>)
        ensures
            r@.len() >= 4,
            user_agent_pool().contains(r@[0].1@),
            pair_views(r@) == fetch_headers(r@[0].1@, referer@),
    {
        let agent = self.random_user_agent();
        let mut v: Vec<(String, String)> = Vec::new();
        v.push(("user-agent".to_owned(), agent.to_owned()));
        v.push((
            "accept".to_owned(),
            "text/html,application/xhtml+xml,application/xml;q=0.9,image/webp,*/*;q=0.8".to_owned(),
        ));
        v.push(("accept-language".to_owned(), "ko-KR,ko;q=0.9,en-US;q=0.8,en;q=0.7".to_owned()));
        v.push(("accept-encoding".to_owned(), "gzip, deflate, br".to_owned()));
        if header_value_ok(referer) {
            v.push(("referer".to_owned(), referer.to_owned()));
        }
        assert(pair_views(v@) =~= fetch_headers(agent@, referer@));
        v
    }

    /// Decode a body to text, reading the charset from the content type
    /// and falling back from UTF-8 to EUC-KR (see `spec_decode_bytes`).
    pub fn decode_bytes(&self, bytes: &[u8], content_type: &str) -> (r: Result<String, FetchError>)
        requires
            bytes@.len() <= usize::MAX / 8,
        ensures
            decode_result_is(r, spec_decode_bytes(bytes@, content_type@)),
    {
        let lower = to_lowercase(content_type);
        let ct = chars_of(lower.as_str());
        if contains_lit(ct.as_slice(), "charset=euc-kr") {
            return read_body(TextEncoding::EucKr, bytes);
        }
        if contains_lit(ct.as_slice(), "charset=utf-8") {
            return read_body(TextEncoding::Utf8, bytes);
        }
        if let Some(t) = decode_in(TextEncoding::Utf8, bytes) {
            let tc = chars_of(t.as_str());
            if !(tc.len() > 0 && tc[0] == '\u{FFFD}') {
                return Ok(t);
            }
        }
        if let Some(t) = decode_in(TextEncoding::EucKr, bytes) {
            return Ok(t);
        }
        let head = first_bytes(bytes, 1024);
        if let Some(partial) = utf8_text(head.as_slice()) {
            let pl = to_lowercase(partial.as_str());
            let pc = chars_of(pl.as_str());
            if contains_lit(pc.as_slice(), "charset=euc-kr") {
                return read_body(TextEncoding::EucKr, bytes);
            }
        }
        Err(FetchError::Decode("Failed to decode content with UTF-8 or EUC-KR".to_owned()))
    }
}

/// The attempts after the one of `a` failed: the next attempt, or none
/// left when `a` was the last retry.
pub open spec fn after_failure(a: FetchAttempts, b: FetchAttempts) -> bool {
    &&& b.spec_max_retries() == a.spec_max_retries()
    &&& b.spec_base_delay_ms() == a.spec_base_delay_ms()
    &&& b.spec_exhausted() == (a.spec_attempt() >= a.spec_max_retries())
    &&& !b.spec_exhausted() ==> b.spec_attempt() == a.spec_attempt() + 1
}

/// The attempts of one fetch: attempt 0, then up to `max_retries` retries,
/// each after its backoff.
#[derive(Debug)]
pub struct FetchAttempts {
    attempt: u32,
    max_retries: u32,
    base_delay_ms: u64,
    done: bool,
}

/// What the fetch loop does next.
#[derive(Debug, Clone, Copy, PartialEq, Eq, Structural)]
pub enum FetchStep {
    /// Send the request, after waiting `delay_ms` milliseconds
    Send { delay_ms: u64 },
    /// Every attempt failed
    GiveUp,
}

impl FetchAttempts {
    pub closed spec fn spec_attempt(&self) -> u32 {
        self.attempt
    }

    pub closed spec fn spec_max_retries(&self) -> u32 {
        self.max_retries
    }

    pub closed spec fn spec_base_delay_ms(&self) -> u64 {
        self.base_delay_ms
    }

    /// No attempt is left.
    pub closed spec fn spec_exhausted(&self) -> bool {
        self.done
    }

    /// The backoff of the next attempt fits in 64 bits (it always does for
    /// the fetcher's one-second base below 55 attempts).
    pub open spec fn backoff_fits(&self) -> bool {
        self.spec_exhausted() || self.spec_attempt() == 0 || backoff_ms(self.spec_base_delay_ms(), self.spec_attempt()) <= u64::MAX
    }

    /// The attempts of a fetch with the fetcher's settings.
    pub fn new(fetcher: &NaverFetcher) -> (r: Self)
        ensures
            r.spec_attempt() == 0,
            r.spec_max_retries() == fetcher.max_retries,
            r.spec_base_delay_ms() == fetcher.base_delay_ms,
            !r.spec_exhausted(),
    {
        FetchAttempts { attempt: 0, max_retries: fetcher.max_retries, base_delay_ms: fetcher.base_delay_ms, done: false }
    }

    /// The next step: give up once every attempt failed, else send, after
    /// the backoff when this is a retry.
    pub fn next_step(&self) -> (r: FetchStep)
        requires
            self.backoff_fits(),
        ensures
            self.spec_exhausted() ==> r == FetchStep::GiveUp,
            !self.spec_exhausted() && self.spec_attempt() == 0 ==> r == (FetchStep::Send { delay_ms: 0 }),
            !self.spec_exhausted() && self.spec_attempt() > 0 ==> (r matches FetchStep::Send { delay_ms } && delay_ms
                == backoff_ms(self.spec_base_delay_ms(), self.spec_attempt())),
    {
        if self.done {
            FetchStep::GiveUp
        } else if self.attempt == 0 {
            FetchStep::Send { delay_ms: 0 }
        } else {
            FetchStep::Send { delay_ms: backoff_delay_ms(self.base_delay_ms, self.attempt) }
        }
    }

    /// The attempt just sent failed in a way worth retrying (a timeout, a
    /// transport error or a retryable status): the next attempt follows,
    /// unless that was the last one.
    pub fn record_failure(&mut self)
        requires
            !old(self).spec_exhausted(),
        ensures
            after_failure(*old(self), *final(self)),
    {
        if self.attempt >= self.max_retries {
            self.done = true;
        } else {
            self.attempt = self.attempt + 1;
        }
    }
}

/// Each retry waits twice as long as the one before.
pub proof fn backoff_doubles(base_delay_ms: u64, attempt: u32)
    requires
        1 <= attempt < u32::MAX,
    ensures
        backoff_ms(base_delay_ms, (attempt + 1) as u32) == 2 * backoff_ms(base_delay_ms, attempt),
{
    lemma_pow2_unfold(attempt as nat);
    assert(base_delay_ms * pow2(attempt as nat) == 2 * (base_delay_ms * pow2((attempt - 1) as nat))) by (nonlinear_arith)
        requires
            pow2(attempt as nat) == 2 * pow2((attempt - 1) as nat),
    ;
}

proof fn lemma_attempt_k(states: Seq<FetchAttempts>, k: int)
    requires
        0 <= k < states.len(),
        states[0].spec_attempt() == 0,
        !states[0].spec_exhausted(),
        forall|i: int| 0 <= i < states.len() - 1 ==> !(#[trigger] states[i]).spec_exhausted() && after_failure(
            states[i],
            states[i + 1],
        ),
    ensures
        states[k].spec_max_retries() == states[0].spec_max_retries(),
        states[k].spec_exhausted() <==> k > states[0].spec_max_retries(),
        !states[k].spec_exhausted() ==> states[k].spec_attempt() == k,
    decreases k,
{
    if k > 0 {
        lemma_attempt_k(states, k - 1);
        assert(!states[k - 1].spec_exhausted() && after_failure(states[k - 1], states[k]));
    }
}

/// A fetch sends at most `max_retries + 1` requests: along a run of failed
/// attempts from the start, attempt `i` is numbered `i` while attempts
/// remain, and they run out exactly after the failure of attempt
/// `max_retries`.
pub proof fn fetch_gives_up_after_the_last_retry(states: Seq<FetchAttempts>)
    requires
        states.len() > 0,
        states[0].spec_attempt() == 0,
        !states[0].spec_exhausted(),
        forall|i: int| 0 <= i < states.len() - 1 ==> !(#[trigger] states[i]).spec_exhausted() && after_failure(
            states[i],
            states[i + 1],
        ),
    ensures
        forall|i: int| 0 <= i < states.len() ==> ((#[trigger] states[i]).spec_exhausted() <==> i > states[0].spec_max_retries()),
        forall|i: int| 0 <= i < states.len() && !(#[trigger] states[i]).spec_exhausted() ==> states[i].spec_attempt() == i,
        states.len() <= states[0].spec_max_retries() + 2,
{
    assert forall|i: int| 0 <= i < states.len() implies ((#[trigger] states[i]).spec_exhausted() <==> i > states[0].spec_max_retries())
        && (!states[i].spec_exhausted() ==> states[i].spec_attempt() == i) by {
        lemma_attempt_k(states, i);
    }
    if states.len() >= 2 {
        lemma_attempt_k(states, states.len() - 2);
    }
}

} // verus!
