//! URL validation and security checks (SSRF prevention, domain allow-list).
use vstd::prelude::*;
use crate::text::{chars_of, string_of, push_str, is_digit, all_digits, char_is_digit, eq_literal};

verus! {

broadcast use vstd::slice::group_slice_axioms;

/// Scheme and host (`Url::scheme`, `Url::host_str`) of the absolute URL that
/// `url::Url::parse` reads from a text, or `None` where it rejects the text.
pub uninterp spec fn parsed_url_parts(url: Seq<char>) -> Option<(Seq<char>, Option<Seq<char>>)>;

/// View of the pair that `url_scheme_and_host` hands back.
pub open spec fn parts_view(r: Option<(String, Option<String>)>) -> Option<(Seq<char>, Option<Seq<char>>)> {
    match r {
        None => None,
        Some((scheme, host)) => Some((scheme@, match host {
            Some(h) => Some(h@),
            None => None,
        })),
    }
}

/// Calls `url::Url::parse` and, on success, reads `scheme()` and `host_str()`.
/// The WHATWG parsing rules behind it are not restated: its result is the
/// name `parsed_url_parts` of the input text.
#[verifier::external_body]
pub(crate) fn url_scheme_and_host(url: &str) -> (r: Option<(String, Option<String>)>)
    ensures
        parts_view(r) == parsed_url_parts(url@),
{
    match url::Url::parse(url) {
        Ok(u) => Some((u.scheme().to_string(), u.host_str().map(|h| h.to_string()))),
        Err(_) => None,
    }
}

/// The Naver News hosts that the crawler may fetch from.
pub open spec fn allowed_domains() -> Seq<Seq<char>> {
    seq![
        "n.news.naver.com"@,
        "news.naver.com"@,
        "m.news.naver.com"@,
        "entertain.naver.com"@,
        "sports.naver.com"@,
        "sports.news.naver.com"@,
    ]
}

/// The URL parses and its host is one of the allowed domains.
pub open spec fn spec_is_allowed_domain(url: Seq<char>) -> bool {
    match parsed_url_parts(url) {
        Some((_, Some(host))) => allowed_domains().contains(host),
        _ => false,
    }
}

/// Fields of `s` separated by `sep`, as `str::split` yields them.
pub open spec fn split_on(s: Seq<char>, sep: char) -> Seq<Seq<char>>
    decreases s.len(),
{
    if s.len() == 0 {
        seq![Seq::<char>::empty()]
    } else {
        let prev = split_on(s.drop_last(), sep);
        if s.last() == sep {
            prev.push(Seq::<char>::empty())
        } else {
            prev.update(prev.len() - 1, prev.last().push(s.last()))
        }
    }
}

pub proof fn lemma_split_on_nonempty(s: Seq<char>, sep: char)
    ensures
        split_on(s, sep).len() >= 1,
    decreases s.len(),
{
    if s.len() > 0 {
        lemma_split_on_nonempty(s.drop_last(), sep);
    }
}

/// Value of a sequence of ASCII digits.
pub open spec fn digits_value(s: Seq<char>) -> nat
    decreases s.len(),
{
    if s.len() == 0 {
        0
    } else {
        digits_value(s.drop_last()) * 10 + ((s.last() as nat) - ('0' as nat)) as nat
    }
}

/// The text after the optional leading `+` of an unsigned number.
pub open spec fn unsigned_body(s: Seq<char>) -> Seq<char> {
    if s.len() > 0 && s[0] == '+' { s.drop_first() } else { s }
}

/// The value that `<u8 as FromStr>::from_str` reads from a text: an optional
/// `+`, then at least one ASCII digit, with a value of at most 255.
pub open spec fn parse_u8(s: Seq<char>) -> Option<u8> {
    let body = unsigned_body(s);
    if body.len() == 0 {
        None
    } else if !all_digits(body) {
        None
    } else if digits_value(body) > 255 {
        None
    } else {
        Some(digits_value(body) as u8)
    }
}

/// A host written as four dot-separated octets in a private, loopback-free
/// range: 10/8, 172.16/12, 192.168/16 or link-local 169.254/16.
pub open spec fn spec_is_private_ip(host: Seq<char>) -> bool {
    let parts = split_on(host, '.');
    if parts.len() != 4 {
        false
    } else if parse_u8(parts[0]) is None || parse_u8(parts[1]) is None
        || parse_u8(parts[2]) is None || parse_u8(parts[3]) is None {
        false
    } else {
        let a = parse_u8(parts[0])->0;
        let b = parse_u8(parts[1])->0;
        ||| a == 10
        ||| (a == 172 && 16 <= b && b <= 31)
        ||| (a == 192 && b == 168)
        ||| (a == 169 && b == 254)
    }
}

/// A host written as four dot-separated octets in the IPv4 loopback range
/// 127.0.0.0/8.
pub open spec fn spec_is_loopback_ipv4(host: Seq<char>) -> bool {
    let parts = split_on(host, '.');
    &&& parts.len() == 4
    &&& parse_u8(parts[0]) == Some(127u8)
    &&& parse_u8(parts[1]) is Some
    &&& parse_u8(parts[2]) is Some
    &&& parse_u8(parts[3]) is Some
}

/// The URL parses, has scheme http or https, has a host, and the host is
/// neither `localhost`, nor an IPv4 loopback address (127.0.0.0/8), nor the
/// IPv6 loopback address (written `[::1]` in a URL's host), nor a private
/// IPv4 address.
pub open spec fn spec_is_safe_url(url: Seq<char>) -> bool {
    match parsed_url_parts(url) {
        None => false,
        Some((scheme, host)) => {
            &&& scheme != "file"@
            &&& (scheme == "http"@ || scheme == "https"@)
            &&& match host {
                None => false,
                Some(h) => {
                    &&& h != "localhost"@
                    &&& h != "[::1]"@
                    &&& h != "::1"@
                    &&& !spec_is_loopback_ipv4(h)
                    &&& !spec_is_private_ip(h)
                },
            }
        },
    }
}

/// Error message of `validate_url` for a URL, or `None` where it is accepted.
pub open spec fn validate_url_error(url: Seq<char>) -> Option<Seq<char>> {
    if parsed_url_parts(url) is None {
        Some("Invalid URL format: "@ + url)
    } else if !spec_is_safe_url(url) {
        Some("Unsafe URL (SSRF risk): "@ + url)
    } else if !spec_is_allowed_domain(url) {
        Some("Domain not allowed: "@ + url)
    } else {
        None
    }
}

/// Check if URL is from allowed Naver domains.
pub fn is_allowed_domain(url: &str) -> (r: bool)
    ensures
        r == spec_is_allowed_domain(url@),
{
    let parts = url_scheme_and_host(url);
    match parts {
        None => false,
        Some((_, None)) => false,
        Some((_, Some(host))) => {
            let h = chars_of(host.as_str());
            let r = eq_literal(h.as_slice(), "n.news.naver.com")
                || eq_literal(h.as_slice(), "news.naver.com")
                || eq_literal(h.as_slice(), "m.news.naver.com")
                || eq_literal(h.as_slice(), "entertain.naver.com")
                || eq_literal(h.as_slice(), "sports.naver.com")
                || eq_literal(h.as_slice(), "sports.news.naver.com");
            proof {
                let d = allowed_domains();
                if r {
                    if h@ == "n.news.naver.com"@ { assert(d[0] == h@); }
                    else if h@ == "news.naver.com"@ { assert(d[1] == h@); }
                    else if h@ == "m.news.naver.com"@ { assert(d[2] == h@); }
                    else if h@ == "entertain.naver.com"@ { assert(d[3] == h@); }
                    else if h@ == "sports.naver.com"@ { assert(d[4] == h@); }
                    else { assert(d[5] == h@); }
                } else {
                    assert forall|i: int| 0 <= i < d.len() implies d[i] != h@ by {}
                }
            }
            r
        },
    }
}

/// Fields of `s` separated by `sep`.
pub fn split_chars(s: &[char], sep: char) -> (r: Vec<Vec<char>>)
    ensures
        r@.len() == split_on(s@, sep).len(),
        forall|i: int| 0 <= i < r@.len() ==> #[trigger] r@[i]@ == split_on(s@, sep)[i],
{
    let mut fields: Vec<Vec<char>> = Vec::new();
    let mut cur: Vec<char> = Vec::new();
    let mut i: usize = 0;
    proof {
        assert(s@.take(0) =~= Seq::<char>::empty());
    }
    while i < s.len()
        invariant
            i <= s@.len(),
            fields@.len() + 1 == split_on(s@.take(i as int), sep).len(),
            forall|k: int| 0 <= k < fields@.len() ==> #[trigger] fields@[k]@ == split_on(s@.take(i as int), sep)[k],
            cur@ == split_on(s@.take(i as int), sep).last(),
        decreases s@.len() - i,
    {
        let ghost prev = split_on(s@.take(i as int), sep);
        proof {
            assert(s@.take(i + 1).drop_last() =~= s@.take(i as int));
            lemma_split_on_nonempty(s@.take(i as int), sep);
        }
        if s[i] == sep {
            let done = cur;
            fields.push(done);
            cur = Vec::new();
        } else {
            cur.push(s[i]);
        }
        i = i + 1;
    }
    proof {
        assert(s@.take(s@.len() as int) =~= s@);
        lemma_split_on_nonempty(s@, sep);
    }
    fields.push(cur);
    fields
}

/// The value of a run of ASCII digits, with `None` where it exceeds 255.
fn digits_u8(s: &[char], start: usize) -> (r: Option<u8>)
    requires
        start <= s@.len(),
        forall|i: int| start <= i < s@.len() ==> is_digit(#[trigger] s@[i]),
    ensures
        match r {
            Some(v) => digits_value(s@.subrange(start as int, s@.len() as int)) == v,
            None => digits_value(s@.subrange(start as int, s@.len() as int)) > 255,
        },
{
    let mut v: u32 = 0;
    let mut i: usize = start;
    let mut over = false;
    while i < s.len()
        invariant
            start <= i <= s@.len(),
            forall|k: int| start <= k < s@.len() ==> is_digit(#[trigger] s@[k]),
            !over ==> v as nat == digits_value(s@.subrange(start as int, i as int)) && v <= 255,
            over ==> digits_value(s@.subrange(start as int, i as int)) > 255,
        decreases s@.len() - i,
    {
        let d = (s[i] as u32) - ('0' as u32);
        proof {
            assert(s@.subrange(start as int, i + 1).drop_last() =~= s@.subrange(start as int, i as int));
            assert(is_digit(s@[i as int]));
        }
        if !over {
            let nv = v * 10 + d;
            if nv > 255 {
                over = true;
            } else {
                v = nv;
            }
        } else {
            proof {
                let p = s@.subrange(start as int, i as int);
                assert(digits_value(s@.subrange(start as int, i + 1)) == digits_value(p) * 10 + ((s@[i as int] as nat) - ('0' as nat)) as nat);
                assert(digits_value(p) * 10 >= digits_value(p)) by (nonlinear_arith);
            }
        }
        i = i + 1;
    }
    if over {
        None
    } else {
        Some(v as u8)
    }
}

/// `<u8 as FromStr>::from_str` on a field of characters.
pub fn parse_u8_chars(s: &[char]) -> (r: Option<u8>)
    ensures
        r == parse_u8(s@),
{
    let start: usize = if s.len() > 0 && s[0] == '+' { 1 } else { 0 };
    let ghost body = unsigned_body(s@);
    proof {
        assert(body =~= s@.subrange(start as int, s@.len() as int));
    }
    if start == s.len() {
        return None;
    }
    let mut i: usize = start;
    while i < s.len()
        invariant
            start <= i <= s@.len(),
            start < s@.len(),
            body == s@.subrange(start as int, s@.len() as int),
            body == unsigned_body(s@),
            forall|k: int| start <= k < i ==> is_digit(#[trigger] s@[k]),
        decreases s@.len() - i,
    {
        if !char_is_digit(s[i]) {
            proof {
                assert(body[i - start] == s@[i as int]);
                assert(!is_digit(body[i - start]));
            }
            return None;
        }
        i = i + 1;
    }
    proof {
        assert forall|k: int| 0 <= k < body.len() implies is_digit(#[trigger] body[k]) by {
            assert(body[k] == s@[k + start]);
        }
    }
    digits_u8(s, start)
}

/// The value that `<u64 as FromStr>::from_str` reads from a text: an
/// optional `+`, then at least one ASCII digit, with a value that fits.
pub open spec fn parse_u64(s: Seq<char>) -> Option<u64> {
    let body = unsigned_body(s);
    if body.len() == 0 {
        None
    } else if !all_digits(body) {
        None
    } else if digits_value(body) > u64::MAX {
        None
    } else {
        Some(digits_value(body) as u64)
    }
}

fn digits_u64(s: &[char], start: usize) -> (r: Option<u64>)
    requires
        start <= s@.len(),
        forall|i: int| start <= i < s@.len() ==> is_digit(#[trigger] s@[i]),
    ensures
        match r {
            Some(v) => digits_value(s@.subrange(start as int, s@.len() as int)) == v,
            None => digits_value(s@.subrange(start as int, s@.len() as int)) > u64::MAX,
        },
{
    let mut v: u128 = 0;
    let mut i: usize = start;
    let mut over = false;
    while i < s.len()
        invariant
            start <= i <= s@.len(),
            forall|k: int| start <= k < s@.len() ==> is_digit(#[trigger] s@[k]),
            !over ==> v as nat == digits_value(s@.subrange(start as int, i as int)) && v <= u64::MAX,
            over ==> digits_value(s@.subrange(start as int, i as int)) > u64::MAX,
        decreases s@.len() - i,
    {
        let d = ((s[i] as u32) - ('0' as u32)) as u128;
        proof {
            assert(s@.subrange(start as int, i + 1).drop_last() =~= s@.subrange(start as int, i as int));
            assert(is_digit(s@[i as int]));
        }
        if !over {
            let nv = v * 10 + d;
            if nv > u64::MAX as u128 {
                over = true;
            } else {
                v = nv;
            }
        } else {
            proof {
                let p = s@.subrange(start as int, i as int);
                assert(digits_value(s@.subrange(start as int, i + 1)) == digits_value(p) * 10 + ((s@[i as int] as nat) - ('0' as nat)) as nat);
                assert(digits_value(p) * 10 >= digits_value(p)) by (nonlinear_arith);
            }
        }
        i = i + 1;
    }
    if over {
        None
    } else {
        Some(v as u64)
    }
}

/// `<u64 as FromStr>::from_str` on a field of characters.
pub fn parse_u64_chars(s: &[char]) -> (r: Option<u64>)
    ensures
        r == parse_u64(s@),
{
    let start: usize = if s.len() > 0 && s[0] == '+' { 1 } else { 0 };
    let ghost body = unsigned_body(s@);
    proof {
        assert(body =~= s@.subrange(start as int, s@.len() as int));
    }
    if start == s.len() {
        return None;
    }
    let mut i: usize = start;
    while i < s.len()
        invariant
            start <= i <= s@.len(),
            start < s@.len(),
            body == s@.subrange(start as int, s@.len() as int),
            body == unsigned_body(s@),
            forall|k: int| start <= k < i ==> is_digit(#[trigger] s@[k]),
        decreases s@.len() - i,
    {
        if !char_is_digit(s[i]) {
            proof {
                assert(body[i - start] == s@[i as int]);
                assert(!is_digit(body[i - start]));
            }
            return None;
        }
        i = i + 1;
    }
    proof {
        assert forall|k: int| 0 <= k < body.len() implies is_digit(#[trigger] body[k]) by {
            assert(body[k] == s@[k + start]);
        }
    }
    digits_u64(s, start)
}

/// Check if host is a private IP address.
pub fn is_private_ip(host: &str) -> (r: bool)
    ensures
        r == spec_is_private_ip(host@),
{
    let h = chars_of(host);
    let parts = split_chars(h.as_slice(), '.');
    if parts.len() != 4 {
        return false;
    }
    let o0 = parse_u8_chars(parts[0].as_slice());
    let o1 = parse_u8_chars(parts[1].as_slice());
    let o2 = parse_u8_chars(parts[2].as_slice());
    let o3 = parse_u8_chars(parts[3].as_slice());
    match (o0, o1, o2, o3) {
        (Some(a), Some(b), Some(_), Some(_)) => {
            a == 10 || (a == 172 && 16 <= b && b <= 31) || (a == 192 && b == 168) || (a == 169
                && b == 254)
        },
        _ => false,
    }
}

/// Check if host is an IPv4 loopback address (127.0.0.0/8).
pub fn is_loopback_ipv4(host: &str) -> (r: bool)
    ensures
        r == spec_is_loopback_ipv4(host@),
{
    let h = chars_of(host);
    let parts = split_chars(h.as_slice(), '.');
    if parts.len() != 4 {
        return false;
    }
    let o0 = parse_u8_chars(parts[0].as_slice());
    let o1 = parse_u8_chars(parts[1].as_slice());
    let o2 = parse_u8_chars(parts[2].as_slice());
    let o3 = parse_u8_chars(parts[3].as_slice());
    match (o0, o1, o2, o3) {
        (Some(a), Some(_), Some(_), Some(_)) => a == 127,
        _ => false,
    }
}

/// SSRF prevention: reject non-HTTP schemes, loopback hosts and private IPs.
pub fn is_safe_url(url: &str) -> (r: bool)
    ensures
        r == spec_is_safe_url(url@),
{
    let parts = url_scheme_and_host(url);
    match parts {
        None => false,
        Some((scheme, host)) => {
            let sc = chars_of(scheme.as_str());
            if eq_literal(sc.as_slice(), "file") {
                return false;
            }
            if !eq_literal(sc.as_slice(), "http") && !eq_literal(sc.as_slice(), "https") {
                return false;
            }
            match host {
                None => false,
                Some(hs) => {
                    let h = chars_of(hs.as_str());
                    if eq_literal(h.as_slice(), "localhost") || eq_literal(h.as_slice(), "[::1]")
                        || eq_literal(h.as_slice(), "::1") {
                        return false;
                    }
                    !is_loopback_ipv4(hs.as_str()) && !is_private_ip(hs.as_str())
                },
            }
        },
    }
}

/// Validate URL format, safety and domain, with the reason of a refusal.
pub fn validate_url(url: &str) -> (r: Result<(), String>)
    ensures
        match r {
            Ok(()) => validate_url_error(url@) is None,
            Err(msg) => validate_url_error(url@) == Some(msg@),
        },
{
    let head: &str;
    if url_scheme_and_host(url).is_none() {
        head = "Invalid URL format: ";
    } else if !is_safe_url(url) {
        head = "Unsafe URL (SSRF risk): ";
    } else if !is_allowed_domain(url) {
        head = "Domain not allowed: ";
    } else {
        return Ok(());
    }
    let mut msg: Vec<char> = Vec::new();
    push_str(&mut msg, head);
    push_str(&mut msg, url);
    Err(string_of(msg.as_slice()))
}

} // verus!
