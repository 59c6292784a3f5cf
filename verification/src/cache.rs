//! Cache settings, statistics and cache keys.
//!
//! Keys are lower-case hexadecimal SHA-256 digests of the cached content or
//! query; talking to the cache server is left to the caller.
use vstd::prelude::*;
use vstd::utf8::encode_utf8;
use crate::commands::frontmatter::{lines_of, split_lines};
use crate::crawler::url::validators::{parse_u64, parse_u64_chars};
use crate::text::{chars_of, copy_range, matches_at, starts_with, trim, trim_chars};

verus! {

broadcast use vstd::slice::group_slice_axioms;

/// Cache configuration.
#[derive(Debug)]
pub struct CacheConfig {
    /// Redis connection URL
    pub url: String,
    /// Connection pool size
    pub pool_size: usize,
    /// Default TTL for embeddings (seconds)
    pub embedding_ttl: u64,
    /// Default TTL for search results (seconds)
    pub search_ttl: u64,
    /// Default TTL for article metadata (seconds)
    pub metadata_ttl: u64,
    /// Key prefix for namespacing
    pub key_prefix: String,
}

impl Default for CacheConfig {
    fn default() -> (r: Self)
        ensures
            r.url@ == "redis://localhost:6379"@,
            r.pool_size == 10,
            r.embedding_ttl == 86400,
            r.search_ttl == 300,
            r.metadata_ttl == 3600,
            r.key_prefix@ == "baram"@,
    {
        CacheConfig {
            url: "redis://localhost:6379".to_owned(),
            pool_size: 10,
            embedding_ttl: 86400,
            search_ttl: 300,
            metadata_ttl: 3600,
            key_prefix: "baram".to_owned(),
        }
    }
}

impl CacheConfig {
    /// The key of a cached embedding: `{prefix}:embed:{content_hash}`.
    pub fn embedding_key(&self, content_hash: &str) -> (r: String)
        ensures
            r@ == self.key_prefix@ + ":embed:"@ + content_hash@,
    {
        prefixed_key(&self.key_prefix, ":embed:", content_hash)
    }

    /// The key of cached search results: `{prefix}:search:{query_hash}`.
    pub fn search_key(&self, query_hash: &str) -> (r: String)
        ensures
            r@ == self.key_prefix@ + ":search:"@ + query_hash@,
    {
        prefixed_key(&self.key_prefix, ":search:", query_hash)
    }

    /// The key of cached article metadata: `{prefix}:meta:{article_id}`.
    pub fn metadata_key(&self, article_id: &str) -> (r: String)
        ensures
            r@ == self.key_prefix@ + ":meta:"@ + article_id@,
    {
        prefixed_key(&self.key_prefix, ":meta:", article_id)
    }

    /// The pattern of every search key, deleted when new articles are
    /// indexed: `{prefix}:search:*`.
    pub fn search_pattern(&self) -> (r: String)
        ensures
            r@ == self.key_prefix@ + ":search:*"@,
    {
        let mut out = crate::text::chars_of(self.key_prefix.as_str());
        crate::text::push_str(&mut out, ":search:*");
        crate::text::string_of(out.as_slice())
    }
}

fn prefixed_key(prefix: &String, kind: &str, id: &str) -> (r: String)
    ensures
        r@ == prefix@ + kind@ + id@,
{
    let mut out = crate::text::chars_of(prefix.as_str());
    crate::text::push_str(&mut out, kind);
    crate::text::push_str(&mut out, id);
    proof {
        assert(out@ =~= prefix@ + kind@ + id@);
    }
    crate::text::string_of(out.as_slice())
}

/// Counters of the cache server, read from its `INFO stats` report. The
/// hit rate is a real number; the caller computes it from the counts.
#[derive(Debug, Clone, Copy, PartialEq, Eq)]
pub struct CacheInfo {
    pub hits: u64,
    pub misses: u64,
    pub memory_bytes: u64,
}

/// The number after `key` at the start of a report line, trimmed; 0 when
/// it does not read as a `u64`.
pub open spec fn info_number(line: Seq<char>, key: Seq<char>) -> u64 {
    match parse_u64(trim(line.skip(key.len() as int))) {
        Some(v) => v,
        None => 0,
    }
}

/// The counters a report's lines give, the last line of a kind counting.
pub open spec fn read_info(ls: Seq<Seq<char>>) -> CacheInfo
    decreases ls.len(),
{
    if ls.len() == 0 {
        CacheInfo { hits: 0, misses: 0, memory_bytes: 0 }
    } else {
        let c = read_info(ls.drop_last());
        let l = ls.last();
        if starts_with(l, "keyspace_hits:"@) {
            CacheInfo { hits: info_number(l, "keyspace_hits:"@), ..c }
        } else if starts_with(l, "keyspace_misses:"@) {
            CacheInfo { misses: info_number(l, "keyspace_misses:"@), ..c }
        } else if starts_with(l, "used_memory:"@) {
            CacheInfo { memory_bytes: info_number(l, "used_memory:"@), ..c }
        } else {
            c
        }
    }
}

fn number_after(line: &Vec<char>, key_len: usize) -> (r: u64)
    requires
        key_len <= line@.len(),
    ensures
        r == match parse_u64(trim(line@.skip(key_len as int))) {
            Some(v) => v,
            None => 0,
        },
{
    let rest = copy_range(line.as_slice(), key_len, line.len());
    proof {
        assert(rest@ =~= line@.skip(key_len as int));
    }
    let t = trim_chars(rest.as_slice());
    match parse_u64_chars(t.as_slice()) {
        Some(v) => v,
        None => 0,
    }
}

/// Read the hit, miss and memory counters from a cache server's
/// `INFO stats` report.
pub fn parse_cache_info(info: &str) -> (r: CacheInfo)
    ensures
        r == read_info(split_lines(info@)),
{
    let lines = lines_of(info);
    let ghost ls = lines@.map_values(|l: Vec<char>| l@);
    let hk = chars_of("keyspace_hits:");
    let mk = chars_of("keyspace_misses:");
    let uk = chars_of("used_memory:");
    proof {
        reveal_strlit("keyspace_hits:");
        reveal_strlit("keyspace_misses:");
        reveal_strlit("used_memory:");
    }
    let mut c = CacheInfo { hits: 0, misses: 0, memory_bytes: 0 };
    let mut i: usize = 0;
    while i < lines.len()
        invariant
            i <= lines@.len(),
            ls == lines@.map_values(|l: Vec<char>| l@),
            hk@ == "keyspace_hits:"@,
            mk@ == "keyspace_misses:"@,
            uk@ == "used_memory:"@,
            c == read_info(ls.take(i as int)),
        decreases lines@.len() - i,
    {
        proof {
            assert(ls.take(i + 1).drop_last() =~= ls.take(i as int));
            assert(ls.take(i + 1).last() == lines@[i as int]@);
        }
        let line = &lines[i];
        if matches_at(line.as_slice(), hk.as_slice(), 0) {
            c = CacheInfo { hits: number_after(line, hk.len()), ..c };
        } else if matches_at(line.as_slice(), mk.as_slice(), 0) {
            c = CacheInfo { misses: number_after(line, mk.len()), ..c };
        } else if matches_at(line.as_slice(), uk.as_slice(), 0) {
            c = CacheInfo { memory_bytes: number_after(line, uk.len()), ..c };
        }
        i = i + 1;
    }
    proof {
        assert(ls.take(lines@.len() as int) =~= ls);
    }
    c
}

/// Cache statistics.
#[derive(Debug, Clone, Copy, PartialEq, Eq, Default)]
pub struct CacheStats {
    pub hits: u64,
    pub misses: u64,
    pub bytes_read: u64,
    pub bytes_written: u64,
}

/// The SHA-256 digest of a byte string.
pub uninterp spec fn sha256_digest(data: Seq<u8>) -> Seq<u8>;

/// `sha2::Sha256::digest`: the SHA-256 digest of the bytes. The result is
/// named `sha256_digest`; the hash function is not restated here. A digest
/// has 32 bytes.
#[verifier::external_body]
fn sha256(data: &[u8]) -> (r: Vec<u8>)
    ensures
        r@ == sha256_digest(data@),
        r@.len() == 32,
{
    <sha2::Sha256 as sha2::Digest>::digest(data).to_vec()
}

/// The lower-case hexadecimal digit of a value below 16.
pub open spec fn hex_digit(d: u8) -> char {
    if d < 10 { ((d + 48) as u8) as char } else { ((d + 87) as u8) as char }
}

/// Lower-case hexadecimal form of bytes, two digits a byte.
pub open spec fn lower_hex(b: Seq<u8>) -> Seq<char>
    decreases b.len(),
{
    if b.len() == 0 {
        Seq::empty()
    } else {
        lower_hex(b.drop_last()) + seq![hex_digit(b.last() / 16), hex_digit(b.last() % 16)]
    }
}

fn hex_digit_exec(d: u8) -> (c: char)
    requires
        d < 16,
    ensures
        c == hex_digit(d),
{
    if d < 10 { ((d + 48) as u8) as char } else { ((d + 87) as u8) as char }
}

fn to_lower_hex(b: &[u8]) -> (r: String)
    ensures
        r@ == lower_hex(b@),
{
    let mut out: Vec<char> = Vec::new();
    let mut i: usize = 0;
    while i < b.len()
        invariant
            i <= b@.len(),
            out@ == lower_hex(b@.take(i as int)),
        decreases b@.len() - i,
    {
        proof {
            assert(b@.take(i + 1).drop_last() =~= b@.take(i as int));
        }
        out.push(hex_digit_exec(b[i] / 16));
        out.push(hex_digit_exec(b[i] % 16));
        i = i + 1;
    }
    proof {
        assert(b@.take(b@.len() as int) =~= b@);
    }
    crate::text::string_of(out.as_slice())
}

/// Little-endian bytes of `k`, as many as a `usize` has.
pub open spec fn usize_le_bytes(k: usize) -> Seq<u8> {
    Seq::new((usize::BITS / 8) as nat, |i: int| ((k as int / pow256(i)) % 256) as u8)
}

/// `256` to the power `i`.
pub open spec fn pow256(i: int) -> int
    decreases i,
{
    if i <= 0 { 1 } else { 256 * pow256(i - 1) }
}

fn le_bytes(k: usize) -> (r: Vec<u8>)
    ensures
        r@ == usize_le_bytes(k),
{
    let n: u32 = usize::BITS / 8;
    let mut out: Vec<u8> = Vec::new();
    let mut rest: usize = k;
    let mut i: u32 = 0;
    while i < n
        invariant
            n == usize::BITS / 8,
            n == 4 || n == 8,
            i <= n,
            out@.len() == i,
            rest as int == k as int / pow256(i as int),
            forall|j: int| 0 <= j < i ==> out@[j] == ((k as int / pow256(j)) % 256) as u8,
        decreases n - i,
    {
        proof {
            assert(pow256(i + 1) == 256 * pow256(i as int));
            lemma_pow256_positive(i as int);
            vstd::arithmetic::div_mod::lemma_div_denominator(k as int, pow256(i as int), 256);
        }
        out.push((rest % 256) as u8);
        rest = rest / 256;
        i = i + 1;
    }
    proof {
        assert(out@ =~= usize_le_bytes(k));
    }
    out
}

proof fn lemma_pow256_positive(i: int)
    ensures
        pow256(i) > 0,
    decreases i,
{
    if i > 0 {
        lemma_pow256_positive(i - 1);
    }
}

/// Hash content for a cache key: the hex SHA-256 of its UTF-8 bytes.
pub fn hash_content(content: &str) -> (r: String)
    ensures
        r@ == lower_hex(sha256_digest(encode_utf8(content@))),
        r@.len() == 64,
{
    let d = sha256(content.as_bytes());
    let r = to_lower_hex(d.as_slice());
    proof {
        lemma_hex_len(d@);
    }
    r
}

/// The bytes hashed for a search query key: the query, the result count in
/// little-endian form, and the category when there is one.
pub open spec fn query_key_bytes(query: Seq<char>, k: usize, category: Option<Seq<char>>) -> Seq<u8> {
    encode_utf8(query) + usize_le_bytes(k) + match category {
        Some(c) => encode_utf8(c),
        None => Seq::empty(),
    }
}

/// Hash a search query for a cache key.
pub fn hash_query(query: &str, k: usize, category: Option<&str>) -> (r: String)
    ensures
        r@ == lower_hex(sha256_digest(query_key_bytes(query@, k, match category {
            Some(c) => Some(c@),
            None => None,
        }))),
        r@.len() == 64,
{
    let mut data: Vec<u8> = Vec::new();
    let q = query.as_bytes();
    let mut i: usize = 0;
    while i < q.len()
        invariant
            i <= q@.len(),
            data@ == q@.take(i as int),
        decreases q@.len() - i,
    {
        data.push(q[i]);
        proof {
            assert(q@.take(i + 1) =~= q@.take(i as int).push(q@[i as int]));
        }
        i = i + 1;
    }
    proof {
        assert(q@.take(q@.len() as int) =~= q@);
    }
    let mut kb = le_bytes(k);
    data.append(&mut kb);
    match category {
        Some(c) => {
            let cb = c.as_bytes();
            let ghost before = data@;
            let mut j: usize = 0;
            while j < cb.len()
                invariant
                    j <= cb@.len(),
                    data@ == before + cb@.take(j as int),
                decreases cb@.len() - j,
            {
                data.push(cb[j]);
                proof {
                    assert(cb@.take(j + 1) =~= cb@.take(j as int).push(cb@[j as int]));
                }
                j = j + 1;
            }
            proof {
                assert(cb@.take(cb@.len() as int) =~= cb@);
            }
        },
        None => {
            proof {
                assert(data@ =~= data@ + Seq::<u8>::empty());
            }
        },
    }
    let d = sha256(data.as_slice());
    proof {
        lemma_hex_len(d@);
    }
    to_lower_hex(d.as_slice())
}

proof fn lemma_hex_len(b: Seq<u8>)
    ensures
        lower_hex(b).len() == 2 * b.len(),
    decreases b.len(),
{
    if b.len() > 0 {
        lemma_hex_len(b.drop_last());
    }
}

} // verus!
