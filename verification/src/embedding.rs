//! Article embeddings and the search index: index records, result
//! summaries, and text preparation.
use vstd::prelude::*;
use crate::text::{chars_of, string_of, copy_range, push_str};

pub mod tokenizer;
pub mod vectorize;

verus! {

broadcast use vstd::slice::group_slice_axioms;

/// Bulk indexing result.
#[derive(Debug)]
pub struct BulkResult {
    /// Successfully indexed count
    pub success: usize,
    /// Failed count
    pub failed: usize,
    /// Error messages
    pub errors: Vec<String>,
    /// Time taken in milliseconds
    pub took_ms: u64,
}

impl Default for BulkResult {
    fn default() -> (r: Self)
        ensures
            r.success == 0 && r.failed == 0 && r.errors@.len() == 0 && r.took_ms == 0,
    {
        BulkResult { success: 0, failed: 0, errors: Vec::new(), took_ms: 0 }
    }
}

/// One entry of a bulk indexing answer: the status the server gave the
/// document, when it gave one, and its error, when it gave one.
#[derive(Debug)]
pub struct BulkItem {
    pub status: Option<u64>,
    pub error: Option<String>,
}

/// A document was indexed: its status is a 2xx one.
pub open spec fn bulk_item_ok(i: BulkItem) -> bool {
    match i.status {
        Some(s) => 200 <= s < 300,
        None => false,
    }
}

/// The number of entries that were indexed.
pub open spec fn bulk_successes(items: Seq<BulkItem>) -> nat
    decreases items.len(),
{
    if items.len() == 0 {
        0
    } else {
        bulk_successes(items.drop_last()) + if bulk_item_ok(items.last()) { 1nat } else { 0nat }
    }
}

/// The errors given for the entries that failed, in order.
pub open spec fn bulk_errors(items: Seq<BulkItem>) -> Seq<Seq<char>>
    decreases items.len(),
{
    if items.len() == 0 {
        Seq::empty()
    } else {
        let rest = bulk_errors(items.drop_last());
        if !bulk_item_ok(items.last()) && items.last().error is Some {
            rest.push(items.last().error->0@)
        } else {
            rest
        }
    }
}

proof fn lemma_bulk_successes_bound(items: Seq<BulkItem>)
    ensures
        bulk_successes(items) <= items.len(),
    decreases items.len(),
{
    if items.len() > 0 {
        lemma_bulk_successes_bound(items.drop_last());
    }
}

/// Tally a bulk indexing answer: 2xx entries count as indexed, the others
/// as failed, with the errors they carry.
pub fn tally_bulk(items: Vec<BulkItem>, took_ms: u64) -> (r: BulkResult)
    ensures
        r.success == bulk_successes(items@),
        r.failed == items@.len() - bulk_successes(items@),
        r.errors@.map_values(|e: String| e@) == bulk_errors(items@),
        r.took_ms == took_ms,
{
    let mut success: usize = 0;
    let mut failed: usize = 0;
    let mut errors: Vec<String> = Vec::new();
    let n = items.len();
    let mut i: usize = 0;
    while i < n
        invariant
            i <= n,
            n == items@.len(),
            success == bulk_successes(items@.take(i as int)),
            failed == i - bulk_successes(items@.take(i as int)),
            errors@.map_values(|e: String| e@) == bulk_errors(items@.take(i as int)),
        decreases n - i,
    {
        proof {
            assert(items@.take(i + 1).drop_last() =~= items@.take(i as int));
            lemma_bulk_successes_bound(items@.take(i as int));
        }
        let item = &items[i];
        let ok = match item.status {
            Some(s) => 200 <= s && s < 300,
            None => false,
        };
        if ok {
            success = success + 1;
        } else {
            failed = failed + 1;
            match &item.error {
                Some(e) => {
                    let c = chars_of(e.as_str());
                    let ghost before = errors@;
                    errors.push(string_of(c.as_slice()));
                    proof {
                        assert(errors@.map_values(|e: String| e@) =~= before.map_values(|e: String| e@).push(e@));
                    }
                },
                None => {},
            }
        }
        i = i + 1;
    }
    proof {
        assert(items@.take(n as int) =~= items@);
    }
    BulkResult { success, failed, errors, took_ms }
}

/// Number of bytes a character takes in UTF-8.
pub open spec fn utf8_width(c: char) -> nat {
    if (c as u32) < 0x80 { 1 } else if (c as u32) < 0x800 { 2 } else if (c as u32) < 0x10000 { 3 } else { 4 }
}

/// Length in bytes of the UTF-8 form of a text.
pub open spec fn utf8_len(s: Seq<char>) -> nat
    decreases s.len(),
{
    if s.len() == 0 { 0 } else { utf8_len(s.drop_last()) + utf8_width(s.last()) }
}

/// Position of the last space in `s`, if any.
pub open spec fn last_space(s: Seq<char>) -> Option<int>
    decreases s.len(),
{
    if s.len() == 0 {
        None
    } else if s.last() == ' ' {
        Some(s.len() - 1)
    } else {
        last_space(s.drop_last())
    }
}

/// A text cut for display: unchanged when its UTF-8 form fits in
/// `max_len` bytes; otherwise its first `max_len` characters, cut back to
/// the last space among them, followed by `...`.
pub open spec fn spec_truncate(s: Seq<char>, max_len: nat) -> Seq<char> {
    if utf8_len(s) <= max_len {
        s
    } else {
        let head = if max_len < s.len() { s.take(max_len as int) } else { s };
        match last_space(head) {
            Some(p) => head.take(p) + "..."@,
            None => head + "..."@,
        }
    }
}

proof fn lemma_utf8_len_at_least_chars(s: Seq<char>)
    ensures
        utf8_len(s) >= s.len(),
    decreases s.len(),
{
    if s.len() > 0 {
        lemma_utf8_len_at_least_chars(s.drop_last());
    }
}

proof fn lemma_last_space_bound(s: Seq<char>)
    ensures
        last_space(s) matches Some(p) ==> 0 <= p < s.len() && s[p] == ' ',
    decreases s.len(),
{
    if s.len() > 0 && s.last() != ' ' {
        lemma_last_space_bound(s.drop_last());
    }
}

/// A cut text is at most `max_len` characters and the `...` after them; an
/// uncut one is the text itself.
pub proof fn truncated_text_is_bounded(s: Seq<char>, max_len: nat)
    ensures
        spec_truncate(s, max_len).len() <= max_len + 3,
        utf8_len(s) <= max_len ==> spec_truncate(s, max_len) == s,
{
    reveal_strlit("...");
    lemma_utf8_len_at_least_chars(s);
    let head = if max_len < s.len() { s.take(max_len as int) } else { s };
    lemma_last_space_bound(head);
}

fn utf8_len_exec(s: &[char]) -> (r: u64)
    requires
        s@.len() < 0x1000_0000_0000_0000,
    ensures
        r == utf8_len(s@),
{
    let mut n: u64 = 0;
    let mut i: usize = 0;
    while i < s.len()
        invariant
            i <= s@.len(),
            s@.len() < 0x1000_0000_0000_0000,
            n == utf8_len(s@.take(i as int)),
            n <= 4 * i,
        decreases s@.len() - i,
    {
        proof {
            assert(s@.take(i + 1).drop_last() =~= s@.take(i as int));
        }
        let c = s[i] as u32;
        let w: u64 = if c < 0x80 { 1 } else if c < 0x800 { 2 } else if c < 0x10000 { 3 } else { 4 };
        n = n + w;
        i = i + 1;
    }
    proof {
        assert(s@.take(s@.len() as int) =~= s@);
    }
    n
}

/// Cut a text at a word boundary for display.
pub fn truncate_string(s: &str, max_len: usize) -> (r: String)
    requires
        s@.len() < 0x1000_0000_0000_0000,
    ensures
        r@ == spec_truncate(s@, max_len as nat),
{
    let c = chars_of(s);
    if utf8_len_exec(c.as_slice()) <= max_len as u64 {
        return s.to_owned();
    }
    let keep = if max_len < c.len() { max_len } else { c.len() };
    let head = copy_range(c.as_slice(), 0, keep);
    proof {
        if max_len < c@.len() {
            assert(c@.take(max_len as int) =~= head@);
        } else {
            assert(c@ =~= head@);
        }
    }
    let mut k: usize = head.len();
    proof {
        assert(head@.take(head@.len() as int) =~= head@);
    }
    while k > 0 && head[k - 1] != ' '
        invariant
            k <= head@.len(),
            last_space(head@) == last_space(head@.take(k as int)),
        decreases k,
    {
        proof {
            assert(head@.take(k as int).drop_last() =~= head@.take(k - 1));
        }
        k = k - 1;
    }
    let mut out = if k > 0 {
        proof {
            assert(head@.take(k as int).last() == ' ');
        }
        copy_range(head.as_slice(), 0, k - 1)
    } else {
        proof {
            assert(head@.take(0) =~= Seq::<char>::empty());
        }
        head
    };
    push_str(&mut out, "...");
    string_of(out.as_slice())
}

} // verus!
