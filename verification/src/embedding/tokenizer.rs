//! Chunking text for embedding: settings, chunk records, sentence splitting
//! and the overlap carried from one chunk into the next.
use vstd::prelude::*;
use crate::text::{chars_of, string_of, copy_range, is_space, char_is_space, trim, trim_chars, extend_chars};

verus! {

broadcast use vstd::slice::group_slice_axioms;

/// Configuration for text chunking.
#[derive(Debug, Clone, Copy, PartialEq, Eq)]
pub struct ChunkConfig {
    /// Maximum tokens per chunk
    pub max_tokens: usize,
    /// Overlap tokens between chunks (sliding window)
    pub overlap_tokens: usize,
    /// Minimum chunk size (skip if smaller)
    pub min_chunk_tokens: usize,
    /// Whether to preserve sentence boundaries
    pub preserve_sentences: bool,
}

impl Default for ChunkConfig {
    fn default() -> (r: Self)
        ensures
            r.max_tokens == 512,
            r.overlap_tokens == 64,
            r.min_chunk_tokens == 32,
            r.preserve_sentences,
    {
        ChunkConfig { max_tokens: 512, overlap_tokens: 64, min_chunk_tokens: 32, preserve_sentences: true }
    }
}

/// Text chunk with metadata.
#[derive(Debug)]
pub struct TextChunk {
    /// Chunk text content
    pub text: String,
    /// Token count
    pub token_count: usize,
    /// Chunk index (0-based)
    pub chunk_index: usize,
    /// Total chunks for this text
    pub total_chunks: usize,
    /// Start character position in original text
    pub start_pos: usize,
    /// End character position in original text
    pub end_pos: usize,
}

/// A character that ends a sentence.
pub open spec fn is_terminator(c: char) -> bool {
    c == '.' || c == '!' || c == '?' || c == '。' || c == '！' || c == '？'
}

/// A character after which a terminator really ends the sentence.
pub open spec fn closes_sentence(c: char) -> bool {
    is_space(c) || c == '"' || c == '\''
}

/// The sentences of `s` from the one that starts at `start`, scanning from
/// `i`: a terminator at the end of the text or before white space or a quote
/// closes a sentence; a rest that is not blank is the last sentence.
pub open spec fn sentences_from(s: Seq<char>, start: int, i: int) -> Seq<Seq<char>>
    decreases s.len() - i,
{
    if i >= s.len() || i < 0 {
        if 0 <= start < s.len() && trim(s.subrange(start, s.len() as int)).len() > 0 {
            seq![s.subrange(start, s.len() as int)]
        } else {
            Seq::empty()
        }
    } else if is_terminator(s[i]) && (i + 1 >= s.len() || closes_sentence(s[i + 1])) {
        seq![s.subrange(start, i + 1)] + sentences_from(s, i + 1, i + 1)
    } else {
        sentences_from(s, start, i + 1)
    }
}

/// The sentences of a text.
pub open spec fn spec_split_sentences(s: Seq<char>) -> Seq<Seq<char>> {
    sentences_from(s, 0, 0)
}

proof fn lemma_sentences_cover(s: Seq<char>, start: int, i: int)
    requires
        0 <= start <= i <= s.len(),
    ensures
        ({
            let f = sentences_from(s, start, i).flatten();
            &&& start + f.len() <= s.len()
            &&& s.subrange(start, start + f.len()) == f
            &&& trim(s.subrange(start + f.len(), s.len() as int)).len() == 0
        }),
    decreases s.len() - i,
{
    if i >= s.len() {
        if 0 <= start < s.len() && trim(s.subrange(start, s.len() as int)).len() > 0 {
            let x = s.subrange(start, s.len() as int);
            assert(seq![x].drop_first() =~= Seq::<Seq<char>>::empty());
            assert(seq![x].flatten() =~= x);
            assert(s.subrange(s.len() as int, s.len() as int) =~= Seq::<char>::empty());
        } else {
            assert(Seq::<Seq<char>>::empty().flatten() =~= Seq::<char>::empty());
            assert(s.subrange(start, start) =~= Seq::<char>::empty());
        }
    } else if is_terminator(s[i]) && (i + 1 >= s.len() || closes_sentence(s[i + 1])) {
        lemma_sentences_cover(s, i + 1, i + 1);
        let x = s.subrange(start, i + 1);
        let r = sentences_from(s, i + 1, i + 1);
        let all = seq![x] + r;
        assert(all.first() == x);
        assert(all.drop_first() =~= r);
        assert(all.flatten() == x + r.flatten());
        let f = all.flatten();
        assert(s.subrange(start, start + f.len()) =~= x + s.subrange(i + 1, i + 1 + r.flatten().len()));
    } else {
        lemma_sentences_cover(s, start, i + 1);
    }
}

/// Splitting into sentences loses no text: the sentences, joined, are the
/// text itself up to a tail of white space.
pub proof fn split_sentences_keeps_text(s: Seq<char>)
    ensures
        ({
            let joined = spec_split_sentences(s).flatten();
            &&& joined.len() <= s.len()
            &&& s.take(joined.len() as int) == joined
            &&& trim(s.skip(joined.len() as int)).len() == 0
        }),
{
    lemma_sentences_cover(s, 0, 0);
    let joined = spec_split_sentences(s).flatten();
    assert(s.take(joined.len() as int) =~= s.subrange(0, joined.len() as int));
    assert(s.skip(joined.len() as int) =~= s.subrange(joined.len() as int, s.len() as int));
}

spec fn views(v: Seq<String>) -> Seq<Seq<char>> {
    v.map_values(|x: String| x@)
}

/// Split text into sentences.
pub fn split_sentences(text: &str) -> (r: Vec<String>)
    ensures
        r@.map_values(|x: String| x@) == spec_split_sentences(text@),
{
    let s = chars_of(text);
    let mut out: Vec<String> = Vec::new();
    let mut start: usize = 0;
    let mut i: usize = 0;
    while i < s.len()
        invariant
            start <= i <= s@.len(),
            views(out@) + sentences_from(s@, start as int, i as int) == spec_split_sentences(s@),
        decreases s@.len() - i,
    {
        let c = s[i];
        let term = c == '.' || c == '!' || c == '?' || c == '。' || c == '！' || c == '？';
        if term && (i + 1 >= s.len() || char_is_space(s[i + 1]) || s[i + 1] == '"' || s[i + 1] == '\'') {
            let piece = copy_range(s.as_slice(), start, i + 1);
            let ghost before = out@;
            out.push(string_of(piece.as_slice()));
            proof {
                assert(views(out@) =~= views(before).push(piece@));
                assert(views(before).push(piece@) + sentences_from(s@, i + 1, i + 1) =~= views(before) + (seq![
                    piece@,
                ] + sentences_from(s@, i + 1, i + 1)));
            }
            start = i + 1;
        }
        i = i + 1;
    }
    if start < s.len() {
        let rest = copy_range(s.as_slice(), start, s.len());
        let t = trim_chars(rest.as_slice());
        if t.len() > 0 {
            let ghost before = out@;
            out.push(string_of(rest.as_slice()));
            proof {
                assert(views(out@) =~= views(before).push(rest@));
                assert(views(before) + seq![rest@] =~= views(before).push(rest@));
            }
        } else {
            proof {
                assert(views(out@) + Seq::<Seq<char>>::empty() =~= views(out@));
            }
        }
    } else {
        proof {
            assert(views(out@) + Seq::<Seq<char>>::empty() =~= views(out@));
        }
    }
    out
}

/// Length of the run of characters other than white space from `i`.
pub open spec fn word_run(s: Seq<char>, i: int) -> nat
    decreases s.len() - i,
{
    if 0 <= i < s.len() && !is_space(s[i]) { 1 + word_run(s, i + 1) } else { 0 }
}

/// `split_whitespace`: the maximal runs of characters other than white
/// space, from position `i` on.
pub open spec fn words_from(s: Seq<char>, i: int) -> Seq<Seq<char>>
    decreases s.len() - i,
{
    if i < 0 || i >= s.len() {
        Seq::empty()
    } else if is_space(s[i]) {
        words_from(s, i + 1)
    } else {
        proof {
            lemma_word_run_positive(s, i);
        }
        seq![s.subrange(i, i + word_run(s, i))] + words_from(s, i + word_run(s, i))
    }
}

pub proof fn lemma_word_run_positive(s: Seq<char>, i: int)
    requires
        0 <= i < s.len(),
        !is_space(s[i]),
    ensures
        1 <= word_run(s, i) <= s.len() - i,
{
    lemma_word_run_bound(s, i);
}

pub proof fn lemma_word_run_bound(s: Seq<char>, i: int)
    requires
        0 <= i <= s.len(),
    ensures
        word_run(s, i) <= s.len() - i,
    decreases s.len() - i,
{
    if i < s.len() && !is_space(s[i]) {
        lemma_word_run_bound(s, i + 1);
    }
}

/// Words joined by single spaces.
pub open spec fn join_words(ws: Seq<Seq<char>>) -> Seq<char>
    decreases ws.len(),
{
    if ws.len() == 0 {
        Seq::empty()
    } else if ws.len() == 1 {
        ws[0]
    } else {
        join_words(ws.drop_last()) + seq![' '] + ws.last()
    }
}

/// The overlap carried into the next chunk: the last fifth of the words
/// (at least one), joined by spaces.
pub open spec fn spec_overlap_text(s: Seq<char>) -> Seq<char> {
    let ws = words_from(s, 0);
    let n = if ws.len() / 5 >= 1 { ws.len() / 5 } else { 1 };
    let from = if ws.len() >= n { ws.len() - n } else { 0 };
    join_words(ws.skip(from as int))
}

fn word_run_exec(s: &[char], i: usize) -> (r: usize)
    requires
        i <= s@.len(),
    ensures
        r == word_run(s@, i as int),
        i + r <= s@.len(),
{
    let mut k: usize = i;
    while k < s.len() && !char_is_space(s[k])
        invariant
            i <= k <= s@.len(),
            word_run(s@, i as int) == (k - i) + word_run(s@, k as int),
        decreases s@.len() - k,
    {
        k = k + 1;
    }
    k - i
}

fn words_of(s: &[char]) -> (r: Vec<Vec<char>>)
    ensures
        r@.map_values(|w: Vec<char>| w@) == words_from(s@, 0),
{
    let mut out: Vec<Vec<char>> = Vec::new();
    let mut i: usize = 0;
    while i < s.len()
        invariant
            i <= s@.len(),
            out@.map_values(|w: Vec<char>| w@) + words_from(s@, i as int) == words_from(s@, 0),
        decreases s@.len() - i,
    {
        if char_is_space(s[i]) {
            i = i + 1;
        } else {
            let n = word_run_exec(s, i);
            let w = copy_range(s, i, i + n);
            let ghost before = out@.map_values(|w: Vec<char>| w@);
            out.push(w);
            proof {
                assert(out@.map_values(|w: Vec<char>| w@) =~= before.push(w@));
                assert(before.push(w@) + words_from(s@, i + n) =~= before + (seq![w@] + words_from(s@, i + n)));
            }
            i = i + n;
        }
    }
    proof {
        assert(out@.map_values(|w: Vec<char>| w@) + Seq::<Seq<char>>::empty() =~= out@.map_values(
            |w: Vec<char>| w@,
        ));
    }
    out
}

/// Get overlap text from the end of a string (approximate by words).
pub fn get_overlap_text(text: &str, target_tokens: usize) -> (r: String)
    ensures
        r@ == spec_overlap_text(text@),
{
    let s = chars_of(text);
    let ws = words_of(s.as_slice());
    let ghost wv = ws@.map_values(|w: Vec<char>| w@);
    let n = if ws.len() / 5 >= 1 { ws.len() / 5 } else { 1 };
    let from = if ws.len() >= n { ws.len() - n } else { 0 };
    let mut out: Vec<char> = Vec::new();
    let mut k: usize = from;
    while k < ws.len()
        invariant
            from <= k <= ws@.len(),
            wv == ws@.map_values(|w: Vec<char>| w@),
            out@ == join_words(wv.subrange(from as int, k as int)),
        decreases ws@.len() - k,
    {
        proof {
            let p = wv.subrange(from as int, k + 1);
            assert(p.drop_last() =~= wv.subrange(from as int, k as int));
            assert(p.last() == ws@[k as int]@);
        }
        if k > from {
            out.push(' ');
        }
        extend_chars(&mut out, ws[k].as_slice());
        k = k + 1;
    }
    proof {
        assert(wv.subrange(from as int, wv.len() as int) =~= wv.skip(from as int));
    }
    string_of(out.as_slice())
}

} // verus!
