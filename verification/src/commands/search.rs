//! Search modes of the `search` command and the search API.
use vstd::prelude::*;
use crate::text::{push_str, string_of};

verus! {

/// How a search is run.
#[derive(Debug, Clone, Copy, PartialEq, Eq, Structural)]
pub enum SearchKind {
    /// BM25 keyword search (`keyword`, `bm25`)
    Bm25,
    /// k-NN vector search (`vector`, `knn`)
    Knn,
    /// BM25 and k-NN combined (`hybrid`)
    Hybrid,
}

/// The search a mode name asks for, if it names one.
pub open spec fn spec_search_kind(mode: Seq<char>) -> Option<SearchKind> {
    if mode == "keyword"@ || mode == "bm25"@ {
        Some(SearchKind::Bm25)
    } else if mode == "vector"@ || mode == "knn"@ {
        Some(SearchKind::Knn)
    } else if mode == "hybrid"@ {
        Some(SearchKind::Hybrid)
    } else {
        None
    }
}

/// Each search kind is asked for by exactly its mode names: a k-NN vector
/// search by `vector` and `knn`, a BM25 keyword search by `keyword` and
/// `bm25`, a hybrid search by `hybrid`; every other mode names no search.
pub proof fn mode_names_pick_their_search(mode: Seq<char>)
    ensures
        (spec_search_kind(mode) == Some(SearchKind::Knn)) == (mode == "vector"@ || mode == "knn"@),
        (spec_search_kind(mode) == Some(SearchKind::Bm25)) == (mode == "keyword"@ || mode == "bm25"@),
        (spec_search_kind(mode) == Some(SearchKind::Hybrid)) == (mode == "hybrid"@),
        (spec_search_kind(mode) is None) == !(mode == "vector"@ || mode == "knn"@ || mode == "keyword"@ || mode
            == "bm25"@ || mode == "hybrid"@),
{
    reveal_strlit("vector");
    reveal_strlit("knn");
    reveal_strlit("keyword");
    reveal_strlit("bm25");
    reveal_strlit("hybrid");
    assert("vector"@ != "keyword"@ && "vector"@ != "bm25"@) by {
        assert("vector"@.len() != "keyword"@.len());
        assert("vector"@.len() != "bm25"@.len());
    }
    assert("knn"@ != "keyword"@ && "knn"@ != "bm25"@) by {
        assert("knn"@.len() != "keyword"@.len());
        assert("knn"@.len() != "bm25"@.len());
    }
    assert("hybrid"@ != "keyword"@ && "hybrid"@ != "bm25"@ && "hybrid"@ != "vector"@ && "hybrid"@ != "knn"@) by {
        assert("hybrid"@.len() != "keyword"@.len());
        assert("hybrid"@.len() != "bm25"@.len());
        assert("hybrid"@[0] != "vector"@[0]);
        assert("hybrid"@.len() != "knn"@.len());
    }
}

/// The search a mode name asks for: `keyword`/`bm25`, `vector`/`knn` or
/// `hybrid`.
pub fn search_kind(mode: &str) -> (r: Option<SearchKind>)
    ensures
        r == spec_search_kind(mode@),
{
    let m = mode.to_owned();
    if m == "keyword".to_owned() || m == "bm25".to_owned() {
        Some(SearchKind::Bm25)
    } else if m == "vector".to_owned() || m == "knn".to_owned() {
        Some(SearchKind::Knn)
    } else if m == "hybrid".to_owned() {
        Some(SearchKind::Hybrid)
    } else {
        None
    }
}

/// Whether a mode name is one of the valid search modes.
pub fn is_valid_search_mode(mode: &str) -> (r: bool)
    ensures
        r == spec_search_kind(mode@) is Some,
{
    search_kind(mode).is_some()
}

/// The search mode of the `search` command, or the error it stops with.
pub fn command_search_kind(mode: &str) -> (r: Result<SearchKind, String>)
    ensures
        match spec_search_kind(mode@) {
            Some(k) => r == Ok::<SearchKind, String>(k),
            None => r matches Err(m) && m@ == "Unknown search mode: '"@ + mode@
                + "'. Valid modes: keyword, bm25, vector, knn, hybrid"@,
        },
{
    match search_kind(mode) {
        Some(k) => Ok(k),
        None => {
            let mut out: Vec<char> = Vec::new();
            push_str(&mut out, "Unknown search mode: '");
            push_str(&mut out, mode);
            push_str(&mut out, "'. Valid modes: keyword, bm25, vector, knn, hybrid");
            Err(string_of(out.as_slice()))
        },
    }
}

} // verus!
