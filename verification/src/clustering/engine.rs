//! Naming and describing event clusters.
use vstd::prelude::*;
use crate::analytics::entity_trends::lemma_insert_multiset;
use crate::text::{push_str, push_decimal, string_of, decimal, lex_lt, chars_of, chars_lt, copy_string};

verus! {

broadcast use vstd::slice::group_slice_axioms;

/// An article of a cluster, as the summary and the cluster record use it.
#[derive(Debug)]
pub struct ClusterArticle {
    pub id: String,
    pub title: String,
    pub category: String,
    pub publisher: Option<String>,
    pub published_at: Option<String>,
    pub url: String,
}

/// Number of entries of `s` equal to `c`.
pub open spec fn count_of(s: Seq<String>, c: Seq<char>) -> nat
    decreases s.len(),
{
    if s.len() == 0 {
        0
    } else {
        count_of(s.drop_last(), c) + if s.last()@ == c { 1nat } else { 0nat }
    }
}

proof fn lemma_count_prefix(s: Seq<String>, c: Seq<char>, k: int)
    requires
        0 <= k <= s.len(),
    ensures
        count_of(s.take(k), c) <= count_of(s, c),
        count_of(s, c) <= s.len(),
    decreases s.len(),
{
    if s.len() > 0 {
        if k < s.len() {
            assert(s.drop_last().take(k) =~= s.take(k));
            lemma_count_prefix(s.drop_last(), c, k);
        } else {
            assert(s.take(k) =~= s);
            lemma_count_prefix(s.drop_last(), c, 0);
        }
    }
}

fn count_exec(s: &Vec<String>, c: &String) -> (r: usize)
    ensures
        r == count_of(s@, c@),
{
    let mut n: usize = 0;
    let mut i: usize = 0;
    while i < s.len()
        invariant
            i <= s@.len(),
            n == count_of(s@.take(i as int), c@),
        decreases s@.len() - i,
    {
        proof {
            assert(s@.take(i + 1).drop_last() =~= s@.take(i as int));
            lemma_count_prefix(s@, c@, i + 1);
            lemma_count_prefix(s@.take(i + 1), c@, 0);
        }
        if s[i] == *c {
            n = n + 1;
        }
        i = i + 1;
    }
    proof {
        assert(s@.take(s@.len() as int) =~= s@);
    }
    n
}

/// The primary category of a cluster: one that occurs most often among its
/// articles (nothing for no articles). Among equally frequent categories any
/// may be chosen; this one takes the first.
pub fn primary_category(categories: &Vec<String>) -> (r: String)
    ensures
        categories@.len() == 0 ==> r@.len() == 0,
        categories@.len() > 0 ==> exists|i: int| 0 <= i < categories@.len() && #[trigger] categories@[i]@ == r@,
        forall|i: int| 0 <= i < categories@.len() ==> count_of(categories@, #[trigger] categories@[i]@) <= count_of(
            categories@,
            r@,
        ),
{
    if categories.len() == 0 {
        return String::new();
    }
    let mut best: usize = 0;
    let mut best_count = count_exec(categories, &categories[0]);
    let mut i: usize = 1;
    while i < categories.len()
        invariant
            1 <= i <= categories@.len(),
            best < categories@.len(),
            best_count == count_of(categories@, categories@[best as int]@),
            forall|j: int| 0 <= j < i ==> count_of(categories@, #[trigger] categories@[j]@) <= best_count,
        decreases categories@.len() - i,
    {
        let n = count_exec(categories, &categories[i]);
        if n > best_count {
            best = i;
            best_count = n;
        }
        i = i + 1;
    }
    let r = copy_string(&categories[best]);
    assert(categories@[best as int]@ == r@);
    r
}

/// The id of the event at `cluster_idx` (from 0) of a run on `date`:
/// `evt_{date}_{n}` with `n` counted from 1 and written with three digits
/// at least.
pub open spec fn spec_event_id(date: Seq<char>, cluster_idx: nat) -> Seq<char> {
    "evt_"@ + date + "_"@ + zero_pad3(cluster_idx + 1)
}

/// Decimal spelling padded with zeros to three digits.
pub open spec fn zero_pad3(n: nat) -> Seq<char> {
    if n < 10 { "00"@ + decimal(n) } else if n < 100 { "0"@ + decimal(n) } else { decimal(n) }
}

/// Build the id of an event cluster.
pub fn event_id(date_str: &str, cluster_idx: usize) -> (r: String)
    requires
        cluster_idx < usize::MAX,
    ensures
        r@ == spec_event_id(date_str@, cluster_idx as nat),
{
    let n = (cluster_idx + 1) as u64;
    let mut out: Vec<char> = Vec::new();
    push_str(&mut out, "evt_");
    push_str(&mut out, date_str);
    push_str(&mut out, "_");
    if n < 10 {
        push_str(&mut out, "00");
    } else if n < 100 {
        push_str(&mut out, "0");
    }
    push_decimal(&mut out, n);
    string_of(out.as_slice())
}

/// `a` is no later than every date of `s` that is set.
pub open spec fn is_earliest(a: Seq<char>, s: Seq<Option<String>>) -> bool {
    forall|i: int| 0 <= i < s.len() && #[trigger] s[i] is Some ==> !lex_lt(s[i]->0@, a)
}

/// `a` is no earlier than every date of `s` that is set.
pub open spec fn is_latest(a: Seq<char>, s: Seq<Option<String>>) -> bool {
    forall|i: int| 0 <= i < s.len() && #[trigger] s[i] is Some ==> !lex_lt(a, s[i]->0@)
}

/// One of the set dates of `s`.
pub open spec fn is_one_of(a: Seq<char>, s: Seq<Option<String>>) -> bool {
    exists|i: int| 0 <= i < s.len() && #[trigger] s[i] is Some && s[i]->0@ == a
}

/// The earliest and the latest of the publication dates that are set, in
/// the text order of the dates (`first_seen`, `last_updated`).
pub fn date_range(dates: &Vec<Option<String>>) -> (r: (Option<String>, Option<String>))
    ensures
        (r.0 is None) == (forall|i: int| 0 <= i < dates@.len() ==> #[trigger] dates@[i] is None),
        (r.1 is None) == (r.0 is None),
        r.0 matches Some(a) ==> is_one_of(a@, dates@) && is_earliest(a@, dates@),
        r.1 matches Some(b) ==> is_one_of(b@, dates@) && is_latest(b@, dates@),
{
    let mut lo: Option<Vec<char>> = None;
    let mut lo_s: Option<String> = None;
    let mut hi: Option<Vec<char>> = None;
    let mut hi_s: Option<String> = None;
    let mut i: usize = 0;
    while i < dates.len()
        invariant
            i <= dates@.len(),
            (lo_s is None) == (forall|j: int| 0 <= j < i ==> #[trigger] dates@[j] is None),
            (hi_s is None) == (lo_s is None),
            lo is Some == lo_s is Some,
            hi is Some == hi_s is Some,
            lo matches Some(v) ==> lo_s matches Some(s) && v@ == s@,
            hi matches Some(v) ==> hi_s matches Some(s) && v@ == s@,
            lo_s matches Some(a) ==> is_one_of(a@, dates@) && is_earliest(a@, dates@.take(i as int)),
            hi_s matches Some(b) ==> is_one_of(b@, dates@) && is_latest(b@, dates@.take(i as int)),
        decreases dates@.len() - i,
    {
        match &dates[i] {
            Some(d) => {
                let dv = chars_of(d.as_str());
                let take_lo = match &lo {
                    Some(v) => chars_lt(dv.as_slice(), v.as_slice()),
                    None => true,
                };
                let take_hi = match &hi {
                    Some(v) => chars_lt(v.as_slice(), dv.as_slice()),
                    None => true,
                };
                let ghost old_lo = lo_s;
                let ghost old_hi = hi_s;
                if take_lo {
                    lo = Some(chars_of(d.as_str()));
                    lo_s = Some(copy_string(d));
                }
                if take_hi {
                    hi = Some(chars_of(d.as_str()));
                    hi_s = Some(copy_string(d));
                }
                proof {
                    let t = dates@.take(i + 1);
                    let p = dates@.take(i as int);
                    assert(t[i as int] == dates@[i as int]);
                    assert(is_one_of(d@, dates@)) by {
                        assert(dates@[i as int] is Some && dates@[i as int]->0@ == d@);
                    }
                    assert forall|j: int| 0 <= j < t.len() && #[trigger] t[j] is Some implies !lex_lt(
                        t[j]->0@,
                        lo_s->0@,
                    ) by {
                        if j < i {
                            assert(t[j] == p[j]);
                            if take_lo {
                                if old_lo is Some {
                                    assert(!lex_lt(p[j]->0@, old_lo->0@));
                                    if lex_lt(t[j]->0@, d@) {
                                        crate::text::lemma_lex_transitive(t[j]->0@, d@, old_lo->0@);
                                    }
                                } else {
                                    assert(p[j] is None);
                                }
                            }
                        } else {
                            crate::text::lemma_lex_irreflexive(d@);
                        }
                    }
                    assert forall|j: int| 0 <= j < t.len() && #[trigger] t[j] is Some implies !lex_lt(
                        hi_s->0@,
                        t[j]->0@,
                    ) by {
                        if j < i {
                            assert(t[j] == p[j]);
                            if take_hi {
                                if old_hi is Some {
                                    assert(!lex_lt(old_hi->0@, p[j]->0@));
                                    if lex_lt(d@, t[j]->0@) {
                                        crate::text::lemma_lex_transitive(old_hi->0@, d@, t[j]->0@);
                                    }
                                } else {
                                    assert(p[j] is None);
                                }
                            }
                        } else {
                            crate::text::lemma_lex_irreflexive(d@);
                        }
                    }
                }
            },
            None => {
                proof {
                    let t = dates@.take(i + 1);
                    let p = dates@.take(i as int);
                    assert(t[i as int] is None);
                    assert forall|j: int| 0 <= j < i implies t[j] == p[j] by {}
                }
            },
        }
        i = i + 1;
    }
    proof {
        assert(dates@.take(dates@.len() as int) =~= dates@);
    }
    (lo_s, hi_s)
}

/// The earliest date of a range never comes after its latest.
pub proof fn date_range_is_ordered(first: Seq<char>, last: Seq<char>, dates: Seq<Option<String>>)
    requires
        is_one_of(first, dates),
        is_earliest(first, dates),
        is_one_of(last, dates),
        is_latest(last, dates),
    ensures
        !lex_lt(last, first),
{
    let i = choose|i: int| 0 <= i < dates.len() && #[trigger] dates[i] is Some && dates[i]->0@ == last;
    assert(dates[i] is Some);
}


/// The raw clusters of at least `min_size` articles, as pairs of the
/// cluster's index and its size, in the order of the raw clusters.
pub open spec fn kept_clusters(sizes: Seq<usize>, min_size: usize) -> Seq<(usize, usize)>
    decreases sizes.len(),
{
    if sizes.len() == 0 {
        Seq::empty()
    } else {
        let rest = kept_clusters(sizes.drop_last(), min_size);
        if sizes.last() >= min_size {
            rest.push(((sizes.len() - 1) as usize, sizes.last()))
        } else {
            rest
        }
    }
}

/// The articles in the raw clusters of at least `min_size` articles.
pub open spec fn kept_total(sizes: Seq<usize>, min_size: usize) -> int
    decreases sizes.len(),
{
    if sizes.len() == 0 {
        0
    } else {
        kept_total(sizes.drop_last(), min_size) + if sizes.last() >= min_size {
            sizes.last() as int
        } else {
            0int
        }
    }
}

/// The order of event clusters: larger first, and of two of the same size
/// the one formed first.
pub open spec fn cluster_precedes(a: (usize, usize), b: (usize, usize)) -> bool {
    a.1 > b.1 || (a.1 == b.1 && a.0 < b.0)
}

/// The event clusters kept from a clustering run and the article counts.
#[derive(Debug)]
pub struct ClusterSelection {
    /// Index and size of each kept raw cluster, in the order of the events
    pub order: Vec<(usize, usize)>,
    /// Articles in the kept clusters
    pub clustered: usize,
    /// Articles left out of every kept cluster
    pub unclustered: usize,
}

proof fn lemma_kept_total_prefix(sizes: Seq<usize>, min_size: usize, i: int)
    requires
        0 <= i <= sizes.len(),
    ensures
        0 <= kept_total(sizes.take(i), min_size) <= kept_total(sizes, min_size),
    decreases sizes.len(),
{
    if sizes.len() > 0 {
        if i == sizes.len() {
            assert(sizes.take(i) =~= sizes);
            lemma_kept_total_prefix(sizes.drop_last(), min_size, i - 1);
            assert(sizes.drop_last().take(i - 1) =~= sizes.drop_last());
        } else {
            lemma_kept_total_prefix(sizes.drop_last(), min_size, i);
            assert(sizes.drop_last().take(i) =~= sizes.take(i));
        }
    } else {
        assert(sizes.take(i) =~= sizes);
    }
}

/// Keep the raw clusters of at least `min_size` articles, given each raw
/// cluster's size in the order the clusters were formed, and order them
/// larger first (a stable sort: clusters of one size keep the order in which
/// they were formed); count the articles in them and those left out of the
/// `total` clustered.
pub fn select_clusters(sizes: &Vec<usize>, min_size: usize, total: usize) -> (r: ClusterSelection)
    requires
        kept_total(sizes@, min_size) <= total,
    ensures
        r.order@.to_multiset() == kept_clusters(sizes@, min_size).to_multiset(),
        r.order@.len() == kept_clusters(sizes@, min_size).len(),
        forall|a: int, b: int|
            0 <= a < b < r.order@.len() ==> cluster_precedes(#[trigger] r.order@[a], #[trigger] r.order@[b]),
        r.clustered == kept_total(sizes@, min_size),
        r.unclustered == total - kept_total(sizes@, min_size),
{
    let n = sizes.len();
    let mut order: Vec<(usize, usize)> = Vec::new();
    let mut clustered: usize = 0;
    let mut i: usize = 0;
    while i < n
        invariant
            n == sizes@.len(),
            i <= n,
            kept_total(sizes@, min_size) <= total,
            order@.to_multiset() == kept_clusters(sizes@.take(i as int), min_size).to_multiset(),
            order@.len() == kept_clusters(sizes@.take(i as int), min_size).len(),
            forall|a: int, b: int|
                0 <= a < b < order@.len() ==> cluster_precedes(#[trigger] order@[a], #[trigger] order@[b]),
            forall|k: int| 0 <= k < order@.len() ==> (#[trigger] order@[k]).0 < i,
            clustered == kept_total(sizes@.take(i as int), min_size),
        decreases n - i,
    {
        let ghost prefix = sizes@.take(i as int);
        let ghost next = sizes@.take(i + 1);
        proof {
            assert(next.drop_last() =~= prefix);
            assert(next.last() == sizes@[i as int]);
            lemma_kept_total_prefix(sizes@, min_size, i + 1);
        }
        let size = sizes[i];
        if size >= min_size {
            let mut p: usize = 0;
            while p < order.len() && order[p].1 >= size
                invariant
                    p <= order@.len(),
                    forall|k: int| 0 <= k < p ==> (#[trigger] order@[k]).1 >= size,
                decreases order@.len() - p,
            {
                p = p + 1;
            }
            let ghost before = order@;
            let x: (usize, usize) = (i, size);
            order.insert(p, x);
            proof {
                lemma_insert_multiset(before, p as int, x);
                kept_clusters(prefix, min_size).to_multiset_ensures();
                assert(kept_clusters(next, min_size) == kept_clusters(prefix, min_size).push(x));
                let nr = order@;
                assert forall|a: int, b: int| 0 <= a < b < nr.len() implies cluster_precedes(
                    #[trigger] nr[a],
                    #[trigger] nr[b],
                ) by {
                    if b < p {
                        assert(nr[a] == before[a] && nr[b] == before[b]);
                    } else if b == p {
                        assert(nr[a] == before[a]);
                    } else if a < p {
                        assert(nr[a] == before[a] && nr[b] == before[b - 1]);
                        assert(before[p as int].1 < size);
                        if b - 1 > p {
                            assert(cluster_precedes(before[p as int], before[b - 1]));
                        }
                    } else if a == p {
                        assert(nr[b] == before[b - 1]);
                        assert(before[p as int].1 < size);
                        if b - 1 > p {
                            assert(cluster_precedes(before[p as int], before[b - 1]));
                        }
                    } else {
                        assert(nr[a] == before[a - 1] && nr[b] == before[b - 1]);
                    }
                }
                assert forall|k: int| 0 <= k < nr.len() implies (#[trigger] nr[k]).0 < i + 1 by {
                    if k < p {
                        assert(nr[k] == before[k]);
                    } else if k > p {
                        assert(nr[k] == before[k - 1]);
                    }
                }
            }
            clustered = clustered + size;
        } else {
            proof {
                assert(kept_clusters(next, min_size) == kept_clusters(prefix, min_size));
            }
        }
        i = i + 1;
    }
    proof {
        assert(sizes@.take(n as int) =~= sizes@);
    }
    ClusterSelection { order, clustered, unclustered: total - clustered }
}

} // verus!
