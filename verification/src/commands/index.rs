//! Reading article markdown files for the search index.
//!
//! A file is named `{oid}_{aid}_{title}.md`, where `oid` and `aid` are purely
//! numeric. Its front matter may name the ids, category, publisher, author,
//! URL and publication date.
use vstd::prelude::*;
use crate::text::{
    all_digits, is_digit, trim, trim_chars, copy_range, chars_of, string_of, push_str, extend_chars, run_without,
    run_without_exec, lemma_run_without_shift, same_chars, strictly_sorted, insert_sorted_unique, string_views,
    id_set,
};
use super::frontmatter::{
    BodyRule, FrontMatter, scan_markdown, split_lines, first_heading, meta_field, body_lines, join_lines,
    opt_chars,
};

verus! {

broadcast use vstd::slice::group_slice_axioms;

/// The stem of a path's file name (`Path::file_stem`), as text.
pub uninterp spec fn path_file_stem(path: Seq<char>) -> Option<Seq<char>>;

/// `Path::file_stem` of the path, when it is valid Unicode. The result is
/// named `path_file_stem`; how the standard library cuts a path into
/// components and a file name into stem and extension is not restated here.
#[verifier::external_body]
pub(crate) fn file_stem(path: &str) -> (r: Option<String>)
    ensures
        opt_chars(r) == path_file_stem(path@),
{
    std::path::Path::new(path).file_stem().and_then(|s| s.to_str()).map(|s| s.to_string())
}

/// The document id `{oid}_{aid}` that a file stem `{oid}_{aid}[_title]`
/// names, when both ids are all digits.
pub open spec fn spec_doc_id(stem: Seq<char>) -> Option<Seq<char>> {
    let p = run_without(stem, 0, '_');
    if p >= stem.len() {
        None
    } else {
        let oid = stem.take(p as int);
        let rest = stem.skip(p as int + 1);
        let aid = rest.take(run_without(rest, 0, '_') as int);
        if all_digits(oid) && all_digits(aid) {
            Some(oid + seq!['_'] + aid)
        } else {
            None
        }
    }
}

fn all_ascii_digits(s: &[char], from: usize, to: usize) -> (r: bool)
    requires
        from <= to <= s@.len(),
    ensures
        r == all_digits(s@.subrange(from as int, to as int)),
{
    let mut k: usize = from;
    while k < to
        invariant
            from <= k <= to,
            to <= s@.len(),
            forall|j: int| from <= j < k ==> is_digit(s@[j]),
        decreases to - k,
    {
        if !('0' <= s[k] && s[k] <= '9') {
            assert(!is_digit(s@.subrange(from as int, to as int)[k - from]));
            return false;
        }
        k = k + 1;
    }
    assert forall|i: int| 0 <= i < to - from implies is_digit(#[trigger] s@.subrange(from as int, to as int)[i]) by {
        assert(s@.subrange(from as int, to as int)[i] == s@[from + i]);
    }
    true
}

/// The document id that a file stem names, if any.
pub fn doc_id_from_stem(stem: &str) -> (r: Option<String>)
    ensures
        opt_chars(r) == spec_doc_id(stem@),
{
    let s = chars_of(stem);
    let p = run_without_exec(s.as_slice(), 0, '_');
    if p >= s.len() {
        return None;
    }
    let q = run_without_exec(s.as_slice(), p + 1, '_');
    proof {
        lemma_run_without_shift(s@, p + 1, 0, '_');
        assert(s@.skip(p as int + 1).take(q as int) =~= s@.subrange(p + 1, p + 1 + q));
        assert(s@.take(p as int) =~= s@.subrange(0, p as int));
    }
    if all_ascii_digits(s.as_slice(), 0, p) && all_ascii_digits(s.as_slice(), p + 1, p + 1 + q) {
        let mut out = copy_range(s.as_slice(), 0, p);
        out.push('_');
        let aid = copy_range(s.as_slice(), p + 1, p + 1 + q);
        extend_chars(&mut out, aid.as_slice());
        Some(string_of(out.as_slice()))
    } else {
        None
    }
}

/// Extract the document id (`{oid}_{aid}`) from a markdown file's path.
pub fn extract_doc_id_from_filename(path: &str) -> (r: Option<String>)
    ensures
        opt_chars(r) == match path_file_stem(path@) {
            Some(stem) => spec_doc_id(stem),
            None => None,
        },
{
    match file_stem(path) {
        Some(stem) => doc_id_from_stem(stem.as_str()),
        None => None,
    }
}

/// An article read from a markdown file, ready for indexing.
#[derive(Debug)]
pub struct MarkdownDocument {
    /// `{oid}_{aid}`
    pub id: String,
    pub oid: String,
    pub aid: String,
    pub title: String,
    /// The body lines joined by line feeds.
    pub content: String,
    pub category: String,
    pub publisher: Option<String>,
    pub author: Option<String>,
    pub url: String,
    /// Publication time in ISO 8601 form.
    pub published_at: Option<String>,
}

/// The text of an optional field, or nothing.
pub open spec fn or_empty(o: Option<Seq<char>>) -> Seq<char> {
    match o {
        Some(s) => s,
        None => Seq::empty(),
    }
}

/// Spaces turned into `T`.
pub open spec fn spaces_to_t(s: Seq<char>) -> Seq<char> {
    s.map_values(|c: char| if c == ' ' { 'T' } else { c })
}

/// A `published_at` value in ISO 8601 form: `YYYY-MM-DD HH:MM` becomes
/// `YYYY-MM-DDTHH:MM:00Z`; a value that holds a `T` is kept; one that is
/// empty or does not open with a digit is dropped.
pub open spec fn spec_iso_date(v: Seq<char>) -> Option<Seq<char>> {
    let dt = trim(v);
    if dt.len() == 0 || !is_digit(dt[0]) {
        None
    } else if dt.contains('T') {
        Some(dt)
    } else {
        Some(spaces_to_t(dt) + ":00Z"@)
    }
}

/// The ids taken from a file stem when the front matter lacks one:
/// the text around the first `_`, else `000` and the whole stem.
pub open spec fn stem_ids(stem: Seq<char>) -> (Seq<char>, Seq<char>) {
    let p = run_without(stem, 0, '_');
    if p >= stem.len() {
        ("000"@, stem)
    } else {
        (stem.take(p as int), stem.skip(p as int + 1))
    }
}

/// The ids of a document: those of the front matter when both are
/// non-empty, else those of the file stem (`unknown` without one).
pub open spec fn document_ids(text: Seq<char>, path: Seq<char>) -> (Seq<char>, Seq<char>) {
    let ls = split_lines(text);
    let oid = or_empty(meta_field(ls, "oid"@, "oid"@));
    let aid = or_empty(meta_field(ls, "aid"@, "aid"@));
    if oid.len() == 0 || aid.len() == 0 {
        stem_ids(
            match path_file_stem(path) {
                Some(s) => s,
                None => "unknown"@,
            },
        )
    } else {
        (oid, aid)
    }
}

fn iso_date(v: &String) -> (r: Option<String>)
    ensures
        opt_chars(r) == spec_iso_date(v@),
{
    let raw = chars_of(v.as_str());
    let dt = trim_chars(raw.as_slice());
    if dt.len() == 0 || !('0' <= dt[0] && dt[0] <= '9') {
        return None;
    }
    let mut has_t = false;
    let mut i: usize = 0;
    while i < dt.len()
        invariant
            i <= dt@.len(),
            has_t == exists|j: int| 0 <= j < i && dt@[j] == 'T',
        decreases dt@.len() - i,
    {
        if dt[i] == 'T' {
            has_t = true;
        }
        i = i + 1;
    }
    if has_t {
        proof {
            let w = choose|j: int| 0 <= j < dt@.len() && dt@[j] == 'T';
            assert(dt@[w] == 'T');
            assert(dt@.contains('T'));
        }
        return Some(string_of(dt.as_slice()));
    }
    assert(!dt@.contains('T'));
    let mut out: Vec<char> = Vec::new();
    let mut k: usize = 0;
    while k < dt.len()
        invariant
            k <= dt@.len(),
            out@ == spaces_to_t(dt@.take(k as int)),
        decreases dt@.len() - k,
    {
        if dt[k] == ' ' {
            out.push('T');
        } else {
            out.push(dt[k]);
        }
        proof {
            assert(dt@.take(k + 1) =~= dt@.take(k as int).push(dt@[k as int]));
            assert(spaces_to_t(dt@.take(k + 1)) =~= spaces_to_t(dt@.take(k as int)).push(
                if dt@[k as int] == ' ' { 'T' } else { dt@[k as int] },
            ));
        }
        k = k + 1;
    }
    proof {
        assert(dt@.take(dt@.len() as int) =~= dt@);
    }
    push_str(&mut out, ":00Z");
    Some(string_of(out.as_slice()))
}

fn or_empty_string(o: Option<String>) -> (r: String)
    ensures
        r@ == or_empty(opt_chars(o)),
{
    match o {
        Some(s) => s,
        None => String::new(),
    }
}

fn ids_from_stem(stem: &str) -> (r: (String, String))
    ensures
        (r.0@, r.1@) == stem_ids(stem@),
{
    let s = chars_of(stem);
    let p = run_without_exec(s.as_slice(), 0, '_');
    if p >= s.len() {
        (string_of(chars_of("000").as_slice()), string_of(s.as_slice()))
    } else {
        proof {
            assert(s@.take(p as int) =~= s@.subrange(0, p as int));
            assert(s@.skip(p as int + 1) =~= s@.subrange(p + 1, s@.len() as int));
        }
        let o = copy_range(s.as_slice(), 0, p);
        let a = copy_range(s.as_slice(), p + 1, s.len());
        (string_of(o.as_slice()), string_of(a.as_slice()))
    }
}

/// Turn the text of a markdown article file into a document for the index.
///
/// The title is the first `# ` heading (`Untitled` without one); the body is
/// every non-empty line outside the front matter, joined by line feeds.
pub fn parse_markdown_to_document(path: &str, text: &str) -> (r: MarkdownDocument)
    ensures
        ({
            let ls = split_lines(text@);
            let ids = document_ids(text@, path@);
            &&& r.title@ == match first_heading(ls) {
                Some(t) => t,
                None => "Untitled"@,
            }
            &&& r.oid@ == ids.0
            &&& r.aid@ == ids.1
            &&& r.id@ == ids.0 + seq!['_'] + ids.1
            &&& r.content@ == join_lines(body_lines(BodyRule::NonEmpty, ls))
            &&& r.category@ == or_empty(meta_field(ls, "category"@, "category"@))
            &&& opt_chars(r.publisher) == meta_field(ls, "publisher"@, "publisher"@)
            &&& opt_chars(r.author) == meta_field(ls, "author"@, "author"@)
            &&& r.url@ == or_empty(meta_field(ls, "url"@, "url"@))
            &&& opt_chars(r.published_at) == match meta_field(ls, "published_at"@, "date"@) {
                Some(v) => spec_iso_date(v),
                None => None,
            }
        }),
{
    let fm: FrontMatter = scan_markdown(text, BodyRule::NonEmpty);
    let title = match fm.title {
        Some(t) => t,
        None => string_of(chars_of("Untitled").as_slice()),
    };
    let mut oid = or_empty_string(fm.oid);
    let mut aid = or_empty_string(fm.aid);
    if oid.as_str().is_empty() || aid.as_str().is_empty() {
        let stem = match file_stem(path) {
            Some(s) => s,
            None => string_of(chars_of("unknown").as_slice()),
        };
        let (o, a) = ids_from_stem(stem.as_str());
        oid = o;
        aid = a;
    }
    let published_at = match &fm.published_at {
        Some(v) => iso_date(v),
        None => None,
    };
    let mut id = chars_of(oid.as_str());
    id.push('_');
    let aid_chars = chars_of(aid.as_str());
    extend_chars(&mut id, aid_chars.as_slice());
    MarkdownDocument {
        id: string_of(id.as_slice()),
        oid,
        aid,
        title,
        content: fm.body,
        category: or_empty_string(fm.category),
        publisher: fm.publisher,
        author: fm.author,
        url: or_empty_string(fm.url),
        published_at,
    }
}


/// Progress of indexing a directory, kept between runs: the number of
/// batches done, the documents indexed and failed so far, and the ids of the
/// documents already indexed.
#[derive(Debug)]
pub struct IndexCheckpoint {
    last_processed_batch: usize,
    total_success: usize,
    total_failed: usize,
    processed: Vec<Vec<char>>,
}

/// The document id that a path's file name gives, if any.
pub open spec fn path_doc_id(path: Seq<char>) -> Option<Seq<char>> {
    match path_file_stem(path) {
        Some(stem) => spec_doc_id(stem),
        None => None,
    }
}

impl IndexCheckpoint {
    /// Batches done over all runs.
    pub closed spec fn spec_last_batch(&self) -> usize {
        self.last_processed_batch
    }

    /// Documents indexed over all runs.
    pub closed spec fn spec_success(&self) -> usize {
        self.total_success
    }

    /// Documents that failed over all runs.
    pub closed spec fn spec_failed(&self) -> usize {
        self.total_failed
    }

    /// Batches done over all runs.
    pub fn last_processed_batch(&self) -> (r: usize)
        ensures
            r == self.spec_last_batch(),
    {
        self.last_processed_batch
    }

    /// Documents indexed over all runs.
    pub fn total_success(&self) -> (r: usize)
        ensures
            r == self.spec_success(),
    {
        self.total_success
    }

    /// Documents that failed over all runs.
    pub fn total_failed(&self) -> (r: usize)
        ensures
            r == self.spec_failed(),
    {
        self.total_failed
    }

    /// The ids of the documents already indexed.
    pub closed spec fn spec_processed(&self) -> Set<Seq<char>> {
        self.processed@.map_values(|e: Vec<char>| e@).to_set()
    }

    /// The ids are kept sorted, each once.
    pub closed spec fn wf(&self) -> bool {
        strictly_sorted(self.processed@.map_values(|e: Vec<char>| e@))
    }

    /// A fresh checkpoint: nothing indexed yet.
    pub fn new() -> (r: Self)
        ensures
            r.wf(),
            r.spec_last_batch() == 0,
            r.spec_success() == 0,
            r.spec_failed() == 0,
            r.spec_processed() == Set::<Seq<char>>::empty(),
    {
        let c = IndexCheckpoint { last_processed_batch: 0, total_success: 0, total_failed: 0, processed: Vec::new() };
        proof {
            assert(c.processed@.map_values(|e: Vec<char>| e@) =~= Seq::<Seq<char>>::empty());
            assert(c.spec_processed() =~= Set::<Seq<char>>::empty());
        }
        c
    }

    /// Add ids to the indexed set.
    fn add_ids(&mut self, ids: &Vec<String>)
        requires
            old(self).wf(),
        ensures
            final(self).wf(),
            final(self).spec_processed() == old(self).spec_processed().union(id_set(ids@)),
            final(self).spec_last_batch() == old(self).spec_last_batch(),
            final(self).spec_success() == old(self).spec_success(),
            final(self).spec_failed() == old(self).spec_failed(),
    {
        let ghost added = string_views(ids@);
        let mut i: usize = 0;
        while i < ids.len()
            invariant
                i <= ids@.len(),
                added == string_views(ids@),
                strictly_sorted(self.processed@.map_values(|e: Vec<char>| e@)),
                self.processed@.map_values(|e: Vec<char>| e@).to_set() == old(self).spec_processed().union(
                    added.take(i as int).to_set(),
                ),
                self.last_processed_batch == old(self).spec_last_batch(),
                self.total_success == old(self).spec_success(),
                self.total_failed == old(self).spec_failed(),
            decreases ids@.len() - i,
        {
            let x = chars_of(ids[i].as_str());
            insert_sorted_unique(&mut self.processed, x);
            proof {
                assert(added.take(i + 1) =~= added.take(i as int).push(added[i as int]));
                added.take(i as int).lemma_push_to_set_commute(added[i as int]);
                assert(self.processed@.map_values(|e: Vec<char>| e@).to_set() =~= old(self).spec_processed().union(
                    added.take(i + 1).to_set(),
                ));
            }
            i = i + 1;
        }
        proof {
            assert(added.take(added.len() as int) =~= added);
        }
    }

    /// A checkpoint as it was saved.
    pub fn restore(last_processed_batch: usize, total_success: usize, total_failed: usize, ids: Vec<String>) -> (r: Self)
        ensures
            r.wf(),
            r.spec_last_batch() == last_processed_batch,
            r.spec_success() == total_success,
            r.spec_failed() == total_failed,
            r.spec_processed() == id_set(ids@),
    {
        let mut c = IndexCheckpoint::new();
        c.add_ids(&ids);
        c.last_processed_batch = last_processed_batch;
        c.total_success = total_success;
        c.total_failed = total_failed;
        proof {
            assert(Set::<Seq<char>>::empty().union(id_set(ids@)) =~= id_set(ids@));
        }
        c
    }

    /// The ids of the documents already indexed, sorted.
    pub fn processed_doc_ids(&self) -> (r: Vec<String>)
        requires
            self.wf(),
        ensures
            id_set(r@) == self.spec_processed(),
            strictly_sorted(string_views(r@)),
    {
        let ghost all = self.processed@.map_values(|e: Vec<char>| e@);
        let mut out: Vec<String> = Vec::new();
        let mut i: usize = 0;
        while i < self.processed.len()
            invariant
                i <= self.processed@.len(),
                all == self.processed@.map_values(|e: Vec<char>| e@),
                string_views(out@) == all.take(i as int),
            decreases self.processed@.len() - i,
        {
            let s = string_of(self.processed[i].as_slice());
            let ghost prev = out@;
            assert(s@ == all[i as int]);
            out.push(s);
            proof {
                assert(string_views(out@) =~= string_views(prev).push(all[i as int]));
                assert(all.take(i + 1) =~= all.take(i as int).push(all[i as int]));
            }
            i = i + 1;
        }
        proof {
            assert(all.take(all.len() as int) =~= all);
        }
        out
    }

    /// Whether a document id is already indexed.
    pub fn is_processed(&self, id: &str) -> (r: bool)
        ensures
            r == self.spec_processed().contains(id@),
    {
        let ghost all = self.processed@.map_values(|e: Vec<char>| e@);
        let x = chars_of(id);
        let mut i: usize = 0;
        while i < self.processed.len()
            invariant
                i <= self.processed@.len(),
                all == self.processed@.map_values(|e: Vec<char>| e@),
                x@ == id@,
                forall|j: int| 0 <= j < i ==> all[j] != id@,
            decreases self.processed@.len() - i,
        {
            if same_chars(self.processed[i].as_slice(), x.as_slice()) {
                proof {
                    assert(all[i as int] == id@);
                    assert(all.contains(id@));
                }
                return true;
            }
            i = i + 1;
        }
        proof {
            assert(!all.contains(id@));
        }
        false
    }

    /// A file is parsed unless its name gives the id of a document already
    /// indexed.
    pub open spec fn parses(&self, path: Seq<char>) -> bool {
        match path_doc_id(path) {
            Some(id) => !self.spec_processed().contains(id),
            None => true,
        }
    }

    /// Whether a file is to be parsed: unless its name gives the id of a
    /// document already indexed.
    pub fn should_parse(&self, path: &str) -> (r: bool)
        ensures
            r == self.parses(path@),
    {
        match extract_doc_id_from_filename(path) {
            Some(id) => !self.is_processed(id.as_str()),
            None => true,
        }
    }

    /// Record a batch indexed as batch `batch_number` (counted from 0 over
    /// all runs): its documents count as indexed, the totals grow by what the
    /// bulk request reported, and the batches done become `batch_number + 1`.
    pub fn record_batch(&mut self, ids: &Vec<String>, batch_number: usize, success: usize, failed: usize)
        requires
            old(self).wf(),
            batch_number < usize::MAX,
            old(self).spec_success() + success <= usize::MAX,
            old(self).spec_failed() + failed <= usize::MAX,
        ensures
            final(self).wf(),
            final(self).spec_processed() == old(self).spec_processed().union(id_set(ids@)),
            final(self).spec_last_batch() == batch_number + 1,
            final(self).spec_success() == old(self).spec_success() + success,
            final(self).spec_failed() == old(self).spec_failed() + failed,
    {
        self.add_ids(ids);
        self.total_success = self.total_success + success;
        self.total_failed = self.total_failed + failed;
        self.last_processed_batch = batch_number + 1;
    }

    /// A run that ends without failures needs no checkpoint any more.
    pub fn is_complete(&self) -> (r: bool)
        ensures
            r == (self.spec_failed() == 0),
    {
        self.total_failed == 0
    }
}

/// A document recorded in a batch is not parsed again: after the batch, a
/// file whose name gives the id of one of its documents is skipped.
pub proof fn recorded_documents_are_skipped(
    before: IndexCheckpoint,
    after: IndexCheckpoint,
    ids: Seq<String>,
    path: Seq<char>,
)
    requires
        after.spec_processed() == before.spec_processed().union(id_set(ids)),
        path_doc_id(path) matches Some(id) && id_set(ids).contains(id),
    ensures
        !after.parses(path),
{
}

/// Saving and restoring a checkpoint keeps its decisions: the restored
/// checkpoint skips exactly the files the saved one skipped.
pub proof fn restored_checkpoint_skips_the_same_files(
    saved: IndexCheckpoint,
    ids: Seq<String>,
    restored: IndexCheckpoint,
    path: Seq<char>,
)
    requires
        id_set(ids) == saved.spec_processed(),
        restored.spec_processed() == id_set(ids),
    ensures
        restored.parses(path) == saved.parses(path),
{
}

/// The number of batches of `batch_size` that `documents` documents make.
pub fn batch_count(documents: usize, batch_size: usize) -> (r: usize)
    requires
        batch_size > 0,
    ensures
        r == (documents + batch_size - 1) / (batch_size as int),
{
    let q = documents / batch_size;
    if documents % batch_size == 0 {
        proof {
            assert((documents + batch_size - 1) / (batch_size as int) == q) by (nonlinear_arith)
                requires
                    batch_size > 0,
                    documents % batch_size == 0,
                    q == documents / batch_size,
            ;
        }
        q
    } else {
        proof {
            assert((documents + batch_size - 1) / (batch_size as int) == q + 1) by (nonlinear_arith)
                requires
                    batch_size > 0,
                    documents % batch_size != 0,
                    q == documents / batch_size,
            ;
            assert(q < documents) by (nonlinear_arith)
                requires
                    batch_size > 0,
                    documents % batch_size != 0,
                    q == documents / batch_size,
            ;
        }
        q + 1
    }
}

/// The text embedded for a document: its title, a space and its content,
/// cut to 2000 characters.
pub open spec fn spec_embedding_text(title: Seq<char>, content: Seq<char>) -> Seq<char> {
    let t = title + seq![' '] + content;
    if t.len() <= 2000 { t } else { t.take(2000) }
}

/// The text to embed for a document.
pub fn embedding_text(title: &str, content: &str) -> (r: String)
    ensures
        r@ == spec_embedding_text(title@, content@),
{
    let mut t = chars_of(title);
    t.push(' ');
    let c = chars_of(content);
    extend_chars(&mut t, c.as_slice());
    if t.len() <= 2000 {
        string_of(t.as_slice())
    } else {
        let cut = copy_range(t.as_slice(), 0, 2000);
        proof {
            assert(t@.subrange(0, 2000) =~= t@.take(2000));
        }
        string_of(cut.as_slice())
    }
}

/// The file name of a path (`Path::file_name`), as text.
pub uninterp spec fn path_file_name(path: Seq<char>) -> Option<Seq<char>>;

/// `Path::file_name` of the path, when it is valid Unicode. The result is
/// named `path_file_name`; how the standard library cuts a path into
/// components is not restated here.
#[verifier::external_body]
fn file_name(path: &str) -> (r: Option<String>)
    ensures
        opt_chars(r) == path_file_name(path@),
{
    std::path::Path::new(path).file_name().and_then(|s| s.to_str()).map(|s| s.to_string())
}

/// The name of the checkpoint of an input path: `index_` and the path's
/// file name (`unknown` without one).
pub fn checkpoint_name(input: &str) -> (r: String)
    ensures
        r@ == "index_"@ + match path_file_name(input@) {
            Some(n) => n,
            None => "unknown"@,
        },
{
    let mut out: Vec<char> = Vec::new();
    push_str(&mut out, "index_");
    match file_name(input) {
        Some(n) => push_str(&mut out, n.as_str()),
        None => push_str(&mut out, "unknown"),
    }
    string_of(out.as_slice())
}

/// The Unix time (seconds, UTC) of a date and time read with a `chrono`
/// format, when the text matches it.
pub uninterp spec fn naive_datetime_secs(text: Seq<char>, format: Seq<char>) -> Option<i64>;

/// The Unix time (seconds, UTC) of the midnight that starts a date read with
/// a `chrono` format, when the text matches it.
pub uninterp spec fn naive_date_secs(text: Seq<char>, format: Seq<char>) -> Option<i64>;

/// `chrono::NaiveDateTime::parse_from_str`, read as UTC seconds. The result
/// is named `naive_datetime_secs`; chrono's format language is not restated
/// here.
#[verifier::external_body]
fn parse_datetime(text: &str, format: &str) -> (r: Option<i64>)
    ensures
        r == naive_datetime_secs(text@, format@),
{
    chrono::NaiveDateTime::parse_from_str(text, format).ok().map(|dt| dt.and_utc().timestamp())
}

/// `chrono::NaiveDate::parse_from_str`, at midnight, read as UTC seconds.
/// The result is named `naive_date_secs`; chrono's format language is not
/// restated here.
#[verifier::external_body]
fn parse_date(text: &str, format: &str) -> (r: Option<i64>)
    ensures
        r == naive_date_secs(text@, format@),
{
    chrono::NaiveDate::parse_from_str(text, format).ok().and_then(|d| d.and_hms_opt(0, 0, 0)).map(
        |dt| dt.and_utc().timestamp(),
    )
}

/// What `--since` reads as: a date and time when the text holds a `T`,
/// else a date; or the error that names the expected form.
pub open spec fn spec_since(since: Seq<char>) -> Result<i64, Seq<char>> {
    if since.contains('T') {
        match naive_datetime_secs(since, "%Y-%m-%dT%H:%M:%S"@) {
            Some(t) => Ok(t),
            None => Err("Invalid --since format. Expected YYYY-MM-DDTHH:MM:SS"@),
        }
    } else {
        match naive_date_secs(since, "%Y-%m-%d"@) {
            Some(t) => Ok(t),
            None => Err("Invalid --since format. Expected YYYY-MM-DD"@),
        }
    }
}

/// Read the `--since` option as a Unix time in seconds (UTC).
pub fn since_timestamp(since: &str) -> (r: Result<i64, String>)
    ensures
        match r {
            Ok(t) => spec_since(since@) == Ok::<i64, Seq<char>>(t),
            Err(m) => spec_since(since@) == Err::<i64, Seq<char>>(m@),
        },
{
    let s = chars_of(since);
    let mut has_t = false;
    let mut i: usize = 0;
    while i < s.len()
        invariant
            i <= s@.len(),
            s@ == since@,
            has_t == exists|j: int| 0 <= j < i && s@[j] == 'T',
        decreases s@.len() - i,
    {
        if s[i] == 'T' {
            has_t = true;
        }
        i = i + 1;
    }
    proof {
        if has_t {
            let j = choose|j: int| 0 <= j < s@.len() && s@[j] == 'T';
            assert(since@.contains(since@[j]));
        }
    }
    if has_t {
        match parse_datetime(since, "%Y-%m-%dT%H:%M:%S") {
            Some(t) => Ok(t),
            None => Err("Invalid --since format. Expected YYYY-MM-DDTHH:MM:SS".to_owned()),
        }
    } else {
        match parse_date(since, "%Y-%m-%d") {
            Some(t) => Ok(t),
            None => Err("Invalid --since format. Expected YYYY-MM-DD".to_owned()),
        }
    }
}

/// Whether a file passes the `--since` filter: always without the option or
/// without a known modification time, else when modified at or after it.
pub fn modified_since(mtime_secs: Option<i64>, since: Option<i64>) -> (r: bool)
    ensures
        r == match (since, mtime_secs) {
            (Some(s), Some(m)) => m >= s,
            _ => true,
        },
{
    match (since, mtime_secs) {
        (Some(s), Some(m)) => m >= s,
        _ => true,
    }
}

} // verus!
