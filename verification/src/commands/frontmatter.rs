//! Markdown article files: lines, the `# ` title, the `---` front matter
//! block with its `key: value` fields, and the body text.
//!
//! A file reads
//!
//! ```text
//! ---
//! oid: 001
//! title: "..."
//! ---
//! # Title
//! body ...
//! ```
//!
//! Only the first two lines that begin with `---` delimit the front matter;
//! later ones belong to the body.
use vstd::prelude::*;
use crate::text::{
    trim, trim_chars, copy_range, chars_of, eq_literal, string_of, extend_chars, run_without, run_without_exec,
    lemma_run_without_shift,
};

verus! {

broadcast use vstd::slice::group_slice_axioms;

/// Length of the run of characters equal to `c` in `s` from `i`.
pub open spec fn run_of(s: Seq<char>, i: int, c: char) -> nat
    decreases s.len() - i,
{
    if 0 <= i < s.len() && s[i] == c { 1 + run_of(s, i + 1, c) } else { 0 }
}

/// Length of the run of characters equal to `c` in `s` that ends before `e`.
pub open spec fn run_of_back(s: Seq<char>, e: int, c: char) -> nat
    decreases e,
{
    if 0 < e <= s.len() && s[e - 1] == c { 1 + run_of_back(s, e - 1, c) } else { 0 }
}

/// `str::trim_matches('"')`: the text without leading and trailing quotes.
pub open spec fn trim_quotes(s: Seq<char>) -> Seq<char> {
    let lead = run_of(s, 0, '"');
    if lead >= s.len() {
        Seq::empty()
    } else {
        s.subrange(lead as int, s.len() - run_of_back(s, s.len() as int, '"'))
    }
}

/// A line without the carriage return that ends it, if any.
pub open spec fn strip_cr(l: Seq<char>) -> Seq<char> {
    if l.len() > 0 && l.last() == '\r' { l.drop_last() } else { l }
}

/// `str::lines`: the text cut at each line feed. A carriage return right
/// before a line feed is dropped, and a final line feed adds no empty line.
pub open spec fn split_lines(s: Seq<char>) -> Seq<Seq<char>>
    decreases s.len(),
{
    let k = run_without(s, 0, '\n');
    if s.len() == 0 {
        Seq::empty()
    } else if k >= s.len() {
        seq![s]
    } else {
        seq![strip_cr(s.take(k as int))] + split_lines(s.skip(k as int + 1))
    }
}

/// A line that opens with `---`.
pub open spec fn is_dashes(l: Seq<char>) -> bool {
    l.len() >= 3 && l[0] == '-' && l[1] == '-' && l[2] == '-'
}

/// A line that opens with `# `.
pub open spec fn is_heading(l: Seq<char>) -> bool {
    l.len() >= 2 && l[0] == '#' && l[1] == ' '
}

/// `trim_start_matches("# ")`: the line without every leading `# `.
pub open spec fn strip_heading(l: Seq<char>) -> Seq<char>
    decreases l.len(),
{
    if is_heading(l) { strip_heading(l.skip(2)) } else { l }
}

/// Number of front matter delimiters among the lines (at most two).
pub open spec fn delims(ls: Seq<Seq<char>>) -> nat
    decreases ls.len(),
{
    if ls.len() == 0 {
        0
    } else {
        let d = delims(ls.drop_last());
        if is_dashes(ls.last()) && d < 2 { d + 1 } else { d }
    }
}

/// Line `l`, after the lines `before`, delimits the front matter.
pub open spec fn is_fence(before: Seq<Seq<char>>, l: Seq<char>) -> bool {
    is_dashes(l) && delims(before) < 2
}

/// Line `l`, after the lines `before`, stands inside the front matter.
pub open spec fn in_front(before: Seq<Seq<char>>, l: Seq<char>) -> bool {
    !is_fence(before, l) && delims(before) == 1
}

/// `split_once(':')`: the text before and after the first colon.
pub open spec fn split_colon(l: Seq<char>) -> Option<(Seq<char>, Seq<char>)> {
    let p = run_without(l, 0, ':');
    if p >= l.len() { None } else { Some((l.take(p as int), l.skip(p as int + 1))) }
}

/// The text before the first colon of a field line.
pub open spec fn colon_key(l: Seq<char>) -> Seq<char> {
    match split_colon(l) {
        Some((k, _)) => k,
        None => Seq::empty(),
    }
}

/// The text after the first colon of a field line.
pub open spec fn colon_value(l: Seq<char>) -> Seq<char> {
    match split_colon(l) {
        Some((_, v)) => v,
        None => Seq::empty(),
    }
}

/// Line `l` after `before` is a front matter field named `k1` or `k2`.
pub open spec fn names_field(before: Seq<Seq<char>>, l: Seq<char>, k1: Seq<char>, k2: Seq<char>) -> bool {
    &&& in_front(before, l)
    &&& split_colon(l) is Some
    &&& (trim(colon_key(l)) == k1 || trim(colon_key(l)) == k2)
}

/// The value of a field line: trimmed, then without surrounding quotes.
pub open spec fn field_value(l: Seq<char>) -> Seq<char> {
    trim_quotes(trim(colon_value(l)))
}

/// The value of the last front matter field named `k1` or `k2`.
pub open spec fn meta_field(ls: Seq<Seq<char>>, k1: Seq<char>, k2: Seq<char>) -> Option<Seq<char>>
    decreases ls.len(),
{
    if ls.len() == 0 {
        None
    } else if names_field(ls.drop_last(), ls.last(), k1, k2) {
        Some(field_value(ls.last()))
    } else {
        meta_field(ls.drop_last(), k1, k2)
    }
}

/// The first `# ` heading, without its leading `# ` marks.
pub open spec fn first_heading(ls: Seq<Seq<char>>) -> Option<Seq<char>>
    decreases ls.len(),
{
    if ls.len() == 0 {
        None
    } else {
        match first_heading(ls.drop_last()) {
            Some(t) => Some(t),
            None => if is_heading(ls.last()) { Some(strip_heading(ls.last())) } else { None },
        }
    }
}

/// Which lines outside the front matter make up the body.
#[derive(Debug, Clone, Copy, PartialEq, Eq, Structural)]
pub enum BodyRule {
    /// Every non-empty line outside the front matter.
    NonEmpty,
    /// Every line after the front matter that does not open with `#`.
    AfterFrontMatter,
}

/// Line `l`, after the lines `before`, belongs to the body.
pub open spec fn is_body_line(rule: BodyRule, before: Seq<Seq<char>>, l: Seq<char>) -> bool {
    &&& !is_fence(before, l)
    &&& !in_front(before, l)
    &&& match rule {
        BodyRule::NonEmpty => l.len() > 0,
        BodyRule::AfterFrontMatter => delims(before) >= 2 && !(l.len() > 0 && l[0] == '#'),
    }
}

/// The body lines, in order.
pub open spec fn body_lines(rule: BodyRule, ls: Seq<Seq<char>>) -> Seq<Seq<char>>
    decreases ls.len(),
{
    if ls.len() == 0 {
        Seq::empty()
    } else if is_body_line(rule, ls.drop_last(), ls.last()) {
        body_lines(rule, ls.drop_last()).push(ls.last())
    } else {
        body_lines(rule, ls.drop_last())
    }
}

/// `join("\n")`: the lines with a line feed between each two.
pub open spec fn join_lines(ls: Seq<Seq<char>>) -> Seq<char>
    decreases ls.len(),
{
    if ls.len() == 0 {
        Seq::empty()
    } else if ls.len() == 1 {
        ls[0]
    } else {
        join_lines(ls.drop_last()) + seq!['\n'] + ls.last()
    }
}

/// The characters of an optional string.
pub open spec fn opt_chars(o: Option<String>) -> Option<Seq<char>> {
    match o {
        Some(s) => Some(s@),
        None => None,
    }
}

/// What a markdown file holds, field by field, as read from its lines.
#[derive(Debug)]
pub struct FrontMatter {
    /// The first `# ` heading.
    pub title: Option<String>,
    pub oid: Option<String>,
    pub aid: Option<String>,
    pub category: Option<String>,
    pub publisher: Option<String>,
    pub author: Option<String>,
    pub url: Option<String>,
    /// The `published_at` or `date` field.
    pub published_at: Option<String>,
    /// The body lines joined by line feeds.
    pub body: String,
}

impl FrontMatter {
    /// The file's fields as `scan_markdown` reads them from `text`.
    pub open spec fn read_from(&self, text: Seq<char>, rule: BodyRule) -> bool {
        let ls = split_lines(text);
        &&& opt_chars(self.title) == first_heading(ls)
        &&& opt_chars(self.oid) == meta_field(ls, "oid"@, "oid"@)
        &&& opt_chars(self.aid) == meta_field(ls, "aid"@, "aid"@)
        &&& opt_chars(self.category) == meta_field(ls, "category"@, "category"@)
        &&& opt_chars(self.publisher) == meta_field(ls, "publisher"@, "publisher"@)
        &&& opt_chars(self.author) == meta_field(ls, "author"@, "author"@)
        &&& opt_chars(self.url) == meta_field(ls, "url"@, "url"@)
        &&& opt_chars(self.published_at) == meta_field(ls, "published_at"@, "date"@)
        &&& self.body@ == join_lines(body_lines(rule, ls))
    }
}

fn run_of_exec(s: &[char], i: usize, c: char) -> (r: usize)
    requires
        i <= s@.len(),
    ensures
        r == run_of(s@, i as int, c),
        i + r <= s@.len(),
{
    let mut k: usize = i;
    while k < s.len() && s[k] == c
        invariant
            i <= k <= s@.len(),
            run_of(s@, i as int, c) == (k - i) + run_of(s@, k as int, c),
        decreases s@.len() - k,
    {
        k = k + 1;
    }
    k - i
}

fn run_of_back_exec(s: &[char], e: usize, c: char) -> (r: usize)
    requires
        e <= s@.len(),
    ensures
        r == run_of_back(s@, e as int, c),
        r <= e,
{
    let mut k: usize = e;
    while k > 0 && s[k - 1] == c
        invariant
            k <= e,
            e <= s@.len(),
            run_of_back(s@, e as int, c) == (e - k) + run_of_back(s@, k as int, c),
        decreases k,
    {
        k = k - 1;
    }
    e - k
}

proof fn lemma_run_of_stops(s: Seq<char>, i: int, c: char)
    requires
        0 <= i,
        i + run_of(s, i, c) < s.len(),
    ensures
        s[i + run_of(s, i, c)] != c,
    decreases s.len() - i,
{
    if i < s.len() && s[i] == c {
        lemma_run_of_stops(s, i + 1, c);
    }
}

proof fn lemma_run_of_back_bound(s: Seq<char>, e: int, p: int, c: char)
    requires
        0 <= p < e <= s.len(),
        s[p] != c,
    ensures
        run_of_back(s, e, c) <= e - p - 1,
    decreases e,
{
    if s[e - 1] == c {
        lemma_run_of_back_bound(s, e - 1, p, c);
    }
}

/// `str::trim_matches('"')` on a character vector.
fn trim_quotes_chars(s: &[char]) -> (r: Vec<char>)
    ensures
        r@ == trim_quotes(s@),
{
    let lead = run_of_exec(s, 0, '"');
    if lead >= s.len() {
        return Vec::new();
    }
    let trail = run_of_back_exec(s, s.len(), '"');
    proof {
        lemma_run_of_stops(s@, 0, '"');
        lemma_run_of_back_bound(s@, s@.len() as int, lead as int, '"');
    }
    copy_range(s, lead, s.len() - trail)
}

fn strip_heading_chars(l: &[char]) -> (r: Vec<char>)
    ensures
        r@ == strip_heading(l@),
{
    let mut i: usize = 0;
    proof {
        assert(l@.skip(0) =~= l@);
    }
    while i < l.len() && l.len() - i >= 2 && l[i] == '#' && l[i + 1] == ' '
        invariant
            i <= l@.len(),
            strip_heading(l@) == strip_heading(l@.skip(i as int)),
        decreases l@.len() - i,
    {
        proof {
            assert(l@.skip(i as int).skip(2) =~= l@.skip(i + 2));
        }
        i = i + 2;
    }
    copy_range(l, i, l.len())
}

proof fn lemma_split_step(s: Seq<char>, start: int)
    requires
        0 <= start < s.len(),
    ensures
        start + run_without(s, start, '\n') >= s.len() ==> split_lines(s.skip(start)) == seq![s.skip(start)],
        start + run_without(s, start, '\n') < s.len() ==> split_lines(s.skip(start)) == seq![
            strip_cr(s.subrange(start, start + run_without(s, start, '\n')))
        ] + split_lines(s.skip(start + run_without(s, start, '\n') + 1)),
{
    let t = s.skip(start);
    let k = run_without(s, start, '\n');
    lemma_run_without_shift(s, start, 0, '\n');
    if start + k < s.len() {
        assert(t.take(k as int) =~= s.subrange(start, start + k));
        assert(t.skip(k as int + 1) =~= s.skip(start + k + 1));
    }
}

/// The lines of a text, as `str::lines` gives them.
pub fn lines_of(text: &str) -> (r: Vec<Vec<char>>)
    ensures
        r@.map_values(|l: Vec<char>| l@) == split_lines(text@),
{
    let s = chars_of(text);
    let mut out: Vec<Vec<char>> = Vec::new();
    let mut start: usize = 0;
    proof {
        assert(s@.skip(0) =~= s@);
    }
    while start < s.len()
        invariant
            start <= s@.len(),
            s@ == text@,
            out@.map_values(|l: Vec<char>| l@) + split_lines(s@.skip(start as int)) == split_lines(s@),
        decreases s@.len() - start,
    {
        let k = start + run_without_exec(s.as_slice(), start, '\n');
        proof {
            lemma_split_step(s@, start as int);
        }
        let mut line = copy_range(s.as_slice(), start, k);
        if k < s.len() && line.len() > 0 && line[line.len() - 1] == '\r' {
            line.pop();
        }
        let ghost prev = out@.map_values(|l: Vec<char>| l@);
        let ghost lv = line@;
        out.push(line);
        proof {
            assert(out@.map_values(|l: Vec<char>| l@) =~= prev.push(lv));
        }
        if k < s.len() {
            proof {
                assert(prev.push(lv) + split_lines(s@.skip(k + 1)) =~= prev + split_lines(s@.skip(start as int)));
            }
            start = k + 1;
        } else {
            proof {
                assert(s@.skip(s@.len() as int) =~= Seq::<char>::empty());
                assert(prev.push(lv) =~= prev + split_lines(s@.skip(start as int)));
            }
            start = s.len();
        }
    }
    proof {
        assert(s@.skip(start as int) =~= Seq::<char>::empty());
        assert(out@.map_values(|l: Vec<char>| l@) =~= split_lines(s@));
    }
    out
}

/// Front matter fields and body, read so far.
struct ScanState {
    dashes: usize,
    title: Option<Vec<char>>,
    oid: Option<Vec<char>>,
    aid: Option<Vec<char>>,
    category: Option<Vec<char>>,
    publisher: Option<Vec<char>>,
    author: Option<Vec<char>>,
    url: Option<Vec<char>>,
    published_at: Option<Vec<char>>,
    body: Vec<char>,
    has_body: bool,
}

spec fn opt_vec(o: Option<Vec<char>>) -> Option<Seq<char>> {
    match o {
        Some(v) => Some(v@),
        None => None,
    }
}

impl ScanState {
    spec fn agrees(&self, rule: BodyRule, ls: Seq<Seq<char>>) -> bool {
        &&& self.dashes == delims(ls)
        &&& opt_vec(self.title) == first_heading(ls)
        &&& opt_vec(self.oid) == meta_field(ls, "oid"@, "oid"@)
        &&& opt_vec(self.aid) == meta_field(ls, "aid"@, "aid"@)
        &&& opt_vec(self.category) == meta_field(ls, "category"@, "category"@)
        &&& opt_vec(self.publisher) == meta_field(ls, "publisher"@, "publisher"@)
        &&& opt_vec(self.author) == meta_field(ls, "author"@, "author"@)
        &&& opt_vec(self.url) == meta_field(ls, "url"@, "url"@)
        &&& opt_vec(self.published_at) == meta_field(ls, "published_at"@, "date"@)
        &&& self.body@ == join_lines(body_lines(rule, ls))
        &&& self.has_body == (body_lines(rule, ls).len() > 0)
    }
}

fn copy_chars(v: &Vec<char>) -> (r: Vec<char>)
    ensures
        r@ == v@,
{
    copy_range(v.as_slice(), 0, v.len())
}

fn set_if(field: &mut Option<Vec<char>>, hit: bool, value: &Vec<char>)
    ensures
        opt_vec(*final(field)) == if hit { Some(value@) } else { opt_vec(*old(field)) },
{
    if hit {
        *field = Some(copy_chars(value));
    }
}

fn opt_string(o: Option<Vec<char>>) -> (r: Option<String>)
    ensures
        opt_chars(r) == opt_vec(o),
{
    match o {
        Some(v) => Some(string_of(v.as_slice())),
        None => None,
    }
}

/// Takes in one more line.
fn absorb_line(st: &mut ScanState, rule: BodyRule, line: &Vec<char>, Ghost(before): Ghost<Seq<Seq<char>>>)
    requires
        old(st).agrees(rule, before),
        old(st).dashes <= 2,
    ensures
        final(st).agrees(rule, before.push(line@)),
        final(st).dashes <= 2,
{
    let ghost ls = before.push(line@);
    proof {
        assert(ls.drop_last() =~= before);
        assert(ls.last() == line@);
    }
    let dashes = line.len() >= 3 && line[0] == '-' && line[1] == '-' && line[2] == '-';
    let fence = dashes && st.dashes < 2;
    let front = !fence && st.dashes == 1;
    // title
    if st.title.is_none() && line.len() >= 2 && line[0] == '#' && line[1] == ' ' {
        st.title = Some(strip_heading_chars(line.as_slice()));
    }
    // front matter field
    let p = run_without_exec(line.as_slice(), 0, ':');
    if front && p < line.len() {
        let key = trim_chars(copy_range(line.as_slice(), 0, p).as_slice());
        let raw = trim_chars(copy_range(line.as_slice(), p + 1, line.len()).as_slice());
        let value = trim_quotes_chars(raw.as_slice());
        proof {
            assert(line@.take(p as int) =~= line@.subrange(0, p as int));
            assert(line@.skip(p + 1) =~= line@.subrange(p + 1, line@.len() as int));
        }
        let k = key.as_slice();
        set_if(&mut st.oid, eq_literal(k, "oid"), &value);
        set_if(&mut st.aid, eq_literal(k, "aid"), &value);
        set_if(&mut st.category, eq_literal(k, "category"), &value);
        set_if(&mut st.publisher, eq_literal(k, "publisher"), &value);
        set_if(&mut st.author, eq_literal(k, "author"), &value);
        set_if(&mut st.url, eq_literal(k, "url"), &value);
        let dated = eq_literal(k, "published_at") || eq_literal(k, "date");
        set_if(&mut st.published_at, dated, &value);
    }
    // body
    let in_body = !fence && !front && match rule {
        BodyRule::NonEmpty => line.len() > 0,
        BodyRule::AfterFrontMatter => st.dashes >= 2 && !(line.len() > 0 && line[0] == '#'),
    };
    if in_body {
        let ghost prev = body_lines(rule, before);
        let ghost old_body = st.body@;
        if st.has_body {
            st.body.push('\n');
        }
        extend_chars(&mut st.body, line.as_slice());
        proof {
            let now = prev.push(line@);
            assert(now.drop_last() =~= prev);
            assert(body_lines(rule, ls) == now);
            if prev.len() == 0 {
                assert(now[0] == line@);
                assert(st.body@ =~= line@);
            } else {
                assert(st.body@ =~= old_body + seq!['\n'] + line@);
            }
        }
        st.has_body = true;
    }
    if fence {
        st.dashes = st.dashes + 1;
    }
}

/// Reads a markdown file's title, front matter fields and body.
pub fn scan_markdown(text: &str, rule: BodyRule) -> (r: FrontMatter)
    ensures
        r.read_from(text@, rule),
{
    let s = chars_of(text);
    let mut st = ScanState {
        dashes: 0,
        title: None,
        oid: None,
        aid: None,
        category: None,
        publisher: None,
        author: None,
        url: None,
        published_at: None,
        body: Vec::new(),
        has_body: false,
    };
    let ghost mut done: Seq<Seq<char>> = Seq::empty();
    let mut start: usize = 0;
    proof {
        assert(s@.skip(0) =~= s@);
    }
    while start < s.len()
        invariant
            start <= s@.len(),
            done + split_lines(s@.skip(start as int)) == split_lines(s@),
            st.agrees(rule, done),
            st.dashes <= 2,
        decreases s@.len() - start,
    {
        let k = start + run_without_exec(s.as_slice(), start, '\n');
        proof {
            lemma_split_step(s@, start as int);
        }
        let mut line = copy_range(s.as_slice(), start, k);
        if k < s.len() && line.len() > 0 && line[line.len() - 1] == '\r' {
            line.pop();
        }
        absorb_line(&mut st, rule, &line, Ghost(done));
        let ghost prev_done = done;
        proof {
            done = done.push(line@);
        }
        if k < s.len() {
            proof {
                assert(done + split_lines(s@.skip(k + 1)) =~= prev_done + split_lines(s@.skip(start as int)));
            }
            start = k + 1;
        } else {
            proof {
                assert(s@.skip(s@.len() as int) =~= Seq::<char>::empty());
                assert(done =~= prev_done + split_lines(s@.skip(start as int)));
            }
            start = s.len();
        }
    }
    proof {
        assert(s@.skip(start as int) =~= Seq::<char>::empty());
        assert(done =~= split_lines(s@));
    }
    FrontMatter {
        title: opt_string(st.title),
        oid: opt_string(st.oid),
        aid: opt_string(st.aid),
        category: opt_string(st.category),
        publisher: opt_string(st.publisher),
        author: opt_string(st.author),
        url: opt_string(st.url),
        published_at: opt_string(st.published_at),
        body: string_of(st.body.as_slice()),
    }
}

} // verus!
