//! Naver News comment API: JSONP unwrapping, comment conversion and threading.
//!
//! The comment API answers in JSONP. A response is unwrapped with the pattern
//! `^[a-zA-Z_$][a-zA-Z0-9_$]*\s*\(\s*(.*)\s*\);?\s*$` (where `\s` is Unicode
//! white space and `.` is any character but a line feed) on the trimmed text.
pub mod api;

use vstd::prelude::*;
use crate::text::{
    chars_of, string_of, is_space, char_is_space, space_run, space_run_back, trim, space_run_exec, copy_range, trim_chars,
    run_without, run_without_exec, lemma_run_without_shift, lemma_space_run_shift, lemma_space_run_bound, decimal, push_decimal,
    copy_string, push_str, lemma_trim_padded,
};

verus! {

broadcast use vstd::slice::group_slice_axioms;

/// A character that may start a JSONP callback name.
pub open spec fn is_ident_start(c: char) -> bool {
    ('a' <= c && c <= 'z') || ('A' <= c && c <= 'Z') || c == '_' || c == '$'
}

/// A character that may continue a JSONP callback name.
pub open spec fn is_ident_char(c: char) -> bool {
    is_ident_start(c) || ('0' <= c && c <= '9')
}

/// Length of the run of callback-name characters of `s` from `i`.
pub open spec fn ident_run(s: Seq<char>, i: int) -> nat
    decreases s.len() - i,
{
    if 0 <= i < s.len() && is_ident_char(s[i]) { 1 + ident_run(s, i + 1) } else { 0 }
}

/// The text from `q` on reads `\s*\);?\s*` up to its end.
pub open spec fn closes_at(t: Seq<char>, q: int) -> bool {
    let w = q + space_run(t, q);
    let u = if w + 1 < t.len() && t[w + 1] == ';' { w + 2 } else { w + 1 };
    &&& w < t.len()
    &&& t[w] == ')'
    &&& u + space_run(t, u) == t.len()
}

/// Position of the first line feed of `t` at or after `s`, or its length.
pub open spec fn line_end(t: Seq<char>, s: int) -> int
    decreases t.len() - s,
{
    if s < 0 || s >= t.len() { t.len() as int } else if t[s] == '\n' { s } else { line_end(t, s + 1) }
}

/// The largest `q` in `[s, k]` at which the text closes.
pub open spec fn last_close(t: Seq<char>, s: int, k: int) -> Option<int>
    decreases k - s + 1,
{
    if k < s { None } else if closes_at(t, k) { Some(k) } else { last_close(t, s, k - 1) }
}

/// Start of the JSON text after `callback(` and its white space, if the text
/// opens like a JSONP call.
pub open spec fn jsonp_open(t: Seq<char>) -> Option<int> {
    let n = ident_run(t, 0) as int;
    let a = n + space_run(t, n);
    if n == 0 || !is_ident_start(t[0]) || a >= t.len() || t[a] != '(' {
        None
    } else {
        Some(a + 1 + space_run(t, a + 1))
    }
}

/// The JSON content that the JSONP pattern captures from a trimmed text.
pub open spec fn jsonp_capture(t: Seq<char>) -> Option<Seq<char>> {
    match jsonp_open(t) {
        None => None,
        Some(s) => match last_close(t, s, line_end(t, s)) {
            Some(q) => Some(t.subrange(s, q)),
            None => None,
        },
    }
}

/// Result of `parse_jsonp`: the captured JSON, else the trimmed text when it
/// already looks like JSON, else nothing.
pub open spec fn spec_parse_jsonp(jsonp: Seq<char>) -> Option<Seq<char>> {
    let t = trim(jsonp);
    match jsonp_capture(t) {
        Some(j) => Some(j),
        None => if t.len() > 0 && (t[0] == '{' || t[0] == '[') { Some(t) } else { None },
    }
}

proof fn lemma_ident_run_prefix(t: Seq<char>, cb: Seq<char>, i: int)
    requires
        0 <= i <= cb.len(),
        cb.len() < t.len(),
        t.take(cb.len() as int) == cb,
        forall|k: int| 0 <= k < cb.len() ==> is_ident_char(#[trigger] cb[k]),
        !is_ident_char(t[cb.len() as int]),
    ensures
        ident_run(t, i) == cb.len() - i,
    decreases cb.len() - i,
{
    if i < cb.len() {
        assert(t[i] == cb[i]);
        lemma_ident_run_prefix(t, cb, i + 1);
    }
}

/// The text of a callback call: `cb(json)`, with `;` after it when `semi`.
pub open spec fn jsonp_call(cb: Seq<char>, json: Seq<char>, semi: bool) -> Seq<char> {
    cb + seq!['('] + json + seq![')'] + if semi { seq![';'] } else { Seq::<char>::empty() }
}

proof fn lemma_jsonp_capture(cb: Seq<char>, json: Seq<char>, semi: bool)
    requires
        cb.len() > 0,
        is_ident_start(cb[0]),
        forall|k: int| 0 <= k < cb.len() ==> is_ident_char(#[trigger] cb[k]),
        !json.contains('\n'),
        json.len() > 0 ==> !is_space(json[0]),
    ensures
        jsonp_capture(jsonp_call(cb, json, semi)) == Some(json),
{
    let t = jsonp_call(cb, json, semi);
    let n = cb.len() as int;
    let len = t.len() as int;
    let c = n + 1 + json.len();
    assert(t[n] == '(');
    assert(t[c] == ')');
    assert(t[0] == cb[0]);
    if semi {
        assert(t[len - 1] == ';');
        assert(len == c + 2);
    } else {
        assert(len == c + 1);
    }
    // the callback name
    assert(t.take(n) =~= cb);
    lemma_ident_run_prefix(t, cb, 0);
    assert(space_run(t, n) == 0);
    if json.len() > 0 {
        assert(t[n + 1] == json[0]);
    }
    assert(space_run(t, n + 1) == 0);
    assert(jsonp_open(t) == Some(n + 1));
    // no line feed after the parenthesis
    assert forall|k: int| n + 1 <= k < len implies #[trigger] t[k] != '\n' by {
        if k < c {
            assert(t[k] == json[k - n - 1]);
            if json[k - n - 1] == '\n' {
                assert(json.contains('\n'));
            }
        }
    }
    lemma_line_end_none(t, n + 1);
    // the closing parenthesis is the last place the pattern can close
    assert(!closes_at(t, len));
    assert(space_run(t, c) == 0);
    assert(space_run(t, len) == 0);
    assert(closes_at(t, c));
    assert(last_close(t, n + 1, c) == Some(c));
    if semi {
        assert(space_run(t, len - 1) == 0);
        assert(!closes_at(t, len - 1));
        assert(last_close(t, n + 1, len - 1) == Some(c));
    }
    assert(last_close(t, n + 1, len) == Some(c));
    assert(t.subrange(n + 1, c) =~= json);
}

/// Wrapping JSON text in a callback call and unwrapping it gives the text
/// back: `parse_jsonp` of `cb(json)` or `cb(json);`, with any white space
/// before and after, is `json`, for a callback name `cb` and a JSON text on
/// one line that does not open with white space.
pub proof fn parse_jsonp_unwraps_callback(
    lead: Seq<char>,
    cb: Seq<char>,
    json: Seq<char>,
    semi: bool,
    trail: Seq<char>,
)
    requires
        cb.len() > 0,
        is_ident_start(cb[0]),
        forall|k: int| 0 <= k < cb.len() ==> is_ident_char(#[trigger] cb[k]),
        !json.contains('\n'),
        json.len() > 0 ==> !is_space(json[0]),
        forall|k: int| 0 <= k < lead.len() ==> is_space(#[trigger] lead[k]),
        forall|k: int| 0 <= k < trail.len() ==> is_space(#[trigger] trail[k]),
    ensures
        spec_parse_jsonp(lead + jsonp_call(cb, json, semi) + trail) == Some(json),
{
    let core = jsonp_call(cb, json, semi);
    assert(core[0] == cb[0]);
    if semi {
        assert(core.last() == ';');
    } else {
        assert(core.last() == ')');
    }
    lemma_trim_padded(lead, core, trail);
    lemma_jsonp_capture(cb, json, semi);
}

proof fn lemma_line_end_none(t: Seq<char>, s: int)
    requires
        0 <= s <= t.len(),
        forall|k: int| s <= k < t.len() ==> #[trigger] t[k] != '\n',
    ensures
        line_end(t, s) == t.len(),
    decreases t.len() - s,
{
    if s < t.len() {
        lemma_line_end_none(t, s + 1);
    }
}

fn ident_run_exec(s: &[char], i: usize) -> (r: usize)
    requires
        i <= s@.len(),
    ensures
        r == ident_run(s@, i as int),
        i + r <= s@.len(),
{
    let mut k: usize = i;
    while k < s.len() && (('a' <= s[k] && s[k] <= 'z') || ('A' <= s[k] && s[k] <= 'Z') || s[k] == '_'
        || s[k] == '$' || ('0' <= s[k] && s[k] <= '9'))
        invariant
            i <= k <= s@.len(),
            ident_run(s@, i as int) == (k - i) + ident_run(s@, k as int),
        decreases s@.len() - k,
    {
        k = k + 1;
    }
    k - i
}

fn closes_at_exec(t: &[char], q: usize) -> (r: bool)
    requires
        q <= t@.len(),
    ensures
        r == closes_at(t@, q as int),
{
    let n = t.len();
    let w = q + space_run_exec(t, q);
    assert(w <= n);
    if w >= t.len() || t[w] != ')' {
        return false;
    }
    let u = if w + 1 < t.len() && t[w + 1] == ';' { w + 2 } else { w + 1 };
    u + space_run_exec(t, u) == t.len()
}

fn line_end_exec(t: &[char], s: usize) -> (r: usize)
    requires
        s <= t@.len(),
    ensures
        r == line_end(t@, s as int),
        s <= r <= t@.len(),
{
    let mut k: usize = s;
    while k < t.len() && t[k] != '\n'
        invariant
            s <= k <= t@.len(),
            line_end(t@, s as int) == line_end(t@, k as int),
        decreases t@.len() - k,
    {
        k = k + 1;
    }
    k
}

/// The JSON text of a JSONP call, of a plain JSON text, or nothing.
fn parse_jsonp_chars(t: &[char]) -> (r: Option<Vec<char>>)
    ensures
        match r {
            Some(j) => jsonp_capture(t@) == Some(j@),
            None => jsonp_capture(t@) is None,
        },
{
    let n = ident_run_exec(t, 0);
    if n == 0 {
        return None;
    }
    if !(('a' <= t[0] && t[0] <= 'z') || ('A' <= t[0] && t[0] <= 'Z') || t[0] == '_' || t[0] == '$') {
        return None;
    }
    let a = n + space_run_exec(t, n);
    if a >= t.len() || t[a] != '(' {
        return None;
    }
    let s = a + 1 + space_run_exec(t, a + 1);
    let le = line_end_exec(t, s);
    let mut k: usize = le;
    loop
        invariant
            s <= t@.len(),
            s <= k <= le,
            le == line_end(t@, s as int),
            le <= t@.len(),
            jsonp_open(t@) == Some(s as int),
            last_close(t@, s as int, le as int) == last_close(t@, s as int, k as int),
        decreases k - s,
    {
        if closes_at_exec(t, k) {
            return Some(copy_range(t, s, k));
        }
        if k == s {
            assert(last_close(t@, s as int, k - 1) is None);
            return None;
        }
        k = k - 1;
    }
}

/// Parse a JSONP response and extract its JSON content.
///
/// Accepts `callback({...})`, `callback({...});` and, when the text is no
/// JSONP call, a text that already starts like JSON (`{` or `[`).
pub fn parse_jsonp(jsonp: &str) -> (r: Result<String, String>)
    ensures
        match r {
            Ok(j) => spec_parse_jsonp(jsonp@) == Some(j@),
            Err(msg) => spec_parse_jsonp(jsonp@) is None
                && msg@ == "Invalid JSONP format: unable to extract JSON content"@,
        },
{
    let raw = chars_of(jsonp);
    let t = trim_chars(raw.as_slice());
    match parse_jsonp_chars(t.as_slice()) {
        Some(j) => Ok(string_of(j.as_slice())),
        None => {
            if t.len() > 0 && (t[0] == '{' || t[0] == '[') {
                Ok(string_of(t.as_slice()))
            } else {
                Err(string_of(chars_of("Invalid JSONP format: unable to extract JSON content").as_slice()))
            }
        },
    }
}


// ---------------------------------------------------------------------------
// Comment records and their conversion
// ---------------------------------------------------------------------------

/// The text that `html_escape::decode_html_entities` makes of `s`.
pub uninterp spec fn decoded_html_entities(s: Seq<char>) -> Seq<char>;

/// `html_escape::decode_html_entities`: named and numeric character
/// references that end with `;` are decoded. The result is named
/// `decoded_html_entities`; the entity table is not restated. A text without
/// `&` holds no reference and comes back unchanged.
#[verifier::external_body]
fn decode_html_entities(s: &str) -> (r: String)
    ensures
        r@ == decoded_html_entities(s@),
        !s@.contains('&') ==> r@ == s@,
{
    html_escape::decode_html_entities(s).into_owned()
}

/// The text with every `<...>` tag (a `<`, at least one character other
/// than `>`, then `>`) removed, scanning from the left.
pub open spec fn strip_tags(s: Seq<char>) -> Seq<char>
    decreases s.len(),
{
    if s.len() == 0 {
        s
    } else {
        let k = run_without(s, 1, '>');
        if s[0] == '<' && k >= 1 && 1 + k < s.len() {
            strip_tags(s.skip(k as int + 2))
        } else {
            seq![s[0]] + strip_tags(s.skip(1))
        }
    }
}

/// The text with every run of white space replaced by one space.
pub open spec fn collapse_spaces(s: Seq<char>) -> Seq<char>
    decreases s.len(),
{
    if s.len() == 0 {
        s
    } else if is_space(s[0]) {
        proof {
            lemma_space_run_bound(s, 0);
        }
        seq![' '] + collapse_spaces(s.skip(space_run(s, 0) as int))
    } else {
        seq![s[0]] + collapse_spaces(s.skip(1))
    }
}

/// Comment text cleaned for storage: tags removed, entities decoded, white
/// space collapsed and trimmed.
pub open spec fn spec_clean_content(s: Seq<char>) -> Seq<char> {
    trim(collapse_spaces(decoded_html_entities(strip_tags(s))))
}

fn strip_tags_chars(s: &[char]) -> (r: Vec<char>)
    ensures
        r@ == strip_tags(s@),
{
    let mut out: Vec<char> = Vec::new();
    let mut i: usize = 0;
    proof {
        assert(s@.skip(0) =~= s@);
    }
    while i < s.len()
        invariant
            i <= s@.len(),
            out@ + strip_tags(s@.skip(i as int)) == strip_tags(s@),
        decreases s@.len() - i,
    {
        let ghost t = s@.skip(i as int);
        let k = run_without_exec(s, i + 1, '>');
        proof {
            lemma_run_without_shift(s@, i as int, 1, '>');
            assert(t[0] == s@[i as int]);
        }
        if s[i] == '<' && k >= 1 && i + 1 + k < s.len() {
            proof {
                assert(t.skip(k as int + 2) =~= s@.skip(i + k + 2));
            }
            i = i + k + 2;
        } else {
            let ghost before = out@;
            out.push(s[i]);
            proof {
                assert(t.skip(1) =~= s@.skip(i + 1));
                assert(out@ + strip_tags(s@.skip(i + 1)) =~= before + strip_tags(t));
            }
            i = i + 1;
        }
    }
    proof {
        assert(s@.skip(i as int) =~= Seq::<char>::empty());
        assert(out@ + strip_tags(s@.skip(i as int)) =~= out@);
    }
    out
}

fn collapse_spaces_chars(s: &[char]) -> (r: Vec<char>)
    ensures
        r@ == collapse_spaces(s@),
{
    let mut out: Vec<char> = Vec::new();
    let mut i: usize = 0;
    proof {
        assert(s@.skip(0) =~= s@);
    }
    while i < s.len()
        invariant
            i <= s@.len(),
            out@ + collapse_spaces(s@.skip(i as int)) == collapse_spaces(s@),
        decreases s@.len() - i,
    {
        let ghost t = s@.skip(i as int);
        let ghost before = out@;
        proof {
            assert(t[0] == s@[i as int]);
        }
        if char_is_space(s[i]) {
            let n = space_run_exec(s, i);
            proof {
                lemma_space_run_shift(s@, i as int, 0);
                assert(t.skip(n as int) =~= s@.skip(i + n));
            }
            out.push(' ');
            proof {
                assert(out@ + collapse_spaces(s@.skip(i + n)) =~= before + collapse_spaces(t));
            }
            i = i + n;
        } else {
            out.push(s[i]);
            proof {
                assert(t.skip(1) =~= s@.skip(i + 1));
                assert(out@ + collapse_spaces(s@.skip(i + 1)) =~= before + collapse_spaces(t));
            }
            i = i + 1;
        }
    }
    proof {
        assert(s@.skip(i as int) =~= Seq::<char>::empty());
        assert(out@ + collapse_spaces(s@.skip(i as int)) =~= out@);
    }
    out
}

/// Clean comment content: remove HTML tags, decode HTML entities, collapse
/// white space and trim.
pub fn clean_comment_content(content: &str) -> (r: String)
    ensures
        r@ == spec_clean_content(content@),
{
    let c = chars_of(content);
    let no_tags = strip_tags_chars(c.as_slice());
    let decoded = decode_html_entities(string_of(no_tags.as_slice()).as_str());
    let d = chars_of(decoded.as_str());
    let collapsed = collapse_spaces_chars(d.as_slice());
    string_of(trim_chars(collapsed.as_slice()).as_slice())
}

/// Raw comment data from the API. Times are Unix milliseconds.
#[derive(Debug)]
pub struct RawComment {
    /// Comment number (unique ID)
    pub comment_no: i64,
    /// Parent comment number (0 if top-level)
    pub parent_comment_no: i64,
    /// Comment content (may contain HTML)
    pub contents: String,
    /// Masked user ID
    pub masked_user_id: String,
    /// User display name
    pub user_name: String,
    /// Profile user ID (Naver ID, may be null)
    pub profile_user_id: Option<String>,
    /// Registration time
    pub reg_time: i64,
    /// Modification time
    pub mod_time: i64,
    /// Sympathy (like) count
    pub sympathy_count: i64,
    /// Antipathy (dislike) count
    pub antipathy_count: i64,
    /// Reply count
    pub reply_count: i64,
    /// Whether this is a best comment
    pub best: bool,
    /// Whether the comment is visible
    pub visible: bool,
    /// Whether the comment is deleted
    pub deleted: bool,
    /// User ID type
    pub user_id_type: String,
    /// Whether user ID is exposed
    pub expose_user_id: bool,
    /// Ticket ID
    pub ticket: String,
}

/// The value an absent `visible` field takes: comments are visible unless
/// the API says otherwise.
pub fn default_true() -> (r: bool)
    ensures
        r,
{
    true
}

impl Default for RawComment {
    fn default() -> (r: Self)
        ensures
            r.comment_no == 0 && r.parent_comment_no == 0,
            r.contents@.len() == 0 && r.masked_user_id@.len() == 0 && r.user_name@.len() == 0,
            r.profile_user_id is None,
            r.reg_time == 0 && r.mod_time == 0,
            r.sympathy_count == 0 && r.antipathy_count == 0 && r.reply_count == 0,
            !r.best && r.visible && !r.deleted,
            r.user_id_type@.len() == 0 && !r.expose_user_id && r.ticket@.len() == 0,
    {
        RawComment {
            comment_no: 0,
            parent_comment_no: 0,
            contents: String::new(),
            masked_user_id: String::new(),
            user_name: String::new(),
            profile_user_id: None,
            reg_time: 0,
            mod_time: 0,
            sympathy_count: 0,
            antipathy_count: 0,
            reply_count: 0,
            best: false,
            visible: default_true(),
            deleted: false,
            user_id_type: String::new(),
            expose_user_id: false,
            ticket: String::new(),
        }
    }
}

/// Total comment counts of an article.
#[derive(Debug, Clone, Copy, PartialEq, Eq, Default)]
pub struct CommentCount {
    /// Total comment count
    pub comment: i64,
    /// Total reply count
    pub reply: i64,
    /// Deleted comment count
    pub deleted: i64,
}

/// Page information for pagination.
#[derive(Debug, Clone, Copy, PartialEq, Eq)]
pub struct PageInfo {
    /// Current page number
    pub page: i32,
    /// Total pages
    pub total_pages: i32,
    /// Page size
    pub page_size: i32,
    /// Index of first item
    pub index_size: i32,
}

/// Comment result containing list and pagination info.
#[derive(Debug)]
pub struct CommentResult {
    /// Total comment count
    pub count: CommentCount,
    /// Page information
    pub page_info: Option<PageInfo>,
    /// List of comments
    pub comment_list: Vec<RawComment>,
}

/// Root response from the comment API.
#[derive(Debug)]
pub struct CommentApiResponse {
    /// Success status
    pub success: bool,
    /// Response code (e.g., "200")
    pub code: String,
    /// Message (optional)
    pub message: Option<String>,
    /// Comment result data
    pub result: Option<CommentResult>,
}

/// A cleaned and normalized comment. Times are Unix milliseconds.
#[derive(Debug)]
pub struct Comment {
    /// Unique comment ID
    pub id: String,
    /// Parent comment ID (None if top-level)
    pub parent_id: Option<String>,
    /// Comment content (cleaned)
    pub content: String,
    /// Author name
    pub author: String,
    /// Author ID (masked)
    pub author_id: String,
    /// Creation time
    pub created_at: i64,
    /// Modification time
    pub modified_at: Option<i64>,
    /// Like count
    pub likes: i64,
    /// Dislike count
    pub dislikes: i64,
    /// Reply count
    pub reply_count: i64,
    /// Whether this is a best comment
    pub is_best: bool,
    /// Whether the comment is deleted
    pub is_deleted: bool,
    /// Nested replies (populated during tree building)
    pub replies: Vec<Comment>,
}

/// Decimal spelling of an integer, with a leading `-` when negative.
pub open spec fn signed_decimal(n: int) -> Seq<char> {
    if n < 0 { seq!['-'] + decimal((-n) as nat) } else { decimal(n as nat) }
}

fn signed_decimal_string(n: i64) -> (r: String)
    ensures
        r@ == signed_decimal(n as int),
{
    let mut out: Vec<char> = Vec::new();
    if n < 0 {
        out.push('-');
        let m: u64 = if n == i64::MIN { 9223372036854775808u64 } else { (-n) as u64 };
        push_decimal(&mut out, m);
    } else {
        push_decimal(&mut out, n as u64);
    }
    string_of(out.as_slice())
}

/// A raw comment converted: ids spelled in decimal, content cleaned, and a
/// modification time kept only when it is set and differs from creation.
pub open spec fn converted_from(c: Comment, raw: RawComment) -> bool {
    &&& c.id@ == signed_decimal(raw.comment_no as int)
    &&& c.parent_id matches Some(p) ==> p@ == signed_decimal(raw.parent_comment_no as int)
    &&& c.parent_id is Some <==> raw.parent_comment_no > 0
    &&& c.content@ == spec_clean_content(raw.contents@)
    &&& c.author@ == raw.user_name@
    &&& c.author_id@ == raw.masked_user_id@
    &&& c.created_at == raw.reg_time
    &&& c.modified_at == if raw.mod_time > 0 && raw.mod_time != raw.reg_time { Some(raw.mod_time) } else { None }
    &&& c.likes == raw.sympathy_count
    &&& c.dislikes == raw.antipathy_count
    &&& c.reply_count == raw.reply_count
    &&& c.is_best == raw.best
    &&& c.is_deleted == (raw.deleted || !raw.visible)
    &&& c.replies@.len() == 0
}

/// Convert a raw API comment to the cleaned comment structure.
pub fn convert_comment(raw: &RawComment) -> (r: Comment)
    ensures
        converted_from(r, *raw),
{
    let modified_at = if raw.mod_time > 0 && raw.mod_time != raw.reg_time {
        Some(raw.mod_time)
    } else {
        None
    };
    let parent_id = if raw.parent_comment_no > 0 {
        Some(signed_decimal_string(raw.parent_comment_no))
    } else {
        None
    };
    Comment {
        id: signed_decimal_string(raw.comment_no),
        parent_id,
        content: clean_comment_content(raw.contents.as_str()),
        author: copy_string(&raw.user_name),
        author_id: copy_string(&raw.masked_user_id),
        created_at: raw.reg_time,
        modified_at,
        likes: raw.sympathy_count,
        dislikes: raw.antipathy_count,
        reply_count: raw.reply_count,
        is_best: raw.best,
        is_deleted: raw.deleted || !raw.visible,
        replies: Vec::new(),
    }
}

/// The raw comments that are shown: visible and not deleted, in order.
pub open spec fn shown(raws: Seq<RawComment>) -> Seq<RawComment>
    decreases raws.len(),
{
    if raws.len() == 0 {
        raws
    } else if raws.last().visible && !raws.last().deleted {
        shown(raws.drop_last()).push(raws.last())
    } else {
        shown(raws.drop_last())
    }
}

/// Convert the visible, non-deleted raw comments, keeping their order.
pub fn convert_comments(raw_comments: &[RawComment]) -> (r: Vec<Comment>)
    ensures
        r@.len() == shown(raw_comments@).len(),
        forall|i: int| 0 <= i < r@.len() ==> converted_from(#[trigger] r@[i], shown(raw_comments@)[i]),
{
    let mut out: Vec<Comment> = Vec::new();
    let mut i: usize = 0;
    while i < raw_comments.len()
        invariant
            i <= raw_comments@.len(),
            out@.len() == shown(raw_comments@.take(i as int)).len(),
            forall|k: int| 0 <= k < out@.len() ==> converted_from(#[trigger] out@[k], shown(raw_comments@.take(i as int))[k]),
        decreases raw_comments@.len() - i,
    {
        proof {
            assert(raw_comments@.take(i + 1).drop_last() =~= raw_comments@.take(i as int));
        }
        let raw = &raw_comments[i];
        if raw.visible && !raw.deleted {
            out.push(convert_comment(raw));
        }
        i = i + 1;
    }
    proof {
        assert(raw_comments@.take(raw_comments@.len() as int) =~= raw_comments@);
    }
    out
}

/// Number of comments in a list of comment trees, replies included.
pub open spec fn forest_size(s: Seq<Comment>) -> nat
    decreases s,
{
    if s.len() == 0 {
        0
    } else {
        proof {
            assert(decreases_to!(s => s.last()));
            assert(decreases_to!(s.last() => s.last().replies));
            assert(decreases_to!(s.last().replies => s.last().replies@));
        }
        forest_size(s.drop_last()) + 1 + forest_size(s.last().replies@)
    }
}

impl Comment {
    /// Number of comments in this tree, the comment itself included.
    pub open spec fn spec_total_count(&self) -> nat {
        1 + forest_size(self.replies@)
    }

    /// Check if this is a top-level comment (not a reply).
    pub fn is_top_level(&self) -> (r: bool)
        ensures
            r == self.parent_id is None,
    {
        self.parent_id.is_none()
    }

    /// Check if this comment has replies.
    pub fn has_replies(&self) -> (r: bool)
        ensures
            r == (self.reply_count > 0 || self.replies@.len() > 0),
    {
        self.reply_count > 0 || self.replies.len() > 0
    }

    /// Get total count including nested replies.
    pub fn total_count(&self) -> (r: usize)
        requires
            self.spec_total_count() <= usize::MAX,
        ensures
            r == self.spec_total_count(),
        decreases self,
    {
        let mut sum: usize = 1;
        let mut i: usize = 0;
        while i < self.replies.len()
            invariant
                i <= self.replies@.len(),
                sum == 1 + forest_size(self.replies@.take(i as int)),
                1 + forest_size(self.replies@) <= usize::MAX,
            decreases self.replies@.len() - i,
        {
            proof {
                assert(self.replies@.take(i + 1).drop_last() =~= self.replies@.take(i as int));
                lemma_forest_prefix(self.replies@, i + 1);
                assert(decreases_to!(self => self.replies));
                assert(decreases_to!(self.replies => self.replies@));
                assert(decreases_to!(self.replies@ => self.replies@[i as int]));
            }
            let n = self.replies[i].total_count();
            sum = sum + n;
            i = i + 1;
        }
        proof {
            assert(self.replies@.take(self.replies@.len() as int) =~= self.replies@);
        }
        sum
    }
}

proof fn lemma_forest_prefix(s: Seq<Comment>, k: int)
    requires
        0 <= k <= s.len(),
    ensures
        forest_size(s.take(k)) <= forest_size(s),
    decreases s.len(),
{
    if k < s.len() {
        assert(s.drop_last().take(k) =~= s.take(k));
        lemma_forest_prefix(s.drop_last(), k);
    } else {
        assert(s.take(k) =~= s);
    }
}

// ---------------------------------------------------------------------------
// Threading comments into trees
// ---------------------------------------------------------------------------

/// Comment `c` replies to the comment with id `id`.
pub open spec fn is_reply_to(c: Comment, id: Seq<char>) -> bool {
    c.parent_id matches Some(p) && p@ == id
}

/// The comments of `pool` that reply to `id`, in order.
pub open spec fn replies_to(pool: Seq<Comment>, id: Seq<char>) -> Seq<Comment>
    decreases pool.len(),
{
    if pool.len() == 0 {
        pool
    } else if is_reply_to(pool.last(), id) {
        replies_to(pool.drop_last(), id).push(pool.last())
    } else {
        replies_to(pool.drop_last(), id)
    }
}

/// The comments of `pool` that do not reply to `id`, in order.
pub open spec fn not_replies_to(pool: Seq<Comment>, id: Seq<char>) -> Seq<Comment>
    decreases pool.len(),
{
    if pool.len() == 0 {
        pool
    } else if is_reply_to(pool.last(), id) {
        not_replies_to(pool.drop_last(), id)
    } else {
        not_replies_to(pool.drop_last(), id).push(pool.last())
    }
}

/// `x` goes before `y` by creation time.
pub open spec fn earlier(x: Comment, y: Comment) -> bool {
    x.created_at < y.created_at
}

/// `x` goes before `y` among top-level comments: best comments first, then
/// more likes first.
pub open spec fn ranks_before(x: Comment, y: Comment) -> bool {
    (x.is_best && !y.is_best) || (x.is_best == y.is_best && x.likes > y.likes)
}

/// The order in use: by creation time, or by rank.
pub open spec fn goes_before(by_time: bool, x: Comment, y: Comment) -> bool {
    if by_time { earlier(x, y) } else { ranks_before(x, y) }
}

/// `x` put into the ordered `s` right before the first element it goes
/// before, so that it follows every element it ties with.
pub open spec fn insert_ordered(s: Seq<Comment>, x: Comment, by_time: bool) -> Seq<Comment>
    decreases s.len(),
{
    if s.len() == 0 {
        seq![x]
    } else if goes_before(by_time, x, s[0]) {
        seq![x] + s
    } else {
        seq![s[0]] + insert_ordered(s.skip(1), x, by_time)
    }
}

/// The stable sort of `s`, by creation time or by rank: ties keep their order.
pub open spec fn stable_sort(s: Seq<Comment>, by_time: bool) -> Seq<Comment>
    decreases s.len(),
{
    if s.len() == 0 {
        s
    } else {
        insert_ordered(stable_sort(s.drop_last(), by_time), s.last(), by_time)
    }
}

/// Names a choice of intermediate results (used to point at a witness).
pub open spec fn chosen(rs: Seq<Comment>, ps: Seq<Seq<Comment>>) -> bool {
    true
}

/// Threading comment `c` with the replies left in `pool` gives `out` and
/// leaves `pool_out`. When replies to `c` are left, they are all taken out
/// (leaving `p0`), each is threaded in turn into `rs` with what remains, the
/// pool passing through `ps`, and they become the replies of `c` ordered by
/// creation time; otherwise `c` is unchanged.
pub open spec fn attach_rel(c: Comment, pool: Seq<Comment>, out: Comment, pool_out: Seq<Comment>) -> bool
    decreases pool.len(),
{
    let g = replies_to(pool, c.id@);
    let p0 = not_replies_to(pool, c.id@);
    proof {
        lemma_split_replies_len(pool, c.id@);
    }
    if g.len() == 0 {
        out == c && pool_out == pool
    } else {
        exists|rs: Seq<Comment>, ps: Seq<Seq<Comment>>| #![trigger chosen(rs, ps)] {
            &&& chosen(rs, ps)
            &&& rs.len() == g.len()
            &&& ps.len() == g.len() + 1
            &&& ps[0] == p0
            &&& pool_out == ps[g.len() as int]
            &&& forall|i: int| 0 <= i <= g.len() ==> (#[trigger] ps[i]).len() <= p0.len()
            &&& forall|i: int| #![trigger rs[i]] 0 <= i < g.len() ==> attach_rel(g[i], ps[i], rs[i], ps[i + 1])
            &&& out.replies@ == stable_sort(rs, true)
            &&& out == (Comment { replies: out.replies, ..c })
        }
    }
}

/// The comments without a parent, in order.
pub open spec fn top_level(cs: Seq<Comment>) -> Seq<Comment>
    decreases cs.len(),
{
    if cs.len() == 0 {
        cs
    } else if cs.last().parent_id is None {
        top_level(cs.drop_last()).push(cs.last())
    } else {
        top_level(cs.drop_last())
    }
}

/// The comments with a parent, in order.
pub open spec fn reply_pool(cs: Seq<Comment>) -> Seq<Comment>
    decreases cs.len(),
{
    if cs.len() == 0 {
        cs
    } else if cs.last().parent_id is Some {
        reply_pool(cs.drop_last()).push(cs.last())
    } else {
        reply_pool(cs.drop_last())
    }
}

/// `out` is the comment forest built from the flat list `cs`: the top-level
/// comments are threaded in order into `rs`, each with the replies the
/// earlier ones left (the pool passing through `ps`), then ordered best
/// first and by likes, ties keeping their order.
pub open spec fn tree_rel(cs: Seq<Comment>, out: Seq<Comment>) -> bool {
    let tops = top_level(cs);
    exists|rs: Seq<Comment>, ps: Seq<Seq<Comment>>| #![trigger chosen(rs, ps)] {
        &&& chosen(rs, ps)
        &&& rs.len() == tops.len()
        &&& ps.len() == tops.len() + 1
        &&& ps[0] == reply_pool(cs)
        &&& forall|i: int| #![trigger rs[i]] 0 <= i < tops.len() ==> attach_rel(tops[i], ps[i], rs[i], ps[i + 1])
        &&& out == stable_sort(rs, false)
    }
}

pub proof fn lemma_split_replies_len(pool: Seq<Comment>, id: Seq<char>)
    ensures
        replies_to(pool, id).len() + not_replies_to(pool, id).len() == pool.len(),
        replies_to(pool, id).len() == 0 ==> not_replies_to(pool, id) == pool,
    decreases pool.len(),
{
    if pool.len() > 0 {
        lemma_split_replies_len(pool.drop_last(), id);
        if replies_to(pool, id).len() == 0 {
            assert(not_replies_to(pool, id) =~= pool);
        }
    }
}

proof fn lemma_insert_skip(s: Seq<Comment>, x: Comment, by_time: bool, j: int)
    requires
        0 <= j <= s.len(),
        forall|i: int| 0 <= i < j ==> !goes_before(by_time, x, #[trigger] s[i]),
    ensures
        insert_ordered(s, x, by_time) == s.take(j) + insert_ordered(s.skip(j), x, by_time),
    decreases j,
{
    if j == 0 {
        assert(s.skip(0) =~= s);
        assert(s.take(0) + insert_ordered(s.skip(0), x, by_time) =~= insert_ordered(s, x, by_time));
    } else {
        let t = s.skip(1);
        assert forall|i: int| 0 <= i < j - 1 implies !goes_before(by_time, x, #[trigger] t[i]) by {
            assert(t[i] == s[i + 1]);
        }
        lemma_insert_skip(t, x, by_time, j - 1);
        assert(t.skip(j - 1) =~= s.skip(j));
        assert(seq![s[0]] + t.take(j - 1) =~= s.take(j));
    }
}

fn goes_before_exec(by_time: bool, x: &Comment, y: &Comment) -> (r: bool)
    ensures
        r == goes_before(by_time, *x, *y),
{
    if by_time {
        x.created_at < y.created_at
    } else {
        (x.is_best && !y.is_best) || (x.is_best == y.is_best && x.likes > y.likes)
    }
}

/// Insert `x` into `v` after every element it does not go before.
fn insert_by(v: &mut Vec<Comment>, x: Comment, by_time: bool)
    ensures
        final(v)@ == insert_ordered(old(v)@, x, by_time),
{
    let mut j: usize = 0;
    while j < v.len() && !goes_before_exec(by_time, &x, &v[j])
        invariant
            j <= v@.len(),
            v@ == old(v)@,
            forall|i: int| 0 <= i < j ==> !goes_before(by_time, x, #[trigger] v@[i]),
        decreases v@.len() - j,
    {
        j = j + 1;
    }
    let ghost s = v@;
    proof {
        lemma_insert_skip(s, x, by_time, j as int);
        if j < s.len() {
            assert(s.skip(j as int)[0] == s[j as int]);
            assert(insert_ordered(s.skip(j as int), x, by_time) == seq![x] + s.skip(j as int));
        } else {
            assert(s.skip(j as int) =~= Seq::<Comment>::empty());
        }
    }
    v.insert(j, x);
    proof {
        assert(v@ =~= s.take(j as int) + insert_ordered(s.skip(j as int), x, by_time));
    }
}

/// Sort by creation time (`by_time`) or by rank, stably.
fn sort_comments(v: Vec<Comment>, by_time: bool) -> (r: Vec<Comment>)
    ensures
        r@ == stable_sort(v@, by_time),
{
    let ghost all = v@;
    let mut out: Vec<Comment> = Vec::new();
    for x in it: v
        invariant
            it.seq() == all,
            out@ == stable_sort(all.take(it.index() as int), by_time),
    {
        proof {
            assert(all.take(it.index() + 1).drop_last() =~= all.take(it.index() as int));
            assert(all.take(it.index() + 1).last() == x);
        }
        insert_by(&mut out, x, by_time);
    }
    proof {
        assert(all.take(all.len() as int) =~= all);
    }
    out
}

/// The comments still in the pool, in order.
pub open spec fn left_in(v: Seq<Option<Comment>>) -> Seq<Comment>
    decreases v.len(),
{
    if v.len() == 0 {
        Seq::empty()
    } else {
        match v.last() {
            Some(c) => left_in(v.drop_last()).push(c),
            None => left_in(v.drop_last()),
        }
    }
}

/// Take the replies to `id` out of the pool.
fn take_replies(pool: &mut Vec<Option<Comment>>, id: &String) -> (g: Vec<Comment>)
    ensures
        g@ == replies_to(left_in(old(pool)@), id@),
        left_in(final(pool)@) == not_replies_to(left_in(old(pool)@), id@),
        final(pool)@.len() == old(pool)@.len(),
{
    let mut g: Vec<Comment> = Vec::new();
    let mut i: usize = 0;
    let ghost orig = pool@;
    while i < pool.len()
        invariant
            pool@.len() == orig.len(),
            orig == old(pool)@,
            i <= orig.len(),
            forall|j: int| i <= j < orig.len() ==> #[trigger] pool@[j] == orig[j],
            g@ == replies_to(left_in(orig.take(i as int)), id@),
            left_in(pool@.take(i as int)) == not_replies_to(left_in(orig.take(i as int)), id@),
        decreases orig.len() - i,
    {
        let hit = match &pool[i] {
            Some(c) => match &c.parent_id {
                Some(p) => *p == *id,
                None => false,
            },
            None => false,
        };
        let ghost before = pool@;
        let ghost l = left_in(orig.take(i as int));
        proof {
            assert(orig.take(i + 1).drop_last() =~= orig.take(i as int));
            assert(orig.take(i + 1).last() == orig[i as int]);
            assert(before[i as int] == orig[i as int]);
            match orig[i as int] {
                Some(c) => {
                    assert(left_in(orig.take(i + 1)) == l.push(c));
                    assert(l.push(c).drop_last() =~= l);
                    assert(hit == is_reply_to(c, id@));
                },
                None => {
                    assert(left_in(orig.take(i + 1)) == l);
                    assert(!hit);
                },
            }
        }
        if hit {
            let mut slot: Option<Comment> = None;
            std::mem::swap(&mut slot, &mut pool[i]);
            proof {
                assert(pool@ =~= before.update(i as int, None));
                assert(pool@.take(i + 1).drop_last() =~= before.take(i as int));
                assert(pool@.take(i + 1).last() == None::<Comment>);
            }
            match slot {
                Some(c) => g.push(c),
                None => {},
            }
        } else {
            proof {
                assert(pool@.take(i + 1).drop_last() =~= pool@.take(i as int));
                assert(pool@.take(i + 1).last() == orig[i as int]);
                match orig[i as int] {
                    Some(c) => {
                        let n = not_replies_to(l, id@);
                        assert(n.push(c).drop_last() =~= n);
                    },
                    None => {},
                }
            }
        }
        i = i + 1;
    }
    proof {
        assert(orig.take(orig.len() as int) =~= orig);
        assert(pool@.take(orig.len() as int) =~= pool@);
    }
    g
}

/// Thread comment `c` with the replies left in the pool.
fn attach_replies(c: Comment, pool: &mut Vec<Option<Comment>>) -> (r: Comment)
    ensures
        attach_rel(c, left_in(old(pool)@), r, left_in(final(pool)@)),
        left_in(final(pool)@).len() <= left_in(old(pool)@).len(),
        final(pool)@.len() == old(pool)@.len(),
    decreases left_in(old(pool)@).len(),
{
    let mut c = c;
    let ghost c0 = c;
    let ghost start = left_in(pool@);
    let g = take_replies(pool, &c.id);
    proof {
        lemma_split_replies_len(start, c.id@);
    }
    if g.len() == 0 {
        return c;
    }
    let ghost gs = g@;
    let ghost p0 = left_in(pool@);
    let mut rs: Vec<Comment> = Vec::new();
    let ghost mut ps: Seq<Seq<Comment>> = seq![p0];
    for child in it: g
        invariant
            it.seq() == gs,
            gs == replies_to(start, c0.id@),
            p0 == not_replies_to(start, c0.id@),
            p0.len() < start.len(),
            start == left_in(old(pool)@),
            rs@.len() == it.index(),
            ps.len() == it.index() + 1,
            ps[0] == p0,
            ps[it.index() as int] == left_in(pool@),
            left_in(pool@).len() <= p0.len(),
            pool@.len() == old(pool)@.len(),
            forall|i: int| 0 <= i <= it.index() ==> (#[trigger] ps[i]).len() <= p0.len(),
            forall|i: int| #![trigger rs@[i]] 0 <= i < it.index() ==> attach_rel(gs[i], ps[i], rs@[i], ps[i + 1]),
    {
        let ghost k = it.index() as int;
        let ghost old_rs = rs@;
        let ghost old_ps = ps;
        let ghost pre = left_in(pool@);
        assert(old_ps[k] == pre && pre.len() <= p0.len());
        let r = attach_replies(child, pool);
        rs.push(r);
        proof {
            ps = ps.push(left_in(pool@));
            assert forall|i: int| 0 <= i <= k + 1 implies (#[trigger] ps[i]).len() <= p0.len() by {
                if i <= k {
                    assert(ps[i] == old_ps[i]);
                }
            }
            assert forall|i: int| #![trigger rs@[i]] 0 <= i < k + 1 implies attach_rel(gs[i], ps[i], rs@[i], ps[i + 1]) by {
                if i < k {
                    assert(rs@[i] == old_rs[i]);
                    assert(ps[i] == old_ps[i]);
                    assert(ps[i + 1] == old_ps[i + 1]);
                } else {
                    assert(rs@[i] == r);
                    assert(gs[i] == child);
                    assert(ps[i] == old_ps[i]);
                    assert(ps[i + 1] == left_in(pool@));
                }
            }
        }
    }
    let ghost rseq = rs@;
    let sorted = sort_comments(rs, true);
    c.replies = sorted;
    proof {
        assert(chosen(rseq, ps));
        assert(attach_rel(c0, start, c, left_in(pool@)));
    }
    c
}

/// Build a comment tree from a flat list.
///
/// Replies are attached under their parents, ordered by creation time;
/// top-level comments come best first, then by likes, ties keeping their
/// order. Replies whose parent is not reached are left out.
pub fn build_comment_tree(comments: Vec<Comment>) -> (r: Vec<Comment>)
    ensures
        tree_rel(comments@, r@),
{
    let ghost cs = comments@;
    let mut tops: Vec<Comment> = Vec::new();
    let mut pool: Vec<Option<Comment>> = Vec::new();
    for c in it: comments
        invariant
            it.seq() == cs,
            tops@ == top_level(cs.take(it.index() as int)),
            left_in(pool@) == reply_pool(cs.take(it.index() as int)),
    {
        proof {
            assert(cs.take(it.index() + 1).drop_last() =~= cs.take(it.index() as int));
            assert(cs.take(it.index() + 1).last() == c);
        }
        let ghost before = pool@;
        if c.parent_id.is_some() {
            pool.push(Some(c));
            proof {
                assert(pool@.drop_last() =~= before);
            }
        } else {
            tops.push(c);
        }
    }
    proof {
        assert(cs.take(cs.len() as int) =~= cs);
    }
    let ghost tseq = tops@;
    let mut rs: Vec<Comment> = Vec::new();
    let ghost mut ps: Seq<Seq<Comment>> = seq![left_in(pool@)];
    for t in it: tops
        invariant
            it.seq() == tseq,
            tseq == top_level(cs),
            rs@.len() == it.index(),
            ps.len() == it.index() + 1,
            ps[0] == reply_pool(cs),
            ps[it.index() as int] == left_in(pool@),
            forall|i: int| #![trigger rs@[i]] 0 <= i < it.index() ==> attach_rel(tseq[i], ps[i], rs@[i], ps[i + 1]),
    {
        let ghost k = it.index() as int;
        let ghost old_rs = rs@;
        let ghost old_ps = ps;
        let r = attach_replies(t, &mut pool);
        rs.push(r);
        proof {
            ps = ps.push(left_in(pool@));
            assert forall|i: int| #![trigger rs@[i]] 0 <= i < k + 1 implies attach_rel(tseq[i], ps[i], rs@[i], ps[i + 1]) by {
                if i < k {
                    assert(rs@[i] == old_rs[i]);
                    assert(ps[i] == old_ps[i]);
                    assert(ps[i + 1] == old_ps[i + 1]);
                } else {
                    assert(rs@[i] == r);
                    assert(tseq[i] == t);
                    assert(ps[i] == old_ps[i]);
                    assert(ps[i + 1] == left_in(pool@));
                }
            }
        }
    }
    let ghost rseq = rs@;
    let out = sort_comments(rs, false);
    proof {
        assert(chosen(rseq, ps));
    }
    out
}


/// No later element of `s` goes strictly before an earlier one.
pub open spec fn is_ordered(s: Seq<Comment>, by_time: bool) -> bool {
    forall|i: int, j: int| 0 <= i < j < s.len() ==> !goes_before(by_time, #[trigger] s[j], #[trigger] s[i])
}

proof fn lemma_goes_before_order(by_time: bool, a: Comment, b: Comment, c: Comment)
    ensures
        goes_before(by_time, a, b) ==> !goes_before(by_time, b, a),
        goes_before(by_time, a, b) && goes_before(by_time, b, c) ==> goes_before(by_time, a, c),
{
}

proof fn lemma_insert_ordered(s: Seq<Comment>, x: Comment, by_time: bool)
    requires
        is_ordered(s, by_time),
    ensures
        is_ordered(insert_ordered(s, x, by_time), by_time),
        insert_ordered(s, x, by_time).len() == s.len() + 1,
        insert_ordered(s, x, by_time).to_multiset() == s.to_multiset().insert(x),
    decreases s.len(),
{
    broadcast use vstd::seq_lib::group_to_multiset_ensures;
    let r = insert_ordered(s, x, by_time);
    if s.len() == 0 {
        assert(r =~= seq![x]);
        assert(seq![x] =~= Seq::<Comment>::empty().push(x));
    } else if goes_before(by_time, x, s[0]) {
        assert(r =~= seq![x] + s);
        assert forall|i: int, j: int| 0 <= i < j < r.len() implies !goes_before(by_time, #[trigger] r[j], #[trigger] r[i]) by {
            if i == 0 {
                lemma_goes_before_order(by_time, r[j], x, s[0]);
                lemma_goes_before_order(by_time, x, s[0], s[0]);
                if j > 1 {
                    assert(!goes_before(by_time, s[j - 1], s[0]));
                }
            } else {
                assert(r[i] == s[i - 1] && r[j] == s[j - 1]);
            }
        }
        vstd::seq_lib::lemma_multiset_commutative(seq![x], s);
        assert(seq![x].to_multiset() =~= vstd::multiset::Multiset::<Comment>::empty().insert(x)) by {
            assert(seq![x] =~= Seq::<Comment>::empty().push(x));
        }
    } else {
        let t = s.skip(1);
        assert forall|i: int, j: int| 0 <= i < j < t.len() implies !goes_before(by_time, #[trigger] t[j], #[trigger] t[i]) by {
            assert(t[i] == s[i + 1] && t[j] == s[j + 1]);
        }
        lemma_insert_ordered(t, x, by_time);
        let u = insert_ordered(t, x, by_time);
        assert(r =~= seq![s[0]] + u);
        assert forall|i: int, j: int| 0 <= i < j < r.len() implies !goes_before(by_time, #[trigger] r[j], #[trigger] r[i]) by {
            if i == 0 {
                assert(r[j] == u[j - 1]);
                assert(u.to_multiset().count(u[j - 1]) > 0);
                assert(u.to_multiset() == t.to_multiset().insert(x));
                if u[j - 1] != x {
                    assert(t.to_multiset().count(u[j - 1]) > 0);
                    assert(t.contains(u[j - 1]));
                    let k = choose|k: int| 0 <= k < t.len() && t[k] == u[j - 1];
                    assert(s[k + 1] == t[k]);
                }
            } else {
                assert(r[i] == u[i - 1] && r[j] == u[j - 1]);
            }
        }
        vstd::seq_lib::lemma_multiset_commutative(seq![s[0]], u);
        vstd::seq_lib::lemma_multiset_commutative(seq![s[0]], t);
        assert(s =~= seq![s[0]] + t);
    }
}

/// A stable sort puts its elements in order, keeping every element.
pub proof fn stable_sort_orders_and_keeps(s: Seq<Comment>, by_time: bool)
    ensures
        is_ordered(stable_sort(s, by_time), by_time),
        stable_sort(s, by_time).len() == s.len(),
        stable_sort(s, by_time).to_multiset() == s.to_multiset(),
    decreases s.len(),
{
    broadcast use vstd::seq_lib::group_to_multiset_ensures;
    if s.len() > 0 {
        stable_sort_orders_and_keeps(s.drop_last(), by_time);
        lemma_insert_ordered(stable_sort(s.drop_last(), by_time), s.last(), by_time);
        assert(s =~= s.drop_last().push(s.last()));
    }
}

/// `y` is `x` with, at most, other replies.
pub open spec fn same_but_replies(x: Comment, y: Comment) -> bool {
    (Comment { replies: y.replies, ..x }) == y
}

/// Two lists of comments that agree one by one except for replies.
pub open spec fn agree_but_replies(a: Seq<Comment>, b: Seq<Comment>) -> bool {
    &&& a.len() == b.len()
    &&& forall|i: int| 0 <= i < a.len() ==> same_but_replies(#[trigger] a[i], b[i])
}

proof fn lemma_insert_agrees(a: Seq<Comment>, b: Seq<Comment>, x: Comment, y: Comment, by_time: bool)
    requires
        agree_but_replies(a, b),
        same_but_replies(x, y),
    ensures
        agree_but_replies(insert_ordered(a, x, by_time), insert_ordered(b, y, by_time)),
    decreases a.len(),
{
    if a.len() > 0 {
        assert(same_but_replies(a[0], b[0]));
        if goes_before(by_time, x, a[0]) {
            assert(goes_before(by_time, y, b[0]));
            let l = seq![x] + a;
            let r = seq![y] + b;
            assert forall|i: int| 0 <= i < l.len() implies same_but_replies(#[trigger] l[i], r[i]) by {
                if i > 0 {
                    assert(l[i] == a[i - 1] && r[i] == b[i - 1]);
                }
            }
        } else {
            assert(!goes_before(by_time, y, b[0]));
            let a1 = a.skip(1);
            let b1 = b.skip(1);
            assert forall|i: int| 0 <= i < a1.len() implies same_but_replies(#[trigger] a1[i], b1[i]) by {
                assert(a1[i] == a[i + 1] && b1[i] == b[i + 1]);
            }
            lemma_insert_agrees(a1, b1, x, y, by_time);
            let ia = insert_ordered(a1, x, by_time);
            let ib = insert_ordered(b1, y, by_time);
            let l = seq![a[0]] + ia;
            let r = seq![b[0]] + ib;
            assert forall|i: int| 0 <= i < l.len() implies same_but_replies(#[trigger] l[i], r[i]) by {
                if i > 0 {
                    assert(l[i] == ia[i - 1] && r[i] == ib[i - 1]);
                }
            }
        }
    }
}

proof fn lemma_sort_agrees(a: Seq<Comment>, b: Seq<Comment>, by_time: bool)
    requires
        agree_but_replies(a, b),
    ensures
        agree_but_replies(stable_sort(a, by_time), stable_sort(b, by_time)),
    decreases a.len(),
{
    if a.len() > 0 {
        let a1 = a.drop_last();
        let b1 = b.drop_last();
        assert forall|i: int| 0 <= i < a1.len() implies same_but_replies(#[trigger] a1[i], b1[i]) by {
            assert(a1[i] == a[i] && b1[i] == b[i]);
        }
        lemma_sort_agrees(a1, b1, by_time);
        assert(same_but_replies(a.last(), b.last()));
        lemma_insert_agrees(stable_sort(a1, by_time), stable_sort(b1, by_time), a.last(), b.last(), by_time);
    }
}

/// The top of the comment tree is the top-level comments, best first and
/// then by likes, ties keeping their order: apart from the replies attached
/// to them, the result is the stable ranking of the comments without a
/// parent.
pub proof fn tree_top_is_ranked_top_level(cs: Seq<Comment>, out: Seq<Comment>)
    requires
        tree_rel(cs, out),
    ensures
        agree_but_replies(stable_sort(top_level(cs), false), out),
{
    let tops = top_level(cs);
    let (rs, ps) = choose|rs: Seq<Comment>, ps: Seq<Seq<Comment>>| {
        &&& chosen(rs, ps)
        &&& rs.len() == tops.len()
        &&& ps.len() == tops.len() + 1
        &&& ps[0] == reply_pool(cs)
        &&& forall|i: int| #![trigger rs[i]] 0 <= i < tops.len() ==> attach_rel(tops[i], ps[i], rs[i], ps[i + 1])
        &&& out == stable_sort(rs, false)
    };
    assert forall|i: int| 0 <= i < tops.len() implies same_but_replies(#[trigger] tops[i], rs[i]) by {
        assert(attach_rel(tops[i], ps[i], rs[i], ps[i + 1]));
        lemma_split_replies_len(ps[i], tops[i].id@);
        if replies_to(ps[i], tops[i].id@).len() == 0 {
            assert(rs[i] == tops[i]);
        } else {
            let g = replies_to(ps[i], tops[i].id@);
            let (rr, pp) = choose|rr: Seq<Comment>, pp: Seq<Seq<Comment>>| #![trigger chosen(rr, pp)] {
                &&& chosen(rr, pp)
                &&& rr.len() == g.len()
                &&& pp.len() == g.len() + 1
                &&& pp[0] == not_replies_to(ps[i], tops[i].id@)
                &&& ps[i + 1] == pp[g.len() as int]
                &&& forall|k: int| 0 <= k <= g.len() ==> (#[trigger] pp[k]).len() <= pp[0].len()
                &&& forall|k: int| #![trigger rr[k]] 0 <= k < g.len() ==> attach_rel(g[k], pp[k], rr[k], pp[k + 1])
                &&& rs[i].replies@ == stable_sort(rr, true)
                &&& rs[i] == (Comment { replies: rs[i].replies, ..tops[i] })
            };
        }
    }
    lemma_sort_agrees(tops, rs, false);
}

/// Down to `depth` levels below `c`, every reply replies to the comment it
/// is attached to.
pub open spec fn threaded(c: Comment, depth: nat) -> bool
    decreases depth,
{
    depth == 0 || forall|i: int|
        0 <= i < c.replies@.len() ==> is_reply_to(#[trigger] c.replies@[i], c.id@) && threaded(
            c.replies@[i],
            (depth - 1) as nat,
        )
}

/// No comment of `s` carries replies yet.
pub open spec fn no_replies(s: Seq<Comment>) -> bool {
    forall|i: int| 0 <= i < s.len() ==> (#[trigger] s[i]).replies@.len() == 0
}

proof fn lemma_replies_to_reply(pool: Seq<Comment>, id: Seq<char>)
    ensures
        forall|i: int| 0 <= i < replies_to(pool, id).len() ==> is_reply_to(#[trigger] replies_to(pool, id)[i], id),
        no_replies(pool) ==> no_replies(replies_to(pool, id)) && no_replies(not_replies_to(pool, id)),
    decreases pool.len(),
{
    if pool.len() > 0 {
        let rest = pool.drop_last();
        lemma_replies_to_reply(rest, id);
        let g = replies_to(pool, id);
        let h = not_replies_to(pool, id);
        assert forall|i: int| 0 <= i < g.len() implies is_reply_to(#[trigger] g[i], id) by {
            if i < replies_to(rest, id).len() {
                assert(g[i] == replies_to(rest, id)[i]);
            }
        }
        if no_replies(pool) {
            assert(no_replies(rest)) by {
                assert forall|i: int| 0 <= i < rest.len() implies (#[trigger] rest[i]).replies@.len() == 0 by {
                    assert(rest[i] == pool[i]);
                }
            }
            assert forall|i: int| 0 <= i < g.len() implies (#[trigger] g[i]).replies@.len() == 0 by {
                if i < replies_to(rest, id).len() {
                    assert(g[i] == replies_to(rest, id)[i]);
                } else {
                    assert(g[i] == pool.last());
                }
            }
            assert forall|i: int| 0 <= i < h.len() implies (#[trigger] h[i]).replies@.len() == 0 by {
                if i < not_replies_to(rest, id).len() {
                    assert(h[i] == not_replies_to(rest, id)[i]);
                } else {
                    assert(h[i] == pool.last());
                }
            }
        }
    }
}

proof fn lemma_top_level_has_no_parent(cs: Seq<Comment>)
    ensures
        forall|i: int| 0 <= i < top_level(cs).len() ==> (#[trigger] top_level(cs)[i]).parent_id is None,
        no_replies(cs) ==> no_replies(top_level(cs)) && no_replies(reply_pool(cs)),
    decreases cs.len(),
{
    if cs.len() > 0 {
        let rest = cs.drop_last();
        lemma_top_level_has_no_parent(rest);
        let t = top_level(cs);
        let q = reply_pool(cs);
        assert forall|i: int| 0 <= i < t.len() implies (#[trigger] t[i]).parent_id is None by {
            if i < top_level(rest).len() {
                assert(t[i] == top_level(rest)[i]);
            }
        }
        if no_replies(cs) {
            assert(no_replies(rest)) by {
                assert forall|i: int| 0 <= i < rest.len() implies (#[trigger] rest[i]).replies@.len() == 0 by {
                    assert(rest[i] == cs[i]);
                }
            }
            assert forall|i: int| 0 <= i < t.len() implies (#[trigger] t[i]).replies@.len() == 0 by {
                if i < top_level(rest).len() {
                    assert(t[i] == top_level(rest)[i]);
                } else {
                    assert(t[i] == cs.last());
                }
            }
            assert forall|i: int| 0 <= i < q.len() implies (#[trigger] q[i]).replies@.len() == 0 by {
                if i < reply_pool(rest).len() {
                    assert(q[i] == reply_pool(rest)[i]);
                } else {
                    assert(q[i] == cs.last());
                }
            }
        }
    }
}

proof fn lemma_sorted_member(rs: Seq<Comment>, by_time: bool, j: int) -> (i: int)
    requires
        0 <= j < stable_sort(rs, by_time).len(),
    ensures
        0 <= i < rs.len(),
        rs[i] == stable_sort(rs, by_time)[j],
{
    stable_sort_orders_and_keeps(rs, by_time);
    let sorted = stable_sort(rs, by_time);
    let x = sorted[j];
    sorted.to_multiset_ensures();
    rs.to_multiset_ensures();
    assert(sorted.contains(x));
    assert(sorted.to_multiset().count(x) > 0);
    assert(rs.to_multiset().count(x) > 0);
    assert(rs.contains(x));
    choose|i: int| 0 <= i < rs.len() && rs[i] == x
}

proof fn lemma_pool_chain(ps: Seq<Seq<Comment>>, n: int)
    requires
        0 <= n < ps.len(),
        no_replies(ps[0]),
        forall|k: int| 0 <= k < n ==> no_replies(#[trigger] ps[k]) ==> no_replies(ps[k + 1]),
    ensures
        forall|k: int| 0 <= k <= n ==> no_replies(#[trigger] ps[k]),
    decreases n,
{
    if n > 0 {
        lemma_pool_chain(ps, n - 1);
        assert(no_replies(ps[n - 1]));
    }
}

proof fn lemma_attach_threaded(c: Comment, pool: Seq<Comment>, out: Comment, pool_out: Seq<Comment>, depth: nat)
    requires
        attach_rel(c, pool, out, pool_out),
    ensures
        same_but_replies(c, out),
        no_replies(pool) ==> no_replies(pool_out),
        no_replies(pool) && c.replies@.len() == 0 ==> threaded(out, depth),
    decreases pool.len(),
{
    let g = replies_to(pool, c.id@);
    let p0 = not_replies_to(pool, c.id@);
    lemma_split_replies_len(pool, c.id@);
    lemma_replies_to_reply(pool, c.id@);
    if g.len() > 0 {
        let (rs, ps) = choose|rs: Seq<Comment>, ps: Seq<Seq<Comment>>| #![trigger chosen(rs, ps)] {
            &&& chosen(rs, ps)
            &&& rs.len() == g.len()
            &&& ps.len() == g.len() + 1
            &&& ps[0] == p0
            &&& pool_out == ps[g.len() as int]
            &&& forall|k: int| 0 <= k <= g.len() ==> (#[trigger] ps[k]).len() <= p0.len()
            &&& forall|k: int| #![trigger rs[k]] 0 <= k < g.len() ==> attach_rel(g[k], ps[k], rs[k], ps[k + 1])
            &&& out.replies@ == stable_sort(rs, true)
            &&& out == (Comment { replies: out.replies, ..c })
        };
        if no_replies(pool) {
            assert forall|k: int| 0 <= k < g.len() && no_replies(#[trigger] ps[k]) implies no_replies(ps[k + 1]) by {
                assert(attach_rel(g[k], ps[k], rs[k], ps[k + 1]));
                assert(ps[k].len() <= p0.len());
                lemma_attach_threaded(g[k], ps[k], rs[k], ps[k + 1], 0);
            }
            lemma_pool_chain(ps, g.len() as int);
            if depth > 0 && c.replies@.len() == 0 {
                assert forall|j: int| 0 <= j < out.replies@.len() implies is_reply_to(
                    #[trigger] out.replies@[j],
                    out.id@,
                ) && threaded(out.replies@[j], (depth - 1) as nat) by {
                    let i = lemma_sorted_member(rs, true, j);
                    assert(attach_rel(g[i], ps[i], rs[i], ps[i + 1]));
                    assert(ps[i].len() <= p0.len());
                    assert(no_replies(ps[i]));
                    assert(g[i].replies@.len() == 0);
                    lemma_attach_threaded(g[i], ps[i], rs[i], ps[i + 1], (depth - 1) as nat);
                    assert(is_reply_to(g[i], c.id@));
                }
            }
        }
    }
}

/// The comment tree is threaded: built from comments that carry no replies
/// yet, the comments at its top have no parent, and at every depth each
/// reply replies to the comment it is attached to.
pub proof fn tree_replies_are_threaded(cs: Seq<Comment>, out: Seq<Comment>, depth: nat)
    requires
        no_replies(cs),
        tree_rel(cs, out),
    ensures
        forall|i: int| 0 <= i < out.len() ==> (#[trigger] out[i]).parent_id is None && threaded(out[i], depth),
{
    let tops = top_level(cs);
    let (rs, ps) = choose|rs: Seq<Comment>, ps: Seq<Seq<Comment>>| {
        &&& chosen(rs, ps)
        &&& rs.len() == tops.len()
        &&& ps.len() == tops.len() + 1
        &&& ps[0] == reply_pool(cs)
        &&& forall|i: int| #![trigger rs[i]] 0 <= i < tops.len() ==> attach_rel(tops[i], ps[i], rs[i], ps[i + 1])
        &&& out == stable_sort(rs, false)
    };
    lemma_top_level_has_no_parent(cs);
    assert forall|k: int| 0 <= k < tops.len() && no_replies(#[trigger] ps[k]) implies no_replies(ps[k + 1]) by {
        assert(attach_rel(tops[k], ps[k], rs[k], ps[k + 1]));
        lemma_attach_threaded(tops[k], ps[k], rs[k], ps[k + 1], 0);
    }
    lemma_pool_chain(ps, tops.len() as int);
    assert forall|j: int| 0 <= j < out.len() implies (#[trigger] out[j]).parent_id is None && threaded(
        out[j],
        depth,
    ) by {
        let i = lemma_sorted_member(rs, false, j);
        assert(attach_rel(tops[i], ps[i], rs[i], ps[i + 1]));
        assert(no_replies(ps[i]));
        assert(tops[i].replies@.len() == 0);
        lemma_attach_threaded(tops[i], ps[i], rs[i], ps[i + 1], depth);
    }
}

/// No two comments of `s` share an id.
pub open spec fn ids_unique(s: Seq<Comment>) -> bool {
    forall|i: int, j: int| 0 <= i < j < s.len() ==> (#[trigger] s[i]).id@ != (#[trigger] s[j]).id@
}

proof fn lemma_same_id_same_comment(s: Seq<Comment>, a: Comment, b: Comment)
    requires
        ids_unique(s),
        s.contains(a),
        s.contains(b),
        a.id@ == b.id@,
    ensures
        a == b,
{
    let i = choose|i: int| 0 <= i < s.len() && s[i] == a;
    let j = choose|j: int| 0 <= j < s.len() && s[j] == b;
    if i < j {
        assert(s[i].id@ != s[j].id@);
    } else if j < i {
        assert(s[j].id@ != s[i].id@);
    }
}

proof fn lemma_split_members(pool: Seq<Comment>, id: Seq<char>)
    ensures
        forall|i: int| 0 <= i < replies_to(pool, id).len() ==> pool.contains(#[trigger] replies_to(pool, id)[i]),
        forall|i: int| 0 <= i < not_replies_to(pool, id).len() ==> pool.contains(
            #[trigger] not_replies_to(pool, id)[i],
        ) && !is_reply_to(not_replies_to(pool, id)[i], id),
        ids_unique(pool) ==> ids_unique(replies_to(pool, id)) && ids_unique(not_replies_to(pool, id)),
    decreases pool.len(),
{
    if pool.len() > 0 {
        let rest = pool.drop_last();
        lemma_split_members(rest, id);
        let g = replies_to(pool, id);
        let h = not_replies_to(pool, id);
        let g1 = replies_to(rest, id);
        let h1 = not_replies_to(rest, id);
        assert forall|i: int| 0 <= i < g.len() implies pool.contains(#[trigger] g[i]) by {
            if i < g1.len() {
                assert(g[i] == g1[i]);
                let k = choose|k: int| 0 <= k < rest.len() && rest[k] == g1[i];
                assert(pool[k] == rest[k]);
            } else {
                assert(g[i] == pool[pool.len() - 1]);
            }
        }
        assert forall|i: int| 0 <= i < h.len() implies pool.contains(#[trigger] h[i]) && !is_reply_to(h[i], id) by {
            if i < h1.len() {
                assert(h[i] == h1[i]);
                let k = choose|k: int| 0 <= k < rest.len() && rest[k] == h1[i];
                assert(pool[k] == rest[k]);
            } else {
                assert(h[i] == pool[pool.len() - 1]);
            }
        }
        if ids_unique(pool) {
            assert(ids_unique(rest)) by {
                assert forall|i: int, j: int| 0 <= i < j < rest.len() implies (#[trigger] rest[i]).id@
                    != (#[trigger] rest[j]).id@ by {
                    assert(rest[i] == pool[i] && rest[j] == pool[j]);
                }
            }
            let last = pool.last();
            assert forall|i: int| 0 <= i < g1.len() implies (#[trigger] g1[i]).id@ != last.id@ by {
                let k = choose|k: int| 0 <= k < rest.len() && rest[k] == g1[i];
                assert(pool[k] == rest[k]);
                assert(pool[k].id@ != pool[pool.len() - 1].id@);
            }
            assert forall|i: int| 0 <= i < h1.len() implies (#[trigger] h1[i]).id@ != last.id@ by {
                let k = choose|k: int| 0 <= k < rest.len() && rest[k] == h1[i];
                assert(pool[k] == rest[k]);
                assert(pool[k].id@ != pool[pool.len() - 1].id@);
            }
            assert forall|i: int, j: int| 0 <= i < j < g.len() implies (#[trigger] g[i]).id@
                != (#[trigger] g[j]).id@ by {
                if j < g1.len() {
                    assert(g[i] == g1[i] && g[j] == g1[j]);
                } else {
                    assert(g[i] == g1[i]);
                }
            }
            assert forall|i: int, j: int| 0 <= i < j < h.len() implies (#[trigger] h[i]).id@
                != (#[trigger] h[j]).id@ by {
                if j < h1.len() {
                    assert(h[i] == h1[i] && h[j] == h1[j]);
                } else {
                    assert(h[i] == h1[i]);
                }
            }
        }
    }
}

proof fn lemma_filters_commute(pool: Seq<Comment>, a: Seq<char>, x: Seq<char>)
    requires
        x != a,
    ensures
        replies_to(not_replies_to(pool, a), x) == replies_to(pool, x),
    decreases pool.len(),
{
    if pool.len() > 0 {
        let rest = pool.drop_last();
        lemma_filters_commute(rest, a, x);
        let last = pool.last();
        if is_reply_to(last, a) {
            assert(!is_reply_to(last, x));
        } else {
            assert(not_replies_to(pool, a) == not_replies_to(rest, a).push(last));
            assert(not_replies_to(pool, a).drop_last() =~= not_replies_to(rest, a));
        }
    }
}

/// Every comment of `a` is one of `b`.
pub open spec fn within(a: Seq<Comment>, b: Seq<Comment>) -> bool {
    forall|i: int| 0 <= i < a.len() ==> b.contains(#[trigger] a[i])
}

proof fn lemma_within_trans(a: Seq<Comment>, b: Seq<Comment>, c: Seq<Comment>)
    requires
        within(a, b),
        within(b, c),
    ensures
        within(a, c),
{
    assert forall|i: int| 0 <= i < a.len() implies c.contains(#[trigger] a[i]) by {
        assert(b.contains(a[i]));
        let k = choose|k: int| 0 <= k < b.len() && b[k] == a[i];
        assert(c.contains(b[k]));
    }
}

proof fn lemma_within_self(a: Seq<Comment>)
    ensures
        within(a, a),
{
    assert forall|i: int| 0 <= i < a.len() implies a.contains(#[trigger] a[i]) by {
        assert(a[i] == a[i]);
    }
}

proof fn lemma_within_chain(ps: Seq<Seq<Comment>>, n: int)
    requires
        0 <= n < ps.len(),
        forall|m: int| #![trigger ps[m]] 0 <= m < n ==> within(ps[m + 1], ps[m]),
    ensures
        forall|i: int, j: int| 0 <= i <= j <= n ==> within(#[trigger] ps[j], #[trigger] ps[i]),
    decreases n,
{
    if n > 0 {
        lemma_within_chain(ps, n - 1);
        assert forall|i: int, j: int| 0 <= i <= j <= n implies within(#[trigger] ps[j], #[trigger] ps[i]) by {
            if j == n {
                if i == n {
                    lemma_within_self(ps[n]);
                } else {
                    assert(within(ps[n], ps[n - 1]));
                    assert(within(ps[n - 1], ps[i]));
                    lemma_within_trans(ps[n], ps[n - 1], ps[i]);
                }
            }
        }
    } else {
        lemma_within_self(ps[0]);
    }
}

proof fn lemma_unique_chain(ps: Seq<Seq<Comment>>, n: int)
    requires
        0 <= n < ps.len(),
        ids_unique(ps[0]),
        forall|m: int| #![trigger ps[m]] 0 <= m < n ==> ids_unique(ps[m]) ==> ids_unique(ps[m + 1]),
    ensures
        forall|k: int| 0 <= k <= n ==> ids_unique(#[trigger] ps[k]),
    decreases n,
{
    if n > 0 {
        lemma_unique_chain(ps, n - 1);
        assert(ids_unique(ps[n - 1]));
    }
}

proof fn lemma_replies_chain(ps: Seq<Seq<Comment>>, x: Seq<char>, n: int)
    requires
        0 <= n < ps.len(),
        forall|m: int| #![trigger ps[m]] 0 <= m < n ==> replies_to(ps[m + 1], x) == replies_to(ps[m], x),
    ensures
        replies_to(ps[n], x) == replies_to(ps[0], x),
    decreases n,
{
    if n > 0 {
        lemma_replies_chain(ps, x, n - 1);
        assert(replies_to(ps[n], x) == replies_to(ps[n - 1], x));
    }
}

/// Attaching replies to `c` keeps some of the pool's comments, and leaves
/// alone the replies to every id other than `c`'s and those of the comments
/// it took.
proof fn lemma_attach_pools(c: Comment, pool: Seq<Comment>, out: Comment, pool_out: Seq<Comment>)
    requires
        attach_rel(c, pool, out, pool_out),
    ensures
        within(pool_out, pool),
        ids_unique(pool) ==> ids_unique(pool_out),
        forall|x: Seq<char>|
            #![trigger replies_to(pool_out, x)]
            x != c.id@ && (forall|k: int| 0 <= k < pool.len() && (#[trigger] pool[k]).id@ == x ==> pool_out.contains(pool[k]))
                ==> replies_to(pool_out, x) == replies_to(pool, x),
    decreases pool.len(),
{
    let g = replies_to(pool, c.id@);
    let p0 = not_replies_to(pool, c.id@);
    lemma_split_replies_len(pool, c.id@);
    lemma_replies_to_reply(pool, c.id@);
    lemma_split_members(pool, c.id@);
    if g.len() == 0 {
        lemma_within_self(pool);
    } else {
        let (rs, ps) = choose|rs: Seq<Comment>, ps: Seq<Seq<Comment>>| #![trigger chosen(rs, ps)] {
            &&& chosen(rs, ps)
            &&& rs.len() == g.len()
            &&& ps.len() == g.len() + 1
            &&& ps[0] == p0
            &&& pool_out == ps[g.len() as int]
            &&& forall|k: int| 0 <= k <= g.len() ==> (#[trigger] ps[k]).len() <= p0.len()
            &&& forall|k: int| #![trigger rs[k]] 0 <= k < g.len() ==> attach_rel(g[k], ps[k], rs[k], ps[k + 1])
            &&& out.replies@ == stable_sort(rs, true)
            &&& out == (Comment { replies: out.replies, ..c })
        };
        let n = g.len() as int;
        assert forall|m: int| #![trigger ps[m]] 0 <= m < n implies {
            &&& within(ps[m + 1], ps[m])
            &&& (ids_unique(ps[m]) ==> ids_unique(ps[m + 1]))
            &&& forall|x: Seq<char>|
                #![trigger replies_to(ps[m + 1], x)]
                x != g[m].id@ && (forall|k: int| 0 <= k < ps[m].len() && (#[trigger] ps[m][k]).id@ == x ==> ps[m + 1].contains(ps[m][k]))
                    ==> replies_to(ps[m + 1], x) == replies_to(ps[m], x)
        } by {
            assert(attach_rel(g[m], ps[m], rs[m], ps[m + 1]));
            assert(ps[m].len() <= p0.len());
            lemma_attach_pools(g[m], ps[m], rs[m], ps[m + 1]);
        }
        lemma_within_chain(ps, n);
        assert(within(p0, pool));
        assert(within(pool_out, p0));
        lemma_within_trans(pool_out, p0, pool);
        if ids_unique(pool) {
            lemma_unique_chain(ps, n);
        }
        assert forall|x: Seq<char>|
            #![trigger replies_to(pool_out, x)]
            x != c.id@ && (forall|k: int| 0 <= k < pool.len() && (#[trigger] pool[k]).id@ == x ==> pool_out.contains(pool[k]))
                implies replies_to(pool_out, x) == replies_to(pool, x) by {
            assert forall|m: int| #![trigger ps[m]] 0 <= m < n implies replies_to(ps[m + 1], x) == replies_to(ps[m], x) by {
                if x == g[m].id@ {
                    assert(pool.contains(g[m]));
                    let k = choose|k: int| 0 <= k < pool.len() && pool[k] == g[m];
                    assert(pool[k].id@ == x);
                    assert(pool_out.contains(g[m]));
                    assert(within(pool_out, p0));
                    let t = choose|t: int| 0 <= t < pool_out.len() && pool_out[t] == g[m];
                    assert(p0.contains(pool_out[t]));
                    let u = choose|u: int| 0 <= u < p0.len() && p0[u] == g[m];
                    assert(!is_reply_to(p0[u], c.id@));
                    assert(is_reply_to(g[m], c.id@));
                }
                assert forall|k: int| 0 <= k < ps[m].len() && (#[trigger] ps[m][k]).id@ == x implies ps[m + 1].contains(
                    ps[m][k],
                ) by {
                    assert(within(ps[m], ps[0]));
                    assert(p0.contains(ps[m][k]));
                    let u = choose|u: int| 0 <= u < p0.len() && p0[u] == ps[m][k];
                    assert(pool.contains(p0[u]));
                    let v = choose|v: int| 0 <= v < pool.len() && pool[v] == p0[u];
                    assert(pool[v].id@ == x);
                    assert(pool_out.contains(pool[v]));
                    assert(within(ps[n], ps[m + 1]));
                    let t = choose|t: int| 0 <= t < pool_out.len() && pool_out[t] == pool[v];
                    assert(ps[m + 1].contains(pool_out[t]));
                }
            }
            lemma_replies_chain(ps, x, n);
            lemma_filters_commute(pool, c.id@, x);
        }
    }
}

/// Down to `depth` levels below `c`, the replies of each comment are the
/// comments of `pool` that reply to it, ordered by creation time, ties
/// keeping their order (apart from the replies attached to them in turn).
pub open spec fn complete(c: Comment, pool: Seq<Comment>, depth: nat) -> bool
    decreases depth,
{
    depth == 0 || (agree_but_replies(stable_sort(replies_to(pool, c.id@), true), c.replies@) && forall|i: int|
        0 <= i < c.replies@.len() ==> complete(#[trigger] c.replies@[i], pool, (depth - 1) as nat))
}

proof fn lemma_attach_complete(
    c: Comment,
    pool: Seq<Comment>,
    out: Comment,
    pool_out: Seq<Comment>,
    all: Seq<Comment>,
    depth: nat,
)
    requires
        attach_rel(c, pool, out, pool_out),
        ids_unique(pool),
        no_replies(pool),
        c.replies@.len() == 0,
        forall|k: int| 0 <= k < pool.len() ==> (#[trigger] pool[k]).id@ != c.id@,
        forall|k: int|
            0 <= k < pool.len() ==> replies_to(pool, (#[trigger] pool[k]).id@) == replies_to(all, pool[k].id@),
        replies_to(pool, c.id@) == replies_to(all, c.id@),
    ensures
        complete(out, all, depth),
    decreases pool.len(),
{
    if depth > 0 {
        let g = replies_to(pool, c.id@);
        let p0 = not_replies_to(pool, c.id@);
        lemma_split_replies_len(pool, c.id@);
        lemma_replies_to_reply(pool, c.id@);
        lemma_split_members(pool, c.id@);
        if g.len() == 0 {
            assert(out == c);
            assert(agree_but_replies(stable_sort(g, true), out.replies@));
        } else {
            let (rs, ps) = choose|rs: Seq<Comment>, ps: Seq<Seq<Comment>>| #![trigger chosen(rs, ps)] {
                &&& chosen(rs, ps)
                &&& rs.len() == g.len()
                &&& ps.len() == g.len() + 1
                &&& ps[0] == p0
                &&& pool_out == ps[g.len() as int]
                &&& forall|k: int| 0 <= k <= g.len() ==> (#[trigger] ps[k]).len() <= p0.len()
                &&& forall|k: int| #![trigger rs[k]] 0 <= k < g.len() ==> attach_rel(g[k], ps[k], rs[k], ps[k + 1])
                &&& out.replies@ == stable_sort(rs, true)
                &&& out == (Comment { replies: out.replies, ..c })
            };
            let n = g.len() as int;
            assert forall|m: int| #![trigger ps[m]] 0 <= m < n implies {
                &&& within(ps[m + 1], ps[m])
                &&& (ids_unique(ps[m]) ==> ids_unique(ps[m + 1]))
                &&& (no_replies(ps[m]) ==> no_replies(ps[m + 1]))
                &&& same_but_replies(g[m], rs[m])
                &&& forall|x: Seq<char>|
                    #![trigger replies_to(ps[m + 1], x)]
                    x != g[m].id@ && (forall|k: int| 0 <= k < ps[m].len() && (#[trigger] ps[m][k]).id@ == x ==> ps[m + 1].contains(ps[m][k]))
                        ==> replies_to(ps[m + 1], x) == replies_to(ps[m], x)
            } by {
                assert(attach_rel(g[m], ps[m], rs[m], ps[m + 1]));
                lemma_attach_pools(g[m], ps[m], rs[m], ps[m + 1]);
                lemma_attach_threaded(g[m], ps[m], rs[m], ps[m + 1], 0);
            }
            lemma_within_chain(ps, n);
            lemma_unique_chain(ps, n);
            lemma_pool_chain(ps, n);
            assert(agree_but_replies(g, rs));
            lemma_sort_agrees(g, rs, true);
            assert forall|i: int| 0 <= i < out.replies@.len() implies complete(
                #[trigger] out.replies@[i],
                all,
                (depth - 1) as nat,
            ) by {
                let m = lemma_sorted_member(rs, true, i);
                let pm = ps[m];
                let gm = g[m];
                assert(pool.contains(gm));
                let km = choose|k: int| 0 <= k < pool.len() && pool[k] == gm;
                assert(within(pm, ps[0]));
                // a comment of the pool at this stage is one of the pool, not a reply to `c`
                assert forall|k: int| 0 <= k < pm.len() implies pool.contains(#[trigger] pm[k]) && !is_reply_to(
                    pm[k],
                    c.id@,
                ) by {
                    assert(p0.contains(pm[k]));
                    let u = choose|u: int| 0 <= u < p0.len() && p0[u] == pm[k];
                    assert(pool.contains(p0[u]));
                }
                assert forall|k: int| 0 <= k < pm.len() implies (#[trigger] pm[k]).id@ != gm.id@ by {
                    assert(pool.contains(pm[k]));
                    if pm[k].id@ == gm.id@ {
                        lemma_same_id_same_comment(pool, pm[k], gm);
                        assert(is_reply_to(gm, c.id@));
                    }
                }
                assert forall|k: int| 0 <= k < pm.len() implies replies_to(pm, (#[trigger] pm[k]).id@) == replies_to(
                    all,
                    pm[k].id@,
                ) by {
                    let y = pm[k];
                    assert(pool.contains(y));
                    let v = choose|v: int| 0 <= v < pool.len() && pool[v] == y;
                    assert(replies_to(pool, pool[v].id@) == replies_to(all, pool[v].id@));
                    assert forall|j: int| #![trigger ps[j]] 0 <= j < m implies replies_to(ps[j + 1], y.id@)
                        == replies_to(ps[j], y.id@) by {
                        assert(pool.contains(g[j]));
                        if y.id@ == g[j].id@ {
                            lemma_same_id_same_comment(pool, y, g[j]);
                            assert(is_reply_to(g[j], c.id@));
                        }
                        assert forall|t: int| 0 <= t < ps[j].len() && (#[trigger] ps[j][t]).id@ == y.id@ implies ps[j
                            + 1].contains(ps[j][t]) by {
                            assert(within(ps[j], ps[0]));
                            assert(p0.contains(ps[j][t]));
                            let u = choose|u: int| 0 <= u < p0.len() && p0[u] == ps[j][t];
                            assert(pool.contains(p0[u]));
                            lemma_same_id_same_comment(pool, ps[j][t], y);
                            assert(within(ps[m], ps[j + 1]));
                            assert(ps[j + 1].contains(pm[k]));
                        }
                    }
                    lemma_replies_chain(ps, y.id@, m);
                    lemma_filters_commute(pool, c.id@, y.id@);
                }
                assert(replies_to(pool, pool[km].id@) == replies_to(all, pool[km].id@));
                assert forall|j: int| #![trigger ps[j]] 0 <= j < m implies replies_to(ps[j + 1], gm.id@)
                    == replies_to(ps[j], gm.id@) by {
                    assert(ids_unique(g));
                    assert(g[j].id@ != gm.id@);
                    assert forall|t: int| 0 <= t < ps[j].len() && (#[trigger] ps[j][t]).id@ == gm.id@ implies ps[j
                        + 1].contains(ps[j][t]) by {
                        assert(within(ps[j], ps[0]));
                        assert(p0.contains(ps[j][t]));
                        let u = choose|u: int| 0 <= u < p0.len() && p0[u] == ps[j][t];
                        assert(pool.contains(p0[u]));
                        lemma_same_id_same_comment(pool, ps[j][t], gm);
                        assert(!is_reply_to(p0[u], c.id@));
                        assert(is_reply_to(gm, c.id@));
                    }
                }
                lemma_replies_chain(ps, gm.id@, m);
                lemma_filters_commute(pool, c.id@, gm.id@);
                assert(gm.replies@.len() == 0);
                assert(no_replies(pm));
                assert(ids_unique(pm));
                assert(attach_rel(gm, pm, rs[m], ps[m + 1]));
                assert(pm.len() <= p0.len());
                lemma_attach_complete(gm, pm, rs[m], ps[m + 1], all, (depth - 1) as nat);
            }
        }
    }
}

proof fn lemma_split_top_level(cs: Seq<Comment>)
    ensures
        forall|i: int| 0 <= i < top_level(cs).len() ==> cs.contains(#[trigger] top_level(cs)[i]),
        forall|i: int| 0 <= i < reply_pool(cs).len() ==> cs.contains(#[trigger] reply_pool(cs)[i]) && reply_pool(
            cs,
        )[i].parent_id is Some,
        ids_unique(cs) ==> ids_unique(top_level(cs)) && ids_unique(reply_pool(cs)),
        forall|x: Seq<char>| #![trigger replies_to(cs, x)] replies_to(reply_pool(cs), x) == replies_to(cs, x),
    decreases cs.len(),
{
    if cs.len() > 0 {
        let rest = cs.drop_last();
        lemma_split_top_level(rest);
        let t = top_level(cs);
        let q = reply_pool(cs);
        let t1 = top_level(rest);
        let q1 = reply_pool(rest);
        let last = cs.last();
        assert forall|i: int| 0 <= i < t.len() implies cs.contains(#[trigger] t[i]) by {
            if i < t1.len() {
                assert(t[i] == t1[i]);
                let k = choose|k: int| 0 <= k < rest.len() && rest[k] == t1[i];
                assert(cs[k] == rest[k]);
            } else {
                assert(t[i] == cs[cs.len() - 1]);
            }
        }
        assert forall|i: int| 0 <= i < q.len() implies cs.contains(#[trigger] q[i]) && q[i].parent_id is Some by {
            if i < q1.len() {
                assert(q[i] == q1[i]);
                let k = choose|k: int| 0 <= k < rest.len() && rest[k] == q1[i];
                assert(cs[k] == rest[k]);
            } else {
                assert(q[i] == cs[cs.len() - 1]);
            }
        }
        if ids_unique(cs) {
            assert(ids_unique(rest)) by {
                assert forall|i: int, j: int| 0 <= i < j < rest.len() implies (#[trigger] rest[i]).id@
                    != (#[trigger] rest[j]).id@ by {
                    assert(rest[i] == cs[i] && rest[j] == cs[j]);
                }
            }
            assert forall|i: int| 0 <= i < t1.len() implies (#[trigger] t1[i]).id@ != last.id@ by {
                let k = choose|k: int| 0 <= k < rest.len() && rest[k] == t1[i];
                assert(cs[k] == rest[k]);
                assert(cs[k].id@ != cs[cs.len() - 1].id@);
            }
            assert forall|i: int| 0 <= i < q1.len() implies (#[trigger] q1[i]).id@ != last.id@ by {
                let k = choose|k: int| 0 <= k < rest.len() && rest[k] == q1[i];
                assert(cs[k] == rest[k]);
                assert(cs[k].id@ != cs[cs.len() - 1].id@);
            }
            assert forall|i: int, j: int| 0 <= i < j < t.len() implies (#[trigger] t[i]).id@ != (#[trigger] t[j]).id@ by {
                if j < t1.len() {
                    assert(t[i] == t1[i] && t[j] == t1[j]);
                } else {
                    assert(t[i] == t1[i]);
                }
            }
            assert forall|i: int, j: int| 0 <= i < j < q.len() implies (#[trigger] q[i]).id@ != (#[trigger] q[j]).id@ by {
                if j < q1.len() {
                    assert(q[i] == q1[i] && q[j] == q1[j]);
                } else {
                    assert(q[i] == q1[i]);
                }
            }
        }
        assert forall|x: Seq<char>| #![trigger replies_to(cs, x)] replies_to(q, x) == replies_to(cs, x) by {
            assert(replies_to(q1, x) == replies_to(rest, x));
            if last.parent_id is Some {
                assert(q == q1.push(last));
                assert(q.drop_last() =~= q1);
            }
        }
    }
}

/// The comment tree holds every reply where it belongs: built from comments
/// with distinct ids that carry no replies yet, at every depth the replies of
/// each comment of the tree are the input comments that reply to it, ordered
/// by creation time, ties keeping their order.
pub proof fn tree_replies_are_complete(cs: Seq<Comment>, out: Seq<Comment>, depth: nat)
    requires
        ids_unique(cs),
        no_replies(cs),
        tree_rel(cs, out),
    ensures
        forall|i: int| 0 <= i < out.len() ==> complete(#[trigger] out[i], cs, depth),
{
    let tops = top_level(cs);
    let (rs, ps) = choose|rs: Seq<Comment>, ps: Seq<Seq<Comment>>| {
        &&& chosen(rs, ps)
        &&& rs.len() == tops.len()
        &&& ps.len() == tops.len() + 1
        &&& ps[0] == reply_pool(cs)
        &&& forall|i: int| #![trigger rs[i]] 0 <= i < tops.len() ==> attach_rel(tops[i], ps[i], rs[i], ps[i + 1])
        &&& out == stable_sort(rs, false)
    };
    let r0 = reply_pool(cs);
    let n = tops.len() as int;
    lemma_top_level_has_no_parent(cs);
    lemma_split_top_level(cs);
    assert forall|m: int| #![trigger ps[m]] 0 <= m < n implies {
        &&& within(ps[m + 1], ps[m])
        &&& (ids_unique(ps[m]) ==> ids_unique(ps[m + 1]))
        &&& (no_replies(ps[m]) ==> no_replies(ps[m + 1]))
        &&& forall|x: Seq<char>|
            #![trigger replies_to(ps[m + 1], x)]
            x != tops[m].id@ && (forall|k: int| 0 <= k < ps[m].len() && (#[trigger] ps[m][k]).id@ == x ==> ps[m + 1].contains(ps[m][k]))
                ==> replies_to(ps[m + 1], x) == replies_to(ps[m], x)
    } by {
        assert(attach_rel(tops[m], ps[m], rs[m], ps[m + 1]));
        lemma_attach_pools(tops[m], ps[m], rs[m], ps[m + 1]);
        lemma_attach_threaded(tops[m], ps[m], rs[m], ps[m + 1], 0);
    }
    lemma_within_chain(ps, n);
    lemma_unique_chain(ps, n);
    lemma_pool_chain(ps, n);
    assert forall|j: int| 0 <= j < out.len() implies complete(#[trigger] out[j], cs, depth) by {
        let i = lemma_sorted_member(rs, false, j);
        let pi = ps[i];
        let ti = tops[i];
        assert(cs.contains(ti));
        assert(ti.parent_id is None);
        assert(within(pi, ps[0]));
        assert forall|k: int| 0 <= k < pi.len() implies cs.contains(#[trigger] pi[k]) && pi[k].parent_id is Some by {
            assert(r0.contains(pi[k]));
            let u = choose|u: int| 0 <= u < r0.len() && r0[u] == pi[k];
            assert(cs.contains(r0[u]));
        }
        assert forall|k: int| 0 <= k < pi.len() implies (#[trigger] pi[k]).id@ != ti.id@ by {
            assert(cs.contains(pi[k]));
            if pi[k].id@ == ti.id@ {
                lemma_same_id_same_comment(cs, pi[k], ti);
            }
        }
        assert forall|k: int| 0 <= k < pi.len() implies replies_to(pi, (#[trigger] pi[k]).id@) == replies_to(
            cs,
            pi[k].id@,
        ) by {
            let y = pi[k];
            assert(cs.contains(y));
            assert forall|m: int| #![trigger ps[m]] 0 <= m < i implies replies_to(ps[m + 1], y.id@) == replies_to(
                ps[m],
                y.id@,
            ) by {
                assert(cs.contains(tops[m]));
                assert(tops[m].parent_id is None);
                if y.id@ == tops[m].id@ {
                    lemma_same_id_same_comment(cs, y, tops[m]);
                }
                assert forall|t: int| 0 <= t < ps[m].len() && (#[trigger] ps[m][t]).id@ == y.id@ implies ps[m
                    + 1].contains(ps[m][t]) by {
                    assert(within(ps[m], ps[0]));
                    assert(r0.contains(ps[m][t]));
                    let u = choose|u: int| 0 <= u < r0.len() && r0[u] == ps[m][t];
                    assert(cs.contains(r0[u]));
                    lemma_same_id_same_comment(cs, ps[m][t], y);
                    assert(within(ps[i], ps[m + 1]));
                    assert(ps[m + 1].contains(pi[k]));
                }
            }
            lemma_replies_chain(ps, y.id@, i);
            assert(replies_to(r0, y.id@) == replies_to(cs, y.id@));
        }
        assert forall|m: int| #![trigger ps[m]] 0 <= m < i implies replies_to(ps[m + 1], ti.id@) == replies_to(
            ps[m],
            ti.id@,
        ) by {
            assert(ids_unique(tops));
            assert(tops[m].id@ != ti.id@);
            assert forall|t: int| 0 <= t < ps[m].len() && (#[trigger] ps[m][t]).id@ == ti.id@ implies ps[m
                + 1].contains(ps[m][t]) by {
                assert(within(ps[m], ps[0]));
                assert(r0.contains(ps[m][t]));
                let u = choose|u: int| 0 <= u < r0.len() && r0[u] == ps[m][t];
                assert(cs.contains(r0[u]));
                lemma_same_id_same_comment(cs, ps[m][t], ti);
            }
        }
        lemma_replies_chain(ps, ti.id@, i);
        assert(replies_to(r0, ti.id@) == replies_to(cs, ti.id@));
        assert(ti.replies@.len() == 0) by {
            lemma_top_level_has_no_parent(cs);
        }
        assert(no_replies(pi));
        assert(ids_unique(pi));
        assert(attach_rel(ti, pi, rs[i], ps[i + 1]));
        lemma_attach_complete(ti, pi, rs[i], ps[i + 1], cs, depth);
    }
}

// ---------------------------------------------------------------------------
// Comment API requests and paging
// ---------------------------------------------------------------------------

/// Builds comment API requests; fetching them is left to the caller.
pub struct CommentClient;

/// The comment API URL for a page of an article's comments.
pub open spec fn comment_url(oid: Seq<char>, aid: Seq<char>, page: u32, page_size: u32, sort: Seq<char>) -> Seq<char> {
    api::COMMENT_API_BASE@ + "?ticket="@ + api::TICKET@ + "&templateId="@ + api::TEMPLATE_ID@ + "&pool="@
        + api::POOL@ + "&lang="@ + api::LANG@ + "&country="@ + api::COUNTRY@ + "&objectId=news"@ + oid + ","@
        + aid + "&pageSize="@ + decimal(page_size as nat) + "&page="@ + decimal(page as nat) + "&sort="@ + sort
        + "&_callback=_callback"@
}

impl CommentClient {
    /// Build the comment API URL; the object id is `news{oid},{aid}`.
    pub fn build_url(oid: &str, aid: &str, page: u32, page_size: u32, sort: &str) -> (r: String)
        ensures
            r@ == comment_url(oid@, aid@, page, page_size, sort@),
    {
        let mut out: Vec<char> = Vec::new();
        push_str(&mut out, api::COMMENT_API_BASE);
        push_str(&mut out, "?ticket=");
        push_str(&mut out, api::TICKET);
        push_str(&mut out, "&templateId=");
        push_str(&mut out, api::TEMPLATE_ID);
        push_str(&mut out, "&pool=");
        push_str(&mut out, api::POOL);
        push_str(&mut out, "&lang=");
        push_str(&mut out, api::LANG);
        push_str(&mut out, "&country=");
        push_str(&mut out, api::COUNTRY);
        push_str(&mut out, "&objectId=news");
        push_str(&mut out, oid);
        push_str(&mut out, ",");
        push_str(&mut out, aid);
        push_str(&mut out, "&pageSize=");
        push_decimal(&mut out, page_size as u64);
        push_str(&mut out, "&page=");
        push_decimal(&mut out, page as u64);
        push_str(&mut out, "&sort=");
        push_str(&mut out, sort);
        push_str(&mut out, "&_callback=_callback");
        string_of(out.as_slice())
    }

    /// Accept a decoded API response only when it reports success; otherwise
    /// the error reads `Comment API error: {code} - {message}`.
    pub fn check_response(response: CommentApiResponse) -> (r: Result<CommentApiResponse, String>)
        ensures
            match r {
                Ok(resp) => response.success && resp == response,
                Err(msg) => !response.success && msg@ == "Comment API error: "@ + response.code@ + " - "@
                    + match response.message {
                        Some(m) => m@,
                        None => Seq::empty(),
                    },
            },
    {
        if response.success {
            return Ok(response);
        }
        let mut out: Vec<char> = Vec::new();
        push_str(&mut out, "Comment API error: ");
        push_str(&mut out, response.code.as_str());
        push_str(&mut out, " - ");
        match &response.message {
            Some(m) => push_str(&mut out, m.as_str()),
            None => {},
        }
        Err(string_of(out.as_slice()))
    }
}

/// Progress through the pages of an article's comments: which page to ask
/// for next, and the comments gathered so far.
pub struct CommentPaging {
    page: u32,
    max_pages: u32,
    done: bool,
    comments: Vec<Comment>,
}

impl CommentPaging {
    pub closed spec fn spec_page(&self) -> u32 {
        self.page
    }

    pub closed spec fn spec_max_pages(&self) -> u32 {
        self.max_pages
    }

    pub closed spec fn spec_done(&self) -> bool {
        self.done
    }

    pub closed spec fn spec_comments(&self) -> Seq<Comment> {
        self.comments@
    }

    /// Start at page 1; `max_pages` of 0 means the API's page limit.
    pub fn new(max_pages: u32) -> (r: Self)
        ensures
            r.spec_page() == 1,
            r.spec_max_pages() == if max_pages == 0 { api::MAX_PAGES } else { max_pages },
            !r.spec_done(),
            r.spec_comments().len() == 0,
    {
        CommentPaging {
            page: 1,
            max_pages: if max_pages == 0 { api::MAX_PAGES } else { max_pages },
            done: false,
            comments: Vec::new(),
        }
    }

    /// The page to fetch next, if any.
    pub fn next_page(&self) -> (r: Option<u32>)
        ensures
            r == if self.spec_done() || self.spec_page() > self.spec_max_pages() {
                None
            } else {
                Some(self.spec_page())
            },
    {
        if self.done || self.page > self.max_pages {
            None
        } else {
            Some(self.page)
        }
    }

    /// Take in the result of the page last asked for: an empty or missing
    /// result ends the paging; otherwise its shown comments are kept, and the
    /// paging ends at the last page the result reports.
    pub fn absorb(&mut self, result: Option<CommentResult>)
        requires
            !old(self).spec_done(),
            old(self).spec_page() <= old(self).spec_max_pages(),
            old(self).spec_page() < u32::MAX,
        ensures
            final(self).spec_max_pages() == old(self).spec_max_pages(),
            match result {
                None => final(self).spec_done() && final(self).spec_comments() == old(self).spec_comments(),
                Some(res) => if res.comment_list@.len() == 0 {
                    final(self).spec_done() && final(self).spec_comments() == old(self).spec_comments()
                } else {
                    &&& final(self).spec_comments().len() == old(self).spec_comments().len() + shown(res.comment_list@).len()
                    &&& final(self).spec_comments().take(old(self).spec_comments().len() as int) == old(self).spec_comments()
                    &&& forall|i: int| 0 <= i < shown(res.comment_list@).len() ==> converted_from(
                        #[trigger] final(self).spec_comments()[old(self).spec_comments().len() + i],
                        shown(res.comment_list@)[i],
                    )
                    &&& final(self).spec_done() == (res.page_info matches Some(pi)
                        && old(self).spec_page() >= #[verifier::truncate] (pi.total_pages as u32))
                    &&& !final(self).spec_done() ==> final(self).spec_page() == old(self).spec_page() + 1
                },
            },
    {
        let res = match result {
            Some(r) => r,
            None => {
                self.done = true;
                return;
            },
        };
        if res.comment_list.len() == 0 {
            self.done = true;
            return;
        }
        let ghost before = self.comments@;
        let converted = convert_comments(res.comment_list.as_slice());
        let ghost added = converted@;
        let mut rest = converted;
        self.comments.append(&mut rest);
        proof {
            assert(self.comments@ =~= before + added);
            assert(self.comments@.take(before.len() as int) =~= before);
            assert forall|i: int| 0 <= i < added.len() implies self.comments@[before.len() + i] == added[i] by {}
        }
        match &res.page_info {
            Some(pi) => {
                if self.page >= #[verifier::truncate] (pi.total_pages as u32) {
                    self.done = true;
                    return;
                }
            },
            None => {},
        }
        self.page = self.page + 1;
    }

    /// The comments gathered, in page order.
    pub fn into_comments(self) -> (r: Vec<Comment>)
        ensures
            r@ == self.spec_comments(),
    {
        self.comments
    }
}
} // verus!
