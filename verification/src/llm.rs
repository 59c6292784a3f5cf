//! Talking to a language model for relation extraction: backend choice,
//! prompts, and finding the JSON in an answer. Sending requests is the
//! caller's.
use vstd::prelude::*;
use crate::text::{
    chars_of, string_of, push_str, push_decimal, decimal, lowercase, to_lowercase, eq_literal, find_seq, find_from,
    trim, trim_chars, copy_range, extend_chars, occurs_at,
};

verus! {

broadcast use vstd::slice::group_slice_axioms;

/// LLM backend type.
#[derive(Debug, Clone, Copy, PartialEq, Eq, Structural)]
pub enum LlmBackend {
    /// vLLM with OpenAI-compatible API (default)
    Vllm,
    /// Ollama API
    Ollama,
}

impl LlmBackend {
    /// `ollama`, in any case, names Ollama; anything else means vLLM.
    pub fn parse(s: &str) -> (r: LlmBackend)
        ensures
            r == if lowercase(s@) == "ollama"@ { LlmBackend::Ollama } else { LlmBackend::Vllm },
    {
        let lower = to_lowercase(s);
        let l = chars_of(lower.as_str());
        if eq_literal(l.as_slice(), "ollama") {
            LlmBackend::Ollama
        } else {
            LlmBackend::Vllm
        }
    }

    /// The endpoint and model a backend uses unless configured otherwise.
    pub fn default_endpoint_and_model(&self) -> (r: (&'static str, &'static str))
        ensures
            *self == LlmBackend::Vllm ==> r.0@ == "http://localhost:8002"@ && r.1@ == "qwen2.5"@,
            *self == LlmBackend::Ollama ==> r.0@ == "http://localhost:11434"@ && r.1@ == "qwen2.5:7b"@,
    {
        match self {
            LlmBackend::Vllm => ("http://localhost:8002", "qwen2.5"),
            LlmBackend::Ollama => ("http://localhost:11434", "qwen2.5:7b"),
        }
    }
}

impl Default for LlmBackend {
    fn default() -> (r: Self)
        ensures
            r == LlmBackend::Vllm,
    {
        LlmBackend::Vllm
    }
}

impl std::str::FromStr for LlmBackend {
    type Err = std::convert::Infallible;

    fn from_str(s: &str) -> (r: Result<Self, Self::Err>)
        ensures
            r == Ok::<LlmBackend, std::convert::Infallible>(
                if lowercase(s@) == "ollama"@ { LlmBackend::Ollama } else { LlmBackend::Vllm },
            ),
    {
        Ok(LlmBackend::parse(s))
    }
}

/// Article info for batch processing.
#[derive(Debug)]
pub struct ArticleInfo {
    /// Article ID
    pub id: String,
    /// Article title
    pub title: String,
    /// Article content
    pub content: String,
}

/// The opening of the prompt that asks for the Said relations of one article.
pub const SAID_PROMPT_HEAD: &'static str = "당신은 한국어 뉴스 기사에서 발언(Said) 관계를 추출하는 전문가입니다.

다음 뉴스 기사에서 \"누가 무엇을 말했는지\"를 추출하세요.

## 규칙:
1. 발언자는 실제 인물 이름이어야 합니다 (직책만 있으면 안됨)
2. 발언 내용은 직접 인용 또는 간접 인용 모두 가능합니다
3. 증거는 원문에서 해당 발언을 포함하는 문장입니다
4. 신뢰도는 0.0~1.0 사이 값입니다 (직접인용=0.95, 간접인용=0.8, 추정=0.6)

## 출력 형식 (JSON):
```json
{
  \"relations\": [
    {
      \"speaker\": \"발언자 이름\",
      \"content\": \"발언 내용\",
      \"confidence\": 0.9,
      \"evidence\": \"원문에서 발언을 포함하는 문장\"
    }
  ]
}
```

## 뉴스 기사:
";

/// The close of the single-article prompt.
pub const SAID_PROMPT_TAIL: &'static str = "

## 추출된 발언 관계 (JSON):";

/// The opening of the prompt that asks for the Said relations of a batch.
pub const BATCH_PROMPT_HEAD: &'static str = "당신은 한국어 뉴스 기사에서 발언(Said) 관계를 추출하는 전문가입니다.

다음 여러 뉴스 기사에서 \"누가 무엇을 말했는지\"를 각각 추출하세요.

## 규칙:
1. 발언자는 실제 인물 이름이어야 합니다
2. 각 기사별로 article_id를 반드시 포함하세요
3. 발언이 없는 기사는 빈 배열로 표시하세요
4. 신뢰도: 직접인용=0.95, 간접인용=0.8

## 출력 형식 (JSON 배열):
```json
[
  {
    \"article_id\": \"기사ID\",
    \"relations\": [
      {\"speaker\": \"이름\", \"content\": \"발언\", \"confidence\": 0.9, \"evidence\": \"근거문장\"}
    ]
  }
]
```

## 뉴스 기사들:
";

/// The close of the batch prompt.
pub const BATCH_PROMPT_TAIL: &'static str = "

## 추출 결과 (JSON):";

/// Build the prompt for Said relation extraction from one article.
pub fn build_said_prompt(text: &str) -> (r: String)
    ensures
        r@ == SAID_PROMPT_HEAD@ + text@ + SAID_PROMPT_TAIL@,
{
    let mut out: Vec<char> = Vec::new();
    push_str(&mut out, SAID_PROMPT_HEAD);
    push_str(&mut out, text);
    push_str(&mut out, SAID_PROMPT_TAIL);
    string_of(out.as_slice())
}

/// An article's content as the batch prompt quotes it: its first thousand
/// characters and `...` when it is longer.
pub open spec fn quoted_content(c: Seq<char>) -> Seq<char> {
    if c.len() > 1000 { c.take(1000) + "..."@ } else { c }
}

/// The section of the batch prompt for the article at `i` (counted from 0).
pub open spec fn article_section(i: nat, a: ArticleInfo) -> Seq<char> {
    "\n### [기사 "@ + decimal(i + 1) + "] ID: "@ + a.id@ + "\n제목: "@ + a.title@ + "\n내용: "@
        + quoted_content(a.content@) + "\n"@
}

/// The sections of the first `n` articles.
pub open spec fn article_sections(arts: Seq<ArticleInfo>, n: nat) -> Seq<char>
    decreases n,
{
    if n == 0 {
        Seq::empty()
    } else {
        article_sections(arts, (n - 1) as nat) + article_section((n - 1) as nat, arts[n - 1])
    }
}

/// Build the prompt for Said relation extraction from a batch of articles.
pub fn build_batch_prompt(articles: &[ArticleInfo]) -> (r: String)
    requires
        articles@.len() < u64::MAX,
    ensures
        r@ == BATCH_PROMPT_HEAD@ + article_sections(articles@, articles@.len()) + BATCH_PROMPT_TAIL@,
{
    let mut body: Vec<char> = Vec::new();
    let mut i: usize = 0;
    while i < articles.len()
        invariant
            i <= articles@.len(),
            articles@.len() < u64::MAX,
            body@ == article_sections(articles@, i as nat),
        decreases articles@.len() - i,
    {
        let a = &articles[i];
        let content = chars_of(a.content.as_str());
        let ghost before = body@;
        push_str(&mut body, "\n### [기사 ");
        push_decimal(&mut body, (i + 1) as u64);
        push_str(&mut body, "] ID: ");
        push_str(&mut body, a.id.as_str());
        push_str(&mut body, "\n제목: ");
        push_str(&mut body, a.title.as_str());
        push_str(&mut body, "\n내용: ");
        if content.len() > 1000 {
            let head = copy_range(content.as_slice(), 0, 1000);
            proof {
                assert(content@.take(1000) =~= content@.subrange(0, 1000));
            }
            extend_chars(&mut body, head.as_slice());
            push_str(&mut body, "...");
        } else {
            extend_chars(&mut body, content.as_slice());
        }
        push_str(&mut body, "\n");
        proof {
            assert(body@ =~= before + article_section(i as nat, articles@[i as int]));
        }
        i = i + 1;
    }
    let mut out: Vec<char> = Vec::new();
    push_str(&mut out, BATCH_PROMPT_HEAD);
    extend_chars(&mut out, body.as_slice());
    push_str(&mut out, BATCH_PROMPT_TAIL);
    string_of(out.as_slice())
}

/// Position of the last `c` in `t`, if any.
pub open spec fn last_index_of(t: Seq<char>, c: char) -> Option<int>
    decreases t.len(),
{
    if t.len() == 0 {
        None
    } else if t.last() == c {
        Some(t.len() - 1)
    } else {
        last_index_of(t.drop_last(), c)
    }
}

/// The text between the first `open` and the last `close` (both kept), when
/// the last `close` comes after the first `open`.
pub open spec fn span_between(t: Seq<char>, open: char, close: char) -> Option<Seq<char>> {
    match (find_seq(t, seq![open], 0), last_index_of(t, close)) {
        (Some(s), Some(e)) => if e > s { Some(t.subrange(s, e + 1)) } else { None },
        _ => None,
    }
}

/// Where the content of a plain code block starts: after the first line
/// feed after the opening fence, else one character after the fence.
pub open spec fn fence_content_start(t: Seq<char>, after: int) -> int {
    match find_seq(t, seq!['\n'], after) {
        Some(p) => p + 1,
        None => after + 1,
    }
}

/// The JSON an answer holds: the content of a ```` ```json ```` block, else
/// of a plain ```` ``` ```` block, else (when `arrays`) the text from the
/// first `[` to the last `]`, else from the first `{` to the last `}`, else
/// the whole answer; blocks and the whole answer are trimmed.
pub open spec fn spec_json_block(t: Seq<char>, arrays: bool) -> Seq<char> {
    let json_fence = find_seq(t, "```json"@, 0);
    let fence = find_seq(t, "```"@, 0);
    if json_fence is Some && find_seq(t, "```"@, json_fence->0 + 7) is Some {
        trim(t.subrange(json_fence->0 + 7, find_seq(t, "```"@, json_fence->0 + 7)->0))
    } else if fence is Some && find_seq(t, "```"@, fence_content_start(t, fence->0 + 3)) is Some {
        let cs = fence_content_start(t, fence->0 + 3);
        trim(t.subrange(cs, find_seq(t, "```"@, cs)->0))
    } else if arrays && span_between(t, '[', ']') is Some {
        span_between(t, '[', ']')->0
    } else if span_between(t, '{', '}') is Some {
        span_between(t, '{', '}')->0
    } else {
        trim(t)
    }
}

/// The inputs on which the search for a plain code block cuts the text
/// inside a character or past its end: a fence with no line feed after it,
/// followed by nothing or by a character outside ASCII.
pub open spec fn json_block_fails(t: Seq<char>) -> bool {
    let json_fence = find_seq(t, "```json"@, 0);
    let fence = find_seq(t, "```"@, 0);
    &&& !(json_fence is Some && find_seq(t, "```"@, json_fence->0 + 7) is Some)
    &&& fence is Some
    &&& find_seq(t, seq!['\n'], fence->0 + 3) is None
    &&& (fence->0 + 3 >= t.len() || t[fence->0 + 3] as u32 >= 128)
}

fn last_index_exec(t: &[char], c: char) -> (r: Option<usize>)
    ensures
        match r {
            Some(i) => last_index_of(t@, c) == Some(i as int),
            None => last_index_of(t@, c) is None,
        },
{
    let mut k: usize = t.len();
    proof {
        assert(t@.take(t@.len() as int) =~= t@);
    }
    while k > 0
        invariant
            k <= t@.len(),
            last_index_of(t@, c) == last_index_of(t@.take(k as int), c),
        decreases k,
    {
        proof {
            assert(t@.take(k as int).drop_last() =~= t@.take(k - 1));
        }
        if t[k - 1] == c {
            return Some(k - 1);
        }
        k = k - 1;
    }
    proof {
        assert(t@.take(0) =~= Seq::<char>::empty());
    }
    None
}

proof fn lemma_find_bound(h: Seq<char>, n: Seq<char>, from: int)
    requires
        find_seq(h, n, from) is Some,
    ensures
        from <= find_seq(h, n, from)->0,
        find_seq(h, n, from)->0 + n.len() <= h.len(),
    decreases h.len() + 1 - from,
{
    if !occurs_at(h, n, from) {
        lemma_find_bound(h, n, from + 1);
    }
}

fn span_between_exec(t: &[char], open: char, close: char) -> (r: Option<Vec<char>>)
    ensures
        match r {
            Some(v) => span_between(t@, open, close) == Some(v@),
            None => span_between(t@, open, close) is None,
        },
{
    let tl = t.len();
    let mut o: Vec<char> = Vec::new();
    o.push(open);
    proof {
        assert(o@ =~= seq![open]);
    }
    match find_from(t, o.as_slice(), 0) {
        Some(s) => match last_index_exec(t, close) {
            Some(e) => {
                if e > s {
                    proof {
                        lemma_last_index_bound(t@, close);
                    }
                    Some(copy_range(t, s, e + 1))
                } else {
                    None
                }
            },
            None => None,
        },
        None => None,
    }
}

proof fn lemma_last_index_bound(t: Seq<char>, c: char)
    ensures
        last_index_of(t, c) matches Some(e) ==> 0 <= e < t.len(),
    decreases t.len(),
{
    if t.len() > 0 && t.last() != c {
        lemma_last_index_bound(t.drop_last(), c);
    }
}

/// Whether `json_block` can be taken from this text.
pub fn json_block_ok(text: &str) -> (r: bool)
    ensures
        r == !json_block_fails(text@),
{
    let t = chars_of(text);
    let tl = t.len();
    let js = chars_of("```json");
    let fence = chars_of("```");
    let nl = chars_of("\n");
    proof {
        reveal_strlit("```json");
        reveal_strlit("```");
        reveal_strlit("\n");
        assert(nl@ =~= seq!['\n']);
        assert(js@.len() == 7 && fence@.len() == 3 && nl@.len() == 1);
    }
    if let Some(s) = find_from(t.as_slice(), js.as_slice(), 0) {
        proof {
            lemma_find_bound(t@, js@, 0);
        }
        if find_from(t.as_slice(), fence.as_slice(), s + 7).is_some() {
            return true;
        }
    }
    match find_from(t.as_slice(), fence.as_slice(), 0) {
        Some(s) => {
            proof {
                reveal_strlit("```");
                lemma_find_bound(t@, fence@, 0);
            }
            if find_from(t.as_slice(), nl.as_slice(), s + 3).is_some() {
                true
            } else {
                !(s + 3 >= t.len() || t[s + 3] as u32 >= 128)
            }
        },
        None => true,
    }
}

/// Extract the JSON from a model's answer (see `spec_json_block`).
pub fn json_block(text: &str, arrays: bool) -> (r: String)
    requires
        !json_block_fails(text@),
    ensures
        r@ == spec_json_block(text@, arrays),
{
    let t = chars_of(text);
    let tl = t.len();
    let js = chars_of("```json");
    let fence = chars_of("```");
    let nl = chars_of("\n");
    proof {
        reveal_strlit("```json");
        reveal_strlit("```");
        reveal_strlit("\n");
        assert(nl@ =~= seq!['\n']);
        assert(js@.len() == 7 && fence@.len() == 3 && nl@.len() == 1);
    }
    if let Some(s) = find_from(t.as_slice(), js.as_slice(), 0) {
        proof {
            lemma_find_bound(t@, js@, 0);
        }
        if let Some(e) = find_from(t.as_slice(), fence.as_slice(), s + 7) {
            proof {
                lemma_find_bound(t@, fence@, s + 7);
            }
            let inner = copy_range(t.as_slice(), s + 7, e);
            return string_of(trim_chars(inner.as_slice()).as_slice());
        }
    }
    if let Some(s) = find_from(t.as_slice(), fence.as_slice(), 0) {
        proof {
            lemma_find_bound(t@, fence@, 0);
        }
        let cs = match find_from(t.as_slice(), nl.as_slice(), s + 3) {
            Some(p) => {
                proof {
                    lemma_find_bound(t@, nl@, s + 3);
                }
                p + 1
            },
            None => s + 4,
        };
        if let Some(e) = find_from(t.as_slice(), fence.as_slice(), cs) {
            proof {
                lemma_find_bound(t@, fence@, cs as int);
            }
            let inner = copy_range(t.as_slice(), cs, e);
            return string_of(trim_chars(inner.as_slice()).as_slice());
        }
    }
    if arrays {
        if let Some(v) = span_between_exec(t.as_slice(), '[', ']') {
            return string_of(v.as_slice());
        }
    }
    if let Some(v) = span_between_exec(t.as_slice(), '{', '}') {
        return string_of(v.as_slice());
    }
    string_of(trim_chars(t.as_slice()).as_slice())
}

/// Extract the JSON of a relation-extraction answer: a code block, an
/// array, an object, or the trimmed answer.
pub fn extract_raw_json(text: &str) -> (r: String)
    requires
        !json_block_fails(text@),
    ensures
        r@ == spec_json_block(text@, true),
{
    json_block(text, true)
}

} // verus!
