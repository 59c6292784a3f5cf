//! Summaries of event clusters written by a language model.
use vstd::prelude::*;
use crate::llm::{json_block, json_block_fails, spec_json_block};
use crate::text::{chars_of, string_of, trim, trim_chars, push_str, push_decimal, decimal};
use super::engine::ClusterArticle;

verus! {

/// Extract the JSON from a model's answer: a code block, an object, or the
/// trimmed answer.
pub fn extract_json(text: &str) -> (r: String)
    requires
        !json_block_fails(text@),
    ensures
        r@ == spec_json_block(text@, false),
{
    json_block(text, false)
}

/// The `title` and `summary` that a JSON text gives, when it parses as JSON
/// (a field that is not a string reads as empty).
pub uninterp spec fn json_title_summary(json: Seq<char>) -> Option<(Seq<char>, Seq<char>)>;

/// `serde_json::from_str::<serde_json::Value>` on the text, then its
/// `title` and `summary` fields read as strings (empty when absent or not a
/// string); nothing when the text is no JSON. The result is named
/// `json_title_summary`; JSON syntax is not restated here.
#[verifier::external_body]
fn read_title_summary(json: &str) -> (r: Option<(String, String)>)
    ensures
        match r {
            Some((t, s)) => json_title_summary(json@) == Some((t@, s@)),
            None => json_title_summary(json@) is None,
        },
{
    match serde_json::from_str::<serde_json::Value>(json) {
        Ok(v) => Some((
            v["title"].as_str().unwrap_or_default().to_string(),
            v["summary"].as_str().unwrap_or_default().to_string(),
        )),
        Err(_) => None,
    }
}

/// Read the model's answer: the title and summary of its JSON, or, when it
/// holds no JSON, no title and the whole answer as summary.
pub fn parse_summary_response(response: &str) -> (r: (String, String))
    requires
        !json_block_fails(response@),
    ensures
        match json_title_summary(spec_json_block(response@, false)) {
            Some((t, s)) => r.0@ == t && r.1@ == s,
            None => r.0@.len() == 0 && r.1@ == trim(response@),
        },
{
    let json = extract_json(response);
    match read_title_summary(json.as_str()) {
        Some((t, s)) => (t, s),
        None => {
            let c = chars_of(response);
            (String::new(), string_of(trim_chars(c.as_slice()).as_slice()))
        },
    }
}

/// The opening of the prompt that asks for a cluster's title and summary.
pub const SUMMARY_PROMPT_HEAD: &'static str = "당신은 한국어 뉴스 이벤트 분석 전문가입니다.

다음 뉴스 기사들은 같은 이벤트(사건)를 다루고 있습니다.
이 이벤트에 대해 간결한 제목과 요약을 생성하세요.

## 기사 목록:
";

/// The close of the summary prompt.
pub const SUMMARY_PROMPT_TAIL: &'static str = "
## 규칙:
1. 제목은 20자 이내로 핵심 이벤트를 나타내세요
2. 요약은 2-3문장으로 이벤트의 핵심 내용을 정리하세요
3. 한국어로 작성하세요

## 출력 형식 (JSON):
```json
{\"title\": \"이벤트 제목\", \"summary\": \"이벤트 요약\"}
```

## 결과 (JSON):";

/// The prompt line of the article at `i` (from 0).
pub open spec fn article_line(i: nat, a: ClusterArticle) -> Seq<char> {
    decimal(i + 1) + ". ["@ + a.category@ + "] "@ + a.title@ + " ("@ + match a.published_at {
        Some(d) => d@,
        None => "날짜 없음"@,
    } + ")\n"@
}

/// The lines of the first `n` articles.
pub open spec fn article_lines(arts: Seq<ClusterArticle>, n: nat) -> Seq<char>
    decreases n,
{
    if n == 0 {
        Seq::empty()
    } else {
        article_lines(arts, (n - 1) as nat) + article_line((n - 1) as nat, arts[n - 1])
    }
}

/// The articles part of the prompt: the first ten articles, and how many
/// more there are.
pub open spec fn articles_text(arts: Seq<ClusterArticle>) -> Seq<char> {
    if arts.len() > 10 {
        article_lines(arts, 10) + "... 외 "@ + decimal((arts.len() - 10) as nat) + "개 기사\n"@
    } else {
        article_lines(arts, arts.len())
    }
}

/// Build the prompt that asks for a cluster's title and summary.
pub fn build_summary_prompt(articles: &[ClusterArticle]) -> (r: String)
    ensures
        r@ == SUMMARY_PROMPT_HEAD@ + articles_text(articles@) + SUMMARY_PROMPT_TAIL@,
{
    let n = articles.len();
    let shown = if n > 10 { 10 } else { n };
    let mut text: Vec<char> = Vec::new();
    let mut i: usize = 0;
    while i < shown
        invariant
            i <= shown,
            shown <= articles@.len(),
            shown <= 10,
            text@ == article_lines(articles@, i as nat),
        decreases shown - i,
    {
        let a = &articles[i];
        let ghost before = text@;
        push_decimal(&mut text, (i + 1) as u64);
        push_str(&mut text, ". [");
        push_str(&mut text, a.category.as_str());
        push_str(&mut text, "] ");
        push_str(&mut text, a.title.as_str());
        push_str(&mut text, " (");
        match &a.published_at {
            Some(d) => push_str(&mut text, d.as_str()),
            None => push_str(&mut text, "날짜 없음"),
        }
        push_str(&mut text, ")\n");
        proof {
            assert(text@ =~= before + article_line(i as nat, articles@[i as int]));
        }
        i = i + 1;
    }
    if n > 10 {
        push_str(&mut text, "... 외 ");
        push_decimal(&mut text, (n - 10) as u64);
        push_str(&mut text, "개 기사\n");
    }
    let mut out: Vec<char> = Vec::new();
    push_str(&mut out, SUMMARY_PROMPT_HEAD);
    crate::text::extend_chars(&mut out, text.as_slice());
    push_str(&mut out, SUMMARY_PROMPT_TAIL);
    string_of(out.as_slice())
}

} // verus!
