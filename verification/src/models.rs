//! Shared domain types: news categories and parsed articles.
use vstd::prelude::*;

verus! {

/// Naver News sections.
#[derive(Debug, Clone, Copy, PartialEq, Eq, Hash, Structural)]
pub enum NewsCategory {
    Politics,
    Economy,
    Society,
    Culture,
    World,
    IT,
}

impl NewsCategory {
    /// The Naver section id (`sid1`) of a category.
    pub open spec fn spec_section_id(self) -> u32 {
        match self {
            NewsCategory::Politics => 100,
            NewsCategory::Economy => 101,
            NewsCategory::Society => 102,
            NewsCategory::Culture => 103,
            NewsCategory::World => 104,
            NewsCategory::IT => 105,
        }
    }

    /// The lower-case identifier of a category.
    pub open spec fn spec_id(self) -> Seq<char> {
        match self {
            NewsCategory::Politics => "politics"@,
            NewsCategory::Economy => "economy"@,
            NewsCategory::Society => "society"@,
            NewsCategory::Culture => "culture"@,
            NewsCategory::World => "world"@,
            NewsCategory::IT => "it"@,
        }
    }

    /// Naver section id of the category.
    pub fn to_section_id(&self) -> (r: u32)
        ensures
            r == self.spec_section_id(),
    {
        match self {
            NewsCategory::Politics => 100,
            NewsCategory::Economy => 101,
            NewsCategory::Society => 102,
            NewsCategory::Culture => 103,
            NewsCategory::World => 104,
            NewsCategory::IT => 105,
        }
    }

    /// Lower-case identifier of the category.
    pub fn id(&self) -> (r: &'static str)
        ensures
            r@ == self.spec_id(),
    {
        match self {
            NewsCategory::Politics => "politics",
            NewsCategory::Economy => "economy",
            NewsCategory::Society => "society",
            NewsCategory::Culture => "culture",
            NewsCategory::World => "world",
            NewsCategory::IT => "it",
        }
    }

    /// All categories in section-id order.
    pub fn all() -> (r: Vec<NewsCategory>)
        ensures
            r@ == seq![
                NewsCategory::Politics,
                NewsCategory::Economy,
                NewsCategory::Society,
                NewsCategory::Culture,
                NewsCategory::World,
                NewsCategory::IT,
            ],
    {
        let mut v: Vec<NewsCategory> = Vec::new();
        v.push(NewsCategory::Politics);
        v.push(NewsCategory::Economy);
        v.push(NewsCategory::Society);
        v.push(NewsCategory::Culture);
        v.push(NewsCategory::World);
        v.push(NewsCategory::IT);
        v
    }

    /// The category with a given identifier.
    pub fn parse(s: &str) -> (r: Option<NewsCategory>)
        ensures
            match r {
                Some(c) => c.spec_id() == s@,
                None => forall|c: NewsCategory| c.spec_id() != s@,
            },
    {
        let v = crate::text::chars_of(s);
        let all = NewsCategory::all();
        let mut i: usize = 0;
        while i < all.len()
            invariant
                i <= all@.len(),
                all@ == seq![
                    NewsCategory::Politics,
                    NewsCategory::Economy,
                    NewsCategory::Society,
                    NewsCategory::Culture,
                    NewsCategory::World,
                    NewsCategory::IT,
                ],
                v@ == s@,
                forall|k: int| 0 <= k < i ==> (#[trigger] all@[k]).spec_id() != s@,
            decreases all@.len() - i,
        {
            let c = all[i];
            if crate::text::eq_literal(v.as_slice(), c.id()) {
                return Some(c);
            }
            i = i + 1;
        }
        proof {
            assert forall|c: NewsCategory| c.spec_id() != s@ by {
                match c {
                    NewsCategory::Politics => assert(all@[0] == c),
                    NewsCategory::Economy => assert(all@[1] == c),
                    NewsCategory::Society => assert(all@[2] == c),
                    NewsCategory::Culture => assert(all@[3] == c),
                    NewsCategory::World => assert(all@[4] == c),
                    NewsCategory::IT => assert(all@[5] == c),
                }
            }
        }
        None
    }
}

/// Distinct categories have distinct identifiers, so reading a category's
/// identifier gives that category back.
pub proof fn category_ids_are_distinct(a: NewsCategory, b: NewsCategory)
    ensures
        a.spec_id() == b.spec_id() ==> a == b,
{
    reveal_strlit("politics");
    reveal_strlit("economy");
    reveal_strlit("society");
    reveal_strlit("culture");
    reveal_strlit("world");
    reveal_strlit("it");
    if a != b && a.spec_id().len() == b.spec_id().len() {
        assert(a.spec_id()[0] != b.spec_id()[0]);
    }
}

/// A news article as read from a crawled file. Times are Unix seconds.
#[derive(Debug)]
pub struct ParsedArticle {
    /// Publisher id.
    pub oid: String,
    /// Article id.
    pub aid: String,
    pub title: String,
    pub content: String,
    pub url: String,
    pub category: String,
    pub publisher: Option<String>,
    pub author: Option<String>,
    pub published_at: Option<i64>,
    pub crawled_at: i64,
    pub content_hash: Option<String>,
}

} // verus!
