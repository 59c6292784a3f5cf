//! Crawler instance identities of the distributed rotation.
use vstd::prelude::*;

verus! {

/// One of the three crawler instances that share the hourly rotation.
#[derive(Debug, Clone, Copy, PartialEq, Eq, Hash, Structural)]
pub enum CrawlerInstance {
    Main,
    Sub1,
    Sub2,
}

impl CrawlerInstance {
    /// The identifier of an instance.
    pub open spec fn spec_id(self) -> Seq<char> {
        match self {
            CrawlerInstance::Main => "main"@,
            CrawlerInstance::Sub1 => "sub1"@,
            CrawlerInstance::Sub2 => "sub2"@,
        }
    }

    /// Identifier of the instance (`main`, `sub1` or `sub2`).
    pub fn id(&self) -> (r: &'static str)
        ensures
            r@ == self.spec_id(),
    {
        match self {
            CrawlerInstance::Main => "main",
            CrawlerInstance::Sub1 => "sub1",
            CrawlerInstance::Sub2 => "sub2",
        }
    }

    /// The instance with a given identifier.
    pub fn from_id(s: &str) -> (r: Result<CrawlerInstance, ()>)
        ensures
            match r {
                Ok(c) => c.spec_id() == s@,
                Err(()) => forall|c: CrawlerInstance| c.spec_id() != s@,
            },
    {
        let v = crate::text::chars_of(s);
        if crate::text::eq_literal(v.as_slice(), "main") {
            Ok(CrawlerInstance::Main)
        } else if crate::text::eq_literal(v.as_slice(), "sub1") {
            Ok(CrawlerInstance::Sub1)
        } else if crate::text::eq_literal(v.as_slice(), "sub2") {
            Ok(CrawlerInstance::Sub2)
        } else {
            Err(())
        }
    }
}

/// Distinct instances have distinct identifiers.
pub proof fn instance_ids_are_distinct(a: CrawlerInstance, b: CrawlerInstance)
    ensures
        a.spec_id() == b.spec_id() ==> a == b,
{
    reveal_strlit("main");
    reveal_strlit("sub1");
    reveal_strlit("sub2");
    if a != b {
        assert(a.spec_id()[0] != b.spec_id()[0] || a.spec_id()[3] != b.spec_id()[3]);
    }
}

} // verus!
