//! Named entities found in articles: their mentions over time, and the
//! network of entities that appear in the same documents.
//!
//! A mention's sentiment score is a real number; it is carried through as
//! the type parameter `S` and never read here, so averaging scores and the
//! pointwise mutual information of two entities are computed by the caller
//! from the counts below.
use vstd::prelude::*;
use vstd::multiset::Multiset;
use crate::text::{
    chars_of, string_of, lowercase, to_lowercase, eq_literal, is_ascii_text, same_chars, strictly_sorted,
    insert_sorted_unique, string_views, id_set, lex_lt,
};

verus! {

/// Entity type classification.
#[derive(Debug, Clone, Copy, PartialEq, Eq, Hash, Structural)]
pub enum EntityType {
    /// Person (politician, CEO, celebrity, etc.)
    Person,
    /// Organization (company, government agency, NGO, etc.)
    Organization,
    /// Location (country, city, region, etc.)
    Location,
    /// Product or brand
    Product,
    /// Event (election, conference, disaster, etc.)
    Event,
    /// Other/Unknown
    Other,
}

/// The entity type a label names, in any case: `person`/`per`,
/// `organization`/`org`, `location`/`loc`/`gpe`, `product`/`prod`, `event`;
/// anything else is `Other`.
pub open spec fn spec_entity_type(label: Seq<char>) -> EntityType {
    let l = lowercase(label);
    if l == "person"@ || l == "per"@ {
        EntityType::Person
    } else if l == "organization"@ || l == "org"@ {
        EntityType::Organization
    } else if l == "location"@ || l == "loc"@ || l == "gpe"@ {
        EntityType::Location
    } else if l == "product"@ || l == "prod"@ {
        EntityType::Product
    } else if l == "event"@ {
        EntityType::Event
    } else {
        EntityType::Other
    }
}

impl EntityType {
    /// The lower-case name of a type.
    pub open spec fn spec_as_str(self) -> Seq<char> {
        match self {
            EntityType::Person => "person"@,
            EntityType::Organization => "organization"@,
            EntityType::Location => "location"@,
            EntityType::Product => "product"@,
            EntityType::Event => "event"@,
            EntityType::Other => "other"@,
        }
    }

    /// Parse entity type from string.
    pub fn from_str(s: &str) -> (r: Self)
        ensures
            r == spec_entity_type(s@),
    {
        let lower = to_lowercase(s);
        let l = chars_of(lower.as_str());
        let v = l.as_slice();
        if eq_literal(v, "person") || eq_literal(v, "per") {
            EntityType::Person
        } else if eq_literal(v, "organization") || eq_literal(v, "org") {
            EntityType::Organization
        } else if eq_literal(v, "location") || eq_literal(v, "loc") || eq_literal(v, "gpe") {
            EntityType::Location
        } else if eq_literal(v, "product") || eq_literal(v, "prod") {
            EntityType::Product
        } else if eq_literal(v, "event") {
            EntityType::Event
        } else {
            EntityType::Other
        }
    }

    /// Convert to string representation.
    pub fn as_str(&self) -> (r: &'static str)
        ensures
            r@ == self.spec_as_str(),
    {
        match self {
            EntityType::Person => "person",
            EntityType::Organization => "organization",
            EntityType::Location => "location",
            EntityType::Product => "product",
            EntityType::Event => "event",
            EntityType::Other => "other",
        }
    }
}

/// An entity mention in a specific context. The sentiment score, when
/// known, is carried as `S`.
#[derive(Debug)]
pub struct EntityMention<S> {
    /// When the entity was mentioned (Unix seconds)
    pub timestamp: i64,
    /// Document/article ID where mentioned
    pub document_id: String,
    /// Sentiment score if available
    pub sentiment: Option<S>,
    /// Context snippet around the mention
    pub context: Option<String>,
}

impl<S> EntityMention<S> {
    /// Create a new entity mention.
    pub fn new(timestamp: i64, document_id: String) -> (r: Self)
        ensures
            r == (EntityMention::<S> { timestamp, document_id, sentiment: None, context: None }),
    {
        EntityMention { timestamp, document_id, sentiment: None, context: None }
    }

    /// The mention with a sentiment score (kept to -1..1 by the caller).
    pub fn with_sentiment(self, sentiment: S) -> (r: Self)
        ensures
            r == (EntityMention { sentiment: Some(sentiment), ..self }),
    {
        EntityMention { sentiment: Some(sentiment), ..self }
    }

    /// The mention with a context snippet.
    pub fn with_context(self, context: String) -> (r: Self)
        ensures
            r == (EntityMention { context: Some(context), ..self }),
    {
        EntityMention { context: Some(context), ..self }
    }
}

/// Mentions in time order.
pub open spec fn time_ordered<S>(ms: Seq<EntityMention<S>>) -> bool {
    forall|i: int, j: int| 0 <= i < j < ms.len() ==> (#[trigger] ms[i]).timestamp <= (#[trigger] ms[j]).timestamp
}

/// The first position from `from` on of a mention later than `t` (or the
/// end): where a mention at `t` goes, after those at or before it.
pub open spec fn first_later<S>(ms: Seq<EntityMention<S>>, t: i64, from: int) -> int
    decreases ms.len() - from,
{
    if from < 0 || from >= ms.len() || ms[from].timestamp > t {
        from
    } else {
        first_later(ms, t, from + 1)
    }
}

/// The mentions from `start` to `end` (both included), in order.
pub open spec fn in_window<S>(ms: Seq<EntityMention<S>>, start: i64, end: i64) -> Seq<EntityMention<S>>
    decreases ms.len(),
{
    if ms.len() == 0 {
        ms
    } else if start <= ms.last().timestamp <= end {
        in_window(ms.drop_last(), start, end).push(ms.last())
    } else {
        in_window(ms.drop_last(), start, end)
    }
}

/// The documents the mentions come from.
pub open spec fn mention_documents<S>(ms: Seq<EntityMention<S>>) -> Set<Seq<char>> {
    Set::new(|d: Seq<char>| exists|i: int| 0 <= i < ms.len() && (#[trigger] ms[i]).document_id@ == d)
}

proof fn lemma_first_later_bounds<S>(ms: Seq<EntityMention<S>>, t: i64, from: int)
    requires
        0 <= from <= ms.len(),
    ensures
        from <= first_later(ms, t, from) <= ms.len(),
        forall|k: int| from <= k < first_later(ms, t, from) ==> (#[trigger] ms[k]).timestamp <= t,
        first_later(ms, t, from) < ms.len() ==> ms[first_later(ms, t, from)].timestamp > t,
    decreases ms.len() - from,
{
    if from < ms.len() && ms[from].timestamp <= t {
        lemma_first_later_bounds(ms, t, from + 1);
    }
}

/// Entity with temporal tracking.
#[derive(Debug)]
pub struct Entity<S> {
    /// Canonical name of the entity
    pub name: String,
    /// Entity type
    pub entity_type: EntityType,
    /// All mentions, in time order (mentions at the same time in the order
    /// they were added)
    pub mentions: Vec<EntityMention<S>>,
    /// Alternative names, each once
    pub aliases: Vec<String>,
    /// Total mention count
    pub total_mentions: u64,
}

/// No text occurs twice.
pub open spec fn all_distinct(v: Seq<String>) -> bool {
    forall|i: int, j: int| 0 <= i < j < v.len() ==> (#[trigger] v[i])@ != (#[trigger] v[j])@
}

impl<S> Entity<S> {
    /// Mentions in time order, aliases each once.
    pub open spec fn wf(&self) -> bool {
        &&& time_ordered(self.mentions@)
        &&& all_distinct(self.aliases@)
    }

    /// Create a new entity.
    pub fn new(name: String, entity_type: EntityType) -> (r: Self)
        ensures
            r.wf(),
            r.name == name,
            r.entity_type == entity_type,
            r.mentions@.len() == 0,
            r.aliases@.len() == 0,
            r.total_mentions == 0,
    {
        Entity { name, entity_type, mentions: Vec::new(), aliases: Vec::new(), total_mentions: 0 }
    }

    /// Add an alias for this entity (an alias already there stays once).
    pub fn add_alias(&mut self, alias: String)
        requires
            old(self).wf(),
        ensures
            final(self).wf(),
            id_set(final(self).aliases@) == id_set(old(self).aliases@).insert(alias@),
            final(self).name == old(self).name,
            final(self).entity_type == old(self).entity_type,
            final(self).mentions == old(self).mentions,
            final(self).total_mentions == old(self).total_mentions,
    {
        let a = chars_of(alias.as_str());
        let mut i: usize = 0;
        while i < self.aliases.len()
            invariant
                i <= self.aliases@.len(),
                a@ == alias@,
                *self == *old(self),
                self.wf(),
                forall|k: int| 0 <= k < i ==> (#[trigger] self.aliases@[k])@ != alias@,
            decreases self.aliases@.len() - i,
        {
            let b = chars_of(self.aliases[i].as_str());
            if same_chars(a.as_slice(), b.as_slice()) {
                proof {
                    assert(string_views(self.aliases@)[i as int] == alias@);
                    assert(id_set(self.aliases@).insert(alias@) =~= id_set(self.aliases@));
                }
                return;
            }
            i = i + 1;
        }
        let ghost before = self.aliases@;
        self.aliases.push(alias);
        proof {
            assert(string_views(self.aliases@) =~= string_views(before).push(alias@));
            string_views(before).lemma_push_to_set_commute(alias@);
        }
    }

    /// Record a mention: it goes after the mentions at or before its time.
    pub fn add_mention(&mut self, mention: EntityMention<S>)
        requires
            old(self).wf(),
            old(self).total_mentions < u64::MAX,
        ensures
            final(self).wf(),
            final(self).mentions@ == old(self).mentions@.insert(
                first_later(old(self).mentions@, mention.timestamp, 0),
                mention,
            ),
            final(self).total_mentions == old(self).total_mentions + 1,
            final(self).name == old(self).name,
            final(self).entity_type == old(self).entity_type,
            final(self).aliases == old(self).aliases,
    {
        let t = mention.timestamp;
        let ghost ms = self.mentions@;
        let mut p: usize = 0;
        while p < self.mentions.len() && self.mentions[p].timestamp <= t
            invariant
                p <= self.mentions@.len(),
                self.mentions@ == ms,
                first_later(ms, t, p as int) == first_later(ms, t, 0),
            decreases self.mentions@.len() - p,
        {
            p = p + 1;
        }
        proof {
            lemma_first_later_bounds(ms, t, 0);
            assert(first_later(ms, t, p as int) == p);
            assert forall|k: int| 0 <= k < p implies (#[trigger] ms[k]).timestamp <= t by {
            }
        }
        self.mentions.insert(p, mention);
        self.total_mentions = self.total_mentions + 1;
        proof {
            let nm = self.mentions@;
            assert forall|i: int, j: int| 0 <= i < j < nm.len() implies (#[trigger] nm[i]).timestamp <= (#[trigger] nm[j]).timestamp by {
                if j < p {
                    assert(nm[i] == ms[i] && nm[j] == ms[j]);
                } else if j == p {
                    assert(nm[i] == ms[i]);
                } else if i < p {
                    assert(nm[i] == ms[i] && nm[j] == ms[j - 1]);
                    assert(ms[p as int].timestamp > t);
                    if j - 1 > p {
                        assert(ms[p as int].timestamp <= ms[j - 1].timestamp);
                    }
                } else if i == p {
                    assert(nm[j] == ms[j - 1]);
                    assert(ms[p as int].timestamp > t);
                    if j - 1 > p {
                        assert(ms[p as int].timestamp <= ms[j - 1].timestamp);
                    }
                } else {
                    assert(nm[i] == ms[i - 1] && nm[j] == ms[j - 1]);
                }
            }
        }
    }

    /// The mentions from `start` to `end`, both included, in time order.
    pub fn mentions_in_range(&self, start: i64, end: i64) -> (r: Vec<&EntityMention<S>>)
        requires
            start <= end,
        ensures
            r@.map_values(|m: &EntityMention<S>| *m) == in_window(self.mentions@, start, end),
    {
        let mut out: Vec<&EntityMention<S>> = Vec::new();
        let mut i: usize = 0;
        while i < self.mentions.len()
            invariant
                i <= self.mentions@.len(),
                out@.map_values(|m: &EntityMention<S>| *m) == in_window(self.mentions@.take(i as int), start, end),
            decreases self.mentions@.len() - i,
        {
            let m = &self.mentions[i];
            proof {
                assert(self.mentions@.take(i + 1).drop_last() =~= self.mentions@.take(i as int));
            }
            if start <= m.timestamp && m.timestamp <= end {
                let ghost before = out@;
                out.push(m);
                proof {
                    assert(out@.map_values(|m: &EntityMention<S>| *m) =~= before.map_values(|m: &EntityMention<S>| *m).push(*m));
                }
            }
            i = i + 1;
        }
        proof {
            assert(self.mentions@.take(self.mentions@.len() as int) =~= self.mentions@);
        }
        out
    }

    /// The number of mentions from `start` to `end`, both included.
    pub fn count_in_range(&self, start: i64, end: i64) -> (r: u64)
        requires
            start <= end,
        ensures
            r == in_window(self.mentions@, start, end).len(),
    {
        let mut n: u64 = 0;
        let mut i: usize = 0;
        while i < self.mentions.len()
            invariant
                i <= self.mentions@.len(),
                n == in_window(self.mentions@.take(i as int), start, end).len(),
                n <= i,
            decreases self.mentions@.len() - i,
        {
            proof {
                assert(self.mentions@.take(i + 1).drop_last() =~= self.mentions@.take(i as int));
            }
            let m = &self.mentions[i];
            if start <= m.timestamp && m.timestamp <= end {
                n = n + 1;
            }
            i = i + 1;
        }
        proof {
            assert(self.mentions@.take(self.mentions@.len() as int) =~= self.mentions@);
        }
        n
    }

    /// The documents that mention this entity, each once, sorted.
    pub fn document_ids(&self) -> (r: Vec<String>)
        ensures
            id_set(r@) == mention_documents(self.mentions@),
            strictly_sorted(string_views(r@)),
    {
        let mut ids: Vec<Vec<char>> = Vec::new();
        let mut i: usize = 0;
        while i < self.mentions.len()
            invariant
                i <= self.mentions@.len(),
                strictly_sorted(ids@.map_values(|e: Vec<char>| e@)),
                ids@.map_values(|e: Vec<char>| e@).to_set() == mention_documents(self.mentions@.take(i as int)),
            decreases self.mentions@.len() - i,
        {
            let d = chars_of(self.mentions[i].document_id.as_str());
            insert_sorted_unique(&mut ids, d);
            proof {
                let ms = self.mentions@;
                assert(mention_documents(ms.take(i + 1)) =~= mention_documents(ms.take(i as int)).insert(
                    ms[i as int].document_id@,
                )) by {
                    assert forall|x: Seq<char>| mention_documents(ms.take(i + 1)).contains(x) implies mention_documents(
                        ms.take(i as int),
                    ).insert(ms[i as int].document_id@).contains(x) by {
                        let k = choose|k: int| 0 <= k < ms.take(i + 1).len() && (#[trigger] ms.take(i + 1)[k]).document_id@ == x;
                        if k < i {
                            assert(ms.take(i as int)[k] == ms.take(i + 1)[k]);
                        }
                    }
                    assert forall|x: Seq<char>| mention_documents(ms.take(i as int)).insert(ms[i as int].document_id@).contains(x)
                        implies mention_documents(ms.take(i + 1)).contains(x) by {
                        if x == ms[i as int].document_id@ {
                            assert(ms.take(i + 1)[i as int] == ms[i as int]);
                        } else {
                            let k = choose|k: int| 0 <= k < ms.take(i as int).len() && (#[trigger] ms.take(i as int)[k]).document_id@ == x;
                            assert(ms.take(i + 1)[k] == ms.take(i as int)[k]);
                        }
                    }
                }
            }
            i = i + 1;
        }
        proof {
            assert(self.mentions@.take(self.mentions@.len() as int) =~= self.mentions@);
        }
        let ghost all = ids@.map_values(|e: Vec<char>| e@);
        let mut out: Vec<String> = Vec::new();
        let mut k: usize = 0;
        while k < ids.len()
            invariant
                k <= ids@.len(),
                all == ids@.map_values(|e: Vec<char>| e@),
                string_views(out@) == all.take(k as int),
            decreases ids@.len() - k,
        {
            let s = string_of(ids[k].as_slice());
            let ghost prev = out@;
            out.push(s);
            proof {
                assert(string_views(out@) =~= string_views(prev).push(all[k as int]));
                assert(all.take(k + 1) =~= all.take(k as int).push(all[k as int]));
            }
            k = k + 1;
        }
        proof {
            assert(all.take(all.len() as int) =~= all);
        }
        out
    }
}

/// Items with a key, ordered by key, largest first.
pub open spec fn key_descending<T>(s: Seq<(T, u64)>) -> bool {
    forall|i: int, j: int| 0 <= i < j < s.len() ==> (#[trigger] s[i]).1 >= (#[trigger] s[j]).1
}

/// Sort items by their key, largest first; items with equal keys keep their
/// order.
fn sort_by_key_descending<T>(v: Vec<(T, u64)>) -> (r: Vec<(T, u64)>)
    ensures
        r@.to_multiset() == v@.to_multiset(),
        r@.len() == v@.len(),
        key_descending(r@),
{
    let ghost all = v@;
    let n = v.len();
    assert(all.len() == n);
    let mut rest = v;
    let mut r: Vec<(T, u64)> = Vec::new();
    let mut i: usize = 0;
    proof {
        assert(all.take(0) =~= r@);
        assert(all.skip(0) =~= all);
    }
    while rest.len() > 0
        invariant
            i <= all.len(),
            all.len() <= usize::MAX,
            rest@ == all.skip(i as int),
            r@.len() == i,
            r@.to_multiset() == all.take(i as int).to_multiset(),
            key_descending(r@),
        decreases rest@.len(),
    {
        proof {
            assert(all.skip(i as int).len() == all.len() - i);
        }
        let x = rest.remove(0);
        proof {
            assert(x == all[i as int]);
            assert(rest@ =~= all.skip(i + 1));
        }
        let xk = x.1;
        let mut p: usize = 0;
        while p < r.len() && r[p].1 >= xk
            invariant
                p <= r@.len(),
                forall|k: int| 0 <= k < p ==> (#[trigger] r@[k]).1 >= xk,
            decreases r@.len() - p,
        {
            p = p + 1;
        }
        let ghost before = r@;
        r.insert(p, x);
        proof {
            lemma_insert_multiset(before, p as int, x);
            all.take(i as int).to_multiset_ensures();
            assert(all.take(i + 1) =~= all.take(i as int).push(x));
            let nr = r@;
            assert forall|a: int, b: int| 0 <= a < b < nr.len() implies (#[trigger] nr[a]).1 >= (#[trigger] nr[b]).1 by {
                if b < p {
                    assert(nr[a] == before[a] && nr[b] == before[b]);
                } else if b == p {
                    assert(nr[a] == before[a]);
                } else if a < p {
                    assert(nr[a] == before[a] && nr[b] == before[b - 1]);
                    assert(before[p as int].1 < xk);
                    if b - 1 > p {
                        assert(before[p as int].1 >= before[b - 1].1);
                    }
                } else if a == p {
                    assert(nr[b] == before[b - 1]);
                    assert(before[p as int].1 < xk);
                    if b - 1 > p {
                        assert(before[p as int].1 >= before[b - 1].1);
                    }
                } else {
                    assert(nr[a] == before[a - 1] && nr[b] == before[b - 1]);
                }
            }
        }
        i = i + 1;
    }
    proof {
        assert(all.take(all.len() as int) =~= all);
    }
    r
}

/// Errors of entity analysis.
#[derive(Debug)]
pub enum EntityError {
    /// No entity of that name
    EntityNotFound(String),
    /// The two entities never appear in the same document
    InsufficientCooccurrence(String, String),
}

impl EntityError {
    /// The message that displays the error.
    pub open spec fn spec_message(&self) -> Seq<char> {
        match self {
            EntityError::EntityNotFound(n) => "Entity not found: "@ + n@,
            EntityError::InsufficientCooccurrence(a, b) => "Insufficient co-occurrence data for entities: "@ + a@
                + " and "@ + b@,
        }
    }

    /// The message that displays the error.
    pub fn message(&self) -> (r: String)
        ensures
            r@ == self.spec_message(),
    {
        let mut out: Vec<char> = Vec::new();
        match self {
            EntityError::EntityNotFound(n) => {
                crate::text::push_str(&mut out, "Entity not found: ");
                crate::text::push_str(&mut out, n.as_str());
            },
            EntityError::InsufficientCooccurrence(a, b) => {
                crate::text::push_str(&mut out, "Insufficient co-occurrence data for entities: ");
                crate::text::push_str(&mut out, a.as_str());
                crate::text::push_str(&mut out, " and ");
                crate::text::push_str(&mut out, b.as_str());
            },
        }
        string_of(out.as_slice())
    }
}

/// Co-occurrence of two entities: the documents where both appear.
#[derive(Debug)]
pub struct Cooccurrence {
    /// First entity (the smaller name)
    pub entity_a: String,
    /// Second entity
    pub entity_b: String,
    /// Number of documents where both appear
    pub count: u64,
    /// Those documents, sorted
    pub document_ids: Vec<String>,
}

/// A co-occurrence with the figures its pointwise mutual information is
/// computed from: the documents of each entity and of the whole network.
#[derive(Debug)]
pub struct CooccurrenceStats {
    pub cooccurrence: Cooccurrence,
    /// Documents mentioning the first entity
    pub docs_a: u64,
    /// Documents mentioning the second entity
    pub docs_b: u64,
    /// Documents recorded in the network
    pub total_docs: u64,
}

/// Entity relationship network: the entities, and for each recorded
/// document the names of the entities it mentions.
#[derive(Debug)]
pub struct EntityNetwork<S> {
    entities: Vec<Entity<S>>,
    document_entities: Vec<(String, Vec<String>)>,
}

/// No two entities share a name.
pub open spec fn names_distinct<S>(ents: Seq<Entity<S>>) -> bool {
    forall|i: int, j: int| 0 <= i < j < ents.len() ==> (#[trigger] ents[i]).name@ != (#[trigger] ents[j]).name@
}

/// No document is recorded twice.
pub open spec fn documents_distinct(docs: Seq<(String, Vec<String>)>) -> bool {
    forall|i: int, j: int| 0 <= i < j < docs.len() ==> (#[trigger] docs[i]).0@ != (#[trigger] docs[j]).0@
}

/// Some entity has the name.
pub open spec fn has_name<S>(ents: Seq<Entity<S>>, n: Seq<char>) -> bool {
    exists|i: int| 0 <= i < ents.len() && (#[trigger] ents[i]).name@ == n
}

/// The position of the entity with the name (when there is one).
pub open spec fn name_index<S>(ents: Seq<Entity<S>>, n: Seq<char>) -> int {
    choose|i: int| 0 <= i < ents.len() && (#[trigger] ents[i]).name@ == n
}

proof fn lemma_name_index<S>(ents: Seq<Entity<S>>, n: Seq<char>, i: int)
    requires
        names_distinct(ents),
        0 <= i < ents.len(),
        ents[i].name@ == n,
    ensures
        has_name(ents, n),
        name_index(ents, n) == i,
{
    let j = name_index(ents, n);
    assert(0 <= j < ents.len() && ents[j].name@ == n);
    if j != i {
        if j < i {
            assert(ents[j].name@ != ents[i].name@);
        } else {
            assert(ents[i].name@ != ents[j].name@);
        }
    }
}

/// The mentions of the entity named `n` among (name, mention) pairs, in
/// order.
pub open spec fn mentions_for<S>(ms: Seq<(String, EntityMention<S>)>, n: Seq<char>) -> Seq<EntityMention<S>>
    decreases ms.len(),
{
    if ms.len() == 0 {
        Seq::empty()
    } else if ms.last().0@ == n {
        mentions_for(ms.drop_last(), n).push(ms.last().1)
    } else {
        mentions_for(ms.drop_last(), n)
    }
}

/// The names among (name, mention) pairs.
pub open spec fn mentioned_names<S>(ms: Seq<(String, EntityMention<S>)>) -> Set<Seq<char>> {
    Set::new(|n: Seq<char>| exists|k: int| 0 <= k < ms.len() && (#[trigger] ms[k]).0@ == n)
}

/// `e` is the entity `base` with the mentions `added` recorded.
pub open spec fn recorded<S>(base: Entity<S>, e: Entity<S>, added: Seq<EntityMention<S>>) -> bool {
    &&& e.wf()
    &&& e.name == base.name
    &&& e.entity_type == base.entity_type
    &&& e.aliases == base.aliases
    &&& e.total_mentions == base.total_mentions + added.len()
    &&& e.mentions@.to_multiset() == base.mentions@.to_multiset().add(added.to_multiset())
}

/// `e` is a new entity named `n`, of type `Other`, with the mentions
/// `added` recorded.
pub open spec fn created<S>(n: Seq<char>, e: Entity<S>, added: Seq<EntityMention<S>>) -> bool {
    &&& e.wf()
    &&& e.name@ == n
    &&& e.entity_type == EntityType::Other
    &&& e.aliases@.len() == 0
    &&& e.total_mentions == added.len()
    &&& e.mentions@.to_multiset() == added.to_multiset()
}

proof fn lemma_mentions_for_step<S>(all: Seq<(String, EntityMention<S>)>, k: int, n: Seq<char>)
    requires
        0 <= k < all.len(),
    ensures
        mentions_for(all.take(k + 1), n) == if all[k].0@ == n {
            mentions_for(all.take(k), n).push(all[k].1)
        } else {
            mentions_for(all.take(k), n)
        },
        mentioned_names(all.take(k + 1)) == mentioned_names(all.take(k)).insert(all[k].0@),
{
    assert(all.take(k + 1).drop_last() =~= all.take(k));
    assert(all.take(k + 1).last() == all[k]);
    let a = mentioned_names(all.take(k + 1));
    let b = mentioned_names(all.take(k)).insert(all[k].0@);
    assert forall|x: Seq<char>| a.contains(x) implies b.contains(x) by {
        let j = choose|j: int| 0 <= j < all.take(k + 1).len() && (#[trigger] all.take(k + 1)[j]).0@ == x;
        if j < k {
            assert(all.take(k)[j] == all.take(k + 1)[j]);
        }
    }
    assert forall|x: Seq<char>| b.contains(x) implies a.contains(x) by {
        if x == all[k].0@ {
            assert(all.take(k + 1)[k] == all[k]);
        } else {
            let j = choose|j: int| 0 <= j < all.take(k).len() && (#[trigger] all.take(k)[j]).0@ == x;
            assert(all.take(k + 1)[j] == all.take(k)[j]);
        }
    }
    assert(a =~= b);
}

proof fn lemma_no_mentions_without_name<S>(ms: Seq<(String, EntityMention<S>)>, n: Seq<char>)
    requires
        !mentioned_names(ms).contains(n),
    ensures
        mentions_for(ms, n) == Seq::<EntityMention<S>>::empty(),
    decreases ms.len(),
{
    if ms.len() > 0 {
        assert(ms.last().0@ != n) by {
            if ms.last().0@ == n {
                assert(ms[ms.len() - 1].0@ == n);
            }
        }
        assert(!mentioned_names(ms.drop_last()).contains(n)) by {
            if mentioned_names(ms.drop_last()).contains(n) {
                let j = choose|j: int| 0 <= j < ms.drop_last().len() && (#[trigger] ms.drop_last()[j]).0@ == n;
                assert(ms[j] == ms.drop_last()[j]);
            }
        }
        lemma_no_mentions_without_name(ms.drop_last(), n);
    }
}

proof fn lemma_empty_mentions_multiset<S>()
    ensures
        Seq::<EntityMention<S>>::empty().to_multiset() == Multiset::<EntityMention<S>>::empty(),
{
    let e = Seq::<EntityMention<S>>::empty();
    e.to_multiset_ensures();
    vstd::multiset::lemma_multiset_empty_len(e.to_multiset());
}

pub(crate) proof fn lemma_insert_multiset<A>(s: Seq<A>, p: int, x: A)
    requires
        0 <= p <= s.len(),
    ensures
        s.insert(p, x).to_multiset() == s.to_multiset().insert(x),
{
    let t = s.insert(p, x);
    t.to_multiset_ensures();
    s.to_multiset_ensures();
    assert(t.remove(p) =~= s);
    assert(t[p] == x);
    assert(t.contains(x));
    assert(t.to_multiset() =~= s.to_multiset().insert(x));
}

/// The documents that mention an entity.
pub open spec fn docs_of<S>(e: Entity<S>) -> Set<Seq<char>> {
    mention_documents(e.mentions@)
}

/// A pair of names in order: the smaller one first.
pub open spec fn ordered_pair(a: Seq<char>, b: Seq<char>) -> (Seq<char>, Seq<char>) {
    if lex_lt(a, b) {
        (a, b)
    } else {
        (b, a)
    }
}

/// `co` is the co-occurrence of the entities named `a` and `b`: their names
/// in order, the documents that mention both (sorted) and their number.
pub open spec fn is_cooccurrence<S>(ents: Seq<Entity<S>>, a: Seq<char>, b: Seq<char>, co: Cooccurrence) -> bool {
    let (x, y) = ordered_pair(a, b);
    let common = docs_of(ents[name_index(ents, x)]).intersect(docs_of(ents[name_index(ents, y)]));
    &&& has_name(ents, x)
    &&& has_name(ents, y)
    &&& co.entity_a@ == x
    &&& co.entity_b@ == y
    &&& id_set(co.document_ids@) == common
    &&& strictly_sorted(string_views(co.document_ids@))
    &&& co.count == co.document_ids@.len()
    &&& co.count == common.len()
    &&& co.count > 0
}

fn contains_text(v: &Vec<String>, x: &[char]) -> (r: bool)
    ensures
        r == id_set(v@).contains(x@),
{
    let mut i: usize = 0;
    while i < v.len()
        invariant
            i <= v@.len(),
            forall|k: int| 0 <= k < i ==> (#[trigger] v@[k])@ != x@,
        decreases v@.len() - i,
    {
        let c = chars_of(v[i].as_str());
        if same_chars(c.as_slice(), x) {
            proof {
                assert(string_views(v@)[i as int] == x@);
            }
            return true;
        }
        i = i + 1;
    }
    proof {
        if string_views(v@).contains(x@) {
            let k = choose|k: int| 0 <= k < string_views(v@).len() && string_views(v@)[k] == x@;
            assert(v@[k]@ == x@);
        }
    }
    false
}

proof fn lemma_sorted_set_len(v: Seq<Seq<char>>)
    requires
        strictly_sorted(v),
    ensures
        v.to_set().len() == v.len(),
{
    assert forall|i: int, j: int| 0 <= i < v.len() && 0 <= j < v.len() && i != j implies v[i] != v[j] by {
        if i < j {
            crate::text::lemma_lex_irreflexive(v[i]);
        } else {
            crate::text::lemma_lex_irreflexive(v[j]);
        }
    }
    v.unique_seq_to_set();
}

/// The number of entities that fit an optional type filter.
pub open spec fn fit_count<S>(ents: Seq<Entity<S>>, t: Option<EntityType>) -> nat
    decreases ents.len(),
{
    if ents.len() == 0 {
        0
    } else {
        fit_count(ents.drop_last(), t) + if fits_type(ents.last(), t) { 1nat } else { 0nat }
    }
}

/// The entity fits the optional type filter.
pub open spec fn fits_type<S>(e: Entity<S>, t: Option<EntityType>) -> bool {
    match t {
        Some(ty) => e.entity_type == ty,
        None => true,
    }
}

/// The number of entities mentioned between `start` and `end`.
pub open spec fn active_count<S>(ents: Seq<Entity<S>>, start: i64, end: i64) -> nat
    decreases ents.len(),
{
    if ents.len() == 0 {
        0
    } else {
        active_count(ents.drop_last(), start, end) + if in_window(ents.last().mentions@, start, end).len() > 0 {
            1nat
        } else {
            0nat
        }
    }
}

/// The smaller of two numbers.
pub open spec fn min_nat(a: nat, b: nat) -> nat {
    if a <= b {
        a
    } else {
        b
    }
}

proof fn lemma_distinct_no_dup(cs: Seq<((String, Cooccurrence), u64)>)
    requires
        forall|a: int, b: int| 0 <= a < b < cs.len() ==> (#[trigger] cs[a]).0.0@ != (#[trigger] cs[b]).0.0@,
    ensures
        cs.no_duplicates(),
{
    assert forall|a: int, b: int| 0 <= a < cs.len() && 0 <= b < cs.len() && a != b implies cs[a] != cs[b] by {
        if a < b {
            assert(cs[a].0.0@ != cs[b].0.0@);
        } else {
            assert(cs[b].0.0@ != cs[a].0.0@);
        }
    }
}

/// The number of documents two entities share.
pub open spec fn shared_count<S>(ents: Seq<Entity<S>>, a: Seq<char>, b: Seq<char>) -> nat {
    let (x, y) = ordered_pair(a, b);
    docs_of(ents[name_index(ents, x)]).intersect(docs_of(ents[name_index(ents, y)])).len()
}

/// Another entity shares at least `min` documents, and at least one, with
/// the one named `n`.
pub open spec fn qualifies<S>(ents: Seq<Entity<S>>, n: Seq<char>, min: u64, other: Seq<char>) -> bool {
    &&& other != n
    &&& has_name(ents, other)
    &&& shared_count(ents, n, other) > 0
    &&& shared_count(ents, n, other) >= min
}

/// A related entity with its co-occurrence with the one named `n`.
pub open spec fn related_entry<S>(ents: Seq<Entity<S>>, n: Seq<char>, min: u64, e: (String, Cooccurrence)) -> bool {
    &&& e.0@ != n
    &&& has_name(ents, e.0@)
    &&& is_cooccurrence(ents, n, e.0@, e.1)
    &&& e.1.count >= min
}

/// The entities related to the one named `n`, most shared first: each
/// once, each with its co-occurrence, and every entity that shares at least
/// `min` documents (and one at least) among them.
pub open spec fn related_list<S>(ents: Seq<Entity<S>>, n: Seq<char>, min: u64, v: Seq<(String, Cooccurrence)>) -> bool {
    &&& forall|a: int, b: int| 0 <= a < b < v.len() ==> (#[trigger] v[a]).1.count >= (#[trigger] v[b]).1.count
    &&& forall|a: int, b: int| 0 <= a < b < v.len() ==> (#[trigger] v[a]).0@ != (#[trigger] v[b]).0@
    &&& forall|k: int| 0 <= k < v.len() ==> related_entry(ents, n, min, #[trigger] v[k])
    &&& forall|i: int| 0 <= i < ents.len() && qualifies(ents, n, min, (#[trigger] ents[i]).name@) ==> exists|k: int|
        0 <= k < v.len() && (#[trigger] v[k]).0@ == ents[i].name@
}

/// A candidate of `find_related`, from one of the first `upto` entities,
/// keyed by its count.
pub open spec fn candidate_ok<S>(ents: Seq<Entity<S>>, n: Seq<char>, min: u64, c: ((String, Cooccurrence), u64), upto: int) -> bool {
    &&& related_entry(ents, n, min, c.0)
    &&& c.1 == c.0.1.count
    &&& name_index(ents, c.0.0@) < upto
}

proof fn lemma_no_repeat_in_sorted<T>(cs: Seq<T>, ss: Seq<T>, a: int, b: int)
    requires
        cs.no_duplicates(),
        ss.to_multiset() == cs.to_multiset(),
        0 <= a < b < ss.len(),
    ensures
        ss[a] != ss[b],
{
    cs.to_multiset_ensures();
    ss.to_multiset_ensures();
    cs.lemma_multiset_has_no_duplicates();
    if ss[a] == ss[b] {
        let r = ss.remove(b);
        r.to_multiset_ensures();
        assert(r.to_multiset() == ss.to_multiset().remove(ss[b]));
        assert(r[a] == ss[a]);
        assert(r.contains(ss[a]));
        assert(r.to_multiset().count(ss[a]) > 0);
        assert(ss.to_multiset().count(ss[a]) >= 2);
        assert(ss.contains(ss[a]));
        assert(cs.to_multiset().count(ss[a]) > 0);
        assert(cs.contains(ss[a]));
    }
}

proof fn lemma_top_of_sorted<T>(cands: Seq<(T, u64)>, sorted: Seq<(T, u64)>, limit: int, x: (T, u64))
    requires
        sorted.to_multiset() == cands.to_multiset(),
        key_descending(sorted),
        cands.contains(x),
        0 <= limit,
        forall|k: int| 0 <= k < limit && k < sorted.len() ==> sorted[k] != x,
    ensures
        forall|k: int| 0 <= k < limit && k < sorted.len() ==> (#[trigger] sorted[k]).1 >= x.1,
{
    cands.to_multiset_ensures();
    sorted.to_multiset_ensures();
    assert(cands.to_multiset().count(x) > 0);
    assert(sorted.to_multiset().count(x) > 0);
    assert(sorted.contains(x));
    let p = choose|p: int| 0 <= p < sorted.len() && sorted[p] == x;
    assert forall|k: int| 0 <= k < limit && k < sorted.len() implies (#[trigger] sorted[k]).1 >= x.1 by {
        assert(k != p);
        if p < k {
            assert(p >= limit);
        }
        assert(sorted[k].1 >= sorted[p].1);
    }
}

proof fn lemma_from_sorted<T>(cands: Seq<(T, u64)>, sorted: Seq<(T, u64)>, k: int)
    requires
        sorted.to_multiset() == cands.to_multiset(),
        0 <= k < sorted.len(),
    ensures
        cands.contains(sorted[k]),
{
    cands.to_multiset_ensures();
    sorted.to_multiset_ensures();
    assert(sorted.contains(sorted[k]));
    assert(sorted.to_multiset().count(sorted[k]) > 0);
    assert(cands.to_multiset().count(sorted[k]) > 0);
}

/// The entity of a ranking entry is the network's entity of that name.
pub open spec fn ranked_entity<S>(ents: Seq<Entity<S>>, c: (&Entity<S>, u64)) -> bool {
    &&& has_name(ents, c.0.name@)
    &&& *c.0 == ents[name_index(ents, c.0.name@)]
}

/// Entities keyed by a count, each name once.
pub open spec fn names_once<S>(c: Seq<(&Entity<S>, u64)>) -> bool {
    forall|a: int, b: int| 0 <= a < b < c.len() ==> (#[trigger] c[a]).0.name@ != (#[trigger] c[b]).0.name@
}

/// `r` holds the `limit` entities of `cands` with the largest counts (or all
/// of them), largest first: each once, and no entity of `cands` left out has
/// a larger count than one taken.
pub open spec fn ranked<S>(cands: Seq<(&Entity<S>, u64)>, limit: usize, r: Seq<(&Entity<S>, u64)>) -> bool {
    &&& r.len() == min_nat(limit as nat, cands.len())
    &&& forall|k: int| 0 <= k < r.len() ==> cands.contains(#[trigger] r[k])
    &&& forall|a: int, b: int| 0 <= a < b < r.len() ==> (#[trigger] r[a]).1 >= (#[trigger] r[b]).1
    &&& names_once(r)
    &&& forall|x: (&Entity<S>, u64)| #[trigger] cands.contains(x) && (forall|k: int| 0 <= k < r.len() ==> (#[trigger] r[k]).0.name@
        != x.0.name@) ==> forall|k: int| 0 <= k < r.len() ==> (#[trigger] r[k]).1 >= x.1
}

proof fn lemma_names_once_no_dup<S>(c: Seq<(&Entity<S>, u64)>)
    requires
        names_once(c),
    ensures
        c.no_duplicates(),
{
    assert forall|a: int, b: int| 0 <= a < c.len() && 0 <= b < c.len() && a != b implies c[a] != c[b] by {
        if a < b {
            assert(c[a].0.name@ != c[b].0.name@);
        } else {
            assert(c[b].0.name@ != c[a].0.name@);
        }
    }
}

/// The `limit` entities with the largest counts, largest first.
fn rank<'a, S>(cands: Vec<(&'a Entity<S>, u64)>, limit: usize) -> (r: Vec<(&'a Entity<S>, u64)>)
    requires
        names_once(cands@),
    ensures
        ranked(cands@, limit, r@),
{
    let ghost cs = cands@;
    let sorted = sort_by_key_descending(cands);
    let ghost ss = sorted@;
    let take = if limit < sorted.len() { limit } else { sorted.len() };
    let mut rest = sorted;
    let mut out: Vec<(&'a Entity<S>, u64)> = Vec::new();
    let mut q: usize = 0;
    proof {
        assert(ss.skip(0) =~= ss);
    }
    while q < take
        invariant
            take <= ss.len(),
            q <= take,
            rest@ == ss.skip(q as int),
            out@ == ss.take(q as int),
        decreases take - q,
    {
        proof {
            assert(ss.skip(q as int).len() == ss.len() - q);
        }
        let item = rest.remove(0);
        proof {
            assert(item == ss[q as int]);
            assert(rest@ =~= ss.skip(q + 1));
        }
        out.push(item);
        proof {
            assert(ss.take(q + 1) =~= ss.take(q as int).push(ss[q as int]));
        }
        q = q + 1;
    }
    proof {
        let r = out@;
        lemma_names_once_no_dup(cs);
        assert forall|k: int| 0 <= k < r.len() implies cs.contains(#[trigger] r[k]) by {
            assert(r[k] == ss[k]);
            lemma_from_sorted(cs, ss, k);
        }
        assert forall|a: int, b: int| 0 <= a < b < r.len() implies (#[trigger] r[a]).1 >= (#[trigger] r[b]).1 by {
            assert(r[a] == ss[a] && r[b] == ss[b]);
        }
        assert forall|a: int, b: int| 0 <= a < b < r.len() implies (#[trigger] r[a]).0.name@ != (#[trigger] r[b]).0.name@ by {
            assert(r[a] == ss[a] && r[b] == ss[b]);
            lemma_from_sorted(cs, ss, a);
            lemma_from_sorted(cs, ss, b);
            let ia = choose|t: int| 0 <= t < cs.len() && cs[t] == ss[a];
            let ib = choose|t: int| 0 <= t < cs.len() && cs[t] == ss[b];
            if ia == ib {
                lemma_no_repeat_in_sorted(cs, ss, a, b);
            } else if ia < ib {
                assert(cs[ia].0.name@ != cs[ib].0.name@);
            } else {
                assert(cs[ib].0.name@ != cs[ia].0.name@);
            }
        }
        assert forall|x: (&Entity<S>, u64)| #[trigger] cs.contains(x) && (forall|k: int| 0 <= k < r.len() ==> (#[trigger] r[k]).0.name@
            != x.0.name@) implies forall|k: int| 0 <= k < r.len() ==> (#[trigger] r[k]).1 >= x.1 by {
            assert forall|k: int| 0 <= k < take && k < ss.len() implies ss[k] != x by {
                assert(r[k] == ss[k]);
                assert(r[k].0.name@ != x.0.name@);
            }
            lemma_top_of_sorted(cs, ss, take as int, x);
            assert forall|k: int| 0 <= k < r.len() implies (#[trigger] r[k]).1 >= x.1 by {
                assert(r[k] == ss[k]);
            }
        }
    }
    out
}

impl<S> EntityNetwork<S> {
    /// The entities, in the order they were first added.
    pub closed spec fn spec_entities(&self) -> Seq<Entity<S>> {
        self.entities@
    }

    /// The recorded documents with the names of their entities.
    pub closed spec fn spec_documents(&self) -> Seq<(String, Vec<String>)> {
        self.document_entities@
    }

    /// Names and documents each once, every entity well formed.
    pub open spec fn wf(&self) -> bool {
        &&& names_distinct(self.spec_entities())
        &&& forall|i: int| 0 <= i < self.spec_entities().len() ==> (#[trigger] self.spec_entities()[i]).wf()
        &&& documents_distinct(self.spec_documents())
    }

    /// Create a new, empty network.
    pub fn new() -> (r: Self)
        ensures
            r.wf(),
            r.spec_entities().len() == 0,
            r.spec_documents().len() == 0,
    {
        EntityNetwork { entities: Vec::new(), document_entities: Vec::new() }
    }

    fn find(&self, name: &[char]) -> (r: Option<usize>)
        ensures
            match r {
                Some(i) => i < self.entities@.len() && self.entities@[i as int].name@ == name@,
                None => !has_name(self.entities@, name@),
            },
    {
        let mut i: usize = 0;
        while i < self.entities.len()
            invariant
                i <= self.entities@.len(),
                forall|k: int| 0 <= k < i ==> (#[trigger] self.entities@[k]).name@ != name@,
            decreases self.entities@.len() - i,
        {
            let n = chars_of(self.entities[i].name.as_str());
            if same_chars(n.as_slice(), name) {
                return Some(i);
            }
            i = i + 1;
        }
        None
    }

    /// Add an entity, replacing one of the same name.
    pub fn add_entity(&mut self, entity: Entity<S>)
        requires
            old(self).wf(),
            entity.wf(),
        ensures
            final(self).wf(),
            final(self).spec_documents() == old(self).spec_documents(),
            has_name(old(self).spec_entities(), entity.name@) ==> final(self).spec_entities() == old(self).spec_entities().update(
                name_index(old(self).spec_entities(), entity.name@),
                entity,
            ),
            !has_name(old(self).spec_entities(), entity.name@) ==> final(self).spec_entities() == old(self).spec_entities().push(
                entity,
            ),
    {
        let n = chars_of(entity.name.as_str());
        let ghost e = entity;
        match self.find(n.as_slice()) {
            Some(i) => {
                proof {
                    lemma_name_index(self.entities@, e.name@, i as int);
                }
                self.entities.set(i, entity);
                proof {
                    let ne = self.entities@;
                    assert forall|a: int, b: int| 0 <= a < b < ne.len() implies (#[trigger] ne[a]).name@ != (#[trigger] ne[b]).name@ by {
                        if a != i && b != i {
                            assert(ne[a] == old(self).entities@[a] && ne[b] == old(self).entities@[b]);
                        } else if a == i {
                            assert(ne[b] == old(self).entities@[b]);
                        } else {
                            assert(ne[a] == old(self).entities@[a]);
                        }
                    }
                }
            },
            None => {
                self.entities.push(entity);
                proof {
                    let ne = self.entities@;
                    assert forall|a: int, b: int| 0 <= a < b < ne.len() implies (#[trigger] ne[a]).name@ != (#[trigger] ne[b]).name@ by {
                        if b == ne.len() - 1 {
                            assert(ne[a] == old(self).entities@[a]);
                        } else {
                            assert(ne[a] == old(self).entities@[a] && ne[b] == old(self).entities@[b]);
                        }
                    }
                }
            },
        }
    }

    /// Get an entity by name.
    pub fn get_entity(&self, name: &str) -> (r: Option<&Entity<S>>)
        requires
            self.wf(),
        ensures
            r is Some == has_name(self.spec_entities(), name@),
            r matches Some(e) ==> *e == self.spec_entities()[name_index(self.spec_entities(), name@)],
    {
        let n = chars_of(name);
        match self.find(n.as_slice()) {
            Some(i) => {
                proof {
                    lemma_name_index(self.entities@, name@, i as int);
                }
                Some(&self.entities[i])
            },
            None => None,
        }
    }

    /// Record the entity mentions of a document: each mention is added to
    /// its entity (created, of type `Other`, when the name is new), and the
    /// document is noted with the names it mentions (replacing an earlier
    /// record of the same document).
    pub fn record_document(&mut self, document_id: String, entity_mentions: Vec<(String, EntityMention<S>)>)
        requires
            old(self).wf(),
            forall|i: int| 0 <= i < old(self).spec_entities().len() ==> (#[trigger] old(self).spec_entities()[i]).total_mentions
                + entity_mentions@.len() <= u64::MAX,
        ensures
            final(self).wf(),
            ({
                let olde = old(self).spec_entities();
                let newe = final(self).spec_entities();
                let ms = entity_mentions@;
                &&& newe.len() >= olde.len()
                &&& forall|i: int| 0 <= i < olde.len() ==> recorded(
                    #[trigger] olde[i],
                    newe[i],
                    mentions_for(ms, olde[i].name@),
                )
                &&& forall|i: int| olde.len() <= i < newe.len() ==> {
                    &&& !has_name(olde, (#[trigger] newe[i]).name@)
                    &&& mentioned_names(ms).contains(newe[i].name@)
                    &&& created(newe[i].name@, newe[i], mentions_for(ms, newe[i].name@))
                }
                &&& forall|n: Seq<char>| #[trigger] mentioned_names(ms).contains(n) ==> has_name(newe, n)
            }),
            ({
                let oldd = old(self).spec_documents();
                let newd = final(self).spec_documents();
                let entry_ok = |d: (String, Vec<String>)|
                    d.0@ == document_id@ && id_set(d.1@) == mentioned_names(entity_mentions@) && strictly_sorted(
                        string_views(d.1@),
                    );
                &&& (exists|i: int| 0 <= i < oldd.len() && (#[trigger] oldd[i]).0@ == document_id@) ==> (newd.len()
                    == oldd.len() && exists|i: int|
                    0 <= i < oldd.len() && (#[trigger] oldd[i]).0@ == document_id@ && newd == oldd.update(i, newd[i])
                        && entry_ok(newd[i]))
                &&& !(exists|i: int| 0 <= i < oldd.len() && (#[trigger] oldd[i]).0@ == document_id@) ==> (newd
                    == oldd.push(newd.last()) && entry_ok(newd.last()))
            }),
    {
        let ghost all = entity_mentions@;
        let ghost olde = self.entities@;
        // the names the document mentions
        let mut names: Vec<Vec<char>> = Vec::new();
        let mut k: usize = 0;
        proof {
            assert(names@.map_values(|e: Vec<char>| e@).to_set() =~= mentioned_names(all.take(0)));
        }
        while k < entity_mentions.len()
            invariant
                k <= all.len(),
                all == entity_mentions@,
                strictly_sorted(names@.map_values(|e: Vec<char>| e@)),
                names@.map_values(|e: Vec<char>| e@).to_set() == mentioned_names(all.take(k as int)),
            decreases all.len() - k,
        {
            insert_sorted_unique(&mut names, chars_of(entity_mentions[k].0.as_str()));
            proof {
                lemma_mentions_for_step(all, k as int, Seq::<char>::empty());
            }
            k = k + 1;
        }
        proof {
            assert(all.take(all.len() as int) =~= all);
        }
        // each mention to its entity
        assert(all.len() <= usize::MAX);
        let mut rest = entity_mentions;
        let mut k: usize = 0;
        proof {
            assert(all.skip(0) =~= all);
            assert forall|n: Seq<char>| !mentioned_names(all.take(0)).contains(n) by {}
            assert forall|n: Seq<char>| #![trigger mentions_for(all.take(0), n)] mentions_for(all.take(0), n) =~= Seq::<EntityMention<S>>::empty() by {
                assert(all.take(0).len() == 0);
            }
            assert forall|i: int| 0 <= i < olde.len() implies recorded(#[trigger] olde[i], self.entities@[i], mentions_for(all.take(0), olde[i].name@)) by {
                assert(mentions_for(all.take(0), olde[i].name@) =~= Seq::<EntityMention<S>>::empty());
                lemma_empty_mentions_multiset::<S>();
                assert(olde[i].mentions@.to_multiset().add(Seq::<EntityMention<S>>::empty().to_multiset()) =~= olde[i].mentions@.to_multiset());
            }
        }
        while rest.len() > 0
            invariant
                k <= all.len(),
                all.len() <= usize::MAX,
                rest@ == all.skip(k as int),
                self.document_entities@ == old(self).document_entities@,
                olde == old(self).entities@,
                names_distinct(self.entities@),
                forall|i: int| 0 <= i < self.entities@.len() ==> (#[trigger] self.entities@[i]).wf(),
                forall|i: int| 0 <= i < self.entities@.len() ==> (#[trigger] self.entities@[i]).total_mentions + (all.len() - k) <= u64::MAX,
                self.entities@.len() >= olde.len(),
                forall|i: int| 0 <= i < olde.len() ==> recorded(
                    #[trigger] olde[i],
                    self.entities@[i],
                    mentions_for(all.take(k as int), olde[i].name@),
                ),
                forall|i: int| olde.len() <= i < self.entities@.len() ==> {
                    &&& !has_name(olde, (#[trigger] self.entities@[i]).name@)
                    &&& mentioned_names(all.take(k as int)).contains(self.entities@[i].name@)
                    &&& created(self.entities@[i].name@, self.entities@[i], mentions_for(all.take(k as int), self.entities@[i].name@))
                },
                forall|n: Seq<char>| #[trigger] mentioned_names(all.take(k as int)).contains(n) ==> has_name(self.entities@, n),
            decreases rest@.len(),
        {
            proof {
                assert(all.skip(k as int).len() == all.len() - k);
            }
            let (name, mention) = rest.remove(0);
            proof {
                assert(all[k as int] == (name, mention));
                assert(rest@ =~= all.skip(k + 1));
                lemma_mentions_for_step(all, k as int, name@);
            }
            let nc = chars_of(name.as_str());
            let ghost before = self.entities@;
            let idx = match self.find(nc.as_slice()) {
                Some(i) => i,
                None => {
                    let e = Entity::new(name, EntityType::Other);
                    self.entities.push(e);
                    proof {
                        let ne = self.entities@;
                        assert forall|a: int, b: int| 0 <= a < b < ne.len() implies (#[trigger] ne[a]).name@ != (#[trigger] ne[b]).name@ by {
                            if b == ne.len() - 1 {
                                assert(ne[a] == before[a]);
                            } else {
                                assert(ne[a] == before[a] && ne[b] == before[b]);
                            }
                        }
                    }
                    self.entities.len() - 1
                },
            };
            let ghost mid = self.entities@;
            let mut e = self.entities.remove(idx);
            let ghost ms0 = e.mentions@;
            e.add_mention(mention);
            proof {
                lemma_first_later_bounds(ms0, mention.timestamp, 0);
                lemma_insert_multiset(ms0, first_later(ms0, mention.timestamp, 0), mention);
            }
            self.entities.insert(idx, e);
            proof {
                let ne = self.entities@;
                assert(ne =~= mid.update(idx as int, e));
                let n = name@;
                assert(mid[idx as int].name@ == n);
                // names stay distinct
                assert forall|a: int, b: int| 0 <= a < b < ne.len() implies (#[trigger] ne[a]).name@ != (#[trigger] ne[b]).name@ by {
                    assert(mid[a].name@ == ne[a].name@ && mid[b].name@ == ne[b].name@);
                }
                let kk = k as int;
                // entities existing before this step
                assert forall|i: int| 0 <= i < olde.len() implies recorded(
                    #[trigger] olde[i],
                    ne[i],
                    mentions_for(all.take(kk + 1), olde[i].name@),
                ) by {
                    lemma_mentions_for_step(all, kk, olde[i].name@);
                    assert(mid[i] == before[i]);
                    if i == idx {
                        let added = mentions_for(all.take(kk), n);
                        assert(olde[i].name@ == n);
                        assert(mentions_for(all.take(kk + 1), n) == added.push(mention));
                        added.to_multiset_ensures();
                        assert(added.push(mention).to_multiset() =~= added.to_multiset().insert(mention));
                        assert(olde[i].mentions@.to_multiset().add(added.push(mention).to_multiset()) =~= olde[i].mentions@.to_multiset().add(
                            added.to_multiset(),
                        ).insert(mention));
                    } else {
                        assert(ne[i] == before[i]);
                        assert(olde[i].name@ != n) by {
                            if olde[i].name@ == n {
                                assert(before[i].name@ == olde[i].name@);
                                assert(mid[i].name@ == mid[idx as int].name@);
                            }
                        }
                    }
                }
                assert forall|i: int| olde.len() <= i < ne.len() implies {
                    &&& !has_name(olde, (#[trigger] ne[i]).name@)
                    &&& mentioned_names(all.take(kk + 1)).contains(ne[i].name@)
                    &&& created(ne[i].name@, ne[i], mentions_for(all.take(kk + 1), ne[i].name@))
                } by {
                    lemma_mentions_for_step(all, kk, ne[i].name@);
                    if i == idx {
                        let added = mentions_for(all.take(kk), n);
                        added.to_multiset_ensures();
                        assert(added.push(mention).to_multiset() =~= added.to_multiset().insert(mention));
                        if i < before.len() {
                            assert(mid[i] == before[i]);
                        } else {
                            // a new entity, named by this mention
                            assert(!has_name(before, n));
                            assert(!has_name(olde, n)) by {
                                if has_name(olde, n) {
                                    let j = choose|j: int| 0 <= j < olde.len() && (#[trigger] olde[j]).name@ == n;
                                    assert(before[j].name@ == olde[j].name@);
                                }
                            }
                            assert(mentions_for(all.take(kk), n) =~= Seq::<EntityMention<S>>::empty()) by {
                                lemma_no_mentions_without_name(all.take(kk), n);
                                if mentioned_names(all.take(kk)).contains(n) {
                                    assert(has_name(before, n));
                                }
                            }
                            assert(mid[i].mentions@ =~= Seq::<EntityMention<S>>::empty());
                            lemma_empty_mentions_multiset::<S>();
                        }
                    } else {
                        assert(ne[i] == mid[i] && mid[i] == before[i]);
                        assert(ne[i].name@ != n) by {
                            assert(mid[i].name@ != mid[idx as int].name@ || i == idx);
                        }
                    }
                }
                assert forall|m: Seq<char>| #[trigger] mentioned_names(all.take(kk + 1)).contains(m) implies has_name(ne, m) by {
                    if m == n {
                        assert(ne[idx as int].name@ == n);
                    } else {
                        assert(mentioned_names(all.take(kk)).contains(m));
                        let j = choose|j: int| 0 <= j < before.len() && (#[trigger] before[j]).name@ == m;
                        assert(ne[j].name@ == mid[j].name@ && mid[j] == before[j]);
                    }
                }
                assert forall|i: int| 0 <= i < ne.len() implies (#[trigger] ne[i]).total_mentions + (all.len() - (kk + 1)) <= u64::MAX by {
                    if i != idx {
                        assert(ne[i] == mid[i]);
                        if i < before.len() {
                            assert(mid[i] == before[i]);
                        }
                    } else if idx < before.len() {
                        assert(mid[i] == before[i]);
                    }
                }
                assert forall|i: int| 0 <= i < ne.len() implies (#[trigger] ne[i]).wf() by {
                    if i != idx {
                        assert(ne[i] == mid[i]);
                        if i < before.len() {
                            assert(mid[i] == before[i]);
                        }
                    }
                }
            }
            k = k + 1;
        }
        proof {
            assert(all.take(all.len() as int) =~= all);
        }
        // the document's names
        let ghost nv = names@.map_values(|e: Vec<char>| e@);
        let mut nlist: Vec<String> = Vec::new();
        let mut q: usize = 0;
        while q < names.len()
            invariant
                q <= names@.len(),
                nv == names@.map_values(|e: Vec<char>| e@),
                string_views(nlist@) == nv.take(q as int),
            decreases names@.len() - q,
        {
            let sname = string_of(names[q].as_slice());
            let ghost prev = nlist@;
            nlist.push(sname);
            proof {
                assert(string_views(nlist@) =~= string_views(prev).push(nv[q as int]));
                assert(nv.take(q + 1) =~= nv.take(q as int).push(nv[q as int]));
            }
            q = q + 1;
        }
        proof {
            assert(nv.take(nv.len() as int) =~= nv);
        }
        let did = chars_of(document_id.as_str());
        let mut p: usize = 0;
        let mut found = false;
        let ghost oldd = self.document_entities@;
        while p < self.document_entities.len() && !found
            invariant
                p <= oldd.len(),
                self.document_entities@ == oldd,
                did@ == document_id@,
                found ==> p < oldd.len() && oldd[p as int].0@ == document_id@,
                forall|j: int| 0 <= j < p ==> (#[trigger] oldd[j]).0@ != document_id@,
            decreases oldd.len() - p + if found { 0int } else { 1int },
        {
            let d = chars_of(self.document_entities[p].0.as_str());
            if same_chars(d.as_slice(), did.as_slice()) {
                found = true;
            } else {
                p = p + 1;
            }
        }
        let entry = (document_id, nlist);
        if found {
            self.document_entities.set(p, entry);
            proof {
                let nd = self.document_entities@;
                assert(nd == oldd.update(p as int, nd[p as int]));
                assert forall|a: int, b: int| 0 <= a < b < nd.len() implies (#[trigger] nd[a]).0@ != (#[trigger] nd[b]).0@ by {
                    if a == p {
                        assert(nd[b] == oldd[b]);
                        assert(oldd[p as int].0@ == document_id@);
                    } else if b == p {
                        assert(nd[a] == oldd[a]);
                    } else {
                        assert(nd[a] == oldd[a] && nd[b] == oldd[b]);
                    }
                }
            }
        } else {
            self.document_entities.push(entry);
            proof {
                let nd = self.document_entities@;
                assert(nd =~= oldd.push(nd.last()));
                assert forall|a: int, b: int| 0 <= a < b < nd.len() implies (#[trigger] nd[a]).0@ != (#[trigger] nd[b]).0@ by {
                    if b == nd.len() - 1 {
                        assert(nd[a] == oldd[a]);
                    } else {
                        assert(nd[a] == oldd[a] && nd[b] == oldd[b]);
                    }
                }
                assert(!(exists|i: int| 0 <= i < oldd.len() && (#[trigger] oldd[i]).0@ == document_id@));
            }
        }
    }

    /// The co-occurrence of two entities, with the figures its pointwise
    /// mutual information is computed from. The names are taken in order,
    /// the smaller first; a name without an entity is reported, the smaller
    /// first, and so are two entities that share no document.
    pub fn cooccurrence(&self, entity_a: &str, entity_b: &str) -> (r: Result<CooccurrenceStats, EntityError>)
        requires
            self.wf(),
        ensures
            ({
                let ents = self.spec_entities();
                let (x, y) = ordered_pair(entity_a@, entity_b@);
                match r {
                    Ok(st) => {
                        &&& is_cooccurrence(ents, entity_a@, entity_b@, st.cooccurrence)
                        &&& st.docs_a == docs_of(ents[name_index(ents, x)]).len()
                        &&& st.docs_b == docs_of(ents[name_index(ents, y)]).len()
                        &&& st.total_docs == self.spec_documents().len()
                    },
                    Err(EntityError::EntityNotFound(n)) => (n@ == x && !has_name(ents, x)) || (n@ == y && has_name(
                        ents,
                        x,
                    ) && !has_name(ents, y)),
                    Err(EntityError::InsufficientCooccurrence(p, q)) => {
                        &&& p@ == x
                        &&& q@ == y
                        &&& has_name(ents, x)
                        &&& has_name(ents, y)
                        &&& docs_of(ents[name_index(ents, x)]).intersect(docs_of(ents[name_index(ents, y)])).len() == 0
                    },
                }
            }),
    {
        let ac = chars_of(entity_a);
        let bc = chars_of(entity_b);
        let (x, y) = if crate::text::chars_lt(ac.as_slice(), bc.as_slice()) {
            (ac, bc)
        } else {
            (bc, ac)
        };
        let ghost ents = self.entities@;
        let ix = match self.find(x.as_slice()) {
            Some(i) => i,
            None => return Err(EntityError::EntityNotFound(string_of(x.as_slice()))),
        };
        let iy = match self.find(y.as_slice()) {
            Some(i) => i,
            None => return Err(EntityError::EntityNotFound(string_of(y.as_slice()))),
        };
        proof {
            lemma_name_index(ents, x@, ix as int);
            lemma_name_index(ents, y@, iy as int);
        }
        let dx = self.entities[ix].document_ids();
        let dy = self.entities[iy].document_ids();
        let ghost sx = string_views(dx@);
        let mut common: Vec<String> = Vec::new();
        let mut k: usize = 0;
        while k < dx.len()
            invariant
                k <= dx@.len(),
                sx == string_views(dx@),
                strictly_sorted(sx),
                strictly_sorted(string_views(common@)),
                id_set(common@) == sx.take(k as int).to_set().intersect(id_set(dy@)),
                forall|c: int| 0 <= c < common@.len() ==> exists|j: int| 0 <= j < k && sx[j] == (#[trigger] common@[c])@,
            decreases dx@.len() - k,
        {
            let d = chars_of(dx[k].as_str());
            proof {
                assert(sx.take(k + 1) =~= sx.take(k as int).push(sx[k as int]));
                sx.take(k as int).lemma_push_to_set_commute(sx[k as int]);
            }
            if contains_text(&dy, d.as_slice()) {
                let ghost before = common@;
                common.push(string_of(d.as_slice()));
                proof {
                    let nc = string_views(common@);
                    assert(nc =~= string_views(before).push(sx[k as int]));
                    string_views(before).lemma_push_to_set_commute(sx[k as int]);
                    assert forall|a: int, b: int| 0 <= a < b < nc.len() implies crate::text::lex_lt(#[trigger] nc[a], #[trigger] nc[b]) by {
                        if b == nc.len() - 1 {
                            let j = choose|j: int| 0 <= j < k && sx[j] == (#[trigger] before[a])@;
                            assert(before[a]@ == nc[a]);
                        } else {
                            assert(nc[a] == string_views(before)[a] && nc[b] == string_views(before)[b]);
                        }
                    }
                    assert forall|c: int| 0 <= c < common@.len() implies exists|j: int| 0 <= j < k + 1 && sx[j] == (#[trigger] common@[c])@ by {
                        if c == common@.len() - 1 {
                            assert(sx[k as int] == common@[c]@);
                        } else {
                            assert(common@[c] == before[c]);
                            let j = choose|j: int| 0 <= j < k && sx[j] == (#[trigger] before[c])@;
                        }
                    }
                    assert(id_set(common@) =~= sx.take(k + 1).to_set().intersect(id_set(dy@)));
                }
            } else {
                proof {
                    assert(id_set(common@) =~= sx.take(k + 1).to_set().intersect(id_set(dy@)));
                    assert forall|c: int| 0 <= c < common@.len() implies exists|j: int| 0 <= j < k + 1 && sx[j] == (#[trigger] common@[c])@ by {
                        let j = choose|j: int| 0 <= j < k && sx[j] == (#[trigger] common@[c])@;
                    }
                }
            }
            k = k + 1;
        }
        proof {
            assert(sx.take(sx.len() as int) =~= sx);
            lemma_sorted_set_len(string_views(common@));
            lemma_sorted_set_len(sx);
            lemma_sorted_set_len(string_views(dy@));
        }
        let xs = string_of(x.as_slice());
        let ys = string_of(y.as_slice());
        if common.len() == 0 {
            proof {
                assert(string_views(common@) =~= Seq::<Seq<char>>::empty());
            }
            return Err(EntityError::InsufficientCooccurrence(xs, ys));
        }
        let count = common.len() as u64;
        Ok(CooccurrenceStats {
            cooccurrence: Cooccurrence { entity_a: xs, entity_b: ys, count, document_ids: common },
            docs_a: dx.len() as u64,
            docs_b: dy.len() as u64,
            total_docs: self.document_entities.len() as u64,
        })
    }

    /// The entities that share documents with the named one, at least
    /// `min_count` of them, with their co-occurrence, most shared first.
    pub fn find_related(&self, entity_name: &str, min_count: u64) -> (r: Result<Vec<(String, Cooccurrence)>, EntityError>)
        requires
            self.wf(),
        ensures
            ({
                let ents = self.spec_entities();
                let n = entity_name@;
                match r {
                    Err(e) => !has_name(ents, n) && (e matches EntityError::EntityNotFound(m) && m@ == n),
                    Ok(v) => has_name(ents, n) && related_list(ents, n, min_count, v@),
                }
            }),
    {
        let nc = chars_of(entity_name);
        let ghost ents = self.entities@;
        let ghost n = entity_name@;
        match self.find(nc.as_slice()) {
            Some(_) => {},
            None => return Err(EntityError::EntityNotFound(string_of(nc.as_slice()))),
        }
        let mut cands: Vec<((String, Cooccurrence), u64)> = Vec::new();
        let mut i: usize = 0;
        while i < self.entities.len()
            invariant
                self.wf(),
                ents == self.entities@,
                has_name(ents, n),
                n == entity_name@,
                nc@ == n,
                i <= ents.len(),
                forall|k: int| 0 <= k < cands@.len() ==> candidate_ok(ents, n, min_count, #[trigger] cands@[k], i as int),
                forall|a: int, b: int| 0 <= a < b < cands@.len() ==> (#[trigger] cands@[a]).0.0@ != (#[trigger] cands@[b]).0.0@,
                forall|j: int| 0 <= j < i && qualifies(ents, n, min_count, (#[trigger] ents[j]).name@)
                    ==> exists|k: int| 0 <= k < cands@.len() && (#[trigger] cands@[k]).0.0@ == ents[j].name@,
            decreases ents.len() - i,
        {
            let other = chars_of(self.entities[i].name.as_str());
            let ghost on = ents[i as int].name@;
            assert(other@ == on);
            assert(nc@ == n);
            proof {
                lemma_name_index(ents, on, i as int);
                assert forall|k: int| 0 <= k < cands@.len() implies candidate_ok(ents, n, min_count, #[trigger] cands@[k], i + 1) by {}
            }
            if !same_chars(other.as_slice(), nc.as_slice()) {
                let os = string_of(other.as_slice());
                match self.cooccurrence(entity_name, os.as_str()) {
                    Ok(st) => {
                        if st.cooccurrence.count >= min_count {
                            let cnt = st.cooccurrence.count;
                            let ghost before = cands@;
                            proof {
                                assert(os@ == on);
                                assert(on != n);
                                assert(name_index(ents, on) == i);
                                assert(has_name(ents, os@));
                                assert(is_cooccurrence(ents, n, os@, st.cooccurrence));
                                assert(related_entry(ents, n, min_count, (os, st.cooccurrence)));
                            }
                            cands.push(((os, st.cooccurrence), cnt));
                            proof {
                                assert forall|a: int, b: int| 0 <= a < b < cands@.len() implies (#[trigger] cands@[a]).0.0@ != (#[trigger] cands@[b]).0.0@ by {
                                    if b == cands@.len() - 1 {
                                        assert(cands@[a] == before[a]);
                                        assert(candidate_ok(ents, n, min_count, before[a], i as int));
                                    } else {
                                        assert(cands@[a] == before[a] && cands@[b] == before[b]);
                                    }
                                }
                                assert forall|k: int| 0 <= k < cands@.len() implies candidate_ok(ents, n, min_count, #[trigger] cands@[k], i + 1) by {
                                    if k < cands@.len() - 1 {
                                        assert(cands@[k] == before[k]);
                                    }
                                }
                                assert forall|j: int| 0 <= j < i + 1 && qualifies(ents, n, min_count, (#[trigger] ents[j]).name@)
                                    implies exists|k: int| 0 <= k < cands@.len() && (#[trigger] cands@[k]).0.0@ == ents[j].name@ by {
                                    if j == i {
                                        assert(cands@[cands@.len() - 1].0.0@ == ents[j].name@);
                                    } else {
                                        let k = choose|k: int| 0 <= k < before.len() && (#[trigger] before[k]).0.0@ == ents[j].name@;
                                        assert(cands@[k] == before[k]);
                                    }
                                }
                            }
                        } else {
                            proof {
                                assert(!qualifies(ents, n, min_count, on));
                            }
                        }
                    },
                    Err(_) => {
                        proof {
                            assert(!qualifies(ents, n, min_count, on));
                        }
                    },
                }
            } else {
                proof {
                    assert(on == n);
                    assert(!qualifies(ents, n, min_count, on));
                }
            }
            i = i + 1;
        }
        let ghost cs = cands@;
        let sorted = sort_by_key_descending(cands);
        let ghost ss = sorted@;
        proof {
            assert forall|k: int| 0 <= k < ss.len() implies cs.contains(#[trigger] ss[k]) by {
                lemma_from_sorted(cs, ss, k);
            }
        }
        let mut rest = sorted;
        let mut out: Vec<(String, Cooccurrence)> = Vec::new();
        let mut q: usize = 0;
        let total = rest.len();
        proof {
            assert(ss.skip(0) =~= ss);
        }
        while rest.len() > 0
            invariant
                q <= ss.len(),
                total == ss.len(),
                rest@ == ss.skip(q as int),
                out@.len() == q,
                forall|k: int| 0 <= k < q ==> (#[trigger] out@[k]) == ss[k].0,
            decreases rest@.len(),
        {
            proof {
                assert(ss.skip(q as int).len() == ss.len() - q);
            }
            let item = rest.remove(0);
            proof {
                assert(item == ss[q as int]);
                assert(rest@ =~= ss.skip(q + 1));
            }
            out.push(item.0);
            q = q + 1;
        }
        proof {
            let v = out@;
            assert forall|a: int, b: int| 0 <= a < b < v.len() implies (#[trigger] v[a]).1.count >= (#[trigger] v[b]).1.count by {
                assert(ss[a].1 >= ss[b].1);
                let ia = choose|t: int| 0 <= t < cs.len() && cs[t] == ss[a];
                let ib = choose|t: int| 0 <= t < cs.len() && cs[t] == ss[b];
                assert(candidate_ok(ents, n, min_count, cs[ia], ents.len() as int));
                assert(candidate_ok(ents, n, min_count, cs[ib], ents.len() as int));
            }
            assert forall|a: int, b: int| 0 <= a < b < v.len() implies (#[trigger] v[a]).0@ != (#[trigger] v[b]).0@ by {
                let ia = choose|t: int| 0 <= t < cs.len() && cs[t] == ss[a];
                let ib = choose|t: int| 0 <= t < cs.len() && cs[t] == ss[b];
                if ia == ib {
                    lemma_distinct_no_dup(cs);
                    lemma_no_repeat_in_sorted(cs, ss, a, b);
                } else if ia < ib {
                    assert(cs[ia].0.0@ != cs[ib].0.0@);
                } else {
                    assert(cs[ib].0.0@ != cs[ia].0.0@);
                }
            }
            assert forall|k: int| 0 <= k < v.len() implies related_entry(ents, n, min_count, #[trigger] v[k]) by {
                let ik = choose|t: int| 0 <= t < cs.len() && cs[t] == ss[k];
                assert(candidate_ok(ents, n, min_count, cs[ik], ents.len() as int));
            }
            assert forall|j: int| 0 <= j < ents.len() && qualifies(ents, n, min_count, (#[trigger] ents[j]).name@)
                implies exists|k: int| 0 <= k < v.len() && (#[trigger] v[k]).0@ == ents[j].name@ by {
                let k0 = choose|k: int| 0 <= k < cs.len() && (#[trigger] cs[k]).0.0@ == ents[j].name@;
                cs.to_multiset_ensures();
                ss.to_multiset_ensures();
                assert(cs.contains(cs[k0]));
                assert(cs.to_multiset().count(cs[k0]) > 0);
                assert(ss.to_multiset().count(cs[k0]) > 0);
                assert(ss.contains(cs[k0]));
                let p = choose|p: int| 0 <= p < ss.len() && ss[p] == cs[k0];
                assert(v[p].0@ == ents[j].name@);
            }
            assert(related_list(ents, n, min_count, out@));
        }
        Ok(out)
    }

    /// The entities with the most mentions, at most `limit` of them,
    /// optionally of one type only.
    pub fn top_entities(&self, limit: usize, entity_type: Option<EntityType>) -> (r: Vec<&Entity<S>>)
        requires
            self.wf(),
        ensures
            exists|cands: Seq<(&Entity<S>, u64)>, ranking: Seq<(&Entity<S>, u64)>| {
                &&& #[trigger] ranked(cands, limit, ranking)
                &&& cands.len() == fit_count(self.spec_entities(), entity_type)
                &&& forall|k: int| 0 <= k < cands.len() ==> ranked_entity(self.spec_entities(), #[trigger] cands[k]) && cands[k].1
                    == cands[k].0.total_mentions && fits_type(*cands[k].0, entity_type)
                &&& forall|i: int| 0 <= i < self.spec_entities().len() && fits_type(#[trigger] self.spec_entities()[i], entity_type)
                    ==> cands.contains((&self.spec_entities()[i], self.spec_entities()[i].total_mentions))
                &&& r@ == ranking.map_values(|e: (&Entity<S>, u64)| e.0)
            },
    {
        let ghost ents = self.entities@;
        let mut cands: Vec<(&Entity<S>, u64)> = Vec::new();
        let mut i: usize = 0;
        while i < self.entities.len()
            invariant
                self.wf(),
                ents == self.entities@,
                i <= ents.len(),
                cands@.len() == fit_count(ents.take(i as int), entity_type),
                names_once(cands@),
                forall|k: int| 0 <= k < cands@.len() ==> ranked_entity(ents, #[trigger] cands@[k]) && cands@[k].1
                    == cands@[k].0.total_mentions && fits_type(*cands@[k].0, entity_type) && name_index(ents, cands@[k].0.name@) < i,
                forall|j: int| 0 <= j < i && fits_type(#[trigger] ents[j], entity_type) ==> cands@.contains((&ents[j], ents[j].total_mentions)),
            decreases ents.len() - i,
        {
            let e = &self.entities[i];
            proof {
                lemma_name_index(ents, ents[i as int].name@, i as int);
                assert(ents.take(i + 1).drop_last() =~= ents.take(i as int));
            }
            let fits = match entity_type {
                Some(t) => e.entity_type == t,
                None => true,
            };
            if fits {
                let ghost before = cands@;
                cands.push((e, e.total_mentions));
                proof {
                    assert forall|a: int, b: int| 0 <= a < b < cands@.len() implies (#[trigger] cands@[a]).0.name@ != (#[trigger] cands@[b]).0.name@ by {
                        if b == cands@.len() - 1 {
                            assert(cands@[a] == before[a]);
                        } else {
                            assert(cands@[a] == before[a] && cands@[b] == before[b]);
                        }
                    }
                    assert forall|k: int| 0 <= k < cands@.len() implies ranked_entity(ents, #[trigger] cands@[k]) && cands@[k].1
                        == cands@[k].0.total_mentions && fits_type(*cands@[k].0, entity_type) && name_index(ents, cands@[k].0.name@) < i + 1 by {
                        if k < cands@.len() - 1 {
                            assert(cands@[k] == before[k]);
                        }
                    }
                    assert forall|j: int| 0 <= j < i + 1 && fits_type(#[trigger] ents[j], entity_type) implies cands@.contains((&ents[j], ents[j].total_mentions)) by {
                        if j == i {
                            assert(cands@[cands@.len() - 1] == (&ents[j], ents[j].total_mentions));
                        } else {
                            assert(before.contains((&ents[j], ents[j].total_mentions)));
                            let k = choose|k: int| 0 <= k < before.len() && before[k] == (&ents[j], ents[j].total_mentions);
                            assert(cands@[k] == before[k]);
                        }
                    }
                }
            }
            i = i + 1;
        }
        proof {
            assert(ents.take(ents.len() as int) =~= ents);
        }
        let ghost cs = cands@;
        let ranking = rank(cands, limit);
        let mut out: Vec<&Entity<S>> = Vec::new();
        let mut q: usize = 0;
        while q < ranking.len()
            invariant
                q <= ranking@.len(),
                out@ == ranking@.take(q as int).map_values(|e: (&Entity<S>, u64)| e.0),
            decreases ranking@.len() - q,
        {
            out.push(ranking[q].0);
            proof {
                assert(ranking@.take(q + 1) =~= ranking@.take(q as int).push(ranking@[q as int]));
                assert(out@ =~= ranking@.take(q + 1).map_values(|e: (&Entity<S>, u64)| e.0));
            }
            q = q + 1;
        }
        proof {
            assert(ranking@.take(ranking@.len() as int) =~= ranking@);
            assert(ranked(cs, limit, ranking@));
        }
        out
    }

    /// The entities mentioned between `start` and `end` (both included),
    /// with their number of mentions there, at most `limit` of them, most
    /// mentioned first.
    pub fn trending_entities(&self, start: i64, end: i64, limit: usize) -> (r: Vec<(&Entity<S>, u64)>)
        requires
            self.wf(),
            start <= end,
        ensures
            exists|cands: Seq<(&Entity<S>, u64)>| {
                &&& #[trigger] ranked(cands, limit, r@)
                &&& cands.len() == active_count(self.spec_entities(), start, end)
                &&& forall|k: int| 0 <= k < cands.len() ==> ranked_entity(self.spec_entities(), #[trigger] cands[k]) && cands[k].1
                    == in_window(cands[k].0.mentions@, start, end).len() && cands[k].1 > 0
                &&& forall|i: int| 0 <= i < self.spec_entities().len() && in_window(
                    (#[trigger] self.spec_entities()[i]).mentions@,
                    start,
                    end,
                ).len() > 0 ==> cands.contains(
                    (&self.spec_entities()[i], in_window(self.spec_entities()[i].mentions@, start, end).len() as u64),
                )
            },
    {
        let ghost ents = self.entities@;
        let mut cands: Vec<(&Entity<S>, u64)> = Vec::new();
        let mut i: usize = 0;
        while i < self.entities.len()
            invariant
                self.wf(),
                ents == self.entities@,
                start <= end,
                i <= ents.len(),
                cands@.len() == active_count(ents.take(i as int), start, end),
                names_once(cands@),
                forall|k: int| 0 <= k < cands@.len() ==> ranked_entity(ents, #[trigger] cands@[k]) && cands@[k].1
                    == in_window(cands@[k].0.mentions@, start, end).len() && cands@[k].1 > 0 && name_index(ents, cands@[k].0.name@) < i,
                forall|j: int| 0 <= j < i && in_window((#[trigger] ents[j]).mentions@, start, end).len() > 0 ==> cands@.contains(
                    (&ents[j], in_window(ents[j].mentions@, start, end).len() as u64),
                ),
            decreases ents.len() - i,
        {
            let e = &self.entities[i];
            proof {
                lemma_name_index(ents, ents[i as int].name@, i as int);
                assert(ents.take(i + 1).drop_last() =~= ents.take(i as int));
            }
            let c = e.count_in_range(start, end);
            if c > 0 {
                let ghost before = cands@;
                cands.push((e, c));
                proof {
                    assert forall|a: int, b: int| 0 <= a < b < cands@.len() implies (#[trigger] cands@[a]).0.name@ != (#[trigger] cands@[b]).0.name@ by {
                        if b == cands@.len() - 1 {
                            assert(cands@[a] == before[a]);
                        } else {
                            assert(cands@[a] == before[a] && cands@[b] == before[b]);
                        }
                    }
                    assert forall|k: int| 0 <= k < cands@.len() implies ranked_entity(ents, #[trigger] cands@[k]) && cands@[k].1
                        == in_window(cands@[k].0.mentions@, start, end).len() && cands@[k].1 > 0 && name_index(ents, cands@[k].0.name@) < i + 1 by {
                        if k < cands@.len() - 1 {
                            assert(cands@[k] == before[k]);
                        }
                    }
                    assert forall|j: int| 0 <= j < i + 1 && in_window((#[trigger] ents[j]).mentions@, start, end).len() > 0 implies cands@.contains(
                        (&ents[j], in_window(ents[j].mentions@, start, end).len() as u64),
                    ) by {
                        if j == i {
                            assert(cands@[cands@.len() - 1] == (&ents[j], in_window(ents[j].mentions@, start, end).len() as u64));
                        } else {
                            let x = (&ents[j], in_window(ents[j].mentions@, start, end).len() as u64);
                            assert(before.contains(x));
                            let k = choose|k: int| 0 <= k < before.len() && before[k] == x;
                            assert(cands@[k] == before[k]);
                        }
                    }
                }
            }
            i = i + 1;
        }
        proof {
            assert(ents.take(ents.len() as int) =~= ents);
        }
        let ghost cs = cands@;
        let r = rank(cands, limit);
        proof {
            assert(ranked(cs, limit, r@));
        }
        r
    }

    /// The names of the entities.
    pub fn entity_names(&self) -> (r: Vec<String>)
        ensures
            r@.len() == self.spec_entities().len(),
            forall|i: int| 0 <= i < r@.len() ==> (#[trigger] r@[i])@ == self.spec_entities()[i].name@,
    {
        let mut out: Vec<String> = Vec::new();
        let mut i: usize = 0;
        while i < self.entities.len()
            invariant
                i <= self.entities@.len(),
                out@.len() == i,
                forall|k: int| 0 <= k < i ==> (#[trigger] out@[k])@ == self.entities@[k].name@,
            decreases self.entities@.len() - i,
        {
            out.push(string_of(chars_of(self.entities[i].name.as_str()).as_slice()));
            i = i + 1;
        }
        out
    }
}

/// Co-occurrence does not depend on the order in which the two entities
/// are named: the ordered pair of names, hence every answer of
/// `cooccurrence` (error or not), is the same both ways.
pub proof fn cooccurrence_is_symmetric<S>(ents: Seq<Entity<S>>, a: Seq<char>, b: Seq<char>, co: Cooccurrence)
    ensures
        ordered_pair(a, b) == ordered_pair(b, a),
        is_cooccurrence(ents, a, b, co) == is_cooccurrence(ents, b, a, co),
        shared_count(ents, a, b) == shared_count(ents, b, a),
{
    if a != b {
        crate::text::lemma_lex_total(a, b);
        if lex_lt(a, b) {
            crate::text::lemma_lex_asymmetric(a, b);
        } else {
            crate::text::lemma_lex_asymmetric(b, a);
        }
    }
    assert(ordered_pair(a, b) == ordered_pair(b, a));
}

/// The co-occurrence of two entities is determined, whichever is named
/// first: two answers have the same names, count and documents in order.
pub proof fn cooccurrence_is_determined<S>(
    ents: Seq<Entity<S>>,
    a: Seq<char>,
    b: Seq<char>,
    co1: Cooccurrence,
    co2: Cooccurrence,
)
    requires
        is_cooccurrence(ents, a, b, co1),
        is_cooccurrence(ents, b, a, co2),
    ensures
        co1.entity_a@ == co2.entity_a@,
        co1.entity_b@ == co2.entity_b@,
        co1.count == co2.count,
        string_views(co1.document_ids@) == string_views(co2.document_ids@),
{
    cooccurrence_is_symmetric(ents, a, b, co2);
    crate::text::lemma_sorted_unique(string_views(co1.document_ids@), string_views(co2.document_ids@));
}

/// A ranking keeps `limit` of the candidates (all of them when there are
/// fewer), each entity once, most counted first, and leaves out no candidate
/// counted higher than one it keeps.
pub proof fn ranking_puts_the_most_counted_first<S>(
    cands: Seq<(&Entity<S>, u64)>,
    limit: usize,
    r: Seq<(&Entity<S>, u64)>,
)
    requires
        ranked(cands, limit, r),
    ensures
        r.len() == if (limit as nat) < cands.len() { limit as nat } else { cands.len() },
        forall|k: int| 0 <= k < r.len() ==> cands.contains(#[trigger] r[k]),
        forall|a: int, b: int| 0 <= a < b < r.len() ==> (#[trigger] r[a]).0.name@ != (#[trigger] r[b]).0.name@,
        forall|a: int, b: int| 0 <= a < b < r.len() ==> (#[trigger] r[a]).1 >= (#[trigger] r[b]).1,
        forall|x: (&Entity<S>, u64), k: int|
            #![trigger cands.contains(x), r[k]]
            cands.contains(x) && (forall|j: int| 0 <= j < r.len() ==> (#[trigger] r[j]).0.name@ != x.0.name@) && 0 <= k
                < r.len() ==> r[k].1 >= x.1,
{
}

/// The mentions in a time window are exactly the mentions whose time lies
/// between its bounds, both included, in the order they were recorded.
pub proof fn window_holds_the_mentions_in_it<S>(ms: Seq<EntityMention<S>>, start: i64, end: i64)
    ensures
        forall|k: int| 0 <= k < in_window(ms, start, end).len() ==> ms.contains(#[trigger] in_window(ms, start, end)[k])
            && start <= in_window(ms, start, end)[k].timestamp <= end,
        forall|i: int| 0 <= i < ms.len() && start <= (#[trigger] ms[i]).timestamp <= end ==> in_window(ms, start, end).contains(
            ms[i],
        ),
        in_window(ms, start, end).len() <= ms.len(),
    decreases ms.len(),
{
    if ms.len() > 0 {
        let rest = ms.drop_last();
        window_holds_the_mentions_in_it(rest, start, end);
        let w = in_window(ms, start, end);
        let w1 = in_window(rest, start, end);
        assert forall|k: int| 0 <= k < w.len() implies ms.contains(#[trigger] w[k]) && start <= w[k].timestamp <= end by {
            if k < w1.len() {
                assert(w[k] == w1[k]);
                let t = choose|t: int| 0 <= t < rest.len() && rest[t] == w1[k];
                assert(ms[t] == rest[t]);
            } else {
                assert(w[k] == ms[ms.len() - 1]);
            }
        }
        assert forall|i: int| 0 <= i < ms.len() && start <= (#[trigger] ms[i]).timestamp <= end implies w.contains(ms[i]) by {
            if i < rest.len() {
                assert(rest[i] == ms[i]);
                assert(w1.contains(ms[i]));
                let t = choose|t: int| 0 <= t < w1.len() && w1[t] == ms[i];
                assert(w[t] == w1[t]);
            } else {
                assert(w[w.len() - 1] == ms[i]);
            }
        }
    }
}

/// A label names an entity type by its lower-case form, whatever its case:
/// `person`/`per` a person, `organization`/`org` an organization,
/// `location`/`loc`/`gpe` a location, `product`/`prod` a product, `event`
/// an event; any other label is of another type.
pub proof fn entity_labels_pick_their_type(label: Seq<char>)
    ensures
        ({
            let l = lowercase(label);
            &&& (spec_entity_type(label) is Person) == (l == "person"@ || l == "per"@)
            &&& (spec_entity_type(label) is Organization) == (l == "organization"@ || l == "org"@)
            &&& (spec_entity_type(label) is Location) == (l == "location"@ || l == "loc"@ || l == "gpe"@)
            &&& (spec_entity_type(label) is Product) == (l == "product"@ || l == "prod"@)
            &&& (spec_entity_type(label) is Event) == (l == "event"@)
            &&& (spec_entity_type(label) is Other) == !(l == "person"@ || l == "per"@ || l == "organization"@ || l
                == "org"@ || l == "location"@ || l == "loc"@ || l == "gpe"@ || l == "product"@ || l == "prod"@ || l
                == "event"@)
        }),
{
    reveal_strlit("person");
    reveal_strlit("per");
    reveal_strlit("organization");
    reveal_strlit("org");
    reveal_strlit("location");
    reveal_strlit("loc");
    reveal_strlit("gpe");
    reveal_strlit("product");
    reveal_strlit("prod");
    reveal_strlit("event");
    assert("person"@.len() == 6 && "person"@[0] == 'p');
    assert("per"@.len() == 3 && "per"@[0] == 'p');
    assert("organization"@.len() == 12 && "organization"@[0] == 'o');
    assert("org"@.len() == 3 && "org"@[0] == 'o');
    assert("location"@.len() == 8 && "location"@[0] == 'l');
    assert("loc"@.len() == 3 && "loc"@[0] == 'l');
    assert("gpe"@.len() == 3 && "gpe"@[0] == 'g');
    assert("product"@.len() == 7 && "product"@[0] == 'p');
    assert("prod"@.len() == 4 && "prod"@[0] == 'p');
    assert("event"@.len() == 5 && "event"@[0] == 'e');
}

/// Reading a type's name gives the type back.
pub proof fn entity_type_name_round_trip(t: EntityType)
    ensures
        spec_entity_type(t.spec_as_str()) == t,
{
    reveal_strlit("person");
    reveal_strlit("per");
    reveal_strlit("organization");
    reveal_strlit("org");
    reveal_strlit("location");
    reveal_strlit("loc");
    reveal_strlit("gpe");
    reveal_strlit("product");
    reveal_strlit("prod");
    reveal_strlit("event");
    reveal_strlit("other");
    let n = t.spec_as_str();
    assert(is_ascii_text(n));
    assert(lowercase(n) =~= n);
    match t {
        EntityType::Other => {
            assert(n[0] != "event"@[0]);
            assert(n[0] != "per"@[0]);
        },
        EntityType::Event => {
            assert(n[0] != "per"@[0]);
        },
        _ => {},
    }
}

} // verus!
