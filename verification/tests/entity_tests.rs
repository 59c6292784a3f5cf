use baram::analytics::entity_trends::{Entity, EntityError, EntityMention, EntityNetwork, EntityType};

const NOW: i64 = 1_760_000_000;

fn mention(doc: &str) -> EntityMention<f64> {
    EntityMention::new(NOW, doc.to_string())
}

#[test]
fn test_entity_creation() {
    let entity: Entity<f64> = Entity::new("Apple Inc.".to_string(), EntityType::Organization);
    assert_eq!(entity.name, "Apple Inc.");
    assert_eq!(entity.entity_type, EntityType::Organization);
    assert_eq!(entity.total_mentions, 0);
}

#[test]
fn test_entity_mention() {
    let mut entity = Entity::new("Tesla".to_string(), EntityType::Organization);
    entity.add_mention(mention("doc1"));
    assert_eq!(entity.total_mentions, 1);
}

#[test]
fn test_entity_aliases() {
    let mut entity: Entity<f64> = Entity::new("USA".to_string(), EntityType::Location);
    entity.add_alias("United States".to_string());
    entity.add_alias("US".to_string());
    entity.add_alias("US".to_string());
    assert_eq!(entity.aliases.len(), 2);
    assert!(entity.aliases.contains(&"US".to_string()));
}

#[test]
fn test_entity_network() {
    let mut network: EntityNetwork<f64> = EntityNetwork::new();
    network.add_entity(Entity::new("Apple".to_string(), EntityType::Organization));
    network.add_entity(Entity::new("Tim Cook".to_string(), EntityType::Person));
    assert_eq!(network.entity_names().len(), 2);
    assert!(network.get_entity("Apple").is_some());
    assert!(network.get_entity("Samsung").is_none());
}

#[test]
fn test_document_recording() {
    let mut network = EntityNetwork::new();
    let mentions = vec![("Apple".to_string(), mention("doc1")), ("Tim Cook".to_string(), mention("doc1"))];
    network.record_document("doc1".to_string(), mentions);
    assert_eq!(network.entity_names().len(), 2);
    assert_eq!(network.get_entity("Apple").unwrap().total_mentions, 1);
    assert_eq!(network.get_entity("Apple").unwrap().entity_type, EntityType::Other);
}

#[test]
fn test_cooccurrence() {
    let mut network = EntityNetwork::new();
    network.record_document(
        "doc1".to_string(),
        vec![("Apple".to_string(), mention("doc1")), ("iPhone".to_string(), mention("doc1"))],
    );
    network.record_document(
        "doc2".to_string(),
        vec![("Apple".to_string(), mention("doc2")), ("iPhone".to_string(), mention("doc2"))],
    );
    network.record_document("doc3".to_string(), vec![("Samsung".to_string(), mention("doc3"))]);
    network.record_document("doc4".to_string(), vec![("Google".to_string(), mention("doc4"))]);

    let stats = network.cooccurrence("iPhone", "Apple").unwrap();
    assert_eq!(stats.cooccurrence.count, 2);
    assert_eq!(stats.cooccurrence.entity_a, "Apple");
    assert_eq!(stats.cooccurrence.entity_b, "iPhone");
    assert_eq!(stats.cooccurrence.document_ids, vec!["doc1".to_string(), "doc2".to_string()]);
    assert_eq!((stats.docs_a, stats.docs_b, stats.total_docs), (2, 2, 4));
    // PMI = log2(p_ab / (p_a * p_b)) from these figures is log2(2) = 1
    let total = stats.total_docs as f64;
    let pmi = ((stats.cooccurrence.count as f64 / total)
        / ((stats.docs_a as f64 / total) * (stats.docs_b as f64 / total)))
        .log2();
    assert!(pmi > 0.0, "PMI should be positive: {pmi}");
}

#[test]
fn cooccurrence_errors() {
    let mut network = EntityNetwork::new();
    network.record_document("d1".to_string(), vec![("A".to_string(), mention("d1"))]);
    network.record_document("d2".to_string(), vec![("B".to_string(), mention("d2"))]);
    match network.cooccurrence("B", "A") {
        Err(e @ EntityError::InsufficientCooccurrence(_, _)) => {
            assert_eq!(e.message(), "Insufficient co-occurrence data for entities: A and B")
        }
        other => panic!("unexpected {other:?}"),
    }
    match network.cooccurrence("Z", "A") {
        Err(EntityError::EntityNotFound(n)) => assert_eq!(n, "Z"),
        other => panic!("unexpected {other:?}"),
    }
}

#[test]
fn related_entities_most_shared_first() {
    let mut network = EntityNetwork::new();
    network.record_document(
        "d1".to_string(),
        vec![("A".to_string(), mention("d1")), ("B".to_string(), mention("d1")), ("C".to_string(), mention("d1"))],
    );
    network.record_document("d2".to_string(), vec![("A".to_string(), mention("d2")), ("C".to_string(), mention("d2"))]);
    network.record_document("d3".to_string(), vec![("D".to_string(), mention("d3"))]);
    let related = network.find_related("A", 1).unwrap();
    let names: Vec<&str> = related.iter().map(|(n, _)| n.as_str()).collect();
    assert_eq!(names, vec!["C", "B"]);
    assert_eq!(related[0].1.count, 2);
    assert_eq!(network.find_related("A", 2).unwrap().len(), 1);
    assert!(matches!(network.find_related("Q", 1), Err(EntityError::EntityNotFound(_))));
}

#[test]
fn test_top_entities() {
    let mut network = EntityNetwork::new();
    let mut entity1 = Entity::new("Popular".to_string(), EntityType::Other);
    entity1.add_mention(mention("doc1"));
    entity1.add_mention(mention("doc2"));
    entity1.add_mention(mention("doc3"));
    let mut entity2 = Entity::new("Less Popular".to_string(), EntityType::Other);
    entity2.add_mention(mention("doc1"));
    network.add_entity(entity1);
    network.add_entity(entity2);

    let top = network.top_entities(1, None);
    assert_eq!(top.len(), 1);
    assert_eq!(top[0].name, "Popular");
    assert!(network.top_entities(5, Some(EntityType::Person)).is_empty());
    assert_eq!(network.top_entities(5, Some(EntityType::Other)).len(), 2);
}

#[test]
fn trending_counts_mentions_in_the_window() {
    let mut network: EntityNetwork<f64> = EntityNetwork::new();
    network.record_document(
        "d1".to_string(),
        vec![
            ("Old".to_string(), EntityMention::new(100, "d1".to_string())),
            ("New".to_string(), EntityMention::new(900, "d1".to_string())),
            ("New".to_string(), EntityMention::new(950, "d1".to_string())),
        ],
    );
    let trending: Vec<(String, u64)> =
        network.trending_entities(500, 1000, 10).into_iter().map(|(e, c)| (e.name.clone(), c)).collect();
    assert_eq!(trending, vec![("New".to_string(), 2)]);
}

#[test]
fn mentions_stay_in_time_order() {
    let mut entity: Entity<f64> = Entity::new("E".to_string(), EntityType::Event);
    entity.add_mention(EntityMention::new(30, "c".to_string()));
    entity.add_mention(EntityMention::new(10, "a".to_string()));
    entity.add_mention(EntityMention::new(20, "b".to_string()).with_context("ctx".to_string()));
    let times: Vec<i64> = entity.mentions.iter().map(|m| m.timestamp).collect();
    assert_eq!(times, vec![10, 20, 30]);
    assert_eq!(entity.count_in_range(10, 20), 2);
    let docs: Vec<&str> = entity.mentions_in_range(15, 30).iter().map(|m| m.document_id.as_str()).collect();
    assert_eq!(docs, vec!["b", "c"]);
    assert_eq!(entity.document_ids(), vec!["a".to_string(), "b".to_string(), "c".to_string()]);
}

#[test]
fn test_sentiment_tracking() {
    let mention1 = EntityMention::new(NOW, "doc1".to_string()).with_sentiment(0.8_f64);
    let mention2 = EntityMention::new(NOW, "doc2".to_string()).with_sentiment(-0.2_f64);
    assert_eq!(mention1.sentiment, Some(0.8));
    assert_eq!(mention2.sentiment, Some(-0.2));
    let mut entity = Entity::new("Company".to_string(), EntityType::Organization);
    entity.add_mention(mention1);
    entity.add_mention(mention2);
    let scores: Vec<f64> = entity.mentions.iter().filter_map(|m| m.sentiment).collect();
    let avg = scores.iter().sum::<f64>() / scores.len() as f64;
    assert!((avg - 0.3).abs() < 0.01);
}

#[test]
fn cooccurrence_is_the_same_both_ways() {
    let mut network = EntityNetwork::new();
    for d in ["d3", "d1", "d2"] {
        network.record_document(d.to_string(), vec![("X".to_string(), mention(d)), ("Y".to_string(), mention(d))]);
    }
    let a = network.cooccurrence("X", "Y").unwrap();
    let b = network.cooccurrence("Y", "X").unwrap();
    assert_eq!(a.cooccurrence.entity_a, b.cooccurrence.entity_a);
    assert_eq!(a.cooccurrence.entity_b, b.cooccurrence.entity_b);
    assert_eq!(a.cooccurrence.count, b.cooccurrence.count);
    assert_eq!(a.cooccurrence.document_ids, b.cooccurrence.document_ids);
    assert_eq!(a.cooccurrence.document_ids, vec!["d1".to_string(), "d2".to_string(), "d3".to_string()]);
}
