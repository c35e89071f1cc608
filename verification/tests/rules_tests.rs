use cellular_automata::rules::ConfigurationError;
use cellular_automata::rules::HashRule;
use cellular_automata::rules::Rule;
use cellular_automata::rules::RulesCollection;
use rand::rngs::SmallRng;
use rand::SeedableRng;

#[test]
fn hash_rule_stores_and_resets_mappings() {
    let mut rule = HashRule::new(2, 1);
    assert_eq!(rule.apply(3), None);
    rule.add_mapping(3, 1);
    rule.add_mapping(0, 0);
    assert_eq!(rule.apply(3), Some(1));
    assert_eq!(rule.apply(0), Some(0));
    assert_eq!(rule.apply(2), None);
    rule.add_mapping(3, 0);
    assert_eq!(rule.apply(3), Some(0));
    rule.reset();
    assert_eq!(rule.apply(3), None);
    assert_eq!(rule.apply(0), None);
}

#[test]
fn fill_random_is_total_over_the_key_space() {
    let mut rng = SmallRng::seed_from_u64(7);
    let mut rule = HashRule::new(4, 4);
    rule.fill_random(&mut rng, 1usize << 16);
    for key in 0..(1u64 << 16) {
        let state = rule.apply(key);
        match state {
            Some(v) => assert!(v <= 1),
            None => panic!("missing entry for key {}", key),
        }
    }
    assert_eq!(rule.apply(1u64 << 16), None);
    assert_eq!(rule.apply(u64::MAX), None);
}

#[test]
fn fill_random_replaces_previous_entries() {
    let mut rng = SmallRng::seed_from_u64(1);
    let mut rule = HashRule::new(2, 1);
    rule.add_mapping(100, 1);
    rule.fill_random(&mut rng, 4);
    assert_eq!(rule.apply(100), None);
    for key in 0..4u64 {
        assert!(rule.apply(key).is_some());
    }
}

#[test]
fn collection_randomize_never_misses() {
    let mut rng = SmallRng::seed_from_u64(42);
    let mut collection = RulesCollection::new(3, 2).unwrap();
    collection.randomize(&mut rng);
    for key in 0..(1u64 << 6) {
        assert!(collection.get_new_cell(key) <= 1);
    }
}

#[test]
fn collection_rejects_oversized_neighborhood() {
    assert_eq!(
        RulesCollection::new(5, 4).err(),
        Some(ConfigurationError::NeighborhoodTooLarge)
    );
    assert!(RulesCollection::new(4, 4).is_ok());
}

#[test]
fn collection_first_match_wins_with_dead_default() {
    // The collection starts with one empty rule, which always defers.
    let mut collection = RulesCollection::new(2, 1).unwrap();
    assert_eq!(collection.get_new_cell(0), 0);
    assert_eq!(collection.get_new_cell(3), 0);
    let mut early = HashRule::new(2, 1);
    early.add_mapping(2, 1);
    collection.add_rule(early);
    let mut late = HashRule::new(2, 1);
    late.add_mapping(2, 0);
    late.add_mapping(1, 1);
    collection.add_rule(late);
    // Key 2: the earlier rule decides; key 1: only the later rule has it.
    assert_eq!(collection.get_new_cell(2), 1);
    assert_eq!(collection.get_new_cell(1), 1);
    assert_eq!(collection.get_new_cell(0), 0);
}

#[test]
fn oversized_reconfiguration_leaves_collection_untouched() {
    let mut rng = SmallRng::seed_from_u64(3);
    let mut collection = RulesCollection::new(2, 1).unwrap();
    let mut rule = HashRule::new(2, 1);
    rule.add_mapping(0, 1);
    rule.add_mapping(1, 0);
    rule.add_mapping(2, 1);
    rule.add_mapping(3, 0);
    collection.add_rule(rule);
    let before: Vec<u8> = (0..4u64).map(|k| collection.get_new_cell(k)).collect();
    let result = collection.set_neighborhood_size(5, 4, &mut rng);
    assert_eq!(result, Err(ConfigurationError::NeighborhoodTooLarge));
    let after: Vec<u8> = (0..4u64).map(|k| collection.get_new_cell(k)).collect();
    assert_eq!(before, after);
}

#[test]
fn reconfiguration_regenerates_the_table() {
    let mut rng = SmallRng::seed_from_u64(9);
    let mut collection = RulesCollection::new(2, 1).unwrap();
    collection.randomize(&mut rng);
    let result = collection.set_neighborhood_size(2, 2, &mut rng);
    assert!(result.is_ok());
    for key in 0..(1u64 << 4) {
        assert!(collection.get_new_cell(key) <= 1);
    }
}
