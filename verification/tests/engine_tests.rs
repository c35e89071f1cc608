use cellular_automata::automata::next_grid;
use cellular_automata::automata::Automata;
use cellular_automata::config::SPAWN_CHANCE_DENOM;
use cellular_automata::indexer::offsets_for;
use cellular_automata::rules::ConfigurationError;
use cellular_automata::rules::HashRule;
use cellular_automata::rules::RulesCollection;

/// A collection whose single deciding rule copies each cell's right
/// neighbor, under the 2 x 1 neighborhood (bit 0 = self, bit 1 = right).
fn copy_right_collection() -> RulesCollection {
    let mut collection = RulesCollection::new(2, 1).unwrap();
    let mut rule = HashRule::new(2, 1);
    rule.add_mapping(0b00, 0);
    rule.add_mapping(0b01, 0);
    rule.add_mapping(0b10, 1);
    rule.add_mapping(0b11, 1);
    collection.add_rule(rule);
    collection
}

#[test]
fn step_function_is_deterministic() {
    let collection = copy_right_collection();
    let offsets = offsets_for(2, 1);
    let cells: Vec<u8> = vec![1, 0];
    let first = next_grid(&cells, 2, 1, &offsets, &collection);
    let second = next_grid(&cells, 2, 1, &offsets, &collection);
    assert_eq!(first, second);
}

#[test]
fn step_reads_only_the_previous_generation() {
    // Two cells that each copy the other: a sequential in-place update
    // would propagate the fresh value of cell 0 into cell 1 and yield
    // [0, 0]; the synchronous step must yield [0, 1].
    let collection = copy_right_collection();
    let offsets = offsets_for(2, 1);
    let cells: Vec<u8> = vec![1, 0];
    let next = next_grid(&cells, 2, 1, &offsets, &collection);
    assert_eq!(next, vec![0, 1]);
    // And one more generation swaps them back.
    let again = next_grid(&next, 2, 1, &offsets, &collection);
    assert_eq!(again, vec![1, 0]);
}

#[test]
fn engine_end_to_end() {
    let mut engine = Automata::new(4, 1, 3, 1, SPAWN_CHANCE_DENOM as i64).unwrap();
    assert_eq!(engine.cells(), vec![1, 1, 1, 1]);
    engine.step();
    let cells = engine.cells();
    assert_eq!(cells.len(), 4);
    for c in cells {
        assert!(c == 0 || c == 1);
    }
}

#[test]
fn engine_spawn_chance_zero_means_all_dead() {
    let engine = Automata::new(5, 3, 3, 3, 0).unwrap();
    assert_eq!(engine.cells(), vec![0; 15]);
}

#[test]
fn engine_clamps_spawn_chance_on_every_assignment() {
    // A chance above one is stored as one: reseeding fills the grid.
    let mut engine = Automata::new(8, 1, 3, 1, 200_000).unwrap();
    engine.set_spawn_chance(1_500_000);
    engine.randomize();
    assert_eq!(engine.cells(), vec![1; 8]);
    // A negative chance is stored as zero: reseeding clears the grid.
    engine.set_spawn_chance(-300_000);
    engine.randomize();
    assert_eq!(engine.cells(), vec![0; 8]);
}

#[test]
fn engine_construction_clamps_spawn_chance() {
    let engine = Automata::new(6, 1, 3, 1, 2_000_000).unwrap();
    assert_eq!(engine.cells(), vec![1; 6]);
    let engine = Automata::new(6, 1, 3, 1, -5).unwrap();
    assert_eq!(engine.cells(), vec![0; 6]);
}

#[test]
fn engine_rejects_oversized_neighborhood() {
    let result = Automata::new(4, 4, 5, 4, 200_000);
    assert!(matches!(result, Err(ConfigurationError::NeighborhoodTooLarge)));
    assert!(Automata::new(4, 4, 4, 4, 200_000).is_ok());
}

#[test]
fn engine_randomize_next_leaves_current_generation_alone() {
    let mut engine = Automata::new(4, 2, 2, 2, SPAWN_CHANCE_DENOM as i64).unwrap();
    let before = engine.cells();
    engine.randomize_next();
    assert_eq!(engine.cells(), before);
}

#[test]
fn engine_randomize_rules_keeps_the_grid() {
    let mut engine = Automata::new(4, 2, 2, 2, SPAWN_CHANCE_DENOM as i64).unwrap();
    let before = engine.cells();
    engine.randomize_rules();
    assert_eq!(engine.cells(), before);
    engine.step();
    assert_eq!(engine.cells().len(), 8);
}

#[test]
fn engine_smallest_and_largest_configurations() {
    let mut tiny = Automata::new(1, 1, 1, 1, SPAWN_CHANCE_DENOM as i64).unwrap();
    assert_eq!(tiny.cells(), vec![1]);
    tiny.step();
    assert_eq!(tiny.cells().len(), 1);
    let mut wide = Automata::new(2, 2, 4, 4, 500_000).unwrap();
    wide.step();
    let cells = wide.cells();
    assert_eq!(cells.len(), 4);
    for c in cells {
        assert!(c <= 1);
    }
}

#[test]
fn engine_steps_keep_cell_states_binary() {
    let mut engine = Automata::new(16, 4, 3, 2, 300_000).unwrap();
    for _ in 0..5 {
        engine.step();
        let cells = engine.cells();
        assert_eq!(cells.len(), 64);
        for c in cells {
            assert!(c <= 1);
        }
    }
}
