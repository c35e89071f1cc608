use cellular_automata::config::clamp_neighborhood_to_limit;
use cellular_automata::config::neighborhood_fits;
use cellular_automata::indexer::key_for;
use cellular_automata::indexer::offsets_for;

#[test]
fn offsets_odd_extent_straddle_origin() {
    let offs = offsets_for(3, 1);
    assert_eq!(offs, vec![(-1, 0), (0, 0), (1, 0)]);
}

#[test]
fn offsets_even_extent_lean_positive() {
    let offs = offsets_for(4, 1);
    assert_eq!(offs, vec![(-1, 0), (0, 0), (1, 0), (2, 0)]);
}

#[test]
fn offsets_two_dimensional_order() {
    let offs = offsets_for(3, 2);
    assert_eq!(offs, vec![(-1, 0), (-1, 1), (0, 0), (0, 1), (1, 0), (1, 1)]);
}

#[test]
fn offsets_deterministic_across_calls() {
    assert_eq!(offsets_for(4, 4), offsets_for(4, 4));
    assert_eq!(offsets_for(3, 2), offsets_for(3, 2));
}

#[test]
fn offsets_count_and_distinct() {
    let offs = offsets_for(4, 4);
    assert_eq!(offs.len(), 16);
    for a in 0..offs.len() {
        for b in 0..offs.len() {
            if a != b {
                assert_ne!(offs[a], offs[b]);
            }
        }
    }
}

#[test]
fn key_sees_cell_across_the_edge() {
    // A 4 x 1 torus with only cell (3, 0) alive, under a 3 x 1 neighborhood
    // (left, self, right). Cell (0, 0) has (3, 0) as its left neighbor, so
    // only bit 0 of its key is set; cell (3, 0) itself contributes bit 1.
    let cells: Vec<u8> = vec![0, 0, 0, 1];
    let offs = offsets_for(3, 1);
    assert_eq!(key_for(&cells, 4, 1, 0, 0, &offs), 0b001);
    assert_eq!(key_for(&cells, 4, 1, 3, 0, &offs), 0b010);
    // Cell (2, 0) has (3, 0) as its right neighbor: bit 2.
    assert_eq!(key_for(&cells, 4, 1, 2, 0, &offs), 0b100);
}

#[test]
fn key_packs_one_bit_per_offset() {
    let cells: Vec<u8> = vec![1, 1];
    let offs = offsets_for(2, 1);
    assert_eq!(offs, vec![(0, 0), (1, 0)]);
    assert_eq!(key_for(&cells, 2, 1, 0, 0, &offs), 0b11);
    let cells2: Vec<u8> = vec![1, 0];
    assert_eq!(key_for(&cells2, 2, 1, 0, 0, &offs), 0b01);
    assert_eq!(key_for(&cells2, 2, 1, 1, 0, &offs), 0b10);
}

#[test]
fn key_wraps_vertically() {
    // A 1 x 3 grid with cell (0, 2) alive, under a 1 x 3 neighborhood:
    // cell (0, 0) sees it as its upper neighbor (dy = -1), bit 0.
    let cells: Vec<u8> = vec![0, 0, 1];
    let offs = offsets_for(1, 3);
    assert_eq!(offs, vec![(0, -1), (0, 0), (0, 1)]);
    assert_eq!(key_for(&cells, 1, 3, 0, 0, &offs), 0b001);
}

#[test]
fn fits_respects_ceiling() {
    assert!(neighborhood_fits(4, 4));
    assert!(neighborhood_fits(16, 1));
    assert!(neighborhood_fits(1, 16));
    assert!(!neighborhood_fits(5, 4));
    assert!(!neighborhood_fits(17, 1));
}

#[test]
fn clamp_shrinks_larger_extent_first() {
    assert_eq!(clamp_neighborhood_to_limit(5, 4), (4, 4));
    assert_eq!(clamp_neighborhood_to_limit(100, 1), (16, 1));
    assert_eq!(clamp_neighborhood_to_limit(3, 1), (3, 1));
    assert_eq!(clamp_neighborhood_to_limit(0, 0), (1, 1));
}
