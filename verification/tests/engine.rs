use ca::gen::{points1d, points2d, random1d, random2d};
use ca::nb::Neighborhood;
use ca::{get_ca1_rule, get_cyclic_rule, get_elementary_rule, get_life_rule, RuleError, CA1, CA2};

#[test]
fn test_elementary_rule_matches_generic_binary_code() {
    // 110 in binary is 01101110: the fixed elementary rule must equal the
    // generic radius-1 two-state rule built from that code.
    let elementary = get_elementary_rule(110);
    let generic = get_ca1_rule(1, 2, Some(String::from("01101110"))).unwrap();
    assert_eq!(elementary.radius, generic.radius);
    assert_eq!(elementary.states, generic.states);
    assert_eq!(elementary.table, generic.table);
    // Every one of the 8 possible three-cell windows maps to the same next
    // state under both rules.
    for a in 0..2u32 {
        for b in 0..2u32 {
            for c in 0..2u32 {
                let cells = vec![a, b, c];
                assert_eq!(
                    elementary.next_state(&cells, 3, 1),
                    generic.next_state(&cells, 3, 1)
                );
            }
        }
    }
}

#[test]
fn test_rule_table_round_trip() {
    // Entry k of the table reproduces the k-th digit of the code, counted
    // from the right, in the rule's base.
    let rule = get_ca1_rule(1, 3, Some(String::from("210210210210210210210210210"))).unwrap();
    assert_eq!(rule.table.len(), 27);
    for k in 0..27usize {
        let expected = match k % 3 {
            0 => 0,
            1 => 1,
            _ => 2,
        };
        assert_eq!(rule.table[k], expected);
    }
    let rule2 = get_ca1_rule(1, 2, Some(String::from("00011110"))).unwrap();
    let expected_bits = [0, 1, 1, 1, 1, 0, 0, 0];
    for k in 0..8usize {
        assert_eq!(rule2.table[k], expected_bits[k]);
    }
}

#[test]
fn test_rule_rejects_oversized_parameters() {
    assert_eq!(get_ca1_rule(32, 36, None).unwrap_err(), RuleError::ParamsTooBig);
    assert_eq!(get_ca1_rule(255, 36, None).unwrap_err(), RuleError::ParamsTooBig);
}

#[test]
fn test_rule_rejects_bad_parameters() {
    assert_eq!(get_ca1_rule(0, 2, None).unwrap_err(), RuleError::ZeroRadius);
    assert_eq!(get_ca1_rule(1, 1, None).unwrap_err(), RuleError::StatesOutOfRange);
    assert_eq!(get_ca1_rule(1, 37, None).unwrap_err(), RuleError::StatesOutOfRange);
    assert_eq!(
        get_ca1_rule(1, 2, Some(String::from("01"))).unwrap_err(),
        RuleError::InvalidCodeLength
    );
    assert_eq!(
        get_ca1_rule(1, 2, Some(String::from("0101010x"))).unwrap_err(),
        RuleError::InvalidDigit('x', 2)
    );
    assert_eq!(
        get_ca1_rule(1, 2, Some(String::from("21010101"))).unwrap_err(),
        RuleError::InvalidDigit('2', 2)
    );
}

#[test]
fn test_random_code_builds_well_formed_rule() {
    let rule = get_ca1_rule(1, 2, None).unwrap();
    assert_eq!(rule.table.len(), 8);
    for &entry in rule.table.iter() {
        assert!(entry < 2);
    }
    let rule36 = get_ca1_rule(1, 36, None).unwrap();
    assert_eq!(rule36.table.len(), 36 * 36 * 36);
}

#[test]
fn test_ca1_rule_90_evolution() {
    let rule = get_elementary_rule(90);
    let mut ca = CA1::new(vec![0, 0, 1, 0, 0], rule);
    ca.tick();
    assert_eq!(ca.cells, vec![0, 1, 0, 1, 0]);
    ca.tick();
    assert_eq!(ca.cells, vec![1, 0, 0, 0, 1]);
    ca.tick();
    assert_eq!(ca.cells, vec![1, 1, 0, 1, 1]);
}

#[test]
fn test_ca1_constructors() {
    let ca = CA1::new_elementary(vec![0, 1, 0], 110);
    assert_eq!(ca.w, 3);
    assert_eq!(ca.cells, vec![0, 1, 0]);
    let err = CA1::new_ca1(vec![0, 0], 0, 2, None).unwrap_err();
    assert_eq!(err, RuleError::ZeroRadius);
    let ok = CA1::new_ca1(vec![0, 1], 1, 2, Some(String::from("01101110"))).unwrap();
    assert_eq!(ok.w, 2);
}

#[test]
fn test_life_blinker_oscillates() {
    // A period-2 blinker: the synchronous step must compute every cell from
    // the pre-advance grid, so the line flips orientation each generation.
    let cells = points2d(5, 5, vec![(1, 2), (2, 2), (3, 2)]);
    let mut ca = CA2::new_life(cells, vec![2, 3], vec![3]);
    ca.tick();
    let vertical = points2d(5, 5, vec![(2, 1), (2, 2), (2, 3)]);
    assert_eq!(ca.cells, vertical);
    ca.tick();
    let horizontal = points2d(5, 5, vec![(1, 2), (2, 2), (3, 2)]);
    assert_eq!(ca.cells, horizontal);
}

#[test]
fn test_life_rule_getter() {
    let rule = get_life_rule(vec![2, 3], vec![3]);
    let cells = points2d(5, 5, vec![(1, 2), (2, 2), (3, 2)]);
    let mut ca = CA2::new(cells, rule);
    ca.tick();
    assert_eq!(ca.cells, points2d(5, 5, vec![(2, 1), (2, 2), (2, 3)]));
}

#[test]
fn test_cyclic_unreachable_threshold_freezes() {
    // With threshold 255 no count of neighbors can ever reach it, so the
    // grid never changes, however many generations pass.
    let mut cells = Vec::new();
    for y in 0..4u32 {
        let mut row = Vec::new();
        for x in 0..4u32 {
            row.push((y * 4 + x) % 8);
        }
        cells.push(row);
    }
    let initial = cells.clone();
    let mut ca = CA2::new_cyclic(cells, Neighborhood::Moore(1), 255, 8);
    for _ in 0..4 {
        ca.tick();
        assert_eq!(ca.cells, initial);
    }
}

#[test]
fn test_cyclic_moore_advances_on_successor_neighbors() {
    let cells = vec![vec![0, 1, 2]];
    let mut ca = CA2::new_cyclic(cells, Neighborhood::Moore(1), 1, 3);
    ca.tick();
    assert_eq!(ca.cells, vec![vec![1, 2, 0]]);
}

#[test]
fn test_cyclic_von_neumann_rule() {
    let cells = points2d(3, 3, vec![(1, 1)]);
    let mut ca = CA2::new_cyclic(cells, Neighborhood::VonNeumann(1), 1, 2);
    ca.tick();
    let expected = points2d(3, 3, vec![(1, 0), (0, 1), (2, 1), (1, 2)]);
    assert_eq!(ca.cells, expected);
}

#[test]
fn test_cyclic_rule_getter() {
    let rule = get_cyclic_rule(Neighborhood::VonNeumann(2), 3, 8);
    let cells = vec![vec![0; 4]; 4];
    let ca = CA2::new(cells, rule);
    assert_eq!(ca.w, 4);
    assert_eq!(ca.h, 4);
}

#[test]
fn test_points1d_marks_indexes() {
    assert_eq!(points1d(5, vec![1, 3]), vec![0, 1, 0, 1, 0]);
    assert_eq!(points1d(3, vec![]), vec![0, 0, 0]);
}

#[test]
fn test_points2d_marks_coordinates() {
    let grid = points2d(3, 2, vec![(0, 1), (2, 0)]);
    assert_eq!(grid, vec![vec![0, 0, 1], vec![1, 0, 0]]);
}

#[test]
fn test_random1d_uses_given_states_in_range() {
    // A single-state list pins every drawn value, so this fails if the
    // random source could step outside the requested range.
    assert_eq!(random1d(6, vec![5], None, None), vec![5; 6]);
    assert_eq!(random1d(8, vec![7], Some(2), Some(5)), vec![0, 0, 7, 7, 7, 0, 0, 0]);
    let mixed = random1d(10, vec![1, 2], None, None);
    for &v in mixed.iter() {
        assert!(v == 1 || v == 2);
    }
}

#[test]
fn test_random2d_fills_requested_window() {
    let grid = random2d(4, 3, vec![9], Some(1), Some(3), Some(1), Some(2));
    assert_eq!(
        grid,
        vec![vec![0, 0, 0, 0], vec![0, 9, 9, 0], vec![0, 0, 0, 0]]
    );
    let all = random2d(3, 2, vec![4], None, None, None, None);
    assert_eq!(all, vec![vec![4, 4, 4], vec![4, 4, 4]]);
}
