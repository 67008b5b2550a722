use cloth_sim::topology::springs_of;
use cloth_sim::Grid;
use cloth_sim::Spring;
use cloth_sim::SpringKind;

fn pairs(springs: &[Spring]) -> Vec<(usize, usize)> {
    springs.iter().map(|s| (s.a, s.b)).collect()
}

fn listed(cols: usize, rows: usize, kind: SpringKind) -> Vec<Spring> {
    springs_of(&Grid::new(cols, rows).unwrap(), kind)
}

fn cell(cols: usize, index: usize) -> (i64, i64) {
    ((index / cols) as i64, (index % cols) as i64)
}

const KINDS: [SpringKind; 3] = [SpringKind::Stretch, SpringKind::Shear, SpringKind::Bend];

const SIZES: [(usize, usize); 9] = [
    (1, 1),
    (2, 1),
    (1, 2),
    (2, 2),
    (3, 2),
    (2, 4),
    (4, 2),
    (5, 5),
    (7, 3),
];

#[test]
fn spring_new_keeps_its_fields() {
    let spring = Spring::new(3, 8, SpringKind::Shear);
    assert_eq!(spring.a, 3);
    assert_eq!(spring.b, 8);
    assert_eq!(spring.kind, SpringKind::Shear);
}

#[test]
fn rest_lengths_squared_are_one_two_and_four() {
    assert_eq!(SpringKind::Stretch.rest_squared(), 1);
    assert_eq!(SpringKind::Shear.rest_squared(), 2);
    assert_eq!(SpringKind::Bend.rest_squared(), 4);
}

#[test]
fn offsets_of_each_class() {
    assert_eq!(SpringKind::Stretch.offsets(), ((0, 1), (1, 0)));
    assert_eq!(SpringKind::Shear.offsets(), ((1, -1), (1, 1)));
    assert_eq!(SpringKind::Bend.offsets(), ((0, 2), (2, 0)));
}

#[test]
fn structural_springs_of_two_rows_of_three() {
    let springs = listed(3, 2, SpringKind::Stretch);
    assert_eq!(
        pairs(&springs),
        vec![(0, 1), (0, 3), (1, 2), (1, 4), (2, 5), (3, 4), (4, 5)]
    );
    assert!(springs.iter().all(|s| s.kind == SpringKind::Stretch));
}

#[test]
fn shear_springs_of_two_rows_of_three() {
    let springs = listed(3, 2, SpringKind::Shear);
    assert_eq!(pairs(&springs), vec![(0, 4), (1, 3), (1, 5), (2, 4)]);
    assert!(springs.iter().all(|s| s.kind == SpringKind::Shear));
}

#[test]
fn bend_springs_of_two_rows_of_three() {
    let springs = listed(3, 2, SpringKind::Bend);
    assert_eq!(pairs(&springs), vec![(0, 2), (3, 5)]);
    assert!(springs.iter().all(|s| s.kind == SpringKind::Bend));
}

#[test]
fn bend_springs_of_three_rows_of_three() {
    let springs = listed(3, 3, SpringKind::Bend);
    assert_eq!(
        pairs(&springs),
        vec![(0, 2), (0, 6), (1, 7), (2, 8), (3, 5), (6, 8)]
    );
}

#[test]
fn shear_springs_of_a_tall_grid() {
    let springs = listed(2, 4, SpringKind::Shear);
    assert_eq!(
        pairs(&springs),
        vec![(0, 3), (1, 2), (2, 5), (3, 4), (4, 7), (5, 6)]
    );
}

#[test]
fn shear_springs_of_a_wide_grid() {
    let springs = listed(4, 2, SpringKind::Shear);
    assert_eq!(
        pairs(&springs),
        vec![(0, 5), (1, 4), (1, 6), (2, 5), (2, 7), (3, 6)]
    );
}

#[test]
fn a_single_particle_has_no_springs() {
    for kind in KINDS {
        assert!(listed(1, 1, kind).is_empty());
    }
}

#[test]
fn a_pair_of_particles_has_one_structural_spring() {
    assert_eq!(pairs(&listed(2, 1, SpringKind::Stretch)), vec![(0, 1)]);
    assert_eq!(pairs(&listed(1, 2, SpringKind::Stretch)), vec![(0, 1)]);
    assert!(listed(2, 1, SpringKind::Shear).is_empty());
    assert!(listed(2, 1, SpringKind::Bend).is_empty());
}

#[test]
fn structural_count_follows_the_formula() {
    for (cols, rows) in SIZES {
        let count = listed(cols, rows, SpringKind::Stretch).len();
        assert_eq!(count, 2 * rows * cols - rows - cols);
    }
    assert_eq!(listed(20, 20, SpringKind::Stretch).len(), 760);
}

#[test]
fn shear_count_follows_the_formula() {
    for (cols, rows) in SIZES {
        let count = listed(cols, rows, SpringKind::Shear).len();
        assert_eq!(count, 2 * (rows - 1) * (cols - 1));
    }
    assert_eq!(listed(20, 20, SpringKind::Shear).len(), 722);
}

#[test]
fn bend_count_follows_the_formula() {
    for (cols, rows) in SIZES {
        let count = listed(cols, rows, SpringKind::Bend).len();
        assert_eq!(
            count,
            rows * cols.saturating_sub(2) + rows.saturating_sub(2) * cols
        );
    }
    assert_eq!(listed(20, 20, SpringKind::Bend).len(), 720);
}

#[test]
fn springs_run_from_the_lower_index_to_the_higher() {
    for (cols, rows) in SIZES {
        for kind in KINDS {
            for spring in listed(cols, rows, kind) {
                assert!(spring.a < spring.b);
                assert!(spring.b < rows * cols);
            }
        }
    }
}

#[test]
fn springs_are_listed_in_ascending_order() {
    for (cols, rows) in SIZES {
        for kind in KINDS {
            let found = pairs(&listed(cols, rows, kind));
            for k in 1..found.len() {
                assert!(found[k - 1] < found[k]);
            }
        }
    }
}

#[test]
fn no_pair_is_joined_twice() {
    for (cols, rows) in SIZES {
        let mut seen: Vec<(usize, usize)> = Vec::new();
        for kind in KINDS {
            for spring in listed(cols, rows, kind) {
                let pair = (spring.a.min(spring.b), spring.a.max(spring.b));
                assert!(!seen.contains(&pair));
                seen.push(pair);
            }
        }
    }
}

#[test]
fn springs_are_at_rest_in_the_flat_cloth() {
    for (cols, rows) in SIZES {
        for kind in KINDS {
            for spring in listed(cols, rows, kind) {
                let (row_a, col_a) = cell(cols, spring.a);
                let (row_b, col_b) = cell(cols, spring.b);
                let squared = (row_b - row_a).pow(2) + (col_b - col_a).pow(2);
                assert_eq!(squared, kind.rest_squared() as i64);
            }
        }
    }
}

#[test]
fn every_pair_one_step_apart_is_joined() {
    for (cols, rows) in SIZES {
        for kind in KINDS {
            let found = pairs(&listed(cols, rows, kind));
            for a in 0..rows * cols {
                for b in (a + 1)..rows * cols {
                    let (row_a, col_a) = cell(cols, a);
                    let (row_b, col_b) = cell(cols, b);
                    let step = (row_b - row_a, col_b - col_a);
                    let apart = match kind {
                        SpringKind::Stretch => step == (0, 1) || step == (1, 0),
                        SpringKind::Shear => step == (1, -1) || step == (1, 1),
                        SpringKind::Bend => step == (0, 2) || step == (2, 0),
                    };
                    assert_eq!(found.contains(&(a, b)), apart);
                }
            }
        }
    }
}
