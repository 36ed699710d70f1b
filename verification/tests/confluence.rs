use ironclaw::confluence::{max_aligned_count, merge_inflection_points};

#[test]
fn ebsw_zero_crossings_scenario() {
    // EBSW -0.5, -0.2, 0.1, 0.5, 0.3, -0.1, -0.4 crosses zero at bars 2 and 5.
    let ebsw = vec![false, false, true, false, false, true, false];
    let points = merge_inflection_points(&ebsw, &vec![], &vec![], 0, 7);
    assert_eq!(points, vec![2, 5]);
}

#[test]
fn merged_points_are_sorted_and_unique() {
    let ebsw = vec![false, true, false, false, true];
    let phase = vec![false, true, true, false, false, false];
    let mama = vec![false, true, false, true];
    // MAMA starts at bar 2: its crossovers are bars 3 and 5.
    let points = merge_inflection_points(&ebsw, &phase, &mama, 2, 10);
    assert_eq!(points, vec![1, 2, 3, 4, 5]);
}

#[test]
fn mama_crossovers_past_the_prices_are_dropped() {
    let mama = vec![true, true, true];
    let points = merge_inflection_points(&vec![], &vec![], &mama, 1, 3);
    assert_eq!(points, vec![1, 2]);
}

#[test]
fn no_crossings_no_points() {
    let points = merge_inflection_points(&vec![false; 4], &vec![false; 4], &vec![false; 4], 0, 4);
    assert!(points.is_empty());
}

#[test]
fn four_aligned_timeframes() {
    let aligned = vec![vec![true; 4]; 4];
    assert_eq!(max_aligned_count(&aligned), 4);
}

#[test]
fn scattered_phases_align_alone() {
    // Phases 0°, 90°, 180°: no pair within tolerance.
    let mut aligned = vec![vec![false; 3]; 3];
    for i in 0..3 {
        aligned[i][i] = true;
    }
    assert_eq!(max_aligned_count(&aligned), 1);
}

#[test]
fn largest_group_wins() {
    // 0 ~ 1 ~ 2, and 3 alone.
    let aligned = vec![
        vec![true, true, true, false],
        vec![true, true, true, false],
        vec![true, true, true, false],
        vec![false, false, false, true],
    ];
    assert_eq!(max_aligned_count(&aligned), 3);
    assert_eq!(max_aligned_count(&vec![]), 0);
}

#[test]
fn alignment_count_ignores_timeframe_order() {
    let aligned = vec![
        vec![false, true, false, true],
        vec![true, false, false, true],
        vec![false, false, false, false],
        vec![true, true, false, false],
    ];
    let perm = [2usize, 3, 0, 1];
    let reordered: Vec<Vec<bool>> = (0..4)
        .map(|a| (0..4).map(|b| aligned[perm[a]][perm[b]]).collect())
        .collect();
    assert_eq!(max_aligned_count(&aligned), 3);
    assert_eq!(max_aligned_count(&reordered), 3);
}
