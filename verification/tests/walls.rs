use crystallized_time::walls::wall_boundaries;

#[test]
fn uniform_chain_has_no_walls() {
    assert!(wall_boundaries(&vec![true; 8]).is_empty());
    assert!(wall_boundaries(&vec![false; 8]).is_empty());
    assert!(wall_boundaries(&vec![]).is_empty());
    assert!(wall_boundaries(&vec![true]).is_empty());
}

#[test]
fn single_flipped_site_makes_a_pair_of_walls() {
    // Site 3 flipped against its neighbours: walls at 2|3 and 3|4.
    let signs = vec![true, true, true, false, true, true, true, true];
    assert_eq!(wall_boundaries(&signs), vec![2, 3]);
}

#[test]
fn walls_come_left_to_right() {
    let signs = vec![false, true, true, false, false, true, false, false];
    assert_eq!(wall_boundaries(&signs), vec![0, 2, 4, 5]);
}

#[test]
fn alternating_chain_has_a_wall_between_every_pair() {
    let signs = vec![true, false, true, false, true];
    assert_eq!(wall_boundaries(&signs), vec![0, 1, 2, 3]);
}
