use texture_processor::lights::{cluster_cities, cluster_totals};

fn neighbours(s: usize, j: usize) -> bool {
    s.abs_diff(j) <= 1
}

#[test]
fn largest_city_seeds_and_takes_its_neighbours() {
    let populations = vec![10, 50, 20, 50];
    let clusters = cluster_cities(&populations, &neighbours);
    assert_eq!(clusters, vec![vec![1, 0, 2], vec![3]]);
    assert_eq!(cluster_totals(&populations, &clusters[0]), (80, 3));
    assert_eq!(cluster_totals(&populations, &clusters[1]), (50, 1));
}

#[test]
fn isolated_cities_light_alone_in_population_order() {
    let populations = vec![3, 9, 9, 1];
    let clusters = cluster_cities(&populations, &|_: usize, _: usize| false);
    assert_eq!(clusters, vec![vec![1], vec![2], vec![0], vec![3]]);
}

#[test]
fn one_city_can_gather_everything() {
    let populations = vec![1, 2, 3];
    let clusters = cluster_cities(&populations, &|_: usize, _: usize| true);
    assert_eq!(clusters, vec![vec![2, 0, 1]]);
    assert!(cluster_cities(&vec![], &neighbours).is_empty());
}

#[test]
fn cluster_totals_saturate() {
    let populations = vec![u32::MAX, 5];
    assert_eq!(cluster_totals(&populations, &vec![0, 1]), (u32::MAX, 2));
    assert_eq!(cluster_totals(&populations, &vec![]), (0, 0));
    let many = vec![0usize; 70_000];
    assert_eq!(cluster_totals(&vec![1], &many), (70_000, u16::MAX));
}
