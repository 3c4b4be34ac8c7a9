use sortviz::cocktail::{backward_pass, cocktail_sort, forward_pass};
use sortviz::insertion::{insert_step, insertion_sort};
use sortviz::merge::{merge, merge_sort};
use sortviz::selection::{select_pass, selection_sort};
use sortviz::vis::{tone_frequency, Visualizer};

#[test]
fn single_element_is_unchanged() {
    let mut a: Vec<u16> = vec![7];
    insertion_sort(&mut a, None);
    assert_eq!(a, vec![7]);

    let mut b: Vec<u16> = vec![7];
    selection_sort(&mut b, None);
    assert_eq!(b, vec![7]);

    let mut c: Vec<u16> = vec![7];
    merge_sort(&mut c, None);
    assert_eq!(c, vec![7]);

    let mut d: Vec<u16> = vec![7];
    cocktail_sort(&mut d, None);
    assert_eq!(d, vec![7]);
}

#[test]
fn cocktail_on_ascending_input_makes_no_swap() {
    let mut list: Vec<u16> = (1..=10).collect();
    let swapped = forward_pass(&mut list, 0, 9, None);
    assert_eq!(swapped, None);
    assert_eq!(list, (1..=10).collect::<Vec<u16>>());

    let swapped_back = backward_pass(&mut list, 0, 9, None);
    assert_eq!(swapped_back, None);

    let mut whole: Vec<u16> = (1..=10).collect();
    cocktail_sort(&mut whole, None);
    assert_eq!(whole, (1..=10).collect::<Vec<u16>>());
}

#[test]
fn insertion_scenario() {
    let mut list: Vec<u16> = vec![3, 1, 2];
    insert_step(&mut list, 1, None);
    assert_eq!(list, vec![1, 3, 2]);

    let mut full: Vec<u16> = vec![3, 1, 2];
    insertion_sort(&mut full, None);
    assert_eq!(full, vec![1, 2, 3]);
}

#[test]
fn selection_scenario() {
    let mut list: Vec<u16> = vec![5, 3, 4, 1, 2];
    let min_index = select_pass(&mut list, 0, None);
    assert_eq!(min_index, 3);
    assert_eq!(list, vec![1, 3, 4, 5, 2]);

    let mut full: Vec<u16> = vec![5, 3, 4, 1, 2];
    selection_sort(&mut full, None);
    assert_eq!(full, vec![1, 2, 3, 4, 5]);
}

#[test]
fn merge_takes_the_smaller_front_each_step() {
    let left: Vec<u16> = vec![1, 3, 6];
    let right: Vec<u16> = vec![2, 4, 5];
    let mut out: Vec<u16> = vec![0, 0, 0, 0, 0, 0];
    merge(&left, &right, &mut out, None);
    assert_eq!(out, vec![1, 2, 3, 4, 5, 6]);
}

#[test]
fn tone_frequency_is_ten_hertz_per_unit() {
    assert_eq!(tone_frequency(1), 10);
    assert_eq!(tone_frequency(55), 550);
    assert_eq!(tone_frequency(100), 1000);
}

#[test]
fn fresh_context_starts_at_the_left_edge() {
    let vis = Visualizer::new(100);
    assert_eq!(vis.get_x_offset(), 0);
}
