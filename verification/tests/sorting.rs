use sortviz::cocktail::cocktail_sort;
use sortviz::insertion::insertion_sort;
use sortviz::merge::merge_sort;
use sortviz::selection::selection_sort;
use sortviz::shuffle::create_random_list;

#[test]
fn test_insertion() {
    let mut std_sorted = create_random_list();
    std_sorted.sort();

    let mut insertion_sorted = create_random_list();
    insertion_sort(&mut insertion_sorted, None);

    assert_eq!(std_sorted, insertion_sorted);
}

#[test]
fn test_selection() {
    let mut std_sorted = create_random_list();
    std_sorted.sort();

    let mut selection_sorted = create_random_list();
    selection_sort(&mut selection_sorted, None);

    assert_eq!(std_sorted, selection_sorted);
}

#[test]
fn test_merge() {
    let mut std_sorted = create_random_list();
    std_sorted.sort();

    let mut merge_sorted = create_random_list();
    merge_sort(&mut merge_sorted, None);

    assert_eq!(std_sorted, merge_sorted);
}

#[test]
fn test_cocktail() {
    let mut std_sorted = create_random_list();
    std_sorted.sort();

    let mut cocktail_sorted = create_random_list();
    cocktail_sort(&mut cocktail_sorted, None);

    assert_eq!(std_sorted, cocktail_sorted);
}

#[test]
fn generated_list_is_a_permutation_of_the_run() {
    let mut list = create_random_list();
    assert_eq!(list.len(), 100);
    list.sort();
    let run: Vec<u16> = (1..=100).collect();
    assert_eq!(list, run);
}

#[test]
fn engines_agree_with_each_other() {
    let input = create_random_list();

    let mut a = input.clone();
    insertion_sort(&mut a, None);
    let mut b = input.clone();
    selection_sort(&mut b, None);
    let mut c = input.clone();
    merge_sort(&mut c, None);
    let mut d = input.clone();
    cocktail_sort(&mut d, None);

    assert_eq!(a, b);
    assert_eq!(b, c);
    assert_eq!(c, d);
}
