use vmiscope_gui::table::{cycle_sort, smart_order, sort_order, sorted_dir};
use std::cmp::Ordering;

fn keys(rows: &[&str]) -> Vec<String> {
    rows.iter().map(|s| s.to_string()).collect()
}

#[test]
fn order_is_always_a_permutation() {
    let rows = ["b", "a", "c", "a"];
    for sort in [None, Some((0, true)), Some((0, false)), Some((7, true))] {
        let order = sort_order(rows.len(), sort, &keys(&rows));
        let mut seen = order.clone();
        seen.sort_unstable();
        assert_eq!(seen, vec![0, 1, 2, 3], "{sort:?} is not a permutation");
    }
}

#[test]
fn no_sort_is_the_natural_order() {
    let rows = ["b", "a", "c"];
    assert_eq!(sort_order(3, None, &keys(&rows)), vec![0, 1, 2]);
}

#[test]
fn sort_is_directional_and_stable() {
    let rows = ["b", "a", "c", "a"];
    assert_eq!(
        sort_order(4, Some((0, true)), &keys(&rows)),
        vec![1, 3, 0, 2],
        "ascending, ties in original order"
    );
    assert_eq!(
        sort_order(4, Some((0, false)), &keys(&rows)),
        vec![2, 0, 1, 3],
        "descending, ties still in original order"
    );
}

#[test]
fn numeric_keys_sort_numerically() {
    let rows = ["9", "10", "100", "1"];
    assert_eq!(
        sort_order(4, Some((0, true)), &keys(&rows)),
        vec![3, 0, 1, 2]
    );
}

#[test]
fn empty_table_sorts_to_nothing() {
    let rows: [&str; 0] = [];
    assert!(sort_order(0, Some((0, true)), &keys(&rows)).is_empty());
}

#[test]
fn sort_cycles_through_three_states() {
    let mut sort: Option<(usize, bool)> = None;
    cycle_sort(&mut sort, 2);
    assert_eq!(sort, Some((2, true)), "first click ascends");
    cycle_sort(&mut sort, 2);
    assert_eq!(sort, Some((2, false)), "second click descends");
    cycle_sort(&mut sort, 2);
    assert_eq!(sort, None, "third click clears");
}

#[test]
fn sort_moves_to_a_new_column_ascending() {
    let mut sort: Option<(usize, bool)> = Some((2, false));
    cycle_sort(&mut sort, 5);
    assert_eq!(sort, Some((5, true)));
}

#[test]
fn numbers_sort_before_text_and_text_by_character() {
    assert_eq!(smart_order("9", "10"), Ordering::Less);
    assert_eq!(smart_order("+7", "7"), Ordering::Equal);
    assert_eq!(smart_order("10", "apple"), Ordering::Less);
    assert_eq!(smart_order("apple", "Apple"), Ordering::Greater);
    assert_eq!(smart_order("ab", "abc"), Ordering::Less);
    assert_eq!(smart_order("", ""), Ordering::Equal);
}

#[test]
fn only_the_active_column_shows_a_direction() {
    assert_eq!(sorted_dir(Some((2, false)), 2), Some(false));
    assert_eq!(sorted_dir(Some((2, true)), 3), None);
    assert_eq!(sorted_dir(None, 0), None);
}
