use galvanic_test::expander::{expand, invocation_at, invocation_count, Expansion};

fn walk(sizes: Vec<usize>) -> Vec<Vec<usize>> {
    let mut cursor = Expansion::start(sizes);
    let mut seen = Vec::new();
    while let Some(chosen) = cursor.current() {
        seen.push(chosen.clone());
        cursor.advance();
    }
    seen
}

#[test]
fn no_fixtures_give_one_empty_combination() {
    assert_eq!(invocation_count(&vec![]), Some(1));
    assert_eq!(expand(&vec![]), Some(vec![vec![]]));
    assert_eq!(invocation_at(&vec![], 0), Some(vec![]));
    assert_eq!(invocation_at(&vec![], 1), None);
    assert_eq!(walk(vec![]), vec![Vec::<usize>::new()]);
}

#[test]
fn single_tuples_give_one_combination() {
    let sizes = vec![1, 1, 1];
    assert_eq!(invocation_count(&sizes), Some(1));
    assert_eq!(expand(&sizes), Some(vec![vec![0, 0, 0]]));
    assert_eq!(walk(sizes), vec![vec![0, 0, 0]]);
}

#[test]
fn one_fixture_is_walked_in_order() {
    let sizes = vec![3];
    assert_eq!(invocation_count(&sizes), Some(3));
    assert_eq!(expand(&sizes), Some(vec![vec![0], vec![1], vec![2]]));
}

#[test]
fn first_fixture_varies_slowest() {
    let sizes = vec![3, 3];
    let all = expand(&sizes).unwrap();
    assert_eq!(all.len(), 9);
    for index in 0..9 {
        assert_eq!(all[index], vec![index / 3, index % 3]);
    }
    assert_eq!(
        all,
        vec![
            vec![0, 0],
            vec![0, 1],
            vec![0, 2],
            vec![1, 0],
            vec![1, 1],
            vec![1, 2],
            vec![2, 0],
            vec![2, 1],
            vec![2, 2],
        ]
    );
}

#[test]
fn unequal_sizes_use_div_and_mod_of_the_inner_size() {
    let sizes = vec![2, 5];
    assert_eq!(invocation_count(&sizes), Some(10));
    for index in 0..10 {
        assert_eq!(invocation_at(&sizes, index), Some(vec![index / 5, index % 5]));
    }
    assert_eq!(invocation_at(&sizes, 7), Some(vec![1, 2]));
    assert_eq!(invocation_at(&sizes, 10), None);
}

#[test]
fn three_fixtures_are_mixed_radix() {
    let sizes = vec![2, 3, 4];
    assert_eq!(invocation_count(&sizes), Some(24));
    assert_eq!(invocation_at(&sizes, 0), Some(vec![0, 0, 0]));
    assert_eq!(invocation_at(&sizes, 1), Some(vec![0, 0, 1]));
    assert_eq!(invocation_at(&sizes, 4), Some(vec![0, 1, 0]));
    assert_eq!(invocation_at(&sizes, 12), Some(vec![1, 0, 0]));
    assert_eq!(invocation_at(&sizes, 17), Some(vec![1, 1, 1]));
    assert_eq!(invocation_at(&sizes, 23), Some(vec![1, 2, 3]));
    assert_eq!(invocation_at(&sizes, 24), None);
    assert_eq!(invocation_at(&sizes, usize::MAX), None);
}

#[test]
fn cursor_agrees_with_expand() {
    for sizes in [vec![2, 3, 4], vec![1, 4], vec![4, 1], vec![3, 3], vec![5], vec![2, 2, 2, 2]] {
        assert_eq!(Some(walk(sizes.clone())), expand(&sizes));
    }
}

#[test]
fn combinations_are_pairwise_distinct() {
    let all = expand(&vec![3, 2, 2]).unwrap();
    assert_eq!(all.len(), 12);
    for first in 0..all.len() {
        for second in 0..first {
            assert_ne!(all[first], all[second]);
        }
    }
}

#[test]
fn an_empty_parameter_set_leaves_nothing_to_run() {
    assert_eq!(invocation_count(&vec![3, 0, 2]), Some(0));
    assert_eq!(expand(&vec![3, 0, 2]), Some(vec![]));
    assert_eq!(invocation_at(&vec![3, 0, 2], 0), None);
    assert_eq!(walk(vec![3, 0, 2]), Vec::<Vec<usize>>::new());
    assert_eq!(invocation_count(&vec![0]), Some(0));
    assert_eq!(invocation_count(&vec![usize::MAX, usize::MAX, 0]), Some(0));
}

#[test]
fn a_count_beyond_usize_is_not_given() {
    assert_eq!(invocation_count(&vec![usize::MAX, 2]), None);
    assert_eq!(invocation_count(&vec![usize::MAX]), Some(usize::MAX));
    assert_eq!(invocation_count(&vec![usize::MAX, 1]), Some(usize::MAX));
    assert_eq!(expand(&vec![usize::MAX, usize::MAX]), None);
    assert_eq!(
        invocation_at(&vec![usize::MAX, usize::MAX], usize::MAX),
        Some(vec![1, 0])
    );
}

#[test]
fn cursor_has_no_limit_on_the_count() {
    let mut cursor = Expansion::start(vec![usize::MAX, usize::MAX, 2]);
    assert_eq!(cursor.fixtures(), 3);
    assert_eq!(cursor.current(), Some(&vec![0, 0, 0]));
    cursor.advance();
    assert_eq!(cursor.current(), Some(&vec![0, 0, 1]));
    cursor.advance();
    assert_eq!(cursor.current(), Some(&vec![0, 1, 0]));
}

#[test]
fn cursor_stays_past_the_end() {
    let mut cursor = Expansion::start(vec![2]);
    cursor.advance();
    assert_eq!(cursor.current(), Some(&vec![1]));
    cursor.advance();
    assert_eq!(cursor.current(), None);
    cursor.advance();
    assert_eq!(cursor.current(), None);
}
