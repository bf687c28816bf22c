use walpurgis::util::cartesian::{product, unique_square};

fn num_list1() -> [u32; 3] {
    [1, 2, 3]
}

fn num_list2() -> [u32; 3] {
    [4, 5, 6]
}

fn correct_product() -> [(u32, u32); 9] {
    [(1, 4), (1, 5), (1, 6), (2, 4), (2, 5), (2, 6), (3, 4), (3, 5), (3, 6)]
}

fn correct_square() -> [(u32, u32); 3] {
    [(1, 2), (1, 3), (2, 3)]
}

fn pair_matches<E>(tp1: &(E, E), tp2: &(E, E)) -> bool
where
    E: Eq + Copy,
{
    (tp1 == tp2) || (tp1 == &(tp2.1, tp2.0))
}

#[test]
fn cartesian_cartesian_product_test() {
    let list1 = num_list1();
    let list2 = num_list2();
    let pairs: Vec<_> = product(&list1, &list2).into_vec().iter().map(|t| (*t.0, *t.1)).collect();
    assert!(pairs.len() == correct_product().len());
    for element in correct_product().iter() {
        assert!(pairs.iter().filter(|a| pair_matches(a, element)).count() == 1);
    }
}

#[test]
fn cartesian_cartesian_square_test() {
    let list = num_list1();
    let pairs: Vec<_> = unique_square(&list).into_vec().iter().map(|t| (*t.0, *t.1)).collect();
    assert!(pairs.len() == correct_square().len());
    for element in correct_square().iter() {
        assert!(pairs.iter().filter(|a| pair_matches(a, element)).count() == 1);
    }
}

#[test]
fn physics_cartesian_product_test() {
    let list1 = num_list1();
    let list2 = num_list2();
    let pairs: Vec<_> = product(&list1, &list2).into_vec().iter().map(|t| (*t.0, *t.1)).collect();
    assert!(pairs.len() == correct_product().len());
    for element in correct_product().iter() {
        assert!(pairs.iter().filter(|a| pair_matches(a, element)).count() == 1);
    }
}

#[test]
fn physics_cartesian_square_test() {
    let list = num_list1();
    let pairs: Vec<_> = unique_square(&list).into_vec().iter().map(|t| (*t.0, *t.1)).collect();
    assert!(pairs.len() == correct_square().len());
    for element in correct_square().iter() {
        assert!(pairs.iter().filter(|a| pair_matches(a, element)).count() == 1);
    }
}

#[test]
fn product_keeps_row_major_order() {
    let pairs: Vec<(u32, u32)> =
        product(&num_list1(), &num_list2()).into_vec().iter().map(|t| (*t.0, *t.1)).collect();
    assert_eq!(pairs, correct_product().to_vec());
}

#[test]
fn product_of_two_by_two_has_four_pairs() {
    let left = ['a', 'b'];
    let right = ['x', 'y'];
    let pairs: Vec<(char, char)> =
        product(&left, &right).into_vec().iter().map(|t| (*t.0, *t.1)).collect();
    assert_eq!(pairs, vec![('a', 'x'), ('a', 'y'), ('b', 'x'), ('b', 'y')]);
}

#[test]
fn product_with_an_empty_side_is_empty() {
    let none: [u32; 0] = [];
    assert!(product(&num_list1(), &none).into_vec().is_empty());
    assert!(product(&none, &num_list1()).into_vec().is_empty());
    assert!(product(&none, &none).next().is_none());
}

#[test]
fn unique_square_keeps_order_and_has_no_self_pairs() {
    let list = [10u32, 20, 30, 40];
    let pairs: Vec<(u32, u32)> =
        unique_square(&list).into_vec().iter().map(|t| (*t.0, *t.1)).collect();
    assert_eq!(pairs, vec![(10, 20), (10, 30), (10, 40), (20, 30), (20, 40), (30, 40)]);
}

#[test]
fn unique_square_of_fewer_than_two_is_empty() {
    let none: [u32; 0] = [];
    let one = [7u32];
    assert!(unique_square(&none).into_vec().is_empty());
    assert!(unique_square(&one).into_vec().is_empty());
    assert!(unique_square(&one).next().is_none());
}

#[test]
fn walks_are_lazy_and_can_be_restarted() {
    let list = num_list1();
    let mut walk = unique_square(&list);
    assert_eq!(walk.next(), Some((&1, &2)));
    assert_eq!(walk.next(), Some((&1, &3)));
    // What is left after two steps.
    let rest: Vec<(u32, u32)> = walk.into_vec().iter().map(|t| (*t.0, *t.1)).collect();
    assert_eq!(rest, vec![(2, 3)]);
    // A new walk starts over.
    let mut again = unique_square(&list);
    assert_eq!(again.next(), Some((&1, &2)));
    let mut both = product(&list, &list);
    assert_eq!(both.next(), Some((&1, &1)));
    assert_eq!(both.next(), Some((&1, &2)));
    assert_eq!(both.into_vec().len(), 7);
}
