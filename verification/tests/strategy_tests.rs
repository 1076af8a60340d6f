use war_sim::strategy::{
    Strategy, HighestFirst, LowestFirst, Random, Intersperse, sort_ascending, sort_descending,
};

#[test]
fn sort_descending_orders_highest_first() {
    let mut v = vec![3u8, 1, 4, 1, 5, 9, 2, 6];
    sort_descending(&mut v);
    assert_eq!(v, vec![9u8, 6, 5, 4, 3, 2, 1, 1]);
}

#[test]
fn sort_ascending_orders_lowest_first() {
    let mut v = vec![3u8, 1, 4, 1, 5, 9, 2, 6];
    sort_ascending(&mut v);
    assert_eq!(v, vec![1u8, 1, 2, 3, 4, 5, 6, 9]);
}

#[test]
fn highest_first_strategy_sorts_descending() {
    let mut v = vec![1u8, 13, 7];
    HighestFirst {}.order_cards(&mut v);
    assert_eq!(v, vec![13u8, 7, 1]);
}

#[test]
fn lowest_first_strategy_sorts_ascending() {
    let mut v = vec![1u8, 13, 7];
    LowestFirst {}.order_cards(&mut v);
    assert_eq!(v, vec![1u8, 7, 13]);
}

#[test]
fn intersperse_orders_even_and_odd_slots_independently() {
    // Evens [1, 3] sorted descending, odds [2, 4] sorted ascending,
    // re-interleaved into their original slots.
    let mut v = vec![1u8, 2, 3, 4];
    Intersperse(HighestFirst {}, LowestFirst {}).order_cards(&mut v);
    assert_eq!(v, vec![3u8, 2, 1, 4]);
}

#[test]
fn intersperse_handles_odd_length() {
    // Evens [5, 1, 9] descend to [9, 5, 1]; odds [2, 8] ascend to [2, 8].
    let mut v = vec![5u8, 2, 1, 8, 9];
    Intersperse(HighestFirst {}, LowestFirst {}).order_cards(&mut v);
    assert_eq!(v, vec![9u8, 2, 5, 8, 1]);
}

#[test]
fn random_shuffle_keeps_exactly_the_same_cards() {
    let mut v: Vec<u8> = (1u8..=13).chain(1u8..=13).collect();
    Random {}.order_cards(&mut v);
    assert_eq!(v.len(), 26);
    sort_ascending(&mut v);
    let expected: Vec<u8> = {
        let mut e: Vec<u8> = (1u8..=13).chain(1u8..=13).collect();
        sort_ascending(&mut e);
        e
    };
    assert_eq!(v, expected);
}
