use pake::look_up::{all_sorted_hands, hand_to_sorted_hand_index, hand_win_probability, ALL_SORTED_HANDS_LEN};

#[test]
fn hand_to_sorted_hand_index_works_on_all_the_sorted_hands() {
    let all = all_sorted_hands();
    for hand in all.iter().copied() {
        let index = hand_to_sorted_hand_index(hand);
        let sorted_hand = all[index];

        assert!(
            (hand[0] == sorted_hand[0] || hand[0] == sorted_hand[1])
                && (hand[1] == sorted_hand[0] || hand[1] == sorted_hand[1]),
            "{sorted_hand:?} was not a sorted version of {hand:?}.",
        );
    }
}

#[test]
fn sorted_hands_are_all_pairs_in_order() {
    let all = all_sorted_hands();
    assert_eq!(all.len(), ALL_SORTED_HANDS_LEN);
    assert_eq!(all[0], [0, 1]);
    assert_eq!(all[1], [0, 2]);
    assert_eq!(all[51], [1, 2]);
    assert_eq!(all[ALL_SORTED_HANDS_LEN - 1], [50, 51]);
    assert_eq!(hand_to_sorted_hand_index([51, 50]), ALL_SORTED_HANDS_LEN - 1);
    assert_eq!(hand_to_sorted_hand_index([2, 1]), 51);
}

#[test]
fn win_probability_is_looked_up_by_sorted_hand() {
    let table: Vec<u8> = (0..ALL_SORTED_HANDS_LEN).map(|i| (i % 251) as u8).collect();
    assert_eq!(hand_win_probability(&table, [1, 0]), 0);
    assert_eq!(hand_win_probability(&table, [2, 1]), 51);
    assert_eq!(hand_win_probability(&table, [51, 50]), ((ALL_SORTED_HANDS_LEN - 1) % 251) as u8);
}

#[test]
fn each_sorted_hand_has_its_own_index() {
    let all = all_sorted_hands();
    for (k, hand) in all.iter().enumerate() {
        assert_eq!(hand_to_sorted_hand_index(*hand), k);
        assert_eq!(hand_to_sorted_hand_index([hand[1], hand[0]]), k);
    }
}
