use pake::holdem_gen::{count_evaluation, sorted_flop, sorted_hand, ALL_SORTED_FLOPS_LEN};
use pake::probability::EvalCount;

#[test]
fn sorted_flop_has_the_expected_last_flop() {
    assert_eq!(sorted_flop((ALL_SORTED_FLOPS_LEN - 1) as u32), [49, 50, 51]);
}

#[test]
fn count_evaluation_works_on_these_few_flops() {
    let evaluator = poker::Evaluator::new();
    let mut eval_counts: [EvalCount; 1326] = [EvalCount { win_count: 0, total: 0 }; 1326];

    const FLOPS_TO_CHECK: u32 = 4;

    for hand_i_1 in 0..1326u16 {
        for hand_i_2 in (hand_i_1 + 1)..1326u16 {
            for flop_i in 0..4 {
                count_evaluation(&evaluator, &mut eval_counts, hand_i_1, hand_i_2, flop_i);
            }
        }
    }

    let eval_counts = &eval_counts[1000..1008];

    assert!(
        !eval_counts.iter().any(|count| count.total <= FLOPS_TO_CHECK),
        "a total was <= {FLOPS_TO_CHECK}\n {eval_counts:?}"
    );

    assert!(
        eval_counts.iter().any(|count| count.probability() != 0),
        "all propabilities were == 0\n {eval_counts:?}"
    );
}

#[test]
fn sorted_flops_come_in_order() {
    assert_eq!(sorted_flop(0), [0, 1, 2]);
    assert_eq!(sorted_flop(1), [0, 1, 3]);
    assert_eq!(sorted_flop(49), [0, 1, 51]);
    assert_eq!(sorted_flop(50), [0, 2, 3]);
    // After the 1275 flops that start with card 0 come those that start with 1.
    assert_eq!(sorted_flop(1275), [1, 2, 3]);
    let mut previous = sorted_flop(0);
    for index in 1..ALL_SORTED_FLOPS_LEN {
        let flop = sorted_flop(index);
        assert!(flop[0] < flop[1] && flop[1] < flop[2] && flop[2] < 52);
        assert!(previous < flop, "{previous:?} then {flop:?}");
        previous = flop;
    }
}

#[test]
fn sorted_hands_match_the_table() {
    let table = pake::look_up::all_sorted_hands();
    for (index, hand) in table.iter().enumerate() {
        assert_eq!(sorted_hand(index as u16), *hand);
    }
}

#[test]
fn a_shared_card_records_nothing() {
    let evaluator = poker::Evaluator::new();
    let mut counts: [EvalCount; 1326] = [EvalCount { win_count: 0, total: 0 }; 1326];
    // Hand 0 is [0, 1]; flop 0 is [0, 1, 2].
    count_evaluation(&evaluator, &mut counts, 0, 1300, 0);
    assert!(counts.iter().all(|count| count.total == 0 && count.win_count == 0));
}

#[test]
fn aces_beat_deuces() {
    let evaluator = poker::Evaluator::new();
    let mut counts: [EvalCount; 1326] = [EvalCount { win_count: 0, total: 0 }; 1326];
    // Cards 0 and 13 are the aces of clubs and diamonds; 1 and 14 the twos.
    let aces = (0..1326u16).find(|&i| sorted_hand(i) == [0, 13]).unwrap();
    let twos = (0..1326u16).find(|&i| sorted_hand(i) == [1, 14]).unwrap();
    // A flop of a 5, a 9 and a jack of different suits: [4, 21, 49].
    let flop = (0..ALL_SORTED_FLOPS_LEN).find(|&i| sorted_flop(i) == [4, 21, 49]).unwrap();
    count_evaluation(&evaluator, &mut counts, aces, twos, flop);
    assert_eq!(counts[aces as usize].total, 1);
    assert_eq!(counts[twos as usize].total, 1);
    assert_eq!(counts[aces as usize].win_count, 1);
    assert_eq!(counts[twos as usize].win_count, 0);
    count_evaluation(&evaluator, &mut counts, twos, aces, flop);
    assert_eq!(counts[aces as usize].win_count, 2);
    assert_eq!(counts[twos as usize].win_count, 0);
    assert_eq!(counts[twos as usize].total, 2);
}
