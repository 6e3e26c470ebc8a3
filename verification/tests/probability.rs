use pake::probability::{EvalCount, FIFTY_PERCENT, ONE, SEVENTY_FIVE_PERCENT};

fn a(numerator: u32, denominator: u32, expected: u8) {
    let eval_count = EvalCount {
        win_count: numerator,
        total: denominator,
    };
    assert_eq!(eval_count.probability(), expected);
}

#[test]
fn probability_probability_works_in_these_cases() {
    a(1, 1, ONE);
    a(0, 1, 0);
    a(1, 2, FIFTY_PERCENT);
    a(3, 4, SEVENTY_FIVE_PERCENT);
    for x in 0..256u32 {
        a(x, 256, u8::try_from(x).unwrap());
    }
}

#[test]
fn main_probability_works_in_these_cases() {
    a(1, 1, ONE);
    a(0, 1, 0);
    a(1, 2, FIFTY_PERCENT);
    a(3, 4, SEVENTY_FIVE_PERCENT);
    for x in 0..256u32 {
        a(x, 256, u8::try_from(x).unwrap());
    }
}

#[test]
fn probability_rounds_halves_up_and_caps() {
    // 256 * 1 / 3 = 85.33...
    a(1, 3, 85);
    // 256 * 2 / 3 = 170.66...
    a(2, 3, 171);
    // 256 * 1 / 512 = 0.5, rounded up.
    a(1, 512, 1);
    // More wins than trials still caps at certainty.
    a(5, 2, ONE);
}

#[test]
fn probability_agrees_with_floating_point() {
    for total in 1..60u32 {
        for wins in 0..=total {
            let frac = f64::from(wins) / f64::from(total);
            let expected = ((frac * 256.) + 0.5) as u8;
            a(wins, total, expected);
        }
    }
}
