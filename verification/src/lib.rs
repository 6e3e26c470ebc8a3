//! Card game rules: cards and decks, money, betting pots, and the decisions of
//! several poker variants.
use vstd::prelude::*;

pub mod cards;
pub mod money;
pub mod holdem;
pub mod pot;
pub mod probability;
pub mod look_up;
pub mod evaluate;
pub mod holdem_gen;
pub mod win_table;
pub mod game;
pub mod acey_deucey;
pub mod five_card_draw;
pub mod dealers_choice;
pub mod gfx;

verus! {

/// The decimal digit `d` as a character.
pub open spec fn digit_char(d: u8) -> char {
    (('0' as u8) + d) as char
}

/// A number below one hundred, written in decimal without leading zeros.
pub open spec fn decimal_text(n: u8) -> Seq<char> {
    if n < 10 {
        seq![digit_char(n)]
    } else {
        seq![digit_char(n / 10), digit_char(n % 10)]
    }
}

} // verus!
