//! Dealer's choice: a table whose players play a series of the other games,
//! carrying their money from one to the next.
use vstd::prelude::*;

use crate::acey_deucey;
use crate::five_card_draw;
use crate::game::{
    Dir, Id, PlayerCount, SubGame, SubGameBitset, bits_set, clamp_player_count, clamped_through,
    games_in, spec_starting_money_step, starting_money_step,
};
use crate::money::{Money, MoneyInner, amounts_sum, lemma_amounts_sum_update, lemma_amounts_sum_zeros};
use crate::pot::money_amounts;

verus! {

broadcast use vstd::array::group_array_axioms;

/// Where the cursor goes in the dealer's choice setup menu (back, the game
/// checkboxes, player count, starting money, submit, in that order) when `dir`
/// is pressed with `hot` under it; up and down move between the checkboxes,
/// and with nothing under the cursor it goes to the first checkbox.
pub open spec fn spec_setup_next_hot(hot: Id, dir: Option<Dir>) -> Option<Id> {
    match hot {
        Id::BackToTitleScreen => match dir {
            Some(Dir::Down) | Some(Dir::Right) => Some(Id::SubGameCheckbox(SubGame::Holdem)),
            _ => None,
        },
        Id::SubGameCheckbox(game) => match dir {
            Some(Dir::Up) => Some(
                Id::SubGameCheckbox(SubGame::at(((game.position() + 2) % 3) as nat)),
            ),
            Some(Dir::Down) => Some(
                Id::SubGameCheckbox(SubGame::at(((game.position() + 1) % 3) as nat)),
            ),
            Some(Dir::Left) => Some(Id::BackToTitleScreen),
            Some(Dir::Right) => Some(Id::PlayerCountSelect),
            None => None,
        },
        Id::PlayerCountSelect => match dir {
            Some(Dir::Left) => Some(Id::SubGameCheckbox(SubGame::Holdem)),
            Some(Dir::Right) => Some(Id::StartingMoneySelect),
            _ => None,
        },
        Id::StartingMoneySelect => match dir {
            Some(Dir::Left) => Some(Id::PlayerCountSelect),
            Some(Dir::Right) => Some(Id::Submit),
            _ => None,
        },
        Id::Submit => match dir {
            Some(Dir::Left) => Some(Id::StartingMoneySelect),
            _ => None,
        },
        Id::Zero => Some(Id::SubGameCheckbox(SubGame::Holdem)),
        _ => None,
    }
}

/// The player count after `dir` is pressed on it, before it is clamped to the
/// chosen games.
pub open spec fn spec_player_count_step(player_count: PlayerCount, dir: Option<Dir>) -> PlayerCount {
    match dir {
        Some(Dir::Up) => if player_count < u8::MAX {
            (player_count + 1) as PlayerCount
        } else {
            player_count
        },
        Some(Dir::Down) => if player_count > 0 {
            (player_count - 1) as PlayerCount
        } else {
            0
        },
        _ => player_count,
    }
}

/// A person's dealer's choice setup menu this frame: `dir` moves the cursor,
/// or changes the player count (then clamped to the chosen games) or the
/// starting money under it. Returns where the cursor goes.
pub fn setup_menu(
    hot: Id,
    dir: Option<Dir>,
    player_count: &mut PlayerCount,
    starting_money: &mut MoneyInner,
    chooseable_games: SubGameBitset,
) -> (next_hot: Option<Id>)
    ensures
        next_hot == spec_setup_next_hot(hot, dir),
        *final(player_count) == if hot == Id::PlayerCountSelect {
            clamped_through(
                spec_player_count_step(*old(player_count), dir),
                games_in(chooseable_games.0),
            )
        } else {
            *old(player_count)
        },
        *final(starting_money) == if hot == Id::StartingMoneySelect {
            spec_starting_money_step(*old(starting_money), dir)
        } else {
            *old(starting_money)
        },
{
    match hot {
        Id::BackToTitleScreen => match dir {
            Some(Dir::Down) | Some(Dir::Right) => Some(Id::SubGameCheckbox(SubGame::Holdem)),
            _ => None,
        },
        Id::SubGameCheckbox(game) => match dir {
            Some(Dir::Up) => Some(Id::SubGameCheckbox(game.wrapping_up())),
            Some(Dir::Down) => Some(Id::SubGameCheckbox(game.wrapping_down())),
            Some(Dir::Left) => Some(Id::BackToTitleScreen),
            Some(Dir::Right) => Some(Id::PlayerCountSelect),
            None => None,
        },
        Id::PlayerCountSelect => {
            let next_hot = match dir {
                Some(Dir::Up) => {
                    *player_count = player_count.saturating_add(1);
                    None
                },
                Some(Dir::Down) => {
                    *player_count = player_count.saturating_sub(1);
                    None
                },
                Some(Dir::Left) => Some(Id::SubGameCheckbox(SubGame::Holdem)),
                Some(Dir::Right) => Some(Id::StartingMoneySelect),
                None => None,
            };
            clamp_player_count(player_count, chooseable_games);
            next_hot
        },
        Id::StartingMoneySelect => {
            *starting_money = starting_money_step(*starting_money, dir);
            match dir {
                Some(Dir::Left) => Some(Id::PlayerCountSelect),
                Some(Dir::Right) => Some(Id::Submit),
                _ => None,
            }
        },
        Id::Submit => match dir {
            Some(Dir::Left) => Some(Id::StartingMoneySelect),
            _ => None,
        },
        Id::Zero => Some(Id::SubGameCheckbox(SubGame::Holdem)),
        _ => None,
    }
}

/// Whether the setup can be submitted: more than one game must be chosen.
pub fn is_valid_to_submit(chooseable_games: SubGameBitset) -> (valid: bool)
    ensures
        valid == (bits_set(chooseable_games.0, 8) > 1),
{
    chooseable_games.len() > 1
}

/// The moneys of a new dealer's choice table: `starting_money` for each of the
/// first `player_count` seats, nothing for the others.
pub fn starting_moneys(player_count: PlayerCount, starting_money: MoneyInner) -> (moneys: [Money; 22])
    ensures
        forall|i: int|
            0 <= i < 22 ==> (#[trigger] moneys@[i])@ == if i < player_count {
                starting_money
            } else {
                0
            },
{
    let count = if player_count < 22 {
        player_count as usize
    } else {
        22
    };
    let mut amounts: [MoneyInner; 22] = [0; 22];
    let mut i: usize = 0;
    while i < count
        invariant
            count <= 22,
            count == if player_count < 22 {
                player_count as int
            } else {
                22
            },
            i <= count,
            forall|j: int| 0 <= j < 22 ==> #[trigger] amounts@[j] == if j < i {
                starting_money
            } else {
                0
            },
        decreases count - i,
    {
        amounts[i] = starting_money;
        i += 1;
    }
    Money::array_from_inner_array(amounts)
}

/// Hands the money of the first seats of the table over to a game of acey-deucey.
pub fn moneys_for_acey_deucey(moneys: &mut [Money; 22], player_count: acey_deucey::PlayerCount) -> (handed:
    [Money; 17])
    ensures
        forall|i: int|
            0 <= i < 17 ==> (#[trigger] handed@[i])@ == if i < player_count.value() {
                old(moneys)@[i]@
            } else {
                0
            },
        amounts_sum(money_amounts(final(moneys)@)) + amounts_sum(money_amounts(handed@))
            == amounts_sum(money_amounts(old(moneys)@)),
        forall|i: int|
            0 <= i < 22 ==> (#[trigger] final(moneys)@[i])@ == if i < player_count.value() {
                0
            } else {
                old(moneys)@[i]@
            },
{
    proof {
        player_count.lemma_value(player_count);
    }
    let count = player_count.usize();
    let mut handed = Money::array_from_inner_array([0; 17]);
    proof {
        lemma_amounts_sum_zeros(money_amounts(handed@));
    }
    let mut i: usize = 0;
    while i < count
        invariant
            count == player_count.value(),
            count <= 17,
            i <= count,
            forall|j: int|
                0 <= j < 17 ==> (#[trigger] handed@[j])@ == if j < i {
                    old(moneys)@[j]@
                } else {
                    0
                },
            forall|j: int|
                0 <= j < 22 ==> (#[trigger] moneys@[j])@ == if j < i {
                    0
                } else {
                    old(moneys)@[j]@
                },
            amounts_sum(money_amounts(moneys@)) + amounts_sum(money_amounts(handed@))
                == amounts_sum(money_amounts(old(moneys)@)),
        decreases count - i,
    {
        let ghost table_before = money_amounts(moneys@);
        let ghost game_before = money_amounts(handed@);
        handed[i] = moneys[i].take_all();
        proof {
            assert(money_amounts(moneys@) =~= table_before.update(i as int, 0));
            assert(money_amounts(handed@) =~= game_before.update(i as int, table_before[i as int]));
            lemma_amounts_sum_update(table_before, i as int, 0);
            lemma_amounts_sum_update(game_before, i as int, table_before[i as int]);
        }
        i += 1;
    }
    handed
}

/// Hands the money of the first seats of the table over to a game of five-card draw.
pub fn moneys_for_five_card_draw(
    moneys: &mut [Money; 22],
    player_count: five_card_draw::PlayerCount,
) -> (handed: [Money; 9])
    ensures
        forall|i: int|
            0 <= i < 9 ==> (#[trigger] handed@[i])@ == if i < player_count.value() {
                old(moneys)@[i]@
            } else {
                0
            },
        amounts_sum(money_amounts(final(moneys)@)) + amounts_sum(money_amounts(handed@))
            == amounts_sum(money_amounts(old(moneys)@)),
        forall|i: int|
            0 <= i < 22 ==> (#[trigger] final(moneys)@[i])@ == if i < player_count.value() {
                0
            } else {
                old(moneys)@[i]@
            },
{
    proof {
        player_count.lemma_value(player_count);
    }
    let count = player_count.usize();
    let mut handed = Money::array_from_inner_array([0; 9]);
    proof {
        lemma_amounts_sum_zeros(money_amounts(handed@));
    }
    let mut i: usize = 0;
    while i < count
        invariant
            count == player_count.value(),
            count <= 9,
            i <= count,
            forall|j: int|
                0 <= j < 9 ==> (#[trigger] handed@[j])@ == if j < i {
                    old(moneys)@[j]@
                } else {
                    0
                },
            forall|j: int|
                0 <= j < 22 ==> (#[trigger] moneys@[j])@ == if j < i {
                    0
                } else {
                    old(moneys)@[j]@
                },
            amounts_sum(money_amounts(moneys@)) + amounts_sum(money_amounts(handed@))
                == amounts_sum(money_amounts(old(moneys)@)),
        decreases count - i,
    {
        let ghost table_before = money_amounts(moneys@);
        let ghost game_before = money_amounts(handed@);
        handed[i] = moneys[i].take_all();
        proof {
            assert(money_amounts(moneys@) =~= table_before.update(i as int, 0));
            assert(money_amounts(handed@) =~= game_before.update(i as int, table_before[i as int]));
            lemma_amounts_sum_update(table_before, i as int, 0);
            lemma_amounts_sum_update(game_before, i as int, table_before[i as int]);
        }
        i += 1;
    }
    handed
}

/// Takes the money of the first `player_count` seats of a finished game back
/// to the table. The table's seats get what the game's seats had; those
/// seats of the game are left with nothing.
pub fn collect_moneys(moneys: &mut [Money; 22], game_moneys: &mut [Money], player_count: PlayerCount)
    requires
        player_count <= old(game_moneys)@.len(),
        player_count <= 22,
    ensures
        final(game_moneys)@.len() == old(game_moneys)@.len(),
        (forall|i: int| 0 <= i < player_count ==> (#[trigger] old(moneys)@[i])@ == 0) ==> amounts_sum(
            money_amounts(final(moneys)@),
        ) + amounts_sum(money_amounts(final(game_moneys)@)) == amounts_sum(money_amounts(old(moneys)@))
            + amounts_sum(money_amounts(old(game_moneys)@)),
        forall|i: int|
            0 <= i < 22 ==> (#[trigger] final(moneys)@[i])@ == if i < player_count {
                old(game_moneys)@[i]@
            } else {
                old(moneys)@[i]@
            },
        forall|i: int|
            0 <= i < old(game_moneys)@.len() ==> (#[trigger] final(game_moneys)@[i])@ == if i
                < player_count {
                0
            } else {
                old(game_moneys)@[i]@
            },
{
    let count = player_count as usize;
    let mut i: usize = 0;
    while i < count
        invariant
            count == player_count,
            count <= 22,
            count <= game_moneys@.len(),
            game_moneys@.len() == old(game_moneys)@.len(),
            i <= count,
            forall|j: int|
                0 <= j < 22 ==> (#[trigger] moneys@[j])@ == if j < i {
                    old(game_moneys)@[j]@
                } else {
                    old(moneys)@[j]@
                },
            forall|j: int|
                0 <= j < game_moneys@.len() ==> (#[trigger] game_moneys@[j])@ == if j < i {
                    0
                } else {
                    old(game_moneys)@[j]@
                },
            (forall|j: int| 0 <= j < player_count ==> (#[trigger] old(moneys)@[j])@ == 0) ==> amounts_sum(
                money_amounts(moneys@),
            ) + amounts_sum(money_amounts(game_moneys@)) == amounts_sum(money_amounts(old(moneys)@))
                + amounts_sum(money_amounts(old(game_moneys)@)),
        decreases count - i,
    {
        let ghost table_before = money_amounts(moneys@);
        let ghost game_before = money_amounts(game_moneys@);
        moneys[i] = game_moneys[i].take_all();
        proof {
            assert(money_amounts(moneys@) =~= table_before.update(i as int, game_before[i as int]));
            assert(money_amounts(game_moneys@) =~= game_before.update(i as int, 0));
            lemma_amounts_sum_update(table_before, i as int, game_before[i as int]);
            lemma_amounts_sum_update(game_before, i as int, 0);
        }
        i += 1;
    }
}

} // verus!
