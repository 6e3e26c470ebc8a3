use pake::dealers_choice::{
    collect_moneys, is_valid_to_submit, moneys_for_acey_deucey, moneys_for_five_card_draw,
    setup_menu, starting_moneys,
};
use pake::game::{title_menu, back_to_title, Dir, Id, ModeCmd, ModeName, SubGame, SubGameBitset, TitleCmd};

#[test]
fn submitting_needs_more_than_one_game() {
    assert!(!is_valid_to_submit(SubGameBitset(0)));
    assert!(!is_valid_to_submit(SubGameBitset(0b100)));
    assert!(is_valid_to_submit(SubGameBitset(0b101)));
}

#[test]
fn the_player_count_is_clamped_to_the_chosen_games() {
    let mut player_count = 9;
    let mut money = 500;
    let next = setup_menu(Id::PlayerCountSelect, Some(Dir::Up), &mut player_count, &mut money, SubGameBitset(0b100));
    assert_eq!(next, None);
    assert_eq!(player_count, 9);
    setup_menu(Id::PlayerCountSelect, Some(Dir::Up), &mut player_count, &mut money, SubGameBitset(0b011));
    assert_eq!(player_count, 10);
    let mut low = 2;
    setup_menu(Id::PlayerCountSelect, Some(Dir::Down), &mut low, &mut money, SubGameBitset(0b001));
    assert_eq!(low, 2);
}

#[test]
fn the_setup_cursor_goes_through_the_checkboxes() {
    let mut player_count = 2;
    let mut money = 500;
    let games = SubGameBitset(0b111);
    assert_eq!(
        setup_menu(Id::Zero, None, &mut player_count, &mut money, games),
        Some(Id::SubGameCheckbox(SubGame::Holdem))
    );
    assert_eq!(
        setup_menu(Id::SubGameCheckbox(SubGame::Holdem), Some(Dir::Up), &mut player_count, &mut money, games),
        Some(Id::SubGameCheckbox(SubGame::FiveCardDraw))
    );
    assert_eq!(
        setup_menu(Id::SubGameCheckbox(SubGame::FiveCardDraw), Some(Dir::Down), &mut player_count, &mut money, games),
        Some(Id::SubGameCheckbox(SubGame::Holdem))
    );
    assert_eq!(
        setup_menu(Id::StartingMoneySelect, Some(Dir::Up), &mut player_count, &mut money, games),
        None
    );
    assert_eq!(money, 505);
}

#[test]
fn money_goes_to_a_game_and_comes_back() {
    let mut moneys = starting_moneys(3, 500);
    assert_eq!(moneys[2].as_inner(), 500);
    assert_eq!(moneys[3].as_inner(), 0);
    let mut acey = moneys_for_acey_deucey(&mut moneys, pake::acey_deucey::PlayerCount::Three);
    assert!(moneys.iter().all(|m| m.as_inner() == 0));
    assert_eq!(acey[1].as_inner(), 500);
    collect_moneys(&mut moneys, &mut acey, 3);
    assert_eq!(moneys[0].as_inner(), 500);
    assert_eq!(moneys[2].as_inner(), 500);
    assert!(acey.iter().all(|m| m.as_inner() == 0));
    let five = moneys_for_five_card_draw(&mut moneys, pake::five_card_draw::PlayerCount::Two);
    assert_eq!(five[1].as_inner(), 500);
    assert_eq!(moneys[2].as_inner(), 500);
}

#[test]
fn the_title_screen_chooses_and_starts_a_mode() {
    let mut mode = ModeName::DealersChoice;
    assert_eq!(title_menu(Id::Zero, None, &mut mode, false), (TitleCmd::NoOp, Some(Id::GameSelect)));
    assert_eq!(title_menu(Id::GameSelect, Some(Dir::Down), &mut mode, false), (TitleCmd::NoOp, None));
    assert_eq!(mode, ModeName::Holdem);
    assert_eq!(
        title_menu(Id::GameSelect, Some(Dir::Right), &mut mode, false),
        (TitleCmd::NoOp, Some(Id::TitleBeginButton))
    );
    assert_eq!(
        title_menu(Id::TitleBeginButton, None, &mut mode, true),
        (TitleCmd::StartMode(ModeName::Holdem), None)
    );
    assert_eq!(back_to_title(ModeCmd::BackToTitleScreen), Some(ModeName::DealersChoice));
    assert_eq!(back_to_title(ModeCmd::FinishedRound), None);
}
