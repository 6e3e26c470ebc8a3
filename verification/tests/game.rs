use pake::game::{clamp_player_count, button_press, money_text, Context, Id, ModeName, SubGame, SubGameBitset};

#[test]
fn clamp_player_count_works_on_this_found_example() {
    let mut player_count = pake::holdem::MAX_PLAYERS;

    assert!(pake::acey_deucey::MAX_PLAYERS < pake::holdem::MAX_PLAYERS, "pre-condition failure");

    let acey_deucey_set = SubGameBitset(0b10);
    clamp_player_count(&mut player_count, acey_deucey_set);

    assert_eq!(player_count, pake::acey_deucey::MAX_PLAYERS);
}

#[test]
fn iter_over_full_is_all() {
    let full = SubGameBitset((-1i128) as _);

    let actual: Vec<_> = full.iter();

    assert_eq!(actual, SubGame::all().to_vec());
}

#[test]
fn iter_works_on_these_examples() {
    let actual: Vec<SubGame> = SubGameBitset(0).iter();

    assert_eq!(actual, []);

    let actual: Vec<_> = SubGameBitset(0b1).iter();

    assert_eq!(actual, [SubGame::Holdem]);

    let actual: Vec<_> = SubGameBitset(0b10).iter();

    assert_eq!(actual, [SubGame::AceyDeucey]);

    let actual: Vec<_> = SubGameBitset(0b11).iter();

    assert_eq!(actual, [SubGame::Holdem, SubGame::AceyDeucey]);
}

#[test]
fn clamping_to_no_games_leaves_the_count_alone() {
    let mut player_count = 30;
    clamp_player_count(&mut player_count, SubGameBitset(0));
    assert_eq!(player_count, 30);
}

#[test]
fn clamping_raises_a_count_below_every_minimum() {
    let mut player_count = 0;
    clamp_player_count(&mut player_count, SubGameBitset(0b111));
    assert_eq!(player_count, 2);
}

#[test]
fn clamping_through_all_games_ends_within_the_last() {
    let mut player_count = pake::game::OVERALL_MAX_PLAYER_COUNT;
    clamp_player_count(&mut player_count, SubGameBitset(0b111));
    assert_eq!(player_count, pake::five_card_draw::MAX_PLAYERS);
}

#[test]
fn toggle_twice_is_the_identity() {
    let mut set = SubGameBitset(0b101);
    set.toggle(SubGame::AceyDeucey);
    assert!(set.contains(SubGame::AceyDeucey));
    assert_eq!(set.len(), 3);
    set.toggle(SubGame::AceyDeucey);
    assert!(!set.contains(SubGame::AceyDeucey));
    assert_eq!(set.0, 0b101);
    assert_eq!(set.len(), 2);
}

#[test]
fn modes_wrap_around() {
    assert_eq!(ModeName::DealersChoice.wrapping_up(), ModeName::FiveCardDraw);
    assert_eq!(ModeName::FiveCardDraw.wrapping_down(), ModeName::DealersChoice);
    assert_eq!(ModeName::Holdem.wrapping_down(), ModeName::AceyDeucey);
    assert_eq!(SubGame::Holdem.wrapping_up(), SubGame::FiveCardDraw);
    assert_eq!(SubGame::FiveCardDraw.wrapping_down(), SubGame::Holdem);
    assert_eq!(ModeName::AceyDeucey.text(), "acey-deucey");
    assert_eq!(SubGame::FiveCardDraw.text(), b"five-card draw");
}

#[test]
fn a_button_clicks_on_release_while_hot() {
    let mut ctx = Context::default();
    ctx.hot = Id::Submit;
    let (clicked, sound) = button_press(&mut ctx, Id::Submit, true, false);
    assert!(!clicked);
    assert!(sound);
    assert_eq!(ctx.active, Id::Submit);
    let (clicked, sound) = button_press(&mut ctx, Id::Submit, false, true);
    assert!(clicked);
    assert!(!sound);
    assert_eq!(ctx.active, Id::Zero);
    assert_eq!(ctx.next_hot, Id::Submit);
}

#[test]
fn money_text_is_a_dollar_sign_and_the_amount() {
    let text = money_text(500);
    assert_eq!(&text[..4], b"$500");
    assert!(text[4..].iter().all(|&b| b == 0));
    assert_eq!(&money_text(0)[..3], b"$0\0");
    assert_eq!(&money_text(u32::MAX)[..12], b"$4294967295\0");
}
