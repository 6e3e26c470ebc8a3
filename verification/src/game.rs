//! The game modes, the choice of sub-games, and the state of the user interface.
use vstd::prelude::*;

use crate::money::{Money, MoneyInner, MIN_MONEY_UNIT, sat_add, sat_sub};
use crate::pot::money_amounts;
use crate::gfx::Highlighting;

verus! {

/// A number of players in dealer's choice.
pub type PlayerCount = u8;

/// The most players any sub-game allows.
pub const OVERALL_MAX_PLAYER_COUNT: PlayerCount = 22;

/// What a computer player is like.
#[derive(Copy, Clone, Debug, PartialEq, Eq, Structural)]
pub struct CpuPersonality {}

/// Who plays a seat: a person (`None`) or the computer.
pub type Personality = Option<CpuPersonality>;

/// A direction pressed this frame.
#[derive(Copy, Clone, Debug, PartialEq, Eq, Structural)]
pub enum Dir {
    Up,
    Down,
    Left,
    Right,
}

/// Which buttons were pressed this frame.
#[derive(Copy, Clone, Debug, Default, PartialEq, Eq, Structural)]
pub struct Pressed {
    pub up: bool,
    pub down: bool,
    pub left: bool,
    pub right: bool,
    pub a: bool,
    pub b: bool,
}

/// Whether the rest of a game is watched or skipped.
#[derive(Clone, Copy, Debug, Default, PartialEq, Eq, Structural)]
pub enum SkipState {
    #[default]
    Watch,
    Skip,
}

/// What a mode asks of the game around it after a frame.
#[derive(Clone, Copy, Debug, Default, PartialEq, Eq, Structural)]
pub enum ModeCmd {
    #[default]
    NoOp,
    BackToTitleScreen,
    /// Relevant to dealer's choice.
    FinishedRound,
}

/// The modes to choose from on the title screen.
#[derive(Clone, Copy, Debug, Default, PartialEq, Eq, Structural)]
pub enum ModeName {
    #[default]
    DealersChoice,
    Holdem,
    AceyDeucey,
    FiveCardDraw,
}

/// The games that dealer's choice chooses among.
#[derive(Copy, Clone, Debug, Default, PartialEq, Eq, Structural)]
pub enum SubGame {
    #[default]
    Holdem,
    AceyDeucey,
    FiveCardDraw,
}

impl ModeName {
    pub const COUNT: u8 = 4;

    /// Where the mode stands in the list of modes.
    pub open spec fn position(self) -> nat {
        match self {
            ModeName::DealersChoice => 0,
            ModeName::Holdem => 1,
            ModeName::AceyDeucey => 2,
            ModeName::FiveCardDraw => 3,
        }
    }

    /// The mode at a position in the list of modes.
    pub open spec fn at(position: nat) -> ModeName {
        if position == 0 {
            ModeName::DealersChoice
        } else if position == 1 {
            ModeName::Holdem
        } else if position == 2 {
            ModeName::AceyDeucey
        } else {
            ModeName::FiveCardDraw
        }
    }

    /// Every mode, in order.
    pub fn all() -> (all: [ModeName; 4])
        ensures
            forall|i: int| 0 <= i < 4 ==> #[trigger] all@[i] == ModeName::at(i as nat),
    {
        [ModeName::DealersChoice, ModeName::Holdem, ModeName::AceyDeucey, ModeName::FiveCardDraw]
    }

    pub fn text(self) -> (text: &'static str)
        ensures
            self == ModeName::DealersChoice ==> text@ == "dealer's choice"@,
            self == ModeName::Holdem ==> text@ == "texas hold'em"@,
            self == ModeName::AceyDeucey ==> text@ == "acey-deucey"@,
            self == ModeName::FiveCardDraw ==> text@ == "five-card draw"@,
    {
        match self {
            ModeName::DealersChoice => "dealer's choice",
            ModeName::Holdem => "texas hold'em",
            ModeName::AceyDeucey => "acey-deucey",
            ModeName::FiveCardDraw => "five-card draw",
        }
    }

    pub fn index_of(self) -> (index: usize)
        ensures
            index == self.position(),
    {
        match self {
            ModeName::DealersChoice => 0,
            ModeName::Holdem => 1,
            ModeName::AceyDeucey => 2,
            ModeName::FiveCardDraw => 3,
        }
    }

    /// The mode above this one, wrapping from the first to the last.
    pub fn wrapping_up(self) -> (up: ModeName)
        ensures
            up.position() == (self.position() + 3) % 4,
    {
        let index = self.index_of();
        let index = if index == 0 {
            3
        } else {
            index - 1
        };
        ModeName::all()[index]
    }

    /// The mode below this one, wrapping from the last to the first.
    pub fn wrapping_down(self) -> (down: ModeName)
        ensures
            down.position() == (self.position() + 1) % 4,
    {
        let mut index = self.index_of() + 1;
        if index >= 4 {
            index = 0;
        }
        ModeName::all()[index]
    }
}

impl SubGame {
    pub const COUNT: u8 = 3;

    /// Where the game stands in the list of games.
    pub open spec fn position(self) -> nat {
        match self {
            SubGame::Holdem => 0,
            SubGame::AceyDeucey => 1,
            SubGame::FiveCardDraw => 2,
        }
    }

    /// The game at a position in the list of games.
    pub open spec fn at(position: nat) -> SubGame {
        if position == 0 {
            SubGame::Holdem
        } else if position == 1 {
            SubGame::AceyDeucey
        } else {
            SubGame::FiveCardDraw
        }
    }

    /// Every game, in order.
    pub fn all() -> (all: [SubGame; 3])
        ensures
            forall|i: int| 0 <= i < 3 ==> #[trigger] all@[i] == SubGame::at(i as nat),
    {
        [SubGame::Holdem, SubGame::AceyDeucey, SubGame::FiveCardDraw]
    }

    /// The fewest players the game allows.
    pub open spec fn min_players(self) -> PlayerCount {
        2
    }

    /// The most players the game allows.
    pub open spec fn max_players(self) -> PlayerCount {
        match self {
            SubGame::Holdem => 22,
            SubGame::AceyDeucey => 17,
            SubGame::FiveCardDraw => 9,
        }
    }

    pub fn min_player_count(self) -> (count: PlayerCount)
        ensures
            count == self.min_players(),
    {
        match self {
            SubGame::Holdem => crate::holdem::MIN_PLAYERS,
            SubGame::AceyDeucey => crate::acey_deucey::MIN_PLAYERS,
            SubGame::FiveCardDraw => crate::five_card_draw::MIN_PLAYERS,
        }
    }

    pub fn max_player_count(self) -> (count: PlayerCount)
        ensures
            count == self.max_players(),
    {
        match self {
            SubGame::Holdem => crate::holdem::MAX_PLAYERS,
            SubGame::AceyDeucey => crate::acey_deucey::MAX_PLAYERS,
            SubGame::FiveCardDraw => crate::five_card_draw::MAX_PLAYERS,
        }
    }

    /// The name of the game, as the mode of the same name has it, as UTF-8 bytes.
    pub fn text(self) -> (text: &'static [u8])
        ensures
            self == SubGame::Holdem ==> text@ == vstd::utf8::encode_utf8("texas hold'em"@),
            self == SubGame::AceyDeucey ==> text@ == vstd::utf8::encode_utf8("acey-deucey"@),
            self == SubGame::FiveCardDraw ==> text@ == vstd::utf8::encode_utf8("five-card draw"@),
    {
        let name = match self {
            SubGame::Holdem => ModeName::Holdem,
            SubGame::AceyDeucey => ModeName::AceyDeucey,
            SubGame::FiveCardDraw => ModeName::FiveCardDraw,
        };
        name.text().as_bytes()
    }

    pub fn index_of(self) -> (index: usize)
        ensures
            index == self.position(),
    {
        match self {
            SubGame::Holdem => 0,
            SubGame::AceyDeucey => 1,
            SubGame::FiveCardDraw => 2,
        }
    }

    /// The game above this one, wrapping from the first to the last.
    pub fn wrapping_up(self) -> (up: SubGame)
        ensures
            up.position() == (self.position() + 2) % 3,
    {
        let index = self.index_of();
        let index = if index == 0 {
            2
        } else {
            index - 1
        };
        SubGame::all()[index]
    }

    /// The game below this one, wrapping from the last to the first.
    pub fn wrapping_down(self) -> (down: SubGame)
        ensures
            down.position() == (self.position() + 1) % 3,
    {
        let mut index = self.index_of() + 1;
        if index >= 3 {
            index = 0;
        }
        SubGame::all()[index]
    }
}

/// A set of sub-games, one bit per game.
#[derive(Clone, Copy, Debug, Default)]
pub struct SubGameBitset(pub u8);

/// Whether the bit of `game` is set in `bits`.
pub open spec fn game_bit_set(bits: u8, game: SubGame) -> bool {
    bits & (1u8 << (game.position() as u8)) == (1u8 << (game.position() as u8))
}

/// The games whose bits are set, in order.
pub open spec fn games_in(bits: u8) -> Seq<SubGame> {
    seq![SubGame::Holdem, SubGame::AceyDeucey, SubGame::FiveCardDraw].filter(
        |g: SubGame| game_bit_set(bits, g),
    )
}

/// How many of the eight bits of `bits` are set.
pub open spec fn bits_set(bits: u8, n: nat) -> nat
    decreases n,
{
    if n == 0 {
        0
    } else {
        bits_set(bits, (n - 1) as nat) + if (bits >> ((n - 1) as u8)) & 1u8 == 1u8 {
            1nat
        } else {
            0nat
        }
    }
}

impl SubGameBitset {
    fn bit(game: SubGame) -> (bit: u8)
        ensures
            bit == 1u8 << (game.position() as u8),
    {
        1u8 << (game.index_of() as u8)
    }

    pub fn contains(self, game: SubGame) -> (found: bool)
        ensures
            found == game_bit_set(self.0, game),
    {
        let bit = Self::bit(game);
        self.0 & bit == bit
    }

    /// Adds the game if it is missing, and removes it otherwise.
    pub fn toggle(&mut self, game: SubGame)
        ensures
            game_bit_set(final(self).0, game) == !game_bit_set(old(self).0, game),
            forall|other: SubGame|
                other != game ==> #[trigger] game_bit_set(final(self).0, other) == game_bit_set(
                    old(self).0,
                    other,
                ),
    {
        let bit = Self::bit(game);
        let before = self.0;
        self.0 = self.0 ^ bit;
        let after = self.0;
        let p = game.index_of() as u8;
        proof {
            assert(p < 3);
            assert((before ^ (1u8 << p)) & (1u8 << p) == (1u8 << p) <==> !(before & (1u8 << p)
                == (1u8 << p))) by (bit_vector)
                requires
                    p < 3,
            ;
            assert forall|other: SubGame| other != game implies #[trigger] game_bit_set(
                after,
                other,
            ) == game_bit_set(before, other) by {
                let q = other.position() as u8;
                assert(q < 3 && q != p);
                assert((before ^ (1u8 << p)) & (1u8 << q) == (1u8 << q) <==> before & (1u8 << q)
                    == (1u8 << q)) by (bit_vector)
                    requires
                        p < 3,
                        q < 3,
                        p != q,
                ;
            }
        }
    }

    /// How many bits are set.
    pub fn len(self) -> (n: u32)
        ensures
            n == bits_set(self.0, 8),
    {
        let mut n: u32 = 0;
        let mut i: u8 = 0;
        while i < 8
            invariant
                i <= 8,
                n == bits_set(self.0, i as nat),
                n <= i,
            decreases 8 - i,
        {
            if (self.0 >> i) & 1 == 1 {
                n += 1;
            }
            i += 1;
        }
        n
    }

    /// The games in the set, in order.
    pub fn iter(self) -> (games: Vec<SubGame>)
        ensures
            games@ == games_in(self.0),
    {
        let all = SubGame::all();
        let ghost all_seq = seq![SubGame::Holdem, SubGame::AceyDeucey, SubGame::FiveCardDraw];
        let ghost f = |g: SubGame| game_bit_set(self.0, g);
        assert(all@ =~= all_seq);
        let mut games: Vec<SubGame> = Vec::new();
        let mut index: usize = 0;
        while index < 3
            invariant
                index <= 3,
                all@ == all_seq,
                f == (|g: SubGame| game_bit_set(self.0, g)),
                games@ == all_seq.take(index as int).filter(f),
            decreases 3 - index,
        {
            let game = all[index];
            proof {
                assert(all_seq.take(index + 1).drop_last() =~= all_seq.take(index as int));
                reveal(Seq::filter);
            }
            if self.contains(game) {
                games.push(game);
            }
            index += 1;
        }
        assert(all_seq.take(3) =~= all_seq);
        games
    }
}

/// `player_count` after being clamped to the limits of each game in turn.
pub open spec fn clamped_through(player_count: PlayerCount, games: Seq<SubGame>) -> PlayerCount
    decreases games.len(),
{
    if games.len() == 0 {
        player_count
    } else {
        let before = clamped_through(player_count, games.drop_last());
        let game = games.last();
        let raised = if before < game.min_players() {
            game.min_players()
        } else {
            before
        };
        if raised > game.max_players() {
            game.max_players()
        } else {
            raised
        }
    }
}

/// Clamps the player count to the limits of each chosen game, in order.
pub fn clamp_player_count(player_count: &mut PlayerCount, sub_games: SubGameBitset)
    ensures
        *final(player_count) == clamped_through(*old(player_count), games_in(sub_games.0)),
{
    let games = sub_games.iter();
    let mut i: usize = 0;
    while i < games.len()
        invariant
            i <= games@.len(),
            *player_count == clamped_through(*old(player_count), games@.take(i as int)),
        decreases games@.len() - i,
    {
        let game = games[i];
        proof {
            assert(games@.take(i + 1).drop_last() =~= games@.take(i as int));
        }
        // A game's minimum larger than another's maximum is not handled
        // specially: the later game wins.
        let min = game.min_player_count();
        if *player_count < min {
            *player_count = min;
        }
        let max = game.max_player_count();
        if *player_count > max {
            *player_count = max;
        }
        i += 1;
    }
    assert(games@.take(games@.len() as int) =~= games@);
}

/// Clamping to the limits of one game leaves a count within them.
pub proof fn lemma_clamp_within_last(player_count: PlayerCount, games: Seq<SubGame>)
    requires
        games.len() > 0,
    ensures
        games.last().min_players() <= clamped_through(player_count, games)
            <= games.last().max_players(),
{
}

/// What a piece of the user interface is.
#[derive(Copy, Clone, Debug, Default, PartialEq, Eq, Structural)]
pub enum Id {
    #[default]
    Zero,
    TitleBeginButton,
    GameSelect,
    BackToTitleScreen,
    Submit,
    PlayerCountSelect,
    StartingMoneySelect,
    HoldemHand(u8),
    HoldemMenu(u8),
    HoldemChartButton,
    SkipRemainderOfGameSelect,
    ShowdownSubmit,
    AceyDeuceyMenu(u8),
    NextDeal,
    AcceptBurn,
    HighLowSelect,
    HighLowSubmit,
    AcknowledgeCPUPass,
    FiveCardDrawHand(u8),
    FiveCardDrawMenu(u8),
    SubGameCheckbox(SubGame),
}

/// Which piece of the interface is pressed (active), which is under the
/// cursor (hot), and which will be under it next frame.
#[derive(Copy, Clone, Default, Debug)]
pub struct Context {
    pub active: Id,
    pub hot: Id,
    pub next_hot: Id,
}

impl Context {
    pub fn set_not_active(&mut self)
        ensures
            *final(self) == (Context { active: Id::Zero, ..*old(self) }),
    {
        self.active = Id::Zero;
    }

    pub fn set_active(&mut self, id: Id)
        ensures
            *final(self) == (Context { active: id, ..*old(self) }),
    {
        self.active = id;
    }

    pub fn set_next_hot(&mut self, id: Id)
        ensures
            *final(self) == (Context { next_hot: id, ..*old(self) }),
    {
        self.next_hot = id;
    }

    pub fn set_not_hot(&mut self)
        ensures
            *final(self) == (Context { hot: Id::Zero, ..*old(self) }),
    {
        self.hot = Id::Zero;
    }

    /// Starts a frame: the next hot piece becomes hot, unless a piece is
    /// pressed, and nothing is lined up to be hot next.
    pub fn frame_init(&mut self)
        ensures
            final(self).active == old(self).active,
            final(self).hot == if old(self).active == Id::Zero {
                old(self).next_hot
            } else {
                old(self).hot
            },
            final(self).next_hot == Id::Zero,
    {
        if self.active == Id::Zero {
            self.hot = self.next_hot;
        }
        self.next_hot = Id::Zero;
    }
}

/// Runs a button for one frame, given whether the A button was pressed and
/// released this frame. Returns whether the button was clicked (released
/// while hot after being pressed), and whether the press sound should play.
pub fn button_press(ctx: &mut Context, id: Id, a_pressed: bool, a_released: bool) -> (result: (
    bool,
    bool,
))
    ensures
        old(ctx).active == id ==> result == (a_released && old(ctx).hot == id, false)
            && final(ctx).active == if a_released {
            Id::Zero
        } else {
            id
        } && final(ctx).hot == old(ctx).hot && final(ctx).next_hot == id,
        old(ctx).active != id && old(ctx).hot == id ==> result == (false, a_pressed)
            && final(ctx).active == if a_pressed {
            id
        } else {
            old(ctx).active
        } && final(ctx).hot == old(ctx).hot && final(ctx).next_hot == id,
        old(ctx).active != id && old(ctx).hot != id ==> result == (false, false) && *final(ctx)
            == *old(ctx),
{
    let mut output = false;
    let mut sound = false;
    if ctx.active == id {
        if a_released {
            output = ctx.hot == id;
            ctx.set_not_active();
        }
        ctx.set_next_hot(id);
    } else if ctx.hot == id {
        if a_pressed {
            ctx.set_active(id);
            sound = true;
        }
        ctx.set_next_hot(id);
    }
    (output, sound)
}


/// Where the cursor goes in a game's setup menu (back, player count, starting
/// money, submit, in that order) when `dir` is pressed with `hot` under it;
/// with nothing under it, it goes to the player count.
pub open spec fn spec_setup_menu_next_hot(hot: Id, dir: Option<Dir>) -> Option<Id> {
    match hot {
        Id::BackToTitleScreen => match dir {
            Some(Dir::Down) | Some(Dir::Right) => Some(Id::PlayerCountSelect),
            _ => None,
        },
        Id::PlayerCountSelect => match dir {
            Some(Dir::Left) => Some(Id::BackToTitleScreen),
            Some(Dir::Right) => Some(Id::StartingMoneySelect),
            _ => None,
        },
        Id::StartingMoneySelect => match dir {
            Some(Dir::Left) => Some(Id::PlayerCountSelect),
            Some(Dir::Right) => Some(Id::Submit),
            _ => None,
        },
        Id::Submit => match dir {
            Some(Dir::Left) => Some(Id::StartingMoneySelect),
            _ => None,
        },
        Id::Zero => Some(Id::PlayerCountSelect),
        _ => None,
    }
}

pub fn setup_menu_next_hot(hot: Id, dir: Option<Dir>) -> (next_hot: Option<Id>)
    ensures
        next_hot == spec_setup_menu_next_hot(hot, dir),
{
    match hot {
        Id::BackToTitleScreen => match dir {
            Some(Dir::Down) | Some(Dir::Right) => Some(Id::PlayerCountSelect),
            _ => None,
        },
        Id::PlayerCountSelect => match dir {
            Some(Dir::Left) => Some(Id::BackToTitleScreen),
            Some(Dir::Right) => Some(Id::StartingMoneySelect),
            _ => None,
        },
        Id::StartingMoneySelect => match dir {
            Some(Dir::Left) => Some(Id::PlayerCountSelect),
            Some(Dir::Right) => Some(Id::Submit),
            _ => None,
        },
        Id::Submit => match dir {
            Some(Dir::Left) => Some(Id::StartingMoneySelect),
            _ => None,
        },
        Id::Zero => Some(Id::PlayerCountSelect),
        _ => None,
    }
}

/// The starting money after `dir` is pressed on it: up adds a money unit, down
/// takes one away but never goes down to nothing.
pub open spec fn spec_starting_money_step(money: MoneyInner, dir: Option<Dir>) -> MoneyInner {
    match dir {
        Some(Dir::Up) => sat_add(money, MIN_MONEY_UNIT),
        Some(Dir::Down) => if sat_sub(money, MIN_MONEY_UNIT) == 0 {
            MIN_MONEY_UNIT
        } else {
            sat_sub(money, MIN_MONEY_UNIT)
        },
        _ => money,
    }
}

pub fn starting_money_step(money: MoneyInner, dir: Option<Dir>) -> (next: MoneyInner)
    ensures
        next == spec_starting_money_step(money, dir),
{
    match dir {
        Some(Dir::Up) => money.saturating_add(MIN_MONEY_UNIT),
        Some(Dir::Down) => {
            let lower = money.saturating_sub(MIN_MONEY_UNIT);
            if lower == 0 {
                MIN_MONEY_UNIT
            } else {
                lower
            }
        },
        _ => money,
    }
}

/// The seat `d` places after `previous`, going around `count` seats (`d <= count`).
pub open spec fn seat_after(previous: int, d: int, count: int) -> int {
    if previous + d < count {
        previous + d
    } else {
        previous + d - count
    }
}

/// How many places after `previous`, from `d` on, the next seat with money
/// is; `count` where no other seat has any.
pub open spec fn funded_offset(moneys: Seq<MoneyInner>, previous: int, count: int, d: int) -> int
    decreases count - d,
{
    if d >= count {
        count
    } else if moneys[seat_after(previous, d, count)] != 0 {
        d
    } else {
        funded_offset(moneys, previous, count, d + 1)
    }
}

/// The next seat after `previous` that has money, or `previous` itself where
/// no other seat has any.
pub open spec fn next_funded_seat(moneys: Seq<MoneyInner>, previous: int, count: int) -> int {
    seat_after(previous, funded_offset(moneys, previous, count, 1), count)
}

/// The seat whose turn follows `previous` among the first `count` seats: the
/// next one around the table that still has money, or `previous` itself where
/// no other seat has any.
pub fn next_funded_index(moneys: &[Money], previous: u8, count: u8) -> (next: u8)
    requires
        previous < count,
        count <= moneys@.len(),
    ensures
        next == next_funded_seat(money_amounts(moneys@), previous as int, count as int),
        next < count,
{
    let ghost m = money_amounts(moneys@);
    let ghost mut d: int = 1;
    let mut index: u8 = previous + 1;
    loop
        invariant_except_break
            index == if previous + d <= count {
                previous + d
            } else {
                previous + d - count
            },
        invariant
            previous < count,
            count <= moneys@.len(),
            m == money_amounts(moneys@),
            1 <= d <= count,
            funded_offset(m, previous as int, count as int, 1) == funded_offset(
                m,
                previous as int,
                count as int,
                d,
            ),
        ensures
            index == next_funded_seat(m, previous as int, count as int),
            index < count,
        decreases count - d,
    {
        if index >= count {
            index = 0;
        }
        assert(index == seat_after(previous as int, d, count as int));
        if index != previous && moneys[index as usize].as_inner() == 0 {
            index += 1;
            proof {
                d = d + 1;
            }
        } else {
            break;
        }
    }
    index
}


/// What the title screen asks of the game after a frame.
#[derive(Clone, Copy, Debug, PartialEq, Eq, Structural)]
pub enum TitleCmd {
    NoOp,
    StartMode(ModeName),
}

/// The title screen this frame: clicking begin starts the chosen mode; on the
/// mode choice, up and down go through the modes and left or right go to the
/// begin button; on the begin button, left or right go back to the choice;
/// with nothing under the cursor it goes to the choice. Returns what the
/// title asks for and where the cursor goes, if it moves.
pub fn title_menu(hot: Id, dir: Option<Dir>, mode_name: &mut ModeName, begin_clicked: bool) -> (result: (
    TitleCmd,
    Option<Id>,
))
    ensures
        result.0 == if begin_clicked {
            TitleCmd::StartMode(*old(mode_name))
        } else {
            TitleCmd::NoOp
        },
        final(mode_name).position() == if hot == Id::GameSelect && dir == Some(Dir::Up) {
            (old(mode_name).position() + 3) % 4
        } else if hot == Id::GameSelect && dir == Some(Dir::Down) {
            (old(mode_name).position() + 1) % 4
        } else {
            old(mode_name).position()
        },
        result.1 == if hot == Id::Zero {
            Some(Id::GameSelect)
        } else if hot == Id::GameSelect && (dir == Some(Dir::Left) || dir == Some(Dir::Right)) {
            Some(Id::TitleBeginButton)
        } else if hot == Id::TitleBeginButton && (dir == Some(Dir::Left) || dir == Some(Dir::Right)) {
            Some(Id::GameSelect)
        } else {
            None
        },
{
    let cmd = if begin_clicked {
        TitleCmd::StartMode(*mode_name)
    } else {
        TitleCmd::NoOp
    };
    let mut next_hot = None;
    match hot {
        Id::GameSelect => match dir {
            Some(Dir::Up) => {
                *mode_name = mode_name.wrapping_up();
            },
            Some(Dir::Down) => {
                *mode_name = mode_name.wrapping_down();
            },
            Some(Dir::Left) | Some(Dir::Right) => {
                next_hot = Some(Id::TitleBeginButton);
            },
            None => {},
        },
        Id::TitleBeginButton => match dir {
            Some(Dir::Left) | Some(Dir::Right) => {
                next_hot = Some(Id::GameSelect);
            },
            _ => {},
        },
        _ => {},
    }
    if hot == Id::Zero {
        next_hot = Some(Id::GameSelect);
    }
    (cmd, next_hot)
}

/// The game mode after a mode asks for something: going back to the title
/// screen starts it afresh, with the first mode chosen.
pub fn back_to_title(cmd: ModeCmd) -> (title: Option<ModeName>)
    ensures
        title == if cmd == ModeCmd::BackToTitleScreen {
            Some(ModeName::DealersChoice)
        } else {
            None
        },
{
    match cmd {
        ModeCmd::NoOp | ModeCmd::FinishedRound => None,
        ModeCmd::BackToTitleScreen => Some(ModeName::DealersChoice),
    }
}


/// Runs a quick select (a value chosen with up and down) for one frame: while
/// it is pressed or under the cursor it stays under the cursor next frame,
/// and its chevrons are highlighted.
pub fn quick_select(ctx: &mut Context, id: Id) -> (highlighting: Highlighting)
    ensures
        old(ctx).active == id || old(ctx).hot == id ==> highlighting == Highlighting::Highlighted
            && *final(ctx) == (Context { next_hot: id, ..*old(ctx) }),
        !(old(ctx).active == id || old(ctx).hot == id) ==> highlighting == Highlighting::Plain
            && *final(ctx) == *old(ctx),
{
    if ctx.active == id || ctx.hot == id {
        ctx.set_next_hot(id);
        Highlighting::Highlighted
    } else {
        Highlighting::Plain
    }
}


/// Going up the list of modes and then down comes back to the same mode, and
/// so does going down and then up.
pub proof fn lemma_mode_up_down(mode: ModeName)
    ensures
        ModeName::at(((mode.position() + 3) % 4 + 1) % 4) == mode,
        ModeName::at(((mode.position() + 1) % 4 + 3) % 4) == mode,
{
}

/// Going up the list of games and then down comes back to the same game, and
/// so does going down and then up.
pub proof fn lemma_sub_game_up_down(game: SubGame)
    ensures
        SubGame::at(((game.position() + 2) % 3 + 1) % 3) == game,
        SubGame::at(((game.position() + 1) % 3 + 2) % 3) == game,
{
}

/// The menu entries of a person's bet menu: the action kind, the amount (only
/// shown for a bet or a raise), and submit.
pub const ACTION_KIND: u8 = 0;
pub const MONEY_AMOUNT: u8 = 1;
pub const SUBMIT: u8 = 2;
pub const MENU_KIND_ONE_PAST_MAX: u8 = 3;

/// The entry left of `id`, wrapping around and skipping the amount unless the
/// kind is a bet or a raise (`betting`).
pub open spec fn menu_left(id: u8, betting: bool) -> u8 {
    let once = if id == 0 {
        (MENU_KIND_ONE_PAST_MAX - 1) as u8
    } else {
        (id - 1) as u8
    };
    if once == MONEY_AMOUNT && !betting {
        if once == 0 {
            (MENU_KIND_ONE_PAST_MAX - 1) as u8
        } else {
            (once - 1) as u8
        }
    } else {
        once
    }
}

/// The entry right of `id`, wrapping around and skipping the amount unless the
/// kind is a bet or a raise (`betting`).
pub open spec fn menu_right(id: u8, betting: bool) -> u8 {
    let once = if id + 1 >= MENU_KIND_ONE_PAST_MAX {
        0u8
    } else {
        (id + 1) as u8
    };
    if once == MONEY_AMOUNT && !betting {
        if once + 1 >= MENU_KIND_ONE_PAST_MAX {
            0u8
        } else {
            (once + 1) as u8
        }
    } else {
        once
    }
}


/// The decimal digits of `n`, most significant first, as ASCII bytes.
pub open spec fn decimal_digits(n: nat) -> Seq<u8>
    decreases n,
{
    if n < 10 {
        seq![('0' as u8 + n) as u8]
    } else {
        decimal_digits(n / 10).push(('0' as u8 + n % 10) as u8)
    }
}

/// Ten to the power `k`.
pub open spec fn pow10(k: nat) -> nat
    decreases k,
{
    if k == 0 {
        1
    } else {
        10 * pow10((k - 1) as nat)
    }
}

/// A number below `10^k` has at most `k` digits.
proof fn lemma_decimal_digits_bound(n: nat, k: nat)
    requires
        k >= 1,
        n < pow10(k),
    ensures
        1 <= decimal_digits(n).len() <= k,
    decreases k,
{
    if n >= 10 {
        let j = (k - 1) as nat;
        assert(pow10(k) == 10 * pow10(j));
        assert(n / 10 < pow10(j));
        if j == 0 {
            assert(false);
        }
        lemma_decimal_digits_bound(n / 10, j);
    }
}

proof fn lemma_decimal_digits_len(n: nat)
    requires
        n <= u32::MAX,
    ensures
        1 <= decimal_digits(n).len() <= 10,
{
    assert(pow10(10) == 10_000_000_000) by {
        reveal_with_fuel(pow10, 11);
    }
    lemma_decimal_digits_bound(n, 10);
}

/// Appends the decimal digits of `n` to `out`.
fn push_digits(n: MoneyInner, out: &mut Vec<u8>)
    ensures
        final(out)@ == old(out)@ + decimal_digits(n as nat),
    decreases n,
{
    if n >= 10 {
        push_digits(n / 10, out);
    }
    out.push('0' as u8 + (n % 10) as u8);
    proof {
        if n >= 10 {
            assert(old(out)@ + decimal_digits(n as nat) =~= old(out)@ + decimal_digits((n / 10) as nat)
                + seq![('0' as u8 + n % 10) as u8]);
        }
    }
}

/// The text of an amount of money as a line of twenty bytes: a '$' and the
/// amount in decimal, then zero bytes.
pub fn money_text(amount: MoneyInner) -> (text: [u8; 20])
    ensures
        ({
            let line = seq!['$' as u8] + decimal_digits(amount as nat);
            &&& text@.take(line.len() as int) == line
            &&& forall|i: int| line.len() <= i < 20 ==> text@[i] == 0
        }),
{
    let mut line: Vec<u8> = Vec::new();
    line.push('$' as u8);
    push_digits(amount, &mut line);
    proof {
        lemma_decimal_digits_len(amount as nat);
    }
    let mut text: [u8; 20] = [0; 20];
    let mut i: usize = 0;
    while i < line.len()
        invariant
            line@.len() <= 11,
            i <= line@.len(),
            forall|k: int| 0 <= k < i ==> text@[k] == line@[k],
            forall|k: int| i <= k < 20 ==> text@[k] == 0,
        decreases line@.len() - i,
    {
        text[i] = line[i];
        i += 1;
    }
    assert(text@.take(line@.len() as int) =~= line@);
    text
}

} // verus!
