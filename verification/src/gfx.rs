//! What the pictures of cards are made of: the characters and colours of
//! ranks and suits, and the pieces of nine-slice frames.
use vstd::prelude::*;

use crate::cards::{DeckCard, Rank, Suit, CLUBS, DIAMONDS, HEARTS, SPADES, get_rank, rank_of};
use crate::holdem::CommunityCards;

verus! {

/// Whether something is drawn plainly or highlighted.
#[derive(Copy, Clone, Debug, Default, PartialEq, Eq, Structural)]
pub enum Highlighting {
    #[default]
    Plain,
    Highlighted,
}

/// The font character for a ten, which takes one character.
pub const TEN_CHAR: u8 = 27;

pub const CLUB_CHAR: u8 = 31;
pub const DIAMOND_CHAR: u8 = 29;
pub const HEART_CHAR: u8 = 30;
pub const SPADE_CHAR: u8 = 28;

pub const RED_INDEX: u8 = 2;
pub const PURPLE_INDEX: u8 = 4;
pub const BLACK_INDEX: u8 = 7;

pub const CHAR_SPACING: u8 = 2;
pub const CHAR_SIZE: u8 = 8;
pub const SPACING: u8 = 8;
pub const FONT_FLIP: u8 = 128;

/// The palette colour and the font character of a suit: clubs and spades in
/// black, diamonds and hearts in red, and anything else as a purple "!".
pub open spec fn spec_suit_colour_and_char(suit: Suit) -> (u8, u8) {
    if suit == CLUBS {
        (BLACK_INDEX, CLUB_CHAR)
    } else if suit == DIAMONDS {
        (RED_INDEX, DIAMOND_CHAR)
    } else if suit == HEARTS {
        (RED_INDEX, HEART_CHAR)
    } else if suit == SPADES {
        (BLACK_INDEX, SPADE_CHAR)
    } else {
        (PURPLE_INDEX, 33)
    }
}

pub fn get_suit_colour_and_char(suit: Suit) -> (colour_and_char: (u8, u8))
    ensures
        colour_and_char == spec_suit_colour_and_char(suit),
{
    match suit {
        CLUBS => (BLACK_INDEX, CLUB_CHAR),
        DIAMONDS => (RED_INDEX, DIAMOND_CHAR),
        HEARTS => (RED_INDEX, HEART_CHAR),
        SPADES => (BLACK_INDEX, SPADE_CHAR),
        _ => (PURPLE_INDEX, 33),
    }
}

/// The font character of a rank: 'a', '2' to '9', the ten character, 'j',
/// 'q' and 'k'; '!' past the king.
pub open spec fn spec_rank_char(rank: Rank) -> u8 {
    if rank == 0 {
        'a' as u8
    } else if 1 <= rank <= 8 {
        ('1' as u8 + rank) as u8
    } else if rank == 9 {
        TEN_CHAR
    } else if rank == 10 {
        'j' as u8
    } else if rank == 11 {
        'q' as u8
    } else if rank == 12 {
        'k' as u8
    } else {
        '!' as u8
    }
}

pub fn get_rank_char_from_rank(rank: Rank) -> (c: u8)
    ensures
        c == spec_rank_char(rank),
{
    match rank {
        0 => 'a' as u8,
        1 => '2' as u8,
        2 => '3' as u8,
        3 => '4' as u8,
        4 => '5' as u8,
        5 => '6' as u8,
        6 => '7' as u8,
        7 => '8' as u8,
        8 => '9' as u8,
        9 => TEN_CHAR,
        10 => 'j' as u8,
        11 => 'q' as u8,
        12 => 'k' as u8,
        _ => '!' as u8,
    }
}

/// The font character of the rank of a card.
pub fn get_rank_char(card: DeckCard) -> (c: u8)
    ensures
        c == spec_rank_char(rank_of(card)),
{
    get_rank_char_from_rank(get_rank(card))
}

/// The looks of a nine-slice frame.
#[derive(Clone, Copy, Debug, PartialEq, Eq, Structural)]
pub enum NineSlice {
    Window,
    Button,
    ButtonHot,
    ButtonPressed,
    Highlight,
}

impl NineSlice {
    /// The width and height of one cell of a frame.
    pub const CELL_W: u16 = 8;
    pub const CELL_H: u16 = 8;

    /// The width and height of the three by three cells of a frame's sprite.
    pub const GRID_W: u16 = 24;
    pub const GRID_H: u16 = 24;

    /// Where the frame's sprite stands among the frames, from the left.
    pub open spec fn spec_index(self) -> u16 {
        match self {
            NineSlice::Window => 0,
            NineSlice::Button => 1,
            NineSlice::ButtonHot => 2,
            NineSlice::ButtonPressed => 3,
            NineSlice::Highlight => 4,
        }
    }

    /// How far right of the first frame's sprite this frame's sprite starts.
    pub fn sprite_offset_x(self) -> (offset: u16)
        ensures
            offset == Self::GRID_W * self.spec_index(),
    {
        Self::GRID_W * match self {
            NineSlice::Window => 0,
            NineSlice::Button => 1,
            NineSlice::ButtonHot => 2,
            NineSlice::ButtonPressed => 3,
            NineSlice::Highlight => 4,
        }
    }
}


/// A piece of the sprite of a nine-slice frame: its corners, edges and middle.
#[derive(Clone, Copy, Debug, PartialEq, Eq, Structural)]
pub enum FramePiece {
    TopLeft,
    Top,
    TopRight,
    MiddleLeft,
    Middle,
    MiddleRight,
    BottomLeft,
    Bottom,
    BottomRight,
}

/// One piece of a frame, drawn with its top left corner at `(x, y)`.
#[derive(Clone, Copy, Debug, PartialEq, Eq, Structural)]
pub struct FrameCell {
    pub piece: FramePiece,
    pub x: u16,
    pub y: u16,
}

pub open spec fn sat_add16(a: u16, b: u16) -> u16 {
    if a + b > u16::MAX {
        u16::MAX
    } else {
        (a + b) as u16
    }
}

pub open spec fn sat_sub16(a: u16, b: u16) -> u16 {
    if a >= b {
        (a - b) as u16
    } else {
        0
    }
}

/// The places from `from` up to, but not including, `to`, a cell apart.
pub open spec fn cell_steps(from: int, to: int) -> Seq<int>
    decreases to - from + 8,
{
    if from >= to {
        Seq::empty()
    } else {
        seq![from].add(cell_steps(from + 8, to))
    }
}

pub open spec fn cell(piece: FramePiece, x: int, y: int) -> FrameCell {
    FrameCell { piece, x: x as u16, y: y as u16 }
}

/// One row of middle cells, at the places `xs`.
pub open spec fn middle_row(xs: Seq<int>, y: int) -> Seq<FrameCell> {
    xs.map_values(|x: int| cell(FramePiece::Middle, x, y))
}

/// The middle of a frame: a row of middle cells for each of the places `ys`.
pub open spec fn middle_rows(xs: Seq<int>, ys: Seq<int>) -> Seq<FrameCell>
    decreases ys.len(),
{
    if ys.len() == 0 {
        Seq::empty()
    } else {
        middle_rows(xs, ys.drop_last()) + middle_row(xs, ys.last())
    }
}

/// The top and bottom edges: for each of the places `xs`, a top cell and a
/// bottom cell.
pub open spec fn top_and_bottom(xs: Seq<int>, top: int, bottom: int) -> Seq<FrameCell>
    decreases xs.len(),
{
    if xs.len() == 0 {
        Seq::empty()
    } else {
        top_and_bottom(xs.drop_last(), top, bottom).push(cell(FramePiece::Top, xs.last(), top)).push(
            cell(FramePiece::Bottom, xs.last(), bottom),
        )
    }
}

/// The left and right edges: for each of the places `ys`, a left cell and a
/// right cell.
pub open spec fn left_and_right(ys: Seq<int>, left: int, right: int) -> Seq<FrameCell>
    decreases ys.len(),
{
    if ys.len() == 0 {
        Seq::empty()
    } else {
        left_and_right(ys.drop_last(), left, right).push(
            cell(FramePiece::MiddleLeft, left, ys.last()),
        ).push(cell(FramePiece::MiddleRight, right, ys.last()))
    }
}

/// The cells of a nine-slice frame over the rectangle at `(x, y)` of size
/// `w` by `h`, in the order they are drawn: the middle, row by row; the top
/// and bottom edges; the left and right edges; and the four corners. Edges
/// and middle repeat a cell apart between the corners; the corners sit a cell
/// in from the far sides. Sums stop at the largest coordinate, differences at
/// nothing.
pub open spec fn frame_cells(x: u16, y: u16, w: u16, h: u16) -> Seq<FrameCell> {
    let left_end = sat_add16(x, NineSlice::CELL_W);
    let right_start = sat_sub16(sat_add16(x, w), NineSlice::CELL_W);
    let top_end = sat_add16(y, NineSlice::CELL_H);
    let bottom_start = sat_sub16(sat_add16(y, h), NineSlice::CELL_H);
    let xs = cell_steps(left_end as int, right_start as int);
    let ys = cell_steps(top_end as int, bottom_start as int);
    middle_rows(xs, ys) + top_and_bottom(xs, y as int, bottom_start as int) + left_and_right(
        ys,
        x as int,
        right_start as int,
    ) + seq![
        cell(FramePiece::TopLeft, x as int, y as int),
        cell(FramePiece::TopRight, right_start as int, y as int),
        cell(FramePiece::BottomLeft, x as int, bottom_start as int),
        cell(FramePiece::BottomRight, right_start as int, bottom_start as int),
    ]
}

proof fn lemma_cell_steps_step(from: u16, to: u16)
    requires
        from < to,
    ensures
        cell_steps(from as int, to as int) == seq![from as int].add(
            cell_steps(sat_add16(from, NineSlice::CELL_W) as int, to as int),
        ),
{
    let next = from + NineSlice::CELL_W;
    if next > u16::MAX {
        assert(cell_steps(next, to as int) == Seq::<int>::empty());
        assert(cell_steps(u16::MAX as int, to as int) == Seq::<int>::empty());
    }
}

/// The cells of a nine-slice frame over a rectangle (see `frame_cells`).
pub fn nine_slice_cells(x: u16, y: u16, w: u16, h: u16) -> (cells: Vec<FrameCell>)
    ensures
        cells@ == frame_cells(x, y, w, h),
{
    let left_end = x.saturating_add(NineSlice::CELL_W);
    let right_start = x.saturating_add(w).saturating_sub(NineSlice::CELL_W);
    let top_end = y.saturating_add(NineSlice::CELL_H);
    let bottom_start = y.saturating_add(h).saturating_sub(NineSlice::CELL_H);
    let ghost xs = cell_steps(left_end as int, right_start as int);
    let ghost ys = cell_steps(top_end as int, bottom_start as int);
    let mut cells: Vec<FrameCell> = Vec::new();
    let ghost mut done_ys: Seq<int> = Seq::empty();
    let mut fill_y = top_end;
    while fill_y < bottom_start
        invariant
            ys == done_ys + cell_steps(fill_y as int, bottom_start as int),
            xs == cell_steps(left_end as int, right_start as int),
            cells@ == middle_rows(xs, done_ys),
        decreases bottom_start + 8 - fill_y,
    {
        let ghost before = cells@;
        let ghost mut done_xs: Seq<int> = Seq::empty();
        let mut fill_x = left_end;
        while fill_x < right_start
            invariant
                xs == done_xs + cell_steps(fill_x as int, right_start as int),
                cells@ == before + middle_row(done_xs, fill_y as int),
            decreases right_start + 8 - fill_x,
        {
            cells.push(FrameCell { piece: FramePiece::Middle, x: fill_x, y: fill_y });
            proof {
                lemma_cell_steps_step(fill_x, right_start);
                assert(middle_row(done_xs.push(fill_x as int), fill_y as int) =~= middle_row(
                    done_xs,
                    fill_y as int,
                ).push(cell(FramePiece::Middle, fill_x as int, fill_y as int)));
                done_xs = done_xs.push(fill_x as int);
                assert(xs =~= done_xs + cell_steps(
                    sat_add16(fill_x, NineSlice::CELL_W) as int,
                    right_start as int,
                ));
            }
            fill_x = fill_x.saturating_add(NineSlice::CELL_W);
        }
        proof {
            assert(cell_steps(fill_x as int, right_start as int) == Seq::<int>::empty());
            assert(done_xs =~= xs);
            lemma_cell_steps_step(fill_y, bottom_start);
            let next_ys = done_ys.push(fill_y as int);
            assert(next_ys.drop_last() =~= done_ys);
            done_ys = next_ys;
            assert(ys =~= done_ys + cell_steps(
                sat_add16(fill_y, NineSlice::CELL_H) as int,
                bottom_start as int,
            ));
        }
        fill_y = fill_y.saturating_add(NineSlice::CELL_H);
    }
    proof {
        assert(cell_steps(fill_y as int, bottom_start as int) == Seq::<int>::empty());
        assert(done_ys =~= ys);
    }
    let ghost middle = cells@;
    let ghost mut done_xs: Seq<int> = Seq::empty();
    let mut fill_x = left_end;
    while fill_x < right_start
        invariant
            xs == done_xs + cell_steps(fill_x as int, right_start as int),
            cells@ == middle + top_and_bottom(done_xs, y as int, bottom_start as int),
        decreases right_start + 8 - fill_x,
    {
        cells.push(FrameCell { piece: FramePiece::Top, x: fill_x, y });
        cells.push(FrameCell { piece: FramePiece::Bottom, x: fill_x, y: bottom_start });
        proof {
            lemma_cell_steps_step(fill_x, right_start);
            let next_xs = done_xs.push(fill_x as int);
            assert(next_xs.drop_last() =~= done_xs);
            done_xs = next_xs;
            assert(xs =~= done_xs + cell_steps(
                sat_add16(fill_x, NineSlice::CELL_W) as int,
                right_start as int,
            ));
        }
        fill_x = fill_x.saturating_add(NineSlice::CELL_W);
    }
    proof {
        assert(cell_steps(fill_x as int, right_start as int) == Seq::<int>::empty());
        assert(done_xs =~= xs);
    }
    let ghost edges = cells@;
    let ghost mut done_ys: Seq<int> = Seq::empty();
    let mut fill_y = top_end;
    while fill_y < bottom_start
        invariant
            ys == done_ys + cell_steps(fill_y as int, bottom_start as int),
            cells@ == edges + left_and_right(done_ys, x as int, right_start as int),
        decreases bottom_start + 8 - fill_y,
    {
        cells.push(FrameCell { piece: FramePiece::MiddleLeft, x, y: fill_y });
        cells.push(FrameCell { piece: FramePiece::MiddleRight, x: right_start, y: fill_y });
        proof {
            lemma_cell_steps_step(fill_y, bottom_start);
            let next_ys = done_ys.push(fill_y as int);
            assert(next_ys.drop_last() =~= done_ys);
            done_ys = next_ys;
            assert(ys =~= done_ys + cell_steps(
                sat_add16(fill_y, NineSlice::CELL_H) as int,
                bottom_start as int,
            ));
        }
        fill_y = fill_y.saturating_add(NineSlice::CELL_H);
    }
    proof {
        assert(cell_steps(fill_y as int, bottom_start as int) == Seq::<int>::empty());
        assert(done_ys =~= ys);
    }
    cells.push(FrameCell { piece: FramePiece::TopLeft, x, y });
    cells.push(FrameCell { piece: FramePiece::TopRight, x: right_start, y });
    cells.push(FrameCell { piece: FramePiece::BottomLeft, x, y: bottom_start });
    cells.push(FrameCell { piece: FramePiece::BottomRight, x: right_start, y: bottom_start });
    assert(cells@ =~= frame_cells(x, y, w, h));
    cells
}


/// How far apart the characters of a line are.
pub const CHAR_ADVANCE: u16 = 4;
/// How tall a character is.
pub const CHAR_H: u16 = 8;

/// A rectangle of the screen: its top left corner and its size.
#[derive(Clone, Copy, Debug, Default, PartialEq, Eq, Structural)]
pub struct Rect {
    pub x: u16,
    pub y: u16,
    pub w: u16,
    pub h: u16,
}

pub open spec fn sat_mul16(a: u16, b: u16) -> u16 {
    if a * b > u16::MAX {
        u16::MAX
    } else {
        (a * b) as u16
    }
}

/// Where a line of `text_length` characters starts so that it is centred in
/// `rect`. Sums and products stop at the largest coordinate, differences at
/// nothing.
pub open spec fn spec_center_line_in_rect(text_length: u16, rect: Rect) -> (u16, u16) {
    (
        sat_sub16(sat_add16(rect.x, rect.w / 2), sat_mul16(CHAR_ADVANCE, text_length) / 2),
        sat_sub16(sat_add16(rect.y, rect.h / 2), CHAR_H / 2),
    )
}

pub fn center_line_in_rect(text_length: u16, rect: Rect) -> (xy: (u16, u16))
    ensures
        xy == spec_center_line_in_rect(text_length, rect),
{
    let width = CHAR_ADVANCE as u32 * text_length as u32;
    let width: u16 = if width > u16::MAX as u32 {
        u16::MAX
    } else {
        width as u16
    };
    let x = rect.x.saturating_add(rect.w / 2).saturating_sub(width / 2);
    let y = rect.y.saturating_add(rect.h / 2).saturating_sub(CHAR_H / 2);
    (x, y)
}

/// Where the sprite of character `c` sits in a font sheet `font_width` wide
/// whose characters start at row `font_base_y`: the characters run in rows of
/// `font_width / CHAR_SIZE`, each `CHAR_SIZE` square.
pub fn char_sprite_xy(c: u8, font_width: u16, font_base_y: u16) -> (xy: (u16, u16))
    requires
        font_width >= CHAR_SIZE,
        font_base_y as int + (c as int / (font_width as int / CHAR_SIZE as int)) * CHAR_SIZE as int
            <= u16::MAX,
    ensures
        xy.0 == (c as int % (font_width as int / CHAR_SIZE as int)) * CHAR_SIZE as int,
        xy.1 == font_base_y as int + (c as int / (font_width as int / CHAR_SIZE as int))
            * CHAR_SIZE as int,
{
    let size = CHAR_SIZE as u16;
    let per_row = font_width / size;
    let n = c as u16;
    assert((n % per_row) * 8 <= u16::MAX) by (nonlinear_arith)
        requires
            per_row >= 1,
            n <= 255,
    ;
    (n % per_row * size, font_base_y + n / per_row * size)
}

/// Where each community card is drawn: in order, from `x` on, each
/// `card_width` to the right of the one before.
pub fn community_card_xs(cards: CommunityCards, x: u16, card_width: u16) -> (placed: Vec<(DeckCard, u16)>)
    requires
        x + cards.cards().len() * card_width <= u16::MAX,
    ensures
        placed@.len() == cards.cards().len(),
        forall|i: int|
            0 <= i < placed@.len() ==> #[trigger] placed@[i] == (cards.cards()[i], (x + i * card_width) as u16),
{
    let all: Vec<DeckCard> = match cards {
        CommunityCards::Flop(flop) => vec![flop[0], flop[1], flop[2]],
        CommunityCards::Turn(flop, turn) => vec![flop[0], flop[1], flop[2], turn],
        CommunityCards::River(flop, turn, river) => vec![flop[0], flop[1], flop[2], turn, river],
    };
    assert(all@ =~= cards.cards());
    let mut placed: Vec<(DeckCard, u16)> = Vec::new();
    let mut at_x: u16 = x;
    let mut i: usize = 0;
    while i < all.len()
        invariant
            all@ == cards.cards(),
            x + all@.len() * card_width <= u16::MAX,
            i <= all@.len(),
            at_x == x + i * card_width,
            placed@.len() == i,
            forall|j: int|
                0 <= j < i ==> #[trigger] placed@[j] == (all@[j], (x + j * card_width) as u16),
        decreases all@.len() - i,
    {
        assert(x + (i + 1) * card_width <= x + all@.len() * card_width) by (nonlinear_arith)
            requires
                i + 1 <= all@.len(),
        ;
        assert((i + 1) * card_width == i * card_width + card_width) by (nonlinear_arith);
        placed.push((all[i], at_x));
        at_x = at_x + card_width;
        i += 1;
    }
    placed
}

} // verus!
