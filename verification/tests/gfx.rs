use pake::holdem::CommunityCards;
use pake::gfx::{
    char_sprite_xy, community_card_xs, center_line_in_rect, get_rank_char, get_rank_char_from_rank, get_suit_colour_and_char,
    nine_slice_cells, FrameCell, FramePiece, NineSlice, Rect, TEN_CHAR,
};

#[test]
fn suits_have_their_colours_and_characters() {
    assert_eq!(get_suit_colour_and_char(0), (7, 31));
    assert_eq!(get_suit_colour_and_char(1), (2, 29));
    assert_eq!(get_suit_colour_and_char(2), (2, 30));
    assert_eq!(get_suit_colour_and_char(3), (7, 28));
    assert_eq!(get_suit_colour_and_char(4), (4, b'!'));
}

#[test]
fn ranks_have_their_characters() {
    assert_eq!(get_rank_char_from_rank(0), b'a');
    assert_eq!(get_rank_char_from_rank(1), b'2');
    assert_eq!(get_rank_char_from_rank(8), b'9');
    assert_eq!(get_rank_char_from_rank(9), TEN_CHAR);
    assert_eq!(get_rank_char_from_rank(12), b'k');
    assert_eq!(get_rank_char_from_rank(13), b'!');
    // Card 25 is the king of diamonds.
    assert_eq!(get_rank_char(25), b'k');
}

#[test]
fn frames_start_a_grid_apart() {
    assert_eq!(NineSlice::Window.sprite_offset_x(), 0);
    assert_eq!(NineSlice::Highlight.sprite_offset_x(), 96);
}

fn c(piece: FramePiece, x: u16, y: u16) -> FrameCell {
    FrameCell { piece, x, y }
}

#[test]
fn a_three_by_three_frame_has_nine_cells() {
    let cells = nine_slice_cells(10, 20, 24, 24);
    assert_eq!(
        cells,
        vec![
            c(FramePiece::Middle, 18, 28),
            c(FramePiece::Top, 18, 20),
            c(FramePiece::Bottom, 18, 36),
            c(FramePiece::MiddleLeft, 10, 28),
            c(FramePiece::MiddleRight, 26, 28),
            c(FramePiece::TopLeft, 10, 20),
            c(FramePiece::TopRight, 26, 20),
            c(FramePiece::BottomLeft, 10, 36),
            c(FramePiece::BottomRight, 26, 36),
        ]
    );
}

#[test]
fn a_wider_frame_repeats_its_edges() {
    let cells = nine_slice_cells(0, 0, 40, 24);
    let middles = cells.iter().filter(|cell| cell.piece == FramePiece::Middle).count();
    let tops: Vec<u16> = cells.iter().filter(|cell| cell.piece == FramePiece::Top).map(|cell| cell.x).collect();
    assert_eq!(middles, 3);
    assert_eq!(tops, vec![8, 16, 24]);
    assert_eq!(cells.len(), 3 + 6 + 2 + 4);
    // A frame of less than two cells has only its corners.
    assert_eq!(nine_slice_cells(0, 0, 10, 10).len(), 4);
}

#[test]
fn lines_are_centred() {
    let rect = Rect { x: 100, y: 100, w: 50, h: 100 };
    // Seven characters four apart: 28 wide.
    assert_eq!(center_line_in_rect(7, rect), (125 - 14, 150 - 4));
    assert_eq!(center_line_in_rect(0, Rect { x: 0, y: 0, w: 0, h: 0 }), (0, 0));
}

#[test]
fn characters_sit_in_rows_of_the_font() {
    // A font 128 wide holds 16 characters a row.
    assert_eq!(char_sprite_xy(0, 128, 16), (0, 16));
    assert_eq!(char_sprite_xy(17, 128, 16), (8, 24));
    assert_eq!(char_sprite_xy(255, 128, 0), (120, 120));
}

#[test]
fn community_cards_are_laid_out_left_to_right() {
    assert_eq!(
        community_card_xs(CommunityCards::Flop([3, 4, 5]), 10, 20),
        vec![(3, 10), (4, 30), (5, 50)]
    );
    assert_eq!(
        community_card_xs(CommunityCards::River([3, 4, 5], 6, 7), 0, 20),
        vec![(3, 0), (4, 20), (5, 40), (6, 60), (7, 80)]
    );
}
