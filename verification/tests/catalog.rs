use macroquad::color::Color;
use tetris::block::Block;
use tetris::piece::{Piece, PieceEnum};
use tetris::rect::Rect;

fn cells_of(piece: &Piece) -> Vec<(i32, i32)> {
    piece.shape.iter().map(|block| block.location).collect()
}

fn rects_of(kind: PieceEnum) -> Vec<(u32, u32, u32, u32)> {
    kind.as_rects().0.iter().map(|rect| rect.get_data()).collect()
}

#[test]
fn block_keeps_its_location() {
    let block = Block::new((3, -2));
    assert_eq!(block.location, (3, -2));
    let copy = block;
    assert_eq!(copy.location, block.location);
}

#[test]
fn rect_gives_back_its_data() {
    let rect = Rect::new(870, 730, 60, 240);
    assert_eq!(rect.get_data(), (870, 730, 60, 240));
    let (x, y, w, h) = rect.get_data();
    assert_eq!((x as f32, y as f32, w as f32, h as f32), (870.0, 730.0, 60.0, 240.0));
}

#[test]
fn spawn_of_i() {
    let piece = Piece::new(&PieceEnum::I);
    assert_eq!(cells_of(&piece), vec![(5, -3), (5, -4), (5, -2), (5, -1)]);
    assert_eq!(piece.center, (5, -3));
    assert_eq!(piece.color, Color::from_rgba(0, 255, 255, 255));
    assert_eq!(piece.piece_enum, PieceEnum::I);
}

#[test]
fn spawn_of_o() {
    let piece = Piece::new(&PieceEnum::O);
    assert_eq!(cells_of(&piece), vec![(4, -2), (4, -1), (5, -2), (5, -1)]);
    assert_eq!(piece.center, (4, -2));
    assert_eq!(piece.color, Color::from_rgba(255, 255, 0, 255));
    assert_eq!(piece.piece_enum, PieceEnum::O);
}

#[test]
fn spawn_of_t() {
    let piece = Piece::new(&PieceEnum::T);
    assert_eq!(cells_of(&piece), vec![(5, -2), (4, -2), (6, -2), (5, -1)]);
    assert_eq!(piece.center, (5, -2));
    assert_eq!(piece.color, Color::from_rgba(255, 0, 255, 255));
    assert_eq!(piece.piece_enum, PieceEnum::T);
}

#[test]
fn spawn_of_s() {
    let piece = Piece::new(&PieceEnum::S);
    assert_eq!(cells_of(&piece), vec![(5, -1), (4, -1), (5, -2), (6, -2)]);
    assert_eq!(piece.center, (5, -1));
    assert_eq!(piece.color, Color::from_rgba(0, 255, 0, 255));
    assert_eq!(piece.piece_enum, PieceEnum::S);
}

#[test]
fn spawn_of_z() {
    let piece = Piece::new(&PieceEnum::Z);
    assert_eq!(cells_of(&piece), vec![(5, -1), (4, -2), (5, -2), (6, -1)]);
    assert_eq!(piece.center, (5, -1));
    assert_eq!(piece.color, Color::from_rgba(255, 0, 0, 255));
    assert_eq!(piece.piece_enum, PieceEnum::Z);
}

#[test]
fn spawn_of_j() {
    let piece = Piece::new(&PieceEnum::J);
    assert_eq!(cells_of(&piece), vec![(5, -2), (4, -1), (5, -1), (5, -3)]);
    assert_eq!(piece.center, (5, -2));
    assert_eq!(piece.color, Color::from_rgba(0, 0, 255, 255));
    assert_eq!(piece.piece_enum, PieceEnum::J);
}

#[test]
fn spawn_of_l() {
    let piece = Piece::new(&PieceEnum::L);
    assert_eq!(cells_of(&piece), vec![(4, -2), (4, -3), (4, -1), (5, -1)]);
    assert_eq!(piece.center, (4, -2));
    assert_eq!(piece.color, Color::from_rgba(255, 128, 0, 255));
    assert_eq!(piece.piece_enum, PieceEnum::L);
}

#[test]
fn every_spawn_begins_with_its_center() {
    for index in 0..7 {
        let kind = PieceEnum::from_index(index);
        let piece = Piece::new(&kind);
        assert_eq!(piece.shape.len(), 4);
        assert_eq!(piece.shape[0].location, piece.center);
        assert_eq!(piece.piece_enum, kind);
    }
}

#[test]
fn colors_are_built_from_their_channels() {
    let orange = Piece::new(&PieceEnum::L).color;
    assert_eq!(orange.r, 1.0);
    assert_eq!(orange.g, 128.0 / 255.0);
    assert_eq!(orange.b, 0.0);
    assert_eq!(orange.a, 1.0);
    let cyan = PieceEnum::I.as_rects().1;
    assert_eq!((cyan.r, cyan.g, cyan.b, cyan.a), (0.0, 1.0, 1.0, 1.0));
    assert_ne!(Piece::new(&PieceEnum::S).color, Piece::new(&PieceEnum::Z).color);
}

#[test]
fn preview_of_each_kind() {
    assert_eq!(rects_of(PieceEnum::I), vec![(870, 730, 60, 240)]);
    assert_eq!(rects_of(PieceEnum::O), vec![(840, 730, 120, 120)]);
    assert_eq!(rects_of(PieceEnum::T), vec![(810, 730, 180, 60), (870, 790, 60, 60)]);
    assert_eq!(rects_of(PieceEnum::S), vec![(870, 730, 120, 60), (810, 790, 120, 60)]);
    assert_eq!(rects_of(PieceEnum::Z), vec![(810, 730, 120, 60), (870, 790, 120, 60)]);
    assert_eq!(rects_of(PieceEnum::J), vec![(870, 730, 60, 180), (810, 850, 60, 60)]);
    assert_eq!(rects_of(PieceEnum::L), vec![(870, 730, 60, 180), (930, 850, 60, 60)]);
}

#[test]
fn preview_colors_match_the_pieces() {
    for index in 0..7 {
        let kind = PieceEnum::from_index(index);
        assert_eq!(kind.as_rects().1, Piece::new(&kind).color);
    }
}

#[test]
fn preview_of_the_empty_slot() {
    let (rects, color) = PieceEnum::Empty.as_rects();
    assert!(rects.is_empty());
    assert_eq!(color, Color::from_rgba(0, 0, 0, 255));
}

#[test]
fn kinds_by_index() {
    assert_eq!(PieceEnum::from_index(0), PieceEnum::I);
    assert_eq!(PieceEnum::from_index(1), PieceEnum::O);
    assert_eq!(PieceEnum::from_index(2), PieceEnum::T);
    assert_eq!(PieceEnum::from_index(3), PieceEnum::S);
    assert_eq!(PieceEnum::from_index(4), PieceEnum::Z);
    assert_eq!(PieceEnum::from_index(5), PieceEnum::J);
    assert_eq!(PieceEnum::from_index(6), PieceEnum::L);
}
