use tetris::{Direction, Piece, Point, Textures};

fn markers() -> Textures<u8> {
    Textures { yellow: 1, light_blue: 2, blue: 3, orange: 4, green: 5, red: 6, purple: 7 }
}

fn points(pairs: [(i64, i64); 4]) -> Vec<Point> {
    pairs.iter().map(|&(x, y)| Point::new(x, y)).collect()
}

#[test]
fn point_new_keeps_both_coordinates() {
    let p = Point::new(-3, 41);
    assert_eq!(p.x, -3);
    assert_eq!(p.y, 41);
}

#[test]
fn point_add_is_component_wise() {
    let p = Point::new(9, 41).add(Point::new(-3, -1));
    assert_eq!(p, Point { x: 6, y: 40 });
    assert_eq!(Point::new(0, 0).add(Point::new(0, 0)), Point::new(0, 0));
    assert_eq!(Point::new(-1, 1).add(Point::new(1, -1)), Point::new(0, 0));
}

#[test]
fn catalogue_has_seven_pieces_of_four_blocks() {
    let pieces = Piece::get_standard_pieces(markers());
    assert_eq!(pieces.len(), 7);
    for piece in pieces.iter() {
        assert_eq!(piece.offsets.len(), 4);
        assert_eq!(piece.get_block_positions().len(), 4);
    }
}

#[test]
fn catalogue_names_centres_and_offsets() {
    let pieces = Piece::get_standard_pieces(markers());
    let expected: [(&str, (i64, i64), [(i64, i64); 4], u8); 7] = [
        ("Square", (9, 41), [(-1, 1), (1, 1), (-1, -1), (1, -1)], 1),
        ("Straight", (9, 41), [(-3, -1), (-1, -1), (1, -1), (3, -1)], 2),
        ("L", (8, 40), [(-2, 0), (0, 0), (2, 0), (2, 2)], 3),
        ("Backwarsds L", (8, 40), [(-2, 0), (0, 0), (2, 0), (-2, 2)], 4),
        ("S", (8, 40), [(-2, 0), (0, 0), (0, 2), (2, 2)], 5),
        ("Z", (8, 40), [(2, 0), (0, 0), (0, 2), (-2, 2)], 6),
        ("T", (8, 40), [(0, 0), (-2, 0), (2, 0), (0, 2)], 7),
    ];
    for (piece, (name, center, offsets, marker)) in pieces.iter().zip(expected.iter()) {
        assert_eq!(piece.name, *name);
        assert_eq!(piece.center, Point::new(center.0, center.1));
        assert_eq!(piece.offsets, points(*offsets));
        assert_eq!(piece.texture, *marker);
    }
}

#[test]
fn every_block_of_the_catalogue_lies_on_a_whole_cell() {
    for piece in Piece::get_standard_pieces(markers()).iter() {
        for block in piece.get_block_positions().iter() {
            assert_eq!(block.x % 2, 0);
            assert_eq!(block.y % 2, 0);
        }
    }
}

#[test]
fn block_positions_are_centre_plus_offset_in_order() {
    let pieces = Piece::get_standard_pieces(markers());
    assert_eq!(pieces[0].get_block_positions(), points([(8, 42), (10, 42), (8, 40), (10, 40)]));
    assert_eq!(pieces[1].get_block_positions(), points([(6, 40), (8, 40), (10, 40), (12, 40)]));
    assert_eq!(pieces[6].get_block_positions(), points([(8, 40), (6, 40), (10, 40), (8, 42)]));
}

#[test]
fn block_positions_of_a_piece_without_offsets() {
    let piece = Piece { name: String::from("none"), center: Point::new(3, 5), offsets: vec![], texture: 0u8 };
    assert!(piece.get_block_positions().is_empty());
}

#[test]
fn clockwise_turn_sends_x_y_to_y_minus_x() {
    let mut piece = Piece::get_standard_pieces(markers()).remove(2);
    piece.rotate(Direction::Clockwise);
    assert_eq!(piece.offsets, points([(0, 2), (0, 0), (0, -2), (2, -2)]));
    assert_eq!(piece.center, Point::new(8, 40));
    assert_eq!(piece.name, "L");
    assert_eq!(piece.texture, 3);
}

#[test]
fn anticlockwise_turn_sends_x_y_to_minus_y_x() {
    let mut piece = Piece::get_standard_pieces(markers()).remove(2);
    piece.rotate(Direction::AntiClockwise);
    assert_eq!(piece.offsets, points([(0, -2), (0, 0), (0, 2), (-2, 2)]));
    assert_eq!(piece.center, Point::new(8, 40));
}

#[test]
fn turn_of_half_cell_offsets() {
    let mut piece = Piece::get_standard_pieces(markers()).remove(1);
    piece.rotate(Direction::Clockwise);
    assert_eq!(piece.offsets, points([(-1, 3), (-1, 1), (-1, -1), (-1, -3)]));
    assert_eq!(piece.get_block_positions(), points([(8, 44), (8, 42), (8, 40), (8, 38)]));
}

#[test]
fn four_clockwise_turns_restore_every_piece() {
    for piece in Piece::get_standard_pieces(markers()).iter() {
        let mut turned = piece.clone();
        for _ in 0..4 {
            turned.rotate(Direction::Clockwise);
        }
        assert_eq!(turned.offsets, piece.offsets);
        assert_eq!(turned.center, piece.center);
        assert_eq!(turned.name, piece.name);
        assert_eq!(turned.texture, piece.texture);
    }
}

#[test]
fn four_anticlockwise_turns_restore_every_piece() {
    for piece in Piece::get_standard_pieces(markers()).iter() {
        let mut turned = piece.clone();
        for _ in 0..4 {
            turned.rotate(Direction::AntiClockwise);
        }
        assert_eq!(turned.offsets, piece.offsets);
    }
}

#[test]
fn two_turns_twice_are_the_identity() {
    for piece in Piece::get_standard_pieces(markers()).iter() {
        let mut turned = piece.clone();
        turned.rotate(Direction::Clockwise);
        turned.rotate(Direction::Clockwise);
        let half: Vec<Point> = piece.offsets.iter().map(|p| Point::new(-p.x, -p.y)).collect();
        assert_eq!(turned.offsets, half);
        turned.rotate(Direction::Clockwise);
        turned.rotate(Direction::Clockwise);
        assert_eq!(turned.offsets, piece.offsets);
    }
}

#[test]
fn opposite_turns_cancel() {
    for piece in Piece::get_standard_pieces(markers()).iter() {
        let mut turned = piece.clone();
        turned.rotate(Direction::Clockwise);
        turned.rotate(Direction::AntiClockwise);
        assert_eq!(turned.offsets, piece.offsets);
    }
}

#[test]
fn clone_of_a_piece_is_independent() {
    let shape = Piece::get_standard_pieces(markers()).remove(6);
    let mut copy = shape.clone();
    copy.rotate(Direction::Clockwise);
    copy.center = Point::new(0, 0);
    assert_eq!(shape.center, Point::new(8, 40));
    assert_eq!(shape.offsets, points([(0, 0), (-2, 0), (2, 0), (0, 2)]));
    assert_eq!(copy.offsets, points([(0, 0), (0, 2), (0, -2), (2, 0)]));
}
