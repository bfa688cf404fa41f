use std::collections::VecDeque;

use snek::{Direction, FoodGroup, Position, Reason, Segment, Size, Snake, SnakeState};

#[test]
fn init_snake() {
    let s = Snake::new([2, 2].into(), Size { x: 5, y: 5 });

    assert_eq!(s.segments.len(), 1);
    assert_eq!(s.travel_dir, Direction::Up);
    assert_eq!(s.travelled_dir, Direction::Up);
    assert_eq!(s.map_size, Size { x: 5, y: 5 });
}

#[test]
fn change_snake_dir_orthogonal() {
    let mut s = Snake::new([2, 2].into(), Size { x: 5, y: 5 });

    assert_eq!(s.travel_dir, Direction::Up);

    s.set_dir(Direction::Left);

    assert_eq!(s.segments.len(), 1);
    assert_eq!(s.travel_dir, Direction::Left);
    assert_eq!(s.travelled_dir, Direction::Up);
    assert_eq!(s.map_size, Size { x: 5, y: 5 });
}

#[test]
fn change_snake_dir_opposite() {
    let mut s = Snake::new([2, 2].into(), Size { x: 5, y: 5 });

    assert_eq!(s.travel_dir, Direction::Up);

    s.set_dir(Direction::Down);

    assert_eq!(s.segments.len(), 1);
    assert_eq!(s.travel_dir, Direction::Up);
    assert_eq!(s.travelled_dir, Direction::Up);
    assert_eq!(s.map_size, Size { x: 5, y: 5 });
}

#[test]
fn get_next_head_pos_in_bounds() {
    let mut s = Snake::new([2, 2].into(), Size { x: 5, y: 5 });
    s.set_dir(Direction::Up);
    assert_eq!(s.get_next_head_pos(), [2, 3].into());
    s.set_dir(Direction::Right);
    assert_eq!(s.get_next_head_pos(), [3, 2].into());
    s.set_dir(Direction::Left);
    assert_eq!(s.get_next_head_pos(), [1, 2].into());

    s.travelled_dir = Direction::Down;
    s.set_dir(Direction::Down);
    assert_eq!(s.get_next_head_pos(), [2, 1].into());
}

#[test]
fn get_next_head_pos_out_of_bounds() {
    let mut s = Snake::new([4, 4].into(), Size { x: 5, y: 5 });
    s.set_dir(Direction::Up);
    assert_eq!(s.get_next_head_pos(), [4, 0].into());
    s.set_dir(Direction::Right);
    assert_eq!(s.get_next_head_pos(), [0, 4].into());

    let mut s = Snake::new([0, 0].into(), Size { x: 5, y: 5 });
    s.set_dir(Direction::Left);
    assert_eq!(s.get_next_head_pos(), [4, 0].into());

    s.travelled_dir = Direction::Down;
    s.set_dir(Direction::Down);
    assert_eq!(s.get_next_head_pos(), [0, 4].into());
}

#[test]
fn head_in_body_detection_false() {
    let s = Snake::new([4, 4].into(), Size { x: 5, y: 5 });
    assert_eq!(s.next_head_pos_in_body(), false);
}

#[test]
fn add_segment() {
    let mut s = Snake::new([4, 4].into(), Size { x: 5, y: 5 });
    s.add_front_segment([4, 3].into());
    s.add_front_segment([3, 3].into());

    let seg_vec: Vec<Segment> = vec![[4, 4].into(), [4, 3].into(), [3, 3].into()];
    let ref_seg: VecDeque<Segment> = VecDeque::from(seg_vec);

    assert_eq!(s.segments.len(), 3);
    s.segments.iter().rev().zip(ref_seg.iter()).for_each(|(s, ref_s)| {
        assert_eq!(s, ref_s);
    });
}

#[test]
fn test_iter_segments() {
    let mut s = Snake::new([4, 4].into(), Size { x: 5, y: 5 });
    s.add_front_segment([4, 3].into());
    s.add_front_segment([3, 3].into());

    let seg_vec: Vec<Segment> = vec![[4, 4].into(), [4, 3].into(), [3, 3].into()];
    let ref_seg: VecDeque<Segment> = VecDeque::from(seg_vec);

    assert_eq!(s.segments.len(), 3);
    s.iter_segments().rev().zip(ref_seg.iter()).for_each(|(s, ref_s)| {
        assert_eq!(s, ref_s);
    });
}

#[test]
fn drop_segment() {
    let mut s = Snake::new([4, 4].into(), Size { x: 5, y: 5 });
    s.add_front_segment([4, 3].into());
    s.add_front_segment([3, 3].into());

    s.drop_last_segment();

    let seg_vec: Vec<Segment> = vec![[4, 3].into(), [3, 3].into()];
    let ref_seg: VecDeque<Segment> = VecDeque::from(seg_vec);

    assert_eq!(s.segments.len(), 2);

    s.segments.iter().rev().zip(ref_seg.iter()).for_each(|(s, ref_s)| {
        assert_eq!(s, ref_s);
    });
}

#[test]
fn head_in_body_detection_true() {
    let mut s = Snake::new([4, 4].into(), Size { x: 5, y: 5 });
    s.add_front_segment([4, 3].into());
    s.add_front_segment([4, 2].into());
    s.add_front_segment([4, 1].into());
    s.add_front_segment([3, 1].into());
    s.add_front_segment([2, 1].into());
    s.add_front_segment([2, 2].into());
    s.add_front_segment([2, 3].into());
    s.add_front_segment([3, 3].into());
    s.set_dir(Direction::Right);
    assert_eq!(s.get_next_head_pos(), [4, 3].into());
    assert_eq!(s.next_head_pos_in_body(), true);
}

#[test]
fn slither_test_no_food() {
    let mut s = Snake::new([3, 3].into(), Size { x: 5, y: 5 });
    s.add_front_segment([2, 3].into());
    s.add_front_segment([2, 2].into());
    s.add_front_segment([2, 1].into());
    s.travel_dir = Direction::Left;
    s.travelled_dir = Direction::Left;

    assert_eq!(s.slither(None), SnakeState::Alive);
    let seg_vec: Vec<Segment> = vec![[2, 3].into(), [2, 2].into(), [2, 1].into(), [1, 1].into()];
    let ref_seg: VecDeque<Segment> = VecDeque::from(seg_vec);
    assert_eq!(s.segments.len(), 4);
    s.iter_segments().zip(ref_seg.iter().rev()).for_each(|(s, ref_s)| {
        assert_eq!(s, ref_s);
    });

    s.set_dir(Direction::Up);
    assert_eq!(s.slither(None), SnakeState::Alive);
    let seg_vec: Vec<Segment> = vec![[2, 2].into(), [2, 1].into(), [1, 1].into(), [1, 2].into()];
    let ref_seg: VecDeque<Segment> = VecDeque::from(seg_vec);
    assert_eq!(s.segments.len(), 4);
    s.iter_segments().zip(ref_seg.iter().rev()).for_each(|(s, ref_s)| {
        assert_eq!(s, ref_s);
    });
}

#[test]
fn slither_test_no_food_one_seg() {
    let mut s = Snake::new([3, 3].into(), Size { x: 5, y: 5 });

    assert_eq!(s.slither(None), SnakeState::Alive);
    let seg_vec: Vec<Segment> = vec![[3, 4].into()];
    let ref_seg: VecDeque<Segment> = VecDeque::from(seg_vec);
    assert_eq!(s.segments.len(), 1);
    s.iter_segments().zip(ref_seg.iter().rev()).for_each(|(s, ref_s)| {
        assert_eq!(s, ref_s);
    });
}

#[test]
fn slither_test_grow_food() {
    let mut s = Snake::new([3, 3].into(), Size { x: 5, y: 5 });
    s.add_front_segment([2, 3].into());
    s.add_front_segment([2, 2].into());
    s.add_front_segment([2, 1].into());
    s.travel_dir = Direction::Left;
    s.travelled_dir = Direction::Left;

    assert_eq!(s.slither(Some(FoodGroup::Grow)), SnakeState::Alive);
    let seg_vec: Vec<Segment> =
        vec![[3, 3].into(), [2, 3].into(), [2, 2].into(), [2, 1].into(), [1, 1].into()];
    let ref_seg: VecDeque<Segment> = VecDeque::from(seg_vec);
    assert_eq!(s.segments.len(), 5);
    s.iter_segments().zip(ref_seg.iter().rev()).for_each(|(s, ref_s)| {
        assert_eq!(s, ref_s);
    });

    s.set_dir(Direction::Up);
    assert_eq!(s.slither(None), SnakeState::Alive);
    let seg_vec: Vec<Segment> =
        vec![[2, 3].into(), [2, 2].into(), [2, 1].into(), [1, 1].into(), [1, 2].into()];
    let ref_seg: VecDeque<Segment> = VecDeque::from(seg_vec);
    assert_eq!(s.segments.len(), 5);
    s.iter_segments().zip(ref_seg.iter().rev()).for_each(|(s, ref_s)| {
        assert_eq!(s, ref_s);
    });
}

#[test]
fn slither_test_poison_food() {
    let mut s = Snake::new([3, 3].into(), Size { x: 5, y: 5 });
    s.add_front_segment([2, 3].into());
    s.add_front_segment([2, 2].into());
    s.add_front_segment([2, 1].into());
    s.travel_dir = Direction::Left;
    s.travelled_dir = Direction::Left;

    assert_eq!(s.slither(Some(FoodGroup::Poison)), SnakeState::Dead(Reason::Poison));
}

#[test]
fn test_in_snake() {
    let mut s = Snake::new([3, 3].into(), Size { x: 5, y: 5 });
    s.add_front_segment([2, 3].into());
    s.add_front_segment([2, 2].into());
    s.add_front_segment([2, 1].into());

    assert_eq!(s.is_in_snake([4, 5].into()), false);
    assert_eq!(s.is_in_snake([0, 0].into()), false);
    assert_eq!(s.is_in_snake([2, 0].into()), false);

    assert_eq!(s.is_in_snake([3, 3].into()), true);
    assert_eq!(s.is_in_snake([2, 3].into()), true);
    assert_eq!(s.is_in_snake([2, 2].into()), true);
    assert_eq!(s.is_in_snake([2, 1].into()), true);
}

fn positions(s: &Snake) -> Vec<Position> {
    s.iter_segments().map(|seg| seg.pos).collect()
}

#[test]
fn wrap_on_every_edge_of_a_wide_board() {
    let size = Size { x: 7, y: 3 };
    let mut s = Snake::new([3, 2].into(), size);
    assert_eq!(s.get_next_head_pos(), Position { x: 3, y: 0 });
    let mut s2 = Snake::new([6, 1].into(), size);
    s2.set_dir(Direction::Right);
    assert_eq!(s2.get_next_head_pos(), Position { x: 0, y: 1 });
    let mut s3 = Snake::new([0, 1].into(), size);
    s3.set_dir(Direction::Left);
    assert_eq!(s3.get_next_head_pos(), Position { x: 6, y: 1 });
    s.travelled_dir = Direction::Left;
    s.segments[0] = [3, 0].into();
    s.set_dir(Direction::Down);
    assert_eq!(s.get_next_head_pos(), Position { x: 3, y: 2 });
}

#[test]
fn one_cell_board_wraps_onto_itself() {
    let mut s = Snake::new([0, 0].into(), Size { x: 1, y: 1 });
    assert_eq!(s.get_next_head_pos(), Position { x: 0, y: 0 });
    assert!(s.next_head_pos_in_body());
    assert_eq!(s.slither(None), SnakeState::Dead(Reason::Collision));
    assert_eq!(s.segments.len(), 1);
}

#[test]
fn set_dir_checks_the_last_move_not_the_request() {
    let mut s = Snake::new([2, 2].into(), Size { x: 5, y: 5 });
    s.set_dir(Direction::Left);
    s.set_dir(Direction::Right);
    assert_eq!(s.travel_dir, Direction::Right);
    s.set_dir(Direction::Right);
    assert_eq!(s.travel_dir, Direction::Right);
    s.set_dir(Direction::Down);
    assert_eq!(s.travel_dir, Direction::Right);
    assert_eq!(s.slither(None), SnakeState::Alive);
    assert_eq!(s.travelled_dir, Direction::Right);
    s.set_dir(Direction::Left);
    assert_eq!(s.travel_dir, Direction::Right);
    s.set_dir(Direction::Down);
    assert_eq!(s.travel_dir, Direction::Down);
}

#[test]
fn shrink_takes_two_segments_and_keeps_one() {
    let mut s = Snake::new([0, 0].into(), Size { x: 9, y: 9 });
    for i in 1..5 {
        s.add_front_segment([i, 0].into());
    }
    s.travel_dir = Direction::Right;
    s.travelled_dir = Direction::Right;
    assert_eq!(s.slither(Some(FoodGroup::Shrink)), SnakeState::Alive);
    assert_eq!(positions(&s), vec![
        Position { x: 5, y: 0 },
        Position { x: 4, y: 0 },
        Position { x: 3, y: 0 },
    ]);
    assert_eq!(s.slither(Some(FoodGroup::Shrink)), SnakeState::Alive);
    assert_eq!(positions(&s), vec![Position { x: 6, y: 0 }]);
    assert_eq!(s.slither(Some(FoodGroup::Shrink)), SnakeState::Alive);
    assert_eq!(positions(&s), vec![Position { x: 7, y: 0 }]);
}

#[test]
fn collision_changes_nothing() {
    let mut s = Snake::new([2, 2].into(), Size { x: 5, y: 5 });
    s.add_front_segment([2, 3].into());
    s.add_front_segment([3, 3].into());
    s.add_front_segment([3, 2].into());
    s.travel_dir = Direction::Down;
    s.travelled_dir = Direction::Down;
    s.set_dir(Direction::Left);
    let before = positions(&s);
    assert_eq!(s.slither(Some(FoodGroup::Grow)), SnakeState::Dead(Reason::Collision));
    assert_eq!(positions(&s), before);
    assert_eq!(s.travelled_dir, Direction::Down);
    assert_eq!(s.travel_dir, Direction::Left);
}

#[test]
fn poison_changes_nothing() {
    let mut s = Snake::new([1, 1].into(), Size { x: 4, y: 4 });
    s.set_dir(Direction::Right);
    assert_eq!(s.slither(Some(FoodGroup::Poison)), SnakeState::Dead(Reason::Poison));
    assert_eq!(positions(&s), vec![Position { x: 1, y: 1 }]);
    assert_eq!(s.travelled_dir, Direction::Up);
}

#[test]
fn opposite_is_an_involution() {
    for d in [Direction::Up, Direction::Down, Direction::Left, Direction::Right] {
        assert_ne!(d.opposite(), d);
        assert_eq!(d.opposite().opposite(), d);
    }
    assert_eq!(Direction::Up.opposite(), Direction::Down);
    assert_eq!(Direction::Left.opposite(), Direction::Right);
}

#[test]
fn positions_shift_and_add() {
    let p = Position { x: 3, y: 4 };
    assert_eq!(p.shifted(Direction::Up), Position { x: 3, y: 5 });
    assert_eq!(p.shifted(Direction::Down), Position { x: 3, y: 3 });
    assert_eq!(p.shifted(Direction::Right), Position { x: 4, y: 4 });
    assert_eq!(p.shifted(Direction::Left), Position { x: 2, y: 4 });
    assert_eq!(p.plus(Position { x: 1, y: 2 }), Position { x: 4, y: 6 });
}

#[test]
fn conversions_between_pairs_and_cells() {
    let p: Position = (3, 4).into();
    assert_eq!(p, Position { x: 3, y: 4 });
    let s: Size = (7, 2).into();
    assert_eq!(s, Size { x: 7, y: 2 });
    let t: (usize, usize) = Position { x: 5, y: 6 }.into();
    assert_eq!(t, (5, 6));
    let a: Size = [1, 9].into();
    assert_eq!(a, Size { x: 1, y: 9 });
}
