use othlib::Direction;
use othlib::Direction::{E, N, NE, NW, S, SE, SW, W};

#[test]
fn steps_that_underflow_give_none() {
    assert_eq!(None, Direction::SE.new_coords_from_direction(0, 1));
    assert_eq!(None, Direction::S.new_coords_from_direction(0, 1));
    assert_eq!(None, Direction::SW.new_coords_from_direction(0, 1));
    assert_eq!(None, Direction::SW.new_coords_from_direction(1, 0));
    assert_eq!(None, Direction::W.new_coords_from_direction(1, 0));
    assert_eq!(None, Direction::NW.new_coords_from_direction(1, 0));
}

#[test]
fn steps_from_an_inner_cell() {
    assert_eq!(Some((2, 1)), Direction::N.new_coords_from_direction(1, 1));
    assert_eq!(Some((2, 2)), Direction::NE.new_coords_from_direction(1, 1));
    assert_eq!(Some((1, 2)), Direction::E.new_coords_from_direction(1, 1));
    assert_eq!(Some((0, 2)), Direction::SE.new_coords_from_direction(1, 1));
    assert_eq!(Some((0, 1)), Direction::S.new_coords_from_direction(1, 1));
    assert_eq!(Some((0, 0)), Direction::SW.new_coords_from_direction(1, 1));
    assert_eq!(Some((1, 0)), Direction::W.new_coords_from_direction(1, 1));
    assert_eq!(Some((2, 0)), Direction::NW.new_coords_from_direction(1, 1));
}

#[test]
fn no_upper_bound_is_checked() {
    assert_eq!(Some((100, 7)), Direction::N.new_coords_from_direction(99, 7));
    assert_eq!(Some((3, 100)), Direction::E.new_coords_from_direction(3, 99));
}

#[test]
fn cardinals_start_at_north() {
    assert_eq!([N, NE, E, SE, S, SW, W, NW], Direction::cardinals());
}

#[test]
fn cardinals_from_here_rotate_the_order() {
    assert_eq!([SE, S, SW, W, NW, N, NE, E], SE.cardinals_from_here());
    assert_eq!(Direction::cardinals(), N.cardinals_from_here());
    assert_eq!([NW, N, NE, E, SE, S, SW, W], NW.cardinals_from_here());
}

#[test]
fn next_turns_clockwise_and_wraps() {
    let mut d = Direction::N;
    assert_eq!(Some(Direction::NE), d.next());
    assert_eq!(Direction::NE, d);
    let mut d = Direction::NW;
    assert_eq!(Some(Direction::N), d.next());
    assert_eq!(Direction::N, d);
}
