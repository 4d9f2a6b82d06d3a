use robot_painter::random::{choose_multiple_random_directions, choose_random_direction, direction_from_draw};
use robot_painter::spiral::{reversed, spiral_directions_gab, spiral_directions_gab_2};
use robot_painter::world::{opposite_direction, Direction};
use Direction::{Down, Left, Right, Up};

#[test]
fn spiral_of_unit_runs_last_move_first() {
    assert_eq!(spiral_directions_gab(6), vec![Up, Up, Left, Left, Down, Right]);
    assert_eq!(spiral_directions_gab(1), vec![Right]);
    assert!(spiral_directions_gab(0).is_empty());
}

#[test]
fn spiral_of_runs_of_three() {
    assert_eq!(spiral_directions_gab_2(8), vec![Left, Left, Down, Down, Down, Right, Right, Right]);
    let s = spiral_directions_gab_2(50);
    assert_eq!(s.len(), 50);
    // Runs 3, 3, 6, 6, 9, 9, 12, 12: the 50th move is the 2nd of the 8th run (up).
    assert_eq!(s[0], Up);
    assert_eq!(s[49], Right);
}

#[test]
fn longer_spirals_start_with_the_same_moves() {
    let short = spiral_directions_gab(20);
    let long = spiral_directions_gab(45);
    let mut a = short.clone();
    a.reverse();
    let mut b = long.clone();
    b.reverse();
    assert_eq!(&b[..20], &a[..]);
}

#[test]
fn reversed_turns_the_moves_around() {
    assert_eq!(reversed(vec![Up, Right, Down]), vec![Down, Right, Up]);
    assert!(reversed(vec![]).is_empty());
}

#[test]
fn draws_name_the_directions() {
    assert_eq!(direction_from_draw(0), Right);
    assert_eq!(direction_from_draw(1), Left);
    assert_eq!(direction_from_draw(2), Up);
    assert_eq!(direction_from_draw(3), Down);
    assert_eq!(direction_from_draw(17), Down);
}

#[test]
fn random_directions_come_in_the_asked_number() {
    let _ = choose_random_direction();
    assert_eq!(choose_multiple_random_directions(7).len(), 7);
    assert!(choose_multiple_random_directions(0).is_empty());
}

#[test]
fn random_directions_are_not_all_the_same() {
    let v = choose_multiple_random_directions(200);
    assert!(v.iter().any(|d| *d != v[0]));
}

#[test]
fn opposite_undoes_each_direction() {
    for d in [Up, Down, Left, Right] {
        assert_ne!(opposite_direction(d), d);
        assert_eq!(opposite_direction(opposite_direction(d)), d);
    }
    assert_eq!(opposite_direction(Up), Down);
    assert_eq!(opposite_direction(Left), Right);
}

#[test]
fn one_more_move_goes_in_front() {
    for n in 1..60 {
        let longer = spiral_directions_gab_2(n);
        let shorter = spiral_directions_gab_2(n - 1);
        assert_eq!(&longer[1..], &shorter[..]);
        assert_eq!(*longer.last().unwrap(), Right);
    }
}
