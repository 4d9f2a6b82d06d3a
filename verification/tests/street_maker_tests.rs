use robot_painter::street_maker::{
    backoff_directions, move_for, move_with_backoff, ActionsEncoding, BackoffStep, FrontOutcome,
    PaveOutcome, PickOutcome, RobotAttributes, RobotState, RouteStep,
};
use robot_painter::world::{Content, Direction};
use ActionsEncoding::{MD, ML, MR, MU, PR, RW, TR};

fn view_with(cells: &[((usize, usize), Content)]) -> Vec<Vec<Content>> {
    let mut v = vec![vec![Content::Nothing; 3]; 3];
    for (p, c) in cells {
        v[p.0][p.1] = *c;
    }
    v
}

#[test]
fn a_new_bot_is_idle() {
    let b = RobotAttributes::new();
    assert_eq!(b.state, RobotState::Idle);
    assert!(b.future_actions.is_empty());
    assert_eq!(b.spiral_radius, 3);
    assert_eq!(b.spiral_shift, 0);
    assert_eq!(b.front_action(), None);
    assert!(b.should_pick());
}

#[test]
fn idle_bot_plans_its_exploration_spiral() {
    let mut b = RobotAttributes::new();
    b.state_step((0, 0), &vec![]);
    assert_eq!(b.state, RobotState::Exploring);
    assert_eq!(b.spiral_radius, 75);
    assert_eq!(b.future_actions.len(), 913);
    assert_eq!(&b.future_actions[..8], &[RW, MR, RW, MR, RW, MD, RW, MD]);
    assert_eq!(b.front_action(), Some(RW));
    // Exploring adds nothing.
    b.state_step((0, 0), &vec![]);
    assert_eq!(b.future_actions.len(), 913);
}

#[test]
fn moves_count_the_shifts() {
    let mut b = RobotAttributes::new();
    b.future_actions = vec![MR, MD, MU];
    b.apply_front_outcome(FrontOutcome::Moved(true));
    assert_eq!(b.spiral_shift, 1);
    b.apply_front_outcome(FrontOutcome::Moved(true));
    assert_eq!(b.spiral_shift, 2);
    b.apply_front_outcome(FrontOutcome::Moved(false));
    assert_eq!(b.spiral_shift, 0);
    assert!(b.future_actions.is_empty());
}

#[test]
fn looking_around_queues_rock_pickups_and_notes_buildings() {
    let mut b = RobotAttributes::new();
    b.future_actions = vec![RW, MR];
    let view = view_with(&[((0, 0), Content::Rock(2)), ((1, 2), Content::Rock(1)), ((2, 2), Content::Building)]);
    b.apply_front_outcome(FrontOutcome::Viewed(view, 5, 5));
    assert_eq!(b.future_actions, vec![PR(Direction::Right), ML, PR(Direction::Up), MR, MR]);
    assert_eq!(b.building_1, Some((6, 6)));
    assert_eq!(b.building_2, None);
    assert_eq!(b.state, RobotState::Idle);
}

#[test]
fn a_second_building_must_differ_from_the_first() {
    let mut b = RobotAttributes::new();
    b.future_actions = vec![RW, RW];
    b.apply_front_outcome(FrontOutcome::Viewed(view_with(&[((0, 1), Content::Building)]), 4, 4));
    assert_eq!(b.building_1, Some((3, 4)));
    b.apply_front_outcome(FrontOutcome::Viewed(view_with(&[((1, 1), Content::Building)]), 3, 4));
    assert_eq!(b.building_2, None);
    b.future_actions = vec![RW];
    b.apply_front_outcome(FrontOutcome::Viewed(view_with(&[((2, 0), Content::Building)]), 9, 9));
    assert_eq!(b.building_2, Some((10, 8)));
}

#[test]
fn a_full_backpack_stops_pickups_and_starts_paving() {
    let mut b = RobotAttributes::new();
    b.future_actions = vec![PR(Direction::Up), RW, RW, MR];
    b.apply_front_outcome(FrontOutcome::Picked(PickOutcome::NotEnoughSpace));
    assert!(b.inventory_full);
    assert!(!b.should_pick());
    b.apply_front_outcome(FrontOutcome::Viewed(
        view_with(&[((0, 0), Content::Rock(3)), ((0, 2), Content::Building)]),
        1,
        1,
    ));
    assert_eq!(b.future_actions, vec![RW, MR]);
    assert_eq!(b.building_1, Some((0, 2)));
    b.apply_front_outcome(FrontOutcome::Viewed(view_with(&[((2, 1), Content::Building)]), 7, 7));
    assert_eq!(b.state, RobotState::PavingRoad);
    assert!(b.future_actions.is_empty());
    assert_eq!(b.building_2, Some((8, 7)));
}

#[test]
fn picking_errors_do_not_fill_the_backpack() {
    let mut b = RobotAttributes::new();
    b.future_actions = vec![PR(Direction::Left), PR(Direction::Left)];
    b.apply_front_outcome(FrontOutcome::Picked(PickOutcome::OtherError));
    assert!(!b.inventory_full);
    b.apply_front_outcome(FrontOutcome::Picked(PickOutcome::Picked));
    assert!(!b.inventory_full);
}

fn paving_bot() -> RobotAttributes {
    let mut b = RobotAttributes::new();
    b.state = RobotState::PavingRoad;
    b.building_1 = Some((2, 2));
    b.building_2 = Some((2, 5));
    b.inventory_full = true;
    b
}

#[test]
fn paving_first_walks_to_the_first_building() {
    let mut b = paving_bot();
    assert_eq!(b.route_goal((0, 0)), Some((2, 2)));
    let route = vec![RouteStep::Control(Direction::Down), RouteStep::Other, RouteStep::Control(Direction::Right)];
    b.state_step((0, 0), &route);
    assert!(b.path_first_building_calculated);
    assert_eq!(b.future_actions, vec![MD, MR]);
    assert_eq!(b.route_goal((1, 0)), None);
}

#[test]
fn on_the_first_building_the_road_is_planned() {
    let mut b = paving_bot();
    b.path_first_building_calculated = true;
    assert_eq!(b.route_goal((2, 2)), Some((2, 5)));
    assert_eq!(b.route_goal((2, 3)), None);
    let route = vec![RouteStep::Control(Direction::Right), RouteStep::Control(Direction::Right)];
    b.state_step((2, 2), &route);
    assert_eq!(
        b.future_actions,
        vec![TR(Direction::Right), MR, TR(Direction::Right), MR]
    );
}

#[test]
fn on_the_second_building_the_bot_looks_around() {
    let mut b = paving_bot();
    b.path_first_building_calculated = true;
    b.state_step((2, 5), &vec![]);
    assert_eq!(b.future_actions, vec![RW]);
    assert!(b.printed_message);
    let mut c = paving_bot();
    c.path_first_building_calculated = true;
    c.state_step((9, 9), &vec![]);
    assert!(c.future_actions.is_empty());
}

#[test]
fn running_out_of_rocks_starts_over() {
    let mut b = paving_bot();
    b.path_first_building_calculated = true;
    b.future_actions = vec![TR(Direction::Right), MR, TR(Direction::Right)];
    b.apply_front_outcome(FrontOutcome::Paved(PaveOutcome::Paved, 2, 2));
    assert_eq!(b.future_actions, vec![MR, TR(Direction::Right)]);
    b.future_actions = vec![TR(Direction::Right), MR];
    b.apply_front_outcome(FrontOutcome::Paved(PaveOutcome::NoRockHere, 2, 3));
    assert_eq!(b.state, RobotState::Idle);
    assert_eq!(b.building_1, Some((2, 3)));
    assert_eq!(b.building_2, Some((2, 5)));
    assert!(b.future_actions.is_empty());
    assert!(!b.inventory_full);
    assert!(!b.path_first_building_calculated);
    assert_eq!(b.spiral_radius, 3);
}

#[test]
fn move_actions_and_their_backoffs() {
    assert_eq!(move_for(Direction::Up), MU);
    assert_eq!(move_for(Direction::Left), ML);
    assert_eq!(
        backoff_directions(MU),
        Some((Direction::Up, Direction::Right, Direction::Left, Direction::Down))
    );
    assert_eq!(
        backoff_directions(MR),
        Some((Direction::Right, Direction::Down, Direction::Up, Direction::Left))
    );
    assert_eq!(backoff_directions(RW), None);
    assert_eq!(backoff_directions(TR(Direction::Up)), None);
}

#[test]
fn backoff_tries_each_direction_in_turn() {
    let (up, right, left, down) = (Direction::Up, Direction::Right, Direction::Left, Direction::Down);
    assert_eq!(move_with_backoff(up, right, left, down, &vec![]), BackoffStep::Try(up));
    assert_eq!(move_with_backoff(up, right, left, down, &vec![true]), BackoffStep::Done(false));
    assert_eq!(move_with_backoff(up, right, left, down, &vec![false]), BackoffStep::Try(right));
    assert_eq!(move_with_backoff(up, right, left, down, &vec![false, true]), BackoffStep::Done(true));
    assert_eq!(move_with_backoff(up, right, left, down, &vec![false, false]), BackoffStep::Try(left));
    assert_eq!(move_with_backoff(up, right, left, down, &vec![false, false, false]), BackoffStep::Try(down));
    assert_eq!(
        move_with_backoff(up, right, left, down, &vec![false, false, false, false]),
        BackoffStep::Done(true)
    );
}
