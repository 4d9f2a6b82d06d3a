use robot_painter::drawing::DrawingType;
use robot_painter::runner::{
    copy_map, gps_input_valid, material_for, RobotAction, RobotAttributes, RobotStatus, TickDraws,
    TickInput, TodaysMission,
};
use robot_painter::world::{Content, Direction, Tile, TileType};

fn field(n: usize) -> Vec<Vec<Option<Tile>>> {
    vec![vec![Some(Tile { tile_type: TileType::Grass, content: Content::Nothing, elevation: 0 }); n]; n]
}

fn blind(pos: (usize, usize)) -> TickInput {
    TickInput { robot_position: pos, robot_map: None, tile_costs: vec![], most_loaded: None }
}

fn seeing(pos: (usize, usize), n: usize) -> TickInput {
    TickInput {
        robot_position: pos,
        robot_map: Some(field(n)),
        tile_costs: vec![vec![1; n]; n],
        most_loaded: None,
    }
}

fn draws() -> TickDraws {
    TickDraws { direction: 0, drawing_type: 0, plot_size: 0 }
}

fn tick(r: &mut RobotAttributes, input: &TickInput, d: &TickDraws) -> RobotAction {
    assert!(r.tick_is_safe(input, d));
    r.process_tick(input, d)
}

#[test]
fn a_new_robot_starts_a_round_to_set_up_a_plot() {
    let r = RobotAttributes::new();
    assert_eq!(r.robot_status, RobotStatus::StartOfRound);
    assert_eq!(r.robot_mission, TodaysMission::SetupPlot);
    assert_eq!(r.directions.len(), 50);
    assert_eq!(*r.directions.last().unwrap(), Direction::Right);
    assert!(r.drawings.is_empty());
    assert_eq!(r.needed_material(), None);
}

#[test]
fn start_of_round_steps_aside_and_plans_a_spiral() {
    let mut r = RobotAttributes::new();
    let a = tick(&mut r, &blind((5, 5)), &draws());
    assert_eq!(a, RobotAction::GoLeftThenRight);
    assert_eq!(r.robot_status, RobotStatus::FollowDirections);
    assert_eq!(r.directions.len(), 200);
    let a = tick(&mut r, &blind((5, 5)), &draws());
    assert_eq!(a, RobotAction::Go(Direction::Right));
    assert_eq!(r.directions.len(), 199);
}

#[test]
fn testing_plans_a_short_spiral() {
    let mut r = RobotAttributes::new();
    r.robot_status = RobotStatus::Testing;
    let a = tick(&mut r, &blind((0, 0)), &draws());
    assert_eq!(a, RobotAction::Nothing);
    assert_eq!(r.directions.len(), 20);
    assert_eq!(r.robot_status, RobotStatus::FollowDirections);
}

#[test]
fn exploring_plans_a_hundred_moves() {
    let mut r = RobotAttributes::new();
    r.robot_status = RobotStatus::Explore;
    let a = tick(&mut r, &blind((0, 0)), &draws());
    assert_eq!(a, RobotAction::Nothing);
    assert_eq!(r.directions.len(), 100);
    assert_eq!(r.robot_status, RobotStatus::FollowDirections);
}

#[test]
fn a_round_ends_in_a_drawing_on_the_first_free_plot() {
    let mut r = RobotAttributes::new();
    let view = seeing((10, 10), 20);
    let d = draws();
    tick(&mut r, &view, &d);
    let mut moves = 0;
    while r.robot_status == RobotStatus::FollowDirections {
        match tick(&mut r, &view, &d) {
            RobotAction::Go(_) => moves += 1,
            other => panic!("unexpected {:?}", other),
        }
    }
    assert_eq!(moves, 200);
    assert_eq!(r.robot_status, RobotStatus::DecideWhatToDo);
    assert_eq!(tick(&mut r, &view, &d), RobotAction::Nothing);
    assert_eq!(r.robot_status, RobotStatus::SetupPlot);
    assert_eq!(tick(&mut r, &view, &d), RobotAction::Nothing);
    assert_eq!(r.robot_status, RobotStatus::DrawPicture);
    assert_eq!(r.robot_mission, TodaysMission::DrawPixel);
    assert_eq!(r.drawings.len(), 1);
    let plot = r.drawings[0].get_plot();
    assert_eq!(plot.top_left, (0, 0));
    assert_eq!(plot.bottom_right, (2, 3));
    assert_eq!(r.drawings[0].get_pixel(), Some((0, 1)));
    assert_eq!(r.needed_material(), None);

    // The robot heads for the first pixel: a walk of 19 moves.
    assert_eq!(tick(&mut r, &view, &d), RobotAction::Nothing);
    assert_eq!(r.robot_status, RobotStatus::FollowDirections);
    assert_eq!(r.directions.len(), 19);
    for _ in 0..18 {
        assert!(matches!(tick(&mut r, &view, &d), RobotAction::Go(_)));
    }
    // With the last move left, the robot puts a coin there instead.
    match tick(&mut r, &view, &d) {
        RobotAction::Put(c, 1, _) => assert_eq!(c, Content::Coin(0)),
        other => panic!("unexpected {:?}", other),
    }
    r.put_outcome(true);
    assert_eq!(r.robot_status, RobotStatus::DecideWhatToDo);
    assert_eq!(r.drawings[0].get_pixel(), Some((1, 0)));
}

#[test]
fn a_failed_put_sends_the_robot_for_material() {
    let mut r = RobotAttributes::new();
    let view = seeing((3, 3), 12);
    let d = draws();
    r.robot_status = RobotStatus::SetupPlot;
    tick(&mut r, &view, &d);
    assert_eq!(r.robot_status, RobotStatus::DrawPicture);
    r.robot_status = RobotStatus::FollowDirections;
    r.directions = vec![Direction::Up];
    match tick(&mut r, &view, &d) {
        RobotAction::Put(_, _, dir) => assert_eq!(dir, Direction::Up),
        other => panic!("unexpected {:?}", other),
    }
    r.put_outcome(false);
    assert_eq!(r.robot_mission, TodaysMission::GetMaterial);
    assert_eq!(r.robot_status, RobotStatus::DecideWhatToDo);
    assert_eq!(tick(&mut r, &view, &d), RobotAction::Nothing);
    assert_eq!(r.robot_status, RobotStatus::CollectResources);
    assert_eq!(r.needed_material(), Some(DrawingType::Coin));

    // No tile with coins is known: the robot explores.
    assert_eq!(tick(&mut r, &view, &d), RobotAction::Nothing);
    assert_eq!(r.robot_status, RobotStatus::Explore);
}

#[test]
fn collecting_walks_to_the_richest_tile_then_takes_from_it() {
    let mut r = RobotAttributes::new();
    let mut view = seeing((3, 3), 12);
    let d = draws();
    r.robot_status = RobotStatus::SetupPlot;
    tick(&mut r, &view, &d);
    r.robot_mission = TodaysMission::GetMaterial;
    r.robot_status = RobotStatus::CollectResources;
    let mut map = field(12);
    map[3][6] = Some(Tile { tile_type: TileType::Grass, content: Content::Coin(4), elevation: 0 });
    view.robot_map = Some(map);
    view.most_loaded = Some((3, 6));
    assert_eq!(tick(&mut r, &view, &d), RobotAction::Nothing);
    assert_eq!(r.robot_status, RobotStatus::FollowDirections);
    assert_eq!(r.directions, vec![Direction::Right, Direction::Right, Direction::Right]);
    tick(&mut r, &view, &d);
    tick(&mut r, &view, &d);
    assert_eq!(tick(&mut r, &view, &d), RobotAction::Destroy(Direction::Right));
    r.destroy_outcome(true);
    assert_eq!(r.robot_status, RobotStatus::DrawPicture);
    assert_eq!(r.robot_mission, TodaysMission::DrawPixel);
}

#[test]
fn a_spent_tile_is_not_worth_the_walk() {
    let mut r = RobotAttributes::new();
    let mut view = seeing((3, 3), 12);
    let d = draws();
    r.robot_status = RobotStatus::SetupPlot;
    tick(&mut r, &view, &d);
    r.robot_mission = TodaysMission::GetMaterial;
    r.robot_status = RobotStatus::CollectResources;
    let mut map = field(12);
    map[3][6] = Some(Tile { tile_type: TileType::Grass, content: Content::Coin(1), elevation: 0 });
    view.robot_map = Some(map);
    view.most_loaded = Some((3, 6));
    tick(&mut r, &view, &d);
    assert_eq!(r.robot_status, RobotStatus::Explore);
    r.destroy_outcome(false);
    assert_eq!(r.robot_status, RobotStatus::CollectResources);
}

#[test]
fn standing_on_the_pixel_steps_off_it() {
    let mut r = RobotAttributes::new();
    let d = TickDraws { direction: 2, drawing_type: 0, plot_size: 0 };
    r.robot_status = RobotStatus::SetupPlot;
    tick(&mut r, &seeing((5, 5), 10), &d);
    assert_eq!(tick(&mut r, &seeing((0, 1), 10), &d), RobotAction::Go(Direction::Up));
    assert_eq!(r.robot_status, RobotStatus::DrawPicture);
}

#[test]
fn a_finished_drawing_is_marked_done() {
    let mut r = RobotAttributes::new();
    let d = TickDraws { direction: 0, drawing_type: 3, plot_size: 0 };
    r.robot_status = RobotStatus::SetupPlot;
    tick(&mut r, &seeing((5, 5), 10), &d);
    for _ in 0..8 {
        r.robot_status = RobotStatus::FollowDirections;
        r.directions = vec![Direction::Down];
        assert!(matches!(tick(&mut r, &seeing((9, 9), 10), &d), RobotAction::Put(Content::JollyBlock(0), 1, _)));
        r.put_outcome(true);
    }
    r.robot_status = RobotStatus::DrawPicture;
    assert_eq!(tick(&mut r, &seeing((9, 9), 10), &d), RobotAction::Nothing);
    assert!(r.drawings[0].is_done());
    assert_eq!(r.robot_status, RobotStatus::SetupPlot);
    assert_eq!(r.robot_mission, TodaysMission::SetupPlot);
}

#[test]
fn without_a_free_plot_the_robot_explores() {
    let mut r = RobotAttributes::new();
    r.robot_status = RobotStatus::SetupPlot;
    assert_eq!(tick(&mut r, &blind((0, 0)), &draws()), RobotAction::Nothing);
    assert_eq!(r.robot_status, RobotStatus::Explore);
    assert!(r.drawings.is_empty());
}

#[test]
fn unsafe_ticks_are_detected() {
    let mut r = RobotAttributes::new();
    r.robot_status = RobotStatus::SetupPlot;
    let small = seeing((0, 0), 2);
    assert!(!r.tick_is_safe(&small, &draws()));
    let mut bad = seeing((0, 0), 3);
    bad.tile_costs = vec![];
    assert!(!gps_input_valid(&bad));
    assert!(gps_input_valid(&blind((0, 0))));
}

#[test]
fn materials_of_the_drawings() {
    assert_eq!(material_for(DrawingType::Coin), Content::Coin(0));
    assert_eq!(material_for(DrawingType::Rock), Content::Rock(0));
    assert_eq!(material_for(DrawingType::Tree), Content::Tree(0));
    assert_eq!(material_for(DrawingType::JollyBlock), Content::JollyBlock(0));
}

#[test]
fn drawn_choices_are_in_range() {
    for _ in 0..20 {
        let d = TickDraws::draw();
        assert!(d.direction < 4 && d.drawing_type < 4 && d.plot_size <= 100);
    }
}

#[test]
fn copied_maps_are_equal() {
    let m = Some(field(3));
    assert_eq!(copy_map(&m), m);
    assert_eq!(copy_map(&None), None);
}
