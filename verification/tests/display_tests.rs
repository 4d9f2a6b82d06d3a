use robot_painter::display::{
    backpack_slots, block_levels, block_texture, cell_texture, content_texture, daytime_texture,
    map_textures, map_tile_texture, weather_texture,
};
use robot_painter::events::{backpack_contents, handle_event, ReadEventType, RobotEvent};
use robot_painter::world::{Content, DayTime, EnvironmentalConditions, Tile, TileType, WeatherType};

fn grass() -> Tile {
    Tile { tile_type: TileType::Grass, content: Content::Nothing, elevation: 2 }
}

#[test]
fn content_pictures() {
    assert_eq!(content_texture(Content::Rock(3)), "contents/rock.png");
    assert_eq!(content_texture(Content::JollyBlock(1)), "contents/star.png");
    assert_eq!(content_texture(Content::Bank(0, 10)), "contents/bank.png");
    assert_eq!(content_texture(Content::Scarecrow), "contents/scarecrow.png");
    assert_eq!(content_texture(Content::Nothing), "contents/none.png");
}

#[test]
fn ground_pictures_differ_for_shallow_water_only() {
    assert_eq!(map_tile_texture(TileType::ShallowWater), "tile_texture/shallowater.png");
    assert_eq!(block_texture(TileType::ShallowWater), "tile_texture/shallow_water.png");
    assert_eq!(map_tile_texture(TileType::Street), "tile_texture/road.png");
    assert_eq!(block_texture(TileType::Street), "tile_texture/road.png");
    assert_eq!(block_texture(TileType::Teleport(true)), "tile_texture/teleport.png");
    assert_eq!(map_tile_texture(TileType::DeepWater), "tile_texture/deepwater.png");
}

#[test]
fn sky_pictures() {
    assert_eq!(weather_texture(WeatherType::Rainy), "time_weather_texture/rain.png");
    assert_eq!(weather_texture(WeatherType::TrentinoSnow), "time_weather_texture/snow.png");
    assert_eq!(daytime_texture(DayTime::Afternoon), "time_weather_texture/evening.png");
    assert_eq!(daytime_texture(DayTime::Night), "time_weather_texture/night.png");
}

#[test]
fn columns_go_down_from_the_elevation() {
    assert_eq!(block_levels(3), vec![3, 2, 1, 0]);
    assert_eq!(block_levels(0), vec![0]);
    let high = block_levels(100);
    assert_eq!(high.len(), 20);
    assert_eq!(high[0], 100);
    assert_eq!(high[19], 81);
    assert_eq!(block_levels(19).len(), 20);
}

#[test]
fn backpack_shows_twenty_slots() {
    let s = backpack_slots(vec![Content::Rock(0), Content::Coin(0)]);
    assert_eq!(s.len(), 20);
    assert_eq!(s[0], Content::Rock(0));
    assert_eq!(s[1], Content::Coin(0));
    assert!(s[2..].iter().all(|c| *c == Content::Nothing));
    let many = vec![Content::Tree(0); 25];
    assert_eq!(backpack_slots(many.clone()), many);
    assert_eq!(backpack_slots(vec![]).len(), 20);
}

#[test]
fn little_map_pictures() {
    let world = vec![
        vec![Some(grass()), None, Some(grass())],
        vec![None, Some(Tile { tile_type: TileType::Lava, content: Content::Fire, elevation: 0 }), None],
    ];
    let pics = map_textures(&world);
    assert_eq!(pics, vec![vec!["tile_texture/grass.png", "tile_texture/none.png"], vec!["tile_texture/none.png", "tile_texture/lava.png"]]);
    assert_eq!(cell_texture(None), "tile_texture/none.png");
}

#[test]
fn backpack_entries_are_laid_out_per_unit() {
    let v = backpack_contents(&vec![(Content::Rock(0), 2), (Content::Tree(0), 0), (Content::Coin(0), 1)]);
    assert_eq!(v, vec![Content::Rock(0), Content::Rock(0), Content::Coin(0)]);
    assert!(backpack_contents(&vec![]).is_empty());
}

#[test]
fn events_for_the_display() {
    let sky = EnvironmentalConditions { weather: WeatherType::Foggy, time_of_day: DayTime::Morning };
    let r = handle_event(RobotEvent::DayChanged(sky), 0, &vec![]);
    assert_eq!(r.len(), 2);
    assert!(matches!(r[0], ReadEventType::TimeChanged(c) if c == sky));
    assert!(matches!(r[1], ReadEventType::WeatherChanged(c) if c == sky));

    assert!(handle_event(RobotEvent::Ready, 0, &vec![]).is_empty());
    assert!(handle_event(RobotEvent::Terminated, 0, &vec![]).is_empty());

    let r = handle_event(RobotEvent::EnergyRecharged(30), 130, &vec![]);
    assert!(matches!(r[..], [ReadEventType::EnergyRecharged((30, 130))]));
    let r = handle_event(RobotEvent::EnergyConsumed(7), 123, &vec![]);
    assert!(matches!(r[..], [ReadEventType::EnergyConsumed(7)]));

    let r = handle_event(RobotEvent::Moved(grass(), (4, 6)), 0, &vec![]);
    assert!(matches!(r[..], [ReadEventType::RobotMoved((4, 6)), ReadEventType::MessageLogMoved((4, 6))]));

    let r = handle_event(RobotEvent::TileContentUpdated(grass(), (1, 2)), 0, &vec![]);
    assert!(matches!(r[..], [ReadEventType::UpdatedTile((t, (1, 2)))] if t == grass()));
}

#[test]
fn backpack_events_carry_the_whole_backpack() {
    let pack = vec![(Content::Rock(0), 3)];
    let r = handle_event(RobotEvent::AddedToBackpack(Content::Rock(0), 1), 0, &pack);
    assert_eq!(r.len(), 2);
    match &r[0] {
        ReadEventType::AddBackpack(v) => assert_eq!(v, &vec![Content::Rock(0); 3]),
        other => panic!("unexpected {:?}", other),
    }
    assert!(matches!(r[1], ReadEventType::MessageLogAddedToBackpack((Content::Rock(0), 1))));

    let r = handle_event(RobotEvent::AddedToBackpack(Content::Rock(0), 0), 0, &pack);
    assert_eq!(r.len(), 1);

    let r = handle_event(RobotEvent::RemovedFromBackpack(Content::Coin(0), 0), 0, &vec![]);
    assert_eq!(r.len(), 2);
    match &r[0] {
        ReadEventType::RemoveBackpack(v) => assert!(v.is_empty()),
        other => panic!("unexpected {:?}", other),
    }
    assert!(matches!(r[1], ReadEventType::MessageLogRemovedFromBackpack((Content::Coin(0), 0))));
}

#[test]
fn the_same_event_tells_the_display_the_same() {
    let pack = vec![(Content::Tree(0), 2), (Content::Rock(0), 1)];
    let a = handle_event(RobotEvent::RemovedFromBackpack(Content::Rock(0), 1), 40, &pack);
    let b = handle_event(RobotEvent::RemovedFromBackpack(Content::Rock(0), 1), 40, &pack);
    assert_eq!(format!("{:?}", a), format!("{:?}", b));
}

#[test]
fn only_empty_tiles_have_no_cube() {
    assert!(!robot_painter::display::shows_content(Content::Nothing));
    assert!(robot_painter::display::shows_content(Content::Fire));
    assert!(robot_painter::display::shows_content(Content::Coin(0)));
}
