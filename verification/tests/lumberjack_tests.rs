use robot_painter::lumberjack::{
    crazy_noisy_bizarre_gps, create_map, directions_to, elevation_gap, get_neighbors,
    gps_inputs_valid, map_costs_within_limit, path_to_directions, shortest_path,
    tile_map_weights_fit, Contents, Coords, Neighbors, Node, TileMap,
};
use robot_painter::world::{Content, Direction, Tile, TileType};

fn grass(content: Content, elevation: usize) -> Option<Tile> {
    Some(Tile { tile_type: TileType::Grass, content, elevation })
}

fn square(n: usize) -> Vec<Vec<Option<Tile>>> {
    let mut g = Vec::new();
    for _ in 0..n {
        let mut row = Vec::new();
        for _ in 0..n {
            row.push(grass(Content::Nothing, 0));
        }
        g.push(row);
    }
    g
}

fn costs(n: usize, c: usize) -> Vec<Vec<usize>> {
    vec![vec![c; n]; n]
}

fn follow(start: Coords, dirs: &[Direction]) -> Coords {
    let mut p = start;
    for d in dirs {
        p = match d {
            Direction::Up => (p.0 - 1, p.1),
            Direction::Down => (p.0 + 1, p.1),
            Direction::Left => (p.0, p.1 - 1),
            Direction::Right => (p.0, p.1 + 1),
        };
    }
    p
}

#[test]
fn neighbors_new_is_empty() {
    let n = Neighbors::new();
    assert!(n.up.is_none() && n.down.is_none() && n.left.is_none() && n.right.is_none());
}

#[test]
fn contents_and_nodes_keep_their_fields() {
    let c = Contents::create(3, 7, Neighbors::new());
    assert_eq!(c.cost, 3);
    assert_eq!(c.elevation, 7);
    let n = Node::new((1, 2), 5, 6);
    assert_eq!(n.coords, (1, 2));
    assert!(n.path.is_empty());
    assert_eq!(n.cost, 5);
    assert_eq!(n.elevation, 6);
    let m = Node::create((0, 1), vec![(0, 1)], 9, 2);
    assert_eq!(m.path, vec![(0, 1)]);
    assert_eq!(m.cost, 9);
}

#[test]
fn elevation_gap_is_absolute_difference() {
    assert_eq!(elevation_gap(7, 3), 4);
    assert_eq!(elevation_gap(3, 7), 4);
    assert_eq!(elevation_gap(5, 5), 0);
}

#[test]
fn path_to_directions_follows_each_step() {
    let d = path_to_directions((1, 1), vec![(1, 2), (2, 2), (2, 1), (1, 1)]);
    assert_eq!(d, vec![Direction::Right, Direction::Down, Direction::Left, Direction::Up]);
}

#[test]
fn path_to_directions_skips_repeated_positions() {
    let d = path_to_directions((0, 0), vec![(0, 0), (1, 0)]);
    assert_eq!(d, vec![Direction::Down]);
    assert!(path_to_directions((4, 4), vec![]).is_empty());
}

#[test]
fn create_map_links_the_four_neighbours() {
    let g = square(3);
    let m = create_map(&g, &costs(3, 2));
    assert_eq!(m.height, 3);
    assert_eq!(m.width, 3);
    let centre = m.get(&(1, 1)).unwrap();
    assert_eq!(centre.cost, 2);
    assert_eq!(centre.neighbors.up, Some((0, 1)));
    assert_eq!(centre.neighbors.down, Some((2, 1)));
    assert_eq!(centre.neighbors.left, Some((1, 0)));
    assert_eq!(centre.neighbors.right, Some((1, 2)));
    let corner = m.get(&(0, 0)).unwrap();
    assert_eq!(corner.neighbors.up, None);
    assert_eq!(corner.neighbors.left, None);
    assert!(m.get(&(3, 0)).is_none());
}

#[test]
fn create_map_leaves_unknown_tiles_out() {
    let mut g = square(2);
    g[1][1] = None;
    let m = create_map(&g, &costs(2, 1));
    assert!(m.get(&(1, 1)).is_none());
    assert!(m.get(&(0, 1)).is_some());
}

#[test]
fn get_neighbors_visits_up_right_left_down() {
    let g = square(3);
    let m = create_map(&g, &costs(3, 4));
    let ns = get_neighbors(&(1, 1), &m);
    let cs: Vec<Coords> = ns.iter().map(|n| n.coords).collect();
    assert_eq!(cs, vec![(0, 1), (1, 2), (1, 0), (2, 1)]);
    for n in &ns {
        assert_eq!(n.path, vec![n.coords]);
        assert_eq!(n.cost, 4);
    }
    assert_eq!(get_neighbors(&(0, 0), &m).len(), 2);
}

#[test]
fn get_neighbors_of_unknown_tile_is_empty() {
    let m = TileMap { height: 1, width: 1, cells: vec![None] };
    assert!(get_neighbors(&(0, 0), &m).is_empty());
}

#[test]
fn shortest_path_avoids_the_costly_tile() {
    // A 2 x 3 strip: the direct middle tile is very costly.
    let mut c = costs(3, 1);
    c[0][1] = 50;
    let g = square(3);
    let m = create_map(&g, &c);
    let p = shortest_path(&m, (0, 0), (0, 2)).unwrap();
    assert!(!p.contains(&(0, 1)));
    assert_eq!(*p.last().unwrap(), (0, 2));
    assert_eq!(p.len(), 4);
}

#[test]
fn shortest_path_counts_height_differences() {
    let mut g = square(2);
    g[0][1] = grass(Content::Nothing, 10);
    let m = create_map(&g, &costs(2, 1));
    let p = shortest_path(&m, (0, 0), (1, 1)).unwrap();
    assert_eq!(p, vec![(1, 0), (1, 1)]);
}

#[test]
fn shortest_path_to_the_start_is_empty() {
    let m = create_map(&square(2), &costs(2, 1));
    assert_eq!(shortest_path(&m, (1, 1), (1, 1)), Some(vec![]));
}

#[test]
fn shortest_path_fails_without_a_walk() {
    let mut g = square(3);
    g[0][1] = None;
    g[1][1] = None;
    g[2][1] = None;
    let m = create_map(&g, &costs(3, 1));
    assert_eq!(shortest_path(&m, (0, 0), (0, 2)), None);
    assert_eq!(shortest_path(&m, (0, 1), (0, 2)), None);
}

#[test]
fn directions_lead_to_the_destination() {
    let g = square(4);
    let c = costs(4, 1);
    let d = directions_to((0, 0), &g, &c, (3, 2)).unwrap();
    assert_eq!(d.len(), 5);
    assert_eq!(follow((0, 0), &d), (3, 2));
}

#[test]
fn gps_goes_to_the_nearest_tree() {
    let mut g = square(3);
    g[0][1] = grass(Content::Tree(2), 0);
    g[2][2] = grass(Content::Tree(2), 0);
    let c = costs(3, 1);
    let d = crazy_noisy_bizarre_gps((0, 0), &g, &c, false).unwrap();
    assert_eq!(d, vec![Direction::Right]);
}

#[test]
fn gps_measures_distance_in_both_directions() {
    let mut g = square(4);
    g[0][0] = grass(Content::Tree(1), 0);
    g[3][3] = grass(Content::Tree(1), 0);
    let c = costs(4, 1);
    let d = crazy_noisy_bizarre_gps((3, 2), &g, &c, false).unwrap();
    assert_eq!(d, vec![Direction::Right]);
    let d = crazy_noisy_bizarre_gps((1, 0), &g, &c, false).unwrap();
    assert_eq!(d, vec![Direction::Up]);
}

#[test]
fn gps_prefers_the_first_of_equally_near_targets() {
    let mut g = square(3);
    g[0][1] = grass(Content::Market(1), 0);
    g[1][0] = grass(Content::Market(1), 0);
    let c = costs(3, 1);
    let d = crazy_noisy_bizarre_gps((0, 0), &g, &c, true).unwrap();
    assert_eq!(d, vec![Direction::Right]);
}

#[test]
fn gps_without_targets_finds_nothing() {
    let g = square(3);
    let c = costs(3, 1);
    assert_eq!(crazy_noisy_bizarre_gps((1, 1), &g, &c, false), None);
    let mut g2 = square(3);
    g2[2][2] = grass(Content::Tree(1), 0);
    assert_eq!(crazy_noisy_bizarre_gps((1, 1), &g2, &c, true), None);
}

#[test]
fn gps_input_checks() {
    let g = square(3);
    assert!(gps_inputs_valid(&g, &costs(3, 1)));
    assert!(!gps_inputs_valid(&g, &costs(2, 1)));
    assert!(map_costs_within_limit(&g, &costs(3, 1)));
    assert!(!map_costs_within_limit(&g, &costs(3, usize::MAX)));
    let m = create_map(&g, &costs(3, 1));
    assert!(tile_map_weights_fit(&m));
    let big = create_map(&g, &costs(3, usize::MAX / 2));
    assert!(!tile_map_weights_fit(&big));
}

#[test]
fn tile_map_indexes_row_by_row() {
    let m = create_map(&square(3), &costs(3, 1));
    assert_eq!(m.index(&(0, 0)), 0);
    assert_eq!(m.index(&(1, 2)), 5);
    assert_eq!(m.index(&(2, 1)), 7);
}

#[test]
fn standing_on_the_destination_needs_no_moves() {
    let mut g = square(3);
    g[1][1] = grass(Content::Tree(3), 0);
    let c = costs(3, 0);
    assert_eq!(crazy_noisy_bizarre_gps((1, 1), &g, &c, false), Some(vec![]));
    assert_eq!(directions_to((2, 0), &square(3), &c, (2, 0)), Some(vec![]));
}
