use robot_painter::drawing::{
    drawing_type_from_draw, find_plot_from_map, get_random_drawing_type, get_random_plot_size,
    is_plot_inside_other, is_robot_on_next_pixel, is_tile_gettable, is_tile_in_drawings,
    is_tile_inside_plot, make_drawing, plot_search_safe, plot_size_from_draw, plot_status,
    Blueprint, Coin, Drawing, DrawingSize, DrawingType, JollyBlock, Plot, PlotStatus, Rock, Tree,
};
use robot_painter::world::{Content, Tile, TileType};

fn tile(tile_type: TileType, content: Content) -> Option<Tile> {
    Some(Tile { tile_type, content, elevation: 0 })
}

fn field(h: usize, w: usize) -> Vec<Vec<Option<Tile>>> {
    vec![vec![tile(TileType::Grass, Content::Nothing); w]; h]
}

fn plot(tl: (usize, usize), br: (usize, usize)) -> Plot {
    Plot { top_left: tl, bottom_right: br }
}

#[test]
fn new_plot_and_blueprint() {
    let p = Plot::new();
    assert_eq!(p.top_left, (0, 0));
    assert_eq!(p.bottom_right, (0, 0));
    let b = Blueprint::new();
    assert!(b.pixels.is_empty());
    assert_eq!(b.pixel_index, 0);
    assert_eq!(b.get_pixel(), None);
}

#[test]
fn new_drawings_are_not_done() {
    let c = Coin::new(Plot::new(), Blueprint::new(), DrawingSize::Small);
    assert!(!c.is_done());
    assert_eq!(c.drawing_type(), DrawingType::Coin);
    let r = Rock::new(Plot::new(), Blueprint::new(), DrawingSize::Medium);
    assert_eq!(r.drawing_type(), DrawingType::Rock);
    let t = Tree::new(Plot::new(), Blueprint::new(), DrawingSize::Large);
    assert_eq!(t.drawing_type(), DrawingType::Tree);
    let mut j = JollyBlock::new(Plot::new(), Blueprint::new(), DrawingSize::Small);
    assert_eq!(j.drawing_type(), DrawingType::JollyBlock);
    j.mark_as_done();
    assert!(j.is_done());
}

#[test]
fn coin_blueprint_is_offset_from_the_plot_corner() {
    let mut c = Coin::new(plot((10, 20), (12, 23)), Blueprint::new(), DrawingSize::Small);
    c.set_blueprint();
    assert_eq!(c.blueprint.pixels, vec![(10, 21), (11, 20), (11, 22), (12, 20), (12, 22), (13, 21)]);
    assert_eq!(c.get_pixel(), Some((10, 21)));
    c.increase_pixel_index();
    assert_eq!(c.get_pixel(), Some((11, 20)));
}

#[test]
fn blueprint_sizes() {
    let sizes = [
        (DrawingType::Coin, DrawingSize::Small, 6),
        (DrawingType::Coin, DrawingSize::Medium, 18),
        (DrawingType::Coin, DrawingSize::Large, 22),
        (DrawingType::Rock, DrawingSize::Small, 8),
        (DrawingType::Rock, DrawingSize::Medium, 13),
        (DrawingType::Rock, DrawingSize::Large, 23),
        (DrawingType::Tree, DrawingSize::Small, 12),
        (DrawingType::Tree, DrawingSize::Medium, 20),
        (DrawingType::Tree, DrawingSize::Large, 25),
        (DrawingType::JollyBlock, DrawingSize::Small, 8),
        (DrawingType::JollyBlock, DrawingSize::Medium, 17),
        (DrawingType::JollyBlock, DrawingSize::Large, 12),
    ];
    for (kind, size, n) in sizes {
        let d = make_drawing(kind, Plot::new(), size);
        assert_eq!(d.drawing_type(), kind);
        assert!(!d.is_done());
        let mut count = 0;
        let mut d = d;
        while d.get_pixel().is_some() {
            d.increase_pixel_index();
            count += 1;
        }
        assert_eq!(count, n);
    }
}

#[test]
fn jolly_block_large_pixels() {
    let d = make_drawing(DrawingType::JollyBlock, plot((1, 1), (6, 8)), DrawingSize::Large);
    match d {
        Drawing::JollyBlock(j) => {
            assert_eq!(j.blueprint.pixels[0], (1, 2));
            assert_eq!(*j.blueprint.pixels.last().unwrap(), (8, 3));
        }
        _ => panic!("wrong kind"),
    }
}

#[test]
fn plots_overlap_by_their_corners() {
    assert!(is_plot_inside_other((1, 1), (3, 3), (0, 0), (2, 2)));
    assert!(is_plot_inside_other((5, 5), (8, 8), (6, 6), (9, 9)));
    assert!(!is_plot_inside_other((0, 0), (9, 9), (3, 3), (4, 4)));
    assert!(!is_plot_inside_other((0, 5), (2, 6), (0, 0), (2, 2)));
}

#[test]
fn tile_inside_plot_includes_the_border() {
    let p = plot((2, 2), (4, 5));
    assert!(is_tile_inside_plot((2, 2), &p));
    assert!(is_tile_inside_plot((4, 5), &p));
    assert!(is_tile_inside_plot((3, 4), &p));
    assert!(!is_tile_inside_plot((1, 3), &p));
    assert!(!is_tile_inside_plot((3, 6), &p));
}

#[test]
fn every_drawing_counts() {
    let first = make_drawing(DrawingType::Coin, plot((0, 0), (2, 3)), DrawingSize::Small);
    let second = make_drawing(DrawingType::Rock, plot((10, 10), (12, 13)), DrawingSize::Small);
    let drawings = vec![first, second];
    assert!(is_tile_in_drawings((11, 11), &drawings));
    assert!(is_tile_in_drawings((1, 1), &drawings));
    assert!(!is_tile_in_drawings((5, 5), &drawings));
    assert!(!is_tile_in_drawings((1, 1), &vec![]));
}

#[test]
fn a_tile_under_an_earlier_drawing_is_in_the_drawings() {
    let coin = Coin::new(plot((0, 0), (1, 1)), Blueprint::new(), DrawingSize::Small);
    let rock = Rock::new(plot((5, 5), (6, 6)), Blueprint::new(), DrawingSize::Small);
    let drawings = vec![Drawing::Coin(coin), Drawing::Rock(rock)];
    assert!(is_tile_in_drawings((0, 0), &drawings));
}

#[test]
fn a_new_plot_overlaps_no_earlier_drawing() {
    let g = field(8, 8);
    let first = make_drawing(DrawingType::Coin, plot((0, 0), (2, 2)), DrawingSize::Small);
    let second = make_drawing(DrawingType::Rock, plot((5, 5), (7, 7)), DrawingSize::Small);
    let p = find_plot_from_map(Some(g), (3, 3), DrawingType::Tree, &vec![first, second]).unwrap();
    assert_eq!(p.top_left, (0, 3));
    let g = field(6, 6);
    let first = make_drawing(DrawingType::Coin, plot((0, 0), (5, 2)), DrawingSize::Small);
    let second = make_drawing(DrawingType::Rock, plot((0, 3), (2, 5)), DrawingSize::Small);
    let p = find_plot_from_map(Some(g), (3, 3), DrawingType::Coin, &vec![first, second]).unwrap();
    assert_eq!(p.top_left, (3, 3));
    assert_eq!(p.bottom_right, (5, 5));
}

#[test]
fn robot_on_pixel() {
    assert!(is_robot_on_next_pixel((3, 4), (3, 4)));
    assert!(!is_robot_on_next_pixel((3, 4), (4, 3)));
    assert!(!is_robot_on_next_pixel((3, 4), (3, 5)));
}

#[test]
fn first_free_plot_on_an_empty_field() {
    let map = Some(field(6, 6));
    assert!(plot_search_safe(&map, (3, 4), DrawingType::Coin, &vec![]));
    let p = find_plot_from_map(map, (3, 4), DrawingType::Coin, &vec![]).unwrap();
    assert_eq!(p.top_left, (0, 0));
    assert_eq!(p.bottom_right, (2, 3));
}

#[test]
fn plot_skips_occupied_tiles() {
    let mut g = field(6, 6);
    g[0][1] = tile(TileType::Grass, Content::Rock(1));
    let p = find_plot_from_map(Some(g), (2, 2), DrawingType::Rock, &vec![]).unwrap();
    assert_eq!(p.top_left, (0, 2));
    assert_eq!(p.bottom_right, (1, 3));
}

#[test]
fn trees_are_not_drawn_on_sand() {
    let mut g = field(4, 4);
    for x in 0..4 {
        g[0][x] = tile(TileType::Sand, Content::Nothing);
    }
    let p = find_plot_from_map(Some(g.clone()), (2, 2), DrawingType::Tree, &vec![]).unwrap();
    assert_eq!(p.top_left, (1, 0));
    let p = find_plot_from_map(Some(g), (2, 2), DrawingType::Coin, &vec![]).unwrap();
    assert_eq!(p.top_left, (0, 0));
}

#[test]
fn plot_avoids_the_last_drawing() {
    let g = field(8, 8);
    let d = make_drawing(DrawingType::JollyBlock, plot((0, 0), (2, 2)), DrawingSize::Small);
    let p = find_plot_from_map(Some(g), (3, 3), DrawingType::JollyBlock, &vec![d]).unwrap();
    assert_eq!(p.top_left, (0, 3));
    assert_eq!(p.bottom_right, (2, 5));
}

#[test]
fn no_plot_without_a_map_or_room() {
    let e = find_plot_from_map(None, (3, 3), DrawingType::Coin, &vec![]).unwrap_err();
    assert_eq!(e, "couldnt setup the plot");
    let full = vec![vec![tile(TileType::Grass, Content::Rock(1)); 4]; 4];
    let e = find_plot_from_map(Some(full), (2, 2), DrawingType::Coin, &vec![]).unwrap_err();
    assert_eq!(e, "couldnt setup the plot");
    let water = vec![vec![tile(TileType::DeepWater, Content::Nothing); 4]; 4];
    assert!(find_plot_from_map(Some(water), (1, 1), DrawingType::Coin, &vec![]).is_err());
}

#[test]
fn plot_status_reports_edges() {
    let g = field(4, 4);
    assert_eq!(plot_status(&g, &vec![], DrawingType::Coin, 0, 0, 2, 2), PlotStatus::Clear);
    assert_eq!(plot_status(&g, &vec![], DrawingType::Coin, 3, 3, 2, 2), PlotStatus::OffGrid);
    let mut g2 = field(4, 4);
    g2[0][0] = tile(TileType::Lava, Content::Nothing);
    assert_eq!(plot_status(&g2, &vec![], DrawingType::Coin, 0, 0, 2, 2), PlotStatus::Blocked);
    assert!(!plot_search_safe(&Some(field(2, 2)), (3, 3), DrawingType::Coin, &vec![]));
    assert!(plot_search_safe(&None, (3, 3), DrawingType::Coin, &vec![]));
}

#[test]
fn gettable_tiles_hold_more_than_a_spent_unit() {
    let mut g = field(2, 2);
    g[0][0] = tile(TileType::Grass, Content::Coin(1));
    g[0][1] = tile(TileType::Grass, Content::Coin(5));
    g[1][0] = None;
    assert!(!is_tile_gettable(Some(g.clone()), (0, 0), DrawingType::Coin));
    assert!(is_tile_gettable(Some(g.clone()), (0, 1), DrawingType::Coin));
    assert!(is_tile_gettable(Some(g.clone()), (0, 0), DrawingType::Rock));
    assert!(!is_tile_gettable(Some(g.clone()), (1, 0), DrawingType::Coin));
    assert!(is_tile_gettable(Some(g), (1, 1), DrawingType::Tree));
    assert!(!is_tile_gettable(None, (0, 0), DrawingType::Coin));
}

#[test]
fn draws_pick_kinds_and_sizes() {
    assert_eq!(drawing_type_from_draw(0), DrawingType::Coin);
    assert_eq!(drawing_type_from_draw(1), DrawingType::Rock);
    assert_eq!(drawing_type_from_draw(2), DrawingType::Tree);
    assert_eq!(drawing_type_from_draw(3), DrawingType::JollyBlock);
    assert_eq!(plot_size_from_draw(DrawingType::Coin, 50), ((3, 4), DrawingSize::Small));
    assert_eq!(plot_size_from_draw(DrawingType::Coin, 51), ((5, 8), DrawingSize::Medium));
    assert_eq!(plot_size_from_draw(DrawingType::Coin, 86), ((7, 10), DrawingSize::Large));
    assert_eq!(plot_size_from_draw(DrawingType::Rock, 40), ((3, 4), DrawingSize::Small));
    assert_eq!(plot_size_from_draw(DrawingType::Rock, 75), ((4, 6), DrawingSize::Medium));
    assert_eq!(plot_size_from_draw(DrawingType::Rock, 76), ((6, 7), DrawingSize::Large));
    assert_eq!(plot_size_from_draw(DrawingType::Tree, 0), ((5, 5), DrawingSize::Small));
    assert_eq!(plot_size_from_draw(DrawingType::Tree, 85), ((7, 6), DrawingSize::Medium));
    assert_eq!(plot_size_from_draw(DrawingType::Tree, 100), ((9, 7), DrawingSize::Large));
    assert_eq!(plot_size_from_draw(DrawingType::JollyBlock, 55), ((3, 3), DrawingSize::Small));
    assert_eq!(plot_size_from_draw(DrawingType::JollyBlock, 60), ((5, 5), DrawingSize::Medium));
    assert_eq!(plot_size_from_draw(DrawingType::JollyBlock, 90), ((6, 8), DrawingSize::Large));
}

#[test]
fn random_draws_give_known_sizes() {
    let _ = get_random_drawing_type();
    for _ in 0..50 {
        let (size, dsize) = get_random_plot_size(DrawingType::Rock);
        assert!(
            (size == (3, 4) && dsize == DrawingSize::Small)
                || (size == (4, 6) && dsize == DrawingSize::Medium)
                || (size == (6, 7) && dsize == DrawingSize::Large)
        );
    }
}

#[test]
fn ragged_rows_after_the_plot_are_never_read() {
    let g = vec![vec![tile(TileType::Grass, Content::Nothing)], vec![]];
    let map = Some(g);
    assert!(plot_search_safe(&map, (1, 1), DrawingType::Coin, &vec![]));
    let p = find_plot_from_map(map, (1, 1), DrawingType::Coin, &vec![]).unwrap();
    assert_eq!(p.top_left, (0, 0));
    assert_eq!(p.bottom_right, (0, 0));
}

#[test]
fn a_short_row_before_the_plot_is_refused() {
    let rock = tile(TileType::Grass, Content::Rock(1));
    let g = vec![vec![rock, rock], vec![tile(TileType::Grass, Content::Nothing)]];
    let map = Some(g.clone());
    assert!(plot_search_safe(&map, (1, 1), DrawingType::Coin, &vec![]));
    let p = find_plot_from_map(map, (1, 1), DrawingType::Coin, &vec![]).unwrap();
    assert_eq!(p.top_left, (1, 0));
    let g2 = vec![vec![rock, rock], vec![rock]];
    assert!(!plot_search_safe(&Some(g2), (1, 1), DrawingType::Coin, &vec![]));
}

#[test]
fn tree_pixels_fill_their_plot_in_order() {
    for (n, count) in [(0u32, 12usize), (60, 20), (90, 25)] {
        let (size, dsize) = plot_size_from_draw(DrawingType::Tree, n);
        let p = plot((2, 3), (2 + size.0 - 1, 3 + size.1 - 1));
        let mut t = Tree::new(p, Blueprint::new(), dsize);
        t.set_blueprint();
        let px = t.blueprint.pixels.clone();
        assert_eq!(px.len(), count);
        assert!(px.iter().all(|c| is_tile_inside_plot(*c, &t.plot)));
        assert!(px.windows(2).all(|w| w[0] < w[1]));
    }
}

#[test]
fn laying_a_blueprint_out_twice_changes_nothing() {
    let mut c = Coin::new(plot((4, 4), (8, 11)), Blueprint::new(), DrawingSize::Medium);
    c.set_blueprint();
    c.increase_pixel_index();
    let once = c.blueprint.pixels.clone();
    c.set_blueprint();
    assert_eq!(c.blueprint.pixels, once);
    assert_eq!(c.blueprint.pixel_index, 1);
    assert_eq!(c.plot.top_left, (4, 4));
}
