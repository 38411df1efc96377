use std::collections::BTreeSet;

use rand::rngs::StdRng;
use rand::SeedableRng;
use tile_wfc::direction::Direction;
use tile_wfc::grid::Position;
use tile_wfc::scene::{Placement, Scene};
use tile_wfc::tile::Tile;
use tile_wfc::tile_data::TileData;
use tile_wfc::wave_function_collapse::{PlacementStrategy, WFC};

fn tile(model: usize, weight: u32, edges: [&str; 4]) -> TileData {
    TileData {
        model,
        weight,
        up_edge: edges[0].to_string(),
        right_edge: edges[1].to_string(),
        down_edge: edges[2].to_string(),
        left_edge: edges[3].to_string(),
        up_edge_suffix: None,
        right_edge_suffix: None,
        down_edge_suffix: None,
        left_edge_suffix: None,
    }
}

fn fresh_tiles(catalog: &Vec<TileData>, map_size: usize) -> (Vec<Tile>, BTreeSet<usize>) {
    let mut scene = Scene::new();
    let solver = WFC::new(&mut scene);
    let mut tiles = Vec::new();
    let mut open = BTreeSet::new();
    for i in 0..map_size * map_size {
        tiles.push(Tile::new(
            (0..catalog.len()).collect(),
            solver.index1dto2d(i, map_size),
        ));
        open.insert(i);
    }
    (tiles, open)
}

fn strategies() -> [PlacementStrategy; 4] {
    [
        PlacementStrategy::Random,
        PlacementStrategy::Growing,
        PlacementStrategy::Ordered,
        PlacementStrategy::LeastEntropy,
    ]
}

/// Two tiles, none of whose edges fits any edge that can face it.
fn clashing_catalog() -> Vec<TileData> {
    vec![
        tile(0, 1, ["a1", "a2", "a3", "a4"]),
        tile(1, 1, ["b1", "b2", "b3", "b4"]),
    ]
}

#[test]
fn index_and_position_round_trip() {
    let mut scene = Scene::new();
    let solver = WFC::new(&mut scene);
    for map_size in 1..=7usize {
        for y in 0..map_size {
            for x in 0..map_size {
                let index = solver.index2dto1d(Position { x, y }, map_size);
                assert_eq!(index, y * map_size + x);
                assert_eq!(solver.index1dto2d(index, map_size), Position { x, y });
            }
        }
    }
    assert_eq!(solver.index2dto1d(Position { x: 2, y: 3 }, 5), 17);
    assert_eq!(solver.index1dto2d(17, 5), Position { x: 2, y: 3 });
}

#[test]
fn within_grid_accepts_exactly_the_grid() {
    let mut scene = Scene::new();
    let solver = WFC::new(&mut scene);
    assert!(solver.within_grid((0, 0), 3));
    assert!(solver.within_grid((2, 2), 3));
    assert!(!solver.within_grid((3, 0), 3));
    assert!(!solver.within_grid((0, 3), 3));
    assert!(!solver.within_grid((-1, 0), 3));
    assert!(!solver.within_grid((0, -1), 3));
    assert!(!solver.within_grid((0, 0), 0));
}

#[test]
fn opposite_is_an_involution() {
    for direction in Direction::iterator() {
        assert_eq!(direction.get_opposite().get_opposite(), direction);
        assert_ne!(direction.get_opposite(), direction);
    }
    assert_eq!(Direction::Up.get_opposite(), Direction::Down);
    assert_eq!(Direction::Right.get_opposite(), Direction::Left);
}

#[test]
fn directions_come_in_visiting_order_with_unit_vectors() {
    assert_eq!(
        Direction::iterator(),
        [Direction::Up, Direction::Right, Direction::Down, Direction::Left]
    );
    assert_eq!(Direction::Up.get_vector(), (0, 1));
    assert_eq!(Direction::Right.get_vector(), (1, 0));
    assert_eq!(Direction::Down.get_vector(), (0, -1));
    assert_eq!(Direction::Left.get_vector(), (-1, 0));
    for direction in Direction::iterator() {
        let there = direction.get_vector();
        let back = direction.get_opposite().get_vector();
        assert_eq!((there.0 + back.0, there.1 + back.1), (0, 0));
    }
}

#[test]
fn edges_and_suffixes_are_read_by_direction() {
    let mut data = tile(0, 1, ["u", "r", "d", "l"]);
    data.right_edge_suffix = Some("x".to_string());
    assert_eq!(data.get_edge(Direction::Up), "u");
    assert_eq!(data.get_edge(Direction::Right), "r");
    assert_eq!(data.get_edge(Direction::Down), "d");
    assert_eq!(data.get_edge(Direction::Left), "l");
    assert_eq!(data.get_suffix(Direction::Up), None);
    assert_eq!(data.get_suffix(Direction::Right), Some("x"));
}

#[test]
fn check_edge_compares_labels() {
    let data = tile(0, 1, ["grass", "road", "grass", "road"]);
    assert!(data.check_edge(Direction::Up, "grass", None));
    assert!(!data.check_edge(Direction::Up, "road", None));
    assert!(!data.check_edge(Direction::Up, "gras", None));
    assert!(data.check_edge(Direction::Left, "road", None));
    assert!(!data.check_edge(Direction::Left, "", None));
}

#[test]
fn check_edge_refuses_equal_suffixes_on_both_sides() {
    let mut data = tile(0, 1, ["grass", "road", "grass", "road"]);
    data.up_edge_suffix = Some("a".to_string());
    assert!(data.check_edge(Direction::Up, "grass", None));
    assert!(data.check_edge(Direction::Up, "grass", Some("b")));
    assert!(!data.check_edge(Direction::Up, "grass", Some("a")));
    assert!(!data.check_edge(Direction::Up, "road", Some("b")));
    // An edge without a suffix of its own takes any suffix.
    assert!(data.check_edge(Direction::Down, "grass", Some("a")));
}

#[test]
fn instantiate_model_appends_to_the_scene() {
    let mut scene = Scene::new();
    assert!(scene.placements.is_empty());
    scene.instantiate_model(7, Position { x: 1, y: 2 });
    scene.instantiate_model(3, Position { x: 0, y: 0 });
    assert_eq!(
        scene.placements,
        vec![Placement { model: 7, x: 1, y: 2 }, Placement { model: 3, x: 0, y: 0 }]
    );
    assert!(Scene::default().placements.is_empty());
}

#[test]
fn remove_options_keeps_what_fits_in_order() {
    let catalog = vec![
        tile(0, 1, ["a", "a", "a", "a"]),
        tile(1, 1, ["b", "b", "b", "b"]),
        tile(2, 1, ["a", "b", "a", "b"]),
    ];
    let mut cell = Tile::new(vec![2, 0, 1, 2], Position { x: 0, y: 0 });
    assert!(!cell.remove_options(&catalog, Direction::Up, "a", None));
    assert_eq!(cell.possible_tiles, vec![2, 0, 2]);
    assert!(!cell.remove_options(&catalog, Direction::Right, "b", None));
    assert_eq!(cell.possible_tiles, vec![2, 2]);
    assert_eq!(cell.data, None);
    assert_eq!(cell.tile_position, Position { x: 0, y: 0 });
}

#[test]
fn remove_options_is_idempotent() {
    let catalog = vec![
        tile(0, 1, ["a", "a", "a", "a"]),
        tile(1, 1, ["b", "b", "b", "b"]),
    ];
    let mut cell = Tile::new(vec![0, 1], Position { x: 0, y: 0 });
    cell.remove_options(&catalog, Direction::Down, "b", None);
    let once = cell.possible_tiles.clone();
    cell.remove_options(&catalog, Direction::Down, "b", None);
    assert_eq!(cell.possible_tiles, once);
    assert_eq!(once, vec![1]);
}

#[test]
fn candidates_only_shrink_and_stay_empty() {
    let catalog = vec![
        tile(0, 1, ["a", "b", "c", "d"]),
        tile(1, 1, ["a", "b", "x", "d"]),
        tile(2, 1, ["a", "y", "c", "d"]),
    ];
    let mut cell = Tile::new(vec![0, 1, 2], Position { x: 0, y: 0 });
    let requests = [
        (Direction::Up, "a"),
        (Direction::Right, "b"),
        (Direction::Down, "c"),
        (Direction::Left, "nothing"),
        (Direction::Up, "a"),
    ];
    let mut sizes = vec![cell.possible_tiles.len()];
    for (direction, edge) in requests {
        let impossible = cell.remove_options(&catalog, direction, edge, None);
        assert_eq!(impossible, cell.possible_tiles.is_empty());
        sizes.push(cell.possible_tiles.len());
    }
    assert_eq!(sizes, vec![3, 3, 2, 1, 0, 0]);
}

#[test]
fn collapse_places_the_only_candidate() {
    let catalog = vec![tile(40, 5, ["a", "a", "a", "a"]), tile(41, 2, ["b", "b", "b", "b"])];
    let mut scene = Scene::new();
    let mut random = StdRng::seed_from_u64(1);
    let mut cell = Tile::new(vec![1], Position { x: 4, y: 9 });
    assert!(cell.collapse(&catalog, &mut scene, &mut random));
    assert_eq!(cell.data, Some(1));
    assert!(cell.possible_tiles.is_empty());
    assert_eq!(scene.placements, vec![Placement { model: 41, x: 4, y: 9 }]);
}

#[test]
fn collapse_to_takes_the_chosen_candidate() {
    let catalog = vec![
        tile(10, 1, ["a", "a", "a", "a"]),
        tile(11, 1, ["b", "b", "b", "b"]),
        tile(12, 1, ["c", "c", "c", "c"]),
    ];
    let mut scene = Scene::new();
    let mut cell = Tile::new(vec![2, 0, 1], Position { x: 1, y: 0 });
    cell.collapse_to(&catalog, &mut scene, 1);
    assert_eq!(cell.data, Some(0));
    assert!(cell.possible_tiles.is_empty());
    assert_eq!(scene.placements, vec![Placement { model: 10, x: 1, y: 0 }]);
}

#[test]
fn collapse_twice_second_call_does_nothing() {
    let catalog = vec![tile(0, 1, ["a", "a", "a", "a"]), tile(1, 1, ["b", "b", "b", "b"])];
    let mut scene = Scene::new();
    let mut random = StdRng::seed_from_u64(7);
    let mut cell = Tile::new(vec![0, 1], Position { x: 0, y: 0 });
    assert!(cell.collapse(&catalog, &mut scene, &mut random));
    let resolved = cell.data;
    assert!(resolved.is_some());
    assert!(!cell.collapse(&catalog, &mut scene, &mut random));
    assert_eq!(cell.data, resolved);
    assert!(cell.possible_tiles.is_empty());
    assert_eq!(scene.placements.len(), 1);
}

#[test]
fn collapse_of_a_contradiction_does_nothing() {
    let catalog = vec![tile(0, 1, ["a", "a", "a", "a"])];
    let mut scene = Scene::new();
    let mut random = StdRng::seed_from_u64(7);
    let mut cell = Tile::new(vec![], Position { x: 0, y: 0 });
    assert!(!cell.collapse(&catalog, &mut scene, &mut random));
    assert_eq!(cell.data, None);
    assert!(scene.placements.is_empty());
}

#[test]
fn weighted_draw_favours_the_heavier_tile() {
    let catalog = vec![tile(0, 1, ["a", "a", "a", "a"]), tile(1, 3, ["a", "a", "a", "a"])];
    let mut scene = Scene::new();
    let mut random = StdRng::seed_from_u64(2024);
    let mut light = 0u32;
    let mut heavy = 0u32;
    for _ in 0..10_000 {
        let mut cell = Tile::new(vec![0, 1], Position { x: 0, y: 0 });
        assert!(cell.collapse(&catalog, &mut scene, &mut random));
        match cell.data {
            Some(0) => light += 1,
            Some(1) => heavy += 1,
            other => panic!("resolved to {:?}", other),
        }
    }
    assert_eq!(light + heavy, 10_000);
    // Expected 2500 and 7500; the bounds leave room for more than ten standard deviations.
    assert!(light > 2000 && light < 3000, "light = {}", light);
    assert!(heavy > 7000 && heavy < 8000, "heavy = {}", heavy);
}

#[test]
fn collapse_tile_constrains_the_four_neighbours() {
    let catalog = vec![
        tile(0, 1, ["n", "e", "s", "w"]),
        tile(1, 1, ["s", "w", "n", "e"]),
        tile(2, 1, ["x", "x", "x", "x"]),
    ];
    let (mut tiles, mut open) = fresh_tiles(&catalog, 3);
    tiles[4].possible_tiles = vec![0];
    let mut scene = Scene::new();
    let mut random = StdRng::seed_from_u64(3);
    {
        let mut solver = WFC::new(&mut scene);
        solver.collapse_tile(&catalog, &mut tiles, &mut open, 4, &mut random, 3);
    }
    assert_eq!(tiles[4].data, Some(0));
    assert_eq!(scene.placements, vec![Placement { model: 0, x: 1, y: 1 }]);
    // Above (cell 7) the down edge must read "n", right (cell 5) the left edge "e",
    // below (cell 1) the up edge "s", left (cell 3) the right edge "w": tile 1 in each case.
    for neighbour in [7, 5, 1, 3] {
        assert_eq!(tiles[neighbour].possible_tiles, vec![1]);
    }
    for corner in [0, 2, 6, 8] {
        assert_eq!(tiles[corner].possible_tiles, vec![0, 1, 2]);
    }
    assert_eq!(open, BTreeSet::from([0, 1, 2, 3, 5, 6, 7, 8]));
}

#[test]
fn collapse_tile_skips_neighbours_off_the_grid() {
    let catalog = vec![tile(0, 1, ["a", "a", "a", "a"]), tile(1, 1, ["b", "b", "b", "b"])];
    let (mut tiles, mut open) = fresh_tiles(&catalog, 2);
    tiles[0].possible_tiles = vec![1];
    let mut scene = Scene::new();
    let mut random = StdRng::seed_from_u64(3);
    {
        let mut solver = WFC::new(&mut scene);
        solver.collapse_tile(&catalog, &mut tiles, &mut open, 0, &mut random, 2);
    }
    assert_eq!(tiles[0].data, Some(1));
    assert_eq!(tiles[1].possible_tiles, vec![1]);
    assert_eq!(tiles[2].possible_tiles, vec![1]);
    assert_eq!(tiles[3].possible_tiles, vec![0, 1]);
    assert_eq!(open, BTreeSet::from([1, 2, 3]));
}

#[test]
fn collapse_tile_on_a_resolved_cell_changes_nothing() {
    let catalog = vec![tile(0, 1, ["a", "a", "a", "a"])];
    let (mut tiles, mut open) = fresh_tiles(&catalog, 2);
    let mut scene = Scene::new();
    let mut random = StdRng::seed_from_u64(3);
    let mut solver = WFC::new(&mut scene);
    solver.collapse_tile(&catalog, &mut tiles, &mut open, 1, &mut random, 2);
    let open_before = open.clone();
    solver.collapse_tile(&catalog, &mut tiles, &mut open, 1, &mut random, 2);
    assert_eq!(open, open_before);
    assert_eq!(solver.scene.placements.len(), 1);
}

#[test]
fn collapse_center_tile_takes_the_middle_cell() {
    let catalog = vec![tile(5, 1, ["a", "a", "a", "a"])];
    let (mut tiles, mut open) = fresh_tiles(&catalog, 5);
    let mut scene = Scene::new();
    let mut random = StdRng::seed_from_u64(3);
    {
        let mut solver = WFC::new(&mut scene);
        solver.collapse_center_tile(&catalog, &mut tiles, &mut open, &mut random, 5);
    }
    assert_eq!(tiles[12].data, Some(0));
    assert!(!open.contains(&12));
    assert_eq!(open.len(), 24);
    assert_eq!(scene.placements, vec![Placement { model: 5, x: 2, y: 2 }]);
}

#[test]
fn least_entropy_tile_finds_the_first_smallest() {
    let catalog = vec![
        tile(0, 1, ["a", "a", "a", "a"]),
        tile(1, 1, ["a", "a", "a", "a"]),
        tile(2, 1, ["a", "a", "a", "a"]),
    ];
    let (mut tiles, mut open) = fresh_tiles(&catalog, 3);
    let mut scene = Scene::new();
    let solver = WFC::new(&mut scene);
    assert_eq!(solver.least_entropy_tile(&tiles, &open), Some(0));
    tiles[6].possible_tiles = vec![0, 1];
    tiles[3].possible_tiles = vec![2, 1];
    tiles[8].possible_tiles = vec![2];
    assert_eq!(solver.least_entropy_tile(&tiles, &open), Some(8));
    open.remove(&8);
    assert_eq!(solver.least_entropy_tile(&tiles, &open), Some(3));
    open.remove(&3);
    assert_eq!(solver.least_entropy_tile(&tiles, &open), Some(6));
    open.clear();
    assert_eq!(solver.least_entropy_tile(&tiles, &open), None);
}

#[test]
fn single_grass_tile_fills_a_three_by_three_grid_in_order() {
    let catalog = vec![tile(9, 1, ["grass", "grass", "grass", "grass"])];
    let mut scene = Scene::new();
    let mut random = StdRng::seed_from_u64(11);
    {
        let mut solver = WFC::new(&mut scene);
        solver.place_tiles(PlacementStrategy::Ordered, 3, 100, &mut random, &catalog);
    }
    let expected: Vec<Placement> = (0..9)
        .map(|i| Placement { model: 9, x: i % 3, y: i / 3 })
        .collect();
    assert_eq!(scene.placements, expected);
}

#[test]
fn ordered_strategy_resolves_every_cell_in_order() {
    let catalog = vec![
        tile(0, 1, ["g", "g", "g", "g"]),
        tile(1, 2, ["g", "g", "g", "g"]),
        tile(2, 3, ["g", "g", "g", "g"]),
    ];
    let map_size = 4;
    let (mut tiles, mut open) = fresh_tiles(&catalog, map_size);
    let mut scene = Scene::new();
    let mut random = StdRng::seed_from_u64(5);
    let mut iterations = 0;
    {
        let mut solver = WFC::new(&mut scene);
        solver.ordered_placement_strategy(
            &catalog,
            &mut tiles,
            &mut open,
            &mut iterations,
            map_size,
            16,
            &mut random,
        );
    }
    assert_eq!(iterations, 16);
    assert!(open.is_empty());
    assert_eq!(scene.placements.len(), 16);
    for (i, placement) in scene.placements.iter().enumerate() {
        assert_eq!((placement.x, placement.y), (i % map_size, i / map_size));
        assert_eq!(tiles[i].data, Some(placement.model));
        assert!(tiles[i].possible_tiles.is_empty());
    }
}

#[test]
fn ordered_strategy_stops_at_the_budget() {
    let catalog = vec![tile(0, 1, ["g", "g", "g", "g"])];
    let (mut tiles, mut open) = fresh_tiles(&catalog, 3);
    let mut scene = Scene::new();
    let mut random = StdRng::seed_from_u64(5);
    let mut iterations = 0;
    {
        let mut solver = WFC::new(&mut scene);
        solver.ordered_placement_strategy(
            &catalog,
            &mut tiles,
            &mut open,
            &mut iterations,
            3,
            4,
            &mut random,
        );
    }
    assert_eq!(iterations, 4);
    assert_eq!(scene.placements.len(), 4);
    assert_eq!(open, BTreeSet::from([4, 5, 6, 7, 8]));
    assert!(tiles[3].data.is_some());
    assert!(tiles[4].data.is_none());
}

#[test]
fn every_strategy_fills_a_grid_of_compatible_tiles() {
    let catalog = vec![tile(0, 1, ["g", "g", "g", "g"]), tile(1, 4, ["g", "g", "g", "g"])];
    for strategy in strategies() {
        let mut scene = Scene::new();
        let mut random = StdRng::seed_from_u64(21);
        {
            let mut solver = WFC::new(&mut scene);
            solver.place_tiles(strategy, 5, 1000, &mut random, &catalog);
        }
        let mut cells: Vec<(usize, usize)> =
            scene.placements.iter().map(|p| (p.x, p.y)).collect();
        cells.sort();
        cells.dedup();
        assert_eq!(cells.len(), 25, "{:?}", strategy);
        assert_eq!(scene.placements.len(), 25, "{:?}", strategy);
    }
}

#[test]
fn strategies_that_start_in_the_middle_place_the_centre_first() {
    let catalog = vec![tile(0, 1, ["g", "g", "g", "g"])];
    for strategy in [
        PlacementStrategy::Random,
        PlacementStrategy::Growing,
        PlacementStrategy::LeastEntropy,
    ] {
        let mut scene = Scene::new();
        let mut random = StdRng::seed_from_u64(8);
        {
            let mut solver = WFC::new(&mut scene);
            solver.place_tiles(strategy, 5, 1000, &mut random, &catalog);
        }
        assert_eq!(scene.placements[0], Placement { model: 0, x: 2, y: 2 }, "{:?}", strategy);
    }
}

#[test]
fn growing_strategy_spreads_breadth_first() {
    let catalog = vec![tile(0, 1, ["g", "g", "g", "g"])];
    let mut scene = Scene::new();
    let mut random = StdRng::seed_from_u64(8);
    {
        let mut solver = WFC::new(&mut scene);
        solver.place_tiles(PlacementStrategy::Growing, 3, 1000, &mut random, &catalog);
    }
    let order: Vec<(usize, usize)> = scene.placements.iter().map(|p| (p.x, p.y)).collect();
    // The centre, its neighbours up, right, down, left, then the corners as
    // the neighbours' own neighbours come up.
    assert_eq!(
        order,
        vec![(1, 1), (1, 2), (2, 1), (1, 0), (0, 1), (2, 2), (0, 2), (2, 0), (0, 0)]
    );
}

#[test]
fn budget_bounds_the_number_of_placements() {
    let catalog = vec![tile(0, 1, ["g", "g", "g", "g"])];
    for strategy in strategies() {
        let mut scene = Scene::new();
        let mut random = StdRng::seed_from_u64(13);
        {
            let mut solver = WFC::new(&mut scene);
            solver.place_tiles(strategy, 6, 10, &mut random, &catalog);
        }
        // Random and least entropy place the centre before they start to count.
        let allowed = match strategy {
            PlacementStrategy::Random | PlacementStrategy::LeastEntropy => 11,
            PlacementStrategy::Growing | PlacementStrategy::Ordered => 10,
        };
        assert_eq!(scene.placements.len(), allowed, "{:?}", strategy);
    }
}

#[test]
fn same_seed_gives_the_same_layout() {
    let catalog = vec![
        tile(0, 1, ["a", "b", "a", "b"]),
        tile(1, 3, ["b", "a", "b", "a"]),
        tile(2, 2, ["a", "a", "a", "a"]),
        tile(3, 5, ["b", "b", "b", "b"]),
    ];
    for strategy in strategies() {
        let mut layouts = Vec::new();
        for _ in 0..2 {
            let mut scene = Scene::new();
            let mut random = StdRng::seed_from_u64(99);
            {
                let mut solver = WFC::new(&mut scene);
                solver.place_tiles(strategy, 8, 500, &mut random, &catalog);
            }
            layouts.push(scene.placements);
        }
        assert!(!layouts[0].is_empty());
        assert_eq!(layouts[0], layouts[1], "{:?}", strategy);
    }
}

#[test]
fn placed_neighbours_show_matching_edges() {
    let catalog = vec![
        tile(0, 1, ["a", "b", "a", "b"]),
        tile(1, 3, ["b", "a", "b", "a"]),
        tile(2, 2, ["a", "a", "a", "a"]),
        tile(3, 5, ["b", "b", "b", "b"]),
    ];
    let map_size = 6;
    for strategy in strategies() {
        let mut scene = Scene::new();
        let mut random = StdRng::seed_from_u64(4);
        {
            let mut solver = WFC::new(&mut scene);
            solver.place_tiles(strategy, map_size, 1000, &mut random, &catalog);
        }
        let mut grid: Vec<Option<usize>> = vec![None; map_size * map_size];
        for placement in &scene.placements {
            let index = placement.y * map_size + placement.x;
            assert_eq!(grid[index], None);
            grid[index] = Some(placement.model);
        }
        for y in 0..map_size {
            for x in 0..map_size {
                let Some(here) = grid[y * map_size + x] else { continue };
                if x + 1 < map_size {
                    if let Some(right) = grid[y * map_size + x + 1] {
                        assert_eq!(catalog[here].right_edge, catalog[right].left_edge);
                    }
                }
                if y + 1 < map_size {
                    if let Some(up) = grid[(y + 1) * map_size + x] {
                        assert_eq!(catalog[here].up_edge, catalog[up].down_edge);
                    }
                }
            }
        }
    }
}

#[test]
fn clashing_tiles_leave_the_neighbours_of_the_centre_empty() {
    let catalog = clashing_catalog();
    let (mut tiles, mut open) = fresh_tiles(&catalog, 3);
    let mut scene = Scene::new();
    let mut random = StdRng::seed_from_u64(17);
    let mut iterations = 0;
    {
        let mut solver = WFC::new(&mut scene);
        // One iteration: the centre cell collapses and nothing else.
        solver.growing_placement_strategy(
            &catalog,
            &mut tiles,
            &mut open,
            &mut iterations,
            3,
            1,
            &mut random,
        );
        assert_eq!(iterations, 1);
        assert!(tiles[4].data.is_some());
        for neighbour in [1, 3, 5, 7] {
            assert!(tiles[neighbour].possible_tiles.is_empty());
            assert_eq!(tiles[neighbour].data, None);
            assert!(!open.contains(&neighbour));
        }
        assert_eq!(open, BTreeSet::from([0, 2, 6, 8]));
        // With the rest of the budget the run still ends, and the four cells stay empty.
        let mut queue_budget = 1;
        solver.growing_placement_strategy(
            &catalog,
            &mut tiles,
            &mut open,
            &mut queue_budget,
            3,
            100,
            &mut random,
        );
    }
    for neighbour in [1, 3, 5, 7] {
        assert_eq!(tiles[neighbour].data, None);
    }
    assert_eq!(scene.placements.len(), 1);
}

#[test]
fn clashing_tiles_end_every_strategy_without_error() {
    let catalog = clashing_catalog();
    for strategy in strategies() {
        let mut scene = Scene::new();
        let mut random = StdRng::seed_from_u64(17);
        {
            let mut solver = WFC::new(&mut scene);
            solver.place_tiles(strategy, 3, 100, &mut random, &catalog);
        }
        let mut cells: Vec<(usize, usize)> =
            scene.placements.iter().map(|p| (p.x, p.y)).collect();
        let placed = cells.len();
        cells.sort();
        cells.dedup();
        assert_eq!(cells.len(), placed, "{:?}", strategy);
        // No two placed cells are neighbours: every neighbour of a placed cell is a contradiction.
        for &(x, y) in &cells {
            assert!(!cells.contains(&(x + 1, y)), "{:?}", strategy);
            assert!(!cells.contains(&(x, y + 1)), "{:?}", strategy);
        }
        assert!(placed >= 1, "{:?}", strategy);
    }
}

#[test]
fn random_strategy_visits_only_open_cells() {
    let catalog = vec![tile(0, 1, ["g", "g", "g", "g"])];
    let (mut tiles, mut open) = fresh_tiles(&catalog, 4);
    // Only these cells are open to the draw; the centre is collapsed in any case.
    open = BTreeSet::from([0, 5, 15]);
    let mut scene = Scene::new();
    let mut random = StdRng::seed_from_u64(31);
    let mut iterations = 0;
    {
        let mut solver = WFC::new(&mut scene);
        solver.random_placement_strategy(
            &catalog,
            &mut tiles,
            &mut open,
            &mut iterations,
            4,
            100,
            &mut random,
        );
    }
    assert!(open.is_empty());
    assert_eq!(iterations, 3);
    let mut cells: Vec<(usize, usize)> = scene.placements.iter().map(|p| (p.x, p.y)).collect();
    assert_eq!(cells[0], (2, 2));
    cells.sort();
    assert_eq!(cells, vec![(0, 0), (1, 1), (2, 2), (3, 3)]);
}

#[test]
fn create_texels_fills_the_texture_row_by_row() {
    let texels = tile_wfc::raster::create_texels(4, |column, row| (10 * row + column) as u8);
    assert_eq!(
        texels,
        vec![0, 1, 2, 3, 10, 11, 12, 13, 20, 21, 22, 23, 30, 31, 32, 33]
    );
    assert!(tile_wfc::raster::create_texels(0, |_, _| 1).is_empty());
}

#[test]
fn growing_strategy_does_not_count_a_second_visit() {
    let catalog = vec![tile(0, 1, ["g", "g", "g", "g"])];
    let (mut tiles, mut open) = fresh_tiles(&catalog, 3);
    let mut scene = Scene::new();
    let mut random = StdRng::seed_from_u64(8);
    let mut iterations = 0;
    {
        let mut solver = WFC::new(&mut scene);
        // Each corner is queued by two neighbours. Nine iterations suffice for
        // the nine cells only if the second visit of a corner is not counted.
        solver.growing_placement_strategy(
            &catalog,
            &mut tiles,
            &mut open,
            &mut iterations,
            3,
            9,
            &mut random,
        );
    }
    assert_eq!(iterations, 9);
    assert_eq!(scene.placements.len(), 9);
    assert!(open.is_empty());
    assert!(tiles.iter().all(|cell| cell.data == Some(0)));
}

#[test]
fn collapse_tile_shows_the_suffix_to_the_neighbour() {
    let mut shown = tile(0, 1, ["u", "r", "d", "l"]);
    shown.right_edge_suffix = Some("a".to_string());
    let mut same_suffix = tile(1, 1, ["y", "y", "y", "r"]);
    same_suffix.left_edge_suffix = Some("a".to_string());
    let mut other_suffix = tile(2, 1, ["y", "y", "y", "r"]);
    other_suffix.left_edge_suffix = Some("b".to_string());
    let no_suffix = tile(3, 1, ["y", "y", "y", "r"]);
    let other_label = tile(4, 1, ["y", "y", "y", "q"]);
    let catalog = vec![shown, same_suffix, other_suffix, no_suffix, other_label];
    let (mut tiles, mut open) = fresh_tiles(&catalog, 2);
    tiles[0].possible_tiles = vec![0];
    let mut scene = Scene::new();
    let mut random = StdRng::seed_from_u64(3);
    {
        let mut solver = WFC::new(&mut scene);
        solver.collapse_tile(&catalog, &mut tiles, &mut open, 0, &mut random, 2);
    }
    // To the right of the new tile the left edge must read "r" and must not
    // carry the suffix "a".
    assert_eq!(tiles[1].possible_tiles, vec![2, 3]);
    // Above it the down edge must read "u": no tile has that, and the cell is closed.
    assert!(tiles[2].possible_tiles.is_empty());
    assert_eq!(open, BTreeSet::from([1, 3]));
}

#[test]
fn least_entropy_strategy_visits_the_most_constrained_cell_next() {
    // Tile 0 lets anything lie above it but only itself to its right.
    let catalog = vec![
        tile(0, 1, ["any", "zero", "any", "zero"]),
        tile(1, 1, ["any", "one", "any", "one"]),
        tile(2, 1, ["any", "one", "any", "one"]),
    ];
    let (mut tiles, mut open) = fresh_tiles(&catalog, 3);
    tiles[4].possible_tiles = vec![0];
    let mut scene = Scene::new();
    let mut random = StdRng::seed_from_u64(3);
    let mut iterations = 0;
    {
        let mut solver = WFC::new(&mut scene);
        solver.least_entropy_placement_strategy(
            &catalog,
            &mut tiles,
            &mut open,
            &mut iterations,
            3,
            1,
            &mut random,
        );
    }
    // The centre is placed first. Its neighbours to the left and right are
    // left with tile 0 alone; the one with the smaller number, cell 3, comes
    // next.
    let order: Vec<(usize, usize)> = scene.placements.iter().map(|p| (p.x, p.y)).collect();
    assert_eq!(order, vec![(1, 1), (0, 1)]);
    assert_eq!(iterations, 1);
    assert_eq!(tiles[3].data, Some(0));
    assert_eq!(tiles[5].possible_tiles, vec![0]);
}

#[test]
fn a_run_with_budget_to_spare_leaves_no_cell_that_can_collapse() {
    // Tiles that fit only some of each other, so that some cells end up empty.
    let catalog = vec![
        tile(0, 1, ["a", "b", "a", "b"]),
        tile(1, 1, ["b", "c", "b", "c"]),
        tile(2, 1, ["c", "a", "c", "a"]),
    ];
    let map_size = 5;
    for seed in 0..20 {
        for strategy in [
            PlacementStrategy::Random,
            PlacementStrategy::LeastEntropy,
            PlacementStrategy::Ordered,
        ] {
            let (mut tiles, mut open) = fresh_tiles(&catalog, map_size);
            let mut scene = Scene::new();
            let mut random = StdRng::seed_from_u64(seed);
            let mut iterations = 0;
            let mut solver = WFC::new(&mut scene);
            match strategy {
                PlacementStrategy::Random => solver.random_placement_strategy(
                    &catalog, &mut tiles, &mut open, &mut iterations, map_size, 1000, &mut random,
                ),
                PlacementStrategy::LeastEntropy => solver.least_entropy_placement_strategy(
                    &catalog, &mut tiles, &mut open, &mut iterations, map_size, 1000, &mut random,
                ),
                _ => solver.ordered_placement_strategy(
                    &catalog, &mut tiles, &mut open, &mut iterations, map_size, 1000, &mut random,
                ),
            }
            assert!(iterations < 1000);
            assert!(open.is_empty(), "{:?}", strategy);
            for cell in &tiles {
                assert!(cell.data.is_some() || cell.possible_tiles.is_empty(), "{:?}", strategy);
            }
            // Every placement stands for a resolved cell and the other way round.
            let resolved = tiles.iter().filter(|cell| cell.data.is_some()).count();
            assert_eq!(solver.scene.placements.len(), resolved);
            for placement in &solver.scene.placements {
                let cell = &tiles[placement.y * map_size + placement.x];
                assert_eq!(cell.data, Some(placement.model));
            }
        }
    }
}

#[test]
fn ordered_strategy_stops_when_no_cell_is_open() {
    let catalog = vec![tile(0, 1, ["g", "g", "g", "g"])];
    let (mut tiles, _) = fresh_tiles(&catalog, 3);
    let mut open = BTreeSet::from([0, 1]);
    let mut scene = Scene::new();
    let mut random = StdRng::seed_from_u64(5);
    let mut iterations = 0;
    {
        let mut solver = WFC::new(&mut scene);
        solver.ordered_placement_strategy(
            &catalog,
            &mut tiles,
            &mut open,
            &mut iterations,
            3,
            100,
            &mut random,
        );
        assert_eq!(iterations, 2);
        assert!(open.is_empty());
        // With no cell open the strategy makes no visit at all.
        solver.ordered_placement_strategy(
            &catalog,
            &mut tiles,
            &mut open,
            &mut iterations,
            3,
            100,
            &mut random,
        );
        assert_eq!(iterations, 2);
    }
    let order: Vec<(usize, usize)> = scene.placements.iter().map(|p| (p.x, p.y)).collect();
    assert_eq!(order, vec![(0, 0), (1, 0)]);
    assert_eq!(tiles[2].data, None);
}

#[test]
fn a_used_up_budget_allows_no_visit() {
    let catalog = vec![tile(0, 1, ["g", "g", "g", "g"])];
    for strategy in strategies() {
        let (mut tiles, mut open) = fresh_tiles(&catalog, 3);
        let mut scene = Scene::new();
        let mut random = StdRng::seed_from_u64(5);
        let mut iterations = 7;
        let mut solver = WFC::new(&mut scene);
        match strategy {
            PlacementStrategy::Random => solver.random_placement_strategy(
                &catalog, &mut tiles, &mut open, &mut iterations, 3, 7, &mut random,
            ),
            PlacementStrategy::LeastEntropy => solver.least_entropy_placement_strategy(
                &catalog, &mut tiles, &mut open, &mut iterations, 3, 7, &mut random,
            ),
            PlacementStrategy::Growing => solver.growing_placement_strategy(
                &catalog, &mut tiles, &mut open, &mut iterations, 3, 7, &mut random,
            ),
            PlacementStrategy::Ordered => solver.ordered_placement_strategy(
                &catalog, &mut tiles, &mut open, &mut iterations, 3, 7, &mut random,
            ),
        }
        assert_eq!(iterations, 7);
        // Random and least entropy place the centre before they look at the budget.
        let placed = match strategy {
            PlacementStrategy::Random | PlacementStrategy::LeastEntropy => 1,
            PlacementStrategy::Growing | PlacementStrategy::Ordered => 0,
        };
        assert_eq!(solver.scene.placements.len(), placed, "{:?}", strategy);
    }
}
