use rand::RngCore;
use tile_wfc::config::{
    read_config_file, read_config_line, read_tileset_config_file, read_tileset_line, ConfigError,
    Settings, Tileset,
};
use tile_wfc::random::seeded_random;
use tile_wfc::text::{chars_of, parse_number, remove_char, spells, split_chars, string_of};
use tile_wfc::tile::is_catalog_ready;
use tile_wfc::tile_data::TileData;
use tile_wfc::wave_function_collapse::PlacementStrategy;

fn lines(text: &[&str]) -> Vec<String> {
    text.iter().map(|line| line.to_string()).collect()
}

fn chars(text: &str) -> Vec<char> {
    text.chars().collect()
}

fn defaults() -> Settings {
    Settings {
        placement_strategy: PlacementStrategy::LeastEntropy,
        map_size: 10,
        max_iterations: 1000,
        tileset_path: String::new(),
        seed: 0,
    }
}

fn plain_tile(weight: u32) -> TileData {
    TileData {
        model: 0,
        weight,
        up_edge: "a".to_string(),
        right_edge: "a".to_string(),
        down_edge: "a".to_string(),
        left_edge: "a".to_string(),
        up_edge_suffix: None,
        right_edge_suffix: None,
        down_edge_suffix: None,
        left_edge_suffix: None,
    }
}

#[test]
fn chars_and_strings_convert_both_ways() {
    assert_eq!(chars_of("tile é 1"), chars("tile é 1"));
    assert_eq!(chars_of(""), Vec::<char>::new());
    assert_eq!(string_of(&chars("grass/road")), "grass/road");
    assert_eq!(string_of(&Vec::new()), "");
}

#[test]
fn spells_compares_whole_words() {
    assert!(spells(&chars("seed"), "seed"));
    assert!(!spells(&chars("seed"), "seeds"));
    assert!(!spells(&chars("seeds"), "seed"));
    assert!(!spells(&chars("seen"), "seed"));
    assert!(spells(&chars(""), ""));
}

#[test]
fn remove_char_drops_every_occurrence() {
    assert_eq!(remove_char(&chars(" a b  c "), ' '), chars("abc"));
    assert_eq!(remove_char(&chars("abc"), ' '), chars("abc"));
    assert_eq!(remove_char(&chars("   "), ' '), chars(""));
}

#[test]
fn split_chars_keeps_empty_pieces() {
    let split = |text: &str| -> Vec<String> {
        split_chars(&chars(text), ',').iter().map(string_of).collect()
    };
    assert_eq!(split("a,b,c"), vec!["a", "b", "c"]);
    assert_eq!(split(""), vec![""]);
    assert_eq!(split("abc"), vec!["abc"]);
    assert_eq!(split("a,,c"), vec!["a", "", "c"]);
    assert_eq!(split(",a,"), vec!["", "a", ""]);
    for text in ["a,b,c", "", "abc", "a,,c", ",a,", ",,"] {
        let expected: Vec<String> = text.split(',').map(|piece| piece.to_string()).collect();
        assert_eq!(split(text), expected);
    }
}

#[test]
fn parse_number_reads_unsigned_decimals() {
    assert_eq!(parse_number(&chars("0"), 100), Some(0));
    assert_eq!(parse_number(&chars("42"), 100), Some(42));
    assert_eq!(parse_number(&chars("+42"), 100), Some(42));
    assert_eq!(parse_number(&chars("007"), 100), Some(7));
    assert_eq!(parse_number(&chars("100"), 100), Some(100));
    assert_eq!(parse_number(&chars("101"), 100), None);
    assert_eq!(parse_number(&chars(""), 100), None);
    assert_eq!(parse_number(&chars("+"), 100), None);
    assert_eq!(parse_number(&chars("-1"), 100), None);
    assert_eq!(parse_number(&chars("++1"), 100), None);
    assert_eq!(parse_number(&chars("1a"), 100), None);
    assert_eq!(parse_number(&chars("1.5"), 100), None);
    assert_eq!(
        parse_number(&chars("18446744073709551615"), u64::MAX),
        Some(u64::MAX)
    );
    assert_eq!(parse_number(&chars("18446744073709551616"), u64::MAX), None);
    assert_eq!(parse_number(&chars("99999999999999999999999"), u64::MAX), None);
}

#[test]
fn parse_number_agrees_with_the_standard_parser() {
    for text in [
        "0", "1", "+1", "-1", "", "+", "-", "12345", "4294967295", "4294967296", "00000000001",
        "1 ", " 1", "1_000", "0x10", "٣", "+0", "+-1",
    ] {
        let expected = text.parse::<u32>().ok().map(u64::from);
        assert_eq!(parse_number(&chars(text), u32::MAX as u64), expected, "{:?}", text);
    }
}

#[test]
fn configuration_without_lines_names_no_tileset() {
    assert!(matches!(read_config_file(&lines(&[])), Err(ConfigError::MissingTileSet)));
    assert!(matches!(
        read_config_file(&lines(&["# only a comment", "seed=3"])),
        Err(ConfigError::MissingTileSet)
    ));
}

#[test]
fn configuration_starts_from_the_defaults() {
    let settings = read_config_file(&lines(&["tile_set = tiles/forest"])).unwrap();
    assert_eq!(settings.placement_strategy, PlacementStrategy::LeastEntropy);
    assert_eq!(settings.map_size, 10);
    assert_eq!(settings.max_iterations, 1000);
    assert_eq!(settings.tileset_path, "tiles/forest");
    assert_eq!(settings.seed, 0);
}

#[test]
fn configuration_sets_every_option() {
    let settings = read_config_file(&lines(&[
        "# run settings",
        "placement_strategy = growing",
        "tile_set=tiles/town",
        "map_size = 3 2",
        "max_iterations=2500",
        "seed = 18446744073709551615",
    ]))
    .unwrap();
    assert_eq!(settings.placement_strategy, PlacementStrategy::Growing);
    assert_eq!(settings.tileset_path, "tiles/town");
    // Spaces are dropped wherever they stand.
    assert_eq!(settings.map_size, 32);
    assert_eq!(settings.max_iterations, 2500);
    assert_eq!(settings.seed, u64::MAX);
}

#[test]
fn configuration_knows_the_four_strategies() {
    for (name, strategy) in [
        ("least_entropy", PlacementStrategy::LeastEntropy),
        ("random", PlacementStrategy::Random),
        ("ordered", PlacementStrategy::Ordered),
        ("growing", PlacementStrategy::Growing),
    ] {
        let line = format!("placement_strategy={}", name);
        let settings = read_config_line(defaults(), &line, 1).unwrap();
        assert_eq!(settings.placement_strategy, strategy);
    }
    assert!(matches!(
        read_config_line(defaults(), "placement_strategy=spiral", 4),
        Err(ConfigError::UnknownStrategy { line: 4 })
    ));
}

#[test]
fn later_lines_override_earlier_ones() {
    let settings = read_config_file(&lines(&["tile_set=a", "map_size=5", "map_size=7", "tile_set=b"]))
        .unwrap();
    assert_eq!(settings.map_size, 7);
    assert_eq!(settings.tileset_path, "b");
}

#[test]
fn configuration_refuses_lines_that_are_no_key_and_value() {
    for text in ["", "map_size", "map_size=", "=5", "map_size=5=6", "   ", " # late comment"] {
        let result = read_config_file(&lines(&["tile_set=a", text]));
        assert!(
            matches!(result, Err(ConfigError::Malformed { line: 2 })),
            "{:?} gave {:?}",
            text,
            result.err()
        );
    }
}

#[test]
fn configuration_checks_the_range_of_the_map_size() {
    assert_eq!(read_config_line(defaults(), "map_size=1", 1).unwrap().map_size, 1);
    assert_eq!(read_config_line(defaults(), "map_size=100", 1).unwrap().map_size, 100);
    for text in ["map_size=0", "map_size=101"] {
        match read_config_line(defaults(), text, 3) {
            Err(ConfigError::OutOfRange { line: 3, value, low: 1, high: 100 }) => {
                assert_eq!(format!("map_size={}", value), text)
            }
            other => panic!("{:?} gave {:?}", text, other.err()),
        }
    }
    match read_config_line(defaults(), "map_size=ten", 8) {
        Err(ConfigError::NotANumber { line: 8, value }) => assert_eq!(value, "ten"),
        other => panic!("gave {:?}", other.err()),
    }
}

#[test]
fn configuration_checks_the_range_of_the_budget() {
    assert_eq!(read_config_line(defaults(), "max_iterations=100", 1).unwrap().max_iterations, 100);
    assert_eq!(
        read_config_line(defaults(), "max_iterations=10000", 1).unwrap().max_iterations,
        10000
    );
    for text in ["max_iterations=99", "max_iterations=10001"] {
        assert!(matches!(
            read_config_line(defaults(), text, 2),
            Err(ConfigError::OutOfRange { line: 2, low: 100, high: 10000, .. })
        ));
    }
    assert!(matches!(
        read_config_line(defaults(), "max_iterations=4294967296", 2),
        Err(ConfigError::NotANumber { line: 2, .. })
    ));
}

#[test]
fn configuration_refuses_a_seed_that_is_no_number() {
    match read_config_line(defaults(), "seed=-4", 6) {
        Err(ConfigError::NotANumber { line: 6, value }) => assert_eq!(value, "-4"),
        other => panic!("gave {:?}", other.err()),
    }
    assert_eq!(read_config_line(defaults(), "seed=0", 6).unwrap().seed, 0);
}

#[test]
fn configuration_refuses_unknown_options() {
    match read_config_file(&lines(&["tile_set=a", "#", "colour = red"])) {
        Err(ConfigError::UnknownOption { line: 3, option }) => assert_eq!(option, "colour"),
        other => panic!("gave {:?}", other.err()),
    }
}

#[test]
fn the_first_refused_line_ends_the_reading() {
    let result = read_config_file(&lines(&["map_size=500", "nonsense", "tile_set=a"]));
    assert!(matches!(result, Err(ConfigError::OutOfRange { line: 1, .. })));
}

#[test]
fn catalog_line_without_rotation_gives_one_tile() {
    let tileset = read_tileset_config_file(&lines(&[
        "# model, weight, up, right, down, left, rotations",
        "grass.glb, 3, g, g, g, g, 1",
    ]))
    .unwrap();
    assert_eq!(tileset.tiles.len(), 1);
    assert_eq!(tileset.models.len(), 1);
    let tile = &tileset.tiles[0];
    assert_eq!(tile.model, 0);
    assert_eq!(tile.weight, 3);
    assert_eq!(
        [&tile.up_edge, &tile.right_edge, &tile.down_edge, &tile.left_edge],
        ["g", "g", "g", "g"]
    );
    assert_eq!(tile.up_edge_suffix, None);
    assert_eq!(tile.left_edge_suffix, None);
    assert_eq!(tileset.models[0].path, "grass.glb");
    assert_eq!(tileset.models[0].rotation, 0);
}

#[test]
fn catalog_line_with_four_rotations_turns_the_edges() {
    let tileset = read_tileset_config_file(&lines(&["road.glb,2,n,e,s,w,4"])).unwrap();
    let edges: Vec<[String; 4]> = tileset
        .tiles
        .iter()
        .map(|t| {
            [t.up_edge.clone(), t.right_edge.clone(), t.down_edge.clone(), t.left_edge.clone()]
        })
        .collect();
    assert_eq!(
        edges,
        vec![
            ["n", "e", "s", "w"].map(String::from),
            ["e", "s", "w", "n"].map(String::from),
            ["s", "w", "n", "e"].map(String::from),
            ["w", "n", "e", "s"].map(String::from),
        ]
    );
    for (handle, tile) in tileset.tiles.iter().enumerate() {
        assert_eq!(tile.model, handle);
        assert_eq!(tile.weight, 2);
        assert_eq!(tileset.models[handle].path, "road.glb");
        assert_eq!(tileset.models[handle].rotation, handle);
    }
}

#[test]
fn catalog_lines_follow_each_other() {
    let tileset = read_tileset_config_file(&lines(&[
        "a.glb,1,x,y,x,y,2",
        "#b.glb,1,x,y,x,y,2",
        "c.glb,7,p,q,r,s,1",
    ]))
    .unwrap();
    let summary: Vec<(usize, String, usize, u32, String)> = tileset
        .tiles
        .iter()
        .zip(tileset.models.iter())
        .map(|(t, m)| (t.model, m.path.clone(), m.rotation, t.weight, t.up_edge.clone()))
        .collect();
    assert_eq!(
        summary,
        vec![
            (0, "a.glb".to_string(), 0, 1, "x".to_string()),
            (1, "a.glb".to_string(), 1, 1, "y".to_string()),
            (2, "c.glb".to_string(), 0, 7, "p".to_string()),
        ]
    );
}

#[test]
fn catalog_refuses_a_line_without_seven_values() {
    for text in ["", "a.glb,1,x,y,x,y", "a.glb,1,x,y,x,y,1,extra", "a.glb 1 x y x y 1"] {
        match read_tileset_config_file(&lines(&["a.glb,1,x,y,x,y,1", text])) {
            Err(ConfigError::MissingValues { line: 2, text: refused }) => assert_eq!(refused, text),
            other => panic!("{:?} gave {:?}", text, other.err()),
        }
    }
}

#[test]
fn catalog_refuses_a_weight_that_is_not_positive() {
    for text in [
        "a.glb,0,x,y,x,y,1",
        "a.glb,-1,x,y,x,y,1",
        "a.glb,heavy,x,y,x,y,1",
        "a.glb,,x,y,x,y,1",
    ] {
        assert!(
            matches!(
                read_tileset_config_file(&lines(&[text])),
                Err(ConfigError::InvalidWeight { line: 1 })
            ),
            "{:?}",
            text
        );
    }
    // The weight is looked at before the rotations.
    assert!(matches!(
        read_tileset_config_file(&lines(&["a.glb,0,x,y,x,y,3"])),
        Err(ConfigError::InvalidWeight { line: 1 })
    ));
}

#[test]
fn catalog_refuses_other_numbers_of_rotations() {
    for text in ["a.glb,1,x,y,x,y,3", "a.glb,1,x,y,x,y,0", "a.glb,1,x,y,x,y,", "a.glb,1,x,y,x,y,04"] {
        assert!(
            matches!(
                read_tileset_config_file(&lines(&["#", text])),
                Err(ConfigError::InvalidRotations { line: 2 })
            ),
            "{:?}",
            text
        );
    }
}

#[test]
fn refused_catalog_line_adds_nothing() {
    let mut tileset = Tileset { tiles: Vec::new(), models: Vec::new() };
    read_tileset_line(&mut tileset, "a.glb,1,x,y,x,y,2", 1).unwrap();
    assert!(read_tileset_line(&mut tileset, "b.glb,1,x,y,x,y,5", 2).is_err());
    assert_eq!(tileset.tiles.len(), 2);
    read_tileset_line(&mut tileset, "c.glb,1,x,y,x,y,1", 3).unwrap();
    assert_eq!(tileset.tiles.len(), 3);
    assert_eq!(tileset.tiles[2].model, 2);
    assert_eq!(tileset.models[2].path, "c.glb");
}

#[test]
fn seed_zero_asks_for_a_seed_from_the_system() {
    assert!(seeded_random(0).is_none());
    let mut first = seeded_random(12).unwrap();
    let mut second = seeded_random(12).unwrap();
    let mut other = seeded_random(13).unwrap();
    let drawn: Vec<u64> = (0..4).map(|_| first.next_u64()).collect();
    assert_eq!(drawn, (0..4).map(|_| second.next_u64()).collect::<Vec<u64>>());
    assert_ne!(drawn, (0..4).map(|_| other.next_u64()).collect::<Vec<u64>>());
}

#[test]
fn catalog_is_ready_when_weights_are_positive_and_fit() {
    assert!(is_catalog_ready(&vec![]));
    assert!(is_catalog_ready(&vec![plain_tile(1), plain_tile(3)]));
    assert!(is_catalog_ready(&vec![plain_tile(u32::MAX - 1), plain_tile(1)]));
    assert!(!is_catalog_ready(&vec![plain_tile(u32::MAX), plain_tile(1)]));
    assert!(!is_catalog_ready(&vec![plain_tile(1), plain_tile(0)]));
}
