//! The run configuration and the tileset catalog, read from the lines of
//! their files.
//!
//! A line that starts with `#` is a comment. In every other line spaces are
//! dropped before the line is read.

use vstd::prelude::*;
use crate::text::{
    chars_of, number, parse_number, pieces, remove_char, spells, split, split_chars, string_of,
    texts, without,
};
use crate::direction::Direction;
use crate::tile::catalog_wf;
use crate::tile_data::TileData;
use crate::wave_function_collapse::PlacementStrategy;

verus! {

/// The settings of a run.
pub struct Settings {
    pub placement_strategy: PlacementStrategy,
    /// The side of the grid, from 1 to 100.
    pub map_size: usize,
    /// The budget of iterations, from 100 to 10000.
    pub max_iterations: u32,
    /// The directory of the tileset. A configuration must name one.
    pub tileset_path: String,
    /// The seed of the random source; 0 asks for a seed from the system.
    pub seed: u64,
}

/// The settings of a run as plain values.
pub struct SettingsView {
    pub placement_strategy: PlacementStrategy,
    pub map_size: usize,
    pub max_iterations: u32,
    pub tileset_path: Seq<char>,
    pub seed: u64,
}

impl View for Settings {
    type V = SettingsView;

    open spec fn view(&self) -> SettingsView {
        SettingsView {
            placement_strategy: self.placement_strategy,
            map_size: self.map_size,
            max_iterations: self.max_iterations,
            tileset_path: self.tileset_path@,
            seed: self.seed,
        }
    }
}

/// Why a configuration or a tileset catalog was refused. `line` counts the
/// lines of the file from 1.
#[derive(Debug)]
pub enum ConfigError {
    /// A line of the configuration is not of the form `KEY=VALUE`.
    Malformed { line: usize },
    /// The placement strategy is none of the four.
    UnknownStrategy { line: usize },
    /// `value` was to be a number and is none.
    NotANumber { line: usize, value: String },
    /// The number `value` is not between `low` and `high`.
    OutOfRange { line: usize, value: String, low: u64, high: u64 },
    /// The configuration has no option `option`.
    UnknownOption { line: usize, option: String },
    /// The configuration does not name a tileset.
    MissingTileSet,
    /// A line of the catalog, `text`, does not hold seven values.
    MissingValues { line: usize, text: String },
    /// The weight of a tile is not a positive number.
    InvalidWeight { line: usize },
    /// The number of rotations of a tile is not 1, 2 or 4.
    InvalidRotations { line: usize },
}

/// A refusal as plain values.
pub enum ConfigErrorView {
    Malformed { line: usize },
    UnknownStrategy { line: usize },
    NotANumber { line: usize, value: Seq<char> },
    OutOfRange { line: usize, value: Seq<char>, low: u64, high: u64 },
    UnknownOption { line: usize, option: Seq<char> },
    MissingTileSet,
    MissingValues { line: usize, text: Seq<char> },
    InvalidWeight { line: usize },
    InvalidRotations { line: usize },
}

impl View for ConfigError {
    type V = ConfigErrorView;

    open spec fn view(&self) -> ConfigErrorView {
        match self {
            ConfigError::Malformed { line } => ConfigErrorView::Malformed { line: *line },
            ConfigError::UnknownStrategy { line } => ConfigErrorView::UnknownStrategy {
                line: *line,
            },
            ConfigError::NotANumber { line, value } => ConfigErrorView::NotANumber {
                line: *line,
                value: value@,
            },
            ConfigError::OutOfRange { line, value, low, high } => ConfigErrorView::OutOfRange {
                line: *line,
                value: value@,
                low: *low,
                high: *high,
            },
            ConfigError::UnknownOption { line, option } => ConfigErrorView::UnknownOption {
                line: *line,
                option: option@,
            },
            ConfigError::MissingTileSet => ConfigErrorView::MissingTileSet,
            ConfigError::MissingValues { line, text } => ConfigErrorView::MissingValues {
                line: *line,
                text: text@,
            },
            ConfigError::InvalidWeight { line } => ConfigErrorView::InvalidWeight { line: *line },
            ConfigError::InvalidRotations { line } => ConfigErrorView::InvalidRotations {
                line: *line,
            },
        }
    }
}

/// Whether a line is a comment: it starts with `#`.
pub open spec fn is_comment(line: Seq<char>) -> bool {
    line.len() > 0 && line[0] == '#'
}

/// The strategy that a configuration calls `name`.
pub open spec fn strategy_named(name: Seq<char>) -> Option<PlacementStrategy> {
    if name == "least_entropy"@ {
        Some(PlacementStrategy::LeastEntropy)
    } else if name == "random"@ {
        Some(PlacementStrategy::Random)
    } else if name == "ordered"@ {
        Some(PlacementStrategy::Ordered)
    } else if name == "growing"@ {
        Some(PlacementStrategy::Growing)
    } else {
        None
    }
}

/// The settings that a run has where the configuration says nothing else.
/// The tileset has no default.
pub open spec fn default_settings() -> SettingsView {
    SettingsView {
        placement_strategy: PlacementStrategy::LeastEntropy,
        map_size: 10,
        max_iterations: 1000,
        tileset_path: Seq::empty(),
        seed: 0,
    }
}

/// A number option: `value` read as a number of at most `max` that lies
/// between `low` and `high`.
pub open spec fn number_option(
    value: Seq<char>,
    max: nat,
    low: u64,
    high: u64,
    line: usize,
) -> Result<nat, ConfigErrorView> {
    match number(value, max) {
        None => Err(ConfigErrorView::NotANumber { line, value }),
        Some(n) => if low <= n <= high {
            Ok(n)
        } else {
            Err(ConfigErrorView::OutOfRange { line, value, low, high })
        },
    }
}

/// The settings after line number `line` of a configuration was read.
///
/// A comment changes nothing. Any other line, spaces dropped, must be a key
/// and a value, neither of them empty, with one `=` between them. The key
/// names the setting that takes the value.
pub open spec fn config_line(settings: SettingsView, text: Seq<char>, line: usize) -> Result<
    SettingsView,
    ConfigErrorView,
> {
    let parts = split(without(text, ' '), '=');
    if is_comment(text) {
        Ok(settings)
    } else if parts.len() != 2 || parts[0].len() == 0 || parts[1].len() == 0 {
        Err(ConfigErrorView::Malformed { line })
    } else if parts[0] == "placement_strategy"@ {
        match strategy_named(parts[1]) {
            Some(placement_strategy) => Ok(SettingsView { placement_strategy, ..settings }),
            None => Err(ConfigErrorView::UnknownStrategy { line }),
        }
    } else if parts[0] == "tile_set"@ {
        Ok(SettingsView { tileset_path: parts[1], ..settings })
    } else if parts[0] == "map_size"@ {
        match number_option(parts[1], usize::MAX as nat, 1, 100, line) {
            Ok(n) => Ok(SettingsView { map_size: n as usize, ..settings }),
            Err(e) => Err(e),
        }
    } else if parts[0] == "max_iterations"@ {
        match number_option(parts[1], u32::MAX as nat, 100, 10000, line) {
            Ok(n) => Ok(SettingsView { max_iterations: n as u32, ..settings }),
            Err(e) => Err(e),
        }
    } else if parts[0] == "seed"@ {
        match number(parts[1], u64::MAX as nat) {
            Some(n) => Ok(SettingsView { seed: n as u64, ..settings }),
            None => Err(ConfigErrorView::NotANumber { line, value: parts[1] }),
        }
    } else {
        Err(ConfigErrorView::UnknownOption { line, option: parts[0] })
    }
}

/// The settings after the first `done` lines were read, or the refusal of
/// the first line that is refused.
pub open spec fn config_lines(lines: Seq<Seq<char>>, done: nat) -> Result<
    SettingsView,
    ConfigErrorView,
>
    decreases done,
{
    if done == 0 {
        Ok(default_settings())
    } else {
        match config_lines(lines, (done - 1) as nat) {
            Ok(settings) => config_line(settings, lines[done - 1], done as usize),
            Err(e) => Err(e),
        }
    }
}

/// What a configuration says: the settings after all its lines were read,
/// which must name a tileset.
pub open spec fn config_of(lines: Seq<Seq<char>>) -> Result<SettingsView, ConfigErrorView> {
    match config_lines(lines, lines.len()) {
        Ok(settings) => if settings.tileset_path.len() == 0 {
            Err(ConfigErrorView::MissingTileSet)
        } else {
            Ok(settings)
        },
        Err(e) => Err(e),
    }
}

/// A result of reading settings, as plain values.
pub open spec fn settings_result(result: Result<Settings, ConfigError>) -> Result<
    SettingsView,
    ConfigErrorView,
> {
    match result {
        Ok(settings) => Ok(settings@),
        Err(e) => Err(e@),
    }
}

/// Reads a number option, as [`number_option`] says.
fn read_number_option(
    value: &Vec<char>,
    max: u64,
    low: u64,
    high: u64,
    line: usize,
) -> (result: Result<u64, ConfigError>)
    ensures
        match result {
            Ok(n) => number_option(value@, max as nat, low, high, line) == Ok::<
                nat,
                ConfigErrorView,
            >(n as nat) && n <= max,
            Err(e) => number_option(value@, max as nat, low, high, line) == Err::<
                nat,
                ConfigErrorView,
            >(e@),
        },
{
    match parse_number(value, max) {
        None => Err(ConfigError::NotANumber { line, value: string_of(value) }),
        Some(n) => if low <= n && n <= high {
            Ok(n)
        } else {
            Err(ConfigError::OutOfRange { line, value: string_of(value), low, high })
        },
    }
}

/// Reads the placement strategy that a configuration calls `name`.
fn read_strategy(name: &Vec<char>) -> (strategy: Option<PlacementStrategy>)
    ensures
        strategy == strategy_named(name@),
{
    if spells(name, "least_entropy") {
        Some(PlacementStrategy::LeastEntropy)
    } else if spells(name, "random") {
        Some(PlacementStrategy::Random)
    } else if spells(name, "ordered") {
        Some(PlacementStrategy::Ordered)
    } else if spells(name, "growing") {
        Some(PlacementStrategy::Growing)
    } else {
        None
    }
}

/// Reads line number `line` of a configuration into `settings`.
pub fn read_config_line(
    settings: Settings,
    text: &str,
    line: usize,
) -> (result: Result<Settings, ConfigError>)
    ensures
        settings_result(result) == config_line(settings@, text@, line),
{
    let chars = chars_of(text);
    // Ignore comments
    if chars.len() > 0 && chars[0] == '#' {
        return Ok(settings);
    }
    let parts = split_chars(&remove_char(&chars, ' '), '=');
    proof {
        let spec_parts = split(without(text@, ' '), '=');
        assert(pieces(parts@) == spec_parts);
        if parts.len() == 2 {
            assert(spec_parts[0] == parts[0]@);
            assert(spec_parts[1] == parts[1]@);
        }
    }
    if parts.len() != 2 || parts[0].len() == 0 || parts[1].len() == 0 {
        return Err(ConfigError::Malformed { line });
    }
    let key = &parts[0];
    let value = &parts[1];
    let mut settings = settings;
    if spells(key, "placement_strategy") {
        match read_strategy(value) {
            Some(placement_strategy) => {
                settings.placement_strategy = placement_strategy;
            },
            None => {
                return Err(ConfigError::UnknownStrategy { line });
            },
        }
    } else if spells(key, "tile_set") {
        settings.tileset_path = string_of(value);
    } else if spells(key, "map_size") {
        match read_number_option(value, usize::MAX as u64, 1, 100, line) {
            Ok(n) => {
                settings.map_size = n as usize;
            },
            Err(e) => {
                return Err(e);
            },
        }
    } else if spells(key, "max_iterations") {
        match read_number_option(value, u32::MAX as u64, 100, 10000, line) {
            Ok(n) => {
                settings.max_iterations = n as u32;
            },
            Err(e) => {
                return Err(e);
            },
        }
    } else if spells(key, "seed") {
        match parse_number(value, u64::MAX) {
            Some(n) => {
                settings.seed = n;
            },
            None => {
                return Err(ConfigError::NotANumber { line, value: string_of(value) });
            },
        }
    } else {
        return Err(ConfigError::UnknownOption { line, option: string_of(key) });
    }
    Ok(settings)
}

/// Reads the run configuration from the lines of its file.
///
/// The settings start from their defaults: least entropy, a grid of side
/// 10, 1000 iterations, seed 0 and no tileset. Each line sets one of them.
/// The first line that cannot be read ends the reading with its refusal; a
/// configuration that names no tileset is refused at the end.
pub fn read_config_file(lines: &Vec<String>) -> (result: Result<Settings, ConfigError>)
    ensures
        settings_result(result) == config_of(texts(lines@)),
{
    let mut settings = Settings {
        placement_strategy: PlacementStrategy::LeastEntropy,
        map_size: 10,
        max_iterations: 1000,
        tileset_path: String::new(),
        seed: 0,
    };
    assert(settings@ == default_settings());
    let mut index: usize = 0;
    while index < lines.len()
        invariant
            index <= lines.len(),
            config_lines(texts(lines@), index as nat) == Ok::<SettingsView, ConfigErrorView>(
                settings@,
            ),
        decreases lines.len() - index,
    {
        assert(texts(lines@)[index as int] == lines[index as int]@);
        match read_config_line(settings, lines[index].as_str(), index + 1) {
            Ok(changed) => {
                settings = changed;
            },
            Err(e) => {
                proof {
                    lemma_refusal_stays(texts(lines@), (index + 1) as nat, lines@.len());
                }
                return Err(e);
            },
        }
        index += 1;
    }
    // Make sure obligatory options have been set
    if settings.tileset_path.as_str().is_empty() {
        return Err(ConfigError::MissingTileSet);
    }
    Ok(settings)
}

/// Once a line was refused, reading further lines changes nothing.
pub proof fn lemma_refusal_stays(lines: Seq<Seq<char>>, refused: nat, later: nat)
    requires
        refused <= later,
        config_lines(lines, refused) is Err,
    ensures
        config_lines(lines, later) == config_lines(lines, refused),
    decreases later,
{
    if refused < later {
        lemma_refusal_stays(lines, refused, (later - 1) as nat);
    }
}

/// Where the geometry of a tile comes from: the model file, by its path
/// within the tileset, turned by `rotation` quarter turns.
#[derive(Debug)]
pub struct ModelSource {
    pub path: String,
    pub rotation: usize,
}

/// A tileset catalog: the tiles, and for each the source of its model. The
/// tile at place `i` has the handle `i`, and its model comes from the source
/// at place `i`.
#[derive(Debug)]
pub struct Tileset {
    pub tiles: Vec<TileData>,
    pub models: Vec<ModelSource>,
}

/// One entry of a catalog as plain values. The edges are the labels towards
/// up, right, down and left.
pub struct TileSpec {
    pub model_path: Seq<char>,
    pub rotation: nat,
    pub weight: u32,
    pub edges: Seq<Seq<char>>,
}

impl View for Tileset {
    type V = Seq<TileSpec>;

    open spec fn view(&self) -> Seq<TileSpec> {
        Seq::new(
            self.tiles@.len(),
            |i: int|
                TileSpec {
                    model_path: self.models[i].path@,
                    rotation: self.models[i].rotation as nat,
                    weight: self.tiles[i].weight,
                    edges: seq![
                        self.tiles[i].up_edge@,
                        self.tiles[i].right_edge@,
                        self.tiles[i].down_edge@,
                        self.tiles[i].left_edge@,
                    ],
                },
        )
    }
}

impl Tileset {
    /// Each tile has a source and its place as handle, a positive weight,
    /// and no suffix on any edge.
    pub open spec fn wf(&self) -> bool {
        &&& self.models@.len() == self.tiles@.len()
        &&& catalog_wf(self.tiles@)
        &&& forall|i: int|
            0 <= i < self.tiles@.len() ==> {
                &&& (#[trigger] self.tiles[i]).model == i
                &&& forall|direction: Direction| self.tiles[i].suffix(direction) is None
            }
    }
}

/// The number of rotations that a catalog writes as `text`.
pub open spec fn rotations_named(text: Seq<char>) -> Option<nat> {
    if text == "4"@ {
        Some(4)
    } else if text == "2"@ {
        Some(2)
    } else if text == "1"@ {
        Some(1)
    } else {
        None
    }
}

/// The entry for the tile of a catalog line after `rotation` quarter turns:
/// the edge that the line gives at place `(rotation + k) % 4` is the edge
/// number `k` of the turned tile.
pub open spec fn rotated(values: Seq<Seq<char>>, weight: u32, rotation: nat) -> TileSpec {
    TileSpec {
        model_path: values[0],
        rotation,
        weight,
        edges: Seq::new(4, |k: int| values[2 + (rotation + k) % 4]),
    }
}

/// The entries that line number `line` of a catalog adds.
///
/// A comment adds none. Any other line, spaces dropped, holds seven values
/// between commas: the model's path, the weight, the edges towards up,
/// right, down and left, and the number of rotations, which is 1, 2 or 4.
/// The line adds one entry for each rotation.
pub open spec fn tileset_line(text: Seq<char>, line: usize) -> Result<
    Seq<TileSpec>,
    ConfigErrorView,
> {
    let values = split(without(text, ' '), ',');
    if is_comment(text) {
        Ok(Seq::empty())
    } else if values.len() != 7 {
        Err(ConfigErrorView::MissingValues { line, text })
    } else {
        match number(values[1], u32::MAX as nat) {
            Some(weight) => if weight == 0 {
                Err(ConfigErrorView::InvalidWeight { line })
            } else {
                match rotations_named(values[6]) {
                    Some(count) => Ok(
                        Seq::new(
                            count,
                            |rotation: int| rotated(values, weight as u32, rotation as nat),
                        ),
                    ),
                    None => Err(ConfigErrorView::InvalidRotations { line }),
                }
            },
            None => Err(ConfigErrorView::InvalidWeight { line }),
        }
    }
}

/// The entries of the first `done` lines of a catalog, or the refusal of the
/// first line that is refused.
pub open spec fn tileset_lines(lines: Seq<Seq<char>>, done: nat) -> Result<
    Seq<TileSpec>,
    ConfigErrorView,
>
    decreases done,
{
    if done == 0 {
        Ok(Seq::empty())
    } else {
        match tileset_lines(lines, (done - 1) as nat) {
            Ok(entries) => match tileset_line(lines[done - 1], done as usize) {
                Ok(added) => Ok(entries + added),
                Err(e) => Err(e),
            },
            Err(e) => Err(e),
        }
    }
}

/// Once a line of a catalog was refused, further lines change nothing.
pub proof fn lemma_tileset_refusal_stays(lines: Seq<Seq<char>>, refused: nat, later: nat)
    requires
        refused <= later,
        tileset_lines(lines, refused) is Err,
    ensures
        tileset_lines(lines, later) == tileset_lines(lines, refused),
    decreases later,
{
    if refused < later {
        lemma_tileset_refusal_stays(lines, refused, (later - 1) as nat);
    }
}

/// Reads the number of rotations that a catalog writes as `text`.
fn read_rotations(text: &Vec<char>) -> (count: Option<usize>)
    ensures
        match count {
            Some(n) => rotations_named(text@) == Some(n as nat) && 1 <= n <= 4,
            None => rotations_named(text@) is None,
        },
{
    if spells(text, "4") {
        Some(4)
    } else if spells(text, "2") {
        Some(2)
    } else if spells(text, "1") {
        Some(1)
    } else {
        None
    }
}

/// Reads line number `line` of a catalog and adds its entries to `tileset`.
/// A line that is refused adds nothing.
pub fn read_tileset_line(
    tileset: &mut Tileset,
    text: &str,
    line: usize,
) -> (result: Result<(), ConfigError>)
    requires
        old(tileset).wf(),
    ensures
        final(tileset).wf(),
        final(tileset)@.len() >= old(tileset)@.len(),
        match result {
            Ok(()) => tileset_line(text@, line) == Ok::<Seq<TileSpec>, ConfigErrorView>(
                final(tileset)@.skip(old(tileset)@.len() as int),
            ) && final(tileset)@.take(old(tileset)@.len() as int) == old(tileset)@,
            Err(e) => tileset_line(text@, line) == Err::<Seq<TileSpec>, ConfigErrorView>(e@)
                && *final(tileset) == *old(tileset),
        },
{
    let chars = chars_of(text);
    // Ignore comments
    if chars.len() > 0 && chars[0] == '#' {
        assert(tileset@.skip(tileset@.len() as int) =~= Seq::<TileSpec>::empty());
        assert(tileset@.take(tileset@.len() as int) =~= tileset@);
        return Ok(());
    }
    // Validate inputs
    let values = split_chars(&remove_char(&chars, ' '), ',');
    let ghost spec_values = split(without(text@, ' '), ',');
    assert(pieces(values@) == spec_values);
    if values.len() != 7 {
        return Err(ConfigError::MissingValues { line, text: string_of(&chars) });
    }
    assert forall|k: int| 0 <= k < 7 implies spec_values[k] == (#[trigger] values[k])@ by {}
    let weight: u32 = match parse_number(&values[1], u32::MAX as u64) {
        Some(parsed) => {
            if parsed == 0 {
                return Err(ConfigError::InvalidWeight { line });
            }
            parsed as u32
        },
        None => {
            return Err(ConfigError::InvalidWeight { line });
        },
    };
    let count: usize = match read_rotations(&values[6]) {
        Some(count) => count,
        None => {
            return Err(ConfigError::InvalidRotations { line });
        },
    };
    // Store each rotation as a tile of its own
    let ghost before = tileset@;
    let ghost added = Seq::new(
        count as nat,
        |rotation: int| rotated(spec_values, weight, rotation as nat),
    );
    let mut index: usize = 0;
    while index < count
        invariant
            index <= count <= 4,
            values.len() == 7,
            weight > 0,
            pieces(values@) == spec_values,
            tileset.wf(),
            tileset@.len() == before.len() + index,
            tileset@.take(before.len() as int) == before,
            forall|rotation: int|
                0 <= rotation < index ==> #[trigger] tileset@[before.len() + rotation] == rotated(
                    spec_values,
                    weight,
                    rotation as nat,
                ),
        decreases count - index,
    {
        let ghost so_far = tileset@;
        let ghost handle = tileset.tiles@.len();
        assert forall|k: int| 0 <= k < 7 implies spec_values[k] == (#[trigger] values[k])@ by {}
        let tile = TileData {
            model: tileset.tiles.len(),
            weight,
            up_edge: string_of(&values[2 + (index % 4)]),
            right_edge: string_of(&values[2 + ((index + 1) % 4)]),
            down_edge: string_of(&values[2 + ((index + 2) % 4)]),
            left_edge: string_of(&values[2 + ((index + 3) % 4)]),
            up_edge_suffix: None,
            right_edge_suffix: None,
            down_edge_suffix: None,
            left_edge_suffix: None,
        };
        tileset.models.push(ModelSource { path: string_of(&values[0]), rotation: index });
        tileset.tiles.push(tile);
        proof {
            let entry = rotated(spec_values, weight, index as nat);
            assert(tileset@[handle as int].edges =~= entry.edges);
            assert(tileset@[handle as int] == entry);
            assert forall|i: int| 0 <= i < so_far.len() implies tileset@[i] == so_far[i] by {}
            assert(tileset@.take(before.len() as int) =~= so_far.take(before.len() as int));
            assert forall|rotation: int| 0 <= rotation < index + 1 implies (
            #[trigger] tileset@[before.len() + rotation]) == rotated(
                spec_values,
                weight,
                rotation as nat,
            ) by {
                if rotation < index {
                    assert(so_far[before.len() + rotation] == rotated(
                        spec_values,
                        weight,
                        rotation as nat,
                    ));
                    assert(tileset@[before.len() + rotation] == so_far[before.len() + rotation]);
                }
            }
        }
        index += 1;
    }
    proof {
        let tail = tileset@.skip(before.len() as int);
        assert(tail.len() == added.len());
        assert forall|rotation: int| 0 <= rotation < tail.len() implies tail[rotation]
            == added[rotation] by {
            assert(tail[rotation] == tileset@[before.len() + rotation]);
        }
        assert(tail =~= added);
    }
    Ok(())
}

/// Reads a tileset catalog from the lines of its file.
///
/// The first line that cannot be read ends the reading with its refusal.
/// Otherwise the catalog holds the entries of all lines, in the lines'
/// order, each tile with its place in the catalog as its handle.
pub fn read_tileset_config_file(lines: &Vec<String>) -> (result: Result<Tileset, ConfigError>)
    ensures
        match result {
            Ok(tileset) => tileset.wf() && tileset_lines(texts(lines@), lines@.len()) == Ok::<
                Seq<TileSpec>,
                ConfigErrorView,
            >(tileset@),
            Err(e) => tileset_lines(texts(lines@), lines@.len()) == Err::<
                Seq<TileSpec>,
                ConfigErrorView,
            >(e@),
        },
{
    let mut tileset = Tileset { tiles: Vec::new(), models: Vec::new() };
    assert(tileset@ =~= Seq::<TileSpec>::empty());
    let mut index: usize = 0;
    while index < lines.len()
        invariant
            index <= lines.len(),
            tileset.wf(),
            tileset_lines(texts(lines@), index as nat) == Ok::<Seq<TileSpec>, ConfigErrorView>(
                tileset@,
            ),
        decreases lines.len() - index,
    {
        let ghost before = tileset@;
        assert(texts(lines@)[index as int] == lines[index as int]@);
        match read_tileset_line(&mut tileset, lines[index].as_str(), index + 1) {
            Ok(()) => {
                proof {
                    let added = tileset@.skip(before.len() as int);
                    assert(tileset@ =~= before + added);
                }
            },
            Err(e) => {
                proof {
                    lemma_tileset_refusal_stays(
                        texts(lines@),
                        (index + 1) as nat,
                        lines@.len(),
                    );
                }
                return Err(e);
            },
        }
        index += 1;
    }
    Ok(tileset)
}

} // verus!
