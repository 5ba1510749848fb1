//! Tile maps: cells, tile and tileset definitions, their validation, atlas
//! source rectangles, and the decimal numbers that map files write.
use vstd::prelude::*;

use crate::scan::{
    lines_of, spec_lines, spec_split_once, spec_trim, spec_trim_start, split_once, starts_with, starts_with_exec, trim,
    trim_start,
};
use crate::project_tools::{spec_split, split_char};
use crate::seq_facts::lemma_push_contains;
use crate::text::{chars_equal, chars_of, decimal_string, spec_decimal, string_from_chars};

verus! {

/// A map cell and the legend code of its tile.
#[derive(Debug, Clone, Copy, PartialEq, Eq, Structural)]
pub struct TileCell {
    pub code: u8,
}

/// What a legend code stands for.
#[derive(Debug, Clone, PartialEq, Eq)]
pub struct TileDefinition {
    pub name: String,
    pub texture: Option<String>,
    pub atlas_index: Option<u32>,
    pub blocked: bool,
    pub tint: Option<String>,
}

/// A texture atlas cut into equal tiles.
#[derive(Debug, Clone, PartialEq, Eq)]
pub struct TileSetDefinition {
    pub atlas: String,
    pub tile_width: u32,
    pub tile_height: u32,
    pub columns: u32,
    pub margin: u32,
    pub spacing: u32,
}

/// A `[tileset]` section as a map file writes it, before validation.
#[derive(Debug, Clone)]
pub struct TileSetConfig {
    pub atlas: String,
    pub tile_width: u32,
    pub tile_height: u32,
    pub columns: u32,
    pub margin: u32,
    pub spacing: u32,
}

/// Why a tile map was refused.
#[derive(Debug, Clone, PartialEq, Eq)]
pub struct TileMapError {
    message: String,
}

impl TileMapError {
    pub closed spec fn spec_message(&self) -> Seq<char> {
        self.message@
    }

    pub fn new(message: &str) -> (error: TileMapError)
        ensures
            error.spec_message() == message@,
    {
        TileMapError { message: message.to_owned() }
    }

    fn from_string(message: String) -> (error: TileMapError)
        ensures
            error.spec_message() == message@,
    {
        TileMapError { message }
    }

    /// The description of the error.
    pub fn message(&self) -> (text: &str)
        ensures
            text@ == self.spec_message(),
    {
        self.message.as_str()
    }
}

/// The error that a tileset is refused with, if it is.
pub open spec fn spec_tileset_error(config: TileSetConfig) -> Option<Seq<char>> {
    if spec_trim(config.atlas@).len() == 0 {
        Some("tileset atlas must not be empty"@)
    } else if config.tile_width == 0 || config.tile_height == 0 {
        Some("tileset tile_width and tile_height must be greater than zero"@)
    } else if config.columns == 0 {
        Some("tileset columns must be greater than zero"@)
    } else {
        None
    }
}

/// Validates a tileset: a non-blank atlas, non-zero tile sizes and at least
/// one column.
pub fn parse_tileset(tileset: &TileSetConfig) -> (result: Result<TileSetDefinition, TileMapError>)
    ensures
        match spec_tileset_error(*tileset) {
            Some(message) => result matches Err(error) && error.spec_message() == message,
            None => result matches Ok(definition) && definition.atlas@ == tileset.atlas@
                && definition.tile_width == tileset.tile_width && definition.tile_height
                == tileset.tile_height && definition.columns == tileset.columns
                && definition.margin == tileset.margin && definition.spacing == tileset.spacing,
        },
{
    let atlas = chars_of(tileset.atlas.as_str());
    if trim(atlas.as_slice()).len() == 0 {
        return Err(TileMapError::new("tileset atlas must not be empty"));
    }
    if tileset.tile_width == 0 || tileset.tile_height == 0 {
        return Err(TileMapError::new("tileset tile_width and tile_height must be greater than zero"));
    }
    if tileset.columns == 0 {
        return Err(TileMapError::new("tileset columns must be greater than zero"));
    }
    Ok(
        TileSetDefinition {
            atlas: tileset.atlas.clone(),
            tile_width: tileset.tile_width,
            tile_height: tileset.tile_height,
            columns: tileset.columns,
            margin: tileset.margin,
            spacing: tileset.spacing,
        },
    )
}

/// The message for an unknown collision kind.
pub open spec fn spec_collision_message(code: u8, collision: Seq<char>) -> Seq<char> {
    "legend tile code "@ + spec_decimal(code as nat) + " has invalid collision '"@ + collision + "'"@
}

/// Reads a collision kind: `none` is walkable, `solid` is blocked, and no
/// kind leaves the choice to the `blocked` flag.
pub fn parse_tile_collision(code: u8, collision: Option<&str>) -> (result: Result<Option<bool>, TileMapError>)
    ensures
        match collision {
            None => result == Ok::<Option<bool>, TileMapError>(None),
            Some(kind) => if kind@ == "none"@ {
                result == Ok::<Option<bool>, TileMapError>(Some(false))
            } else if kind@ == "solid"@ {
                result == Ok::<Option<bool>, TileMapError>(Some(true))
            } else {
                result matches Err(error) && error.spec_message() == spec_collision_message(code, kind@)
            },
        },
{
    match collision {
        None => Ok(None),
        Some(kind) => {
            let chars = chars_of(kind);
            let none = chars_of("none");
            let solid = chars_of("solid");
            if chars_equal(chars.as_slice(), none.as_slice()) {
                Ok(Some(false))
            } else if chars_equal(chars.as_slice(), solid.as_slice()) {
                Ok(Some(true))
            } else {
                let mut message = "legend tile code ".to_owned();
                message.append(decimal_string(code as u64).as_str());
                message.append(" has invalid collision '");
                message.append(kind);
                message.append("'");
                Err(TileMapError::from_string(message))
            }
        },
    }
}

/// The definition of a code that a legacy map uses without a legend: named
/// `tile_<code>`, untextured, and blocked unless the code is 0.
pub fn generic_tile_definition(code: u8) -> (definition: TileDefinition)
    ensures
        definition.name@ == "tile_"@ + spec_decimal(code as nat),
        definition.texture is None,
        definition.atlas_index is None,
        definition.blocked == (code != 0),
        definition.tint is None,
{
    let mut name = "tile_".to_owned();
    name.append(decimal_string(code as u64).as_str());
    TileDefinition { name, texture: None, atlas_index: None, blocked: code != 0, tint: None }
}

/// The rectangle of an atlas tile in atlas pixels.
#[derive(Debug, Clone, Copy, PartialEq, Eq)]
pub struct TileSourceRect {
    pub x: u32,
    pub y: u32,
    pub width: u32,
    pub height: u32,
}

/// The atlas position of tile `atlas_index`: its column and row in a grid of
/// `columns` columns, offset by the margin and spaced by the spacing.
pub open spec fn spec_source_x(tileset: TileSetDefinition, atlas_index: u32) -> int {
    tileset.margin + (atlas_index % tileset.columns) * (tileset.tile_width + tileset.spacing)
}

/// The atlas position of tile `atlas_index` along y.
pub open spec fn spec_source_y(tileset: TileSetDefinition, atlas_index: u32) -> int {
    tileset.margin + (atlas_index / tileset.columns) * (tileset.tile_height + tileset.spacing)
}

/// The atlas rectangle of a tile. The tileset must have columns, and the
/// position must fit in `u32`.
pub fn tileset_source_rect(tileset: &TileSetDefinition, atlas_index: u32) -> (rect: TileSourceRect)
    requires
        tileset.columns > 0,
        tileset.tile_width + tileset.spacing <= u32::MAX,
        tileset.tile_height + tileset.spacing <= u32::MAX,
        (atlas_index % tileset.columns) * (tileset.tile_width + tileset.spacing) <= u32::MAX,
        (atlas_index / tileset.columns) * (tileset.tile_height + tileset.spacing) <= u32::MAX,
        spec_source_x(*tileset, atlas_index) <= u32::MAX,
        spec_source_y(*tileset, atlas_index) <= u32::MAX,
    ensures
        rect.x == spec_source_x(*tileset, atlas_index),
        rect.y == spec_source_y(*tileset, atlas_index),
        rect.width == tileset.tile_width,
        rect.height == tileset.tile_height,
{
    let column = atlas_index % tileset.columns;
    let row = atlas_index / tileset.columns;
    let stride_x = tileset.tile_width + tileset.spacing;
    let stride_y = tileset.tile_height + tileset.spacing;
    TileSourceRect {
        x: tileset.margin + column * stride_x,
        y: tileset.margin + row * stride_y,
        width: tileset.tile_width,
        height: tileset.tile_height,
    }
}

/// Whether the atlas rectangle of a tile can be computed in `u32`.
pub open spec fn source_rect_fits(tileset: TileSetDefinition, atlas_index: u32) -> bool {
    &&& tileset.columns > 0
    &&& tileset.tile_width + tileset.spacing <= u32::MAX
    &&& tileset.tile_height + tileset.spacing <= u32::MAX
    &&& (atlas_index % tileset.columns) * (tileset.tile_width + tileset.spacing) <= u32::MAX
    &&& (atlas_index / tileset.columns) * (tileset.tile_height + tileset.spacing) <= u32::MAX
    &&& spec_source_x(tileset, atlas_index) <= u32::MAX
    &&& spec_source_y(tileset, atlas_index) <= u32::MAX
}

/// Whether the atlas rectangle of a tile can be computed in `u32`.
pub fn atlas_rect_fits(tileset: &TileSetDefinition, atlas_index: u32) -> (fits: bool)
    ensures
        fits == source_rect_fits(*tileset, atlas_index),
{
    if tileset.columns == 0 {
        return false;
    }
    let max: u64 = 0xffff_ffff;
    let column = (atlas_index % tileset.columns) as u64;
    let row = (atlas_index / tileset.columns) as u64;
    let stride_x = tileset.tile_width as u64 + tileset.spacing as u64;
    let stride_y = tileset.tile_height as u64 + tileset.spacing as u64;
    if stride_x > max || stride_y > max {
        return false;
    }
    assert(column * stride_x <= max * max) by (nonlinear_arith)
        requires
            column <= max,
            stride_x <= max,
    ;
    assert(row * stride_y <= max * max) by (nonlinear_arith)
        requires
            row <= max,
            stride_y <= max,
    ;
    let offset_x = column * stride_x;
    let offset_y = row * stride_y;
    if offset_x > max || offset_y > max {
        return false;
    }
    let x = tileset.margin as u64 + offset_x;
    let y = tileset.margin as u64 + offset_y;
    x <= max && y <= max
}

/// The sprite of a placed tile: its texture, its atlas rectangle when the
/// tile is cut from a tileset, and its tint.
#[derive(Debug, Clone, PartialEq, Eq)]
pub struct TileSprite {
    pub texture: String,
    pub source: Option<TileSourceRect>,
    pub tint: Option<String>,
}

/// What a placed tile's scene entity holds besides its position: its name,
/// its tags, its data references and its sprite, if it has a texture.
#[derive(Debug, Clone, PartialEq, Eq)]
pub struct TileEntity {
    pub name: String,
    pub tags: Vec<String>,
    pub data: Vec<(String, String)>,
    pub sprite: Option<TileSprite>,
}

/// Texts as characters.
pub open spec fn text_seqs(texts: Seq<String>) -> Seq<Seq<char>> {
    texts.map_values(|text: String| text@)
}

/// Pairs of texts as characters.
pub open spec fn pair_seqs(pairs: Seq<(String, String)>) -> Seq<(Seq<char>, Seq<char>)> {
    pairs.map_values(|pair: (String, String)| (pair.0@, pair.1@))
}

/// The name of the tile entity at a row and column of a map.
pub open spec fn spec_tile_entity_name(map_key: Seq<char>, row: nat, column: nat) -> Seq<char> {
    "TileMap."@ + map_key + ".Tile_"@ + spec_decimal(row) + "_"@ + spec_decimal(column)
}

/// The tags of a tile entity: `tile`, and `blocked` for a blocked tile.
pub open spec fn spec_tile_tags(blocked: bool) -> Seq<Seq<char>> {
    if blocked {
        seq!["tile"@, "blocked"@]
    } else {
        seq!["tile"@]
    }
}

/// Every tile is tagged `tile`, and a tile is tagged `blocked` exactly when
/// it blocks.
pub proof fn lemma_tile_tags_mark_blocking(blocked: bool)
    ensures
        spec_tile_tags(blocked).contains("tile"@),
        spec_tile_tags(blocked).contains("blocked"@) <==> blocked,
{
    reveal_strlit("tile");
    reveal_strlit("blocked");
    assert(spec_tile_tags(blocked)[0] == "tile"@);
    if blocked {
        assert(spec_tile_tags(blocked)[1] == "blocked"@);
    } else {
        assert("tile"@[0] != "blocked"@[0]);
    }
}

/// The data references of a tile entity: its kind, code, column and row.
pub open spec fn spec_tile_data(kind: Seq<char>, code: u8, column: nat, row: nat) -> Seq<(Seq<char>, Seq<char>)> {
    seq![
        ("kind"@, kind),
        ("code"@, spec_decimal(code as nat)),
        ("column"@, spec_decimal(column)),
        ("row"@, spec_decimal(row)),
    ]
}

/// The scene entity of the tile with `code` at `row` and `column` of the map
/// `map_key`: named after its place, tagged `tile` (and `blocked`), with its
/// kind, code and place as data, and a sprite with the tile's own texture or
/// else the tileset's atlas, cut to the tile's atlas rectangle where the
/// tile has an atlas index in a tileset.
pub fn tile_entity(
    map_key: &str,
    tileset: &Option<TileSetDefinition>,
    definition: &TileDefinition,
    code: u8,
    column: u64,
    row: u64,
) -> (entity: TileEntity)
    requires
        match (*tileset, definition.atlas_index) {
            (Some(t), Some(index)) => source_rect_fits(t, index),
            _ => true,
        },
    ensures
        entity.name@ == spec_tile_entity_name(map_key@, row as nat, column as nat),
        text_seqs(entity.tags@) == spec_tile_tags(definition.blocked),
        pair_seqs(entity.data@) == spec_tile_data(definition.name@, code, column as nat, row as nat),
        match (opt_view(definition.texture), *tileset) {
            (Some(texture), _) => entity.sprite matches Some(sprite) && sprite.texture@ == texture,
            (None, Some(t)) => entity.sprite matches Some(sprite) && sprite.texture@ == t.atlas@,
            (None, None) => entity.sprite is None,
        },
        entity.sprite matches Some(sprite) ==> {
            &&& opt_view(sprite.tint) == opt_view(definition.tint)
            &&& match (*tileset, definition.atlas_index) {
                (Some(t), Some(index)) => sprite.source matches Some(rect) && rect.x == spec_source_x(t, index)
                    && rect.y == spec_source_y(t, index) && rect.width == t.tile_width && rect.height
                    == t.tile_height,
                _ => sprite.source is None,
            }
        },
{
    let mut name = "TileMap.".to_owned();
    name.append(map_key);
    name.append(".Tile_");
    name.append(decimal_string(row).as_str());
    name.append("_");
    name.append(decimal_string(column).as_str());
    let mut tags: Vec<String> = Vec::new();
    tags.push("tile".to_owned());
    if definition.blocked {
        tags.push(blocked_tag().to_owned());
    }
    let mut data: Vec<(String, String)> = Vec::new();
    data.push(("kind".to_owned(), definition.name.clone()));
    data.push(("code".to_owned(), decimal_string(code as u64)));
    data.push(("column".to_owned(), decimal_string(column)));
    data.push(("row".to_owned(), decimal_string(row)));
    let texture = match &definition.texture {
        Some(texture) => Some(texture.clone()),
        None => match tileset {
            Some(t) => Some(t.atlas.clone()),
            None => None,
        },
    };
    let source = match (tileset, definition.atlas_index) {
        (Some(t), Some(index)) => Some(tileset_source_rect(t, index)),
        _ => None,
    };
    let tint = match &definition.tint {
        Some(tint) => Some(tint.clone()),
        None => None,
    };
    let sprite = match texture {
        Some(texture) => Some(TileSprite { texture, source, tint }),
        None => None,
    };
    proof {
        reveal_strlit("tile");
        reveal_strlit("kind");
        reveal_strlit("code");
        reveal_strlit("column");
        reveal_strlit("row");
        assert(text_seqs(tags@) =~= spec_tile_tags(definition.blocked));
        assert(pair_seqs(data@) =~= spec_tile_data(definition.name@, code, column as nat, row as nat));
    }
    TileEntity { name, tags, data, sprite }
}

/// The key of the map at an index of a scene's maps: `map_` and the index.
pub fn tile_map_key(map_index: u64) -> (key: String)
    ensures
        key@ == "map_"@ + spec_decimal(map_index as nat),
{
    let mut key = "map_".to_owned();
    key.append(decimal_string(map_index).as_str());
    key
}

/// The scene entity of a named spawn point of the map `map_key`: named
/// after it, tagged `spawnpoint`, with the name and the map as data.
pub fn spawnpoint_entity(map_key: &str, name: &str) -> (entity: TileEntity)
    ensures
        entity.name@ == "TileMap."@ + map_key@ + ".Spawnpoint."@ + name@,
        text_seqs(entity.tags@) == seq!["spawnpoint"@],
        pair_seqs(entity.data@) == seq![("spawn_for"@, name@), ("map"@, map_key@)],
        entity.sprite is None,
{
    let mut entity_name = "TileMap.".to_owned();
    entity_name.append(map_key);
    entity_name.append(".Spawnpoint.");
    entity_name.append(name);
    let mut tags: Vec<String> = Vec::new();
    tags.push("spawnpoint".to_owned());
    let mut data: Vec<(String, String)> = Vec::new();
    data.push(("spawn_for".to_owned(), name.to_owned()));
    data.push(("map".to_owned(), map_key.to_owned()));
    proof {
        assert(text_seqs(tags@) =~= seq!["spawnpoint"@]);
        assert(pair_seqs(data@) =~= seq![("spawn_for"@, name@), ("map"@, map_key@)]);
    }
    TileEntity { name: entity_name, tags, data, sprite: None }
}

/// The tag that blocked tiles carry.
pub fn blocked_tag() -> (tag: &'static str)
    ensures
        tag@ == "blocked"@,
{
    "blocked"
}

// ---------------------------------------------------------------------------
// Decimal numbers

/// Whether the character is an ASCII digit.
pub open spec fn is_digit(c: char) -> bool {
    0x30 <= (c as u32) <= 0x39
}

/// Whether every character is an ASCII digit.
pub open spec fn all_digits(s: Seq<char>) -> bool {
    forall|i: int| 0 <= i < s.len() ==> is_digit(#[trigger] s[i])
}

/// The number that a run of digits writes.
pub open spec fn digits_value(s: Seq<char>) -> nat
    decreases s.len(),
{
    if s.len() == 0 {
        0
    } else {
        digits_value(s.drop_last()) * 10 + ((s.last() as u32) - 0x30) as nat
    }
}

/// The number that an unsigned integer text writes, as `str::parse` reads
/// it: an optional `+`, then at least one digit.
pub open spec fn spec_parse_unsigned(s: Seq<char>) -> Option<nat> {
    let digits = if s.len() > 0 && s[0] == '+' {
        s.drop_first()
    } else {
        s
    };
    if digits.len() > 0 && all_digits(digits) {
        Some(digits_value(digits))
    } else {
        None
    }
}

/// The number that a signed integer text writes: an optional `+` or `-`,
/// then at least one digit.
pub open spec fn spec_parse_signed(s: Seq<char>) -> Option<int> {
    if s.len() > 0 && s[0] == '-' {
        let digits = s.drop_first();
        if digits.len() > 0 && all_digits(digits) {
            Some(-(digits_value(digits) as int))
        } else {
            None
        }
    } else {
        match spec_parse_unsigned(s) {
            Some(value) => Some(value as int),
            None => None,
        }
    }
}

/// A `u8` as `str::parse::<u8>` reads it.
pub open spec fn spec_parse_u8(s: Seq<char>) -> Option<u8> {
    match spec_parse_unsigned(s) {
        Some(value) => if value <= u8::MAX {
            Some(value as u8)
        } else {
            None
        },
        None => None,
    }
}

/// An `i32` as `str::parse::<i32>` reads it.
pub open spec fn spec_parse_i32(s: Seq<char>) -> Option<i32> {
    match spec_parse_signed(s) {
        Some(value) => if i32::MIN <= value <= i32::MAX {
            Some(value as i32)
        } else {
            None
        },
        None => None,
    }
}

/// Numbers are read digit by digit in base ten: no text or a lone sign is
/// no number; one digit is its own value; a digit written after a number
/// makes ten times that number plus the digit; and a `-` before digits
/// negates what they write.
pub proof fn lemma_numbers_read_in_base_ten(s: Seq<char>, d: char)
    ensures
        spec_parse_unsigned(seq![]) is None,
        spec_parse_unsigned(seq!['+']) is None,
        is_digit(d) ==> spec_parse_unsigned(seq![d]) == Some(((d as u32) - 0x30) as nat),
        !is_digit(d) && d != '+' ==> spec_parse_unsigned(seq![d]) is None,
        is_digit(d) ==> (spec_parse_unsigned(s) matches Some(v) ==> spec_parse_unsigned(s.push(d)) == Some(
            v * 10 + ((d as u32) - 0x30) as nat,
        )),
        spec_parse_unsigned(s) matches Some(v) ==> spec_parse_signed(s) == Some(v as int),
        s.len() > 0 && all_digits(s) ==> spec_parse_signed(seq!['-'] + s) == Some(-(digits_value(s) as int)),
        spec_parse_u8(s) matches Some(v) ==> spec_parse_unsigned(s) == Some(v as nat),
        spec_parse_unsigned(s) matches Some(v) ==> (v <= 255 ==> spec_parse_u8(s) == Some(v as u8)) && (v > 255
            ==> spec_parse_u8(s) is None),
{
    assert(seq![d].drop_last() =~= Seq::<char>::empty());
    assert(seq![d][0] == d);
    assert(seq![d].last() == d);
    if is_digit(d) {
        assert(all_digits(seq![d]));
        assert(digits_value(Seq::<char>::empty()) == 0);
        assert(digits_value(seq![d]) == digits_value(seq![d].drop_last()) * 10 + ((d as u32) - 0x30) as nat);
        assert(d != '+');
    }
    assert(seq!['+'][0] == '+');
    assert(seq!['+'].drop_first() =~= Seq::<char>::empty());
    if is_digit(d) && s.len() > 0 && s[0] == '+' {
        assert(s.push(d).drop_first() =~= s.drop_first().push(d));
        assert(s.push(d)[0] == '+');
        let digits = s.drop_first();
        if digits.len() > 0 && all_digits(digits) {
            assert(digits.push(d).drop_last() =~= digits);
            assert(all_digits(digits.push(d))) by {
                assert forall|i: int| 0 <= i < digits.push(d).len() implies is_digit(#[trigger] digits.push(d)[i]) by {
                    if i < digits.len() {
                        assert(digits.push(d)[i] == digits[i]);
                    }
                }
            }
        }
    } else if is_digit(d) {
        if s.len() > 0 && all_digits(s) {
            assert(s.push(d).drop_last() =~= s);
            assert(s.push(d)[0] == s[0]);
            assert(all_digits(s.push(d))) by {
                assert forall|i: int| 0 <= i < s.push(d).len() implies is_digit(#[trigger] s.push(d)[i]) by {
                    if i < s.len() {
                        assert(s.push(d)[i] == s[i]);
                    }
                }
            }
        }
        if s.len() == 0 && is_digit(d) {
            assert(s.push(d) =~= seq![d]);
        }
    }
    if s.len() > 0 && all_digits(s) {
        assert((seq!['-'] + s)[0] == '-');
        assert((seq!['-'] + s).drop_first() =~= s);
    }
    if spec_parse_unsigned(s) is Some && s.len() > 0 && s[0] == '-' {
        assert(is_digit(s[0]));
    }
}

/// Atlas tiles run along rows of `columns` tiles: tile 0 is at the margin,
/// the next tile in a row is one tile width and spacing to the right at the
/// same height, and the tile one row further on is one tile height and
/// spacing down in the same column.
pub proof fn lemma_atlas_tiles_run_along_rows(tileset: TileSetDefinition, index: u32)
    requires
        tileset.columns > 0,
    ensures
        spec_source_x(tileset, 0) == tileset.margin,
        spec_source_y(tileset, 0) == tileset.margin,
        index < u32::MAX && (index + 1) % (tileset.columns as int) != 0 ==> spec_source_x(tileset, (index + 1) as u32)
            == spec_source_x(tileset, index) + tileset.tile_width + tileset.spacing && spec_source_y(
            tileset,
            (index + 1) as u32,
        ) == spec_source_y(tileset, index),
        index + tileset.columns <= u32::MAX ==> spec_source_x(tileset, (index + tileset.columns) as u32)
            == spec_source_x(tileset, index) && spec_source_y(tileset, (index + tileset.columns) as u32)
            == spec_source_y(tileset, index) + tileset.tile_height + tileset.spacing,
{
    let c = tileset.columns as int;
    let i = index as int;
    vstd::arithmetic::div_mod::lemma_fundamental_div_mod_converse(0, c, 0, 0);
    vstd::arithmetic::div_mod::lemma_fundamental_div_mod(i, c);
    vstd::arithmetic::div_mod::lemma_mod_pos_bound(i, c);
    let q = i / c;
    let r = i % c;
    assert(c * q == q * c) by (nonlinear_arith);
    if index < u32::MAX && (i + 1) % c != 0 {
        assert(r + 1 < c) by {
            if r + 1 == c {
                assert(i + 1 == (q + 1) * c + 0) by (nonlinear_arith)
                    requires
                        i == c * q + r,
                        r + 1 == c,
                ;
                vstd::arithmetic::div_mod::lemma_fundamental_div_mod_converse(i + 1, c, q + 1, 0);
            }
        }
        vstd::arithmetic::div_mod::lemma_fundamental_div_mod_converse(i + 1, c, q, r + 1);
        assert((r + 1) * (tileset.tile_width + tileset.spacing) == r * (tileset.tile_width + tileset.spacing)
            + (tileset.tile_width + tileset.spacing)) by (nonlinear_arith);
    }
    if index + tileset.columns <= u32::MAX {
        assert(i + c == (q + 1) * c + r) by (nonlinear_arith)
            requires
                i == c * q + r,
        ;
        vstd::arithmetic::div_mod::lemma_fundamental_div_mod_converse(i + c, c, q + 1, r);
        assert((q + 1) * (tileset.tile_height + tileset.spacing) == q * (tileset.tile_height + tileset.spacing)
            + (tileset.tile_height + tileset.spacing)) by (nonlinear_arith);
    }
}

proof fn lemma_digits_value_grows(s: Seq<char>, i: int)
    requires
        0 <= i <= s.len(),
        all_digits(s),
    ensures
        digits_value(s.take(i)) <= digits_value(s),
    decreases s.len() - i,
{
    if i < s.len() {
        lemma_digits_value_grows(s.drop_last(), if i <= s.len() - 1 { i } else { s.len() - 1 });
        assert(s.drop_last().take(i) =~= s.take(i));
    } else {
        assert(s.take(i) =~= s);
    }
}

/// The value of a run of digits from position `from`, refusing values above
/// `limit`.
fn digits_up_to(s: &[char], from: usize, limit: u64) -> (value: Option<u64>)
    requires
        from < s@.len(),
        limit < u64::MAX / 16,
    ensures
        match value {
            Some(v) => all_digits(s@.skip(from as int)) && v == digits_value(s@.skip(from as int)) && v <= limit,
            None => !all_digits(s@.skip(from as int)) || digits_value(s@.skip(from as int)) > limit,
        },
{
    let ghost digits = s@.skip(from as int);
    let mut value: u64 = 0;
    let mut i: usize = from;
    assert(digits.take(0) =~= Seq::<char>::empty());
    while i < s.len()
        invariant
            from <= i <= s@.len(),
            digits == s@.skip(from as int),
            limit < u64::MAX / 16,
            all_digits(digits.take(i - from)),
            value == digits_value(digits.take(i - from)),
            value <= limit,
        decreases s@.len() - i,
    {
        let c = s[i];
        let code = c as u32;
        if code < 0x30 || code > 0x39 {
            proof {
                assert(digits[i - from] == c);
            }
            return None;
        }
        proof {
            let t = digits.take(i - from + 1);
            assert(t.drop_last() =~= digits.take(i - from));
            assert(t.last() == c);
        }
        value = value * 10 + (code - 0x30) as u64;
        if value > limit {
            proof {
                let t = digits.take(i - from + 1);
                if all_digits(digits) {
                    lemma_digits_value_grows(digits, i - from + 1);
                }
            }
            return None;
        }
        i = i + 1;
    }
    assert(digits.take(i - from) =~= digits);
    Some(value)
}

/// Reads a `u8` the way `str::parse::<u8>` does.
pub fn parse_u8(text: &str) -> (value: Option<u8>)
    ensures
        value == spec_parse_u8(text@),
{
    let s = chars_of(text);
    let start: usize = if s.len() > 0 && s[0] == '+' { 1 } else { 0 };
    proof {
        if start == 1 {
            assert(s@.skip(1) =~= s@.drop_first());
        } else {
            assert(s@.skip(0) =~= s@);
        }
    }
    if start >= s.len() {
        return None;
    }
    match digits_up_to(s.as_slice(), start, 255) {
        Some(v) => Some(v as u8),
        None => None,
    }
}

/// Reads an `i32` the way `str::parse::<i32>` does.
pub fn parse_i32_text(text: &str) -> (value: Option<i32>)
    ensures
        value == spec_parse_i32(text@),
{
    let s = chars_of(text);
    if s.len() > 0 && s[0] == '-' {
        assert(s@.skip(1) =~= s@.drop_first());
        if s.len() < 2 {
            return None;
        }
        match digits_up_to(s.as_slice(), 1, 2147483648) {
            Some(v) => {
                let magnitude = v as i64;
                Some((-magnitude) as i32)
            },
            None => None,
        }
    } else {
        let start: usize = if s.len() > 0 && s[0] == '+' { 1 } else { 0 };
        proof {
            if start == 1 {
                assert(s@.skip(1) =~= s@.drop_first());
            } else {
                assert(s@.skip(0) =~= s@);
            }
        }
        if start >= s.len() {
            return None;
        }
        match digits_up_to(s.as_slice(), start, 2147483647) {
            Some(v) => Some(v as i32),
            None => None,
        }
    }
}

/// Reads an optional map value as an `i32`.
pub fn parse_i32(value: Option<&str>) -> (parsed: Option<i32>)
    ensures
        match value {
            Some(text) => parsed == spec_parse_i32(text@),
            None => parsed is None,
        },
{
    match value {
        Some(text) => parse_i32_text(text),
        None => None,
    }
}

// ---------------------------------------------------------------------------
// Legend and rows of a TOML tile map

/// A `[legend.<code>]` entry as a map file writes it, before validation.
#[derive(Debug, Clone)]
pub struct TileLegendConfig {
    pub name: Option<String>,
    pub texture: Option<String>,
    pub atlas_index: Option<u32>,
    pub collision: Option<String>,
    pub blocked: bool,
    pub tint: Option<String>,
}

/// A tile definition with its texts as characters.
pub struct TileDefinitionView {
    pub name: Seq<char>,
    pub texture: Option<Seq<char>>,
    pub atlas_index: Option<u32>,
    pub blocked: bool,
    pub tint: Option<Seq<char>>,
}

/// An optional text as characters.
pub open spec fn opt_view(text: Option<String>) -> Option<Seq<char>> {
    match text {
        Some(t) => Some(t@),
        None => None,
    }
}

impl View for TileDefinition {
    type V = TileDefinitionView;

    open spec fn view(&self) -> TileDefinitionView {
        TileDefinitionView {
            name: self.name@,
            texture: opt_view(self.texture),
            atlas_index: self.atlas_index,
            blocked: self.blocked,
            tint: opt_view(self.tint),
        }
    }
}

/// The message for a legend key that is no tile code.
pub open spec fn spec_invalid_code_message(key: Seq<char>) -> Seq<char> {
    "invalid legend tile code '"@ + key + "'"@
}

/// The error that a legend entry is refused with, if it is.
pub open spec fn spec_legend_error(key: Seq<char>, entry: TileLegendConfig, has_tileset: bool) -> Option<Seq<char>> {
    match spec_parse_u8(key) {
        None => Some(spec_invalid_code_message(key)),
        Some(code) => if entry.texture matches Some(t) && spec_trim(t@).len() == 0 {
            Some("legend tile code "@ + spec_decimal(code as nat) + " has an empty texture"@)
        } else if entry.atlas_index is Some && !has_tileset {
            Some("legend tile code "@ + spec_decimal(code as nat) + " uses atlas_index but the map has no [tileset]"@)
        } else {
            match entry.collision {
                Some(kind) => if kind@ == "none"@ || kind@ == "solid"@ {
                    None
                } else {
                    Some(spec_collision_message(code, kind@))
                },
                None => None,
            }
        },
    }
}

/// The definition that a valid legend entry gives its code: named by the
/// entry or by the code, blocked as its collision kind says or else as its
/// `blocked` flag says.
pub open spec fn spec_legend_definition(code: u8, entry: TileLegendConfig) -> TileDefinitionView {
    TileDefinitionView {
        name: match entry.name {
            Some(n) => n@,
            None => spec_decimal(code as nat),
        },
        texture: opt_view(entry.texture),
        atlas_index: entry.atlas_index,
        blocked: match entry.collision {
            Some(kind) => kind@ == "solid"@,
            None => entry.blocked,
        },
        tint: opt_view(entry.tint),
    }
}

/// The legend that the entries give, in order, a later entry for a code
/// replacing an earlier one; or the error of the first refused entry.
pub open spec fn spec_legend(entries: Seq<(String, TileLegendConfig)>, has_tileset: bool) -> Result<
    Map<u8, TileDefinitionView>,
    Seq<char>,
>
    decreases entries.len(),
{
    if entries.len() == 0 {
        Ok(Map::empty())
    } else {
        match spec_legend(entries.drop_last(), has_tileset) {
            Err(message) => Err(message),
            Ok(legend) => {
                let (key, entry) = entries.last();
                match spec_legend_error(key@, entry, has_tileset) {
                    Some(message) => Err(message),
                    None => Ok(legend.insert(spec_parse_u8(key@)->0, spec_legend_definition(spec_parse_u8(key@)->0, entry))),
                }
            },
        }
    }
}

/// The error of the first row that is empty or uses a code the legend does
/// not define, checking rows in order and codes in order within a row.
pub open spec fn spec_rows_error(rows: Seq<Seq<u8>>, codes: Set<u8>) -> Option<Seq<char>>
    decreases rows.len(),
{
    if rows.len() == 0 {
        None
    } else {
        match spec_rows_error(rows.drop_last(), codes) {
            Some(message) => Some(message),
            None => {
                let index = (rows.len() - 1) as nat;
                let row = rows.last();
                if row.len() == 0 {
                    Some("tile row "@ + spec_decimal(index) + " must not be empty"@)
                } else {
                    match spec_first_unknown(row, codes) {
                        Some(code) => Some("tile code "@ + spec_decimal(code as nat) + " in row "@ + spec_decimal(index) + " has no legend definition"@),
                        None => None,
                    }
                }
            },
        }
    }
}

/// The first code in the row that is not among the codes.
pub open spec fn spec_first_unknown(row: Seq<u8>, codes: Set<u8>) -> Option<u8>
    decreases row.len(),
{
    if row.len() == 0 {
        None
    } else if !codes.contains(row[0]) {
        Some(row[0])
    } else {
        spec_first_unknown(row.drop_first(), codes)
    }
}

/// A tileset is accepted exactly when its atlas is not blank, both tile
/// sizes are non-zero and it has at least one column.
pub proof fn lemma_tileset_accepted_when_usable(config: TileSetConfig)
    ensures
        spec_tileset_error(config) is None <==> (spec_trim(config.atlas@).len() > 0 && config.tile_width > 0
            && config.tile_height > 0 && config.columns > 0),
{
}

/// A legend entry's tile is named by the entry, or else by its code; it
/// blocks when its collision kind is `solid`, not when it is `none`, and
/// as its `blocked` flag says when it gives no kind; its texture, atlas
/// index and tint are the entry's.
pub proof fn lemma_legend_definition_follows_entry(code: u8, entry: TileLegendConfig)
    ensures
        entry.name matches Some(n) ==> spec_legend_definition(code, entry).name == n@,
        entry.name is None ==> spec_legend_definition(code, entry).name == spec_decimal(code as nat),
        entry.collision matches Some(kind) ==> (kind@ == "solid"@ ==> spec_legend_definition(code, entry).blocked),
        entry.collision matches Some(kind) ==> (kind@ == "none"@ ==> !spec_legend_definition(code, entry).blocked),
        entry.collision is None ==> spec_legend_definition(code, entry).blocked == entry.blocked,
        spec_legend_definition(code, entry).texture == opt_view(entry.texture),
        spec_legend_definition(code, entry).atlas_index == entry.atlas_index,
        spec_legend_definition(code, entry).tint == opt_view(entry.tint),
{
    reveal_strlit("solid");
    reveal_strlit("none");
    assert("none"@[0] != "solid"@[0]);
}

/// The first unknown code of a row is a code of the row that the legend
/// lacks, after only known codes; a row has none exactly when every code
/// in it is known.
pub proof fn lemma_first_unknown_code(row: Seq<u8>, codes: Set<u8>)
    ensures
        spec_first_unknown(row, codes) matches Some(code) ==> !codes.contains(code) && exists|k: int|
            0 <= k < row.len() && #[trigger] row[k] == code && forall|j: int| 0 <= j < k ==> codes.contains(#[trigger] row[j]),
        spec_first_unknown(row, codes) is None <==> forall|k: int| 0 <= k < row.len() ==> codes.contains(#[trigger] row[k]),
    decreases row.len(),
{
    if row.len() > 0 {
        let rest = row.drop_first();
        lemma_first_unknown_code(rest, codes);
        assert forall|k: int| 0 <= k < rest.len() implies #[trigger] rest[k] == row[k + 1] by {}
        if codes.contains(row[0]) {
            if let Some(code) = spec_first_unknown(row, codes) {
                let k = choose|k: int|
                    0 <= k < rest.len() && #[trigger] rest[k] == code && forall|j: int|
                        0 <= j < k ==> codes.contains(#[trigger] rest[j]);
                assert(row[k + 1] == code);
                assert forall|j: int| 0 <= j < k + 1 implies codes.contains(#[trigger] row[j]) by {
                    if j > 0 {
                        assert(row[j] == rest[j - 1]);
                    }
                }
            }
            if forall|k: int| 0 <= k < row.len() ==> codes.contains(#[trigger] row[k]) {
                assert forall|k: int| 0 <= k < rest.len() implies codes.contains(#[trigger] rest[k]) by {
                    assert(rest[k] == row[k + 1]);
                }
            }
            if forall|k: int| 0 <= k < rest.len() ==> codes.contains(#[trigger] rest[k]) {
                assert forall|k: int| 0 <= k < row.len() implies codes.contains(#[trigger] row[k]) by {
                    if k > 0 {
                        assert(row[k] == rest[k - 1]);
                    }
                }
            }
        } else {
            assert(row[0] == row[0]);
        }
    }
}

/// The rows are accepted exactly when every row has a code and every code
/// of every row is in the legend.
pub proof fn lemma_rows_accepted_when_known(rows: Seq<Seq<u8>>, codes: Set<u8>)
    ensures
        spec_rows_error(rows, codes) is None <==> forall|r: int| 0 <= r < rows.len() ==> (#[trigger] rows[r]).len()
            > 0 && forall|c: int| 0 <= c < rows[r].len() ==> codes.contains(#[trigger] rows[r][c]),
    decreases rows.len(),
{
    if rows.len() > 0 {
        let rest = rows.drop_last();
        let last = rows.last();
        lemma_rows_accepted_when_known(rest, codes);
        lemma_first_unknown_code(last, codes);
        assert forall|r: int| 0 <= r < rest.len() implies #[trigger] rest[r] == rows[r] by {}
        assert(rows[rows.len() - 1] == last);
        if forall|r: int| 0 <= r < rows.len() ==> (#[trigger] rows[r]).len() > 0 && forall|c: int|
            0 <= c < rows[r].len() ==> codes.contains(#[trigger] rows[r][c]) {
            assert forall|r: int| 0 <= r < rest.len() implies (#[trigger] rest[r]).len() > 0 && forall|c: int|
                0 <= c < rest[r].len() ==> codes.contains(#[trigger] rest[r][c]) by {
                assert(rest[r] == rows[r]);
                assert(rows[r].len() > 0);
            }
            assert(last.len() > 0);
            assert forall|c: int| 0 <= c < last.len() implies codes.contains(#[trigger] last[c]) by {
                assert(rows[rows.len() - 1][c] == last[c]);
            }
        }
        if spec_rows_error(rows, codes) is None {
            assert forall|r: int| 0 <= r < rows.len() implies (#[trigger] rows[r]).len() > 0 && forall|c: int|
                0 <= c < rows[r].len() ==> codes.contains(#[trigger] rows[r][c]) by {
                if r < rest.len() {
                    assert(rest[r] == rows[r]);
                }
            }
        }
    }
}

/// A legend is refused exactly when one of its entries is; an accepted
/// legend defines exactly the codes its keys name, each as the last entry
/// for that code defines it.
pub proof fn lemma_legend_reads_entries(entries: Seq<(String, TileLegendConfig)>, has_tileset: bool)
    ensures
        spec_legend(entries, has_tileset) is Ok <==> forall|k: int|
            0 <= k < entries.len() ==> spec_legend_error((#[trigger] entries[k]).0@, entries[k].1, has_tileset) is None,
        spec_legend(entries, has_tileset) matches Ok(legend) ==> forall|code: u8|
            #[trigger] legend.contains_key(code) <==> exists|k: int|
                0 <= k < entries.len() && spec_parse_u8((#[trigger] entries[k]).0@) == Some(code),
        spec_legend(entries, has_tileset) matches Ok(legend) ==> forall|k: int|
            0 <= k < entries.len() && (forall|j: int|
                k < j < entries.len() ==> spec_parse_u8((#[trigger] entries[j]).0@) != spec_parse_u8(entries[k].0@))
                ==> legend[spec_parse_u8((#[trigger] entries[k]).0@)->0] == spec_legend_definition(
                spec_parse_u8(entries[k].0@)->0,
                entries[k].1,
            ),
    decreases entries.len(),
{
    if entries.len() > 0 {
        let rest = entries.drop_last();
        let n = entries.len() - 1;
        let last = entries.last();
        lemma_legend_reads_entries(rest, has_tileset);
        assert forall|k: int| 0 <= k < rest.len() implies #[trigger] rest[k] == entries[k] by {}
        assert(entries[n] == last);
        if forall|k: int| 0 <= k < entries.len() ==> spec_legend_error((#[trigger] entries[k]).0@, entries[k].1, has_tileset)
            is None {
            assert forall|k: int| 0 <= k < rest.len() implies spec_legend_error((#[trigger] rest[k]).0@, rest[k].1, has_tileset)
                is None by {
                assert(rest[k] == entries[k]);
            }
        }
        if spec_legend(entries, has_tileset) is Ok {
            assert forall|k: int| 0 <= k < entries.len() implies spec_legend_error((#[trigger] entries[k]).0@, entries[k].1, has_tileset)
                is None by {
                if k < n {
                    assert(rest[k] == entries[k]);
                }
            }
            let legend = spec_legend(entries, has_tileset)->Ok_0;
            let before = spec_legend(rest, has_tileset)->Ok_0;
            let code = spec_parse_u8(last.0@)->0;
            assert(spec_parse_u8(last.0@) is Some);
            assert forall|c: u8| #[trigger] legend.contains_key(c) <==> exists|k: int|
                0 <= k < entries.len() && spec_parse_u8((#[trigger] entries[k]).0@) == Some(c) by {
                if c == code {
                    assert(spec_parse_u8(entries[n].0@) == Some(c));
                } else if before.contains_key(c) {
                    let k = choose|k: int| 0 <= k < rest.len() && spec_parse_u8((#[trigger] rest[k]).0@) == Some(c);
                    assert(entries[k] == rest[k]);
                }
                if exists|k: int| 0 <= k < entries.len() && spec_parse_u8((#[trigger] entries[k]).0@) == Some(c) {
                    let k = choose|k: int| 0 <= k < entries.len() && spec_parse_u8((#[trigger] entries[k]).0@) == Some(c);
                    if k < n {
                        assert(rest[k] == entries[k]);
                    }
                }
            }
            assert forall|k: int|
                0 <= k < entries.len() && (forall|j: int|
                    k < j < entries.len() ==> spec_parse_u8((#[trigger] entries[j]).0@) != spec_parse_u8(entries[k].0@))
                    implies legend[spec_parse_u8((#[trigger] entries[k]).0@)->0] == spec_legend_definition(
                    spec_parse_u8(entries[k].0@)->0,
                    entries[k].1,
                ) by {
                if k < n {
                    assert(rest[k] == entries[k]);
                    assert(spec_parse_u8(entries[n].0@) != spec_parse_u8(entries[k].0@));
                    assert(spec_legend_error(entries[k].0@, entries[k].1, has_tileset) is None);
                    assert forall|j: int| k < j < rest.len() implies spec_parse_u8((#[trigger] rest[j]).0@) != spec_parse_u8(
                        rest[k].0@,
                    ) by {
                        assert(rest[j] == entries[j]);
                    }
                }
            }
        }
    }
}

/// The codes of each row.
pub open spec fn row_seqs(rows: Seq<Vec<u8>>) -> Seq<Seq<u8>> {
    rows.map_values(|row: Vec<u8>| row@)
}

/// The validated content of a TOML tile map.
#[derive(Debug, Clone)]
pub struct TileMapContent {
    pub tileset: Option<TileSetDefinition>,
    /// Tile definitions by code, in increasing code order.
    pub legend: Vec<(u8, TileDefinition)>,
    pub rows: Vec<Vec<TileCell>>,
}

/// The codes of the cells.
pub open spec fn cell_codes(row: Seq<TileCell>) -> Seq<u8> {
    row.map_values(|cell: TileCell| cell.code)
}

/// A legend as a map by code.
pub open spec fn legend_view(legend: Seq<(u8, TileDefinition)>) -> Map<u8, TileDefinitionView> {
    Map::new(
        |code: u8| exists|i: int| 0 <= i < legend.len() && #[trigger] legend[i].0 == code,
        |code: u8| legend[choose|i: int| 0 <= i < legend.len() && #[trigger] legend[i].0 == code].1@,
    )
}

/// The error that a TOML tile map's tileset, legend and rows are refused
/// with, if they are; checked in the order rows present, legend present,
/// tileset, legend entries, rows.
pub open spec fn spec_tile_content_error(
    tileset: Option<TileSetConfig>,
    legend: Seq<(String, TileLegendConfig)>,
    rows: Seq<Seq<u8>>,
) -> Option<Seq<char>> {
    if rows.len() == 0 {
        Some("map has no tile rows"@)
    } else if legend.len() == 0 {
        Some("TOML tile maps must define at least one [legend.<code>] entry"@)
    } else if tileset matches Some(t) && spec_tileset_error(t) is Some {
        spec_tileset_error(tileset->0)
    } else {
        match spec_legend(legend, tileset is Some) {
            Err(message) => Some(message),
            Ok(map) => spec_rows_error(rows, map.dom()),
        }
    }
}

/// The definition from a valid legend entry.
fn legend_definition(code: u8, entry: &TileLegendConfig) -> (definition: TileDefinition)
    requires
        match entry.collision {
            Some(kind) => kind@ == "none"@ || kind@ == "solid"@,
            None => true,
        },
    ensures
        definition@ == spec_legend_definition(code, *entry),
{
    let name = match &entry.name {
        Some(n) => n.clone(),
        None => decimal_string(code as u64),
    };
    let blocked = match &entry.collision {
        Some(kind) => {
            let chars = chars_of(kind.as_str());
            let solid = chars_of("solid");
            chars_equal(chars.as_slice(), solid.as_slice())
        },
        None => entry.blocked,
    };
    TileDefinition {
        name,
        texture: entry.texture.clone(),
        atlas_index: entry.atlas_index,
        blocked,
        tint: entry.tint.clone(),
    }
}

/// The error of a legend entry, if it is refused.
fn legend_entry_error(key: &String, entry: &TileLegendConfig, has_tileset: bool) -> (error: Option<String>)
    ensures
        match error {
            Some(message) => spec_legend_error(key@, *entry, has_tileset) == Some(message@),
            None => spec_legend_error(key@, *entry, has_tileset) is None,
        },
{
    let code = match parse_u8(key.as_str()) {
        Some(code) => code,
        None => {
            let mut message = "invalid legend tile code '".to_owned();
            message.append(key.as_str());
            message.append("'");
            return Some(message);
        },
    };
    if let Some(texture) = &entry.texture {
        let chars = chars_of(texture.as_str());
        if trim(chars.as_slice()).len() == 0 {
            let mut message = "legend tile code ".to_owned();
            message.append(decimal_string(code as u64).as_str());
            message.append(" has an empty texture");
            return Some(message);
        }
    }
    if entry.atlas_index.is_some() && !has_tileset {
        let mut message = "legend tile code ".to_owned();
        message.append(decimal_string(code as u64).as_str());
        message.append(" uses atlas_index but the map has no [tileset]");
        return Some(message);
    }
    match &entry.collision {
        Some(kind) => match parse_tile_collision(code, Some(kind.as_str())) {
            Ok(_) => None,
            Err(error) => Some(error.message().to_owned()),
        },
        None => None,
    }
}

/// Validates the tileset, legend and rows of a TOML tile map whose tile
/// size was accepted. The legend entries come in the order of their keys.
pub fn build_tile_content(
    tileset: Option<TileSetConfig>,
    legend: Vec<(String, TileLegendConfig)>,
    rows: Vec<Vec<u8>>,
) -> (result: Result<TileMapContent, TileMapError>)
    ensures
        match spec_tile_content_error(tileset, legend@, row_seqs(rows@)) {
            Some(message) => result matches Err(error) && error.spec_message() == message,
            None => result matches Ok(content) && legend_view(content.legend@) == spec_legend(legend@, tileset is Some)->Ok_0
                && content.rows@.len() == rows@.len()
                && (forall|i: int| 0 <= i < rows@.len() ==> cell_codes(#[trigger] content.rows@[i]@) == rows@[i]@)
                && (forall|a: int, b: int| 0 <= a < b < content.legend@.len() ==> (#[trigger] content.legend@[a]).0 < (#[trigger] content.legend@[b]).0)
                && match tileset {
                    Some(config) => content.tileset matches Some(definition) && definition.atlas@ == config.atlas@
                        && definition.tile_width == config.tile_width && definition.tile_height == config.tile_height
                        && definition.columns == config.columns && definition.margin == config.margin
                        && definition.spacing == config.spacing,
                    None => content.tileset is None,
                },
        },
{
    let ghost tileset_config = tileset;
    let ghost row_views = row_seqs(rows@);
    if rows.len() == 0 {
        return Err(TileMapError::new("map has no tile rows"));
    }
    if legend.len() == 0 {
        return Err(TileMapError::new("TOML tile maps must define at least one [legend.<code>] entry"));
    }
    let has_tileset = tileset.is_some();
    let tileset_definition = match &tileset {
        Some(config) => match parse_tileset(config) {
            Ok(definition) => Some(definition),
            Err(error) => return Err(error),
        },
        None => None,
    };
    let mut slots: Vec<Option<TileDefinition>> = Vec::new();
    let mut k: usize = 0;
    while k < 256
        invariant
            k <= 256,
            slots@.len() == k,
            forall|j: int| 0 <= j < k ==> slots@[j] is None,
        decreases 256 - k,
    {
        slots.push(None);
        k = k + 1;
    }
    let mut i: usize = 0;
    assert(legend@.take(0) =~= Seq::<(String, TileLegendConfig)>::empty());
    assert(Map::<u8, TileDefinitionView>::empty().dom() =~= Set::<u8>::empty());
    while i < legend.len()
        invariant
            i <= legend@.len(),
            slots@.len() == 256,
            rows@.len() > 0,
            legend@.len() > 0,
            has_tileset == tileset_config is Some,
            tileset_config == tileset,
            row_views == row_seqs(rows@),
            !(tileset_config matches Some(t) && spec_tileset_error(t) is Some),
            spec_legend(legend@.take(i as int), has_tileset) is Ok,
            forall|code: u8| #[trigger] spec_legend(legend@.take(i as int), has_tileset)->Ok_0.contains_key(code)
                <==> slots@[code as int] is Some,
            forall|code: u8| #[trigger] spec_legend(legend@.take(i as int), has_tileset)->Ok_0.contains_key(code)
                ==> slots@[code as int]->0@ == spec_legend(legend@.take(i as int), has_tileset)->Ok_0[code],
        decreases legend@.len() - i,
    {
        proof {
            let t = legend@.take(i + 1);
            assert(t.drop_last() =~= legend@.take(i as int));
            assert(t.last() == legend@[i as int]);
        }
        match legend_entry_error(&legend[i].0, &legend[i].1, has_tileset) {
            Some(message) => {
                proof {
                    let t = legend@.take(i + 1);
                    assert(spec_legend(t, has_tileset) == Err::<Map<u8, TileDefinitionView>, Seq<char>>(message@));
                    lemma_legend_error_prefix(legend@, i + 1, has_tileset);
                    assert(spec_tile_content_error(tileset_config, legend@, row_views) == Some(message@));
                    assert(row_views == row_seqs(rows@));
                    assert(spec_tile_content_error(tileset_config, legend@, row_seqs(rows@)) == Some(message@));
                }
                return Err(TileMapError::from_string(message));
            },
            None => {},
        }
        let code = match parse_u8(legend[i].0.as_str()) {
            Some(code) => code,
            None => {
                assert(false);
                0
            },
        };
        let definition = legend_definition(code, &legend[i].1);
        slots.set(code as usize, Some(definition));
        i = i + 1;
    }
    assert(legend@.take(legend@.len() as int) =~= legend@);
    let ghost legend_map = spec_legend(legend@, has_tileset)->Ok_0;
    assert(spec_tile_content_error(tileset_config, legend@, row_views) == spec_rows_error(row_views, legend_map.dom()));
    let mut cells: Vec<Vec<TileCell>> = Vec::new();
    let mut r: usize = 0;
    assert(row_views.take(0) =~= Seq::<Seq<u8>>::empty());
    while r < rows.len()
        invariant
            r <= rows@.len(),
            tileset_config == tileset,
            row_views == row_seqs(rows@),
            spec_tile_content_error(tileset_config, legend@, row_views) == spec_rows_error(row_views, legend_map.dom()),
            slots@.len() == 256,
            forall|code: u8| #[trigger] legend_map.contains_key(code) <==> slots@[code as int] is Some,
            spec_rows_error(row_views.take(r as int), legend_map.dom()) is None,
            cells@.len() == r,
            forall|q: int| 0 <= q < r ==> cell_codes(#[trigger] cells@[q]@) == rows@[q]@,
        decreases rows@.len() - r,
    {
        proof {
            let t = row_views.take(r + 1);
            assert(t.drop_last() =~= row_views.take(r as int));
            assert(t.last() == rows@[r as int]@);
        }
        let row = &rows[r];
        if row.len() == 0 {
            let mut message = "tile row ".to_owned();
            message.append(decimal_string(r as u64).as_str());
            message.append(" must not be empty");
            proof {
                let t = row_views.take(r + 1);
                assert(t.last() == row@);
                assert(spec_rows_error(t, legend_map.dom()) == Some(message@));
                lemma_rows_error_prefix(row_views, r + 1, legend_map.dom());
            }
            return Err(TileMapError::from_string(message));
        }
        let mut row_cells: Vec<TileCell> = Vec::new();
        let mut c: usize = 0;
        assert(row@.skip(0) =~= row@);
        while c < row.len()
            invariant
                c <= row@.len(),
                r < rows@.len(),
                tileset_config == tileset,
                row_views == row_seqs(rows@),
                row_views.take(r + 1).last() == row@,
                row_views.take(r + 1).drop_last() == row_views.take(r as int),
                spec_rows_error(row_views.take(r as int), legend_map.dom()) is None,
                spec_tile_content_error(tileset_config, legend@, row_views) == spec_rows_error(row_views, legend_map.dom()),
                row@.len() > 0,
                slots@.len() == 256,
                forall|code: u8| #[trigger] legend_map.contains_key(code) <==> slots@[code as int] is Some,
                spec_first_unknown(row@, legend_map.dom()) == spec_first_unknown(row@.skip(c as int), legend_map.dom()),
                cell_codes(row_cells@) == row@.take(c as int),
            decreases row@.len() - c,
        {
            let ghost rest = row@.skip(c as int);
            assert(rest[0] == row@[c as int]);
            assert(rest.drop_first() =~= row@.skip(c + 1));
            let code = row[c];
            if slots[code as usize].is_none() {
                let mut message = "tile code ".to_owned();
                message.append(decimal_string(code as u64).as_str());
                message.append(" in row ");
                message.append(decimal_string(r as u64).as_str());
                message.append(" has no legend definition");
                proof {
                    assert(!legend_map.contains_key(code));
                    assert(spec_first_unknown(row@.skip(c as int), legend_map.dom()) == Some(code));
                    let t = row_views.take(r + 1);
                    assert(spec_rows_error(t, legend_map.dom()) == Some(message@));
                    lemma_rows_error_prefix(row_views, r + 1, legend_map.dom());
                }
                return Err(TileMapError::from_string(message));
            }
            let ghost before_cells = row_cells@;
            row_cells.push(TileCell { code });
            proof {
                assert(row_cells@ =~= before_cells.push(TileCell { code }));
                assert(cell_codes(row_cells@) =~= cell_codes(before_cells).push(code));
                assert(row@.take(c + 1) =~= row@.take(c as int).push(code));
            }
            c = c + 1;
        }
        proof {
            assert(row@.skip(c as int) =~= Seq::<u8>::empty());
            assert(row@.take(c as int) =~= row@);
        }
        cells.push(row_cells);
        r = r + 1;
    }
    assert(row_views.take(r as int) =~= row_views);
    let mut defined: Vec<(u8, TileDefinition)> = Vec::new();
    let mut code_index: usize = 0;
    while code_index < 256
        invariant
            code_index <= 256,
            slots@.len() == 256,
            forall|code: u8| #[trigger] legend_map.contains_key(code) <==> slots@[code as int] is Some,
            forall|code: u8| #[trigger] legend_map.contains_key(code) ==> slots@[code as int]->0@ == legend_map[code],
            forall|a: int, b: int| 0 <= a < b < defined@.len() ==> (#[trigger] defined@[a]).0 < (#[trigger] defined@[b]).0,
            forall|a: int| 0 <= a < defined@.len() ==> (#[trigger] defined@[a]).0 < code_index,
            forall|a: int| 0 <= a < defined@.len() ==> legend_map.contains_key((#[trigger] defined@[a]).0) && defined@[a].1@ == legend_map[defined@[a].0],
            forall|code: u8| code < code_index && #[trigger] legend_map.contains_key(code) ==> exists|a: int| 0 <= a < defined@.len() && (#[trigger] defined@[a]).0 == code,
        decreases 256 - code_index,
    {
        let code = code_index as u8;
        match &slots[code_index] {
            Some(definition) => {
                let ghost before = defined@;
                defined.push((code, clone_definition(definition)));
                proof {
                    assert(defined@[defined@.len() - 1].0 == code);
                    assert forall|c: u8| c < code_index + 1 && #[trigger] legend_map.contains_key(c) implies exists|a: int| 0 <= a < defined@.len() && (#[trigger] defined@[a]).0 == c by {
                        if c < code_index {
                            let a = choose|a: int| 0 <= a < before.len() && (#[trigger] before[a]).0 == c;
                            assert(defined@[a].0 == c);
                        } else {
                            assert(defined@[defined@.len() - 1].0 == c);
                        }
                    }
                }
            },
            None => {},
        }
        code_index = code_index + 1;
    }
    let content = TileMapContent { tileset: tileset_definition, legend: defined, rows: cells };
    proof {
        assert forall|code: u8| #[trigger] legend_view(content.legend@).contains_key(code) <==> legend_map.contains_key(code) by {
            if legend_map.contains_key(code) {
                assert(code < 256);
            }
        }
        assert forall|code: u8| #[trigger] legend_view(content.legend@).contains_key(code) implies legend_view(content.legend@)[code] == legend_map[code] by {
            let a = choose|a: int| 0 <= a < content.legend@.len() && #[trigger] content.legend@[a].0 == code;
        }
        assert(legend_view(content.legend@) =~= legend_map);
    }
    Ok(content)
}

fn clone_text(text: &Option<String>) -> (copy: Option<String>)
    ensures
        opt_view(copy) == opt_view(*text),
{
    match text {
        Some(t) => Some(t.clone()),
        None => None,
    }
}

fn clone_definition(definition: &TileDefinition) -> (copy: TileDefinition)
    ensures
        copy@ == definition@,
{
    TileDefinition {
        name: definition.name.clone(),
        texture: clone_text(&definition.texture),
        atlas_index: definition.atlas_index,
        blocked: definition.blocked,
        tint: clone_text(&definition.tint),
    }
}

proof fn lemma_legend_error_prefix(entries: Seq<(String, TileLegendConfig)>, k: int, has_tileset: bool)
    requires
        0 <= k <= entries.len(),
        spec_legend(entries.take(k), has_tileset) is Err,
    ensures
        spec_legend(entries, has_tileset) == spec_legend(entries.take(k), has_tileset),
    decreases entries.len() - k,
{
    if k < entries.len() {
        let t = entries.take(k + 1);
        assert(t.drop_last() =~= entries.take(k));
        lemma_legend_error_prefix(entries, k + 1, has_tileset);
    } else {
        assert(entries.take(k) =~= entries);
    }
}

proof fn lemma_rows_error_prefix(rows: Seq<Seq<u8>>, k: int, codes: Set<u8>)
    requires
        0 <= k <= rows.len(),
        spec_rows_error(rows.take(k), codes) is Some,
    ensures
        spec_rows_error(rows, codes) == spec_rows_error(rows.take(k), codes),
    decreases rows.len() - k,
{
    if k < rows.len() {
        let t = rows.take(k + 1);
        assert(t.drop_last() =~= rows.take(k));
        lemma_rows_error_prefix(rows, k + 1, codes);
    } else {
        assert(rows.take(k) =~= rows);
    }
}

// ---------------------------------------------------------------------------
// Legacy tile maps

/// What a legacy tile map has given so far: its `tile_size` settings as
/// written, with their line numbers; its tile rows; its object positions in
/// the order written; and which section the lines are in.
pub struct LegacyState {
    pub settings: Seq<(Seq<char>, nat)>,
    pub rows: Seq<Seq<u8>>,
    pub objects: Seq<(Seq<char>, (i32, i32))>,
    pub in_tiles: bool,
    pub in_objects: bool,
}

/// The codes of a tile row, or the first token that is no code.
pub open spec fn spec_row_codes(tokens: Seq<Seq<char>>) -> Result<Seq<u8>, Seq<char>>
    decreases tokens.len(),
{
    if tokens.len() == 0 {
        Ok(seq![])
    } else {
        match spec_parse_u8(spec_trim(tokens[0])) {
            None => Err(spec_trim(tokens[0])),
            Some(code) => match spec_row_codes(tokens.drop_first()) {
                Ok(rest) => Ok(seq![code] + rest),
                Err(bad) => Err(bad),
            },
        }
    }
}

/// The text `<message> <number>`, with the line number in decimal.
pub open spec fn at_line(message: Seq<char>, number: nat) -> Seq<char> {
    message + spec_decimal(number)
}

/// What one line of a legacy tile map does to what has been read, or why
/// it is refused.
pub open spec fn spec_legacy_line(state: LegacyState, raw: Seq<char>, number: nat) -> Result<LegacyState, Seq<char>> {
    let line = spec_trim(raw);
    if line.len() == 0 || line[0] == '#' {
        Ok(state)
    } else if line == "[tiles]"@ {
        Ok(LegacyState { in_tiles: true, in_objects: false, ..state })
    } else if line == "[objects]"@ {
        Ok(LegacyState { in_tiles: false, in_objects: true, ..state })
    } else if !state.in_tiles && !state.in_objects {
        match spec_split_once(line, '=') {
            None => Err(at_line("invalid map setting at line "@, number)),
            Some((key, value)) => if spec_trim(key) == "tile_size"@ {
                Ok(LegacyState { settings: state.settings.push((spec_trim(value), number)), ..state })
            } else {
                Ok(state)
            },
        }
    } else if state.in_tiles {
        match spec_row_codes(spec_split(line, ',')) {
            Err(bad) => Err("invalid tile code '"@ + bad + "' at line "@ + spec_decimal(number)),
            Ok(codes) => Ok(LegacyState { rows: state.rows.push(codes), ..state }),
        }
    } else {
        match spec_split_once(line, '=') {
            None => Err(at_line("invalid object line at "@, number)),
            Some((name, values)) => match spec_split_once(values, ',') {
                None => Err(at_line("invalid object value at line "@, number)),
                Some((x_text, y_text)) => match spec_parse_i32(spec_trim(x_text)) {
                    None => Err(at_line("invalid object x coordinate at line "@, number)),
                    Some(x) => match spec_parse_i32(spec_trim(y_text)) {
                        None => Err(at_line("invalid object y coordinate at line "@, number)),
                        Some(y) => Ok(LegacyState { objects: state.objects.push((spec_trim(name), (x, y))), ..state }),
                    },
                },
            },
        }
    }
}

/// Reads the lines from line number `number` on: what they give, and the
/// line number and message of the first refused line, if any.
pub open spec fn spec_legacy_scan(lines: Seq<Seq<char>>, number: nat, state: LegacyState) -> (LegacyState, Option<(nat, Seq<char>)>)
    decreases lines.len(),
{
    if lines.len() == 0 {
        (state, None)
    } else {
        match spec_legacy_line(state, lines[0], number) {
            Err(message) => (state, Some((number, message))),
            Ok(next) => spec_legacy_scan(lines.drop_first(), number + 1, next),
        }
    }
}

/// Comment and blank lines are skipped wherever they stand: a line whose
/// trimmed text is empty or starts with `#` leaves the reading state as it
/// was and is never refused, so a scan reads past it as if it were absent,
/// only the following lines' numbers counting it.
pub proof fn lemma_comment_lines_are_skipped(
    state: LegacyState,
    raw: Seq<char>,
    number: nat,
    rest: Seq<Seq<char>>,
)
    requires
        spec_trim(raw).len() == 0 || spec_trim(raw)[0] == '#',
    ensures
        spec_legacy_line(state, raw, number) == Ok::<LegacyState, Seq<char>>(state),
        spec_legacy_scan(seq![raw] + rest, number, state) == spec_legacy_scan(rest, number + 1, state),
{
    let lines = seq![raw] + rest;
    assert(lines[0] == raw);
    assert(lines.drop_first() =~= rest);
}

/// A tile row gives one code per comma-separated token, in order, each the
/// token's trimmed text read as a code; where a token is no code, the row
/// is refused naming the first such token's trimmed text.
pub proof fn lemma_row_codes_read_each_token(tokens: Seq<Seq<char>>)
    ensures
        spec_row_codes(tokens) matches Ok(codes) ==> {
            &&& codes.len() == tokens.len()
            &&& forall|i: int| 0 <= i < tokens.len() ==> spec_parse_u8(spec_trim(#[trigger] tokens[i])) == Some(codes[i])
        },
        spec_row_codes(tokens) matches Err(bad) ==> exists|k: int|
            0 <= k < tokens.len() && bad == spec_trim(#[trigger] tokens[k]) && spec_parse_u8(spec_trim(tokens[k]))
                is None && forall|j: int| 0 <= j < k ==> spec_parse_u8(spec_trim(#[trigger] tokens[j])) is Some,
        (forall|i: int| 0 <= i < tokens.len() ==> spec_parse_u8(spec_trim(#[trigger] tokens[i])) is Some)
            ==> spec_row_codes(tokens) is Ok,
    decreases tokens.len(),
{
    if tokens.len() > 0 {
        let rest = tokens.drop_first();
        lemma_row_codes_read_each_token(rest);
        if let Ok(codes) = spec_row_codes(tokens) {
            let rest_codes = spec_row_codes(rest)->Ok_0;
            assert forall|i: int| 0 <= i < tokens.len() implies spec_parse_u8(spec_trim(#[trigger] tokens[i]))
                == Some(codes[i]) by {
                if i > 0 {
                    assert(tokens[i] == rest[i - 1]);
                    assert(codes[i] == rest_codes[i - 1]);
                }
            }
        }
        if let Err(bad) = spec_row_codes(tokens) {
            if spec_parse_u8(spec_trim(tokens[0])) is None {
                assert(bad == spec_trim(tokens[0]));
            } else {
                let k = choose|k: int|
                    0 <= k < rest.len() && bad == spec_trim(#[trigger] rest[k]) && spec_parse_u8(spec_trim(rest[k]))
                        is None && forall|j: int| 0 <= j < k ==> spec_parse_u8(spec_trim(#[trigger] rest[j])) is Some;
                assert(tokens[k + 1] == rest[k]);
                assert forall|j: int| 0 <= j < k + 1 implies spec_parse_u8(spec_trim(#[trigger] tokens[j])) is Some by {
                    if j > 0 {
                        assert(tokens[j] == rest[j - 1]);
                    }
                }
            }
        }
        if forall|i: int| 0 <= i < tokens.len() ==> spec_parse_u8(spec_trim(#[trigger] tokens[i])) is Some {
            assert forall|i: int| 0 <= i < rest.len() implies spec_parse_u8(spec_trim(#[trigger] rest[i])) is Some by {
                assert(rest[i] == tokens[i + 1]);
            }
            assert(spec_parse_u8(spec_trim(tokens[0])) is Some);
        }
    }
}

/// One line never loses what was read: an accepted line keeps the settings,
/// rows and objects read so far and adds at most one of each at the end; a
/// `[tiles]` or `[objects]` header switches to its section and keeps what
/// was read, and no other line changes the section.
pub proof fn lemma_legacy_line_keeps_what_was_read(state: LegacyState, raw: Seq<char>, number: nat)
    ensures
        spec_legacy_line(state, raw, number) matches Ok(next) ==> {
            &&& state.settings.len() <= next.settings.len() <= state.settings.len() + 1
            &&& next.settings.take(state.settings.len() as int) == state.settings
            &&& state.rows.len() <= next.rows.len() <= state.rows.len() + 1
            &&& next.rows.take(state.rows.len() as int) == state.rows
            &&& state.objects.len() <= next.objects.len() <= state.objects.len() + 1
            &&& next.objects.take(state.objects.len() as int) == state.objects
        },
        spec_trim(raw) == "[tiles]"@ ==> (spec_legacy_line(state, raw, number) matches Ok(next) && next.in_tiles
            && !next.in_objects && next.settings == state.settings && next.rows == state.rows && next.objects
            == state.objects),
        spec_trim(raw) == "[objects]"@ ==> (spec_legacy_line(state, raw, number) matches Ok(next) && !next.in_tiles
            && next.in_objects && next.settings == state.settings && next.rows == state.rows && next.objects
            == state.objects),
        spec_trim(raw) != "[tiles]"@ && spec_trim(raw) != "[objects]"@ ==> (spec_legacy_line(state, raw, number)
            matches Ok(next) ==> next.in_tiles == state.in_tiles && next.in_objects == state.in_objects),
{
    reveal_strlit("[tiles]");
    reveal_strlit("[objects]");
    assert(state.settings.take(state.settings.len() as int) =~= state.settings);
    assert(state.rows.take(state.rows.len() as int) =~= state.rows);
    assert(state.objects.take(state.objects.len() as int) =~= state.objects);
    if let Ok(next) = spec_legacy_line(state, raw, number) {
        if next.settings.len() == state.settings.len() + 1 {
            assert(next.settings.take(state.settings.len() as int) =~= state.settings);
        }
        if next.rows.len() == state.rows.len() + 1 {
            assert(next.rows.take(state.rows.len() as int) =~= state.rows);
        }
        if next.objects.len() == state.objects.len() + 1 {
            assert(next.objects.take(state.objects.len() as int) =~= state.objects);
        }
    }
}

/// Reading stops at the first refused line: the refused line's number is
/// that of one of the lines read, and lines after it change nothing, so
/// reading more lines after a refusal gives the same result.
pub proof fn lemma_legacy_scan_stops_at_refusal(
    lines: Seq<Seq<char>>,
    more: Seq<Seq<char>>,
    number: nat,
    state: LegacyState,
)
    ensures
        spec_legacy_scan(lines, number, state).1 matches Some((n, _)) ==> number <= n < number + lines.len(),
        spec_legacy_scan(lines, number, state).1 is Some ==> spec_legacy_scan(lines + more, number, state)
            == spec_legacy_scan(lines, number, state),
        spec_legacy_scan(lines, number, state).1 is None ==> spec_legacy_scan(lines + more, number, state)
            == spec_legacy_scan(more, number + lines.len(), spec_legacy_scan(lines, number, state).0),
    decreases lines.len(),
{
    if lines.len() > 0 {
        let all = lines + more;
        assert(all[0] == lines[0]);
        assert(all.drop_first() =~= lines.drop_first() + more);
        if let Ok(next) = spec_legacy_line(state, lines[0], number) {
            lemma_legacy_scan_stops_at_refusal(lines.drop_first(), more, number + 1, next);
        }
    } else {
        assert(lines + more =~= more);
    }
}

/// The empty reading state, before any section.
pub open spec fn legacy_start() -> LegacyState {
    LegacyState { settings: seq![], rows: seq![], objects: seq![], in_tiles: false, in_objects: false }
}

/// What a legacy tile map gives up to its first refused line: its
/// `tile_size` settings as written with their line numbers, its tile rows,
/// the generic definitions of the codes they use, and its object positions
/// in order; and the first refused line's number and message, if any.
#[derive(Debug, Clone)]
pub struct LegacyTileScan {
    pub settings: Vec<(String, usize)>,
    pub rows: Vec<Vec<TileCell>>,
    /// Generic definitions of the codes the rows use, by increasing code.
    pub legend: Vec<(u8, TileDefinition)>,
    pub objects: Vec<(String, (i32, i32))>,
    pub error: Option<(usize, TileMapError)>,
}

impl LegacyTileScan {
    /// What the scanned lines refuse, once every `tile_size` setting has been
    /// read as a number: the first refused line's error, else, where there
    /// are no tile rows, that the map has none.
    pub fn structure_error(&self) -> (error: Option<TileMapError>)
        ensures
            match self.error {
                Some((_, refused)) => error matches Some(e) && e.spec_message() == refused.spec_message(),
                None => if self.rows@.len() == 0 {
                    error matches Some(e) && e.spec_message() == "map has no [tiles] section or row definitions"@
                } else {
                    error is None
                },
            },
    {
        match &self.error {
            Some((_, refused)) => Some(TileMapError::from_string(refused.message.clone())),
            None => if self.rows.len() == 0 {
                Some(TileMapError::new("map has no [tiles] section or row definitions"))
            } else {
                None
            },
        }
    }
}

/// Whether a tile map source is in the TOML form: some line starts, after
/// leading white space, with `[legend`.
pub open spec fn spec_is_toml_tile_map(source: Seq<char>) -> bool {
    exists|i: int|
        0 <= i < spec_lines(source).len() && starts_with(spec_trim_start(#[trigger] spec_lines(source)[i]), "[legend"@)
}

/// Tells a TOML tile map (one with a `[legend` section) from a legacy one.
pub fn is_toml_tile_map(source: &str) -> (toml: bool)
    ensures
        toml == spec_is_toml_tile_map(source@),
{
    let chars = chars_of(source);
    let lines = lines_of(chars.as_slice());
    let marker = chars_of("[legend");
    let mut i: usize = 0;
    while i < lines.len()
        invariant
            i <= lines@.len(),
            lines@.len() == spec_lines(source@).len(),
            chars@ == source@,
            marker@ == "[legend"@,
            forall|q: int| 0 <= q < lines@.len() ==> #[trigger] lines@[q]@ == spec_lines(source@)[q],
            forall|q: int| 0 <= q < i ==> !starts_with(spec_trim_start(#[trigger] spec_lines(source@)[q]), "[legend"@),
        decreases lines@.len() - i,
    {
        let line = trim_start(lines[i].as_slice());
        if starts_with_exec(line.as_slice(), marker.as_slice()) {
            return true;
        }
        i = i + 1;
    }
    false
}

/// The definition a legacy map gives a code it uses: named `tile_<code>`,
/// untextured, and blocked unless the code is 0.
pub open spec fn spec_generic_definition(code: u8) -> TileDefinitionView {
    TileDefinitionView {
        name: "tile_"@ + spec_decimal(code as nat),
        texture: None,
        atlas_index: None,
        blocked: code != 0,
        tint: None,
    }
}

/// Whether the legend lists exactly the codes in `codes`, by increasing
/// code, each with its generic definition.
pub open spec fn generic_legend(legend: Seq<(u8, TileDefinition)>, codes: Set<u8>) -> bool {
    &&& forall|i: int, j: int| 0 <= i < j < legend.len() ==> (#[trigger] legend[i]).0 < (#[trigger] legend[j]).0
    &&& forall|i: int|
        0 <= i < legend.len() ==> codes.contains((#[trigger] legend[i]).0) && legend[i].1@ == spec_generic_definition(
            legend[i].0,
        )
    &&& forall|code: u8| #[trigger] codes.contains(code) ==> exists|i: int| 0 <= i < legend.len() && legend[i].0 == code
}

/// The row codes as sequences.
pub open spec fn scan_rows(rows: Seq<Vec<TileCell>>) -> Seq<Seq<u8>> {
    rows.map_values(|row: Vec<TileCell>| cell_codes(row@))
}

/// The codes that the rows use.
pub open spec fn used_codes(rows: Seq<Seq<u8>>) -> Set<u8> {
    Set::new(|code: u8| exists|r: int, c: int| 0 <= r < rows.len() && 0 <= c < rows[r].len() && #[trigger] rows[r][c] == code)
}

proof fn lemma_used_codes_push(rows: Seq<Seq<u8>>, codes: Seq<u8>)
    ensures
        forall|x: u8| #[trigger] used_codes(rows.push(codes)).contains(x) <==> (used_codes(rows).contains(x)
            || codes.contains(x)),
{
    let pushed = rows.push(codes);
    assert forall|x: u8| #[trigger] used_codes(pushed).contains(x) <==> (used_codes(rows).contains(x)
        || codes.contains(x)) by {
        if used_codes(pushed).contains(x) {
            let (r, c) = choose|r: int, c: int| 0 <= r < pushed.len() && 0 <= c < pushed[r].len() && #[trigger] pushed[r][c] == x;
            if r < rows.len() {
                assert(rows[r][c] == x);
            } else {
                assert(codes[c] == x);
            }
        }
        if used_codes(rows).contains(x) {
            let (r, c) = choose|r: int, c: int| 0 <= r < rows.len() && 0 <= c < rows[r].len() && #[trigger] rows[r][c] == x;
            assert(pushed[r][c] == x);
        }
        if codes.contains(x) {
            let c = choose|c: int| 0 <= c < codes.len() && codes[c] == x;
            assert(pushed[rows.len() as int][c] == x);
        }
    }
}

fn row_codes(tokens: &Vec<Vec<char>>) -> (codes: Result<Vec<u8>, Vec<char>>)
    ensures
        match codes {
            Ok(c) => spec_row_codes(tokens@.map_values(|t: Vec<char>| t@)) == Ok::<Seq<u8>, Seq<char>>(c@),
            Err(bad) => spec_row_codes(tokens@.map_values(|t: Vec<char>| t@)) == Err::<Seq<u8>, Seq<char>>(bad@),
        },
{
    let ghost views = tokens@.map_values(|t: Vec<char>| t@);
    let mut codes: Vec<u8> = Vec::new();
    let mut i: usize = 0;
    assert(views.skip(0) =~= views);
    while i < tokens.len()
        invariant
            i <= tokens@.len(),
            views == tokens@.map_values(|t: Vec<char>| t@),
            spec_row_codes(views) == match spec_row_codes(views.skip(i as int)) {
                Ok(rest) => Ok(codes@ + rest),
                Err(bad) => Err(bad),
            },
        decreases tokens@.len() - i,
    {
        let ghost rest = views.skip(i as int);
        assert(rest[0] == tokens@[i as int]@);
        assert(rest.drop_first() =~= views.skip(i + 1));
        let token = trim(tokens[i].as_slice());
        let text = string_from_chars(token.as_slice());
        match parse_u8(text.as_str()) {
            Some(code) => {
                let ghost before = codes@;
                codes.push(code);
                proof {
                    match spec_row_codes(views.skip(i + 1)) {
                        Ok(r) => {
                            assert(before + (seq![code] + r) =~= codes@ + r);
                        },
                        Err(b) => {},
                    }
                }
            },
            None => {
                return Err(token);
            },
        }
        i = i + 1;
    }
    proof {
        assert(views.skip(i as int) =~= Seq::<Seq<char>>::empty());
        assert(codes@ + Seq::<u8>::empty() =~= codes@);
    }
    Ok(codes)
}

fn line_message(message: &str, number: usize) -> (text: String)
    ensures
        text@ == at_line(message@, number as nat),
{
    let mut text = message.to_owned();
    text.append(decimal_string(number as u64).as_str());
    text
}

/// The last `tile_size` settings and the tiles, objects and first refused
/// line of a legacy tile map, read line by line.
pub fn scan_legacy_tile_map(source: &str) -> (scan: LegacyTileScan)
    requires
        spec_lines(source@).len() < usize::MAX,
    ensures
        ({
            let (state, error) = spec_legacy_scan(spec_lines(source@), 1, legacy_start());
            &&& scan.settings@.map_values(|s: (String, usize)| (s.0@, s.1 as nat)) == state.settings
            &&& scan_rows(scan.rows@) == state.rows
            &&& generic_legend(scan.legend@, used_codes(state.rows))
            &&& scan.objects@.map_values(|o: (String, (i32, i32))| (o.0@, o.1)) == state.objects
            &&& match error {
                None => scan.error is None,
                Some((number, message)) => scan.error matches Some((n, e)) && n == number && e.spec_message() == message,
            }
        }),
{
    let chars = chars_of(source);
    let lines = lines_of(chars.as_slice());
    let ghost all = spec_lines(source@);
    let mut settings: Vec<(String, usize)> = Vec::new();
    let mut rows: Vec<Vec<TileCell>> = Vec::new();
    let mut objects: Vec<(String, (i32, i32))> = Vec::new();
    let mut in_tiles = false;
    let mut in_objects = false;
    let mut used: Vec<bool> = Vec::new();
    let mut k: usize = 0;
    while k < 256
        invariant
            k <= 256,
            used@.len() == k,
            forall|x: int| 0 <= x < k ==> !(#[trigger] used@[x]),
        decreases 256 - k,
    {
        used.push(false);
        k = k + 1;
    }
    proof {
        assert forall|x: int| 0 <= x < 256 implies (#[trigger] used@[x] <==> used_codes(scan_rows(rows@)).contains(
            x as u8,
        )) by {
            assert(scan_rows(rows@).len() == 0);
        }
    }
    let mut error: Option<(usize, TileMapError)> = None;
    let mut i: usize = 0;
    assert(all.skip(0) =~= all);
    proof {
        assert(settings@.map_values(|s: (String, usize)| (s.0@, s.1 as nat)) =~= Seq::<(Seq<char>, nat)>::empty());
        assert(scan_rows(rows@) =~= Seq::<Seq<u8>>::empty());
        assert(objects@.map_values(|o: (String, (i32, i32))| (o.0@, o.1)) =~= Seq::<(Seq<char>, (i32, i32))>::empty());
    }
    while i < lines.len()
        invariant_except_break
            error is None,
            spec_legacy_scan(all, 1, legacy_start()) == spec_legacy_scan(
                all.skip(i as int),
                (i + 1) as nat,
                LegacyState {
                    settings: settings@.map_values(|s: (String, usize)| (s.0@, s.1 as nat)),
                    rows: scan_rows(rows@),
                    objects: objects@.map_values(|o: (String, (i32, i32))| (o.0@, o.1)),
                    in_tiles,
                    in_objects,
                },
            ),
        invariant
            lines@.len() == all.len(),
            all == spec_lines(source@),
            all.len() < usize::MAX,
            forall|q: int| 0 <= q < lines@.len() ==> #[trigger] lines@[q]@ == all[q],
            i <= lines@.len(),
            used@.len() == 256,
            forall|x: int| 0 <= x < 256 ==> (#[trigger] used@[x] <==> used_codes(scan_rows(rows@)).contains(x as u8)),
        ensures
            error is None ==> spec_legacy_scan(all, 1, legacy_start()) == (LegacyState {
                settings: settings@.map_values(|s: (String, usize)| (s.0@, s.1 as nat)),
                rows: scan_rows(rows@),
                objects: objects@.map_values(|o: (String, (i32, i32))| (o.0@, o.1)),
                in_tiles,
                in_objects,
            }, None::<(nat, Seq<char>)>),
            error matches Some((n, e)) ==> spec_legacy_scan(all, 1, legacy_start()) == (LegacyState {
                settings: settings@.map_values(|s: (String, usize)| (s.0@, s.1 as nat)),
                rows: scan_rows(rows@),
                objects: objects@.map_values(|o: (String, (i32, i32))| (o.0@, o.1)),
                in_tiles,
                in_objects,
            }, Some((n as nat, e.spec_message()))),
            used@.len() == 256,
            forall|x: int| 0 <= x < 256 ==> (#[trigger] used@[x] <==> used_codes(scan_rows(rows@)).contains(x as u8)),
        decreases lines@.len() - i,
    {
        let ghost rest = all.skip(i as int);
        assert(rest[0] == all[i as int]);
        assert(rest.drop_first() =~= all.skip(i + 1));
        let number = i + 1;
        let line = trim(lines[i].as_slice());
        let ghost settings_view = settings@.map_values(|s: (String, usize)| (s.0@, s.1 as nat));
        let ghost rows_view = scan_rows(rows@);
        let ghost objects_view = objects@.map_values(|o: (String, (i32, i32))| (o.0@, o.1));
        i = i + 1;
        if line.len() == 0 || line[0] == '#' {
            continue;
        }
        let tiles_header = chars_of("[tiles]");
        let objects_header = chars_of("[objects]");
        if chars_equal(line.as_slice(), tiles_header.as_slice()) {
            in_tiles = true;
            in_objects = false;
            continue;
        }
        if chars_equal(line.as_slice(), objects_header.as_slice()) {
            in_tiles = false;
            in_objects = true;
            continue;
        }
        if !in_tiles && !in_objects {
            match split_once(line.as_slice(), '=') {
                None => {
                    error = Some((number, TileMapError::from_string(line_message("invalid map setting at line ", number))));
                    break;
                },
                Some((key, value)) => {
                    let key = trim(key.as_slice());
                    let expected = chars_of("tile_size");
                    if chars_equal(key.as_slice(), expected.as_slice()) {
                        let value = trim(value.as_slice());
                        settings.push((string_from_chars(value.as_slice()), number));
                        assert(settings@.map_values(|s: (String, usize)| (s.0@, s.1 as nat)) =~= settings_view.push((value@, number as nat)));
                    }
                },
            }
            continue;
        }
        if in_tiles {
            let tokens = split_char(line.as_slice(), ',');
            proof {
                assert(tokens@.map_values(|t: Vec<char>| t@) =~= spec_split(line@, ','));
            }
            match row_codes(&tokens) {
                Ok(codes) => {
                    let mut cells: Vec<TileCell> = Vec::new();
                    let mut c: usize = 0;
                    while c < codes.len()
                        invariant
                            c <= codes@.len(),
                            used@.len() == 256,
                            cell_codes(cells@) == codes@.take(c as int),
                            forall|x: int|
                                0 <= x < 256 ==> (#[trigger] used@[x] <==> (used_codes(rows_view).contains(x as u8)
                                    || codes@.take(c as int).contains(x as u8))),
                        decreases codes@.len() - c,
                    {
                        let ghost before = cells@;
                        cells.push(TileCell { code: codes[c] });
                        used.set(codes[c] as usize, true);
                        proof {
                            assert(cells@ =~= before.push(TileCell { code: codes@[c as int] }));
                            assert(cell_codes(cells@) =~= cell_codes(before).push(codes@[c as int]));
                            assert(codes@.take(c + 1) =~= codes@.take(c as int).push(codes@[c as int]));
                            lemma_push_contains(codes@.take(c as int), codes@[c as int]);
                        }
                        c = c + 1;
                    }
                    assert(codes@.take(c as int) =~= codes@);
                    let ghost before_rows = rows@;
                    rows.push(cells);
                    proof {
                        assert(rows@ =~= before_rows.push(rows@[rows@.len() - 1]));
                        assert(scan_rows(rows@) =~= rows_view.push(codes@));
                        lemma_used_codes_push(rows_view, codes@);
                    }
                },
                Err(bad) => {
                    let mut message = "invalid tile code '".to_owned();
                    message.append(string_from_chars(bad.as_slice()).as_str());
                    message.append("' at line ");
                    message.append(decimal_string(number as u64).as_str());
                    error = Some((number, TileMapError::from_string(message)));
                    break;
                },
            }
            continue;
        }
        match split_once(line.as_slice(), '=') {
            None => {
                error = Some((number, TileMapError::from_string(line_message("invalid object line at ", number))));
                break;
            },
            Some((name, values)) => match split_once(values.as_slice(), ',') {
                None => {
                    error = Some((number, TileMapError::from_string(line_message("invalid object value at line ", number))));
                    break;
                },
                Some((x_text, y_text)) => {
                    let x_text = string_from_chars(trim(x_text.as_slice()).as_slice());
                    let y_text = string_from_chars(trim(y_text.as_slice()).as_slice());
                    match parse_i32_text(x_text.as_str()) {
                        None => {
                            error = Some((number, TileMapError::from_string(line_message("invalid object x coordinate at line ", number))));
                            break;
                        },
                        Some(x) => match parse_i32_text(y_text.as_str()) {
                            None => {
                                error = Some((number, TileMapError::from_string(line_message("invalid object y coordinate at line ", number))));
                                break;
                            },
                            Some(y) => {
                                let name = string_from_chars(trim(name.as_slice()).as_slice());
                                let ghost named = name@;
                                objects.push((name, (x, y)));
                                assert(objects@.map_values(|o: (String, (i32, i32))| (o.0@, o.1)) =~= objects_view.push((named, (x, y))));
                            },
                        },
                    }
                },
            },
        }
    }
    let ghost final_codes = used_codes(scan_rows(rows@));
    let mut legend: Vec<(u8, TileDefinition)> = Vec::new();
    let mut code_index: usize = 0;
    while code_index < 256
        invariant
            code_index <= 256,
            used@.len() == 256,
            forall|x: int| 0 <= x < 256 ==> (#[trigger] used@[x] <==> final_codes.contains(x as u8)),
            forall|i: int| 0 <= i < legend@.len() ==> (#[trigger] legend@[i]).0 < code_index,
            generic_legend(legend@, final_codes.filter(|code: u8| code < code_index)),
        decreases 256 - code_index,
    {
        let ghost before = legend@;
        if used[code_index] {
            let code = code_index as u8;
            let definition = generic_tile_definition(code);
            legend.push((code, definition));
            proof {
                assert(legend@[before.len() as int] == (code, definition));
            }
        }
        proof {
            let next = final_codes.filter(|code: u8| code < code_index + 1);
            assert forall|code: u8| #[trigger] next.contains(code) implies exists|i: int|
                0 <= i < legend@.len() && legend@[i].0 == code by {
                if code < code_index {
                    assert(final_codes.filter(|c: u8| c < code_index).contains(code));
                    let i = choose|i: int| 0 <= i < before.len() && before[i].0 == code;
                    assert(legend@[i] == before[i]);
                } else {
                    assert(used@[code as int]);
                    assert(legend@[before.len() as int].0 == code);
                }
            }
            assert forall|i: int| 0 <= i < legend@.len() implies next.contains((#[trigger] legend@[i]).0)
                && legend@[i].1@ == spec_generic_definition(legend@[i].0) by {
                if i < before.len() {
                    assert(legend@[i] == before[i]);
                    assert(final_codes.filter(|c: u8| c < code_index).contains(before[i].0));
                }
            }
            assert forall|i: int, j: int| 0 <= i < j < legend@.len() implies (#[trigger] legend@[i]).0
                < (#[trigger] legend@[j]).0 by {
                if j < before.len() {
                    assert(legend@[i] == before[i]);
                    assert(legend@[j] == before[j]);
                } else {
                    assert(legend@[i] == before[i]);
                }
            }
        }
        code_index = code_index + 1;
    }
    proof {
        assert(final_codes.filter(|code: u8| code < 256) =~= final_codes);
    }
    LegacyTileScan { settings, rows, legend, objects, error }
}

} // verus!
