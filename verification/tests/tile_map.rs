use seishin::tile_map::{
    atlas_rect_fits, blocked_tag, build_tile_content, generic_tile_definition, parse_i32, parse_tile_collision,
    is_toml_tile_map, parse_tileset, parse_u8, scan_legacy_tile_map, spawnpoint_entity, tile_entity, tile_map_key,
    tileset_source_rect, TileCell, TileDefinition, TileLegendConfig, TileMapError, TileSetConfig, TileSetDefinition,
    TileSourceRect,
};

fn tileset(atlas: &str, columns: u32) -> TileSetConfig {
    TileSetConfig { atlas: atlas.to_string(), tile_width: 16, tile_height: 16, columns, margin: 1, spacing: 2 }
}

fn legend(name: &str, atlas_index: Option<u32>, collision: Option<&str>, blocked: bool) -> TileLegendConfig {
    TileLegendConfig {
        name: Some(name.to_string()),
        texture: None,
        atlas_index,
        collision: collision.map(str::to_string),
        blocked,
        tint: None,
    }
}

#[test]
fn tilesets_are_validated() {
    assert!(parse_tileset(&tileset("asset://atlas.png", 10)).is_ok());
    assert_eq!(
        parse_tileset(&tileset("  ", 10)).unwrap_err().message(),
        "tileset atlas must not be empty"
    );
    assert_eq!(
        parse_tileset(&tileset("a.png", 0)).unwrap_err().message(),
        "tileset columns must be greater than zero"
    );
    let mut zero = tileset("a.png", 4);
    zero.tile_width = 0;
    assert_eq!(
        parse_tileset(&zero).unwrap_err().message(),
        "tileset tile_width and tile_height must be greater than zero"
    );
}

#[test]
fn collisions_and_generic_definitions() {
    assert_eq!(parse_tile_collision(3, None).unwrap(), None);
    assert_eq!(parse_tile_collision(3, Some("none")).unwrap(), Some(false));
    assert_eq!(parse_tile_collision(3, Some("solid")).unwrap(), Some(true));
    assert_eq!(
        parse_tile_collision(3, Some("lava")).unwrap_err(),
        TileMapError::new("legend tile code 3 has invalid collision 'lava'")
    );
    let open = generic_tile_definition(0);
    assert_eq!(open.name, "tile_0");
    assert!(!open.blocked);
    assert!(generic_tile_definition(12).blocked);
    assert_eq!(blocked_tag(), "blocked");
}

#[test]
fn atlas_source_rects_follow_margin_and_spacing() {
    let definition = parse_tileset(&tileset("atlas.png", 10)).unwrap();
    let rect = tileset_source_rect(&definition, 13);
    assert_eq!((rect.x, rect.y, rect.width, rect.height), (1 + 3 * 18, 1 + 18, 16, 16));
}

#[test]
fn integers_parse_like_str_parse() {
    assert_eq!(parse_u8("255"), Some(255));
    assert_eq!(parse_u8("+7"), Some(7));
    assert_eq!(parse_u8("256"), None);
    assert_eq!(parse_u8("-1"), None);
    assert_eq!(parse_u8(""), None);
    assert_eq!(parse_u8("+"), None);
    assert_eq!(parse_i32(Some("-2147483648")), Some(i32::MIN));
    assert_eq!(parse_i32(Some("2147483647")), Some(i32::MAX));
    assert_eq!(parse_i32(Some("2147483648")), None);
    assert_eq!(parse_i32(Some("12a")), None);
    assert_eq!(parse_i32(None), None);
}

#[test]
fn toml_tile_content_reads_legend_and_rows() {
    let content = build_tile_content(
        Some(tileset("asset://sprites/open_tileset.png", 10)),
        vec![
            ("0".to_string(), legend("open", Some(2), Some("none"), true)),
            ("1".to_string(), legend("solid", Some(13), Some("solid"), false)),
        ],
        vec![vec![0, 1], vec![1, 0]],
    )
    .unwrap();
    assert_eq!(content.rows[0], vec![TileCell { code: 0 }, TileCell { code: 1 }]);
    assert_eq!(content.legend.len(), 2);
    assert!(!content.legend[0].1.blocked);
    assert!(content.legend[1].1.blocked);
    assert_eq!(content.legend[1].1.atlas_index, Some(13));
    assert_eq!(content.tileset.unwrap().columns, 10);
}

#[test]
fn toml_tile_content_errors_come_in_order() {
    let ok_legend = || vec![("0".to_string(), legend("open", None, None, false))];
    assert_eq!(
        build_tile_content(None, ok_legend(), vec![]).unwrap_err().message(),
        "map has no tile rows"
    );
    assert_eq!(
        build_tile_content(None, vec![], vec![vec![0]]).unwrap_err().message(),
        "TOML tile maps must define at least one [legend.<code>] entry"
    );
    assert_eq!(
        build_tile_content(None, vec![("x".to_string(), legend("open", None, None, false))], vec![vec![0]])
            .unwrap_err()
            .message(),
        "invalid legend tile code 'x'"
    );
    assert_eq!(
        build_tile_content(None, vec![("4".to_string(), legend("open", Some(1), None, false))], vec![vec![4]])
            .unwrap_err()
            .message(),
        "legend tile code 4 uses atlas_index but the map has no [tileset]"
    );
    assert_eq!(
        build_tile_content(None, ok_legend(), vec![vec![0], vec![]]).unwrap_err().message(),
        "tile row 1 must not be empty"
    );
    assert_eq!(
        build_tile_content(None, ok_legend(), vec![vec![0, 9]]).unwrap_err().message(),
        "tile code 9 in row 0 has no legend definition"
    );
}

#[test]
fn parse_tile_map_reads_tile_size_tiles_and_objects() {
    let source = r"
            tile_size = 40.0

            [tiles]
            0,1,2
            1,0,1

            [objects]
            Player=1,0
            Merchant=2,1
            ";

    let scan = scan_legacy_tile_map(source);

    assert!(scan.error.is_none());
    assert_eq!(scan.settings, vec![("40.0".to_string(), 2)]);
    assert_eq!(scan.rows.len(), 2);
    assert_eq!(scan.rows[0], vec![TileCell { code: 0 }, TileCell { code: 1 }, TileCell { code: 2 }]);
    assert_eq!(
        scan.objects,
        vec![("Player".to_string(), (1, 0)), ("Merchant".to_string(), (2, 1))]
    );
    let codes: Vec<u8> = scan.legend.iter().map(|(code, _)| *code).collect();
    assert_eq!(codes, vec![0, 1, 2]);
    assert!(scan.legend[1].1.blocked);
    assert_eq!(scan.legend[0].1.texture, None);
}

#[test]
fn legacy_tile_map_reports_the_first_bad_line() {
    let scan = scan_legacy_tile_map("tile_size = 8\n[tiles]\n0,x\n");
    let (line, error) = scan.error.unwrap();
    assert_eq!(line, 3);
    assert_eq!(error.message(), "invalid tile code 'x' at line 3");
    let scan = scan_legacy_tile_map("nonsense\n");
    assert_eq!(scan.error.unwrap().1.message(), "invalid map setting at line 1");
    let scan = scan_legacy_tile_map("[objects]\nPlayer=1\n");
    assert_eq!(scan.error.unwrap().1.message(), "invalid object value at line 2");
}

#[test]
fn toml_tile_maps_are_told_apart_by_their_legend() {
    assert!(is_toml_tile_map("tile_size = 32\n  [legend.0]\nname = \"open\"\n"));
    assert!(!is_toml_tile_map("tile_size = 32\n[tiles]\n0,1\n"));
    assert!(!is_toml_tile_map(""));
}

#[test]
fn tile_entities_are_named_tagged_and_textured_by_their_place() {
    let tileset = Some(TileSetDefinition {
        atlas: "asset://tiles/atlas.png".to_string(),
        tile_width: 16,
        tile_height: 16,
        columns: 4,
        margin: 1,
        spacing: 2,
    });
    let wall = TileDefinition {
        name: "wall".to_string(),
        texture: None,
        atlas_index: Some(5),
        blocked: true,
        tint: Some("#ff0000".to_string()),
    };
    assert!(atlas_rect_fits(tileset.as_ref().unwrap(), 5));

    let key = tile_map_key(0);
    let entity = tile_entity(&key, &tileset, &wall, 1, 3, 2);

    assert_eq!(entity.name, "TileMap.map_0.Tile_2_3");
    assert_eq!(entity.tags, vec!["tile".to_string(), "blocked".to_string()]);
    assert_eq!(
        entity.data,
        vec![
            ("kind".to_string(), "wall".to_string()),
            ("code".to_string(), "1".to_string()),
            ("column".to_string(), "3".to_string()),
            ("row".to_string(), "2".to_string()),
        ]
    );
    let sprite = entity.sprite.expect("atlas texture");
    assert_eq!(sprite.texture, "asset://tiles/atlas.png");
    assert_eq!(sprite.source, Some(TileSourceRect { x: 19, y: 19, width: 16, height: 16 }));
    assert_eq!(sprite.tint.as_deref(), Some("#ff0000"));

    let floor = TileDefinition { name: "floor".to_string(), texture: None, atlas_index: None, blocked: false, tint: None };
    assert!(tile_entity(&key, &None, &floor, 0, 0, 0).sprite.is_none());

    let spawn = spawnpoint_entity(&key, "player");
    assert_eq!(spawn.name, "TileMap.map_0.Spawnpoint.player");
    assert_eq!(spawn.tags, vec!["spawnpoint".to_string()]);
    assert_eq!(
        spawn.data,
        vec![("spawn_for".to_string(), "player".to_string()), ("map".to_string(), "map_0".to_string())]
    );
}

#[test]
fn legacy_structure_error_reports_refused_lines_then_missing_rows() {
    let without_rows = scan_legacy_tile_map("tile_size = 8\n");
    assert_eq!(
        without_rows.structure_error().expect("no rows").message(),
        "map has no [tiles] section or row definitions"
    );
    let with_rows = scan_legacy_tile_map("tile_size = 8\n[tiles]\n0,1\n");
    assert!(with_rows.structure_error().is_none());
    let refused = scan_legacy_tile_map("tile_size = 8\n[tiles]\n0,x\n");
    assert_eq!(
        refused.structure_error().expect("refused line").message(),
        "invalid tile code 'x' at line 3"
    );
}
