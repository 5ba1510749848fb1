use seishin::procedural::{mix_u64, synthetic_id_base, ProceduralRng, ProceduralSeed};
use seishin::procedural_scene::ProceduralSceneBuilder;
use seishin::scene_diff::SceneEntity;
use seishin::procedural_tiles::{ProceduralTileMap, ProceduralTileMapBuilder};
use seishin::tile_map::TileDefinition;
use seishin::world::EntityId;

#[test]
fn rng_sequences_repeat_for_equal_seeds() {
    let mut a = ProceduralRng::new(ProceduralSeed::from_text("dungeon"));
    let mut b = ProceduralRng::new(ProceduralSeed::from_text("dungeon"));
    for _ in 0..8 {
        assert_eq!(a.next_u64(), b.next_u64());
    }
    let mut c = ProceduralRng::new(ProceduralSeed::from_text("forest"));
    let mut d = ProceduralRng::new(ProceduralSeed::from_text("dungeon"));
    assert_ne!(c.next_u64(), d.next_u64());
}

#[test]
fn text_seeds_use_fnv1a() {
    assert_eq!(ProceduralSeed::from_text("").raw(), 0xcbf2_9ce4_8422_2325);
    assert_eq!(ProceduralSeed::from_text("a").raw(), 0xaf63_dc4c_8601_ec8c);
    assert_eq!(ProceduralSeed::from_u64(9).raw(), 9);
}

#[test]
fn next_u64_is_splitmix64() {
    let mut rng = ProceduralRng::new(ProceduralSeed::from_u64(0));
    assert_eq!(rng.next_u64(), 0xe220_a839_7b1d_cdaf);
    assert_eq!(mix_u64(0), 0);
}

#[test]
fn ranges_stay_in_bounds_and_empty_choices_are_none() {
    let mut rng = ProceduralRng::new(ProceduralSeed::from_u64(7));
    for _ in 0..32 {
        let value = rng.range_u32(10, 20);
        assert!((10..20).contains(&value));
        assert!(rng.choose_index(3).unwrap() < 3);
    }
    assert_eq!(rng.range_u32(5, 5), 5);
    assert_eq!(rng.range_u32(9, 2), 9);
    assert_eq!(rng.choose_index(0), None);
    assert!(synthetic_id_base(ProceduralSeed::from_u64(1)) >= 1);
}

#[test]
fn procedural_scene_ids_count_up_from_the_seed_base() {
    let seed = ProceduralSeed::from_text("dungeon");
    let base = synthetic_id_base(seed);
    let mut builder = ProceduralSceneBuilder::new(seed);

    let first = builder.next_entity_id();
    let second = builder.next_entity_id();

    assert_eq!(first, EntityId::new(base));
    assert_eq!(second, EntityId::new(base + 1));
}

#[test]
fn procedural_scenes_repeat_for_equal_seeds() {
    let build = |text: &str| {
        let mut builder = ProceduralSceneBuilder::new(ProceduralSeed::from_text(text));
        let roll = builder.rng_mut().range_u32(0, 100);
        builder.push_document_entity(SceneEntity { id: Some(7), body: "name = \"Fixed\"".to_string() });
        let generated = builder.push_generated_entity(|id| SceneEntity {
            id: Some(id.raw()),
            body: format!("name = \"Enemy {roll}\""),
        });
        (generated, builder.build())
    };

    let (id_a, scene_a) = build("forest");
    let (id_b, scene_b) = build("forest");

    assert_eq!(id_a, id_b);
    assert_eq!(scene_a, scene_b);
    assert_eq!(scene_a.entities.len(), 2);
    assert_eq!(scene_a.entities[0].id, Some(7));
    assert_eq!(scene_a.entities[1].id, Some(id_a.raw()));
}

fn definition(name: &str, blocked: bool) -> TileDefinition {
    TileDefinition { name: name.to_string(), texture: None, atlas_index: None, blocked, tint: None }
}

#[test]
fn procedural_tile_map_without_fill_is_all_zero_codes() {
    let map = ProceduralTileMapBuilder::new(ProceduralSeed::from_u64(1), 3, 2)
        .legend_tile(0, definition("floor", false))
        .build();

    assert_eq!(map.rows.len(), 2);
    assert!(map.rows.iter().all(|row| row.len() == 3 && row.iter().all(|cell| cell.code == 0)));
    assert_eq!(map.legend.len(), 1);
}

#[test]
fn procedural_tile_map_fill_visits_each_cell_by_column_and_row() {
    let map = ProceduralTileMapBuilder::new(ProceduralSeed::from_u64(5), 3, 2)
        .fill(|_, column, row| (row * 10 + column) as u8)
        .build();

    let codes: Vec<Vec<u8>> = map.rows.iter().map(|row| row.iter().map(|cell| cell.code).collect()).collect();
    assert_eq!(codes, vec![vec![0, 1, 2], vec![10, 11, 12]]);
}

#[test]
fn procedural_tile_maps_repeat_for_equal_seeds_and_keep_one_entry_per_key() {
    let build = || {
        ProceduralTileMapBuilder::new(ProceduralSeed::from_text("cave"), 4, 4)
            .legend_tile(1, definition("wall", true))
            .legend_tile(1, definition("rock", true))
            .spawn("player", 0, 0)
            .spawn("player", 2, 3)
            .fill(|rng, _, _| rng.range_u32(0, 2) as u8)
            .build()
    };
    let a = build();
    let b = build();

    let codes = |map: &ProceduralTileMap| -> Vec<Vec<u8>> {
        map.rows.iter().map(|row| row.iter().map(|cell| cell.code).collect()).collect()
    };
    assert_eq!(codes(&a), codes(&b));
    assert!(codes(&a).iter().flatten().all(|code| *code < 2));
    assert_eq!(a.legend, vec![(1, definition("rock", true))]);
    assert_eq!(a.spawns, vec![("player".to_string(), (2, 3))]);
}

#[test]
fn the_kth_draw_mixes_the_seed_plus_k_increments() {
    let seed = ProceduralSeed::from_text("dungeon");
    let mut rng = ProceduralRng::new(seed);
    for k in 1..=5u64 {
        let expected = mix_u64(seed.raw().wrapping_add(k.wrapping_mul(0x9E37_79B9_7F4A_7C15)));
        assert_eq!(rng.next_u64(), expected);
    }
}
