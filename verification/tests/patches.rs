use seishin::patches::{
    finish_sprite, fold_sprites, fold_uis, merge_layout, LayoutPatch, SpritePatch, TextPatch, UiPatch,
};

fn sprite(texture: Option<&str>, width: Option<f32>, height: Option<f32>) -> SpritePatch<f32> {
    SpritePatch {
        texture: texture.map(str::to_string),
        width,
        height,
        source_x: None,
        source_y: None,
        source_width: None,
        source_height: None,
        layer: None,
        sort_order: None,
        tint: None,
    }
}

#[test]
fn prefab_sprite_sizes_survive_scene_texture_override() {
    let merged = fold_sprites(vec![
        sprite(None, Some(96.0), Some(96.0)),
        sprite(Some("asset://sprites/player.png"), None, None),
    ]);
    let finished = finish_sprite(merged).expect("sprite");
    assert_eq!(finished.texture, "asset://sprites/player.png");
    assert_eq!(finished.width, Some(96.0));
    assert_eq!(finished.height, Some(96.0));
    assert_eq!(finished.layer, 0);
    assert_eq!(finished.sort_order, 0);
}

#[test]
fn sprite_without_texture_or_size_is_dropped_and_without_texture_is_no_sprite() {
    let mut layered = sprite(None, None, None);
    layered.layer = Some(3);
    assert!(fold_sprites(vec![layered]).is_none());
    assert!(fold_sprites(Vec::<SpritePatch<f32>>::new()).is_none());
    let sized = fold_sprites(vec![sprite(None, Some(8.0), None)]);
    assert!(sized.is_some());
    assert!(finish_sprite(sized).is_none());
}

#[test]
fn later_sprite_patches_override_earlier_fields() {
    let mut first = sprite(Some("a.png"), Some(4.0), None);
    first.sort_order = Some(2);
    let mut second = sprite(Some("b.png"), None, None);
    second.layer = Some(-1);
    let finished = finish_sprite(fold_sprites(vec![first, second])).expect("sprite");
    assert_eq!(finished.texture, "b.png");
    assert_eq!(finished.width, Some(4.0));
    assert_eq!(finished.layer, -1);
    assert_eq!(finished.sort_order, 2);
}

fn layout(offset_x: Option<f32>, z_index: Option<i32>) -> LayoutPatch<f32, u8> {
    LayoutPatch { anchor: None, offset_x, offset_y: None, width: None, height: None, z_index }
}

#[test]
fn layouts_and_texts_merge_field_by_field() {
    let merged = merge_layout(Some(layout(Some(10.0), None)), Some(layout(None, Some(5)))).expect("layout");
    assert_eq!(merged.offset_x, Some(10.0));
    assert_eq!(merged.z_index, Some(5));
    assert!(merge_layout(None, Some(layout(None, None))).is_none());
    assert_eq!(merge_layout(Some(layout(Some(1.0), None)), None).expect("kept").offset_x, Some(1.0));

    let ui = fold_uis(vec![
        UiPatch {
            layout: None,
            text: Some(TextPatch { value: Some("Start".to_string()), font_size: Some(24.0), color: None }),
            image: None,
            interaction: None,
        },
        UiPatch {
            layout: Some(layout(Some(2.0), None)),
            text: Some(TextPatch { value: None, font_size: None, color: Some("#ff0000".to_string()) }),
            image: None,
            interaction: None,
        },
    ])
    .expect("ui");
    let text = ui.text.expect("text");
    assert_eq!(text.value.as_deref(), Some("Start"));
    assert_eq!(text.font_size, Some(24.0));
    assert_eq!(text.color.as_deref(), Some("#ff0000"));
    assert_eq!(ui.layout.expect("layout").offset_x, Some(2.0));
    let empty: Vec<UiPatch<f32, u8>> =
        vec![UiPatch { layout: None, text: None, image: None, interaction: None }];
    assert!(fold_uis(empty).is_none());
}
