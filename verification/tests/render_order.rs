use seishin::render_order::{draw_order, ui_draw_order};
use seishin::render_types::TextureId;

#[test]
fn world_render_order_uses_sprite_layer_sort_order_and_entity_id() {
    // (layer, sort order, entity) of the front, middle and back sprites,
    // with the texture each one draws.
    let sprites = vec![
        ((5, 0, 30), TextureId::new(30)),
        ((1, 7, 20), TextureId::new(20)),
        ((1, -2, 10), TextureId::new(10)),
    ];
    let keys = sprites.iter().map(|(key, _)| *key).collect::<Vec<_>>();

    let drawn = draw_order(&keys)
        .into_iter()
        .map(|index| sprites[index].1)
        .collect::<Vec<_>>();

    assert_eq!(drawn, vec![TextureId::new(10), TextureId::new(20), TextureId::new(30)]);
}

#[test]
fn equal_layers_and_sort_orders_draw_by_entity_id() {
    let keys = vec![(0, 0, 9), (0, 0, 2), (-1, 5, 7), (0, -1, 4)];
    assert_eq!(draw_order(&keys), vec![2, 3, 1, 0]);
    assert_eq!(draw_order(&Vec::new()), Vec::<usize>::new());
}

#[test]
fn ui_elements_draw_by_z_index_then_entity_id() {
    let keys = vec![(2, 1), (0, 8), (2, 0), (0, 3)];
    assert_eq!(ui_draw_order(&keys), vec![3, 1, 2, 0]);
}
