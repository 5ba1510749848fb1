use seishin::scene_export::{export_order, written_draw_key, written_list};

#[test]
fn resolved_entities_export_is_sorted_by_entity_id() {
    let ids = vec![Some(9), Some(2)];

    let written = export_order(&ids).into_iter().map(|index| ids[index]).collect::<Vec<_>>();

    assert_eq!(written, vec![Some(2), Some(9)]);
}

#[test]
fn entities_without_ids_are_written_first_in_their_given_order() {
    let ids = vec![Some(4), None, Some(0), None, Some(4)];
    assert_eq!(export_order(&ids), vec![1, 3, 2, 0, 4]);
}

#[test]
fn default_draw_keys_and_empty_lists_are_left_out() {
    assert_eq!(written_draw_key(0), None);
    assert_eq!(written_draw_key(-2), Some(-2));
    assert_eq!(written_list::<String>(vec![]), None);
    assert_eq!(written_list(vec!["enemy".to_string()]), Some(vec!["enemy".to_string()]));
}
