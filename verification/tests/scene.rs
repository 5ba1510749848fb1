use seishin::scene_diff::{SceneChange, SceneDiff, SceneDiffError, SceneDiffSide, SceneDocument, SceneEntity};
use seishin::scene_reload::{SceneReloadError, SceneReloadQueue, SceneReloadRequest};
use seishin::world::EntityId;

fn scene_entity(id: u64, name: &str) -> SceneEntity {
    SceneEntity {
        id: Some(id),
        body: format!("name = {name:?}"),
    }
}

fn document(entities: Vec<SceneEntity>) -> SceneDocument {
    SceneDocument { entities }
}

#[test]
fn scene_diff_lists_removed_updated_and_added_entities_by_id() {
    let old = document(vec![
        scene_entity(8, "Unchanged"),
        scene_entity(2, "Removed"),
        scene_entity(5, "OldName"),
    ]);
    let new = document(vec![
        scene_entity(7, "Added"),
        scene_entity(8, "Unchanged"),
        scene_entity(5, "NewName"),
    ]);

    let diff = SceneDiff::between(&old, &new).expect("scene diff");

    assert_eq!(
        diff.changes(),
        &[
            SceneChange::Removed {
                id: EntityId::new(2)
            },
            SceneChange::Updated {
                id: EntityId::new(5),
                entity: scene_entity(5, "NewName"),
            },
            SceneChange::Added {
                entity: scene_entity(7, "Added"),
            },
        ]
    );
}

#[test]
fn scene_diff_applies_to_document_and_normalizes_entity_order() {
    let mut target = document(vec![scene_entity(5, "Removed"), scene_entity(1, "OldName")]);
    let new = document(vec![scene_entity(3, "Added"), scene_entity(1, "NewName")]);
    let diff = SceneDiff::between(&target, &new).expect("scene diff");

    diff.apply_to(&mut target).expect("apply diff");

    assert_eq!(
        target,
        document(vec![scene_entity(1, "NewName"), scene_entity(3, "Added")])
    );
}

#[test]
fn scene_diff_requires_explicit_unique_entity_ids() {
    let old = document(vec![SceneEntity::default()]);
    let new = SceneDocument::default();

    let error = SceneDiff::between(&old, &new).expect_err("missing ids cannot diff");

    assert_eq!(
        error,
        SceneDiffError::MissingEntityId {
            side: SceneDiffSide::Old,
            index: 0,
        }
    );
}

#[test]
fn scene_diff_reports_duplicate_ids_on_the_new_side() {
    let old = document(vec![scene_entity(1, "A")]);
    let new = document(vec![scene_entity(4, "B"), scene_entity(4, "C")]);

    let error = SceneDiff::between(&old, &new).expect_err("duplicate ids cannot diff");

    assert_eq!(
        error,
        SceneDiffError::DuplicateEntityId {
            side: SceneDiffSide::New,
            id: EntityId::new(4),
        }
    );
    assert_eq!(error.message(), "New scene has duplicate entity id 4");
}

#[test]
fn scene_diff_between_equal_documents_is_empty() {
    let old = document(vec![scene_entity(2, "A"), scene_entity(1, "B")]);
    let new = document(vec![scene_entity(1, "B"), scene_entity(2, "A")]);

    let diff = SceneDiff::between(&old, &new).expect("scene diff");

    assert!(diff.is_empty());
    assert!(SceneDiff::default().is_empty());
}

#[test]
fn scene_diff_apply_to_other_target_reports_missing_entity_and_keeps_target() {
    let old = document(vec![scene_entity(9, "Gone")]);
    let new = SceneDocument::default();
    let diff = SceneDiff::between(&old, &new).expect("scene diff");
    let mut target = document(vec![scene_entity(1, "Other")]);
    let original = target.clone();

    let error = diff.apply_to(&mut target).expect_err("entity 9 is not in the target");

    assert_eq!(error, SceneDiffError::MissingTargetEntity { id: EntityId::new(9) });
    assert_eq!(error.message(), "target scene is missing entity 9");
    assert_eq!(target, original);
}

#[test]
fn scene_diff_apply_added_entity_already_in_target_is_duplicate() {
    let old = SceneDocument::default();
    let new = document(vec![scene_entity(3, "New")]);
    let diff = SceneDiff::between(&old, &new).expect("scene diff");
    let mut target = document(vec![scene_entity(3, "Existing")]);

    let error = diff.apply_to(&mut target).expect_err("entity 3 already exists");

    assert_eq!(
        error,
        SceneDiffError::DuplicateEntityId {
            side: SceneDiffSide::Target,
            id: EntityId::new(3),
        }
    );
}

#[test]
fn scene_diff_error_messages_name_the_side_and_index() {
    let error = SceneDiffError::MissingEntityId {
        side: SceneDiffSide::Target,
        index: 12,
    };
    assert_eq!(error.message(), "Target scene entity at index 12 has no id");
    assert_eq!(
        SceneReloadError::Diff(error).message(),
        "scene reload diff failed: Target scene entity at index 12 has no id"
    );
    assert_eq!(SceneReloadError::from(error), SceneReloadError::Diff(error));
}

#[test]
fn scene_reload_queue_applies_scene_updates_explicitly_and_preserves_ids() {
    let mut target = document(vec![scene_entity(5, "Removed"), scene_entity(1, "OldName")]);
    let updated = document(vec![scene_entity(1, "NewName"), scene_entity(3, "Added")]);
    let mut queue = SceneReloadQueue::default();

    queue.push_scene("res://scenes/main.scene.toml", updated.clone());
    let result = queue
        .apply_next(&mut target)
        .expect("apply scene reload")
        .expect("reload result");

    assert_eq!(result.source(), "res://scenes/main.scene.toml");
    assert_eq!(result.change_count(), 3);
    assert_eq!(target, updated);
    assert!(queue.is_empty());
}

#[test]
fn scene_reload_queue_keeps_failed_update_pending() {
    let mut target = document(vec![scene_entity(1, "Player")]);
    let original = target.clone();
    let mut queue = SceneReloadQueue::default();

    queue.push_scene(
        "res://scenes/bad.scene.toml",
        document(vec![SceneEntity::default()]),
    );
    let error = queue
        .apply_next(&mut target)
        .expect_err("missing entity id must fail");

    assert_eq!(
        error,
        SceneReloadError::Diff(SceneDiffError::MissingEntityId {
            side: SceneDiffSide::New,
            index: 0,
        })
    );
    assert_eq!(target, original);
    assert_eq!(queue.len(), 1);
}

#[test]
fn scene_reload_queue_apply_all_is_atomic_when_later_update_fails() {
    let mut target = document(vec![scene_entity(1, "Player")]);
    let original = target.clone();
    let mut queue = SceneReloadQueue::default();

    queue.push_scene(
        "res://scenes/valid.scene.toml",
        document(vec![scene_entity(1, "Updated")]),
    );
    queue.push_scene(
        "res://scenes/bad.scene.toml",
        document(vec![SceneEntity::default()]),
    );

    let error = queue
        .apply_all(&mut target)
        .expect_err("later missing entity id must fail atomically");

    assert_eq!(
        error,
        SceneReloadError::Diff(SceneDiffError::MissingEntityId {
            side: SceneDiffSide::New,
            index: 0,
        })
    );
    assert_eq!(target, original);
    assert_eq!(queue.len(), 2);
}

#[test]
fn scene_reload_queue_apply_all_reports_each_reload_in_order() {
    let mut target = document(vec![scene_entity(1, "Player")]);
    let mut queue = SceneReloadQueue::new();
    let patch = SceneDiff::between(
        &document(vec![scene_entity(1, "Updated")]),
        &document(vec![scene_entity(1, "Updated"), scene_entity(2, "Enemy")]),
    )
    .expect("patch diff");

    queue.push_scene("res://a.scene.toml", document(vec![scene_entity(1, "Updated")]));
    queue.push_diff("res://b.patch", patch);
    let report = queue.apply_all(&mut target).expect("apply all");

    let results = report.results();
    assert_eq!(results.len(), 2);
    assert_eq!(results[0].source(), "res://a.scene.toml");
    assert_eq!(results[0].change_count(), 1);
    assert_eq!(results[1].source(), "res://b.patch");
    assert_eq!(results[1].change_count(), 1);
    assert_eq!(report.total_change_count(), 2);
    assert_eq!(
        target,
        document(vec![scene_entity(1, "Updated"), scene_entity(2, "Enemy")])
    );
    assert!(queue.is_empty());
    assert_eq!(queue.apply_next(&mut target), Ok(None));
}

#[test]
fn scene_reload_request_applies_a_diff_to_its_target() {
    let diff = SceneDiff::between(
        &document(vec![scene_entity(4, "Old")]),
        &document(vec![scene_entity(4, "New")]),
    )
    .expect("diff");
    let request = SceneReloadRequest::diff("res://patch", diff.clone());
    let mut target = document(vec![scene_entity(4, "Old"), scene_entity(6, "Kept")]);

    let result = request.apply_to(&mut target).expect("apply request");

    assert_eq!(request.source(), "res://patch");
    assert_eq!(result.change_count(), 1);
    assert_eq!(target, document(vec![scene_entity(4, "New"), scene_entity(6, "Kept")]));
    assert_eq!(diff.changes().len(), 1);
}
