use seishin::audio_types::PlaybackHandle;
use seishin::render_types::{sprite_batches, RenderError, RenderSize, SpriteBatch, TextureData, TextureId};

#[test]
fn texture_data_validates_expected_rgba_size() {
    let error = TextureData::rgba8(TextureId::new(7), 2, 2, vec![255; 15])
        .expect_err("invalid byte count must fail");

    assert_eq!(
        error,
        RenderError::InvalidTextureData {
            id: TextureId::new(7),
            reason: "expected 16 RGBA bytes, got 15".to_string(),
        }
    );
}

#[test]
fn zero_sized_viewport_is_detected() {
    assert!(RenderSize::new(0, 10).is_zero());
    assert!(RenderSize::new(10, 0).is_zero());
    assert!(!RenderSize::new(10, 10).is_zero());
}

#[test]
fn playback_handles_are_stable_ids() {
    let playback = PlaybackHandle::from_id(42);

    assert_eq!(playback.id(), 42);
    assert_eq!(playback, PlaybackHandle::from_id(42));
}

#[test]
fn texture_data_refuses_zero_dimensions() {
    let error = TextureData::rgba8(TextureId::new(1), 0, 4, Vec::new()).unwrap_err();
    assert_eq!(
        error,
        RenderError::InvalidTextureData {
            id: TextureId::new(1),
            reason: "texture dimensions must be greater than zero".to_string(),
        }
    );
}

#[test]
fn texture_data_refuses_overflowing_dimensions() {
    let error = TextureData::rgba8(TextureId::new(2), u32::MAX, 2, Vec::new()).unwrap_err();
    assert_eq!(
        error,
        RenderError::InvalidTextureData {
            id: TextureId::new(2),
            reason: "texture dimensions overflowed RGBA byte count".to_string(),
        }
    );
}

#[test]
fn texture_data_keeps_valid_pixels() {
    let data = TextureData::rgba8(TextureId::new(3), 1, 2, vec![1, 2, 3, 4, 5, 6, 7, 8]).unwrap();
    assert_eq!(data.id(), TextureId::new(3));
    assert_eq!(data.width(), 1);
    assert_eq!(data.height(), 2);
    assert_eq!(data.pixels_rgba8(), &[1, 2, 3, 4, 5, 6, 7, 8]);
}

#[test]
fn render_state_batches_consecutive_sprites_by_texture_without_reordering() {
    let ids = [TextureId::new(1), TextureId::new(1), TextureId::new(2), TextureId::new(1)];
    assert_eq!(
        sprite_batches(&ids),
        vec![
            SpriteBatch::new(TextureId::new(1), 0, 2),
            SpriteBatch::new(TextureId::new(2), 2, 1),
            SpriteBatch::new(TextureId::new(1), 3, 1),
        ]
    );
    assert!(sprite_batches(&[]).is_empty());
    assert_eq!(SpriteBatch::new(TextureId::new(9), 4, 3).range(), 4..7);
    assert!(SpriteBatch::new(TextureId::new(9), 4, 0).is_empty());
}
