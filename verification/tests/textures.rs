use seishin::assets::ImageData;
use seishin::paths::PathError;
use seishin::audio_types::{AssetHandle, SoundAsset};
use seishin::render_types::RenderError;
use seishin::textures::{Assets, SoundLookup, TextureLookup};

fn pixel_image() -> ImageData {
    ImageData::from_decoded("sprites/player.png", Some((1, 1, vec![255, 0, 0, 255]))).expect("image")
}

#[test]
fn textures_are_loaded_once_and_then_cached() {
    let mut assets = Assets::new();
    let path = match assets.texture("asset://sprites/player.png").expect("valid path") {
        TextureLookup::Load(path) => path,
        TextureLookup::Cached(_) => panic!("nothing is cached yet"),
    };
    assert_eq!(path.as_str(), "sprites/player.png");

    let texture = assets.load_texture(&path, &pixel_image()).expect("texture");
    assert_eq!(texture.id().raw(), 1);
    assert_eq!(texture.data().width(), 1);
    assert_eq!(texture.data().pixels_rgba8(), &[255, 0, 0, 255]);
    assert_eq!(assets.next_texture_id(), 2);

    match assets.texture("sprites/player.png").expect("valid path") {
        TextureLookup::Cached(cached) => assert_eq!(cached.id().raw(), 1),
        TextureLookup::Load(_) => panic!("the texture was cached"),
    }
}

#[test]
fn texture_paths_must_be_asset_paths() {
    let assets = Assets::new();
    assert!(matches!(
        assets.texture("res://sprites/player.png"),
        Err(PathError::ResourceAsAsset { .. })
    ));
    assert!(matches!(
        assets.texture("asset://../secret.png"),
        Err(PathError::InvalidAssetPath(_))
    ));
}

#[test]
fn sounds_are_remembered_by_asset_path() {
    let mut assets = Assets::new();
    let path = match assets.sound("audio/hit.wav").expect("valid path") {
        SoundLookup::Load(path) => path,
        SoundLookup::Cached(_) => panic!("nothing is cached yet"),
    };
    assert_eq!(path.as_str(), "audio/hit.wav");

    let handle: AssetHandle<SoundAsset> = AssetHandle::from_id(4);
    assets.remember_sound(&path, handle);

    match assets.sound("asset://audio/hit.wav").expect("valid path") {
        SoundLookup::Cached(cached) => assert_eq!(cached.id(), 4),
        SoundLookup::Load(_) => panic!("the sound was remembered"),
    }
    assert!(matches!(assets.sound("asset://audio/other.wav"), Ok(SoundLookup::Load(_))));
    assert!(assets.sound("res://audio/hit.wav").is_err());
}

#[test]
fn a_texture_is_loaded_once_and_later_ids_follow() {
    let mut assets = Assets::new();
    let first = match assets.texture("asset://sprites/player.png").expect("valid path") {
        TextureLookup::Load(path) => assets.load_texture(&path, &pixel_image()).expect("texture"),
        TextureLookup::Cached(_) => panic!("nothing is cached yet"),
    };
    match assets.texture("sprites/player.png").expect("valid path") {
        TextureLookup::Cached(cached) => {
            assert_eq!(cached.id(), first.id());
            assert_eq!(cached.data().pixels_rgba8(), first.data().pixels_rgba8());
        }
        TextureLookup::Load(_) => panic!("the texture was cached"),
    }
    let other = match assets.texture("sprites/enemy.png").expect("valid path") {
        TextureLookup::Load(path) => assets.load_texture(&path, &pixel_image()).expect("texture"),
        TextureLookup::Cached(_) => panic!("another path is not cached"),
    };
    assert_eq!(other.id().raw(), first.id().raw() + 1);
}

#[test]
fn image_that_cannot_make_a_texture_is_refused_with_the_offered_id() {
    let mut assets = Assets::new();
    let path = match assets.texture("sprites/empty.png").expect("valid path") {
        TextureLookup::Load(path) => path,
        TextureLookup::Cached(_) => panic!("nothing is cached yet"),
    };
    let empty = ImageData::from_decoded("sprites/empty.png", Some((0, 1, vec![]))).expect("image");
    match assets.load_texture(&path, &empty) {
        Err(RenderError::InvalidTextureData { id, reason }) => {
            assert_eq!(id.raw(), 1);
            assert_eq!(reason, "texture dimensions must be greater than zero");
        }
        Ok(_) => panic!("a texture without pixels is refused"),
    }
    assert_eq!(assets.next_texture_id(), 2);
    assert!(matches!(assets.texture("sprites/empty.png").expect("valid path"), TextureLookup::Load(_)));

    let texture = assets.load_texture(&path, &pixel_image()).expect("texture");
    assert_eq!(texture.id().raw(), 2);
}
