use image::ImageEncoder;
use seishin::assets::{decode_image, AssetBundle, AssetError, AssetPath};

fn valid_png_bytes() -> Vec<u8> {
    let mut bytes = Vec::new();
    image::codecs::png::PngEncoder::new(&mut bytes)
        .write_image(&[255, 0, 0, 255], 1, 1, image::ExtendedColorType::Rgba8)
        .expect("encode png fixture");
    bytes
}

#[test]
fn asset_bundle_loads_bytes_and_images_without_filesystem_paths() {
    let asset_path = AssetPath::new("sprites/player.png").expect("asset path");
    let mut bundle = AssetBundle::new();

    bundle.insert(asset_path.clone(), valid_png_bytes());

    let image = bundle.load_image(&asset_path).expect("image from bundle");

    assert_eq!(image.width(), 1);
    assert_eq!(image.height(), 1);
    assert!(!bundle.read_bytes(&asset_path).expect("raw bytes").is_empty());
}

#[test]
fn decoded_png_pixels_are_rgba8() {
    let image = decode_image("sprites/red.png", &valid_png_bytes()).unwrap();
    assert_eq!(image.pixels_rgba8(), &[255, 0, 0, 255]);
}

#[test]
fn bundle_reports_missing_assets_and_undecodable_images() {
    let missing = AssetPath::new("sprites/missing.png").unwrap();
    let corrupt = AssetPath::new("sprites/corrupt.png").unwrap();
    let mut bundle = AssetBundle::default();
    bundle.insert(corrupt.clone(), b"not a png".to_vec());

    assert_eq!(
        bundle.read_bytes(&missing).unwrap_err(),
        AssetError::NotFound("sprites/missing.png".to_string())
    );
    assert_eq!(
        bundle.load_image(&missing).unwrap_err(),
        AssetError::NotFound("sprites/missing.png".to_string())
    );
    assert_eq!(
        bundle.load_image(&corrupt).unwrap_err(),
        AssetError::ImageDecode("sprites/corrupt.png".to_string())
    );
}

#[test]
fn bundle_insert_returns_previous_bytes_and_read_sees_latest_write() {
    let path = AssetPath::new("audio/beep.wav").unwrap();
    let other = AssetPath::new("audio/boop.wav").unwrap();
    let mut bundle = AssetBundle::new();

    assert_eq!(bundle.insert(path.clone(), b"first".to_vec()), None);
    assert_eq!(bundle.insert(other.clone(), b"other".to_vec()), None);
    assert_eq!(bundle.insert(path.clone(), b"second".to_vec()), Some(b"first".to_vec()));
    assert!(bundle.contains(&path));
    assert_eq!(bundle.read_bytes(&path).unwrap(), b"second");
    assert_eq!(bundle.read_bytes(&other).unwrap(), b"other");
}

#[test]
fn bundles_with_the_same_contents_compare_equal_whatever_the_insertion_order() {
    let a = AssetPath::new("a.bin").unwrap();
    let b = AssetPath::new("b.bin").unwrap();
    let mut first = AssetBundle::new();
    first.insert(a.clone(), vec![1]);
    first.insert(b.clone(), vec![2]);
    let mut second = AssetBundle::new();
    second.insert(b, vec![2]);
    second.insert(a, vec![1]);
    assert_eq!(first, second);
    assert_eq!(first.clone(), second);
}

#[test]
fn asset_paths_refuse_empty_absolute_and_parent_paths() {
    assert!(AssetPath::new("sprites/player.png").is_ok());
    assert!(AssetPath::new("sprites/..hidden/a.png").is_ok());
    assert_eq!(AssetPath::new("").unwrap_err(), AssetError::InvalidPath(String::new()));
    assert_eq!(
        AssetPath::new("/etc/passwd").unwrap_err(),
        AssetError::InvalidPath("/etc/passwd".to_string())
    );
    assert!(AssetPath::new("../secret.png").is_err());
    assert!(AssetPath::new("sprites/../../secret.png").is_err());
    assert!(AssetPath::new("sprites/..").is_err());
    assert_eq!(
        AssetError::NotFound("x.png".to_string()).message(),
        "asset not found: x.png"
    );
}
