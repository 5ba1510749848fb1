use std::path::PathBuf;

use seishin::paths::{
    ensure_asset_scheme, ensure_resource_scheme, PathDiagnosticError, PathError, ProjectPaths, VirtualPath,
    VirtualScheme,
};

#[test]
fn virtual_paths_resolve_under_distinct_roots() {
    let paths = ProjectPaths::new(
        "/project/assets".to_string(),
        "/project/resources".to_string(),
        "/user/seishin".to_string(),
    );

    assert_eq!(
        PathBuf::from(paths.resolve_asset("asset://sprites/player.png").expect("asset path")),
        PathBuf::from("/project/assets/sprites/player.png")
    );
    assert_eq!(
        PathBuf::from(
            paths
                .resolve_resource("res://scenes/main.scene.toml")
                .expect("resource path")
        ),
        PathBuf::from("/project/resources/scenes/main.scene.toml")
    );
    assert_eq!(
        PathBuf::from(paths.resolve_user("user://save_001.dat").expect("user path")),
        PathBuf::from("/user/seishin/save_001.dat")
    );

    assert!(paths.resolve_asset("res://sprites/player.png").is_err());
    assert!(paths.resolve_resource("asset://scenes/main.scene.toml").is_err());
}

#[test]
fn virtual_path_parse_splits_known_schemes() {
    let asset = VirtualPath::parse("asset://a.png").unwrap();
    assert_eq!(asset.scheme(), VirtualScheme::Asset);
    assert_eq!(asset.relative_path(), "a.png");
    assert_eq!(asset.requested(), "asset://a.png");
    assert_eq!(VirtualPath::parse("res://b.toml").unwrap().scheme(), VirtualScheme::Resource);
    assert_eq!(VirtualPath::parse("user://c.dat").unwrap().scheme(), VirtualScheme::User);
    let relative = VirtualPath::parse("d/e.png").unwrap();
    assert_eq!(relative.scheme(), VirtualScheme::Relative);
    assert_eq!(relative.relative_path(), "d/e.png");
}

#[test]
fn unknown_schemes_are_refused_with_a_message() {
    let error = VirtualPath::parse("http://example.com/a.png").unwrap_err();
    assert_eq!(
        error,
        PathError::UnsupportedScheme { requested: "http://example.com/a.png".to_string() }
    );
    assert_eq!(
        error.message(),
        "unsupported virtual path scheme in http://example.com/a.png; expected asset://, res://, or user://"
    );
}

#[test]
fn wrong_scheme_errors_suggest_the_right_one() {
    let resource = VirtualPath::parse("res://sprites/player.png").unwrap();
    let error = ensure_asset_scheme(&resource).unwrap_err();
    assert_eq!(
        error.message(),
        "possible wrong scheme: you used res://sprites/player.png. Sprites, audio, video, and fonts are assets. Try asset://sprites/player.png"
    );
    let asset = VirtualPath::parse("asset://scenes/main.scene.toml").unwrap();
    assert_eq!(
        ensure_resource_scheme(&asset).unwrap_err().message(),
        "possible wrong scheme: you used asset://scenes/main.scene.toml. Configuration, scenes, prefabs, and data files are resources. Try res://scenes/main.scene.toml"
    );
    let relative = VirtualPath::parse("scenes/main.scene.toml").unwrap();
    assert_eq!(
        ensure_resource_scheme(&relative).unwrap_err().message(),
        "resource paths must use res:// so they resolve under [resources].root: scenes/main.scene.toml"
    );
    assert!(ensure_asset_scheme(&relative).is_ok());
    let user = VirtualPath::parse("user://save.dat").unwrap();
    assert_eq!(
        ensure_asset_scheme(&user).unwrap_err().message(),
        "user:// paths are reserved for writable user data and cannot be loaded as assets: user://save.dat"
    );
    assert_eq!(
        ensure_resource_scheme(&user).unwrap_err().message(),
        "user:// paths are reserved for writable user data and cannot be loaded as resources: user://save.dat"
    );
}

#[test]
fn user_paths_need_the_user_scheme_and_stay_under_the_root() {
    let paths = ProjectPaths::new("assets".to_string(), "resources".to_string(), "user/".to_string());
    assert_eq!(paths.resolve_user("user://slot/1.dat").unwrap(), "user/slot/1.dat");
    assert_eq!(
        paths.resolve_user("res://x").unwrap_err().message(),
        "user data paths must use user:// so they resolve under the user data root: res://x"
    );
    assert!(matches!(
        paths.resolve_user("user://../escape").unwrap_err(),
        PathError::InvalidAssetPath(_)
    ));
    assert_eq!(paths.resolve_asset("sprites/a.png").unwrap(), "assets/sprites/a.png");
    assert_eq!(paths.user_root(), "user/");
}

#[test]
fn load_diagnostics_name_the_paths_and_suggest_the_other_scheme() {
    let asset = PathDiagnosticError::asset(
        "asset://sprites/missing.png",
        "/game/assets/sprites/missing.png",
        "/game/assets",
        "file not found",
    );
    assert_eq!(
        asset.message(),
        "Asset not found or could not be loaded: asset://sprites/missing.png\n\nResolved path:\n  /game/assets/sprites/missing.png\n\nConfigured asset root:\n  /game/assets\n\nSuggestions:\n  - Check if the file exists.\n  - Check Seishin.toml root configuration.\n  - Use asset:// for images, audio, video, and fonts.\n  - Use res:// for resources/configuration/scene files.\n\nCause: file not found"
    );

    let resource = PathDiagnosticError::resource("res://scenes/main.scene.toml", "/r/scenes/main.scene.toml", "/r", "denied");
    let message = resource.message();
    assert!(message.starts_with("Resource not found or could not be loaded: res://scenes/main.scene.toml"));
    assert!(message.contains("Configured resource root:\n  /r"));
    assert!(message.contains("  - Use res:// for resources/configuration/scene files.\n  - Use asset:// for images, audio, video, and fonts."));
    assert!(message.ends_with("Cause: denied"));
}
