use std::collections::BTreeMap;

use seishin::project_tools::{
    component_modules_from_main_source, component_names_from_module_source, content_type_for_extension,
    custom_component_types_from_sources, custom_component_types_from_toml_source,
    dependency_audit_entries, dependency_names_from_manifest_source, format_list,
    missing_components, normalize_path, package_name_from_manifest_source, parse_example,
    parse_quoted_string, quoted_strings_after, registered_components_from_sources,
    render_dependency_audit, resolve_request_path, take_rust_ident, validate_components,
    web_index_html, content_type, component_scan_checked, modules_scan_checked,
};

#[test]
fn package_name_is_read_from_package_section_only() {
    let manifest = r#"
            [workspace]
            members = ["examples/basic_2d"]

            [dependencies]
            name = "not-a-package"

            [package]
            version = "0.1.0"
            name = "seishin_basic_2d"
        "#;

    assert_eq!(
        package_name_from_manifest_source(manifest),
        Some("seishin_basic_2d".to_string())
    );
}

#[test]
fn dependency_audit_records_image_format_policy() {
    let audit = render_dependency_audit();

    assert!(audit.contains("Image format policy:"));
    assert!(audit.contains("PNG"));
}

#[test]
fn registered_components_are_read_from_component_modules() {
    let main_source = r#"
            fn main() {
                App::discover_project()
                    .add_component(components::map_bootstrap::new())
                    .add_component(components::player_camera::new())
                    .run();
            }
        "#;
    let mut modules = BTreeMap::new();
    modules.insert(
        "map_bootstrap",
        r#"pub fn new() -> impl ComponentDefinition {
                component_factory("MapBootstrap", map_bootstrap_factory)
            }"#,
    );
    modules.insert(
        "player_camera",
        r#"pub fn new() -> impl ComponentDefinition {
                |app: &mut StartupContext| {
                    app.register_component_factory("PlayerCamera", player_camera_factory)?;
                    Ok(())
                }
            }"#,
    );
    let module_sources: Vec<(String, String)> = modules
        .iter()
        .map(|(name, source)| (name.to_string(), source.to_string()))
        .collect();

    assert_eq!(
        registered_components_from_sources(main_source, &module_sources),
        Ok(vec!["MapBootstrap".to_string(), "PlayerCamera".to_string()])
    );
}

#[test]
fn custom_component_types_are_read_only_from_component_sections() {
    let source = r#"
            [input.actions.move]
            type = "axis2d"

            [components.player_controller]
            type = "PlayerController"

            [entities.components.camera]
            type = "PlayerCamera"
        "#;

    assert_eq!(
        custom_component_types_from_toml_source(source),
        vec!["PlayerCamera".to_string(), "PlayerController".to_string()]
    );
}

#[test]
fn project_validation_reports_unregistered_scene_components() {
    let registered = vec!["PlayerController".to_string()];
    let used = vec![
        "PlayerCamera".to_string(),
        "PlayerController".to_string(),
        "WandererController".to_string(),
    ];

    assert_eq!(
        missing_components(&registered, &used),
        vec!["PlayerCamera".to_string(), "WandererController".to_string()]
    );
}

#[test]
fn dependency_names_skip_internal_path_and_commented_entries() {
    let manifest = r#"
        [package]
        name = "demo"

        [dependencies]
        serde = { version = "1", features = ["derive"] }
        seishin_core = { path = "../seishin_core" }
        local = { path = "../local" }
        # toml = "1"
        "wgpu" = "22"

        [target.'cfg(unix)'.dependencies]
        kira = "0.9"

        [dev-dependencies]
        image = "0.25"
    "#;
    assert_eq!(
        dependency_names_from_manifest_source(manifest),
        vec!["kira".to_string(), "serde".to_string(), "wgpu".to_string()]
    );
}

#[test]
fn missing_registered_module_is_an_error() {
    let main_source = ".add_component(components::ghost::new())";
    assert_eq!(
        registered_components_from_sources(main_source, &[]),
        Err("component module 'ghost' was registered but not found".to_string())
    );
    let sources = vec![("ghost".to_string(), "pub fn new() {}".to_string())];
    assert_eq!(
        registered_components_from_sources(main_source, &sources),
        Err("component module 'ghost' does not expose a registered component name".to_string())
    );
}

#[test]
fn component_modules_are_listed_once_in_registration_order() {
    let source = ".add_component(components::b::new()).add_component(components::a::new()).add_component(components::b::new())";
    assert_eq!(
        component_modules_from_main_source(source),
        vec!["b".to_string(), "a".to_string()]
    );
    assert!(component_modules_from_main_source("fn main() {}").is_empty());
}

#[test]
fn component_names_follow_the_three_registration_calls() {
    let source = r#"register_component("C"); component_factory("A", f); register_component_factory("B", g); component_factory("A", h);"#;
    assert_eq!(
        component_names_from_module_source(source),
        vec!["A".to_string(), "B".to_string(), "C".to_string()]
    );
    assert_eq!(
        quoted_strings_after(r#"f("x") f("y") f("x") f(z"#, "f("),
        vec!["x".to_string(), "y".to_string()]
    );
}

#[test]
fn small_text_helpers_behave_like_their_uses_expect() {
    assert_eq!(parse_quoted_string("\"abc\" rest"), Some("abc".to_string()));
    assert_eq!(parse_quoted_string("abc"), None);
    assert_eq!(parse_quoted_string("\"open"), None);
    assert_eq!(take_rust_ident("map_bootstrap::new()"), "map_bootstrap");
    assert_eq!(take_rust_ident("::x"), "");
    assert_eq!(format_list(&[]), "none");
    assert_eq!(format_list(&["a".to_string(), "b".to_string()]), "a, b");
    assert_eq!(normalize_path("assets\\sprites\\a.png"), "assets/sprites/a.png");
    let args: Vec<String> = vec!["check-project".into(), "--example".into(), "mini_rpg".into()];
    assert_eq!(parse_example(&args), Some("mini_rpg".to_string()));
    assert_eq!(parse_example(&["--example".to_string()]), None);
}

#[test]
fn component_types_are_merged_across_resources() {
    let sources = vec![
        "[components.a]\ntype = \"Zed\"\n".to_string(),
        "[components.b]\ntype = \"Alpha\" # comment\n[other]\ntype = \"Nope\"\n".to_string(),
        "[components.c]\ntype = \"Zed\"\n".to_string(),
    ];
    assert_eq!(
        custom_component_types_from_sources(&sources),
        vec!["Alpha".to_string(), "Zed".to_string()]
    );
}

#[test]
fn project_validation_lists_registered_and_used_components() {
    let report = validate_components(vec!["A".to_string()], vec!["A".to_string()]).unwrap();
    assert_eq!(report.registered_components, vec!["A".to_string()]);
    assert_eq!(report.used_components, vec!["A".to_string()]);
    assert_eq!(
        validate_components(vec![], vec!["B".to_string()]).unwrap_err(),
        "unregistered components: B. registered components: none"
    );
}

#[test]
fn static_requests_resolve_under_the_root_or_are_refused() {
    assert_eq!(resolve_request_path("target/web", "/"), Some("target/web/index.html".to_string()));
    assert_eq!(
        resolve_request_path("target/web", "/assets//./a.png?v=1"),
        Some("target/web/assets/a.png".to_string())
    );
    assert_eq!(resolve_request_path("target/web", "/../secret"), None);
    assert_eq!(resolve_request_path("target/web", "/a\\b"), None);
    assert_eq!(content_type("index.html"), "text/html; charset=utf-8");
    assert_eq!(content_type("pkg/game_bg.wasm"), "application/wasm");
    assert_eq!(content_type("photo.jpeg"), "image/jpeg");
    assert_eq!(content_type("README"), "application/octet-stream");
    assert_eq!(content_type_for_extension(Some("svg")), "image/svg+xml");
    assert!(web_index_html("game").contains("import init from './game.js';"));
}

#[test]
fn dependency_audit_lists_each_dependency_once_by_name() {
    let entries = dependency_audit_entries();
    assert_eq!(entries.len(), 15);
    assert_eq!(entries[0].name, "bytemuck");
    assert!(render_dependency_audit().contains("| `wgpu` | backend | keep optional | Primary renderer backend; gated by render-wgpu. |\n"));
}

#[test]
fn dependency_audit_covers_direct_external_dependencies() {
    // The outside crates that the engine's sources and asset loader use, as
    // the workspace and asset manifests declare them.
    let root_manifest = r#"
        [workspace.dependencies]
        kira = { version = "0.12", default-features = false }
        serde = { version = "1", features = ["derive"] }
        serde_json = "1"
        toml = "0.8"
        tracing = "0.1"
        wgpu = { version = "24", optional = true }
        seishin_core = { path = "crates/seishin_core" }
    "#;
    let assets_manifest = r#"
        [dependencies]
        image = { version = "0.25", default-features = false, features = ["png"] }
        seishin_core = { path = "../seishin_core" }
    "#;
    let dependencies = dependency_names_from_manifest_source(root_manifest)
        .into_iter()
        .chain(dependency_names_from_manifest_source(assets_manifest))
        .collect::<std::collections::BTreeSet<_>>();
    let audited = dependency_audit_entries()
        .iter()
        .map(|entry| entry.name.to_string())
        .collect::<std::collections::BTreeSet<_>>();
    let missing = dependencies.difference(&audited).cloned().collect::<Vec<_>>();

    assert!(!dependencies.is_empty());
    assert_eq!(missing, Vec::<String>::new());
}

#[test]
fn bare_file_names_are_served_by_their_final_extension() {
    assert_eq!(content_type("app.js"), "text/javascript; charset=utf-8");
    assert_eq!(content_type("game_bg.wasm"), "application/wasm");
    assert_eq!(content_type("archive.png.gz"), "application/octet-stream");
    assert_eq!(content_type("styles.min.css"), "text/css; charset=utf-8");
    assert_eq!(content_type(".html"), "application/octet-stream");
    assert_eq!(content_type("page."), "application/octet-stream");
}

#[test]
fn scan_checks_refuse_a_wide_character_after_a_marker() {
    assert!(modules_scan_checked("app.add_component(components::player::register)"));
    assert!(!modules_scan_checked("app.add_component(\u{e9})"));
    assert!(modules_scan_checked("no registration here \u{e9}"));
    assert!(component_scan_checked("registry.register_component(\"player\")"));
    assert!(!component_scan_checked("registry.register_component(\u{e9}"));
    assert!(component_scan_checked("component_factory(\"a\") register_component_factory(\"b\")"));
}

#[test]
fn served_files_are_typed_by_their_file_name() {
    assert_eq!(content_type("dist/pkg/game_bg.wasm"), "application/wasm");
    assert_eq!(content_type("/srv/dist/index.html"), "text/html; charset=utf-8");
    assert_eq!(content_type("dist.v2/README"), "application/octet-stream");
    assert_eq!(content_type("dist/.hidden"), "application/octet-stream");
    assert_eq!(content_type("dist/pkg/game.js"), "text/javascript; charset=utf-8");
}
