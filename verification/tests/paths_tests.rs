use unity_cli::paths::ends_with_cs;
use unity_cli::paths::file_uri;
use unity_cli::paths::normalize_rel_path;
use unity_cli::paths::path_matches_scope;
use unity_cli::paths::ref_path;
use unity_cli::paths::to_project_relative_or_raw;
use unity_cli::paths::uri_to_rel_path;

#[test]
fn normalize_rel_path_accepts_assets_packages_and_library() {
    assert_eq!(
        normalize_rel_path("Assets/Scripts/Test.cs").as_deref(),
        Some("Assets/Scripts/Test.cs")
    );
    assert_eq!(
        normalize_rel_path("Packages/com.demo/Runtime/Foo.cs").as_deref(),
        Some("Packages/com.demo/Runtime/Foo.cs")
    );
    assert_eq!(
        normalize_rel_path("Library/PackageCache/com.demo/Bar.cs").as_deref(),
        Some("Library/PackageCache/com.demo/Bar.cs")
    );
}

#[test]
fn normalize_rel_path_rejects_parent_traversal() {
    assert!(normalize_rel_path("Assets/../Secrets.cs").is_none());
    assert!(normalize_rel_path("../../Secrets.cs").is_none());
}

#[test]
fn normalize_rel_path_rejects_traversal_before_the_root() {
    assert!(normalize_rel_path("../Assets/A.cs").is_none());
    assert!(normalize_rel_path("..\\Assets\\A.cs").is_none());
    assert!(normalize_rel_path("foo/../Assets/A.cs").is_none());
    assert!(normalize_rel_path("./../Assets/A.cs").is_none());
}

#[test]
fn normalize_rel_path_cleans_input() {
    assert_eq!(
        normalize_rel_path("  ./Assets\\Scripts\\Test.cs  ").as_deref(),
        Some("Assets/Scripts/Test.cs")
    );
    assert_eq!(
        normalize_rel_path("/project/Assets/Foo.cs").as_deref(),
        Some("Assets/Foo.cs")
    );
    assert_eq!(
        normalize_rel_path("Assets//Double//Slash.cs").as_deref(),
        Some("Assets/Double/Slash.cs")
    );
    assert!(normalize_rel_path("Elsewhere/Foo.cs").is_none());
    assert!(normalize_rel_path("").is_none());
}

#[test]
fn scope_filters_paths_by_root() {
    assert!(path_matches_scope("Assets/Foo.cs", "assets"));
    assert!(!path_matches_scope("Packages/Foo.cs", "assets"));
    assert!(path_matches_scope("Packages/Foo.cs", "packages"));
    assert!(path_matches_scope("Library/PackageCache/Foo.cs", "packages"));
    assert!(path_matches_scope("Packages/Foo.cs", "embedded"));
    assert!(!path_matches_scope("Library/PackageCache/Foo.cs", "embedded"));
    assert!(path_matches_scope("Library/PackageCache/Foo.cs", "library"));
    assert!(!path_matches_scope("Packages/Foo.cs", "library"));
    assert!(path_matches_scope("Elsewhere/Foo.cs", "all"));
    assert!(path_matches_scope("Elsewhere/Foo.cs", "anything-else"));
}

#[test]
fn cs_extension_is_case_insensitive() {
    assert!(ends_with_cs("Assets/Foo.cs"));
    assert!(ends_with_cs("Assets/Foo.CS"));
    assert!(ends_with_cs("Assets/Foo.Cs"));
    assert!(!ends_with_cs("Assets/Foo.txt"));
    assert!(!ends_with_cs("cs"));
}

#[test]
fn file_uri_prefixes_scheme_and_rewrites_separators() {
    assert_eq!(file_uri("/proj/Assets/Foo.cs"), "file:///proj/Assets/Foo.cs");
    assert_eq!(file_uri("C:\\proj\\Assets\\Foo.cs"), "file://C:/proj/Assets/Foo.cs");
}

#[test]
fn uri_to_rel_path_strips_scheme_and_root() {
    assert_eq!(
        uri_to_rel_path("/proj", "file:///proj/Assets/Foo.cs").as_deref(),
        Some("Assets/Foo.cs")
    );
    assert_eq!(
        uri_to_rel_path("/proj", "file:///other/Assets/Foo.cs").as_deref(),
        Some("Assets/Foo.cs")
    );
    assert!(uri_to_rel_path("/proj", "file:///proj/Temp/Foo.cs").is_none());
    assert!(uri_to_rel_path("/proj", "/proj/Assets/Foo.cs").is_none());
}

#[test]
fn ref_path_takes_uris_and_plain_paths() {
    assert_eq!(
        ref_path("/proj", "file:///proj/Assets/Foo.cs").as_deref(),
        Some("Assets/Foo.cs")
    );
    assert_eq!(ref_path("/proj", "Assets/Foo.cs").as_deref(), Some("Assets/Foo.cs"));
    assert!(ref_path("/proj", "Temp/Foo.cs").is_none());
}

#[test]
fn output_path_is_rewritten_inside_the_root() {
    assert_eq!(to_project_relative_or_raw("/proj", "/proj/Library/index.json"), "Library/index.json");
    assert_eq!(to_project_relative_or_raw("/proj", "/elsewhere/index.json"), "/elsewhere/index.json");
    assert_eq!(to_project_relative_or_raw("/proj", "relative\\index.json"), "relative/index.json");
}
