use unity_cli::manager::binary_path;
use unity_cli::manager::clean_version;
use unity_cli::manager::detect_rid;
use unity_cli::manager::executable_name;
use unity_cli::manager::install_dir;
use unity_cli::manager::version_path;

#[test]
fn platform_identifiers_cover_the_six_platforms() {
    assert_eq!(detect_rid("windows", "aarch64"), "win-arm64");
    assert_eq!(detect_rid("windows", "x86_64"), "win-x64");
    assert_eq!(detect_rid("macos", "aarch64"), "osx-arm64");
    assert_eq!(detect_rid("macos", "x86_64"), "osx-x64");
    assert_eq!(detect_rid("linux", "aarch64"), "linux-arm64");
    assert_eq!(detect_rid("linux", "x86_64"), "linux-x64");
}

#[test]
fn the_executable_name_depends_on_the_platform() {
    assert_eq!(executable_name("windows"), "server.exe");
    assert_eq!(executable_name("linux"), "server");
    assert_eq!(executable_name("macos"), "server");
}

#[test]
fn install_layout_nests_under_the_tools_root() {
    let dir = install_dir("/home/dev/.unity/tools", "linux-x64");
    assert_eq!(dir, "/home/dev/.unity/tools/csharp-lsp/linux-x64");
    assert_eq!(binary_path(&dir, "server"), "/home/dev/.unity/tools/csharp-lsp/linux-x64/server");
    assert_eq!(version_path(&dir), "/home/dev/.unity/tools/csharp-lsp/linux-x64/VERSION");
}

#[test]
fn version_markers_are_trimmed_and_blank_ones_dropped() {
    assert_eq!(clean_version("1.2.3\n").as_deref(), Some("1.2.3"));
    assert_eq!(clean_version("  2.0.0  ").as_deref(), Some("2.0.0"));
    assert_eq!(clean_version("\u{a0}3.1.4\u{a0}").as_deref(), Some("3.1.4"));
    assert!(clean_version("   \n").is_none());
    assert!(clean_version("\u{2003}\u{a0}").is_none());
    assert!(clean_version("").is_none());
}
