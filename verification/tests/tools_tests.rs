use unity_cli::tools::build_index_result;
use unity_cli::tools::clamp_param;
use unity_cli::tools::find_refs;
use unity_cli::tools::find_refs_query;
use unity_cli::tools::find_symbol;
use unity_cli::tools::find_symbol_query;
use unity_cli::tools::get_symbols_rel_path;
use unity_cli::tools::get_symbols_result;
use unity_cli::tools::join_path;
use unity_cli::tools::kind_from_lsp;
use unity_cli::tools::FindRefsParams;
use unity_cli::tools::FindSymbolParams;
use unity_cli::tools::RefInput;
use unity_cli::tools::SymbolInfo;
use unity_cli::tools::SymbolNode;
use unity_cli::tools::ToolError;

fn refs_params() -> FindRefsParams {
    FindRefsParams {
        name: Some(String::from("Foo")),
        scope: None,
        start_after: None,
        path_filter: None,
        page_size: None,
        max_bytes: None,
        max_matches_per_file: None,
    }
}

fn reference(path: &str, line: u64, column: u64, snippet: &str) -> RefInput {
    RefInput {
        path: String::from(path),
        line,
        column,
        snippet: String::from(snippet),
    }
}

#[test]
fn kind_mapping_names_the_known_kinds() {
    assert_eq!(kind_from_lsp(3), "namespace");
    assert_eq!(kind_from_lsp(5), "class");
    assert_eq!(kind_from_lsp(6), "method");
    assert_eq!(kind_from_lsp(7), "property");
    assert_eq!(kind_from_lsp(8), "field");
    assert_eq!(kind_from_lsp(10), "enum");
    assert_eq!(kind_from_lsp(11), "interface");
    assert_eq!(kind_from_lsp(23), "struct");
    assert_eq!(kind_from_lsp(4), "unknown");
    assert_eq!(kind_from_lsp(-1), "unknown");
}

#[test]
fn parameters_are_defaulted_and_clamped() {
    assert_eq!(clamp_param(None, 50, 1, 1000), 50);
    assert_eq!(clamp_param(Some(0), 50, 1, 1000), 1);
    assert_eq!(clamp_param(Some(5000), 50, 1, 1000), 1000);
    assert_eq!(clamp_param(Some(64), 50, 1, 1000), 64);
}

#[test]
fn get_symbols_validates_its_path() {
    match get_symbols_rel_path(&None) {
        Err(ToolError::MissingPath) => {}
        _ => panic!("expected the missing-path error"),
    }
    match get_symbols_rel_path(&Some(String::from("Temp/Foo.cs"))) {
        Err(e @ ToolError::PathOutsideRoots) => {
            assert_eq!(e.message(), "path must start with Assets/ or Packages/");
        }
        _ => panic!("expected the out-of-roots error"),
    }
    match get_symbols_rel_path(&Some(String::from("Assets/Notes.txt"))) {
        Err(e @ ToolError::OnlyCsFiles) => {
            assert_eq!(e.message(), "Only .cs files are supported");
        }
        _ => panic!("expected the extension error"),
    }
    match get_symbols_rel_path(&Some(String::from("./Assets\\Scripts\\Test.CS"))) {
        Ok(rel) => assert_eq!(rel, "Assets/Scripts/Test.CS"),
        _ => panic!("expected acceptance"),
    }
}

#[test]
fn join_path_inserts_one_separator() {
    assert_eq!(join_path("/proj", "Assets/Foo.cs"), "/proj/Assets/Foo.cs");
}

#[test]
fn symbol_trees_flatten_depth_first_with_containers() {
    let leaf = SymbolNode {
        name: String::from("Run"),
        kind: 6,
        line: 10,
        column: 4,
        children: Vec::new(),
    };
    let unnamed = SymbolNode {
        name: String::new(),
        kind: 5,
        line: 50,
        column: 0,
        children: Vec::new(),
    };
    let class = SymbolNode {
        name: String::from("Player"),
        kind: 5,
        line: 2,
        column: 0,
        children: vec![leaf, unnamed],
    };
    let roots = vec![class];
    let result = get_symbols_result(String::from("Assets/Player.cs"), &roots);
    assert_eq!(result.path, "Assets/Player.cs");
    assert_eq!(result.symbols.len(), 2);
    assert_eq!(result.symbols[0].name, "Player");
    assert_eq!(result.symbols[0].kind, "class");
    assert_eq!(result.symbols[0].line, 3);
    assert_eq!(result.symbols[0].column, 1);
    assert!(result.symbols[0].container.is_none());
    assert_eq!(result.symbols[1].name, "Run");
    assert_eq!(result.symbols[1].kind, "method");
    assert_eq!(result.symbols[1].line, 11);
    assert_eq!(result.symbols[1].column, 5);
    assert_eq!(result.symbols[1].container.as_deref(), Some("Player"));
}

fn symbol(name: &str, kind: i64, uri: &str) -> SymbolInfo {
    SymbolInfo {
        name: String::from(name),
        kind,
        uri: String::from(uri),
        line: 0,
        column: 0,
    }
}

#[test]
fn exact_match_returns_only_equal_names() {
    let params = FindSymbolParams {
        name: Some(String::from("Player")),
        kind: None,
        scope: None,
        exact: Some(true),
    };
    assert_eq!(find_symbol_query(&params).ok().as_deref(), Some("Player"));
    let items = vec![
        symbol("Player", 5, "file:///proj/Assets/Player.cs"),
        symbol("PlayerController", 5, "file:///proj/Assets/PlayerController.cs"),
    ];
    let result = find_symbol(&params, "/proj", &items).expect("a result");
    assert_eq!(result.total, 1);
    assert_eq!(result.results.len(), 1);
    assert_eq!(result.results[0].path, "Assets/Player.cs");
    assert_eq!(result.results[0].symbols.len(), 1);
    assert_eq!(result.results[0].symbols[0].name, "Player");
}

#[test]
fn substring_match_returns_containing_names() {
    let params = FindSymbolParams {
        name: Some(String::from("Player")),
        kind: None,
        scope: None,
        exact: None,
    };
    let items = vec![
        symbol("PlayerController", 5, "file:///proj/Assets/B.cs"),
        symbol("Player", 5, "file:///proj/Assets/A.cs"),
        symbol("Enemy", 5, "file:///proj/Assets/C.cs"),
    ];
    let result = find_symbol(&params, "/proj", &items).expect("a result");
    assert_eq!(result.total, 2);
    assert_eq!(result.results.len(), 2);
    assert_eq!(result.results[0].path, "Assets/A.cs");
    assert_eq!(result.results[1].path, "Assets/B.cs");
}

#[test]
fn kind_and_scope_filters_apply() {
    let params = FindSymbolParams {
        name: Some(String::from("Player")),
        kind: Some(String::from("Class")),
        scope: Some(String::from("Assets")),
        exact: None,
    };
    let items = vec![
        symbol("Player", 5, "file:///proj/Assets/A.cs"),
        symbol("PlayerRun", 6, "file:///proj/Assets/B.cs"),
        symbol("PlayerPkg", 5, "file:///proj/Packages/C.cs"),
    ];
    let result = find_symbol(&params, "/proj", &items).expect("a result");
    assert_eq!(result.total, 1);
    assert_eq!(result.results[0].path, "Assets/A.cs");
    assert_eq!(result.results[0].symbols[0].kind, "class");
}

#[test]
fn missing_names_are_argument_errors() {
    let params = FindSymbolParams { name: None, kind: None, scope: None, exact: None };
    match find_symbol_query(&params) {
        Err(e @ ToolError::MissingSymbolName) => {
            assert_eq!(e.message(), "find_symbol requires `name`");
        }
        _ => panic!("expected the missing-name error"),
    }
    let mut rp = refs_params();
    rp.name = None;
    match find_refs_query(&rp) {
        Err(e @ ToolError::MissingRefsName) => {
            assert_eq!(e.message(), "find_refs requires `name`");
        }
        _ => panic!("expected the missing-name error"),
    }
}

#[test]
fn a_page_ends_with_a_cursor_and_the_next_page_starts_after_it() {
    let items = vec![
        reference("Assets/A.cs", 1, 1, "a1"),
        reference("Assets/A.cs", 2, 1, "a2"),
        reference("Assets/B.cs", 1, 1, "b1"),
        reference("Assets/B.cs", 2, 1, "b2"),
        reference("Assets/C.cs", 1, 1, "c1"),
    ];

    let mut params = refs_params();
    params.page_size = Some(2);
    let first = find_refs(&params, "/proj", &items).expect("a result");
    assert_eq!(first.total, 2);
    assert!(first.truncated);
    assert_eq!(first.results.len(), 1);
    assert_eq!(first.results[0].path, "Assets/A.cs");
    assert_eq!(first.results[0].references.len(), 2);
    assert_eq!(first.cursor.as_deref(), Some("Assets/A.cs"));

    let mut follow = refs_params();
    follow.page_size = Some(2);
    follow.start_after = first.cursor.clone();
    let second = find_refs(&follow, "/proj", &items).expect("a result");
    assert_eq!(second.total, 2);
    for group in &second.results {
        assert!(group.path.as_str() > "Assets/A.cs");
    }
    assert_eq!(second.results.len(), 1);
    assert_eq!(second.results[0].path, "Assets/B.cs");
}

#[test]
fn per_file_matches_are_capped_without_truncation() {
    let items = vec![
        reference("Assets/A.cs", 1, 1, "a1"),
        reference("Assets/A.cs", 2, 1, "a2"),
        reference("Assets/A.cs", 3, 1, "a3"),
        reference("Assets/B.cs", 1, 1, "b1"),
    ];
    let mut params = refs_params();
    params.max_matches_per_file = Some(1);
    let result = find_refs(&params, "/proj", &items).expect("a result");
    assert!(!result.truncated);
    assert!(result.cursor.is_none());
    assert_eq!(result.total, 2);
    assert_eq!(result.results.len(), 2);
    assert_eq!(result.results[0].references.len(), 1);
    assert_eq!(result.results[0].references[0].snippet, "a1");
    assert_eq!(result.results[1].references.len(), 1);
}

#[test]
fn the_byte_budget_stops_before_the_overflowing_entry() {
    let long = "x".repeat(200);
    let items = vec![
        reference("Assets/A.cs", 1, 1, "short"),
        reference("Assets/B.cs", 1, 1, long.as_str()),
        reference("Assets/C.cs", 1, 1, "later"),
    ];
    let mut params = refs_params();
    params.max_bytes = Some(128);
    let result = find_refs(&params, "/proj", &items).expect("a result");
    assert!(result.truncated);
    assert_eq!(result.total, 1);
    assert_eq!(result.results.len(), 1);
    assert_eq!(result.results[0].path, "Assets/A.cs");
    assert_eq!(result.cursor.as_deref(), Some("Assets/A.cs"));
}

#[test]
fn references_are_sorted_and_filtered_before_paging() {
    let items = vec![
        reference("file:///proj/Assets/B.cs", 5, 2, "later file"),
        reference("Assets/A.cs", 9, 1, "second line"),
        reference("Assets/A.cs", 2, 1, "first line"),
        reference("Temp/ignored.cs", 1, 1, "outside the roots"),
    ];
    let mut params = refs_params();
    params.path_filter = Some(String::from("A.cs"));
    let result = find_refs(&params, "/proj", &items).expect("a result");
    assert_eq!(result.total, 2);
    assert_eq!(result.results.len(), 1);
    assert_eq!(result.results[0].path, "Assets/A.cs");
    assert_eq!(result.results[0].references[0].snippet, "first line");
    assert_eq!(result.results[0].references[1].snippet, "second line");
}

#[test]
fn groups_come_out_in_path_order_whatever_the_input_order() {
    let items = vec![
        reference("Assets/C.cs", 1, 1, "c"),
        reference("Assets/A.cs", 1, 1, "a"),
        reference("Library/PackageCache/pkg/D.cs", 1, 1, "d"),
        reference("Assets/B.cs", 1, 1, "b"),
    ];
    let result = find_refs(&refs_params(), "/proj", &items).expect("a result");
    let paths: Vec<&str> = result.results.iter().map(|g| g.path.as_str()).collect();
    assert_eq!(
        paths,
        vec!["Assets/A.cs", "Assets/B.cs", "Assets/C.cs", "Library/PackageCache/pkg/D.cs"]
    );
}

#[test]
fn build_index_echoes_the_count_and_rewrites_the_path() {
    let result = build_index_result(
        true,
        321,
        &Some(String::from("/proj/Library/index.json")),
        "/proj",
        999,
    );
    assert!(result.success);
    assert_eq!(result.indexed_files, 321);
    assert_eq!(result.indexed_symbols, 321);
    assert_eq!(result.generated_at_epoch_ms, 999);
    assert_eq!(result.index_path.as_deref(), Some("Library/index.json"));

    let bare = build_index_result(false, 0, &None, "/proj", 1);
    assert!(!bare.success);
    assert!(bare.index_path.is_none());
}
