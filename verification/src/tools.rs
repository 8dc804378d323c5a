//! The tool handlers' logic: argument validation, symbol-kind mapping,
//! parameter clamping, symbol-tree flattening, symbol filtering and grouping,
//! reference pagination, and index-result shaping.
//!
//! Each handler is split around its LSP request: a function here validates
//! the arguments and computes what to ask, the application layer performs the
//! exchange, and a function here shapes the parsed reply.

use vstd::prelude::*;

use vstd::string::StringExecFns;

use crate::paths::is_cs_path;
use crate::paths::normalize_spec;
use crate::paths::normalize_rel_path;
use crate::paths::scope_matches;
use crate::paths::to_project_relative_or_raw;
use crate::paths::to_rel_or_raw_spec;
use crate::paths::uri_to_rel_spec;
use crate::strutil::contains_seq;
use crate::strutil::lex_lt;
use crate::strutil::lower_seq;

verus! {

/// An argument error of a tool call; surfaced immediately, never retried.
#[derive(Debug)]
pub enum ToolError {
    /// `get_symbols` was called without a `path`.
    MissingPath,
    /// The path does not normalize into a recognized project root.
    PathOutsideRoots,
    /// The path is not a C# source file.
    OnlyCsFiles,
    /// The file is absent on disk; holds the project-relative path.
    FileNotFound(String),
    /// `find_symbol` was called without a `name`.
    MissingSymbolName,
    /// `find_refs` was called without a `name`.
    MissingRefsName,
    /// The tool name is none of the four supported ones; holds the name.
    UnsupportedTool(String),
}

/// The message text of each argument error.
pub open spec fn tool_error_message(e: ToolError) -> Seq<char> {
    match e {
        ToolError::MissingPath => "get_symbols requires `path`"@,
        ToolError::PathOutsideRoots => "path must start with Assets/ or Packages/"@,
        ToolError::OnlyCsFiles => "Only .cs files are supported"@,
        ToolError::FileNotFound(rel) => "File not found: "@ + rel@,
        ToolError::MissingSymbolName => "find_symbol requires `name`"@,
        ToolError::MissingRefsName => "find_refs requires `name`"@,
        ToolError::UnsupportedTool(name) => "Unsupported LSP tool: "@ + name@,
    }
}

impl ToolError {
    /// Render the error as its message text.
    pub fn message(&self) -> (r: String)
        ensures
            r@ == tool_error_message(*self),
    {
        match self {
            ToolError::MissingPath => String::from_str("get_symbols requires `path`"),
            ToolError::PathOutsideRoots => String::from_str(
                "path must start with Assets/ or Packages/",
            ),
            ToolError::OnlyCsFiles => String::from_str("Only .cs files are supported"),
            ToolError::FileNotFound(rel) => String::from_str("File not found: ").concat(
                rel.as_str(),
            ),
            ToolError::MissingSymbolName => String::from_str("find_symbol requires `name`"),
            ToolError::MissingRefsName => String::from_str("find_refs requires `name`"),
            ToolError::UnsupportedTool(name) => String::from_str("Unsupported LSP tool: ").concat(
                name.as_str(),
            ),
        }
    }
}

/// The name of an LSP symbol kind: the eight kinds the tool distinguishes,
/// and `unknown` for every other number.
pub open spec fn kind_name(k: int) -> Seq<char> {
    if k == 3 {
        "namespace"@
    } else if k == 5 {
        "class"@
    } else if k == 6 {
        "method"@
    } else if k == 7 {
        "property"@
    } else if k == 8 {
        "field"@
    } else if k == 10 {
        "enum"@
    } else if k == 11 {
        "interface"@
    } else if k == 23 {
        "struct"@
    } else {
        "unknown"@
    }
}

/// Map an LSP symbol-kind number to its name.
pub fn kind_from_lsp(kind: i64) -> (r: String)
    ensures
        r@ == kind_name(kind as int),
{
    if kind == 3 {
        String::from_str("namespace")
    } else if kind == 5 {
        String::from_str("class")
    } else if kind == 6 {
        String::from_str("method")
    } else if kind == 7 {
        String::from_str("property")
    } else if kind == 8 {
        String::from_str("field")
    } else if kind == 10 {
        String::from_str("enum")
    } else if kind == 11 {
        String::from_str("interface")
    } else if kind == 23 {
        String::from_str("struct")
    } else {
        String::from_str("unknown")
    }
}

/// A numeric parameter defaulted and clamped into its allowed range.
pub open spec fn clamp_spec(v: Option<u64>, default: u64, lo: u64, hi: u64) -> u64 {
    let x = match v {
        Option::Some(x) => x,
        Option::None => default,
    };
    if x < lo {
        lo
    } else if x > hi {
        hi
    } else {
        x
    }
}

/// Default and clamp a numeric parameter.
pub fn clamp_param(v: Option<u64>, default: u64, lo: u64, hi: u64) -> (r: u64)
    ensures
        r == clamp_spec(v, default, lo, hi),
{
    let x = match v {
        Option::Some(x) => x,
        Option::None => default,
    };
    if x < lo {
        lo
    } else if x > hi {
        hi
    } else {
        x
    }
}

/// Validate the `path` argument of `get_symbols`: it must normalize into a
/// recognized project root and name a C# source file.
pub fn get_symbols_rel_path(path: &Option<String>) -> (r: Result<String, ToolError>)
    ensures
        match r {
            Result::Ok(rel) => path matches Option::Some(p) && normalize_spec(p@)
                == Option::Some(rel@) && is_cs_path(rel@),
            Result::Err(e) => match e {
                ToolError::MissingPath => path is None,
                ToolError::PathOutsideRoots => path matches Option::Some(p) && normalize_spec(p@)
                    is None,
                ToolError::OnlyCsFiles => path matches Option::Some(p) && (normalize_spec(p@)
                    matches Option::Some(rel) && !is_cs_path(rel)),
                _ => false,
            },
        },
{
    let p = match path {
        Option::Some(p) => p,
        Option::None => {
            return Result::Err(ToolError::MissingPath);
        },
    };
    let rel = match normalize_rel_path(p.as_str()) {
        Option::Some(rel) => rel,
        Option::None => {
            return Result::Err(ToolError::PathOutsideRoots);
        },
    };
    if !crate::paths::ends_with_cs(rel.as_str()) {
        return Result::Err(ToolError::OnlyCsFiles);
    }
    Result::Ok(rel)
}

/// `root` and `rel` joined with a single separator.
pub fn join_path(root: &str, rel: &str) -> (r: String)
    ensures
        r@ == root@ + seq!['/'] + rel@,
{
    proof {
        reveal_strlit("/");
    }
    let joined = String::from_str(root).concat("/").concat(rel);
    proof {
        assert("/"@ =~= seq!['/']);
        assert(joined@ =~= root@ + seq!['/'] + rel@);
    }
    joined
}

/// The reshaped reply of `build_index`.
pub struct BuildIndexResult {
    /// Echo of the server's `success` field.
    pub success: bool,
    /// Echo of the server's `count` field.
    pub indexed_files: u64,
    /// Echo of the server's `count` field.
    pub indexed_symbols: u64,
    /// Wall-clock time when the reply was shaped, in milliseconds.
    pub generated_at_epoch_ms: u64,
    /// The server's output path, rewritten relative to the project root when
    /// it was absolute and inside the root.
    pub index_path: Option<String>,
}

/// Shape the parsed reply of `buildCodeIndex`: both counters echo the
/// server's `count`, the timestamp echoes the given clock reading, and the
/// output path is rewritten relative to the project root.
pub fn build_index_result(
    success: bool,
    count: u64,
    output_path: &Option<String>,
    project_root: &str,
    now_ms: u64,
) -> (r: BuildIndexResult)
    ensures
        r.success == success,
        r.indexed_files == count,
        r.indexed_symbols == count,
        r.generated_at_epoch_ms == now_ms,
        match output_path {
            Option::Some(p) => r.index_path matches Option::Some(ip) && ip@ == to_rel_or_raw_spec(
                project_root@,
                p@,
            ),
            Option::None => r.index_path is None,
        },
{
    let index_path = match output_path {
        Option::Some(p) => Option::Some(to_project_relative_or_raw(project_root, p.as_str())),
        Option::None => Option::None,
    };
    BuildIndexResult {
        success,
        indexed_files: count,
        indexed_symbols: count,
        generated_at_epoch_ms: now_ms,
        index_path,
    }
}

/// One node of the (possibly nested) symbol tree a `documentSymbol` reply
/// holds: a name, the LSP kind number, a zero-based position, and children.
pub struct SymbolNode {
    pub name: String,
    pub kind: i64,
    pub line: u64,
    pub column: u64,
    pub children: Vec<SymbolNode>,
}

/// One flattened symbol: named kind, one-based position, and the immediate
/// parent's name for nested symbols.
pub struct FlatSymbol {
    pub name: String,
    pub kind: String,
    pub line: u64,
    pub column: u64,
    pub container: Option<String>,
}

/// The mathematical shape of a flattened symbol.
pub ghost struct FlatSymbolModel {
    pub name: Seq<char>,
    pub kind: Seq<char>,
    pub line: int,
    pub column: int,
    pub container: Option<Seq<char>>,
}

impl View for FlatSymbol {
    type V = FlatSymbolModel;

    open spec fn view(&self) -> FlatSymbolModel {
        FlatSymbolModel {
            name: self.name@,
            kind: self.kind@,
            line: self.line as int,
            column: self.column as int,
            container: match self.container {
                Option::Some(c) => Option::Some(c@),
                Option::None => Option::None,
            },
        }
    }
}

/// The views of a vector of flattened symbols.
pub open spec fn flat_views(v: Seq<FlatSymbol>) -> Seq<FlatSymbolModel> {
    v.map_values(|f: FlatSymbol| f@)
}

/// The view of an optional borrowed string.
pub open spec fn view_opt(c: Option<&String>) -> Option<Seq<char>> {
    match c {
        Option::Some(s) => Option::Some(s@),
        Option::None => Option::None,
    }
}

/// Positions leave room for the one-based shift, throughout the tree.
pub open spec fn wf_node(n: SymbolNode) -> bool
    decreases n,
{
    &&& n.line < u64::MAX
    &&& n.column < u64::MAX
    &&& wf_nodes(n.children@)
}

/// Positions leave room for the one-based shift, in every listed tree.
pub open spec fn wf_nodes(nodes: Seq<SymbolNode>) -> bool
    decreases nodes,
{
    if nodes.len() == 0 {
        true
    } else {
        wf_node(nodes[0]) && wf_nodes(nodes.drop_first())
    }
}

proof fn lemma_wf_nodes_index(nodes: Seq<SymbolNode>, i: int)
    requires
        wf_nodes(nodes),
        0 <= i < nodes.len(),
    ensures
        wf_node(nodes[i]),
    decreases i,
{
    if i > 0 {
        lemma_wf_nodes_index(nodes.drop_first(), i - 1);
        assert(nodes.drop_first()[i - 1] == nodes[i]);
    }
}

/// Depth-first flattening of one symbol: the symbol itself (unless unnamed,
/// which drops it and its children), then its children, each carrying this
/// symbol's name as container.
pub open spec fn flat_node(n: SymbolNode, container: Option<Seq<char>>) -> Seq<FlatSymbolModel>
    decreases n,
{
    if n.name@.len() == 0 {
        Seq::empty()
    } else {
        seq![
            FlatSymbolModel {
                name: n.name@,
                kind: kind_name(n.kind as int),
                line: n.line + 1,
                column: n.column + 1,
                container: container,
            },
        ] + flat_nodes(n.children@, Option::Some(n.name@))
    }
}

/// Depth-first flattening of a list of symbol trees.
pub open spec fn flat_nodes(nodes: Seq<SymbolNode>, container: Option<Seq<char>>) -> Seq<
    FlatSymbolModel,
>
    decreases nodes,
{
    if nodes.len() == 0 {
        Seq::empty()
    } else {
        flat_node(nodes[0], container) + flat_nodes(nodes.drop_first(), container)
    }
}

/// Flattening distributes over concatenation of tree lists.
proof fn lemma_flat_nodes_concat(
    a: Seq<SymbolNode>,
    b: Seq<SymbolNode>,
    container: Option<Seq<char>>,
)
    ensures
        flat_nodes(a + b, container) == flat_nodes(a, container) + flat_nodes(b, container),
    decreases a.len(),
{
    if a.len() == 0 {
        assert(a + b =~= b);
        assert(flat_nodes(a, container) + flat_nodes(b, container) =~= flat_nodes(b, container));
    } else {
        assert((a + b)[0] == a[0]);
        assert((a + b).drop_first() =~= a.drop_first() + b);
        lemma_flat_nodes_concat(a.drop_first(), b, container);
        assert((a + b).len() > 0);
        assert(flat_node(a[0], container) + (flat_nodes(a.drop_first(), container) + flat_nodes(
            b,
            container,
        )) =~= (flat_node(a[0], container) + flat_nodes(a.drop_first(), container)) + flat_nodes(
            b,
            container,
        ));
    }
}

/// Flatten one symbol tree into `out`.
pub fn collect_symbol_node(n: &SymbolNode, container: Option<&String>, out: &mut Vec<FlatSymbol>)
    requires
        wf_node(*n),
    ensures
        flat_views(final(out)@) == flat_views(old(out)@) + flat_node(*n, view_opt(container)),
    decreases *n,
{
    if n.name.as_str().is_empty() {
        proof {
            assert(flat_views(out@) =~= flat_views(out@) + flat_node(*n, view_opt(container)));
        }
        return ;
    }
    let kind = kind_from_lsp(n.kind);
    let own_container = match container {
        Option::Some(c) => Option::Some((*c).clone()),
        Option::None => Option::None,
    };
    let flat = FlatSymbol {
        name: n.name.clone(),
        kind,
        line: n.line + 1,
        column: n.column + 1,
        container: own_container,
    };
    let ghost mid = flat_views(old(out)@).push(flat@);
    out.push(flat);
    proof {
        assert(flat_views(out@) =~= mid);
    }
    collect_document_symbols(&n.children, Option::Some(&n.name), out);
    proof {
        assert(flat_views(out@) =~= flat_views(old(out)@) + flat_node(*n, view_opt(container)));
    }
}

/// Flatten a list of symbol trees depth-first into `out`, each symbol
/// carrying its immediate parent's name as container.
pub fn collect_document_symbols(
    nodes: &Vec<SymbolNode>,
    container: Option<&String>,
    out: &mut Vec<FlatSymbol>,
)
    requires
        wf_nodes(nodes@),
    ensures
        flat_views(final(out)@) == flat_views(old(out)@) + flat_nodes(nodes@, view_opt(container)),
    decreases nodes@,
{
    proof {
        assert(nodes@.subrange(0, 0) =~= Seq::<SymbolNode>::empty());
        assert(flat_views(out@) =~= flat_views(out@) + flat_nodes(
            nodes@.subrange(0, 0),
            view_opt(container),
        ));
    }
    let mut i: usize = 0;
    while i < nodes.len()
        invariant
            i <= nodes@.len(),
            wf_nodes(nodes@),
            flat_views(out@) == flat_views(old(out)@) + flat_nodes(
                nodes@.subrange(0, i as int),
                view_opt(container),
            ),
        decreases nodes@.len() - i,
    {
        proof {
            lemma_wf_nodes_index(nodes@, i as int);
        }
        collect_symbol_node(&nodes[i], container, out);
        proof {
            let pre = nodes@.subrange(0, i as int);
            let one = seq![nodes@[i as int]];
            assert(nodes@.subrange(0, i + 1) =~= pre + one);
            lemma_flat_nodes_concat(pre, one, view_opt(container));
            assert(one.drop_first() =~= Seq::<SymbolNode>::empty());
            assert(one.len() == 1);
            assert(flat_nodes(one, view_opt(container)) == flat_node(one[0], view_opt(container))
                + flat_nodes(one.drop_first(), view_opt(container)));
            assert(flat_nodes(Seq::<SymbolNode>::empty(), view_opt(container))
                =~= Seq::<FlatSymbolModel>::empty());
            assert(flat_nodes(one, view_opt(container)) =~= flat_node(
                one[0],
                view_opt(container),
            ));
            assert(flat_views(out@) =~= flat_views(old(out)@) + flat_nodes(
                nodes@.subrange(0, i + 1),
                view_opt(container),
            ));
        }
        i = i + 1;
    }
    proof {
        assert(nodes@.subrange(0, nodes@.len() as int) =~= nodes@);
    }
}

/// The reply of `get_symbols`: the accepted project-relative path and the
/// flattened symbols.
pub struct GetSymbolsResult {
    pub path: String,
    pub symbols: Vec<FlatSymbol>,
}

/// Shape the parsed reply of `documentSymbol` for the accepted path.
pub fn get_symbols_result(rel: String, roots: &Vec<SymbolNode>) -> (r: GetSymbolsResult)
    requires
        wf_nodes(roots@),
    ensures
        r.path == rel,
        flat_views(r.symbols@) == flat_nodes(roots@, Option::None),
{
    let mut symbols: Vec<FlatSymbol> = Vec::new();
    proof {
        assert(flat_views(Seq::<FlatSymbol>::empty()) =~= Seq::<FlatSymbolModel>::empty());
    }
    collect_document_symbols(roots, Option::None, &mut symbols);
    proof {
        assert(flat_views(symbols@) =~= flat_nodes(roots@, Option::None));
    }
    GetSymbolsResult { path: rel, symbols }
}

/// One symbol as a `workspace/symbol` reply lists it: a name, the LSP kind
/// number, the location's URI, and a zero-based position.
pub struct SymbolInfo {
    pub name: String,
    pub kind: i64,
    pub uri: String,
    pub line: u64,
    pub column: u64,
}

/// The mathematical shape of a listed symbol.
pub ghost struct SymbolInfoModel {
    pub name: Seq<char>,
    pub kind: int,
    pub uri: Seq<char>,
    pub line: int,
    pub column: int,
}

impl View for SymbolInfo {
    type V = SymbolInfoModel;

    open spec fn view(&self) -> SymbolInfoModel {
        SymbolInfoModel {
            name: self.name@,
            kind: self.kind as int,
            uri: self.uri@,
            line: self.line as int,
            column: self.column as int,
        }
    }
}

/// The views of a vector of listed symbols.
pub open spec fn info_views(v: Seq<SymbolInfo>) -> Seq<SymbolInfoModel> {
    v.map_values(|s: SymbolInfo| s@)
}

/// An accepted symbol: named kind and one-based position.
pub struct SymbolHit {
    pub name: String,
    pub kind: String,
    pub line: u64,
    pub column: u64,
}

/// The mathematical shape of an accepted symbol.
pub ghost struct SymbolHitModel {
    pub name: Seq<char>,
    pub kind: Seq<char>,
    pub line: int,
    pub column: int,
}

impl View for SymbolHit {
    type V = SymbolHitModel;

    open spec fn view(&self) -> SymbolHitModel {
        SymbolHitModel {
            name: self.name@,
            kind: self.kind@,
            line: self.line as int,
            column: self.column as int,
        }
    }
}

/// The accepted symbols of one file.
pub struct SymbolGroup {
    pub path: String,
    pub symbols: Vec<SymbolHit>,
}

/// The mathematical shape of one file's accepted symbols.
pub ghost struct SymbolGroupModel {
    pub path: Seq<char>,
    pub symbols: Seq<SymbolHitModel>,
}

impl View for SymbolGroup {
    type V = SymbolGroupModel;

    open spec fn view(&self) -> SymbolGroupModel {
        SymbolGroupModel {
            path: self.path@,
            symbols: self.symbols@.map_values(|h: SymbolHit| h@),
        }
    }
}

/// The views of a vector of symbol groups.
pub open spec fn group_views(v: Seq<SymbolGroup>) -> Seq<SymbolGroupModel> {
    v.map_values(|g: SymbolGroup| g@)
}

/// The arguments of `find_symbol`; only `name` is required.
pub struct FindSymbolParams {
    pub name: Option<String>,
    pub kind: Option<String>,
    pub scope: Option<String>,
    pub exact: Option<bool>,
}

/// The resolved query a `find_symbol` call filters by.
pub ghost struct SymbolQuery {
    pub root: Seq<char>,
    pub query: Seq<char>,
    pub kind_filter: Option<Seq<char>>,
    pub scope: Seq<char>,
    pub exact: bool,
}

/// The query resolved from the call's arguments: the kind filter and scope
/// are lowered, the scope defaults to `all`, exactness defaults to off.
pub open spec fn query_of(params: FindSymbolParams, root: Seq<char>, name: Seq<char>) -> SymbolQuery {
    SymbolQuery {
        root: root,
        query: name,
        kind_filter: match params.kind {
            Option::Some(k) => Option::Some(lower_seq(k@)),
            Option::None => Option::None,
        },
        scope: match params.scope {
            Option::Some(s) => lower_seq(s@),
            Option::None => "all"@,
        },
        exact: match params.exact {
            Option::Some(e) => e,
            Option::None => false,
        },
    }
}

/// Whether one listed symbol is accepted, and as what: the name must match
/// the query, the mapped kind must match the filter, the URI must resolve
/// into the project, and the path must fall inside the scope.
pub open spec fn symbol_accept(q: SymbolQuery, it: SymbolInfoModel) -> Option<
    (Seq<char>, SymbolHitModel),
> {
    if it.name.len() == 0 {
        Option::None
    } else if q.exact && it.name != q.query {
        Option::None
    } else if !q.exact && !contains_seq(it.name, q.query) {
        Option::None
    } else if q.kind_filter matches Option::Some(f) && kind_name(it.kind) != f {
        Option::None
    } else {
        match uri_to_rel_spec(q.root, it.uri) {
            Option::None => Option::None,
            Option::Some(rel) => if scope_matches(rel, q.scope) {
                Option::Some(
                    (
                        rel,
                        SymbolHitModel {
                            name: it.name,
                            kind: kind_name(it.kind),
                            line: it.line + 1,
                            column: it.column + 1,
                        },
                    ),
                )
            } else {
                Option::None
            },
        }
    }
}

/// Insert an accepted symbol into the group list, which is kept in
/// lexicographic path order: into its file's group if present, else as a new
/// group at the ordered position.
pub open spec fn insert_hit(
    groups: Seq<SymbolGroupModel>,
    path: Seq<char>,
    hit: SymbolHitModel,
) -> Seq<SymbolGroupModel>
    decreases groups.len(),
{
    if groups.len() == 0 {
        seq![SymbolGroupModel { path: path, symbols: seq![hit] }]
    } else if groups[0].path == path {
        seq![SymbolGroupModel { path: path, symbols: groups[0].symbols.push(hit) }]
            + groups.drop_first()
    } else if lex_lt(path, groups[0].path) {
        seq![SymbolGroupModel { path: path, symbols: seq![hit] }] + groups
    } else {
        seq![groups[0]] + insert_hit(groups.drop_first(), path, hit)
    }
}

/// The groups and running total after filtering the listed symbols in order.
pub open spec fn find_symbol_fold(q: SymbolQuery, items: Seq<SymbolInfoModel>) -> (
    Seq<SymbolGroupModel>,
    nat,
)
    decreases items.len(),
{
    if items.len() == 0 {
        (Seq::empty(), 0nat)
    } else {
        let (g, t) = find_symbol_fold(q, items.drop_last());
        match symbol_accept(q, items.last()) {
            Option::Some((path, hit)) => (insert_hit(g, path, hit), t + 1),
            Option::None => (g, t),
        }
    }
}

/// Positions of every listed symbol leave room for the one-based shift.
pub open spec fn wf_infos(items: Seq<SymbolInfo>) -> bool {
    forall|i: int|
        0 <= i < items.len() ==> (#[trigger] items[i]).line < u64::MAX && items[i].column
            < u64::MAX
}

/// Whether one accepted symbol's name satisfies the query.
pub open spec fn hit_matches(q: SymbolQuery, h: SymbolHitModel) -> bool {
    &&& q.exact ==> h.name == q.query
    &&& !q.exact ==> contains_seq(h.name, q.query)
}

/// Every symbol of the group satisfies the query.
pub open spec fn group_hits_match(q: SymbolQuery, g: SymbolGroupModel) -> bool {
    forall|si: int| 0 <= si < g.symbols.len() ==> hit_matches(q, #[trigger] g.symbols[si])
}

/// Every symbol of every group satisfies the query.
pub open spec fn all_hits_match(q: SymbolQuery, groups: Seq<SymbolGroupModel>) -> bool {
    forall|gi: int| 0 <= gi < groups.len() ==> group_hits_match(q, #[trigger] groups[gi])
}

proof fn lemma_insert_hit_matches(
    q: SymbolQuery,
    groups: Seq<SymbolGroupModel>,
    path: Seq<char>,
    hit: SymbolHitModel,
)
    requires
        all_hits_match(q, groups),
        hit_matches(q, hit),
    ensures
        all_hits_match(q, insert_hit(groups, path, hit)),
    decreases groups.len(),
{
    let out = insert_hit(groups, path, hit);
    if groups.len() == 0 {
        assert(group_hits_match(q, out[0]));
    } else if groups[0].path == path {
        let merged = SymbolGroupModel { path: path, symbols: groups[0].symbols.push(hit) };
        assert(group_hits_match(q, groups[0]));
        assert(group_hits_match(q, merged));
        assert forall|gi: int| 0 <= gi < out.len() implies group_hits_match(
            q,
            #[trigger] out[gi],
        ) by {
            if gi > 0 {
                assert(out[gi] == groups[gi]);
            }
        }
    } else if lex_lt(path, groups[0].path) {
        assert(group_hits_match(q, out[0]));
        assert forall|gi: int| 0 <= gi < out.len() implies group_hits_match(
            q,
            #[trigger] out[gi],
        ) by {
            if gi > 0 {
                assert(out[gi] == groups[gi - 1]);
            }
        }
    } else {
        assert(all_hits_match(q, groups.drop_first()));
        lemma_insert_hit_matches(q, groups.drop_first(), path, hit);
        let rec = insert_hit(groups.drop_first(), path, hit);
        assert forall|gi: int| 0 <= gi < out.len() implies group_hits_match(
            q,
            #[trigger] out[gi],
        ) by {
            if gi == 0 {
                assert(out[0] == groups[0]);
            } else {
                assert(out[gi] == rec[gi - 1]);
            }
        }
    }
}

/// Group paths strictly increase left to right.
pub open spec fn groups_sorted(groups: Seq<SymbolGroupModel>) -> bool {
    forall|i: int, j: int|
        0 <= i < j < groups.len() ==> lex_lt(
            (#[trigger] groups[i]).path,
            (#[trigger] groups[j]).path,
        )
}

proof fn lemma_insert_hit_sorted(groups: Seq<SymbolGroupModel>, path: Seq<char>, hit: SymbolHitModel)
    requires
        groups_sorted(groups),
    ensures
        groups_sorted(insert_hit(groups, path, hit)),
        forall|k: int|
            0 <= k < insert_hit(groups, path, hit).len() ==> ((#[trigger] insert_hit(
                groups,
                path,
                hit,
            )[k]).path == path || exists|j: int|
                0 <= j < groups.len() && insert_hit(groups, path, hit)[k].path == (
                #[trigger] groups[j]).path),
    decreases groups.len(),
{
    let out = insert_hit(groups, path, hit);
    if groups.len() == 0 {
        assert(out[0].path == path);
    } else if groups[0].path == path {
        assert forall|k: int| 0 <= k < out.len() implies ((#[trigger] out[k]).path == path
            || exists|j: int| 0 <= j < groups.len() && out[k].path == (#[trigger] groups[j]).path)
            by {
            if k > 0 {
                assert(out[k].path == groups[k].path);
            }
        }
        assert forall|i: int, j: int| 0 <= i < j < out.len() implies lex_lt(
            (#[trigger] out[i]).path,
            (#[trigger] out[j]).path,
        ) by {
            assert(out[i].path == groups[i].path);
            assert(out[j].path == groups[j].path);
        }
    } else if lex_lt(path, groups[0].path) {
        assert forall|k: int| 0 <= k < out.len() implies ((#[trigger] out[k]).path == path
            || exists|j: int| 0 <= j < groups.len() && out[k].path == (#[trigger] groups[j]).path)
            by {
            if k > 0 {
                assert(out[k].path == groups[k - 1].path);
            }
        }
        assert forall|i: int, j: int| 0 <= i < j < out.len() implies lex_lt(
            (#[trigger] out[i]).path,
            (#[trigger] out[j]).path,
        ) by {
            if i == 0 {
                if j > 1 {
                    crate::strutil::lemma_lex_trans(path, groups[0].path, groups[j - 1].path);
                }
            } else {
                assert(out[i].path == groups[i - 1].path);
                assert(out[j].path == groups[j - 1].path);
            }
        }
    } else {
        crate::strutil::lemma_lex_connected(path, groups[0].path);
        assert(lex_lt(groups[0].path, path));
        let rest = groups.drop_first();
        assert(groups_sorted(rest)) by {
            assert(forall|i: int|
                0 <= i < rest.len() ==> (#[trigger] rest[i]).path == groups[i + 1].path);
        }
        lemma_insert_hit_sorted(rest, path, hit);
        let rec = insert_hit(rest, path, hit);
        assert forall|k: int| 0 <= k < out.len() implies ((#[trigger] out[k]).path == path
            || exists|j: int| 0 <= j < groups.len() && out[k].path == (#[trigger] groups[j]).path)
            by {
            if k == 0 {
                assert(out[0].path == groups[0].path);
            } else {
                assert(out[k] == rec[k - 1]);
                if rec[k - 1].path != path {
                    let j = choose|j: int| 0 <= j < rest.len() && rec[k - 1].path == rest[j].path;
                    assert(rest[j].path == groups[j + 1].path);
                }
            }
        }
        assert forall|i: int, j: int| 0 <= i < j < out.len() implies lex_lt(
            (#[trigger] out[i]).path,
            (#[trigger] out[j]).path,
        ) by {
            if i == 0 {
                assert(out[j] == rec[j - 1]);
                if rec[j - 1].path == path {
                    assert(lex_lt(groups[0].path, path));
                } else {
                    let m = choose|m: int| 0 <= m < rest.len() && rec[j - 1].path == rest[m].path;
                    assert(rest[m].path == groups[m + 1].path);
                    assert(lex_lt(groups[0].path, groups[m + 1].path));
                }
            } else {
                assert(out[i] == rec[i - 1]);
                assert(out[j] == rec[j - 1]);
            }
        }
    }
}

proof fn lemma_fold_sorted(q: SymbolQuery, items: Seq<SymbolInfoModel>)
    ensures
        groups_sorted(find_symbol_fold(q, items).0),
    decreases items.len(),
{
    if items.len() > 0 {
        lemma_fold_sorted(q, items.drop_last());
        let (g, t) = find_symbol_fold(q, items.drop_last());
        match symbol_accept(q, items.last()) {
            Option::Some((path, hit)) => {
                lemma_insert_hit_sorted(g, path, hit);
            },
            Option::None => {},
        }
    }
}

proof fn lemma_fold_matches(q: SymbolQuery, items: Seq<SymbolInfoModel>)
    ensures
        all_hits_match(q, find_symbol_fold(q, items).0),
    decreases items.len(),
{
    if items.len() > 0 {
        lemma_fold_matches(q, items.drop_last());
        let (g, t) = find_symbol_fold(q, items.drop_last());
        match symbol_accept(q, items.last()) {
            Option::Some((path, hit)) => {
                lemma_insert_hit_matches(q, g, path, hit);
            },
            Option::None => {},
        }
    }
}

/// Splitting an `insert_hit` at a prefix of strictly smaller paths.
proof fn lemma_insert_hit_skip(
    groups: Seq<SymbolGroupModel>,
    path: Seq<char>,
    hit: SymbolHitModel,
    k: int,
)
    requires
        0 <= k <= groups.len(),
        forall|j: int| 0 <= j < k ==> lex_lt((#[trigger] groups[j]).path, path),
    ensures
        insert_hit(groups, path, hit) == groups.subrange(0, k) + insert_hit(
            groups.skip(k),
            path,
            hit,
        ),
    decreases k,
{
    if k == 0 {
        assert(groups.skip(0) =~= groups);
        assert(groups.subrange(0, 0) + insert_hit(groups, path, hit) =~= insert_hit(
            groups,
            path,
            hit,
        ));
    } else {
        assert(lex_lt(groups[0].path, path));
        crate::strutil::lemma_lex_irrefl(groups[0].path);
        if lex_lt(path, groups[0].path) {
            crate::strutil::lemma_lex_trans(groups[0].path, path, groups[0].path);
        }
        assert(groups[0].path != path);
        let rest = groups.drop_first();
        assert(forall|j: int| 0 <= j < k - 1 ==> lex_lt((#[trigger] rest[j]).path, path));
        lemma_insert_hit_skip(rest, path, hit, k - 1);
        assert(rest.subrange(0, k - 1) =~= groups.subrange(1, k));
        assert(rest.skip(k - 1) =~= groups.skip(k));
        assert(seq![groups[0]] + (groups.subrange(1, k) + insert_hit(groups.skip(k), path, hit))
            =~= groups.subrange(0, k) + insert_hit(groups.skip(k), path, hit));
    }
}

/// Insert an accepted symbol into the ordered group vector.
fn insert_symbol_hit(groups: &mut Vec<SymbolGroup>, path: String, hit: SymbolHit)
    ensures
        group_views(final(groups)@) == insert_hit(group_views(old(groups)@), path@, hit@),
{
    let pchars = crate::strutil::chars_of(path.as_str());
    let mut idx: usize = 0;
    loop
        invariant_except_break
            idx <= groups@.len(),
            pchars@ == path@,
            forall|j: int|
                0 <= j < idx ==> lex_lt((#[trigger] group_views(groups@)[j]).path, path@),
        ensures
            idx <= groups@.len(),
            forall|j: int|
                0 <= j < idx ==> lex_lt((#[trigger] group_views(groups@)[j]).path, path@),
            idx == groups@.len() || !lex_lt(group_views(groups@)[idx as int].path, path@),
        decreases groups@.len() - idx,
    {
        if idx >= groups.len() {
            break ;
        }
        let gchars = crate::strutil::chars_of(groups[idx].path.as_str());
        if !crate::strutil::lex_lt_chars(&gchars, &pchars) {
            break ;
        }
        idx = idx + 1;
    }
    proof {
        lemma_insert_hit_skip(group_views(groups@), path@, hit@, idx as int);
    }
    let ghost orig = group_views(groups@);
    if idx < groups.len() {
        let same = {
            let gchars = crate::strutil::chars_of(groups[idx].path.as_str());
            crate::strutil::chars_eq(&gchars, &pchars)
        };
        if same {
            let ghost oldvec = groups@;
            let mut g = groups.remove(idx);
            g.symbols.push(hit);
            groups.insert(idx, g);
            proof {
                let tail = orig.skip(idx as int);
                assert(tail[0] == orig[idx as int]);
                assert(tail[0].path == path@);
                assert(g@.symbols =~= tail[0].symbols.push(hit@));
                assert(g@ == SymbolGroupModel {
                    path: tail[0].path,
                    symbols: tail[0].symbols.push(hit@),
                });
                assert(groups@ =~= oldvec.update(idx as int, g));
                let expect = orig.subrange(0, idx as int) + insert_hit(tail, path@, hit@);
                assert(insert_hit(tail, path@, hit@) == seq![
                    SymbolGroupModel { path: path@, symbols: tail[0].symbols.push(hit@) },
                ] + tail.drop_first());
                assert forall|j: int| 0 <= j < group_views(groups@).len() implies group_views(
                    groups@,
                )[j] == expect[j] by {
                    if j < idx {
                        assert(group_views(groups@)[j] == orig[j]);
                    } else if j == idx {
                        assert(group_views(groups@)[j] == g@);
                    } else {
                        assert(groups@[j] == oldvec[j]);
                        assert(group_views(groups@)[j] == orig[j]);
                        assert(tail.drop_first()[j - idx - 1] == orig[j]);
                    }
                }
                assert(group_views(groups@) =~= expect);
            }
            return ;
        }
        let lt = {
            let gchars = crate::strutil::chars_of(groups[idx].path.as_str());
            crate::strutil::lex_lt_chars(&pchars, &gchars)
        };
        proof {
            let tail = orig.skip(idx as int);
            assert(tail[0].path == orig[idx as int].path);
            if !lt {
                crate::strutil::lemma_lex_connected(path@, tail[0].path);
                assert(false);
            }
        }
        let mut symbols: Vec<SymbolHit> = Vec::new();
        symbols.push(hit);
        let g = SymbolGroup { path, symbols };
        proof {
            assert(g@.symbols =~= seq![hit@]);
        }
        groups.insert(idx, g);
        proof {
            let tail = orig.skip(idx as int);
            assert(insert_hit(tail, path@, hit@) == seq![g@] + tail);
            assert(group_views(groups@) =~~= orig.subrange(0, idx as int) + insert_hit(
                tail,
                path@,
                hit@,
            ));
        }
    } else {
        let mut symbols: Vec<SymbolHit> = Vec::new();
        symbols.push(hit);
        let g = SymbolGroup { path, symbols };
        proof {
            assert(g@.symbols =~= seq![hit@]);
        }
        groups.push(g);
        proof {
            let tail = orig.skip(idx as int);
            assert(tail =~= Seq::<SymbolGroupModel>::empty());
            assert(insert_hit(tail, path@, hit@) == seq![g@]);
            assert(group_views(groups@) =~~= orig.subrange(0, idx as int) + insert_hit(
                tail,
                path@,
                hit@,
            ));
        }
    }
}

/// Whether one listed symbol is accepted; mirrors [`symbol_accept`].
fn accept_symbol(
    q_query: &Vec<char>,
    q_kind: &Option<Vec<char>>,
    q_scope: &String,
    q_exact: bool,
    project_root: &str,
    it: &SymbolInfo,
    Ghost(q): Ghost<SymbolQuery>,
) -> (r: Option<(String, SymbolHit)>)
    requires
        it.line < u64::MAX,
        it.column < u64::MAX,
        q.query == q_query@,
        q.kind_filter == match *q_kind {
            Option::Some(k) => Option::Some(k@),
            Option::None => Option::<Seq<char>>::None,
        },
        q.scope == q_scope@,
        q.exact == q_exact,
        q.root == project_root@,
    ensures
        match r {
            Option::Some((path, hit)) => symbol_accept(q, it@) == Option::Some((path@, hit@)),
            Option::None => symbol_accept(q, it@) is None,
        },
{
    if it.name.as_str().is_empty() {
        return Option::None;
    }
    let name_chars = crate::strutil::chars_of(it.name.as_str());
    if q_exact {
        if !crate::strutil::chars_eq(&name_chars, q_query) {
            return Option::None;
        }
    } else {
        if !crate::strutil::contains_sub(&name_chars, q_query) {
            return Option::None;
        }
    }
    let kind = kind_from_lsp(it.kind);
    match q_kind {
        Option::Some(f) => {
            let kind_chars = crate::strutil::chars_of(kind.as_str());
            if !crate::strutil::chars_eq(&kind_chars, f) {
                return Option::None;
            }
        },
        Option::None => {},
    }
    match crate::paths::uri_to_rel_path(project_root, it.uri.as_str()) {
        Option::None => Option::None,
        Option::Some(rel) => {
            if crate::paths::path_matches_scope(rel.as_str(), q_scope.as_str()) {
                let hit = SymbolHit {
                    name: it.name.clone(),
                    kind,
                    line: it.line + 1,
                    column: it.column + 1,
                };
                Option::Some((rel, hit))
            } else {
                Option::None
            }
        },
    }
}

/// The reply of `find_symbol`: groups in lexicographic path order and the
/// total number of accepted symbols.
pub struct FindSymbolResult {
    pub results: Vec<SymbolGroup>,
    pub total: usize,
}

/// Filter and group the symbols a `workspace/symbol` request listed.
///
/// With `exact` on, only symbols whose name equals the query are returned;
/// otherwise exactly those whose name contains the query as a substring.
pub fn find_symbol(params: &FindSymbolParams, project_root: &str, items: &Vec<SymbolInfo>) -> (r:
    Result<FindSymbolResult, ToolError>)
    requires
        wf_infos(items@),
    ensures
        match r {
            Result::Ok(res) => params.name matches Option::Some(n) && {
                let q = query_of(*params, project_root@, n@);
                &&& (group_views(res.results@), res.total as nat) == find_symbol_fold(
                    q,
                    info_views(items@),
                )
                &&& all_hits_match(q, group_views(res.results@))
                &&& groups_sorted(group_views(res.results@))
            },
            Result::Err(e) => e is MissingSymbolName && params.name is None,
        },
{
    let name = match &params.name {
        Option::Some(n) => n,
        Option::None => {
            return Result::Err(ToolError::MissingSymbolName);
        },
    };
    let ghost q = query_of(*params, project_root@, name@);
    let q_query = crate::strutil::chars_of(name.as_str());
    let q_kind: Option<Vec<char>> = match &params.kind {
        Option::Some(k) => {
            let kc = crate::strutil::chars_of(k.as_str());
            Option::Some(crate::strutil::lower_chars(&kc))
        },
        Option::None => Option::None,
    };
    let q_scope: String = match &params.scope {
        Option::Some(s) => {
            let sc = crate::strutil::chars_of(s.as_str());
            let low = crate::strutil::lower_chars(&sc);
            crate::strutil::string_from_chars(&low)
        },
        Option::None => String::from_str("all"),
    };
    let q_exact = match params.exact {
        Option::Some(e) => e,
        Option::None => false,
    };
    let mut groups: Vec<SymbolGroup> = Vec::new();
    let mut total: usize = 0;
    proof {
        assert(info_views(items@).subrange(0, 0) =~= Seq::<SymbolInfoModel>::empty());
        assert(find_symbol_fold(q, info_views(items@).subrange(0, 0)) == (
            Seq::<SymbolGroupModel>::empty(),
            0nat,
        ));
        assert(group_views(groups@) =~= Seq::<SymbolGroupModel>::empty());
    }
    let mut i: usize = 0;
    while i < items.len()
        invariant
            i <= items@.len(),
            wf_infos(items@),
            total <= i,
            q == query_of(*params, project_root@, q_query@),
            q.query == q_query@,
            q.kind_filter == match q_kind {
                Option::Some(k) => Option::Some(k@),
                Option::None => Option::<Seq<char>>::None,
            },
            q.scope == q_scope@,
            q.exact == q_exact,
            q.root == project_root@,
            (group_views(groups@), total as nat) == find_symbol_fold(
                q,
                info_views(items@).subrange(0, i as int),
            ),
        decreases items@.len() - i,
    {
        proof {
            let all = info_views(items@);
            assert(all.subrange(0, i + 1).drop_last() =~= all.subrange(0, i as int));
            assert(all.subrange(0, i + 1).last() == items@[i as int]@);
        }
        let accepted = accept_symbol(
            &q_query,
            &q_kind,
            &q_scope,
            q_exact,
            project_root,
            &items[i],
            Ghost(q),
        );
        match accepted {
            Option::Some((path, hit)) => {
                insert_symbol_hit(&mut groups, path, hit);
                total = total + 1;
            },
            Option::None => {},
        }
        i = i + 1;
    }
    proof {
        assert(info_views(items@).subrange(0, items@.len() as int) =~= info_views(items@));
        lemma_fold_matches(q, info_views(items@));
        lemma_fold_sorted(q, info_views(items@));
    }
    Result::Ok(FindSymbolResult { results: groups, total })
}

/// One reference as a `referencesByName` reply lists it: a file (URI or
/// plain path), a position, and a source snippet.
pub struct RefInput {
    pub path: String,
    pub line: u64,
    pub column: u64,
    pub snippet: String,
}

/// The mathematical shape of a reference.
pub ghost struct RefModel {
    pub path: Seq<char>,
    pub line: u64,
    pub column: u64,
    pub snippet: Seq<char>,
}

impl View for RefInput {
    type V = RefModel;

    open spec fn view(&self) -> RefModel {
        RefModel { path: self.path@, line: self.line, column: self.column, snippet: self.snippet@ }
    }
}

/// The views of a vector of references.
pub open spec fn ref_views(v: Seq<RefInput>) -> Seq<RefModel> {
    v.map_values(|r: RefInput| r@)
}

/// One emitted reference of a file's list.
pub struct RefEntry {
    pub line: u64,
    pub column: u64,
    pub snippet: String,
}

/// The mathematical shape of an emitted reference.
pub ghost struct RefEntryModel {
    pub line: u64,
    pub column: u64,
    pub snippet: Seq<char>,
}

impl View for RefEntry {
    type V = RefEntryModel;

    open spec fn view(&self) -> RefEntryModel {
        RefEntryModel { line: self.line, column: self.column, snippet: self.snippet@ }
    }
}

/// The emitted references of one file.
pub struct RefGroup {
    pub path: String,
    pub references: Vec<RefEntry>,
}

/// The mathematical shape of one file's emitted references.
pub ghost struct RefGroupModel {
    pub path: Seq<char>,
    pub references: Seq<RefEntryModel>,
}

impl View for RefGroup {
    type V = RefGroupModel;

    open spec fn view(&self) -> RefGroupModel {
        RefGroupModel {
            path: self.path@,
            references: self.references@.map_values(|e: RefEntry| e@),
        }
    }
}

/// The views of a vector of reference groups.
pub open spec fn rgroup_views(v: Seq<RefGroup>) -> Seq<RefGroupModel> {
    v.map_values(|g: RefGroup| g@)
}

/// The arguments of `find_refs`; only `name` is required.
pub struct FindRefsParams {
    pub name: Option<String>,
    pub scope: Option<String>,
    pub start_after: Option<String>,
    pub path_filter: Option<String>,
    pub page_size: Option<u64>,
    pub max_bytes: Option<u64>,
    pub max_matches_per_file: Option<u64>,
}

/// The resolved limits and filters a `find_refs` call pages by.
pub ghost struct RefQuery {
    pub scope: Seq<char>,
    pub start_after: Option<Seq<char>>,
    pub path_filter: Option<Seq<char>>,
    pub page_size: u64,
    pub max_bytes: u64,
    pub max_matches: u64,
}

/// The query resolved from the call's arguments: the scope is lowered and
/// defaults to `all`, and the three limits are defaulted and clamped.
pub open spec fn ref_query_of(p: FindRefsParams) -> RefQuery {
    RefQuery {
        scope: match p.scope {
            Option::Some(s) => lower_seq(s@),
            Option::None => "all"@,
        },
        start_after: match p.start_after {
            Option::Some(c) => Option::Some(c@),
            Option::None => Option::None,
        },
        path_filter: match p.path_filter {
            Option::Some(f) => Option::Some(f@),
            Option::None => Option::None,
        },
        page_size: clamp_spec(p.page_size, 50, 1, 1000),
        max_bytes: clamp_spec(p.max_bytes, 65536, 128, 1048576),
        max_matches: clamp_spec(p.max_matches_per_file, 5, 1, 100),
    }
}

/// References whose path resolves into the project, with the resolved path,
/// in the order listed.
pub open spec fn resolve_refs(root: Seq<char>, items: Seq<RefModel>) -> Seq<RefModel>
    decreases items.len(),
{
    if items.len() == 0 {
        Seq::empty()
    } else {
        let rest = resolve_refs(root, items.drop_last());
        match crate::paths::ref_path_spec(root, items.last().path) {
            Option::Some(rel) => rest.push(
                RefModel {
                    path: rel,
                    line: items.last().line,
                    column: items.last().column,
                    snippet: items.last().snippet,
                },
            ),
            Option::None => rest,
        }
    }
}

/// The sort key order: by path, then line, then column.
pub open spec fn key_le(a: RefModel, b: RefModel) -> bool {
    ||| lex_lt(a.path, b.path)
    ||| (a.path == b.path && (a.line < b.line || (a.line == b.line && a.column <= b.column)))
}

/// Stable insertion into a key-sorted sequence: after every element whose key
/// is not greater.
pub open spec fn sorted_insert(s: Seq<RefModel>, x: RefModel) -> Seq<RefModel>
    decreases s.len(),
{
    if s.len() == 0 {
        seq![x]
    } else if key_le(s[0], x) {
        seq![s[0]] + sorted_insert(s.drop_first(), x)
    } else {
        seq![x] + s
    }
}

/// Stable sort by `(path, line, column)`.
pub open spec fn sort_refs(s: Seq<RefModel>) -> Seq<RefModel>
    decreases s.len(),
{
    if s.len() == 0 {
        Seq::empty()
    } else {
        sorted_insert(sort_refs(s.drop_last()), s.last())
    }
}

/// Pairwise key order: every earlier reference's key is not greater.
pub open spec fn keys_sorted(items: Seq<RefModel>) -> bool {
    forall|i: int, j: int|
        0 <= i < j < items.len() ==> key_le(#[trigger] items[i], #[trigger] items[j])
}

/// Two references are always key-ordered one way or the other.
proof fn lemma_key_le_connected(a: RefModel, b: RefModel)
    ensures
        key_le(a, b) || key_le(b, a),
{
    crate::strutil::lemma_lex_connected(a.path, b.path);
}

/// The key order is transitive.
proof fn lemma_key_le_trans(a: RefModel, b: RefModel, c: RefModel)
    requires
        key_le(a, b),
        key_le(b, c),
    ensures
        key_le(a, c),
{
    if lex_lt(a.path, b.path) && lex_lt(b.path, c.path) {
        crate::strutil::lemma_lex_trans(a.path, b.path, c.path);
    }
}

/// Stable insertion keeps the keys sorted, and only adds the new reference.
proof fn lemma_sorted_insert_sorted(s: Seq<RefModel>, x: RefModel)
    requires
        keys_sorted(s),
    ensures
        keys_sorted(sorted_insert(s, x)),
        forall|k: int|
            0 <= k < sorted_insert(s, x).len() ==> (#[trigger] sorted_insert(s, x)[k] == x
                || exists|j: int| 0 <= j < s.len() && sorted_insert(s, x)[k] == #[trigger] s[j]),
    decreases s.len(),
{
    let out = sorted_insert(s, x);
    if s.len() == 0 {
        assert(out[0] == x);
    } else if key_le(s[0], x) {
        let rest = s.drop_first();
        assert(keys_sorted(rest)) by {
            assert(forall|i: int| 0 <= i < rest.len() ==> #[trigger] rest[i] == s[i + 1]);
        }
        lemma_sorted_insert_sorted(rest, x);
        let rec = sorted_insert(rest, x);
        assert forall|k: int| 0 <= k < out.len() implies (#[trigger] out[k] == x || exists|j: int|
            0 <= j < s.len() && out[k] == #[trigger] s[j]) by {
            if k == 0 {
                assert(out[0] == s[0]);
            } else {
                assert(out[k] == rec[k - 1]);
                if rec[k - 1] != x {
                    let j = choose|j: int| 0 <= j < rest.len() && rec[k - 1] == rest[j];
                    assert(rest[j] == s[j + 1]);
                }
            }
        }
        assert forall|i: int, j: int| 0 <= i < j < out.len() implies key_le(
            #[trigger] out[i],
            #[trigger] out[j],
        ) by {
            if i == 0 {
                assert(out[j] == rec[j - 1]);
                if rec[j - 1] == x {
                    assert(key_le(s[0], x));
                } else {
                    let m = choose|m: int| 0 <= m < rest.len() && rec[j - 1] == rest[m];
                    assert(rest[m] == s[m + 1]);
                    assert(key_le(s[0], s[m + 1]));
                }
            } else {
                assert(out[i] == rec[i - 1]);
                assert(out[j] == rec[j - 1]);
            }
        }
    } else {
        lemma_key_le_connected(s[0], x);
        assert(key_le(x, s[0]));
        assert forall|i: int, j: int| 0 <= i < j < out.len() implies key_le(
            #[trigger] out[i],
            #[trigger] out[j],
        ) by {
            if i == 0 {
                assert(out[j] == s[j - 1]);
                if j > 1 {
                    lemma_key_le_trans(x, s[0], s[j - 1]);
                } else {
                    assert(key_le(x, s[0]));
                }
            } else {
                assert(out[i] == s[i - 1]);
                assert(out[j] == s[j - 1]);
            }
        }
        assert forall|k: int| 0 <= k < out.len() implies (#[trigger] out[k] == x || exists|j: int|
            0 <= j < s.len() && out[k] == #[trigger] s[j]) by {
            if k > 0 {
                assert(out[k] == s[k - 1]);
            }
        }
    }
}

/// The sort really sorts: its result is pairwise key-ordered.
pub proof fn lemma_sort_refs_sorted(s: Seq<RefModel>)
    ensures
        keys_sorted(sort_refs(s)),
    decreases s.len(),
{
    if s.len() > 0 {
        lemma_sort_refs_sorted(s.drop_last());
        lemma_sorted_insert_sorted(sort_refs(s.drop_last()), s.last());
    }
}

/// Group paths strictly increase left to right.
pub open spec fn rgroups_sorted(groups: Seq<RefGroupModel>) -> bool {
    forall|i: int, j: int|
        0 <= i < j < groups.len() ==> lex_lt(
            (#[trigger] groups[i]).path,
            (#[trigger] groups[j]).path,
        )
}

/// Paths never decrease along the sequence.
pub open spec fn paths_ascending(items: Seq<RefModel>) -> bool {
    forall|i: int, j: int|
        0 <= i < j < items.len() ==> (lex_lt((#[trigger] items[i]).path, (#[trigger] items[j]).path)
            || items[i].path == items[j].path)
}

/// The accumulator the sorted references stream through.
pub ghost struct AccState {
    pub groups: Seq<RefGroupModel>,
    pub total: nat,
    pub bytes: nat,
    pub truncated: bool,
    pub last_path: Option<Seq<char>>,
}

/// The accumulator before any reference is taken.
pub open spec fn init_acc() -> AccState {
    AccState {
        groups: Seq::empty(),
        total: 0,
        bytes: 0,
        truncated: false,
        last_path: Option::None,
    }
}

/// A reference the filters drop: at or before the cursor, outside the scope,
/// or missing the path substring.
pub open spec fn acc_skip(q: RefQuery, it: RefModel) -> bool {
    ||| (q.start_after matches Option::Some(c) && !lex_lt(c, it.path))
    ||| !scope_matches(it.path, q.scope)
    ||| (q.path_filter matches Option::Some(f) && !contains_seq(it.path, f))
}

/// The last group is this reference's file and already holds the per-file
/// maximum.
pub open spec fn last_group_full(q: RefQuery, st: AccState, it: RefModel) -> bool {
    st.groups.len() > 0 && st.groups.last().path == it.path && st.groups.last().references.len()
        >= q.max_matches
}

/// Take one reference: into its file's (last) group or a new group, counting
/// it and its encoded size.
pub open spec fn acc_accept(st: AccState, it: RefModel, elen: nat) -> AccState {
    let entry = RefEntryModel { line: it.line, column: it.column, snippet: it.snippet };
    let groups = if st.groups.len() > 0 && st.groups.last().path == it.path {
        st.groups.update(
            st.groups.len() - 1,
            RefGroupModel {
                path: it.path,
                references: st.groups.last().references.push(entry),
            },
        )
    } else {
        st.groups.push(RefGroupModel { path: it.path, references: seq![entry] })
    };
    AccState {
        groups: groups,
        total: st.total + 1,
        bytes: st.bytes + elen,
        truncated: st.truncated,
        last_path: Option::Some(it.path),
    }
}

/// One step of the accumulation: filtered references are passed over; a full
/// page or a blown byte budget stops the pass with `truncated` set, without
/// taking the reference; a file already at its per-file maximum silently
/// passes the reference over.
pub open spec fn acc_step(q: RefQuery, st: AccState, it: RefModel) -> (AccState, bool) {
    if acc_skip(q, it) {
        (st, true)
    } else if st.total >= q.page_size {
        (
            AccState {
                groups: st.groups,
                total: st.total,
                bytes: st.bytes,
                truncated: true,
                last_path: st.last_path,
            },
            false,
        )
    } else if last_group_full(q, st, it) {
        (st, true)
    } else {
        let elen = crate::jsonval::ref_entry_len(it.line, it.column, it.snippet);
        if st.bytes + elen > q.max_bytes {
            (
                AccState {
                    groups: st.groups,
                    total: st.total,
                    bytes: st.bytes,
                    truncated: true,
                    last_path: st.last_path,
                },
                false,
            )
        } else {
            (acc_accept(st, it, elen), true)
        }
    }
}

/// The accumulator after streaming the references through, in order, until
/// the end or the first stop.
pub open spec fn run_acc(q: RefQuery, items: Seq<RefModel>, st: AccState) -> AccState
    decreases items.len(),
{
    if items.len() == 0 {
        st
    } else {
        let (st2, cont) = acc_step(q, st, items[0]);
        if cont {
            run_acc(q, items.drop_first(), st2)
        } else {
            st2
        }
    }
}

proof fn lemma_run_acc_groups_sorted(q: RefQuery, items: Seq<RefModel>, st: AccState)
    requires
        paths_ascending(items),
        rgroups_sorted(st.groups),
        st.groups.len() > 0 ==> forall|k: int|
            0 <= k < items.len() ==> (lex_lt(st.groups.last().path, (#[trigger] items[k]).path)
                || st.groups.last().path == items[k].path),
    ensures
        rgroups_sorted(run_acc(q, items, st).groups),
    decreases items.len(),
{
    if items.len() == 0 {
        return ;
    }
    let it = items[0];
    let (st2, cont) = acc_step(q, st, it);
    let rest = items.drop_first();
    assert(paths_ascending(rest)) by {
        assert(forall|i: int| 0 <= i < rest.len() ==> #[trigger] rest[i] == items[i + 1]);
    }
    if cont {
        if st2 == st {
            assert(st.groups.len() > 0 ==> forall|k: int|
                0 <= k < rest.len() ==> (lex_lt(st.groups.last().path, (#[trigger] rest[k]).path)
                    || st.groups.last().path == rest[k].path)) by {
                assert(forall|k: int| 0 <= k < rest.len() ==> #[trigger] rest[k] == items[k + 1]);
            }
            lemma_run_acc_groups_sorted(q, rest, st);
        } else {
            let elen = crate::jsonval::ref_entry_len(it.line, it.column, it.snippet);
            assert(st2 == acc_accept(st, it, elen));
            if st.groups.len() > 0 && st.groups.last().path == it.path {
                assert(rgroups_sorted(st2.groups)) by {
                    assert(st2.groups.len() == st.groups.len());
                    assert(forall|i: int|
                        0 <= i < st2.groups.len() ==> (#[trigger] st2.groups[i]).path
                            == st.groups[i].path);
                }
            } else {
                assert(st2.groups == st.groups.push(
                    RefGroupModel {
                        path: it.path,
                        references: seq![
                            RefEntryModel { line: it.line, column: it.column, snippet: it.snippet },
                        ],
                    },
                ));
                assert(rgroups_sorted(st2.groups)) by {
                    if st.groups.len() > 0 {
                        assert(lex_lt(st.groups.last().path, it.path) || st.groups.last().path
                            == it.path);
                        assert(st.groups.last().path != it.path);
                        assert forall|i: int, j: int| 0 <= i < j < st2.groups.len() implies lex_lt(
                            (#[trigger] st2.groups[i]).path,
                            (#[trigger] st2.groups[j]).path,
                        ) by {
                            if j < st.groups.len() {
                                assert(st2.groups[i] == st.groups[i]);
                                assert(st2.groups[j] == st.groups[j]);
                            } else {
                                assert(st2.groups[j].path == it.path);
                                assert(st2.groups[i] == st.groups[i]);
                                if i < st.groups.len() - 1 {
                                    crate::strutil::lemma_lex_trans(
                                        st.groups[i].path,
                                        st.groups.last().path,
                                        it.path,
                                    );
                                }
                            }
                        }
                    }
                }
            }
            assert(st2.groups.last().path == it.path);
            assert(st2.groups.len() > 0 ==> forall|k: int|
                0 <= k < rest.len() ==> (lex_lt(st2.groups.last().path, (#[trigger] rest[k]).path)
                    || st2.groups.last().path == rest[k].path)) by {
                assert(forall|k: int| 0 <= k < rest.len() ==> #[trigger] rest[k] == items[k + 1]);
            }
            lemma_run_acc_groups_sorted(q, rest, st2);
        }
    }
}

/// The accepted page groups its references by file, with the file paths
/// strictly increasing: sorting by `(path, line, column)` keeps each file's
/// references together and the files in lexicographic order.
pub proof fn lemma_find_refs_groups_sorted(q: RefQuery, items: Seq<RefModel>)
    ensures
        rgroups_sorted(run_acc(q, sort_refs(items), init_acc()).groups),
{
    lemma_sort_refs_sorted(items);
    let sorted = sort_refs(items);
    assert(paths_ascending(sorted)) by {
        assert forall|i: int, j: int| 0 <= i < j < sorted.len() implies (lex_lt(
            (#[trigger] sorted[i]).path,
            (#[trigger] sorted[j]).path,
        ) || sorted[i].path == sorted[j].path) by {
            assert(key_le(sorted[i], sorted[j]));
        }
    }
    lemma_run_acc_groups_sorted(q, sorted, init_acc());
}

/// The bounds the accumulator never violates: at most a page of references in
/// all, at most the byte budget of encoded entries, at most the per-file
/// maximum in each group, and — when a cursor was given — only paths strictly
/// beyond it.
pub open spec fn acc_bounded(q: RefQuery, st: AccState) -> bool {
    &&& st.total <= q.page_size
    &&& st.bytes <= q.max_bytes
    &&& forall|gi: int|
        0 <= gi < st.groups.len() ==> (#[trigger] st.groups[gi]).references.len() <= q.max_matches
    &&& (q.start_after matches Option::Some(c) ==> forall|gi: int|
        0 <= gi < st.groups.len() ==> lex_lt(c, (#[trigger] st.groups[gi]).path))
}

proof fn lemma_acc_step_bounded(q: RefQuery, st: AccState, it: RefModel)
    requires
        acc_bounded(q, st),
        q.max_matches >= 1,
    ensures
        acc_bounded(q, acc_step(q, st, it).0),
{
    let (st2, cont) = acc_step(q, st, it);
    if !acc_skip(q, it) && st.total < q.page_size && !last_group_full(q, st, it) {
        let elen = crate::jsonval::ref_entry_len(it.line, it.column, it.snippet);
        if st.bytes + elen <= q.max_bytes {
            let entry = RefEntryModel { line: it.line, column: it.column, snippet: it.snippet };
            if st.groups.len() > 0 && st.groups.last().path == it.path {
                let merged = RefGroupModel {
                    path: it.path,
                    references: st.groups.last().references.push(entry),
                };
                assert(st.groups.last().references.len() < q.max_matches);
                assert forall|gi: int| 0 <= gi < st2.groups.len() implies (
                #[trigger] st2.groups[gi]).references.len() <= q.max_matches by {
                    if gi < st.groups.len() - 1 {
                        assert(st2.groups[gi] == st.groups[gi]);
                    } else {
                        assert(st2.groups[gi] == merged);
                    }
                }
                if q.start_after is Some {
                    let c = q.start_after->Some_0;
                    assert forall|gi: int| 0 <= gi < st2.groups.len() implies lex_lt(
                        c,
                        (#[trigger] st2.groups[gi]).path,
                    ) by {
                        if gi < st.groups.len() - 1 {
                            assert(st2.groups[gi] == st.groups[gi]);
                        } else {
                            assert(st2.groups[gi] == merged);
                            assert(lex_lt(c, it.path));
                        }
                    }
                }
            } else {
                assert forall|gi: int| 0 <= gi < st2.groups.len() implies (
                #[trigger] st2.groups[gi]).references.len() <= q.max_matches by {
                    if gi < st.groups.len() {
                        assert(st2.groups[gi] == st.groups[gi]);
                    }
                }
                if q.start_after is Some {
                    let c = q.start_after->Some_0;
                    assert forall|gi: int| 0 <= gi < st2.groups.len() implies lex_lt(
                        c,
                        (#[trigger] st2.groups[gi]).path,
                    ) by {
                        if gi < st.groups.len() {
                            assert(st2.groups[gi] == st.groups[gi]);
                        } else {
                            assert(lex_lt(c, it.path));
                        }
                    }
                }
            }
        }
    }
}

/// Whatever references stream through, the accumulated page respects every
/// bound: the page size, the byte budget, the per-file maximum, and — when a
/// cursor was given — only paths strictly beyond the cursor appear.
pub proof fn lemma_page_bounds(q: RefQuery, items: Seq<RefModel>, st: AccState)
    requires
        acc_bounded(q, st),
        q.max_matches >= 1,
    ensures
        acc_bounded(q, run_acc(q, items, st)),
    decreases items.len(),
{
    if items.len() > 0 {
        lemma_acc_step_bounded(q, st, items[0]);
        let (st2, cont) = acc_step(q, st, items[0]);
        if cont {
            lemma_page_bounds(q, items.drop_first(), st2);
        }
    }
}

/// The page a `find_refs` call emits respects every bound, from the empty
/// accumulator up.
pub proof fn lemma_find_refs_page_bounds(q: RefQuery, items: Seq<RefModel>)
    requires
        q.max_matches >= 1,
    ensures
        acc_bounded(q, run_acc(q, items, init_acc())),
{
    lemma_page_bounds(q, items, init_acc());
}

/// The reply of `find_refs`: groups of the accepted page in path order, the
/// page's size, whether anything was cut off, and where to resume.
pub struct FindRefsResult {
    pub results: Vec<RefGroup>,
    pub total: u64,
    pub truncated: bool,
    pub cursor: Option<String>,
}

/// Check the `name` argument of `find_symbol` and yield the query to send.
pub fn find_symbol_query(params: &FindSymbolParams) -> (r: Result<String, ToolError>)
    ensures
        match r {
            Result::Ok(n) => params.name matches Option::Some(m) && n@ == m@,
            Result::Err(e) => e is MissingSymbolName && params.name is None,
        },
{
    match &params.name {
        Option::Some(n) => Result::Ok(n.clone()),
        Option::None => Result::Err(ToolError::MissingSymbolName),
    }
}

/// Check the `name` argument of `find_refs` and yield the query to send.
pub fn find_refs_query(params: &FindRefsParams) -> (r: Result<String, ToolError>)
    ensures
        match r {
            Result::Ok(n) => params.name matches Option::Some(m) && n@ == m@,
            Result::Err(e) => e is MissingRefsName && params.name is None,
        },
{
    match &params.name {
        Option::Some(n) => Result::Ok(n.clone()),
        Option::None => Result::Err(ToolError::MissingRefsName),
    }
}

/// Resolve each reference's path into the project, dropping the unresolvable.
fn resolve_ref_paths(project_root: &str, items: &Vec<RefInput>) -> (out: Vec<RefInput>)
    ensures
        ref_views(out@) == resolve_refs(project_root@, ref_views(items@)),
{
    let mut out: Vec<RefInput> = Vec::new();
    proof {
        assert(ref_views(items@).subrange(0, 0) =~= Seq::<RefModel>::empty());
        assert(ref_views(out@) =~= resolve_refs(project_root@, ref_views(items@).subrange(0, 0)));
    }
    let mut i: usize = 0;
    while i < items.len()
        invariant
            i <= items@.len(),
            ref_views(out@) == resolve_refs(project_root@, ref_views(items@).subrange(0, i as int)),
        decreases items@.len() - i,
    {
        proof {
            let all = ref_views(items@);
            assert(all.subrange(0, i + 1).drop_last() =~= all.subrange(0, i as int));
            assert(all.subrange(0, i + 1).last() == items@[i as int]@);
        }
        match crate::paths::ref_path(project_root, items[i].path.as_str()) {
            Option::Some(rel) => {
                let resolved = RefInput {
                    path: rel,
                    line: items[i].line,
                    column: items[i].column,
                    snippet: items[i].snippet.clone(),
                };
                out.push(resolved);
                proof {
                    assert(ref_views(out@) =~= resolve_refs(
                        project_root@,
                        ref_views(items@).subrange(0, i + 1),
                    ));
                }
            },
            Option::None => {},
        }
        i = i + 1;
    }
    proof {
        assert(ref_views(items@).subrange(0, items@.len() as int) =~= ref_views(items@));
    }
    out
}

/// Compare two references by `(path, line, column)`.
fn key_le_exec(a: &RefInput, b: &RefInput) -> (r: bool)
    ensures
        r == key_le(a@, b@),
{
    let ap = crate::strutil::chars_of(a.path.as_str());
    let bp = crate::strutil::chars_of(b.path.as_str());
    if crate::strutil::lex_lt_chars(&ap, &bp) {
        true
    } else if crate::strutil::chars_eq(&ap, &bp) {
        a.line < b.line || (a.line == b.line && a.column <= b.column)
    } else {
        false
    }
}

/// Splitting a stable insertion at a prefix of not-greater keys.
proof fn lemma_sorted_insert_skip(s: Seq<RefModel>, x: RefModel, k: int)
    requires
        0 <= k <= s.len(),
        forall|j: int| 0 <= j < k ==> key_le(#[trigger] s[j], x),
    ensures
        sorted_insert(s, x) == s.subrange(0, k) + sorted_insert(s.skip(k), x),
    decreases k,
{
    if k == 0 {
        assert(s.skip(0) =~= s);
        assert(s.subrange(0, 0) + sorted_insert(s, x) =~= sorted_insert(s, x));
    } else {
        assert(key_le(s[0], x));
        let rest = s.drop_first();
        assert(forall|j: int| 0 <= j < k - 1 ==> key_le(#[trigger] rest[j], x));
        lemma_sorted_insert_skip(rest, x, k - 1);
        assert(rest.subrange(0, k - 1) =~= s.subrange(1, k));
        assert(rest.skip(k - 1) =~= s.skip(k));
        assert(seq![s[0]] + (s.subrange(1, k) + sorted_insert(s.skip(k), x)) =~= s.subrange(0, k)
            + sorted_insert(s.skip(k), x));
    }
}

/// Insert one reference into a key-sorted vector, after any equals.
fn insert_sorted_ref(out: &mut Vec<RefInput>, x: RefInput)
    ensures
        ref_views(final(out)@) == sorted_insert(ref_views(old(out)@), x@),
{
    let mut idx: usize = 0;
    loop
        invariant_except_break
            idx <= out@.len(),
            out@ == old(out)@,
            forall|j: int| 0 <= j < idx ==> key_le(#[trigger] ref_views(out@)[j], x@),
        ensures
            idx <= out@.len(),
            out@ == old(out)@,
            forall|j: int| 0 <= j < idx ==> key_le(#[trigger] ref_views(out@)[j], x@),
            idx == out@.len() || !key_le(ref_views(out@)[idx as int], x@),
        decreases out@.len() - idx,
    {
        if idx >= out.len() {
            break ;
        }
        if !key_le_exec(&out[idx], &x) {
            break ;
        }
        idx = idx + 1;
    }
    let ghost orig = ref_views(out@);
    proof {
        lemma_sorted_insert_skip(orig, x@, idx as int);
    }
    let ghost xv = x@;
    out.insert(idx, x);
    proof {
        let tail = orig.skip(idx as int);
        if tail.len() == 0 {
            assert(sorted_insert(tail, xv) =~= seq![xv]);
        } else {
            assert(tail[0] == orig[idx as int]);
            assert(sorted_insert(tail, xv) == seq![xv] + tail);
        }
        assert(ref_views(out@) =~~= orig.subrange(0, idx as int) + sorted_insert(tail, xv));
    }
}

/// Sort the references by `(path, line, column)`, keeping the listed order
/// among equals.
fn sort_ref_inputs(items: Vec<RefInput>) -> (out: Vec<RefInput>)
    ensures
        ref_views(out@) == sort_refs(ref_views(items@)),
{
    let mut out: Vec<RefInput> = Vec::new();
    proof {
        assert(ref_views(items@).subrange(0, 0) =~= Seq::<RefModel>::empty());
        assert(ref_views(out@) =~= sort_refs(ref_views(items@).subrange(0, 0)));
    }
    let mut i: usize = 0;
    while i < items.len()
        invariant
            i <= items@.len(),
            ref_views(out@) == sort_refs(ref_views(items@).subrange(0, i as int)),
        decreases items@.len() - i,
    {
        proof {
            let all = ref_views(items@);
            assert(all.subrange(0, i + 1).drop_last() =~= all.subrange(0, i as int));
            assert(all.subrange(0, i + 1).last() == items@[i as int]@);
        }
        let x = RefInput {
            path: items[i].path.clone(),
            line: items[i].line,
            column: items[i].column,
            snippet: items[i].snippet.clone(),
        };
        insert_sorted_ref(&mut out, x);
        i = i + 1;
    }
    proof {
        assert(ref_views(items@).subrange(0, items@.len() as int) =~= ref_views(items@));
    }
    out
}

/// The accumulator a given executable state stands for.
pub open spec fn st_model(
    groups: Seq<RefGroup>,
    total: u64,
    bytes: usize,
    truncated: bool,
    last_path: Option<String>,
) -> AccState {
    AccState {
        groups: rgroup_views(groups),
        total: total as nat,
        bytes: bytes as nat,
        truncated: truncated,
        last_path: match last_path {
            Option::Some(p) => Option::Some(p@),
            Option::None => Option::None,
        },
    }
}

/// Search the project's references and page through the matches.
///
/// The references are sorted by `(path, line, column)` and streamed through
/// the cursor, scope and path filters; the page stops at `pageSize` matches
/// or at the first entry whose encoded size would blow the byte budget, each
/// file's list is capped, and a truncated page carries the last accepted path
/// as its cursor.
pub fn find_refs(params: &FindRefsParams, project_root: &str, items: &Vec<RefInput>) -> (r: Result<
    FindRefsResult,
    ToolError,
>)
    ensures
        match r {
            Result::Ok(res) => params.name is Some && {
                let q = ref_query_of(*params);
                let st = run_acc(
                    q,
                    sort_refs(resolve_refs(project_root@, ref_views(items@))),
                    init_acc(),
                );
                &&& rgroup_views(res.results@) == st.groups
                &&& res.total as nat == st.total
                &&& res.truncated == st.truncated
                &&& (match st.last_path {
                    Option::Some(p) => if st.truncated {
                        res.cursor matches Option::Some(c) && c@ == p
                    } else {
                        res.cursor is None
                    },
                    Option::None => res.cursor is None,
                })
                &&& res.total <= q.page_size
                &&& forall|gi: int|
                    0 <= gi < res.results@.len() ==> (#[trigger] rgroup_views(
                        res.results@,
                    )[gi]).references.len() <= q.max_matches
                &&& (q.start_after matches Option::Some(c) ==> forall|gi: int|
                    0 <= gi < res.results@.len() ==> lex_lt(
                        c,
                        (#[trigger] rgroup_views(res.results@)[gi]).path,
                    ))
                &&& rgroups_sorted(rgroup_views(res.results@))
            },
            Result::Err(e) => e is MissingRefsName && params.name is None,
        },
{
    if params.name.is_none() {
        return Result::Err(ToolError::MissingRefsName);
    }
    let ghost q = ref_query_of(*params);
    let q_scope: String = match &params.scope {
        Option::Some(s) => {
            let sc = crate::strutil::chars_of(s.as_str());
            let low = crate::strutil::lower_chars(&sc);
            crate::strutil::string_from_chars(&low)
        },
        Option::None => String::from_str("all"),
    };
    let q_cursor: Option<Vec<char>> = match &params.start_after {
        Option::Some(c) => Option::Some(crate::strutil::chars_of(c.as_str())),
        Option::None => Option::None,
    };
    let q_filter: Option<Vec<char>> = match &params.path_filter {
        Option::Some(f) => Option::Some(crate::strutil::chars_of(f.as_str())),
        Option::None => Option::None,
    };
    let page_size = clamp_param(params.page_size, 50, 1, 1000);
    let max_bytes_wide = clamp_param(params.max_bytes, 65536, 128, 1048576);
    let max_bytes: usize = max_bytes_wide as usize;
    proof {
        assert(max_bytes == max_bytes_wide);
    }
    let max_matches = clamp_param(params.max_matches_per_file, 5, 1, 100);
    let resolved = resolve_ref_paths(project_root, items);
    let sorted = sort_ref_inputs(resolved);
    let ghost svs = ref_views(sorted@);

    let mut groups: Vec<RefGroup> = Vec::new();
    let mut total: u64 = 0;
    let mut bytes: usize = 0;
    let mut truncated: bool = false;
    let mut last_path: Option<String> = Option::None;
    proof {
        assert(svs.skip(0) =~= svs);
        assert(rgroup_views(groups@) =~= Seq::<RefGroupModel>::empty());
        assert(st_model(groups@, total, bytes, truncated, last_path) == init_acc());
    }
    let mut i: usize = 0;
    loop
        invariant_except_break
            i <= sorted@.len(),
            svs == ref_views(sorted@),
            !truncated,
            bytes <= max_bytes,
            total <= page_size,
            page_size == q.page_size,
            max_bytes == q.max_bytes,
            max_matches == q.max_matches,
            q.scope == q_scope@,
            q.start_after == match q_cursor {
                Option::Some(c) => Option::Some(c@),
                Option::None => Option::<Seq<char>>::None,
            },
            q.path_filter == match q_filter {
                Option::Some(f) => Option::Some(f@),
                Option::None => Option::<Seq<char>>::None,
            },
            run_acc(q, svs, init_acc()) == run_acc(
                q,
                svs.skip(i as int),
                st_model(groups@, total, bytes, truncated, last_path),
            ),
        ensures
            run_acc(q, svs, init_acc()) == st_model(groups@, total, bytes, truncated, last_path),
        decreases sorted@.len() - i,
    {
        if i >= sorted.len() {
            proof {
                assert(svs.skip(i as int).len() == 0);
            }
            break ;
        }
        let ghost st = st_model(groups@, total, bytes, truncated, last_path);
        let ghost it = svs[i as int];
        proof {
            let rest = svs.skip(i as int);
            assert(rest[0] == it);
            assert(rest.drop_first() =~= svs.skip(i + 1));
        }
        let item = &sorted[i];
        let pchars = crate::strutil::chars_of(item.path.as_str());
        let skip_cursor = match &q_cursor {
            Option::Some(c) => !crate::strutil::lex_lt_chars(c, &pchars),
            Option::None => false,
        };
        let skip_scope = !crate::paths::path_matches_scope(item.path.as_str(), q_scope.as_str());
        let skip_filter = match &q_filter {
            Option::Some(f) => !crate::strutil::contains_sub(&pchars, f),
            Option::None => false,
        };
        if skip_cursor || skip_scope || skip_filter {
            proof {
                assert(acc_skip(q, it));
                assert(acc_step(q, st, it) == (st, true));
            }
            i = i + 1;
            continue ;
        }
        proof {
            assert(!acc_skip(q, it));
        }
        if total >= page_size {
            truncated = true;
            proof {
                let stopped = AccState {
                    groups: st.groups,
                    total: st.total,
                    bytes: st.bytes,
                    truncated: true,
                    last_path: st.last_path,
                };
                assert(acc_step(q, st, it) == (stopped, false));
                assert(st_model(groups@, total, bytes, truncated, last_path) == stopped);
            }
            break ;
        }
        let glen = groups.len();
        let same_path = if glen > 0 {
            let gp = crate::strutil::chars_of(groups[glen - 1].path.as_str());
            crate::strutil::chars_eq(&gp, &pchars)
        } else {
            false
        };
        proof {
            assert(rgroup_views(groups@).len() == glen);
            if glen > 0 {
                assert(rgroup_views(groups@).last() == groups@[glen - 1]@);
            }
            assert(same_path == (st.groups.len() > 0 && st.groups.last().path == it.path));
        }
        if same_path && groups[glen - 1].references.len() as u64 >= max_matches {
            proof {
                assert(last_group_full(q, st, it));
                assert(acc_step(q, st, it) == (st, true));
            }
            i = i + 1;
            continue ;
        }
        proof {
            assert(!last_group_full(q, st, it));
        }
        let elen = crate::jsonval::serialized_ref_entry_len(item.line, item.column, &item.snippet);
        if elen > max_bytes - bytes {
            truncated = true;
            proof {
                let stopped = AccState {
                    groups: st.groups,
                    total: st.total,
                    bytes: st.bytes,
                    truncated: true,
                    last_path: st.last_path,
                };
                assert(st.bytes + crate::jsonval::ref_entry_len(it.line, it.column, it.snippet)
                    > q.max_bytes);
                assert(acc_step(q, st, it) == (stopped, false));
                assert(st_model(groups@, total, bytes, truncated, last_path) == stopped);
            }
            break ;
        }
        let entry = RefEntry { line: item.line, column: item.column, snippet: item.snippet.clone() };
        let ghost entrym = RefEntryModel { line: it.line, column: it.column, snippet: it.snippet };
        proof {
            assert(entry@ == entrym);
        }
        if same_path {
            let ghost oldvec = groups@;
            let ghost oldgroups = rgroup_views(groups@);
            let gi = glen - 1;
            let mut g = groups.remove(gi);
            g.references.push(entry);
            groups.push(g);
            proof {
                assert(groups@ =~= oldvec.update(gi as int, g));
                assert(g@.references =~= oldgroups.last().references.push(entrym));
                assert(g@.path == it.path);
                assert(g@ == RefGroupModel {
                    path: it.path,
                    references: oldgroups.last().references.push(entrym),
                });
                let expect = oldgroups.update(
                    oldgroups.len() - 1,
                    RefGroupModel {
                        path: it.path,
                        references: oldgroups.last().references.push(entrym),
                    },
                );
                assert forall|j: int| 0 <= j < rgroup_views(groups@).len() implies rgroup_views(
                    groups@,
                )[j] == expect[j] by {
                    if j < gi {
                        assert(groups@[j] == oldvec[j]);
                        assert(rgroup_views(groups@)[j] == oldgroups[j]);
                    } else {
                        assert(groups@[j] == g);
                    }
                }
                assert(rgroup_views(groups@) =~= expect);
            }
        } else {
            let mut references: Vec<RefEntry> = Vec::new();
            references.push(entry);
            let g = RefGroup { path: item.path.clone(), references };
            proof {
                assert(g@.references =~= seq![entrym]);
                assert(g@.path == it.path);
            }
            let ghost oldgroups = rgroup_views(groups@);
            groups.push(g);
            proof {
                assert(rgroup_views(groups@) =~= oldgroups.push(g@));
            }
        }
        bytes = bytes + elen;
        total = total + 1;
        last_path = Option::Some(item.path.clone());
        proof {
            let accepted = acc_accept(
                st,
                it,
                crate::jsonval::ref_entry_len(it.line, it.column, it.snippet),
            );
            assert(acc_step(q, st, it) == (accepted, true));
            assert(st_model(groups@, total, bytes, truncated, last_path).groups =~~= accepted.groups);
            assert(st_model(groups@, total, bytes, truncated, last_path) == accepted);
        }
        i = i + 1;
    }
    let cursor: Option<String> = if truncated {
        match last_path {
            Option::Some(p) => Option::Some(p),
            Option::None => Option::None,
        }
    } else {
        Option::None
    };
    proof {
        let all = sort_refs(resolve_refs(project_root@, ref_views(items@)));
        lemma_find_refs_page_bounds(q, all);
        lemma_find_refs_groups_sorted(q, resolve_refs(project_root@, ref_views(items@)));
        let st = run_acc(q, all, init_acc());
        assert(rgroup_views(groups@) == st.groups);
        assert forall|gi: int| 0 <= gi < rgroup_views(groups@).len() implies (
        #[trigger] rgroup_views(groups@)[gi]).references.len() <= q.max_matches by {
            assert(st.groups[gi].references.len() <= q.max_matches);
        }
        if q.start_after is Some {
            let c = q.start_after->Some_0;
            assert forall|gi: int| 0 <= gi < rgroup_views(groups@).len() implies lex_lt(
                c,
                (#[trigger] rgroup_views(groups@)[gi]).path,
            ) by {
                assert(lex_lt(c, st.groups[gi].path));
            }
        }
    }
    Result::Ok(FindRefsResult { results: groups, total, truncated, cursor })
}

} // verus!

