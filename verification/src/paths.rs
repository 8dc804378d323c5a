//! Project-relative path handling: normalization into the recognized project
//! roots, scope filtering, and the `file://` URI conversions.
//!
//! Filesystem paths are modeled as character sequences with `/` as the
//! separator; a backslash is treated as an alternate separator and rewritten,
//! and a path counts as absolute when it starts with `/` or with a drive
//! letter followed by `:` and a separator.

use vstd::prelude::*;

use crate::strutil::chars_eq;
use crate::strutil::chars_of;
use crate::strutil::contains_at;
use crate::strutil::copy_range;
use crate::strutil::extend_chars;
use crate::strutil::find_first;
use crate::strutil::first_occurrence;
use crate::strutil::join_slash;
use crate::strutil::join_slash_chars;
use crate::strutil::keep_nonempty;
use crate::strutil::lemma_filter_all_pass;
use crate::strutil::lemma_filter_pieces_lack;
use crate::strutil::lemma_join_lacks;
use crate::strutil::lemma_join_split_roundtrip;
use crate::strutil::lemma_split_lacks;
use crate::strutil::seq_lacks;
use crate::strutil::nonempty_parts;
use crate::strutil::slashify;
use crate::strutil::slashify_chars;
use crate::strutil::split_slash;
use crate::strutil::split_slash_chars;
use crate::strutil::starts_with_chars;
use crate::strutil::string_from_chars;
use crate::strutil::strip_dot_slash;
use crate::strutil::strip_leading_slashes;
use crate::strutil::strip_prefix_junk;
use crate::strutil::trim_chars;
use crate::strutil::trim_spec;
use crate::strutil::views_of;

verus! {

/// The `Assets/` project root.
pub open spec fn assets_root() -> Seq<char> {
    seq!['A', 's', 's', 'e', 't', 's', '/']
}

/// The `Packages/` project root.
pub open spec fn packages_root() -> Seq<char> {
    seq!['P', 'a', 'c', 'k', 'a', 'g', 'e', 's', '/']
}

/// The `Library/PackageCache/` project root.
pub open spec fn library_root() -> Seq<char> {
    seq![
        'L',
        'i',
        'b',
        'r',
        'a',
        'r',
        'y',
        '/',
        'P',
        'a',
        'c',
        'k',
        'a',
        'g',
        'e',
        'C',
        'a',
        'c',
        'h',
        'e',
        '/',
    ]
}

/// The `file://` URI scheme prefix.
pub open spec fn file_scheme() -> Seq<char> {
    seq!['f', 'i', 'l', 'e', ':', '/', '/']
}

pub fn assets_root_chars() -> (v: Vec<char>)
    ensures
        v@ == assets_root(),
{
    let mut v: Vec<char> = Vec::new();
    v.push('A');
    v.push('s');
    v.push('s');
    v.push('e');
    v.push('t');
    v.push('s');
    v.push('/');
    proof {
        assert(v@ =~= assets_root());
    }
    v
}

pub fn packages_root_chars() -> (v: Vec<char>)
    ensures
        v@ == packages_root(),
{
    let mut v: Vec<char> = Vec::new();
    v.push('P');
    v.push('a');
    v.push('c');
    v.push('k');
    v.push('a');
    v.push('g');
    v.push('e');
    v.push('s');
    v.push('/');
    proof {
        assert(v@ =~= packages_root());
    }
    v
}

pub fn library_root_chars() -> (v: Vec<char>)
    ensures
        v@ == library_root(),
{
    let mut v: Vec<char> = Vec::new();
    v.push('L');
    v.push('i');
    v.push('b');
    v.push('r');
    v.push('a');
    v.push('r');
    v.push('y');
    v.push('/');
    v.push('P');
    v.push('a');
    v.push('c');
    v.push('k');
    v.push('a');
    v.push('g');
    v.push('e');
    v.push('C');
    v.push('a');
    v.push('c');
    v.push('h');
    v.push('e');
    v.push('/');
    proof {
        assert(v@ =~= library_root());
    }
    v
}

pub fn file_scheme_chars() -> (v: Vec<char>)
    ensures
        v@ == file_scheme(),
{
    let mut v: Vec<char> = Vec::new();
    v.push('f');
    v.push('i');
    v.push('l');
    v.push('e');
    v.push(':');
    v.push('/');
    v.push('/');
    proof {
        assert(v@ =~= file_scheme());
    }
    v
}

/// `s` starts with one of the three recognized project roots.
pub open spec fn has_accepted_root(s: Seq<char>) -> bool {
    ||| assets_root().is_prefix_of(s)
    ||| packages_root().is_prefix_of(s)
    ||| library_root().is_prefix_of(s)
}

/// A `..` path segment.
pub open spec fn dotdot() -> Seq<char> {
    seq!['.', '.']
}

/// Some piece is exactly `..`.
pub open spec fn has_dotdot(parts: Seq<Seq<char>>) -> bool {
    exists|i: int| 0 <= i < parts.len() && parts[i] == dotdot()
}

/// An optional `usize` position, widened.
pub open spec fn as_nat_opt(o: Option<usize>) -> Option<nat> {
    match o {
        Option::Some(x) => Option::Some(x as nat),
        Option::None => Option::None,
    }
}

/// The smaller of two optional positions, absence counting as infinite.
pub open spec fn opt_min(a: Option<nat>, b: Option<nat>) -> Option<nat> {
    match (a, b) {
        (Option::None, _) => b,
        (_, Option::None) => a,
        (Option::Some(x), Option::Some(y)) => if x <= y {
            Option::Some(x)
        } else {
            Option::Some(y)
        },
    }
}

/// Earliest position where any recognized project root occurs in `s`.
pub open spec fn root_cut(s: Seq<char>) -> Option<nat> {
    opt_min(
        opt_min(first_occurrence(s, assets_root()), first_occurrence(s, packages_root())),
        first_occurrence(s, library_root()),
    )
}

/// The raw path after trimming, separator rewriting, and stripping of leading
/// `./` pairs and slashes.
pub open spec fn cleaned(raw: Seq<char>) -> Seq<char> {
    strip_leading_slashes(strip_dot_slash(slashify(trim_spec(raw))))
}

/// What normalization of a raw path yields. A path any of whose segments is
/// `..` is rejected outright — whether the segment stands before or after the
/// recognized project root. Otherwise the cleaned path is cut at the earliest
/// recognized root; it is accepted only when it then starts with such a root,
/// and the accepted path is returned with empty segments dropped.
pub open spec fn normalize_spec(raw: Seq<char>) -> Option<Seq<char>> {
    let c = cleaned(raw);
    if has_dotdot(nonempty_parts(split_slash(c))) {
        Option::None
    } else {
        let c2 = match root_cut(c) {
            Option::Some(i) => c.skip(i as int),
            Option::None => c,
        };
        if has_accepted_root(c2) {
            let parts = nonempty_parts(split_slash(c2));
            if has_dotdot(parts) {
                Option::None
            } else {
                Option::Some(join_slash(parts))
            }
        } else {
            Option::None
        }
    }
}

/// The smaller of two optional positions.
fn opt_min_usize(a: Option<usize>, b: Option<usize>) -> (r: Option<usize>)
    ensures
        as_nat_opt(r) == opt_min(as_nat_opt(a), as_nat_opt(b)),
{
    match (a, b) {
        (Option::None, _) => b,
        (Option::Some(x), Option::None) => Option::Some(x),
        (Option::Some(x), Option::Some(y)) => if x <= y {
            Option::Some(x)
        } else {
            Option::Some(y)
        },
    }
}

/// Normalize a raw path into a project-relative path under one of the
/// recognized roots; paths holding a `..` segment anywhere, and paths outside
/// the roots, yield nothing.
pub fn normalize_rel_path(raw: &str) -> (r: Option<String>)
    ensures
        match r {
            Option::Some(s) => normalize_spec(raw@) == Option::Some(s@),
            Option::None => normalize_spec(raw@) is None,
        },
{
    let v = chars_of(raw);
    normalize_rel_chars(&v)
}

/// Skipping a prefix never introduces a character.
proof fn lemma_skip_lacks(s: Seq<char>, i: int, c: char)
    requires
        seq_lacks(s, c),
        0 <= i <= s.len(),
    ensures
        seq_lacks(s.skip(i), c),
{
    assert forall|j: int| 0 <= j < s.skip(i).len() implies s.skip(i)[j] != c by {
        assert(s.skip(i)[j] == s[i + j]);
    }
}

/// Separator rewriting leaves no backslash behind.
proof fn lemma_slashify_lacks(s: Seq<char>)
    ensures
        seq_lacks(slashify(s), '\\'),
{
    assert forall|j: int| 0 <= j < slashify(s).len() implies slashify(s)[j] != '\\' by {
        assert(slashify(s)[j] == if s[j] == '\\' {
            '/'
        } else {
            s[j]
        });
    }
}

/// Stripping leading `./` pairs never introduces a character.
proof fn lemma_strip_dot_lacks(s: Seq<char>, c: char)
    requires
        seq_lacks(s, c),
    ensures
        seq_lacks(strip_dot_slash(s), c),
    decreases s.len(),
{
    if s.len() >= 2 && s[0] == '.' && s[1] == '/' {
        lemma_skip_lacks(s, 2, c);
        lemma_strip_dot_lacks(s.skip(2), c);
    }
}

/// Stripping leading slashes never introduces a character.
proof fn lemma_strip_slashes_lacks(s: Seq<char>, c: char)
    requires
        seq_lacks(s, c),
    ensures
        seq_lacks(strip_leading_slashes(s), c),
    decreases s.len(),
{
    if s.len() > 0 && s[0] == '/' {
        assert(s.drop_first() =~= s.skip(1));
        lemma_skip_lacks(s, 1, c);
        lemma_strip_slashes_lacks(s.drop_first(), c);
    }
}

/// An accepted path contains no `..` segment and no backslash: whatever the
/// raw input looked like, normalization only emits paths that stay inside the
/// recognized project roots.
pub proof fn lemma_normalize_safe(raw: Seq<char>, out: Seq<char>)
    requires
        normalize_spec(raw) == Option::Some(out),
    ensures
        !has_dotdot(nonempty_parts(split_slash(out))),
        seq_lacks(out, '\\'),
{
    let pred = |p: Seq<char>| p.len() > 0;
    let c = cleaned(raw);
    let c2 = match root_cut(c) {
        Option::Some(i) => c.skip(i as int),
        Option::None => c,
    };
    let parts0 = split_slash(c2);
    let parts = nonempty_parts(parts0);
    assert(out == join_slash(parts));
    assert(!has_dotdot(parts));
    lemma_slashify_lacks(trim_spec(raw));
    lemma_strip_dot_lacks(slashify(trim_spec(raw)), '\\');
    lemma_strip_slashes_lacks(strip_dot_slash(slashify(trim_spec(raw))), '\\');
    assert(seq_lacks(c, '\\'));
    if root_cut(c) is Some {
        let i = root_cut(c)->Some_0;
        crate::strutil::lemma_first_occurrence_from(c, assets_root(), 0);
        crate::strutil::lemma_first_occurrence_from(c, packages_root(), 0);
        crate::strutil::lemma_first_occurrence_from(c, library_root(), 0);
        assert(i <= c.len());
        lemma_skip_lacks(c, i as int, '\\');
    }
    assert(seq_lacks(c2, '\\'));
    lemma_split_lacks(c2, '\\');
    lemma_split_lacks(c2, '/');
    lemma_filter_pieces_lack(parts0, pred, '\\');
    lemma_filter_pieces_lack(parts0, pred, '/');
    lemma_join_lacks(parts, '\\');
    if parts.len() == 0 {
        assert(out =~= Seq::<char>::empty());
        reveal(Seq::filter);
        assert(split_slash(out) =~~= seq![Seq::<char>::empty()]);
        let se = split_slash(out);
        assert(nonempty_parts(se) == se.drop_last().filter(pred));
        assert(se.drop_last() =~~= Seq::<Seq<char>>::empty());
        assert(nonempty_parts(split_slash(out)).len() == 0);
    } else {
        lemma_join_split_roundtrip(parts);
        assert(split_slash(out) == parts);
        assert forall|i: int| 0 <= i < parts.len() implies pred(#[trigger] parts[i]) by {
            parts0.lemma_filter_pred(pred, i);
        }
        lemma_filter_all_pass(parts, pred);
        assert(nonempty_parts(split_slash(out)) == parts);
    }
}

fn dotdot_chars() -> (v: Vec<char>)
    ensures
        v@ == dotdot(),
{
    let mut v: Vec<char> = Vec::new();
    v.push('.');
    v.push('.');
    proof {
        assert(v@ =~= dotdot());
    }
    v
}

/// Is any piece exactly `..`?
fn contains_dotdot(parts: &Vec<Vec<char>>) -> (r: bool)
    ensures
        r == has_dotdot(views_of(parts@)),
{
    let dd = dotdot_chars();
    let mut i: usize = 0;
    while i < parts.len()
        invariant
            i <= parts@.len(),
            dd@ == dotdot(),
            forall|j: int| 0 <= j < i ==> views_of(parts@)[j] != dotdot(),
        decreases parts@.len() - i,
    {
        if chars_eq(&parts[i], &dd) {
            proof {
                assert(views_of(parts@)[i as int] == dotdot());
            }
            return true;
        }
        proof {
            assert(views_of(parts@)[i as int] == parts@[i as int]@);
        }
        i = i + 1;
    }
    false
}

/// The `assets` scope name.
pub open spec fn scope_assets() -> Seq<char> {
    seq!['a', 's', 's', 'e', 't', 's']
}

/// The `packages` scope name.
pub open spec fn scope_packages() -> Seq<char> {
    seq!['p', 'a', 'c', 'k', 'a', 'g', 'e', 's']
}

/// The `embedded` scope name.
pub open spec fn scope_embedded() -> Seq<char> {
    seq!['e', 'm', 'b', 'e', 'd', 'd', 'e', 'd']
}

/// The `library` scope name.
pub open spec fn scope_library() -> Seq<char> {
    seq!['l', 'i', 'b', 'r', 'a', 'r', 'y']
}

/// Which project-relative paths a scope admits; an unknown scope admits all.
pub open spec fn scope_matches(path: Seq<char>, scope: Seq<char>) -> bool {
    if scope == scope_assets() {
        assets_root().is_prefix_of(path)
    } else if scope == scope_packages() {
        packages_root().is_prefix_of(path) || library_root().is_prefix_of(path)
    } else if scope == scope_embedded() {
        packages_root().is_prefix_of(path)
    } else if scope == scope_library() {
        library_root().is_prefix_of(path)
    } else {
        true
    }
}

fn scope_assets_chars() -> (v: Vec<char>)
    ensures
        v@ == scope_assets(),
{
    let mut v: Vec<char> = Vec::new();
    v.push('a');
    v.push('s');
    v.push('s');
    v.push('e');
    v.push('t');
    v.push('s');
    proof {
        assert(v@ =~= scope_assets());
    }
    v
}

fn scope_packages_chars() -> (v: Vec<char>)
    ensures
        v@ == scope_packages(),
{
    let mut v: Vec<char> = Vec::new();
    v.push('p');
    v.push('a');
    v.push('c');
    v.push('k');
    v.push('a');
    v.push('g');
    v.push('e');
    v.push('s');
    proof {
        assert(v@ =~= scope_packages());
    }
    v
}

fn scope_embedded_chars() -> (v: Vec<char>)
    ensures
        v@ == scope_embedded(),
{
    let mut v: Vec<char> = Vec::new();
    v.push('e');
    v.push('m');
    v.push('b');
    v.push('e');
    v.push('d');
    v.push('d');
    v.push('e');
    v.push('d');
    proof {
        assert(v@ =~= scope_embedded());
    }
    v
}

fn scope_library_chars() -> (v: Vec<char>)
    ensures
        v@ == scope_library(),
{
    let mut v: Vec<char> = Vec::new();
    v.push('l');
    v.push('i');
    v.push('b');
    v.push('r');
    v.push('a');
    v.push('r');
    v.push('y');
    proof {
        assert(v@ =~= scope_library());
    }
    v
}

/// Does a project-relative path fall inside the given scope?
pub fn path_matches_scope(path: &str, scope: &str) -> (r: bool)
    ensures
        r == scope_matches(path@, scope@),
{
    let p = chars_of(path);
    let s = chars_of(scope);
    let assets = assets_root_chars();
    let packages = packages_root_chars();
    let library = library_root_chars();
    if chars_eq(&s, &scope_assets_chars()) {
        starts_with_chars(&p, &assets)
    } else if chars_eq(&s, &scope_packages_chars()) {
        starts_with_chars(&p, &packages) || starts_with_chars(&p, &library)
    } else if chars_eq(&s, &scope_embedded_chars()) {
        starts_with_chars(&p, &packages)
    } else if chars_eq(&s, &scope_library_chars()) {
        starts_with_chars(&p, &library)
    } else {
        true
    }
}

/// The `.cs` extension.
pub open spec fn cs_suffix() -> Seq<char> {
    seq!['.', 'c', 's']
}

/// The path ends in `.cs`, compared without regard to ASCII case.
pub open spec fn is_cs_path(s: Seq<char>) -> bool {
    cs_suffix().is_suffix_of(crate::strutil::lower_seq(s))
}

/// Does the path end in `.cs`, ignoring ASCII case?
pub fn ends_with_cs(path: &str) -> (r: bool)
    ensures
        r == is_cs_path(path@),
{
    let p = chars_of(path);
    let low = crate::strutil::lower_chars(&p);
    let mut suffix: Vec<char> = Vec::new();
    suffix.push('.');
    suffix.push('c');
    suffix.push('s');
    proof {
        assert(suffix@ =~= cs_suffix());
    }
    crate::strutil::ends_with_chars(&low, &suffix)
}

/// A `file://` URI for the given absolute path.
pub open spec fn file_uri_spec(path: Seq<char>) -> Seq<char> {
    file_scheme() + slashify(path)
}

/// Build a `file://` URI from an absolute filesystem path.
pub fn file_uri(path: &str) -> (r: String)
    ensures
        r@ == file_uri_spec(path@),
{
    let mut v = file_scheme_chars();
    let p = chars_of(path);
    let sp = slashify_chars(&p);
    extend_chars(&mut v, &sp);
    string_from_chars(&v)
}

/// The URI with every leading `file://` occurrence removed.
pub open spec fn strip_scheme_reps(s: Seq<char>) -> Seq<char>
    decreases s.len(),
{
    if file_scheme().is_prefix_of(s) {
        strip_scheme_reps(s.skip(file_scheme().len() as int))
    } else {
        s
    }
}

/// The path with the project root stripped: the remainder after `root/`, or
/// empty when the path is exactly the root. The match is textual, so a root
/// written with a trailing or doubled slash does not strip the way a
/// component-wise comparison would; canonical roots carry neither.
pub open spec fn strip_root_spec(path: Seq<char>, root: Seq<char>) -> Option<Seq<char>> {
    if path == root {
        Option::Some(Seq::empty())
    } else if (root + seq!['/']).is_prefix_of(path) {
        Option::Some(path.skip(root.len() + 1 as int))
    } else {
        Option::None
    }
}

/// What converting a `file://` URI into a project-relative path yields.
pub open spec fn uri_to_rel_spec(root: Seq<char>, uri: Seq<char>) -> Option<Seq<char>> {
    if file_scheme().is_prefix_of(uri) {
        let raw = slashify(strip_scheme_reps(uri));
        let rel = match strip_root_spec(raw, root) {
            Option::Some(r) => r,
            Option::None => raw,
        };
        normalize_spec(rel)
    } else {
        Option::None
    }
}

/// Strip repeated leading `file://` occurrences.
fn strip_scheme_chars(u: &Vec<char>) -> (r: Vec<char>)
    ensures
        r@ == strip_scheme_reps(u@),
{
    let scheme = file_scheme_chars();
    proof {
        assert(u@.skip(0) =~= u@);
    }
    let mut i: usize = 0;
    while u.len() - i >= 7 && crate::strutil::match_at(u, &scheme, i)
        invariant
            i <= u@.len(),
            scheme@ == file_scheme(),
            strip_scheme_reps(u@) == strip_scheme_reps(u@.skip(i as int)),
        decreases u@.len() - i,
    {
        proof {
            let cur = u@.skip(i as int);
            assert(u@.subrange(i as int, i + 7) =~= cur.subrange(0, 7));
            assert(file_scheme().is_prefix_of(cur));
            assert(cur.skip(7) =~= u@.skip(i + 7));
        }
        i = i + 7;
    }
    proof {
        let cur = u@.skip(i as int);
        if file_scheme().is_prefix_of(cur) {
            assert(i + 7 <= u@.len());
            assert(u@.subrange(i as int, i + 7) =~= cur.subrange(0, 7));
            assert(crate::strutil::contains_at(u@, file_scheme(), i as int));
        }
        assert(strip_scheme_reps(u@.skip(i as int)) == u@.skip(i as int));
        assert(u@.skip(i as int) =~= u@.subrange(i as int, u@.len() as int));
    }
    copy_range(u, i, u.len())
}

/// Strip the project root from a slash-rewritten path.
fn strip_root_chars(path: &Vec<char>, root: &Vec<char>) -> (r: Option<Vec<char>>)
    ensures
        match r {
            Option::Some(v) => strip_root_spec(path@, root@) == Option::Some(v@),
            Option::None => strip_root_spec(path@, root@) is None,
        },
{
    if chars_eq(path, root) {
        let empty: Vec<char> = Vec::new();
        proof {
            assert(empty@ =~= Seq::<char>::empty());
        }
        return Option::Some(empty);
    }
    let mut rooted = root.clone();
    proof {
        assert(rooted@ == root@);
    }
    rooted.push('/');
    proof {
        assert(rooted@ =~= root@ + seq!['/']);
    }
    if starts_with_chars(path, &rooted) {
        proof {
            assert(path@.skip(root@.len() + 1 as int) =~= path@.subrange(
                root@.len() + 1 as int,
                path@.len() as int,
            ));
        }
        let rl = rooted.len();
        Option::Some(copy_range(path, rl, path.len()))
    } else {
        Option::None
    }
}

/// Convert a `file://` URI into a normalized project-relative path.
pub fn uri_to_rel_path(project_root: &str, uri: &str) -> (r: Option<String>)
    ensures
        match r {
            Option::Some(s) => uri_to_rel_spec(project_root@, uri@) == Option::Some(s@),
            Option::None => uri_to_rel_spec(project_root@, uri@) is None,
        },
{
    let u = chars_of(uri);
    let scheme = file_scheme_chars();
    if !starts_with_chars(&u, &scheme) {
        return Option::None;
    }
    let stripped = strip_scheme_chars(&u);
    let raw = slashify_chars(&stripped);
    let root = chars_of(project_root);
    let rel = match strip_root_chars(&raw, &root) {
        Option::Some(v) => v,
        Option::None => raw,
    };
    normalize_rel_chars(&rel)
}

/// Normalize a character-vector path; see [`normalize_rel_path`].
pub fn normalize_rel_chars(v: &Vec<char>) -> (r: Option<String>)
    ensures
        match r {
            Option::Some(s) => normalize_spec(v@) == Option::Some(s@),
            Option::None => normalize_spec(v@) is None,
        },
{
    let t = trim_chars(v);
    let sl = slashify_chars(&t);
    let c = strip_prefix_junk(&sl);
    let pre_parts = split_slash_chars(&c);
    let pre_kept = keep_nonempty(pre_parts);
    if contains_dotdot(&pre_kept) {
        return Option::None;
    }
    let assets = assets_root_chars();
    let packages = packages_root_chars();
    let library = library_root_chars();
    let fa = find_first(&c, &assets);
    let fp = find_first(&c, &packages);
    let fl = find_first(&c, &library);
    let cut = opt_min_usize(opt_min_usize(fa, fp), fl);
    proof {
        match cut {
            Option::Some(k) => {
                assert(root_cut(c@) == Option::Some(k as nat));
            },
            Option::None => {
                assert(root_cut(c@) is None);
            },
        }
    }
    let c2 = match cut {
        Option::Some(i) => {
            proof {
                assert(c@.skip(i as int) =~= c@.subrange(i as int, c@.len() as int));
            }
            copy_range(&c, i, c.len())
        },
        Option::None => c,
    };
    let rooted = starts_with_chars(&c2, &assets) || starts_with_chars(&c2, &packages)
        || starts_with_chars(&c2, &library);
    if !rooted {
        return Option::None;
    }
    let parts = split_slash_chars(&c2);
    let kept = keep_nonempty(parts);
    if contains_dotdot(&kept) {
        return Option::None;
    }
    let joined = join_slash_chars(&kept);
    Option::Some(string_from_chars(&joined))
}

/// A reference's file path, whether it arrives as a `file://` URI or as a
/// plain path, normalized into the project.
pub open spec fn ref_path_spec(root: Seq<char>, p: Seq<char>) -> Option<Seq<char>> {
    if file_scheme().is_prefix_of(p) {
        uri_to_rel_spec(root, p)
    } else {
        normalize_spec(p)
    }
}

/// Resolve a reference's file path against the project root.
pub fn ref_path(project_root: &str, path: &str) -> (r: Option<String>)
    ensures
        match r {
            Option::Some(s) => ref_path_spec(project_root@, path@) == Option::Some(s@),
            Option::None => ref_path_spec(project_root@, path@) is None,
        },
{
    let p = chars_of(path);
    let scheme = file_scheme_chars();
    if starts_with_chars(&p, &scheme) {
        uri_to_rel_path(project_root, path)
    } else {
        normalize_rel_chars(&p)
    }
}

/// The path starts at a filesystem root: with `/`, or with a drive letter,
/// `:`, and a separator.
pub open spec fn is_absolute_path(p: Seq<char>) -> bool {
    ||| (p.len() >= 1 && p[0] == '/')
    ||| (p.len() >= 3 && p[1] == ':' && (p[2] == '/' || p[2] == '\\'))
}

/// An absolute path inside the project root is rewritten relative to it; any
/// other path is kept, with separators rewritten.
pub open spec fn to_rel_or_raw_spec(root: Seq<char>, raw: Seq<char>) -> Seq<char> {
    if is_absolute_path(raw) {
        match strip_root_spec(slashify(raw), slashify(root)) {
            Option::Some(r) => r,
            Option::None => slashify(raw),
        }
    } else {
        slashify(raw)
    }
}

/// Rewrite an absolute path relative to the project root where possible.
pub fn to_project_relative_or_raw(project_root: &str, raw: &str) -> (r: String)
    ensures
        r@ == to_rel_or_raw_spec(project_root@, raw@),
{
    let v = chars_of(raw);
    let absolute = (v.len() >= 1 && v[0] == '/') || (v.len() >= 3 && v[1] == ':' && (v[2] == '/'
        || v[2] == '\\'));
    let sv = slashify_chars(&v);
    if absolute {
        let root = chars_of(project_root);
        let sroot = slashify_chars(&root);
        match strip_root_chars(&sv, &sroot) {
            Option::Some(rel) => string_from_chars(&rel),
            Option::None => string_from_chars(&sv),
        }
    } else {
        string_from_chars(&sv)
    }
}

} // verus!
