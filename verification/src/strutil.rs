//! Verified utilities on characters and character sequences.
//!
//! All string-shaped logic in this crate works over `Vec<char>` so that every
//! step is visible to the verifier; `&str` and `String` appear only at the
//! public edges, converted by [`chars_of`] and [`string_from_chars`].

use vstd::prelude::*;

verus! {

/// ASCII lowercase of one character; everything outside `A..=Z` is unchanged.
pub open spec fn lower_char(c: char) -> char {
    if 'A' <= c && c <= 'Z' {
        ((c as u8) + 32) as char
    } else {
        c
    }
}

/// ASCII lowercase, applied to each character of a sequence.
pub open spec fn lower_seq(s: Seq<char>) -> Seq<char> {
    s.map_values(|c: char| lower_char(c))
}

/// Executable ASCII lowercase of one character.
pub fn to_lower_char(c: char) -> (r: char)
    ensures
        r == lower_char(c),
{
    if 'A' <= c && c <= 'Z' {
        ((c as u8) + 32) as char
    } else {
        c
    }
}

/// The characters of a string, as an indexable vector.
pub fn chars_of(s: &str) -> (v: Vec<char>)
    ensures
        v@ == s@,
{
    let n = s.unicode_len();
    let mut v: Vec<char> = Vec::new();
    let mut i: usize = 0;
    while i < n
        invariant
            i <= n,
            n == s@.len(),
            v@ == s@.subrange(0, i as int),
        decreases n - i,
    {
        v.push(s.get_char(i));
        i = i + 1;
        proof {
            assert(v@ =~= s@.subrange(0, i as int));
        }
    }
    proof {
        assert(v@ =~= s@);
    }
    v
}

/// Relies on `String: FromIterator<char>`: collecting an iterator of
/// characters yields a string holding exactly those characters in order.
#[verifier::external_body]
pub fn string_from_chars(v: &Vec<char>) -> (s: String)
    ensures
        s@ == v@,
{
    v.iter().collect()
}

/// Executable ASCII lowercase of a character vector.
pub fn lower_chars(v: &Vec<char>) -> (r: Vec<char>)
    ensures
        r@ == lower_seq(v@),
{
    let mut r: Vec<char> = Vec::new();
    let mut i: usize = 0;
    while i < v.len()
        invariant
            i <= v@.len(),
            r@ == lower_seq(v@.subrange(0, i as int)),
        decreases v@.len() - i,
    {
        r.push(to_lower_char(v[i]));
        i = i + 1;
        proof {
            assert(r@ =~= lower_seq(v@.subrange(0, i as int)));
        }
    }
    proof {
        assert(v@.subrange(0, v@.len() as int) =~= v@);
    }
    r
}

/// Executable equality of two character vectors.
pub fn chars_eq(a: &Vec<char>, b: &Vec<char>) -> (r: bool)
    ensures
        r == (a@ == b@),
{
    if a.len() != b.len() {
        return false;
    }
    let mut i: usize = 0;
    while i < a.len()
        invariant
            i <= a@.len(),
            a@.len() == b@.len(),
            a@.subrange(0, i as int) == b@.subrange(0, i as int),
        decreases a@.len() - i,
    {
        if a[i] != b[i] {
            proof {
                assert(a@[i as int] != b@[i as int]);
            }
            return false;
        }
        proof {
            assert(a@.subrange(0, i + 1 as int) =~= b@.subrange(0, i + 1 as int));
        }
        i = i + 1;
    }
    proof {
        assert(a@.subrange(0, a@.len() as int) =~= a@);
        assert(b@.subrange(0, b@.len() as int) =~= b@);
        assert(a@ =~= b@);
    }
    true
}

/// `sub` occurs in `s` starting at position `i`.
pub open spec fn contains_at(s: Seq<char>, sub: Seq<char>, i: int) -> bool {
    &&& 0 <= i
    &&& i + sub.len() <= s.len()
    &&& s.subrange(i, i + sub.len() as int) == sub
}

/// `sub` occurs somewhere in `s`.
pub open spec fn contains_seq(s: Seq<char>, sub: Seq<char>) -> bool {
    exists|i: int| contains_at(s, sub, i)
}

/// Does `sub` occur in `s` at position `i`?
pub fn match_at(s: &Vec<char>, sub: &Vec<char>, i: usize) -> (r: bool)
    requires
        i + sub@.len() <= s@.len(),
    ensures
        r == contains_at(s@, sub@, i as int),
{
    let n = s.len();
    let mut j: usize = 0;
    while j < sub.len()
        invariant
            j <= sub@.len(),
            i + sub@.len() <= s@.len(),
            n == s@.len(),
            s@.subrange(i as int, i + j as int) == sub@.subrange(0, j as int),
        decreases sub@.len() - j,
    {
        proof {
            assert(i + j < n);
        }
        if s[i + j] != sub[j] {
            proof {
                assert(s@[i + j as int] != sub@[j as int]);
                if contains_at(s@, sub@, i as int) {
                    assert(s@.subrange(i as int, i + sub@.len() as int)[j as int] == sub@[j as int]);
                }
            }
            return false;
        }
        proof {
            assert(s@.subrange(i as int, i + (j + 1) as int) =~= sub@.subrange(0, (j + 1) as int));
        }
        j = j + 1;
    }
    proof {
        assert(s@.subrange(i as int, i + sub@.len() as int) =~= sub@);
    }
    true
}

/// First position at or after `i` where `sub` occurs in `s`.
pub open spec fn first_occurrence_from(s: Seq<char>, sub: Seq<char>, i: nat) -> Option<nat>
    decreases s.len() + 1 - i,
{
    if i + sub.len() > s.len() {
        None
    } else if contains_at(s, sub, i as int) {
        Some(i)
    } else {
        first_occurrence_from(s, sub, i + 1)
    }
}

/// First position where `sub` occurs in `s`, if any.
pub open spec fn first_occurrence(s: Seq<char>, sub: Seq<char>) -> Option<nat> {
    first_occurrence_from(s, sub, 0)
}

/// A found occurrence really is one, and the earliest one.
pub proof fn lemma_first_occurrence_from(s: Seq<char>, sub: Seq<char>, i: nat)
    ensures
        match first_occurrence_from(s, sub, i) {
            Some(k) => i <= k && contains_at(s, sub, k as int) && forall|j: int|
                i <= j < k ==> !contains_at(s, sub, j),
            None => forall|j: int| i <= j ==> !contains_at(s, sub, j),
        },
    decreases s.len() + 1 - i,
{
    if i + sub.len() > s.len() {
        assert(forall|j: int| j >= i ==> !contains_at(s, sub, j));
    } else if !contains_at(s, sub, i as int) {
        lemma_first_occurrence_from(s, sub, i + 1);
    }
}

/// A position that is an occurrence, with none before it, is the first.
pub proof fn lemma_first_occurrence_is(s: Seq<char>, sub: Seq<char>, k: nat)
    requires
        contains_at(s, sub, k as int),
        forall|j: int| 0 <= j < k ==> !contains_at(s, sub, j),
    ensures
        first_occurrence(s, sub) == Option::Some(k),
{
    lemma_first_occurrence_from(s, sub, 0);
    match first_occurrence(s, sub) {
        Option::Some(k2) => {
            if k2 < k {
                assert(!contains_at(s, sub, k2 as int));
                assert(false);
            }
            if k2 > k {
                assert(!contains_at(s, sub, k as int));
                assert(false);
            }
        },
        Option::None => {
            assert(!contains_at(s, sub, k as int));
            assert(false);
        },
    }
}

/// First position where `sub` occurs in `s`, if any.
pub fn find_first(s: &Vec<char>, sub: &Vec<char>) -> (r: Option<usize>)
    ensures
        match r {
            Some(i) => first_occurrence(s@, sub@) == Some(i as nat) && contains_at(
                s@,
                sub@,
                i as int,
            ) && forall|j: int| 0 <= j < i ==> !contains_at(s@, sub@, j),
            None => first_occurrence(s@, sub@) is None && !contains_seq(s@, sub@),
        },
{
    if sub.len() > s.len() {
        proof {
            assert(forall|i: int| !contains_at(s@, sub@, i));
        }
        return None;
    }
    let last = s.len() - sub.len();
    let mut i: usize = 0;
    loop
        invariant
            sub@.len() <= s@.len(),
            last == s@.len() - sub@.len(),
            i <= last,
            forall|j: int| 0 <= j < i ==> !contains_at(s@, sub@, j),
            first_occurrence(s@, sub@) == first_occurrence_from(s@, sub@, i as nat),
        decreases last - i,
    {
        if match_at(s, sub, i) {
            return Some(i);
        }
        if i == last {
            proof {
                assert(forall|j: int| j > last ==> !contains_at(s@, sub@, j));
                assert(first_occurrence_from(s@, sub@, i as nat) == first_occurrence_from(
                    s@,
                    sub@,
                    (i + 1) as nat,
                ));
            }
            return None;
        }
        i = i + 1;
    }
}

/// Does `sub` occur anywhere in `s`?
pub fn contains_sub(s: &Vec<char>, sub: &Vec<char>) -> (r: bool)
    ensures
        r == contains_seq(s@, sub@),
{
    match find_first(s, sub) {
        Some(_) => true,
        None => false,
    }
}

/// Does `s` start with `prefix`?
pub fn starts_with_chars(s: &Vec<char>, prefix: &Vec<char>) -> (r: bool)
    ensures
        r == prefix@.is_prefix_of(s@),
{
    if prefix.len() > s.len() {
        return false;
    }
    let r = match_at(s, prefix, 0);
    proof {
        assert(prefix@.is_prefix_of(s@) == contains_at(s@, prefix@, 0));
    }
    r
}

/// Does `s` end with `suffix`?
pub fn ends_with_chars(s: &Vec<char>, suffix: &Vec<char>) -> (r: bool)
    ensures
        r == suffix@.is_suffix_of(s@),
{
    if suffix.len() > s.len() {
        return false;
    }
    let start = s.len() - suffix.len();
    let r = match_at(s, suffix, start);
    proof {
        assert(suffix@.is_suffix_of(s@) == contains_at(s@, suffix@, start as int));
    }
    r
}

/// Strict lexicographic order on character sequences, by code point.
pub open spec fn lex_lt(a: Seq<char>, b: Seq<char>) -> bool
    decreases a.len(),
{
    if b.len() == 0 {
        false
    } else if a.len() == 0 {
        true
    } else if a[0] != b[0] {
        (a[0] as u32) < (b[0] as u32)
    } else {
        lex_lt(a.drop_first(), b.drop_first())
    }
}

/// Non-strict lexicographic order on character sequences.
pub open spec fn lex_le(a: Seq<char>, b: Seq<char>) -> bool {
    lex_lt(a, b) || a == b
}

/// Distinct characters have distinct code points.
proof fn lemma_char_inj(c1: char, c2: char)
    requires
        c1 != c2,
    ensures
        (c1 as u32) != (c2 as u32),
{
    assert((c1 as u32) as char == c1);
    assert((c2 as u32) as char == c2);
}

/// Sequences with equal heads and equal tails are equal.
proof fn lemma_eq_from_head_tail(a: Seq<char>, b: Seq<char>)
    requires
        a.len() > 0,
        b.len() > 0,
        a[0] == b[0],
        a.drop_first() == b.drop_first(),
    ensures
        a == b,
{
    assert(a.drop_first().len() == a.len() - 1);
    assert(b.drop_first().len() == b.len() - 1);
    assert forall|i: int| 0 <= i < a.len() implies a[i] == b[i] by {
        if i >= 1 {
            assert(a.drop_first()[i - 1] == a[i]);
            assert(b.drop_first()[i - 1] == b[i]);
        }
    }
    assert(a =~= b);
}

/// Two sequences are always lexicographically ordered one way or the other.
pub proof fn lemma_lex_connected(a: Seq<char>, b: Seq<char>)
    ensures
        lex_lt(a, b) || lex_lt(b, a) || a == b,
    decreases a.len(),
{
    if b.len() == 0 || a.len() == 0 {
        if a.len() == b.len() {
            assert(a =~= b);
        }
    } else if a[0] == b[0] {
        lemma_lex_connected(a.drop_first(), b.drop_first());
        if a.drop_first() == b.drop_first() {
            lemma_eq_from_head_tail(a, b);
        }
    } else {
        lemma_char_inj(a[0], b[0]);
    }
}

/// Strict lexicographic order is irreflexive.
pub proof fn lemma_lex_irrefl(a: Seq<char>)
    ensures
        !lex_lt(a, a),
    decreases a.len(),
{
    if a.len() > 0 {
        lemma_lex_irrefl(a.drop_first());
    }
}

/// Strict lexicographic order is transitive.
pub proof fn lemma_lex_trans(a: Seq<char>, b: Seq<char>, c: Seq<char>)
    requires
        lex_lt(a, b),
        lex_lt(b, c),
    ensures
        lex_lt(a, c),
    decreases a.len(),
{
    if a.len() > 0 && b.len() > 0 && c.len() > 0 {
        if a[0] == b[0] && b[0] == c[0] {
            lemma_lex_trans(a.drop_first(), b.drop_first(), c.drop_first());
        }
    }
}

/// Executable strict lexicographic comparison.
pub fn lex_lt_chars(a: &Vec<char>, b: &Vec<char>) -> (r: bool)
    ensures
        r == lex_lt(a@, b@),
{
    proof {
        assert(a@.skip(0) =~= a@);
        assert(b@.skip(0) =~= b@);
    }
    let mut i: usize = 0;
    loop
        invariant
            i <= a@.len(),
            i <= b@.len(),
            lex_lt(a@, b@) == lex_lt(a@.skip(i as int), b@.skip(i as int)),
        decreases a@.len() - i,
    {
        proof {
            let sa = a@.skip(i as int);
            let sb = b@.skip(i as int);
            assert(sa.len() == a@.len() - i);
            assert(sb.len() == b@.len() - i);
            if i < a@.len() && i < b@.len() {
                assert(sa[0] == a@[i as int]);
                assert(sb[0] == b@[i as int]);
                if a@[i as int] == b@[i as int] {
                    assert(sa.drop_first() =~= a@.skip(i + 1 as int));
                    assert(sb.drop_first() =~= b@.skip(i + 1 as int));
                }
            }
        }
        if i >= a.len() || i >= b.len() {
            return i < b.len();
        }
        let ca = a[i];
        let cb = b[i];
        if ca != cb {
            return (ca as u32) < (cb as u32);
        }
        i = i + 1;
    }
}

/// Append all characters of `b` to `a`.
pub fn extend_chars(a: &mut Vec<char>, b: &Vec<char>)
    ensures
        final(a)@ == old(a)@ + b@,
{
    let mut i: usize = 0;
    while i < b.len()
        invariant
            i <= b@.len(),
            a@ == old(a)@ + b@.subrange(0, i as int),
        decreases b@.len() - i,
    {
        a.push(b[i]);
        i = i + 1;
        proof {
            assert(old(a)@ + b@.subrange(0, i as int) =~= (old(a)@ + b@.subrange(0, i - 1))
                .push(b@[i - 1]));
        }
    }
    proof {
        assert(b@.subrange(0, b@.len() as int) =~= b@);
    }
}

/// Copy of the characters of `v` between `lo` and `hi`.
pub fn copy_range(v: &Vec<char>, lo: usize, hi: usize) -> (r: Vec<char>)
    requires
        lo <= hi <= v@.len(),
    ensures
        r@ == v@.subrange(lo as int, hi as int),
{
    let mut r: Vec<char> = Vec::new();
    let mut i: usize = lo;
    while i < hi
        invariant
            lo <= i <= hi <= v@.len(),
            r@ == v@.subrange(lo as int, i as int),
        decreases hi - i,
    {
        r.push(v[i]);
        i = i + 1;
        proof {
            assert(r@ =~= v@.subrange(lo as int, i as int));
        }
    }
    r
}

/// The characters the surrounding trims remove: the Unicode `White_Space`
/// set, as `str::trim` removes it.
pub open spec fn is_space(c: char) -> bool {
    ||| ('\u{9}' <= c && c <= '\u{d}')
    ||| c == ' '
    ||| c == '\u{85}'
    ||| c == '\u{a0}'
    ||| c == '\u{1680}'
    ||| ('\u{2000}' <= c && c <= '\u{200a}')
    ||| c == '\u{2028}'
    ||| c == '\u{2029}'
    ||| c == '\u{202f}'
    ||| c == '\u{205f}'
    ||| c == '\u{3000}'
}

/// Is `c` one of the trimmed whitespace characters?
pub fn is_space_char(c: char) -> (r: bool)
    ensures
        r == is_space(c),
{
    ('\u{9}' <= c && c <= '\u{d}') || c == ' ' || c == '\u{85}' || c == '\u{a0}' || c == '\u{1680}'
        || ('\u{2000}' <= c && c <= '\u{200a}') || c == '\u{2028}' || c == '\u{2029}' || c
        == '\u{202f}' || c == '\u{205f}' || c == '\u{3000}'
}

/// `s` without leading whitespace.
pub open spec fn trim_start_spec(s: Seq<char>) -> Seq<char>
    decreases s.len(),
{
    if s.len() > 0 && is_space(s[0]) {
        trim_start_spec(s.drop_first())
    } else {
        s
    }
}

/// `s` without trailing whitespace.
pub open spec fn trim_end_spec(s: Seq<char>) -> Seq<char>
    decreases s.len(),
{
    if s.len() > 0 && is_space(s.last()) {
        trim_end_spec(s.drop_last())
    } else {
        s
    }
}

/// `s` without leading and trailing whitespace.
pub open spec fn trim_spec(s: Seq<char>) -> Seq<char> {
    trim_end_spec(trim_start_spec(s))
}

/// Whitespace trim on a character vector.
pub fn trim_chars(v: &Vec<char>) -> (r: Vec<char>)
    ensures
        r@ == trim_spec(v@),
{
    proof {
        assert(v@.skip(0) =~= v@);
    }
    let mut lo: usize = 0;
    while lo < v.len() && is_space_char(v[lo])
        invariant
            lo <= v@.len(),
            trim_start_spec(v@) == trim_start_spec(v@.skip(lo as int)),
        decreases v@.len() - lo,
    {
        proof {
            assert(v@.skip(lo as int)[0] == v@[lo as int]);
            assert(v@.skip(lo as int).drop_first() =~= v@.skip(lo + 1 as int));
        }
        lo = lo + 1;
    }
    proof {
        if lo < v@.len() {
            assert(v@.skip(lo as int)[0] == v@[lo as int]);
        }
        assert(trim_start_spec(v@) == v@.skip(lo as int));
    }
    let mut hi: usize = v.len();
    while hi > lo && is_space_char(v[hi - 1])
        invariant
            lo <= hi <= v@.len(),
            trim_start_spec(v@) == v@.skip(lo as int),
            trim_end_spec(v@.skip(lo as int)) == trim_end_spec(v@.subrange(lo as int, hi as int)),
        decreases hi,
    {
        proof {
            let cur = v@.subrange(lo as int, hi as int);
            assert(cur.last() == v@[hi - 1]);
            assert(cur.drop_last() =~= v@.subrange(lo as int, hi - 1));
        }
        hi = hi - 1;
    }
    proof {
        let cur = v@.subrange(lo as int, hi as int);
        if hi > lo {
            assert(cur.last() == v@[hi - 1]);
        }
        assert(v@.skip(lo as int) =~= v@.subrange(lo as int, v@.len() as int));
        assert(trim_end_spec(cur) == cur);
    }
    copy_range(v, lo, hi)
}

/// Each backslash replaced by a forward slash.
pub open spec fn slashify(s: Seq<char>) -> Seq<char> {
    s.map_values(|c: char| if c == '\\' { '/' } else { c })
}

/// Executable backslash-to-slash replacement.
pub fn slashify_chars(v: &Vec<char>) -> (r: Vec<char>)
    ensures
        r@ == slashify(v@),
{
    let mut r: Vec<char> = Vec::new();
    let mut i: usize = 0;
    while i < v.len()
        invariant
            i <= v@.len(),
            r@ == slashify(v@.subrange(0, i as int)),
        decreases v@.len() - i,
    {
        if v[i] == '\\' {
            r.push('/');
        } else {
            r.push(v[i]);
        }
        i = i + 1;
        proof {
            assert(r@ =~= slashify(v@.subrange(0, i as int)));
        }
    }
    proof {
        assert(v@.subrange(0, v@.len() as int) =~= v@);
    }
    r
}

/// `s` with every leading `./` pair removed.
pub open spec fn strip_dot_slash(s: Seq<char>) -> Seq<char>
    decreases s.len(),
{
    if s.len() >= 2 && s[0] == '.' && s[1] == '/' {
        strip_dot_slash(s.skip(2))
    } else {
        s
    }
}

/// `s` with all leading slashes removed.
pub open spec fn strip_leading_slashes(s: Seq<char>) -> Seq<char>
    decreases s.len(),
{
    if s.len() > 0 && s[0] == '/' {
        strip_leading_slashes(s.drop_first())
    } else {
        s
    }
}

/// Remove leading `./` pairs, then leading slashes.
pub fn strip_prefix_junk(v: &Vec<char>) -> (r: Vec<char>)
    ensures
        r@ == strip_leading_slashes(strip_dot_slash(v@)),
{
    proof {
        assert(v@.skip(0) =~= v@);
    }
    let mut i: usize = 0;
    while i < v.len() && i + 1 < v.len() && v[i] == '.' && v[i + 1] == '/'
        invariant
            i <= v@.len(),
            strip_dot_slash(v@) == strip_dot_slash(v@.skip(i as int)),
        decreases v@.len() - i,
    {
        proof {
            let cur = v@.skip(i as int);
            assert(cur[0] == v@[i as int]);
            assert(cur[1] == v@[i + 1]);
            assert(cur.skip(2) =~= v@.skip(i + 2));
        }
        i = i + 2;
    }
    proof {
        let cur = v@.skip(i as int);
        if i < v@.len() {
            assert(cur[0] == v@[i as int]);
        }
        if i + 1 < v@.len() {
            assert(cur[1] == v@[i + 1]);
        }
        assert(strip_dot_slash(v@) == v@.skip(i as int));
    }
    let mut j: usize = i;
    while j < v.len() && v[j] == '/'
        invariant
            i <= j <= v@.len(),
            strip_dot_slash(v@) == v@.skip(i as int),
            strip_leading_slashes(v@.skip(i as int)) == strip_leading_slashes(v@.skip(j as int)),
        decreases v@.len() - j,
    {
        proof {
            let cur = v@.skip(j as int);
            assert(cur[0] == v@[j as int]);
            assert(cur.drop_first() =~= v@.skip(j + 1 as int));
        }
        j = j + 1;
    }
    proof {
        let cur = v@.skip(j as int);
        if j < v@.len() {
            assert(cur[0] == v@[j as int]);
        }
        assert(strip_leading_slashes(v@.skip(i as int)) == v@.skip(j as int));
        assert(v@.skip(j as int) =~= v@.subrange(j as int, v@.len() as int));
    }
    copy_range(v, j, v.len())
}

/// The views of a sequence of character vectors.
pub open spec fn views_of(parts: Seq<Vec<char>>) -> Seq<Seq<char>> {
    parts.map_values(|p: Vec<char>| p@)
}

/// `s` split on `/`, empty pieces kept; never itself empty.
pub open spec fn split_slash(s: Seq<char>) -> Seq<Seq<char>>
    decreases s.len(),
{
    if s.len() == 0 {
        seq![Seq::<char>::empty()]
    } else {
        let rest = split_slash(s.drop_last());
        if s.last() == '/' {
            rest.push(Seq::empty())
        } else {
            rest.update(rest.len() - 1, rest.last().push(s.last()))
        }
    }
}

/// A split always yields at least one piece.
pub proof fn lemma_split_slash_len(s: Seq<char>)
    ensures
        split_slash(s).len() >= 1,
    decreases s.len(),
{
    if s.len() > 0 {
        lemma_split_slash_len(s.drop_last());
    }
}

/// Executable split on `/`.
pub fn split_slash_chars(v: &Vec<char>) -> (parts: Vec<Vec<char>>)
    ensures
        views_of(parts@) == split_slash(v@),
{
    let mut done: Vec<Vec<char>> = Vec::new();
    let mut cur: Vec<char> = Vec::new();
    proof {
        assert(v@.subrange(0, 0) =~= Seq::<char>::empty());
        assert(views_of(done@).push(cur@) =~= split_slash(v@.subrange(0, 0)));
    }
    let mut i: usize = 0;
    while i < v.len()
        invariant
            i <= v@.len(),
            views_of(done@).push(cur@) == split_slash(v@.subrange(0, i as int)),
        decreases v@.len() - i,
    {
        proof {
            let pre = v@.subrange(0, i as int);
            let ext = v@.subrange(0, i + 1);
            assert(ext.drop_last() =~= pre);
            assert(ext.last() == v@[i as int]);
        }
        if v[i] == '/' {
            done.push(cur);
            cur = Vec::new();
            proof {
                assert(views_of(done@) =~= split_slash(v@.subrange(0, i as int)));
                assert(views_of(done@).push(cur@) =~= split_slash(v@.subrange(0, i + 1)));
            }
        } else {
            let c = v[i];
            cur.push(c);
            proof {
                let prev = split_slash(v@.subrange(0, i as int));
                lemma_split_slash_len(v@.subrange(0, i as int));
                assert(prev.last() == cur@.drop_last());
                assert(cur@.drop_last().push(c) =~= cur@);
                assert(views_of(done@).push(cur@) =~= prev.update(
                    prev.len() - 1,
                    prev.last().push(c),
                ));
            }
        }
        i = i + 1;
    }
    done.push(cur);
    proof {
        assert(v@.subrange(0, v@.len() as int) =~= v@);
    }
    done
}

/// The non-empty pieces of a sequence of pieces.
pub open spec fn nonempty_parts(parts: Seq<Seq<char>>) -> Seq<Seq<char>> {
    parts.filter(|p: Seq<char>| p.len() > 0)
}

/// Executable filter keeping the non-empty pieces.
pub fn keep_nonempty(parts: Vec<Vec<char>>) -> (kept: Vec<Vec<char>>)
    ensures
        views_of(kept@) == nonempty_parts(views_of(parts@)),
{
    proof {
        reveal(Seq::filter);
        assert(views_of(parts@).subrange(0, 0) =~= Seq::<Seq<char>>::empty());
    }
    let mut kept: Vec<Vec<char>> = Vec::new();
    let mut i: usize = 0;
    while i < parts.len()
        invariant
            i <= parts@.len(),
            views_of(kept@) == views_of(parts@).subrange(0, i as int).filter(
                |p: Seq<char>| p.len() > 0,
            ),
        decreases parts@.len() - i,
    {
        proof {
            reveal(Seq::filter);
            let all = views_of(parts@);
            let pre = all.subrange(0, i as int);
            let ext = all.subrange(0, i + 1);
            assert(ext.drop_last() =~= pre);
            assert(ext.last() == parts@[i as int]@);
        }
        let keep = parts[i].len() > 0;
        if keep {
            let p = parts[i].clone();
            proof {
                assert(p@ == parts@[i as int]@);
            }
            kept.push(p);
            proof {
                assert(views_of(kept@) =~= views_of(parts@).subrange(0, i + 1).filter(
                    |p: Seq<char>| p.len() > 0,
                ));
            }
        } else {
            proof {
                assert(views_of(kept@) =~= views_of(parts@).subrange(0, i + 1).filter(
                    |p: Seq<char>| p.len() > 0,
                ));
            }
        }
        i = i + 1;
    }
    proof {
        assert(views_of(parts@).subrange(0, views_of(parts@).len() as int) =~= views_of(parts@));
    }
    kept
}

/// Pieces joined with `/` between them.
pub open spec fn join_slash(parts: Seq<Seq<char>>) -> Seq<char>
    decreases parts.len(),
{
    if parts.len() == 0 {
        Seq::empty()
    } else if parts.len() == 1 {
        parts[0]
    } else {
        join_slash(parts.drop_last()) + seq!['/'] + parts.last()
    }
}

/// Executable join with `/`.
pub fn join_slash_chars(parts: &Vec<Vec<char>>) -> (r: Vec<char>)
    ensures
        r@ == join_slash(views_of(parts@)),
{
    let mut r: Vec<char> = Vec::new();
    if parts.len() == 0 {
        proof {
            assert(r@ =~= join_slash(views_of(parts@)));
        }
        return r;
    }
    extend_chars(&mut r, &parts[0]);
    proof {
        assert(views_of(parts@).subrange(0, 1).len() == 1);
        assert(views_of(parts@).subrange(0, 1)[0] == parts@[0]@);
        assert(r@ =~= join_slash(views_of(parts@).subrange(0, 1)));
    }
    let mut i: usize = 1;
    while i < parts.len()
        invariant
            1 <= i <= parts@.len(),
            r@ == join_slash(views_of(parts@).subrange(0, i as int)),
        decreases parts@.len() - i,
    {
        r.push('/');
        extend_chars(&mut r, &parts[i]);
        proof {
            let all = views_of(parts@);
            let pre = all.subrange(0, i as int);
            let ext = all.subrange(0, i + 1);
            assert(ext.drop_last() =~= pre);
            assert(ext.last() == parts@[i as int]@);
            assert(r@ =~= join_slash(pre) + seq!['/'] + parts@[i as int]@);
        }
        i = i + 1;
    }
    proof {
        assert(views_of(parts@).subrange(0, views_of(parts@).len() as int) =~= views_of(parts@));
    }
    r
}

/// `c` does not occur in `p`.
pub open spec fn seq_lacks(p: Seq<char>, c: char) -> bool {
    forall|j: int| 0 <= j < p.len() ==> p[j] != c
}

/// `c` does not occur in any piece.
pub open spec fn pieces_lack(parts: Seq<Seq<char>>, c: char) -> bool {
    forall|i: int| 0 <= i < parts.len() ==> seq_lacks(#[trigger] parts[i], c)
}

/// Split pieces never hold the separator, nor any character absent from the
/// source.
pub proof fn lemma_split_lacks(s: Seq<char>, c: char)
    requires
        c == '/' || seq_lacks(s, c),
    ensures
        pieces_lack(split_slash(s), c),
    decreases s.len(),
{
    if s.len() == 0 {
    } else {
        assert(seq_lacks(s, c) ==> seq_lacks(s.drop_last(), c));
        lemma_split_lacks(s.drop_last(), c);
        lemma_split_slash_len(s.drop_last());
        let rest = split_slash(s.drop_last());
        if s.last() == '/' {
            assert(pieces_lack(rest.push(Seq::empty()), c));
        } else {
            assert(s.last() != c);
            let upd = rest.update(rest.len() - 1, rest.last().push(s.last()));
            assert forall|i: int| 0 <= i < upd.len() implies seq_lacks(#[trigger] upd[i], c) by {
                if i == rest.len() - 1 {
                    assert(seq_lacks(rest[i], c));
                    assert(upd[i] == rest[i].push(s.last()));
                } else {
                    assert(upd[i] == rest[i]);
                }
            }
        }
    }
}

/// Appending separator-free text extends the last split piece.
pub proof fn lemma_split_append(y: Seq<char>, b: Seq<char>)
    requires
        seq_lacks(b, '/'),
    ensures
        split_slash(y + b) == split_slash(y).update(
            split_slash(y).len() - 1,
            split_slash(y).last() + b,
        ),
    decreases b.len(),
{
    lemma_split_slash_len(y);
    let sy = split_slash(y);
    if b.len() == 0 {
        assert(y + b =~= y);
        assert(sy.last() + b =~= sy.last());
        assert(sy.update(sy.len() - 1, sy.last() + b) =~= sy);
    } else {
        let bd = b.drop_last();
        let c = b.last();
        assert(seq_lacks(bd, '/'));
        lemma_split_append(y, bd);
        assert(c != '/');
        assert((y + b).drop_last() =~= y + bd);
        assert((y + b).len() > 0);
        assert((y + b).last() == c);
        let mid = split_slash(y + bd);
        assert(split_slash(y + b) == mid.update(mid.len() - 1, mid.last().push(c)));
        assert(mid == sy.update(sy.len() - 1, sy.last() + bd));
        assert(mid.len() == sy.len());
        assert(mid.last() == sy.last() + bd);
        assert(mid.last().push(c) =~= sy.last() + b);
        assert(mid.update(mid.len() - 1, mid.last().push(c)) =~~= sy.update(
            sy.len() - 1,
            sy.last() + b,
        ));
    }
}

/// Splitting the join of separator-free pieces recovers the pieces.
pub proof fn lemma_join_split_roundtrip(parts: Seq<Seq<char>>)
    requires
        parts.len() >= 1,
        pieces_lack(parts, '/'),
    ensures
        split_slash(join_slash(parts)) == parts,
    decreases parts.len(),
{
    if parts.len() == 1 {
        let p = parts[0];
        assert(seq_lacks(p, '/'));
        lemma_split_append(Seq::empty(), p);
        assert(Seq::<char>::empty() + p =~= p);
        assert(join_slash(parts) == p);
        let se = split_slash(Seq::<char>::empty());
        assert(se == seq![Seq::<char>::empty()]);
        assert(se.last() + p =~= p);
        assert(se.update(0, se.last() + p) =~~= parts);
    } else {
        let dl = parts.drop_last();
        let last = parts.last();
        assert(pieces_lack(dl, '/'));
        lemma_join_split_roundtrip(dl);
        let y = join_slash(dl);
        assert(join_slash(parts) == y + seq!['/'] + last);
        let ys = y.push('/');
        assert(y + seq!['/'] + last =~= ys + last);
        assert(ys.drop_last() =~= y);
        assert(ys.last() == '/');
        assert(split_slash(ys) == split_slash(y).push(Seq::empty()));
        assert(seq_lacks(last, '/'));
        lemma_split_append(ys, last);
        let sys = split_slash(ys);
        assert(sys == dl.push(Seq::<char>::empty()));
        assert(sys.last() + last =~= last);
        assert(sys.update(sys.len() - 1, sys.last() + last) =~~= parts);
        assert(split_slash(join_slash(parts)) == split_slash(ys + last));
    }
}

/// A filter that keeps everything changes nothing.
pub proof fn lemma_filter_all_pass<A>(s: Seq<A>, pred: spec_fn(A) -> bool)
    requires
        forall|i: int| 0 <= i < s.len() ==> pred(#[trigger] s[i]),
    ensures
        s.filter(pred) == s,
    decreases s.len(),
{
    reveal(Seq::filter);
    if s.len() > 0 {
        assert(forall|i: int|
            0 <= i < s.drop_last().len() ==> pred(#[trigger] s.drop_last()[i]));
        lemma_filter_all_pass(s.drop_last(), pred);
        assert(s.drop_last().push(s.last()) =~= s);
    }
}

/// Filtering never introduces a character into a piece.
pub proof fn lemma_filter_pieces_lack(parts: Seq<Seq<char>>, pred: spec_fn(Seq<char>) -> bool, c: char)
    requires
        pieces_lack(parts, c),
    ensures
        pieces_lack(parts.filter(pred), c),
    decreases parts.len(),
{
    reveal(Seq::filter);
    if parts.len() > 0 {
        assert(pieces_lack(parts.drop_last(), c));
        lemma_filter_pieces_lack(parts.drop_last(), pred, c);
        let sub = parts.drop_last().filter(pred);
        if pred(parts.last()) {
            assert forall|i: int| 0 <= i < sub.push(parts.last()).len() implies seq_lacks(
                #[trigger] sub.push(parts.last())[i],
                c,
            ) by {
                if i < sub.len() {
                    assert(sub.push(parts.last())[i] == sub[i]);
                }
            }
        }
    }
}

/// Joining pieces that lack a non-separator character yields text lacking it.
pub proof fn lemma_join_lacks(parts: Seq<Seq<char>>, c: char)
    requires
        c != '/',
        pieces_lack(parts, c),
    ensures
        seq_lacks(join_slash(parts), c),
    decreases parts.len(),
{
    if parts.len() == 0 {
    } else if parts.len() == 1 {
        assert(seq_lacks(parts[0], c));
    } else {
        assert(pieces_lack(parts.drop_last(), c));
        lemma_join_lacks(parts.drop_last(), c);
        assert(seq_lacks(parts.last(), c));
        let j = join_slash(parts.drop_last()) + seq!['/'] + parts.last();
        assert forall|i: int| 0 <= i < j.len() implies j[i] != c by {
            let jd = join_slash(parts.drop_last());
            if i < jd.len() {
                assert(j[i] == jd[i]);
            } else if i == jd.len() {
                assert(j[i] == '/');
            } else {
                assert(j[i] == parts.last()[i - jd.len() - 1]);
            }
        }
    }
}

/// Is `c` a decimal digit?
pub open spec fn is_digit(c: char) -> bool {
    '0' <= c && c <= '9'
}

/// The value of a digit character; zero for anything else.
pub open spec fn digit_val(c: char) -> nat {
    if is_digit(c) {
        ((c as u32) - 48) as nat
    } else {
        0
    }
}

/// Every character of `s` is a decimal digit.
pub open spec fn all_digits(s: Seq<char>) -> bool {
    forall|i: int| 0 <= i < s.len() ==> is_digit(#[trigger] s[i])
}

/// The numeric value of a digit string, most significant digit first.
pub open spec fn dec_val(s: Seq<char>) -> nat
    decreases s.len(),
{
    if s.len() == 0 {
        0
    } else {
        dec_val(s.drop_last()) * 10 + digit_val(s.last())
    }
}

/// The value of a non-empty all-digit string, when it fits a `u64`.
pub open spec fn parse_digits_spec(s: Seq<char>) -> Option<u64> {
    if s.len() > 0 && all_digits(s) && dec_val(s) <= u64::MAX {
        Some(dec_val(s) as u64)
    } else {
        None
    }
}

/// What reading decimal text as a `u64` yields: an optional leading plus
/// sign, then one or more digits whose value fits; nothing otherwise.
pub open spec fn parse_u64_spec(s: Seq<char>) -> Option<u64> {
    if s.len() > 0 && s[0] == '+' {
        parse_digits_spec(s.drop_first())
    } else {
        parse_digits_spec(s)
    }
}

/// A longer digit string never has a smaller value.
proof fn lemma_dec_val_prefix_le(s: Seq<char>, k: int)
    requires
        0 <= k <= s.len(),
    ensures
        dec_val(s.subrange(0, k)) <= dec_val(s),
    decreases s.len() - k,
{
    if k == s.len() {
        assert(s.subrange(0, k) =~= s);
    } else {
        lemma_dec_val_prefix_le(s, k + 1);
        let p = s.subrange(0, k);
        let q = s.subrange(0, k + 1);
        assert(q.drop_last() =~= p);
        assert(dec_val(q) == dec_val(p) * 10 + digit_val(q.last()));
        assert(dec_val(p) * 10 >= dec_val(p)) by (nonlinear_arith)
            requires
                dec_val(p) >= 0,
        {}
    }
}

/// Executable decimal parse into a `u64`, allowing one leading plus sign.
pub fn parse_u64_chars(v: &Vec<char>) -> (r: Option<u64>)
    ensures
        r == parse_u64_spec(v@),
{
    if v.len() > 0 && v[0] == '+' {
        proof {
            assert(v@.drop_first() =~= v@.subrange(1, v@.len() as int));
        }
        let digits = copy_range(v, 1, v.len());
        parse_digit_chars(&digits)
    } else {
        parse_digit_chars(v)
    }
}

/// Executable decimal parse of a digit string into a `u64`.
fn parse_digit_chars(v: &Vec<char>) -> (r: Option<u64>)
    ensures
        r == parse_digits_spec(v@),
{
    if v.len() == 0 {
        return None;
    }
    let mut acc: u64 = 0;
    let mut i: usize = 0;
    proof {
        assert(v@.subrange(0, 0) =~= Seq::<char>::empty());
    }
    while i < v.len()
        invariant
            i <= v@.len(),
            all_digits(v@.subrange(0, i as int)),
            acc == dec_val(v@.subrange(0, i as int)),
        decreases v@.len() - i,
    {
        let c = v[i];
        proof {
            let pre = v@.subrange(0, i as int);
            let ext = v@.subrange(0, i + 1);
            assert(ext.drop_last() =~= pre);
            assert(ext.last() == v@[i as int]);
        }
        if c < '0' || c > '9' {
            proof {
                assert(!is_digit(v@[i as int]));
            }
            return None;
        }
        let d = (c as u32 - 48) as u64;
        proof {
            assert(d == digit_val(v@[i as int]));
        }
        if acc > (u64::MAX - d) / 10 {
            proof {
                let ext = v@.subrange(0, i + 1);
                assert(dec_val(ext) > u64::MAX) by (nonlinear_arith)
                    requires
                        dec_val(ext) == dec_val(v@.subrange(0, i as int)) * 10 + digit_val(
                            v@[i as int],
                        ),
                        dec_val(v@.subrange(0, i as int)) > (u64::MAX - digit_val(v@[i as int]))
                            / 10,
                        digit_val(v@[i as int]) <= 9,
                {}
                lemma_dec_val_prefix_le(v@, i + 1);
            }
            return None;
        }
        proof {
            assert(acc * 10 + d <= u64::MAX) by (nonlinear_arith)
                requires
                    acc <= (u64::MAX - d) / 10,
                    d <= 9,
            {}
        }
        acc = acc * 10 + d;
        i = i + 1;
    }
    proof {
        assert(v@.subrange(0, v@.len() as int) =~= v@);
    }
    Some(acc)
}

/// The decimal representation of `n`, most significant digit first.
pub open spec fn dec_rep(n: nat) -> Seq<char>
    decreases n,
{
    if n < 10 {
        seq![((48 + n) as u8) as char]
    } else {
        dec_rep(n / 10).push(((48 + n % 10) as u8) as char)
    }
}

/// The decimal representation is all digits and reads back as its number.
pub proof fn lemma_dec_rep_digits(n: nat)
    ensures
        all_digits(dec_rep(n)),
        dec_val(dec_rep(n)) == n,
        dec_rep(n).len() >= 1,
    decreases n,
{
    if n < 10 {
        let c = ((48 + n) as u8) as char;
        assert(is_digit(c));
        assert(digit_val(c) == n);
        let s = dec_rep(n);
        assert(s =~= seq![c]);
        assert(s.drop_last() =~= Seq::<char>::empty());
        assert(dec_val(s) == dec_val(s.drop_last()) * 10 + digit_val(s.last()));
    } else {
        lemma_dec_rep_digits(n / 10);
        let rest = dec_rep(n / 10);
        let c = ((48 + n % 10) as u8) as char;
        assert(is_digit(c));
        assert(digit_val(c) == n % 10);
        let s = dec_rep(n);
        assert(s == rest.push(c));
        assert(s.drop_last() =~= rest);
        assert(s.last() == c);
        assert forall|i: int| 0 <= i < s.len() implies is_digit(#[trigger] s[i]) by {
            if i < rest.len() {
                assert(s[i] == rest[i]);
            }
        }
        assert(dec_val(s) == dec_val(rest) * 10 + digit_val(c));
        assert((n / 10) * 10 + n % 10 == n) by (nonlinear_arith);
    }
}

/// Append the decimal representation of `n` to `out`.
pub fn push_dec_u64(n: u64, out: &mut Vec<char>)
    ensures
        final(out)@ == old(out)@ + dec_rep(n as nat),
    decreases n,
{
    if n >= 10 {
        push_dec_u64(n / 10, out);
        let d = ((n % 10) as u8 + 48) as char;
        proof {
            assert(d == ((48 + (n as nat) % 10) as u8) as char);
        }
        out.push(d);
        proof {
            assert(old(out)@ + dec_rep(n as nat) =~= (old(out)@ + dec_rep((n / 10) as nat)).push(
                ((48 + (n as nat) % 10) as u8) as char,
            ));
        }
    } else {
        let d = (n as u8 + 48) as char;
        out.push(d);
        proof {
            assert(old(out)@ + dec_rep(n as nat) =~= old(out)@.push(((48 + n as nat) as u8) as char));
        }
    }
}

/// The decimal representation of a signed number: a minus sign for negative
/// numbers, then the digits of the magnitude.
pub open spec fn dec_rep_i64(n: int) -> Seq<char> {
    if n >= 0 {
        dec_rep(n as nat)
    } else {
        seq!['-'] + dec_rep((-n) as nat)
    }
}

/// Append the decimal representation of a signed number to `out`.
pub fn push_dec_i64(n: i64, out: &mut Vec<char>)
    ensures
        final(out)@ == old(out)@ + dec_rep_i64(n as int),
{
    if n >= 0 {
        push_dec_u64(n as u64, out);
    } else {
        out.push('-');
        let ghost mid = old(out)@.push('-');
        let mag: u64 = if n == i64::MIN {
            9223372036854775808u64
        } else {
            (-n) as u64
        };
        proof {
            assert(mag as int == -(n as int));
        }
        push_dec_u64(mag, out);
        proof {
            assert(old(out)@ + dec_rep_i64(n as int) =~= mid + dec_rep(mag as nat));
        }
    }
}

/// The decimal representation of `n`, as a string.
pub fn format_u64(n: u64) -> (s: String)
    ensures
        s@ == dec_rep(n as nat),
{
    let mut out: Vec<char> = Vec::new();
    push_dec_u64(n, &mut out);
    proof {
        assert(out@ =~= dec_rep(n as nat));
    }
    string_from_chars(&out)
}

} // verus!
