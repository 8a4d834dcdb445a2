//! Checking that a caller-supplied relative path stays below its base.
use vstd::prelude::*;
use vstd::string::StrSliceExecFns;
use crate::error::StoreError;

verus! {

/// The characters that separate path components.
pub open spec fn is_separator(c: char) -> bool {
    c == '/' || c == '\\'
}

/// A component equal to `..` starts at index `i` of `p`.
pub open spec fn parent_marker_at(p: Seq<char>, i: int) -> bool {
    &&& 0 <= i && i + 2 <= p.len()
    &&& (i == 0 || is_separator(p[i - 1]))
    &&& p[i] == '.' && p[i + 1] == '.'
    &&& (i + 2 == p.len() || is_separator(p[i + 2]))
}

/// `p` starts at a root: its first character is a separator.
pub open spec fn is_rooted(p: Seq<char>) -> bool {
    p.len() > 0 && is_separator(p[0])
}

/// An ASCII letter.
pub open spec fn is_ascii_letter(c: char) -> bool {
    ('a' <= c && c <= 'z') || ('A' <= c && c <= 'Z')
}

/// `p` starts with a drive prefix: an ASCII letter followed by `:`, as in
/// `C:`.
pub open spec fn has_drive_prefix(p: Seq<char>) -> bool {
    p.len() >= 2 && is_ascii_letter(p[0]) && p[1] == ':'
}

/// `p` names something below its base: it is not rooted, has no drive
/// prefix and no `..` component. Empty and `.` components are allowed.
pub open spec fn is_safe_relative(p: Seq<char>) -> bool {
    &&& !is_rooted(p)
    &&& !has_drive_prefix(p)
    &&& forall|i: int| !#[trigger] parent_marker_at(p, i)
}

/// A named path component: non-empty, without separators, not `..`, and
/// not starting with a drive prefix.
pub open spec fn is_path_name(s: Seq<char>) -> bool {
    &&& s.len() > 0
    &&& forall|i: int| 0 <= i < s.len() ==> !is_separator(#[trigger] s[i])
    &&& s != seq!['.', '.']
    &&& !has_drive_prefix(s)
}

/// The components of `segs` joined by `/`.
pub open spec fn join_path(segs: Seq<Seq<char>>) -> Seq<char>
    decreases segs.len(),
{
    if segs.len() == 0 {
        Seq::empty()
    } else if segs.len() == 1 {
        segs[0]
    } else {
        join_path(segs.drop_last()) + seq!['/'] + segs.last()
    }
}

/// `p` without its leading separators.
pub open spec fn strip_leading_separators(p: Seq<char>) -> Seq<char>
    decreases p.len(),
{
    if p.len() > 0 && is_separator(p[0]) {
        strip_leading_separators(p.drop_first())
    } else {
        p
    }
}

fn is_separator_exec(c: char) -> (r: bool)
    ensures
        r == is_separator(c),
{
    c == '/' || c == '\\'
}

fn is_ascii_letter_exec(c: char) -> (r: bool)
    ensures
        r == is_ascii_letter(c),
{
    ('a' <= c && c <= 'z') || ('A' <= c && c <= 'Z')
}

/// Accepts `path` when it is relative and has no `..` component; refuses it
/// with `UnsafePath` when it is rooted, carries a drive prefix, or climbs
/// out through `..`.
pub fn ensure_safe_relative(path: &str) -> (r: Result<(), StoreError>)
    ensures
        r is Ok <==> is_safe_relative(path@),
        r is Err ==> r == Err::<(), StoreError>(StoreError::UnsafePath),
{
    let n = path.unicode_len();
    if n > 0 && is_separator_exec(path.get_char(0)) {
        return Err(StoreError::UnsafePath);
    }
    if n >= 2 && path.get_char(1) == ':' && is_ascii_letter_exec(path.get_char(0)) {
        return Err(StoreError::UnsafePath);
    }
    let mut i: usize = 0;
    while i < n
        invariant
            n == path@.len(),
            i <= n,
            forall|j: int| 0 <= j < i ==> !#[trigger] parent_marker_at(path@, j),
        decreases n - i,
    {
        if n - i >= 2 && (i == 0 || is_separator_exec(path.get_char(i - 1))) && path.get_char(i)
            == '.' && path.get_char(i + 1) == '.' && (i + 2 == n || is_separator_exec(
            path.get_char(i + 2),
        )) {
            assert(parent_marker_at(path@, i as int));
            return Err(StoreError::UnsafePath);
        }
        i = i + 1;
    }
    assert forall|j: int| !#[trigger] parent_marker_at(path@, j) by {
        if 0 <= j < n {
        }
    }
    Ok(())
}

/// `path` without its leading `/` and `\\` characters.
pub fn trim_leading_separators(path: &str) -> (r: &str)
    ensures
        r@ == strip_leading_separators(path@),
{
    let n = path.unicode_len();
    let mut i: usize = 0;
    assert(path@.subrange(0, n as int) =~= path@);
    while i < n && is_separator_exec(path.get_char(i))
        invariant
            n == path@.len(),
            i <= n,
            strip_leading_separators(path@) == strip_leading_separators(
                path@.subrange(i as int, n as int),
            ),
        decreases n - i,
    {
        assert(path@.subrange(i as int, n as int).drop_first() =~= path@.subrange(
            i + 1,
            n as int,
        ));
        i = i + 1;
    }
    path.substring_char(i, n)
}

proof fn lemma_join_facts(segs: Seq<Seq<char>>)
    requires
        segs.len() > 0,
        forall|k: int| 0 <= k < segs.len() ==> is_path_name(#[trigger] segs[k]),
    ensures
        join_path(segs).len() > 0,
        segs[0].is_prefix_of(join_path(segs)),
        segs.len() > 1 ==> join_path(segs)[segs[0].len() as int] == '/',
        forall|i: int| !#[trigger] parent_marker_at(join_path(segs), i),
    decreases segs.len(),
{
    let p = join_path(segs);
    if segs.len() == 1 {
        let s = segs[0];
        assert(is_path_name(s));
        assert forall|i: int| !#[trigger] parent_marker_at(p, i) by {
            if parent_marker_at(p, i) {
                if i > 0 {
                    assert(is_separator(s[i - 1]));
                } else if s.len() > 2 {
                    assert(is_separator(s[2]));
                } else {
                    assert(s =~= seq!['.', '.']);
                }
            }
        }
    } else {
        let init = segs.drop_last();
        let last = segs.last();
        assert(is_path_name(segs[segs.len() - 1]));
        assert forall|k: int| 0 <= k < init.len() implies is_path_name(#[trigger] init[k]) by {
            assert(init[k] == segs[k]);
        }
        lemma_join_facts(init);
        let j = join_path(init);
        assert(p == j + seq!['/'] + last);
        assert(init[0] == segs[0]);
        assert forall|i: int| 0 <= i < segs[0].len() implies segs[0][i] == p[i] by {
            assert(j[i] == p[i]);
        }
        if init.len() > 1 {
            assert(p[segs[0].len() as int] == j[segs[0].len() as int]);
        } else {
            assert(j == segs[0]);
        }
        assert forall|i: int| !#[trigger] parent_marker_at(p, i) by {
            if parent_marker_at(p, i) {
                if i + 2 <= j.len() {
                    assert(i > 0 ==> p[i - 1] == j[i - 1]);
                    assert(i + 2 < j.len() ==> p[i + 2] == j[i + 2]);
                    assert(parent_marker_at(j, i));
                } else if i + 1 == j.len() {
                    assert(p[i + 1] == '/');
                } else if i == j.len() {
                    assert(p[i] == '/');
                } else {
                    let k = i - j.len() - 1;
                    assert(p[i] == last[k]);
                    if k > 0 {
                        assert(p[i - 1] == last[k - 1]);
                        assert(is_separator(last[k - 1]));
                    } else if last.len() > 2 {
                        assert(p[i + 2] == last[2]);
                        assert(is_separator(last[2]));
                    } else {
                        assert(p[i + 1] == last[1]);
                        assert(last =~= seq!['.', '.']);
                    }
                }
            }
        }
    }
}

/// A path made of named components (which may be `.`) joined by `/` is
/// accepted as relative.
pub proof fn lemma_named_components_accepted(segs: Seq<Seq<char>>)
    requires
        forall|k: int| 0 <= k < segs.len() ==> is_path_name(#[trigger] segs[k]),
    ensures
        is_safe_relative(join_path(segs)),
{
    if segs.len() > 0 {
        lemma_join_facts(segs);
        let p = join_path(segs);
        let s0 = segs[0];
        assert(is_path_name(s0));
        assert(p[0] == s0[0]);
        assert(!is_separator(s0[0]));
        if p.len() >= 2 {
            if s0.len() >= 2 {
                assert(p[1] == s0[1]);
            } else {
                assert(p[1] == '/');
            }
        }
    }
}

proof fn lemma_parent_marker_in_join(segs: Seq<Seq<char>>, k: int)
    requires
        0 <= k < segs.len(),
        segs[k] == seq!['.', '.'],
    ensures
        exists|i: int| parent_marker_at(join_path(segs), i),
    decreases segs.len(),
{
    let p = join_path(segs);
    if segs.len() == 1 {
        assert(parent_marker_at(p, 0));
    } else {
        let init = segs.drop_last();
        let j = join_path(init);
        assert(p == j + seq!['/'] + segs.last());
        if k == segs.len() - 1 {
            assert(parent_marker_at(p, j.len() + 1 as int));
        } else {
            assert(init[k] == segs[k]);
            lemma_parent_marker_in_join(init, k);
            let i = choose|i: int| parent_marker_at(j, i);
            assert(p[i] == j[i] && p[i + 1] == j[i + 1]);
            assert(i > 0 ==> p[i - 1] == j[i - 1]);
            assert(i + 2 < j.len() ==> p[i + 2] == j[i + 2]);
            assert(parent_marker_at(p, i));
        }
    }
}

/// A path with a `..` component is refused, wherever the component stands,
/// and so is every rooted path.
pub proof fn lemma_parent_component_rejected(segs: Seq<Seq<char>>, k: int)
    requires
        0 <= k < segs.len(),
        segs[k] == seq!['.', '.'],
    ensures
        !is_safe_relative(join_path(segs)),
        forall|p: Seq<char>| is_rooted(p) ==> !#[trigger] is_safe_relative(p),
{
    lemma_parent_marker_in_join(segs, k);
}

} // verus!
