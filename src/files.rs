//! Normalizing the target of a raw file write.
use vstd::prelude::*;
use vstd::string::StrSliceExecFns;
use vstd::string::StringExecFns;
use crate::error::StoreError;

verus! {

/// The characters with the Unicode `White_Space` property, those for which
/// `char::is_whitespace` holds.
pub open spec fn is_white_space(c: char) -> bool {
    ('\u{9}' <= c && c <= '\u{d}') || c == ' ' || c == '\u{85}' || c == '\u{a0}' || c == '\u{1680}'
        || ('\u{2000}' <= c && c <= '\u{200a}') || c == '\u{2028}' || c == '\u{2029}' || c
        == '\u{202f}' || c == '\u{205f}' || c == '\u{3000}'
}

/// `p` is empty or holds white space only.
pub open spec fn is_blank(p: Seq<char>) -> bool {
    forall|i: int| 0 <= i < p.len() ==> is_white_space(#[trigger] p[i])
}

/// The URL scheme prefix `file://`.
pub open spec fn file_scheme() -> Seq<char> {
    seq!['f', 'i', 'l', 'e', ':', '/', '/']
}

/// `p` with every leading repetition of `file://` removed.
pub open spec fn strip_file_scheme(p: Seq<char>) -> Seq<char>
    decreases p.len(),
{
    if p.len() >= 7 && p.subrange(0, 7) == file_scheme() {
        strip_file_scheme(p.subrange(7, p.len() as int))
    } else {
        p
    }
}

fn is_white_space_exec(c: char) -> (r: bool)
    ensures
        r == is_white_space(c),
{
    ('\u{9}' <= c && c <= '\u{d}') || c == ' ' || c == '\u{85}' || c == '\u{a0}' || c == '\u{1680}'
        || ('\u{2000}' <= c && c <= '\u{200a}') || c == '\u{2028}' || c == '\u{2029}' || c
        == '\u{202f}' || c == '\u{205f}' || c == '\u{3000}'
}

fn scheme_at(p: &str, n: usize, i: usize) -> (r: bool)
    requires
        n == p@.len(),
        i <= n,
    ensures
        r == (n - i >= 7 && p@.subrange(i as int, i + 7) == file_scheme()),
{
    if n - i < 7 {
        return false;
    }
    let r = p.get_char(i) == 'f' && p.get_char(i + 1) == 'i' && p.get_char(i + 2) == 'l'
        && p.get_char(i + 3) == 'e' && p.get_char(i + 4) == ':' && p.get_char(i + 5) == '/'
        && p.get_char(i + 6) == '/';
    if r {
        assert(p@.subrange(i as int, i + 7) =~= file_scheme());
    } else {
        assert(p@.subrange(i as int, i + 7) != file_scheme()) by {
            if p@.subrange(i as int, i + 7) == file_scheme() {
                assert(p@.subrange(i as int, i + 7)[0] == p@[i as int]);
                assert(p@.subrange(i as int, i + 7)[1] == p@[i + 1]);
                assert(p@.subrange(i as int, i + 7)[2] == p@[i + 2]);
                assert(p@.subrange(i as int, i + 7)[3] == p@[i + 3]);
                assert(p@.subrange(i as int, i + 7)[4] == p@[i + 4]);
                assert(p@.subrange(i as int, i + 7)[5] == p@[i + 5]);
                assert(p@.subrange(i as int, i + 7)[6] == p@[i + 6]);
            }
        }
    }
    r
}

/// The path that a raw file write goes to: `EmptyInput` when `path` is
/// blank, else `path` with its leading `file://` prefixes removed.
pub fn normalize_target_path(path: &str) -> (r: Result<String, StoreError>)
    ensures
        r is Err <==> is_blank(path@),
        r is Err ==> r == Err::<String, StoreError>(StoreError::EmptyInput),
        r matches Ok(p) ==> p@ == strip_file_scheme(path@),
{
    let n = path.unicode_len();
    let mut i: usize = 0;
    while i < n && is_white_space_exec(path.get_char(i))
        invariant
            n == path@.len(),
            i <= n,
            forall|j: int| 0 <= j < i ==> is_white_space(#[trigger] path@[j]),
        decreases n - i,
    {
        i = i + 1;
    }
    if i == n {
        return Err(StoreError::EmptyInput);
    }
    assert(!is_blank(path@)) by {
        assert(!is_white_space(path@[i as int]));
    }
    let mut k: usize = 0;
    assert(path@.subrange(0, n as int) =~= path@);
    while scheme_at(path, n, k)
        invariant
            n == path@.len(),
            k <= n,
            strip_file_scheme(path@) == strip_file_scheme(path@.subrange(k as int, n as int)),
        decreases n - k,
    {
        assert(path@.subrange(k as int, n as int).subrange(0, 7) =~= path@.subrange(
            k as int,
            k + 7,
        ));
        assert(path@.subrange(k as int, n as int).subrange(7, n - k) =~= path@.subrange(
            k + 7,
            n as int,
        ));
        k = k + 7;
    }
    assert(path@.subrange(k as int, n as int).len() < 7 || path@.subrange(k as int, n as int).subrange(
        0,
        7,
    ) =~= path@.subrange(k as int, k + 7));
    Ok(String::from_str(path.substring_char(k, n)))
}

} // verus!
