//! Turning an untrusted string into one filesystem-safe path segment.
use vstd::prelude::*;
use vstd::string::StrSliceExecFns;
use vstd::string::StringExecFns;

verus! {

/// The characters a sanitized segment may hold: ASCII letters and digits,
/// `-`, `_` and `.`.
pub open spec fn is_segment_char(c: char) -> bool {
    ('a' <= c && c <= 'z') || ('A' <= c && c <= 'Z') || ('0' <= c && c <= '9') || c == '-'
        || c == '_' || c == '.'
}

/// A character kept as it is when allowed, and replaced by `-` otherwise.
pub open spec fn map_char(c: char) -> char {
    if is_segment_char(c) {
        c
    } else {
        '-'
    }
}

/// Every character of `s` mapped by `map_char`.
pub open spec fn mapped(s: Seq<char>) -> Seq<char> {
    Seq::new(s.len(), |i: int| map_char(s[i]))
}

/// `s` without its leading `-` characters.
pub open spec fn trim_start_dashes(s: Seq<char>) -> Seq<char>
    decreases s.len(),
{
    if s.len() > 0 && s[0] == '-' {
        trim_start_dashes(s.drop_first())
    } else {
        s
    }
}

/// `s` without its trailing `-` characters.
pub open spec fn trim_end_dashes(s: Seq<char>) -> Seq<char>
    decreases s.len(),
{
    if s.len() > 0 && s.last() == '-' {
        trim_end_dashes(s.drop_last())
    } else {
        s
    }
}

/// `s` with its leading and trailing `-` removed.
pub open spec fn trim_dashes(s: Seq<char>) -> Seq<char> {
    trim_end_dashes(trim_start_dashes(s))
}

/// The segment used where the sanitized input would be empty or a
/// directory marker.
pub open spec fn fallback_segment() -> Seq<char> {
    seq!['f', 'i', 'l', 'e']
}

/// `.` or `..`: names that refer to a directory rather than to an entry.
pub open spec fn is_dot_marker(s: Seq<char>) -> bool {
    s == seq!['.'] || s == seq!['.', '.']
}

/// The sanitized form of `s`: its mapped characters, unless once trimmed of
/// `-` they are empty, `.` or `..`, in which case `file`.
pub open spec fn sanitized(s: Seq<char>) -> Seq<char> {
    let m = mapped(s);
    let t = trim_dashes(m);
    if t.len() == 0 || is_dot_marker(t) {
        fallback_segment()
    } else {
        m
    }
}

/// Whether `s` is a well-formed segment: non-empty and made of segment
/// characters only.
pub open spec fn is_safe_segment(s: Seq<char>) -> bool {
    s.len() > 0 && forall|i: int| 0 <= i < s.len() ==> is_segment_char(#[trigger] s[i])
}

fn is_segment_char_exec(c: char) -> (r: bool)
    ensures
        r == is_segment_char(c),
{
    ('a' <= c && c <= 'z') || ('A' <= c && c <= 'Z') || ('0' <= c && c <= '9') || c == '-'
        || c == '_' || c == '.'
}

/// Maps `value` to a path segment that holds only `[A-Za-z0-9._-]`: each
/// other character becomes `-`. Where the result, trimmed of `-`, would be
/// empty, `.` or `..`, the segment is `file` instead.
pub fn sanitize_segment(value: &str) -> (r: String)
    ensures
        r@ == sanitized(value@),
{
    let n = value.unicode_len();
    let mut m: Vec<char> = Vec::new();
    let mut out = String::new();
    let mut i: usize = 0;
    while i < n
        invariant
            n == value@.len(),
            i <= n,
            m@ == mapped(value@).subrange(0, i as int),
            out@ == m@,
        decreases n - i,
    {
        let c = value.get_char(i);
        if is_segment_char_exec(c) {
            m.push(c);
            out.append(value.substring_char(i, i + 1));
            assert(value@.subrange(i as int, i + 1) =~= seq![c]);
        } else {
            m.push('-');
            out.append("-");
            proof {
                reveal_strlit("-");
            }
            assert("-"@ =~= seq!['-']);
        }
        assert(out@ =~= m@);
        i = i + 1;
        assert(m@ =~= mapped(value@).subrange(0, i as int));
    }
    assert(m@ =~= mapped(value@));
    let mut lo: usize = 0;
    while lo < n && m[lo] == '-'
        invariant
            n == m@.len(),
            lo <= n,
            trim_start_dashes(m@) == trim_start_dashes(m@.subrange(lo as int, n as int)),
        decreases n - lo,
    {
        assert(m@.subrange(lo as int, n as int).drop_first() =~= m@.subrange(
            lo + 1,
            n as int,
        ));
        lo = lo + 1;
    }
    assert(trim_start_dashes(m@) == m@.subrange(lo as int, n as int));
    let mut hi: usize = n;
    while hi > lo && m[hi - 1] == '-'
        invariant
            n == m@.len(),
            lo <= hi <= n,
            trim_dashes(m@) == trim_end_dashes(m@.subrange(lo as int, hi as int)),
        decreases hi,
    {
        assert(m@.subrange(lo as int, hi as int).drop_last() =~= m@.subrange(
            lo as int,
            hi - 1,
        ));
        hi = hi - 1;
    }
    let ghost t = m@.subrange(lo as int, hi as int);
    assert(trim_dashes(m@) == t);
    let len = hi - lo;
    let dots = (len == 1 && m[lo] == '.') || (len == 2 && m[lo] == '.' && m[lo + 1] == '.');
    assert(is_dot_marker(t) == dots) by {
        if len == 1 {
            assert(dots ==> t =~= seq!['.']);
        }
        if len == 2 {
            assert(dots ==> t =~= seq!['.', '.']);
        }
    }
    if len == 0 || dots {
        proof {
            reveal_strlit("file");
        }
        assert("file"@ =~= fallback_segment());
        String::from_str("file")
    } else {
        out
    }
}

proof fn lemma_all_dashes_trim_empty(s: Seq<char>)
    requires
        forall|i: int| 0 <= i < s.len() ==> s[i] == '-',
    ensures
        trim_start_dashes(s).len() == 0,
    decreases s.len(),
{
    if s.len() > 0 {
        lemma_all_dashes_trim_empty(s.drop_first());
    }
}

proof fn lemma_mapped_safe(s: Seq<char>)
    ensures
        forall|i: int| 0 <= i < mapped(s).len() ==> is_segment_char(#[trigger] mapped(s)[i]),
{
}

proof fn lemma_fallback_stable()
    ensures
        sanitized(fallback_segment()) == fallback_segment(),
{
    let f = fallback_segment();
    assert(mapped(f) =~= f);
    assert(trim_start_dashes(f) == f);
    assert(trim_end_dashes(f) == f);
}

/// A sanitized segment is never empty and holds only ASCII letters, digits,
/// `-`, `_` and `.`.
pub proof fn lemma_sanitized_is_safe(s: Seq<char>)
    ensures
        is_safe_segment(sanitized(s)),
{
    lemma_mapped_safe(s);
    let m = mapped(s);
    if trim_dashes(m).len() != 0 && !is_dot_marker(trim_dashes(m)) {
        assert(m.len() > 0) by {
            if m.len() == 0 {
                assert(trim_start_dashes(m) == m);
                assert(trim_end_dashes(m) == m);
            }
        }
    }
}

/// Input that is empty, or holds no allowed character at all, sanitizes to
/// `file`.
pub proof fn lemma_unsafe_input_gives_fallback(s: Seq<char>)
    requires
        forall|i: int| 0 <= i < s.len() ==> !is_segment_char(#[trigger] s[i]),
    ensures
        sanitized(s) == fallback_segment(),
{
    let m = mapped(s);
    assert forall|i: int| 0 <= i < m.len() implies m[i] == '-' by {
        assert(!is_segment_char(s[i]));
    }
    lemma_all_dashes_trim_empty(m);
    let e = trim_start_dashes(m);
    assert(trim_end_dashes(e) == e);
}

/// Sanitizing is idempotent: a sanitized segment sanitizes to itself.
pub proof fn lemma_sanitize_idempotent(s: Seq<char>)
    ensures
        sanitized(sanitized(s)) == sanitized(s),
{
    let m = mapped(s);
    if trim_dashes(m).len() == 0 || is_dot_marker(trim_dashes(m)) {
        lemma_fallback_stable();
    } else {
        lemma_mapped_safe(s);
        assert(mapped(m) =~= m);
    }
}

} // verus!
