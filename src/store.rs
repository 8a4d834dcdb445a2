//! The layout of stored images, `images/<category>/<session>/<filename>`,
//! and the checks that every path built from caller input goes through.
use vstd::prelude::*;
use vstd::string::StrSliceExecFns;
use vstd::string::StringExecFns;
use crate::error::StoreError;
use crate::guard::{
    ensure_safe_relative, is_path_name, is_safe_relative, is_separator, join_path,
    strip_leading_separators, trim_leading_separators,
};
use crate::guard::lemma_named_components_accepted;
use crate::segment::{
    is_dot_marker, is_safe_segment, lemma_sanitized_is_safe, mapped, sanitize_segment, sanitized,
    trim_dashes, trim_end_dashes, trim_start_dashes,
};

verus! {

/// The directory below the storage root that holds every image.
pub open spec fn images_segment() -> Seq<char> {
    seq!['i', 'm', 'a', 'g', 'e', 's']
}

/// An identifier that can name one session directory: a named path
/// component other than `.`.
pub open spec fn is_session_name(s: Seq<char>) -> bool {
    is_path_name(s) && s != seq!['.']
}

/// The relative path of the directory that holds a session's images in one
/// category.
pub open spec fn session_dir(category: Seq<char>, session: Seq<char>) -> Seq<char> {
    join_path(seq![images_segment(), category, session])
}

/// The relative path of one stored image.
pub open spec fn image_path(category: Seq<char>, session: Seq<char>, filename: Seq<char>) -> Seq<
    char,
> {
    join_path(seq![images_segment(), category, session, filename])
}

/// Where an image is stored: its sanitized category, its session identifier
/// and its sanitized file name.
pub struct ImageLocation {
    pub category: String,
    pub session_id: String,
    pub filename: String,
}

impl ImageLocation {
    /// Category and file name are sanitized segments, and the session
    /// identifier names one directory.
    pub open spec fn wf(&self) -> bool {
        &&& is_safe_segment(self.category@) && is_path_name(self.category@)
        &&& is_session_name(self.session_id@)
        &&& is_safe_segment(self.filename@) && is_path_name(self.filename@)
    }

    /// The directory the image is written to, relative to the storage root.
    pub open spec fn dir_spec(&self) -> Seq<char> {
        session_dir(self.category@, self.session_id@)
    }

    /// The image's path relative to the storage root: the handle that a
    /// caller keeps to load it again.
    pub open spec fn path_spec(&self) -> Seq<char> {
        image_path(self.category@, self.session_id@, self.filename@)
    }

    /// The directory to create before the image is written, relative to the
    /// storage root, with `/` between components.
    pub fn directory(&self) -> (r: String)
        ensures
            r@ == self.dir_spec(),
    {
        session_dir_of(self.category.as_str(), self.session_id.as_str())
    }

    /// The image's relative path with `/` between components.
    pub fn relative_path(&self) -> (r: String)
        ensures
            r@ == self.path_spec(),
            self.wf() ==> is_safe_relative(r@) && strip_leading_separators(r@) == r@,
    {
        let mut r = self.directory();
        r.append("/");
        r.append(self.filename.as_str());
        proof {
            reveal_strlit("/");
            let s = seq![images_segment(), self.category@, self.session_id@, self.filename@];
            assert(s.drop_last() =~= seq![images_segment(), self.category@, self.session_id@]);
            assert(join_path(s) == join_path(s.drop_last()) + seq!['/'] + self.filename@);
            assert("/"@ =~= seq!['/']);
        }
        assert(r@ =~= self.path_spec());
        proof {
            if self.wf() {
                lemma_location_path_safe(self.category@, self.session_id@, self.filename@);
            }
        }
        r
    }
}

fn session_dir_of(category: &str, session_id: &str) -> (r: String)
    ensures
        r@ == session_dir(category@, session_id@),
{
    let mut r = String::from_str("images/");
    r.append(category);
    r.append("/");
    r.append(session_id);
    proof {
        reveal_strlit("images/");
        reveal_strlit("/");
        let s = seq![images_segment(), category@, session_id@];
        assert(s.drop_last().drop_last() =~= seq![images_segment()]);
        assert(s.drop_last() =~= seq![images_segment(), category@]);
        assert(join_path(seq![images_segment()]) == images_segment());
        assert(join_path(s.drop_last()) == images_segment() + seq!['/'] + category@);
        assert(join_path(s) == join_path(s.drop_last()) + seq!['/'] + session_id@);
        assert("images/"@ =~= images_segment() + seq!['/']);
        assert("/"@ =~= seq!['/']);
    }
    assert(r@ =~= session_dir(category@, session_id@));
    r
}

/// Accepts a session identifier that names exactly one directory. An empty
/// identifier is `EmptyInput`; one with a separator, a leading drive prefix,
/// or equal to `.` or `..`, is `UnsafePath`.
pub fn check_session_id(session_id: &str) -> (r: Result<(), StoreError>)
    ensures
        r is Ok <==> is_session_name(session_id@),
        session_id@.len() == 0 ==> r == Err::<(), StoreError>(StoreError::EmptyInput),
        session_id@.len() > 0 && !is_session_name(session_id@) ==> r == Err::<(), StoreError>(
            StoreError::UnsafePath,
        ),
{
    let n = session_id.unicode_len();
    if n == 0 {
        return Err(StoreError::EmptyInput);
    }
    let mut i: usize = 0;
    while i < n
        invariant
            n == session_id@.len(),
            i <= n,
            forall|j: int| 0 <= j < i ==> !is_separator(#[trigger] session_id@[j]),
        decreases n - i,
    {
        let c = session_id.get_char(i);
        if c == '/' || c == '\\' {
            return Err(StoreError::UnsafePath);
        }
        i = i + 1;
    }
    if n >= 2 && session_id.get_char(1) == ':' {
        let c = session_id.get_char(0);
        if ('a' <= c && c <= 'z') || ('A' <= c && c <= 'Z') {
            return Err(StoreError::UnsafePath);
        }
    }
    if n <= 2 && session_id.get_char(0) == '.' && (n == 1 || session_id.get_char(1) == '.') {
        assert(n == 1 ==> session_id@ =~= seq!['.']);
        assert(n == 2 ==> session_id@ =~= seq!['.', '.']);
        return Err(StoreError::UnsafePath);
    }
    assert(session_id@ != seq!['.'] && session_id@ != seq!['.', '.']) by {
        if n == 1 {
            assert(seq!['.'][0] == '.');
        }
        if n == 2 {
            assert(seq!['.', '.'][0] == '.' && seq!['.', '.'][1] == '.');
        }
    }
    Ok(())
}

/// Where an image saved under `category`, `session_id` and `filename` is
/// stored: category and file name sanitized, the session identifier as it
/// is. Fails when the session identifier cannot name one directory.
pub fn locate_image(category: &str, session_id: &str, filename: &str) -> (r: Result<
    ImageLocation,
    StoreError,
>)
    ensures
        match r {
            Ok(loc) => {
                &&& is_session_name(session_id@)
                &&& loc.wf()
                &&& loc.category@ == sanitized(category@)
                &&& loc.session_id@ == session_id@
                &&& loc.filename@ == sanitized(filename@)
            },
            Err(e) => {
                &&& !is_session_name(session_id@)
                &&& session_id@.len() == 0 ==> e == StoreError::EmptyInput
                &&& session_id@.len() > 0 ==> e == StoreError::UnsafePath
            },
        },
{
    match check_session_id(session_id) {
        Ok(()) => {},
        Err(e) => {
            return Err(e);
        },
    }
    let loc = ImageLocation {
        category: sanitize_segment(category),
        session_id: String::from_str(session_id),
        filename: sanitize_segment(filename),
    };
    proof {
        lemma_sanitized_is_name(category@);
        lemma_sanitized_is_name(filename@);
    }
    Ok(loc)
}

/// Turns a handle handed back by a caller into the relative path to read:
/// leading separators are dropped, then the rest must pass
/// `ensure_safe_relative`, else `UnsafePath`.
pub fn resolve_handle(handle: &str) -> (r: Result<String, StoreError>)
    ensures
        r is Ok <==> is_safe_relative(strip_leading_separators(handle@)),
        r matches Ok(p) ==> p@ == strip_leading_separators(handle@),
        r is Err ==> r == Err::<String, StoreError>(StoreError::UnsafePath),
{
    let trimmed = trim_leading_separators(handle);
    match ensure_safe_relative(trimmed) {
        Ok(()) => Ok(String::from_str(trimmed)),
        Err(e) => Err(e),
    }
}

/// The session directories of `session_id` in each listed category.
pub open spec fn session_dirs(categories: Seq<Seq<char>>, session: Seq<char>) -> Seq<Seq<char>> {
    Seq::new(categories.len(), |i: int| session_dir(categories[i], session))
}

/// The directories to remove, relative to the storage root, to delete every
/// image of `session_id`: one per category directory listed under `images`.
/// A blank identifier is `EmptyInput`. An identifier that cannot name a
/// session directory was never saved under, so nothing is to be removed.
pub fn session_directories(session_id: &str, categories: &Vec<String>) -> (r: Result<
    Vec<String>,
    StoreError,
>)
    ensures
        match r {
            Ok(dirs) => {
                &&& session_id@.len() > 0
                &&& is_session_name(session_id@) ==> dirs.deep_view() == session_dirs(
                    categories.deep_view(),
                    session_id@,
                )
                &&& !is_session_name(session_id@) ==> dirs@.len() == 0
            },
            Err(e) => session_id@.len() == 0 && e == StoreError::EmptyInput,
        },
{
    match check_session_id(session_id) {
        Ok(()) => {},
        Err(StoreError::EmptyInput) => {
            return Err(StoreError::EmptyInput);
        },
        Err(_) => {
            return Ok(Vec::new());
        },
    }
    let mut dirs: Vec<String> = Vec::new();
    let mut i: usize = 0;
    while i < categories.len()
        invariant
            i <= categories.len(),
            dirs@.len() == i,
            forall|j: int|
                0 <= j < i ==> #[trigger] dirs@[j]@ == session_dir(categories@[j]@, session_id@),
        decreases categories.len() - i,
    {
        let d = session_dir_of(categories[i].as_str(), session_id);
        dirs.push(d);
        i = i + 1;
    }
    assert(dirs.deep_view() =~= session_dirs(categories.deep_view(), session_id@));
    Ok(dirs)
}

proof fn lemma_sanitized_is_name(s: Seq<char>)
    ensures
        is_path_name(sanitized(s)),
{
    lemma_sanitized_is_safe(s);
    let r = sanitized(s);
    let dd = seq!['.', '.'];
    if r == dd {
        let m = mapped(s);
        if !(trim_dashes(m).len() == 0 || is_dot_marker(trim_dashes(m))) {
            assert(m == dd);
            assert(trim_start_dashes(m) == m);
            assert(trim_end_dashes(m) == m);
        } else {
            assert(r[0] == 'f');
        }
    }
}

proof fn lemma_location_path_safe(category: Seq<char>, session: Seq<char>, filename: Seq<char>)
    requires
        is_path_name(category),
        is_session_name(session),
        is_path_name(filename),
    ensures
        is_safe_relative(image_path(category, session, filename)),
        strip_leading_separators(image_path(category, session, filename)) == image_path(
            category,
            session,
            filename,
        ),
{
    let segs = seq![images_segment(), category, session, filename];
    assert(is_path_name(images_segment()));
    lemma_named_components_accepted(segs);
    let p = image_path(category, session, filename);
    lemma_flat_paths(category, session, filename);
    assert(p[0] == 'i');
}

/// The handle under which an image is saved is accepted by
/// `resolve_handle` unchanged, so a later load reads the very file the save
/// wrote.
pub proof fn lemma_saved_handle_resolves(category: Seq<char>, session: Seq<char>, filename: Seq<
    char,
>)
    requires
        is_session_name(session),
    ensures
        is_safe_relative(image_path(sanitized(category), session, sanitized(filename))),
        strip_leading_separators(image_path(sanitized(category), session, sanitized(filename)))
            == image_path(sanitized(category), session, sanitized(filename)),
{
    lemma_sanitized_is_name(category);
    lemma_sanitized_is_name(filename);
    lemma_location_path_safe(sanitized(category), session, sanitized(filename));
}

/// `p` is `d` itself or lies below the directory `d`.
pub open spec fn is_within(p: Seq<char>, d: Seq<char>) -> bool {
    p == d || (d.len() < p.len() && p.subrange(0, d.len() as int) == d && p[d.len() as int]
        == '/')
}

/// The relative paths of `files` that remain once every directory of `dirs`
/// has been removed with all it holds.
pub open spec fn after_removal(files: Set<Seq<char>>, dirs: Seq<Seq<char>>) -> Set<Seq<char>> {
    files.filter(|p: Seq<char>| forall|k: int| 0 <= k < dirs.len() ==> !is_within(p, #[trigger] dirs[k]))
}

/// Deleting a session's images is idempotent: removing its directories a
/// second time leaves the same files as once, and where no stored file lies
/// in them (a session that never existed) nothing changes.
pub proof fn lemma_delete_idempotent(
    files: Set<Seq<char>>,
    categories: Seq<Seq<char>>,
    session: Seq<char>,
)
    ensures
        after_removal(after_removal(files, session_dirs(categories, session)), session_dirs(categories, session))
            == after_removal(files, session_dirs(categories, session)),
        (forall|p: Seq<char>, k: int|
            files.contains(p) && 0 <= k < categories.len() ==> !#[trigger] is_within(p, session_dirs(categories, session)[k])) ==> after_removal(files, session_dirs(categories, session)) == files,
{
    let d = session_dirs(categories, session);
    assert(after_removal(after_removal(files, d), d) =~= after_removal(files, d));
    if forall|p: Seq<char>, k: int|
        files.contains(p) && 0 <= k < categories.len() ==> !#[trigger] is_within(p, session_dirs(categories, session)[k]) {
        assert(after_removal(files, d) =~= files);
    }
}

/// A name without `/`.
pub open spec fn has_no_slash(s: Seq<char>) -> bool {
    forall|i: int| 0 <= i < s.len() ==> #[trigger] s[i] != '/'
}

proof fn lemma_flat_paths(c: Seq<char>, s: Seq<char>, f: Seq<char>)
    ensures
        session_dir(c, s) == images_segment() + seq!['/'] + c + seq!['/'] + s,
        image_path(c, s, f) == session_dir(c, s) + seq!['/'] + f,
{
    let s3 = seq![images_segment(), c, s];
    let s4 = seq![images_segment(), c, s, f];
    assert(s3.drop_last() =~= seq![images_segment(), c]);
    assert(s3.drop_last().drop_last() =~= seq![images_segment()]);
    assert(s4.drop_last() =~= s3);
    assert(join_path(seq![images_segment()]) == images_segment());
    assert(join_path(seq![images_segment(), c]) == images_segment() + seq!['/'] + c);
}

proof fn lemma_other_session_outside(
    c: Seq<char>,
    c2: Seq<char>,
    s1: Seq<char>,
    s2: Seq<char>,
    f: Seq<char>,
)
    requires
        has_no_slash(c),
        has_no_slash(c2),
        has_no_slash(s1),
        has_no_slash(s2),
        s1 != s2,
    ensures
        !is_within(image_path(c, s2, f), session_dir(c2, s1)),
{
    lemma_flat_paths(c, s2, f);
    lemma_flat_paths(c2, s1, f);
    let p = image_path(c, s2, f);
    let d = session_dir(c2, s1);
    let a: int = 7;
    if is_within(p, d) {
        assert(d.len() <= p.len());
        assert forall|i: int| 0 <= i < d.len() implies p[i] == d[i] by {
            if p != d {
                assert(p.subrange(0, d.len() as int)[i] == p[i]);
            }
        }
        if c.len() < c2.len() {
            assert(p[a + c.len()] == '/');
            assert(d[a + c.len()] == c2[c.len() as int]);
        } else if c.len() > c2.len() {
            assert(d[a + c2.len()] == '/');
            assert(p[a + c2.len()] == c[c2.len() as int]);
        } else {
            let b = a + c.len() + 1;
            if s1.len() < s2.len() {
                assert(p[b + s1.len()] == s2[s1.len() as int]);
                assert(p.len() > d.len());
            } else if s1.len() > s2.len() {
                assert(d[b + s2.len()] == s1[s2.len() as int]);
                assert(p[b + s2.len()] == '/');
            } else {
                assert forall|i: int| 0 <= i < s1.len() implies s1[i] == s2[i] by {
                    assert(p[b + i] == s2[i]);
                    assert(d[b + i] == s1[i]);
                }
                assert(s1 =~= s2);
            }
        }
    }
}

/// Deleting session `s1` removes its images in every listed category and
/// keeps every image stored under any other session `s2`.
pub proof fn lemma_delete_keeps_other_sessions(
    files: Set<Seq<char>>,
    categories: Seq<Seq<char>>,
    s1: Seq<char>,
    s2: Seq<char>,
    category: Seq<char>,
    filename: Seq<char>,
)
    requires
        is_session_name(s1),
        is_session_name(s2),
        s1 != s2,
        has_no_slash(category),
        forall|k: int| 0 <= k < categories.len() ==> has_no_slash(#[trigger] categories[k]),
    ensures
        files.contains(image_path(category, s2, filename)) ==> after_removal(
            files,
            session_dirs(categories, s1),
        ).contains(image_path(category, s2, filename)),
        forall|k: int|
            0 <= k < categories.len() ==> !after_removal(files, session_dirs(categories, s1)).contains(
                #[trigger] image_path(categories[k], s1, filename),
            ),
{
    let d = session_dirs(categories, s1);
    assert(has_no_slash(s1));
    assert(has_no_slash(s2));
    assert forall|k: int| 0 <= k < d.len() implies !is_within(
        image_path(category, s2, filename),
        #[trigger] d[k],
    ) by {
        lemma_other_session_outside(category, categories[k], s1, s2, filename);
    }
    assert forall|k: int| 0 <= k < categories.len() implies !after_removal(files, d).contains(
        #[trigger] image_path(categories[k], s1, filename),
    ) by {
        lemma_flat_paths(categories[k], s1, filename);
        let p = image_path(categories[k], s1, filename);
        assert(p.subrange(0, d[k].len() as int) =~= d[k]);
        assert(is_within(p, d[k]));
    }
}

} // verus!
