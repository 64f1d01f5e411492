//! Project indexing: project-relative path normalization, watcher hints,
//! rename detection, and the plans that a reconciliation or a hint-only
//! update produces from file metadata and content digests. Paths are read
//! as the host reads them (`windows`): on Windows `/` and `\` both separate,
//! `C:` is a drive prefix and two leading separators start a server prefix;
//! elsewhere only `/` separates and a leading `/` is the root.
use vstd::prelude::*;
use vstd::string::StrSliceExecFns;
use vstd::string::StringExecFns;
use crate::collections::{views, StrSet};
use crate::text::{is_blank, str_eq, str_is_blank, strictly_sorted};

verus! {

/// What is known of one indexed file.
pub struct IndexedFileSnapshot {
    pub relative_path: String,
    pub size_bytes: u64,
    pub modified_unix_ns: u64,
    pub content_sha256: String,
}

impl Clone for IndexedFileSnapshot {
    fn clone(&self) -> (r: Self)
        ensures
            r.relative_path@ == self.relative_path@,
            r.size_bytes == self.size_bytes,
            r.modified_unix_ns == self.modified_unix_ns,
            r.content_sha256@ == self.content_sha256@,
    {
        IndexedFileSnapshot {
            relative_path: self.relative_path.clone(),
            size_bytes: self.size_bytes,
            modified_unix_ns: self.modified_unix_ns,
            content_sha256: self.content_sha256.clone(),
        }
    }
}

/// One change between two index states.
pub struct IndexChange {
    pub change_kind: String,
    pub relative_path: String,
    pub previous_path: Option<String>,
    pub before_sha256: Option<String>,
    pub after_sha256: Option<String>,
}

pub struct IndexStats {
    pub files_seen: usize,
    pub files_hashed: usize,
    pub files_unchanged: usize,
    pub symlinks_skipped: usize,
    pub total_bytes: u64,
    pub hint_count: usize,
    pub hint_hits: usize,
    pub elapsed_ms: u64,
}

/// The outcome of a baseline or a reconciliation.
pub struct IndexPlan {
    pub files: Vec<IndexedFileSnapshot>,
    pub touched_files: Vec<IndexedFileSnapshot>,
    pub changes: Vec<IndexChange>,
    pub stats: IndexStats,
}

/// The outcome of a hint-only update.
pub struct HintPlan {
    pub file_count: u64,
    pub touched_files: Vec<IndexedFileSnapshot>,
    pub changes: Vec<IndexChange>,
    pub stats: IndexStats,
}

/// A refused indexing step, with a stable code.
pub struct IndexError {
    pub code: &'static str,
    pub message: String,
}

impl IndexError {
    /// The error as text: `code: message`.
    pub fn to_string(&self) -> (r: String)
        ensures
            r@ == self.code@ + ": "@ + self.message@,
    {
        proof {
            reveal_strlit(": ");
        }
        String::from_str(self.code).concat(": ").concat(self.message.as_str())
    }

    pub fn new(code: &'static str, message: String) -> (r: Self)
        ensures
            r.code == code,
            r.message@ == message@,
    {
        IndexError { code, message }
    }
}

/// A path separator on the host: `/`, and on Windows `\\` too.
pub open spec fn is_sep(windows: bool, c: char) -> bool {
    c == '/' || (windows && c == '\\')
}

/// A drive prefix, as Windows reads one: a letter and a colon (`C:`).
pub open spec fn is_drive(s: Seq<char>) -> bool {
    s.len() >= 2 && s[1] == ':' && (('a' as u32 <= s[0] as u32 <= 'z' as u32) || ('A' as u32 <= s[0]
        as u32 <= 'Z' as u32))
}

/// An absolute path on the host. On Windows: a drive with a root (`C:\`),
/// or a path that starts with two separators (a server, device or verbatim
/// prefix, which carries its own root). Elsewhere: a path that starts with
/// the root `/`.
pub open spec fn is_absolute_path(windows: bool, s: Seq<char>) -> bool {
    if windows {
        (s.len() >= 2 && is_sep(windows, s[0]) && is_sep(windows, s[1])) || (is_drive(s) && s.len() >= 3
            && is_sep(windows, s[2]))
    } else {
        s.len() > 0 && s[0] == '/'
    }
}

/// A path that starts with a root (a separator) or, on Windows, a prefix (a
/// drive or a server): neither is a normal piece of a relative path.
pub open spec fn has_root_or_prefix(windows: bool, s: Seq<char>) -> bool {
    (s.len() > 0 && is_sep(windows, s[0])) || (windows && is_drive(s))
}

/// The text between separators, in order (empty pieces included).
pub open spec fn split_path(windows: bool, s: Seq<char>) -> Seq<Seq<char>>
    decreases s.len(),
{
    if s.len() == 0 {
        seq![Seq::<char>::empty()]
    } else if is_sep(windows, s.last()) {
        split_path(windows, s.drop_last()).push(Seq::<char>::empty())
    } else {
        let p = split_path(windows, s.drop_last());
        p.update(p.len() - 1, p.last().push(s.last()))
    }
}

/// The pieces that name something: not empty and not `.`.
pub open spec fn kept_parts(parts: Seq<Seq<char>>) -> Seq<Seq<char>>
    decreases parts.len(),
{
    if parts.len() == 0 {
        Seq::empty()
    } else if parts.last().len() == 0 || parts.last() == "."@ {
        kept_parts(parts.drop_last())
    } else {
        kept_parts(parts.drop_last()).push(parts.last())
    }
}

/// Pieces joined with `/`.
pub open spec fn join_parts(parts: Seq<Seq<char>>) -> Seq<char>
    decreases parts.len(),
{
    if parts.len() == 0 {
        Seq::empty()
    } else if parts.len() == 1 {
        parts[0]
    } else {
        join_parts(parts.drop_last()) + "/"@ + parts.last()
    }
}

/// Whether a relative path leaves the directory it is relative to, or
/// starts with a `.` component: it has a `..` piece or begins with `.`.
pub open spec fn escapes(windows: bool, s: Seq<char>) -> bool {
    split_path(windows, s)[0] == "."@ || exists|i: int|
        0 <= i < split_path(windows, s).len() && #[trigger] split_path(windows, s)[i] == ".."@
}

/// The normal form of a project-relative path: its pieces joined with `/`,
/// or why it has none.
pub open spec fn normalized_path(windows: bool, s: Seq<char>) -> Result<Seq<char>, (Seq<char>, Seq<char>)> {
    if is_absolute_path(windows, s) {
        Err(("PROJECT_PATH_INVALID"@, "path must be project-relative"@))
    } else {
        normalized_relative(windows, s)
    }
}

/// The normal form of a path below a root: a root or a prefix is no
/// normal piece either.
pub open spec fn normalized_relative(windows: bool, s: Seq<char>) -> Result<Seq<char>, (Seq<char>, Seq<char>)> {
    if has_root_or_prefix(windows, s) || escapes(windows, s) {
        Err(("PROJECT_PATH_ESCAPE"@, "relative project path contains non-normal components"@))
    } else if kept_parts(split_path(windows, s)).len() == 0 {
        Err(("PROJECT_PATH_INVALID"@, "empty relative file path"@))
    } else {
        Ok(join_parts(kept_parts(split_path(windows, s))))
    }
}

proof fn lemma_kept_parts_len(parts: Seq<Seq<char>>)
    ensures
        kept_parts(parts).len() <= parts.len(),
    decreases parts.len(),
{
    if parts.len() > 0 {
        lemma_kept_parts_len(parts.drop_last());
    }
}

proof fn lemma_split_path_nonempty(windows: bool, s: Seq<char>)
    ensures
        split_path(windows, s).len() >= 1,
    decreases s.len(),
{
    if s.len() > 0 {
        lemma_split_path_nonempty(windows, s.drop_last());
    }
}

/// A piece of text without a separator.
pub open spec fn plain(windows: bool, p: Seq<char>) -> bool {
    forall|i: int| 0 <= i < p.len() ==> !is_sep(windows, #[trigger] p[i])
}

/// Appending text without a separator extends the last piece.
proof fn lemma_split_plain_append(windows: bool, x: Seq<char>, y: Seq<char>)
    requires
        plain(windows, y),
    ensures
        split_path(windows, x + y).len() == split_path(windows, x).len(),
        split_path(windows, x + y) == split_path(windows, x).update(
            split_path(windows, x).len() - 1,
            split_path(windows, x).last() + y,
        ),
    decreases y.len(),
{
    lemma_split_path_nonempty(windows, x);
    if y.len() == 0 {
        assert(x + y =~= x);
        assert(split_path(windows, x).last() + y =~= split_path(windows, x).last());
        assert(split_path(windows, x).update(split_path(windows, x).len() - 1, split_path(windows, x).last() + y) =~= split_path(windows, x));
    } else {
        let y2 = y.drop_last();
        assert(plain(windows, y2)) by {
            assert forall|i: int| 0 <= i < y2.len() implies !is_sep(windows, #[trigger] y2[i]) by {
                assert(y2[i] == y[i]);
            }
        }
        lemma_split_plain_append(windows, x, y2);
        assert((x + y).drop_last() =~= x + y2);
        assert((x + y).last() == y.last());
        assert(!is_sep(windows, y[y.len() - 1]));
        assert(split_path(windows, x).last() + y2 + seq![y.last()] =~= split_path(windows, x).last() + y);
        let p = split_path(windows, x + y2);
        assert(!is_sep(windows, (x + y).last()));
        assert(split_path(windows, x + y) == p.update(p.len() - 1, p.last().push((x + y).last())));
        assert(p.last() == split_path(windows, x).last() + y2);
        assert(p.last().push((x + y).last()) =~= split_path(windows, x).last() + y);
        assert(split_path(windows, x + y) =~= split_path(windows, x).update(
            split_path(windows, x).len() - 1,
            split_path(windows, x).last() + y,
        ));
    }
}

/// Every piece of a path is free of separators.
proof fn lemma_split_pieces_plain(windows: bool, s: Seq<char>)
    ensures
        forall|i: int| 0 <= i < split_path(windows, s).len() ==> plain(windows, #[trigger] split_path(windows, s)[i]),
    decreases s.len(),
{
    lemma_split_path_nonempty(windows, s);
    if s.len() > 0 {
        lemma_split_pieces_plain(windows, s.drop_last());
        lemma_split_path_nonempty(windows, s.drop_last());
        let p = split_path(windows, s.drop_last());
        if !is_sep(windows, s.last()) {
            assert(plain(windows, p.last().push(s.last()))) by {
                let q = p.last().push(s.last());
                assert(plain(windows, p[p.len() - 1]));
                assert forall|i: int| 0 <= i < q.len() implies !is_sep(windows, #[trigger] q[i]) by {
                    if i < p.last().len() {
                        assert(q[i] == p[p.len() - 1][i]);
                    }
                }
            }
        } else {
            assert(plain(windows, Seq::<char>::empty()));
        }
    } else {
        assert(plain(windows, Seq::<char>::empty()));
    }
}

/// Splitting pieces joined with `/` gives the pieces back, when none holds
/// a separator.
proof fn lemma_split_join(windows: bool, parts: Seq<Seq<char>>)
    requires
        parts.len() >= 1,
        forall|i: int| 0 <= i < parts.len() ==> plain(windows, #[trigger] parts[i]),
    ensures
        split_path(windows, join_parts(parts)) == parts,
    decreases parts.len(),
{
    if parts.len() == 1 {
        lemma_split_plain_append(windows, Seq::empty(), parts[0]);
        assert(Seq::<char>::empty() + parts[0] =~= parts[0]);
        assert(Seq::<char>::empty() + parts[0] =~= parts[0]);
        assert(split_path(windows, Seq::<char>::empty()) == seq![Seq::<char>::empty()]);
        assert(split_path(windows, parts[0]) =~= parts);
    } else {
        let front = parts.drop_last();
        assert forall|i: int| 0 <= i < front.len() implies plain(windows, #[trigger] front[i]) by {
            assert(front[i] == parts[i]);
        }
        lemma_split_join(windows, front);
        let x = join_parts(front) + "/"@;
        reveal_strlit("/");
        assert(x.drop_last() =~= join_parts(front));
        assert(x.last() == '/');
        assert(split_path(windows, x) == split_path(windows, join_parts(front)).push(Seq::<char>::empty()));
        lemma_split_plain_append(windows, x, parts.last());
        assert(plain(windows, parts[parts.len() - 1]));
        assert(join_parts(parts) == x + parts.last());
        assert(split_path(windows, join_parts(parts)) =~= parts);
    }
}

/// The kept pieces are pieces that name something, taken from the path's
/// pieces; a first piece that names something is kept first.
proof fn lemma_kept_parts_from(parts: Seq<Seq<char>>)
    ensures
        forall|k: int|
            0 <= k < kept_parts(parts).len() ==> (exists|i: int|
                0 <= i < parts.len() && #[trigger] kept_parts(parts)[k] == parts[i]) && kept_parts(
                parts,
            )[k].len() > 0 && kept_parts(parts)[k] != "."@,
        parts.len() > 0 && parts[0].len() > 0 && parts[0] != "."@ ==> kept_parts(parts).len() > 0
            && kept_parts(parts)[0] == parts[0],
    decreases parts.len(),
{
    if parts.len() > 0 {
        let front = parts.drop_last();
        lemma_kept_parts_from(front);
        let kf = kept_parts(front);
        let k = kept_parts(parts);
        assert forall|t: int| 0 <= t < k.len() implies (exists|i: int|
            0 <= i < parts.len() && #[trigger] k[t] == parts[i]) && k[t].len() > 0 && k[t] != "."@ by {
            if t < kf.len() {
                assert(k[t] == kf[t]);
                let i = choose|i: int| 0 <= i < front.len() && kf[t] == front[i];
                assert(parts[i] == front[i]);
            } else {
                assert(k[t] == parts[parts.len() - 1]);
            }
        }
        if parts.len() > 1 {
            assert(front[0] == parts[0]);
        }
    }
}

/// When every piece names something, all are kept.
proof fn lemma_kept_parts_all(parts: Seq<Seq<char>>)
    requires
        forall|i: int| 0 <= i < parts.len() ==> (#[trigger] parts[i]).len() > 0 && parts[i] != "."@,
    ensures
        kept_parts(parts) == parts,
    decreases parts.len(),
{
    if parts.len() > 0 {
        let front = parts.drop_last();
        assert forall|i: int| 0 <= i < front.len() implies (#[trigger] front[i]).len() > 0 && front[i]
            != "."@ by {
            assert(front[i] == parts[i]);
        }
        lemma_kept_parts_all(front);
        assert(parts[parts.len() - 1].len() > 0);
        assert(front.push(parts.last()) =~= parts);
    }
}

/// The first piece of a path is its text up to the first separator.
proof fn lemma_split_first(windows: bool, s: Seq<char>)
    ensures
        split_path(windows, s)[0].len() <= s.len(),
        forall|i: int| 0 <= i < split_path(windows, s)[0].len() ==> split_path(windows, s)[0][i] == s[i],
        split_path(windows, s)[0].len() < s.len() ==> is_sep(windows, s[split_path(windows, s)[0].len() as int]),
        split_path(windows, s).len() == 1 ==> split_path(windows, s)[0] == s,
        split_path(windows, s).len() > 1 ==> split_path(windows, s)[0].len() < s.len(),
    decreases s.len(),
{
    lemma_split_path_nonempty(windows, s);
    if s.len() > 0 {
        let front = s.drop_last();
        lemma_split_first(windows, front);
        lemma_split_path_nonempty(windows, front);
        let p = split_path(windows, front);
        if is_sep(windows, s.last()) {
            assert(split_path(windows, s)[0] == p[0]);
            assert forall|i: int| 0 <= i < p[0].len() implies split_path(windows, s)[0][i] == s[i] by {
                assert(s[i] == front[i]);
            }
            if p[0].len() < front.len() {
                assert(s[p[0].len() as int] == front[p[0].len() as int]);
            }
        } else if p.len() == 1 {
            assert(split_path(windows, s)[0] == p[0].push(s.last()));
            assert(p[0].push(s.last()) =~= s);
        } else {
            assert(split_path(windows, s)[0] == p[0]);
            assert forall|i: int| 0 <= i < p[0].len() implies split_path(windows, s)[0][i] == s[i] by {
                assert(s[i] == front[i]);
            }
            assert(s[p[0].len() as int] == front[p[0].len() as int]);
        }
    } else {
        assert(split_path(windows, s) == seq![Seq::<char>::empty()]);
    }
}

/// Pieces joined with `/` start with the first piece, followed by `/` when
/// there are more.
proof fn lemma_join_first(parts: Seq<Seq<char>>)
    requires
        parts.len() >= 1,
    ensures
        join_parts(parts).len() >= parts[0].len(),
        forall|i: int| 0 <= i < parts[0].len() ==> join_parts(parts)[i] == parts[0][i],
        parts.len() > 1 ==> join_parts(parts).len() > parts[0].len() && join_parts(parts)[parts[0].len() as int]
            == '/',
    decreases parts.len(),
{
    reveal_strlit("/");
    if parts.len() > 1 {
        let front = parts.drop_last();
        lemma_join_first(front);
        assert(front[0] == parts[0]);
        let j = join_parts(front);
        assert(join_parts(parts) == j + "/"@ + parts.last());
        assert forall|i: int| 0 <= i < parts[0].len() implies join_parts(parts)[i] == parts[0][i] by {
            assert(join_parts(parts)[i] == j[i]);
        }
        if front.len() == 1 {
            assert(j == parts[0]);
            assert(join_parts(parts)[parts[0].len() as int] == '/');
        } else {
            assert(join_parts(parts)[parts[0].len() as int] == j[parts[0].len() as int]);
        }
    }
}

/// What normalization gives: the kept pieces of the path, which are plain
/// pieces of it that name something, none of them `..`, the first being the
/// path's own first piece.
proof fn lemma_normal_pieces(windows: bool, s: Seq<char>)
    requires
        normalized_relative(windows, s) is Ok,
    ensures
        ({
            let k = kept_parts(split_path(windows, s));
            &&& k.len() >= 1
            &&& k[0] == split_path(windows, s)[0]
            &&& forall|i: int|
                0 <= i < k.len() ==> plain(windows, #[trigger] k[i]) && k[i].len() > 0 && k[i] != "."@ && k[i]
                    != ".."@
        }),
{
    let sp = split_path(windows, s);
    let k = kept_parts(sp);
    lemma_split_path_nonempty(windows, s);
    lemma_split_pieces_plain(windows, s);
    lemma_kept_parts_from(sp);
    lemma_split_first(windows, s);
    if sp[0].len() == 0 {
        if s.len() > 0 {
            assert(is_sep(windows, s[0]));
        } else {
            assert(sp == seq![Seq::<char>::empty()]);
            assert(k.len() == 0);
        }
    }
    assert forall|i: int| 0 <= i < k.len() implies plain(windows, #[trigger] k[i]) && k[i].len() > 0 && k[i]
        != "."@ && k[i] != ".."@ by {
        let j = choose|j: int| 0 <= j < sp.len() && k[i] == sp[j];
        assert(plain(windows, sp[j]));
        if k[i] == ".."@ {
            assert(sp[j] == ".."@);
        }
    }
}

/// A normal form is its own normal form: normalizing an accepted path
/// twice gives what normalizing it once gave.
pub proof fn law_normalization_is_idempotent(windows: bool, s: Seq<char>)
    ensures
        normalized_path(windows, s) matches Ok(r) ==> normalized_path(windows, r) == Ok::<
            Seq<char>,
            (Seq<char>, Seq<char>),
        >(r),
        normalized_relative(windows, s) matches Ok(r) ==> normalized_relative(windows, r) == Ok::<
            Seq<char>,
            (Seq<char>, Seq<char>),
        >(r),
{
    if normalized_relative(windows, s) is Ok {
        let k = kept_parts(split_path(windows, s));
        let r = join_parts(k);
        lemma_normal_pieces(windows, s);
        lemma_split_join(windows, k);
        lemma_kept_parts_all(k);
        lemma_join_first(k);
        lemma_split_first(windows, s);
        // The normal form starts with the path's first piece, so it has no
        // root or prefix either.
        assert(!is_sep(windows, r[0])) by {
            assert(r[0] == k[0][0]);
            assert(plain(windows, k[0]));
        }
        if r.len() >= 2 && r[1] == ':' {
            if k[0].len() >= 2 {
                assert(r[0] == s[0] && r[1] == s[1]);
            } else {
                assert(k.len() > 1);
            }
        }
        assert(!has_root_or_prefix(windows, r));
        assert(!escapes(windows, r)) by {
            if exists|i: int| 0 <= i < split_path(windows, r).len() && #[trigger] split_path(windows, r)[i] == ".."@ {
                let i = choose|i: int| 0 <= i < split_path(windows, r).len() && #[trigger] split_path(windows, r)[i] == ".."@;
                assert(k[i] == ".."@);
            }
        }
    }
}

/// A normal form stays below the directory it is relative to: it has no
/// root or prefix, and none of its pieces is empty, `.` or `..`.
pub proof fn law_normal_form_stays_below_the_root(windows: bool, s: Seq<char>)
    ensures
        normalized_path(windows, s) matches Ok(r) ==> {
            &&& !has_root_or_prefix(windows, r)
            &&& !escapes(windows, r)
            &&& forall|i: int|
                0 <= i < split_path(windows, r).len() ==> (#[trigger] split_path(windows, r)[i]).len() > 0
                    && split_path(windows, r)[i] != "."@ && split_path(windows, r)[i] != ".."@
        },
{
    law_normalization_is_idempotent(windows, s);
    if normalized_path(windows, s) is Ok {
        let k = kept_parts(split_path(windows, s));
        lemma_normal_pieces(windows, s);
        lemma_split_join(windows, k);
    }
}

fn is_sep_char(windows: bool, c: char) -> (r: bool)
    ensures
        r == is_sep(windows, c),
{
    c == '/' || (windows && c == '\\')
}

fn is_drive_text(s: &str) -> (r: bool)
    ensures
        r == is_drive(s@),
{
    let n = s.unicode_len();
    if n >= 2 && s.get_char(1) == ':' {
        let c = s.get_char(0) as u32;
        return (97 <= c && c <= 122) || (65 <= c && c <= 90);
    }
    false
}

fn is_absolute_text(windows: bool, s: &str) -> (r: bool)
    ensures
        r == is_absolute_path(windows, s@),
{
    let n = s.unicode_len();
    if !windows {
        return n > 0 && s.get_char(0) == '/';
    }
    if n >= 2 && is_sep_char(windows, s.get_char(0)) && is_sep_char(windows, s.get_char(1)) {
        return true;
    }
    n >= 3 && is_drive_text(s) && is_sep_char(windows, s.get_char(2))
}

fn has_root_or_prefix_text(windows: bool, s: &str) -> (r: bool)
    ensures
        r == has_root_or_prefix(windows, s@),
{
    let n = s.unicode_len();
    (n > 0 && is_sep_char(windows, s.get_char(0))) || (windows && is_drive_text(s))
}

/// Normalizes a project-relative path to `/`-separated normal pieces.
pub fn normalize_project_relative_path(input: &str, windows: bool) -> (r: Result<String, IndexError>)
    ensures
        r matches Ok(p) ==> normalized_path(windows, input@) == Ok::<Seq<char>, (Seq<char>, Seq<char>)>(p@),
        r matches Err(e) ==> normalized_path(windows, input@) == Err::<Seq<char>, (Seq<char>, Seq<char>)>(
            (e.code@, e.message@),
        ),
{
    if is_absolute_text(windows, input) {
        return Err(
            IndexError::new("PROJECT_PATH_INVALID", String::from_str("path must be project-relative")),
        );
    }
    normalize_relative(input, windows)
}

/// Normalizes a path found below the project root to `/`-separated normal
/// pieces.
pub fn normalize_relative(input: &str, windows: bool) -> (r: Result<String, IndexError>)
    ensures
        r matches Ok(p) ==> normalized_relative(windows, input@) == Ok::<Seq<char>, (Seq<char>, Seq<char>)>(
            p@,
        ),
        r matches Err(e) ==> normalized_relative(windows, input@) == Err::<Seq<char>, (Seq<char>, Seq<char>)>(
            (e.code@, e.message@),
        ),
{
    if has_root_or_prefix_text(windows, input) {
        return Err(
            IndexError::new(
                "PROJECT_PATH_ESCAPE",
                String::from_str("relative project path contains non-normal components"),
            ),
        );
    }
    proof {
        reveal_strlit(".");
        reveal_strlit("..");
    }
    let n = input.unicode_len();
    let ghost mut done: Seq<Seq<char>> = Seq::empty();
    let mut cur = String::new();
    let mut out = String::new();
    let mut count: usize = 0;
    let mut bad = false;
    let mut seen_sep = false;
    let mut i: usize = 0;
    assert(input@.subrange(0, 0) =~= Seq::<char>::empty());
    while i < n
        invariant
            n == input@.len(),
            i <= n,
            split_path(windows, input@.subrange(0, i as int)) == done.push(cur@),
            out@ == join_parts(kept_parts(done)),
            count == kept_parts(done).len(),
            seen_sep == (done.len() > 0),
            done.len() + cur@.len() <= i,
            count <= done.len(),
            bad == ((done.len() > 0 && done[0] == "."@) || exists|k: int|
                0 <= k < done.len() && #[trigger] done[k] == ".."@),
        decreases n - i,
    {
        let c = input.get_char(i);
        proof {
            let p = input@.subrange(0, i + 1);
            assert(p.drop_last() =~= input@.subrange(0, i as int));
            assert(p.last() == c);
        }
        if is_sep_char(windows, c) {
            let dot = str_eq(cur.as_str(), ".");
            let dotdot = str_eq(cur.as_str(), "..");
            let ghost before = done;
            if dotdot || (dot && !seen_sep) {
                bad = true;
            }
            let keep = cur.as_str().unicode_len() > 0 && !dot;
            if keep {
                if count > 0 {
                    out = out.concat("/");
                }
                out = out.concat(cur.as_str());
                count = count + 1;
            }
            proof {
                lemma_kept_parts_len(before);
                done = done.push(cur@);
                assert(done.drop_last() =~= before);
                let kb = kept_parts(before);
                if keep {
                    assert(kept_parts(done) == kb.push(cur@));
                    assert(kb.push(cur@).drop_last() =~= kb);
                    if kb.len() == 0 {
                        assert(out@ =~= cur@);
                    } else {
                        assert(out@ =~= join_parts(kb) + "/"@ + cur@);
                    }
                } else {
                    assert(kept_parts(done) == kb);
                }
                assert(done.last() == cur@);
                if before.len() > 0 {
                    assert(done[0] == before[0]);
                }
                if exists|k: int| 0 <= k < before.len() && #[trigger] before[k] == ".."@ {
                    let k = choose|k: int| 0 <= k < before.len() && #[trigger] before[k] == ".."@;
                    assert(done[k] == ".."@);
                }
                if exists|k: int| 0 <= k < done.len() && #[trigger] done[k] == ".."@ {
                    let k = choose|k: int| 0 <= k < done.len() && #[trigger] done[k] == ".."@;
                    if k < before.len() {
                        assert(before[k] == ".."@);
                    }
                }
            }
            seen_sep = true;
            cur = String::new();
            proof {
                assert(split_path(windows, input@.subrange(0, i + 1)) =~= done.push(cur@));
            }
        } else {
            let ghost old_cur = cur@;
            let one = input.substring_char(i, i + 1);
            cur = cur.concat(one);
            proof {
                assert(one@ =~= seq![c]);
                assert(cur@ =~= old_cur.push(c));
                assert(split_path(windows, input@.subrange(0, i + 1)) =~= done.push(cur@));
            }
        }
        i = i + 1;
    }
    assert(input@.subrange(0, n as int) =~= input@);
    let ghost full = done.push(cur@);
    assert(split_path(windows, input@) == full);
    let dot = str_eq(cur.as_str(), ".");
    let dotdot = str_eq(cur.as_str(), "..");
    proof {
        assert(full.drop_last() =~= done);
        assert(full.last() == cur@);
        if done.len() > 0 {
            assert(full[0] == done[0]);
        } else {
            assert(full[0] == cur@);
        }
        if exists|k: int| 0 <= k < done.len() && #[trigger] done[k] == ".."@ {
            let k = choose|k: int| 0 <= k < done.len() && #[trigger] done[k] == ".."@;
            assert(full[k] == ".."@);
        }
        if dotdot {
            assert(full[full.len() - 1] == ".."@);
        }
        if exists|k: int| 0 <= k < full.len() && #[trigger] full[k] == ".."@ {
            let k = choose|k: int| 0 <= k < full.len() && #[trigger] full[k] == ".."@;
            if k < done.len() {
                assert(done[k] == ".."@);
            }
        }
    }
    if bad || dotdot || (dot && !seen_sep) {
        return Err(
            IndexError::new(
                "PROJECT_PATH_ESCAPE",
                String::from_str("relative project path contains non-normal components"),
            ),
        );
    }
    let keep = cur.as_str().unicode_len() > 0 && !dot;
    proof {
        lemma_kept_parts_len(done);
    }
    if keep {
        if count > 0 {
            out = out.concat("/");
        }
        out = out.concat(cur.as_str());
        count = count + 1;
    }
    proof {
        let kb = kept_parts(done);
        if keep {
            assert(kept_parts(full) == kb.push(cur@));
            assert(kb.push(cur@).drop_last() =~= kb);
            if kb.len() == 0 {
                assert(out@ =~= cur@);
            } else {
                assert(out@ =~= join_parts(kb) + "/"@ + cur@);
            }
        } else {
            assert(kept_parts(full) == kb);
        }
    }
    if count == 0 {
        return Err(
            IndexError::new("PROJECT_PATH_INVALID", String::from_str("empty relative file path")),
        );
    }
    Ok(out)
}

/// What one watcher hint normalizes to.
pub open spec fn hint_result(windows: bool, h: Seq<char>) -> Result<Seq<char>, (Seq<char>, Seq<char>)> {
    if is_absolute_path(windows, h) {
        Err(("INDEX_HINT_INVALID"@, "watcher hints must be project-relative paths"@))
    } else {
        normalized_relative(windows, h)
    }
}

/// The first refused hint among the first `n`.
pub open spec fn first_hint_error(windows: bool, hints: Seq<String>, n: int) -> Option<(Seq<char>, Seq<char>)>
    decreases n,
{
    if n <= 0 {
        None
    } else {
        match first_hint_error(windows, hints, n - 1) {
            Some(e) => Some(e),
            None => match hint_result(windows, hints[n - 1]@) {
                Err(e) => Some(e),
                Ok(_) => None,
            },
        }
    }
}

proof fn lemma_first_hint_error_stable(windows: bool, hints: Seq<String>, n: int, m: int)
    requires
        0 <= n <= m,
        first_hint_error(windows, hints, n) is Some,
    ensures
        first_hint_error(windows, hints, m) == first_hint_error(windows, hints, n),
    decreases m - n,
{
    if m > n {
        lemma_first_hint_error_stable(windows, hints, n, m - 1);
    }
}

/// Normalizes watcher hints: each must be project-relative and normal; the
/// result is sorted and holds each path once.
pub fn validate_hints(hints: &[String], windows: bool) -> (r: Result<Vec<String>, IndexError>)
    ensures
        r is Err <==> first_hint_error(windows, hints@, hints@.len() as int) is Some,
        r matches Err(e) ==> first_hint_error(windows, hints@, hints@.len() as int) == Some(
            (e.code@, e.message@),
        ),
        r matches Ok(v) ==> strictly_sorted(views(v@)) && forall|p: Seq<char>|
            views(v@).contains(p) <==> exists|i: int|
                0 <= i < hints@.len() && hint_result(windows, #[trigger] hints@[i]@) == Ok::<
                    Seq<char>,
                    (Seq<char>, Seq<char>),
                >(p),
{
    let mut normalized = StrSet::new();
    let mut i: usize = 0;
    while i < hints.len()
        invariant
            i <= hints@.len(),
            first_hint_error(windows, hints@, i as int) is None,
            forall|p: Seq<char>|
                normalized.set().contains(p) <==> exists|k: int|
                    0 <= k < i && hint_result(windows, #[trigger] hints@[k]@) == Ok::<
                        Seq<char>,
                        (Seq<char>, Seq<char>),
                    >(p),
        decreases hints@.len() - i,
    {
        if is_absolute_text(windows, hints[i].as_str()) {
            proof {
                lemma_first_hint_error_stable(windows, hints@, i + 1, hints@.len() as int);
            }
            return Err(
                IndexError::new(
                    "INDEX_HINT_INVALID",
                    String::from_str("watcher hints must be project-relative paths"),
                ),
            );
        }
        match normalize_relative(hints[i].as_str(), windows) {
            Err(e) => {
                proof {
                    lemma_first_hint_error_stable(windows, hints@, i + 1, hints@.len() as int);
                }
                return Err(e);
            },
            Ok(p) => {
                let ghost pv = p@;
                normalized.insert(p);
                proof {
                    assert forall|q: Seq<char>|
                        normalized.set().contains(q) <==> exists|k: int|
                            0 <= k < i + 1 && hint_result(windows, #[trigger] hints@[k]@) == Ok::<
                                Seq<char>,
                                (Seq<char>, Seq<char>),
                            >(q) by {
                        if q == pv {
                            assert(hint_result(windows, hints@[i as int]@) == Ok::<
                                Seq<char>,
                                (Seq<char>, Seq<char>),
                            >(q));
                        }
                        if exists|k: int|
                            0 <= k < i + 1 && hint_result(windows, #[trigger] hints@[k]@) == Ok::<
                                Seq<char>,
                                (Seq<char>, Seq<char>),
                            >(q) {
                            let k = choose|k: int|
                                0 <= k < i + 1 && hint_result(windows, #[trigger] hints@[k]@) == Ok::<
                                    Seq<char>,
                                    (Seq<char>, Seq<char>),
                                >(q);
                            if k < i {
                                assert(exists|k2: int|
                                    0 <= k2 < i && hint_result(windows, #[trigger] hints@[k2]@) == Ok::<
                                        Seq<char>,
                                        (Seq<char>, Seq<char>),
                                    >(q));
                            }
                        }
                    }
                }
            },
        }
        i = i + 1;
    }
    let v = normalized.to_vec();
    proof {
        assert forall|p: Seq<char>| views(v@).contains(p) <==> normalized.set().contains(p) by {
            assert(normalized.set() == views(v@).to_set());
            assert(views(v@).to_set().contains(p) == views(v@).contains(p));
        }
        assert forall|p: Seq<char>|
            views(v@).contains(p) <==> exists|k: int|
                0 <= k < hints@.len() && hint_result(windows, #[trigger] hints@[k]@) == Ok::<
                    Seq<char>,
                    (Seq<char>, Seq<char>),
                >(p) by {
            assert(normalized.set().contains(p) == views(v@).contains(p));
        }
    }
    Ok(v)
}

/// The views of (path, digest) pairs.
pub open spec fn pair_views(s: Seq<(String, String)>) -> Seq<(Seq<char>, Seq<char>)> {
    Seq::new(s.len(), |i: int| (s[i].0@, s[i].1@))
}

/// The first of the first `n` added entries with digest `sha` whose index is
/// not in `taken`; -1 when there is none.
pub open spec fn first_free(added: Seq<(Seq<char>, Seq<char>)>, taken: Seq<int>, sha: Seq<char>, n: int) -> int
    decreases n,
{
    if n <= 0 {
        -1
    } else {
        let f = first_free(added, taken, sha, n - 1);
        if f >= 0 {
            f
        } else if added[n - 1].1 == sha && !taken.contains(n - 1) {
            n - 1
        } else {
            -1
        }
    }
}

/// For each of the first `n` deleted entries in order, the added entry it is
/// renamed to: the first one with the same digest that no earlier deleted
/// entry took; -1 when there is none.
pub open spec fn rename_picks(
    added: Seq<(Seq<char>, Seq<char>)>,
    deleted: Seq<(Seq<char>, Seq<char>)>,
    n: int,
) -> Seq<int>
    decreases n,
{
    if n <= 0 {
        Seq::empty()
    } else {
        let prior = rename_picks(added, deleted, n - 1);
        prior.push(first_free(added, prior, deleted[n - 1].1, added.len() as int))
    }
}

/// The renames of the first `n` deleted entries, as (from, to, digest).
pub open spec fn renames_upto(
    added: Seq<(Seq<char>, Seq<char>)>,
    deleted: Seq<(Seq<char>, Seq<char>)>,
    picks: Seq<int>,
    n: int,
) -> Seq<(Seq<char>, Seq<char>, Seq<char>)>
    decreases n,
{
    if n <= 0 {
        Seq::empty()
    } else if picks[n - 1] >= 0 {
        renames_upto(added, deleted, picks, n - 1).push(
            (deleted[n - 1].0, added[picks[n - 1]].0, deleted[n - 1].1),
        )
    } else {
        renames_upto(added, deleted, picks, n - 1)
    }
}

/// The first `n` entries of `s` whose index is not among `picks`.
pub open spec fn unpicked_added(s: Seq<(Seq<char>, Seq<char>)>, picks: Seq<int>, n: int) -> Seq<
    (Seq<char>, Seq<char>),
>
    decreases n,
{
    if n <= 0 {
        Seq::empty()
    } else if picks.contains(n - 1) {
        unpicked_added(s, picks, n - 1)
    } else {
        unpicked_added(s, picks, n - 1).push(s[n - 1])
    }
}

/// The first `n` deleted entries that were not renamed.
pub open spec fn unpicked_deleted(s: Seq<(Seq<char>, Seq<char>)>, picks: Seq<int>, n: int) -> Seq<
    (Seq<char>, Seq<char>),
>
    decreases n,
{
    if n <= 0 {
        Seq::empty()
    } else if picks[n - 1] >= 0 {
        unpicked_deleted(s, picks, n - 1)
    } else {
        unpicked_deleted(s, picks, n - 1).push(s[n - 1])
    }
}

/// The views of (from, to, digest) triples.
pub open spec fn triple_views(s: Seq<(String, String, String)>) -> Seq<(Seq<char>, Seq<char>, Seq<char>)> {
    Seq::new(s.len(), |i: int| (s[i].0@, s[i].1@, s[i].2@))
}

pub proof fn lemma_first_free(added: Seq<(Seq<char>, Seq<char>)>, taken: Seq<int>, sha: Seq<char>, n: int)
    requires
        0 <= n <= added.len(),
    ensures
        first_free(added, taken, sha, n) >= 0 ==> {
            let f = first_free(added, taken, sha, n);
            &&& f < n
            &&& added[f].1 == sha
            &&& !taken.contains(f)
            &&& forall|a: int| 0 <= a < f ==> !(added[a].1 == sha && !taken.contains(a))
        },
        first_free(added, taken, sha, n) < 0 ==> first_free(added, taken, sha, n) == -1 && forall|a: int|
            0 <= a < n ==> !(added[a].1 == sha && !taken.contains(a)),
    decreases n,
{
    if n > 0 {
        lemma_first_free(added, taken, sha, n - 1);
    }
}

/// The option view of a pick: the index it names, or -1.
pub open spec fn pick_value(p: Option<usize>) -> int {
    match p {
        Some(a) => a as int,
        None => -1,
    }
}

/// For each deleted entry, the added entry it is renamed to (see
/// `rename_picks`), and for each added entry whether one took it.
pub(crate) fn pick_renames(added: &Vec<(String, String)>, deleted: &Vec<(String, String)>) -> (r: (
    Vec<Option<usize>>,
    Vec<bool>,
))
    ensures
        ({
            let a = pair_views(added@);
            let d = pair_views(deleted@);
            let picks = rename_picks(a, d, d.len() as int);
            &&& r.0@.len() == deleted@.len()
            &&& picks.len() == deleted@.len()
            &&& forall|j: int| 0 <= j < deleted@.len() ==> pick_value(#[trigger] r.0@[j]) == picks[j]
            &&& forall|j: int| 0 <= j < deleted@.len() ==> picks[j] < added@.len()
            &&& r.1@.len() == added@.len()
            &&& forall|x: int| 0 <= x < added@.len() ==> (#[trigger] r.1@[x] <==> picks.contains(x))
        }),
{
    let ghost a = pair_views(added@);
    let ghost d = pair_views(deleted@);
    let mut used: Vec<bool> = Vec::new();
    let mut k: usize = 0;
    while k < added.len()
        invariant
            k <= added@.len(),
            used@.len() == k,
            forall|x: int| 0 <= x < k ==> !used@[x],
        decreases added@.len() - k,
    {
        used.push(false);
        k = k + 1;
    }
    let mut picks: Vec<Option<usize>> = Vec::new();
    let mut j: usize = 0;
    while j < deleted.len()
        invariant
            a == pair_views(added@),
            d == pair_views(deleted@),
            j <= deleted@.len(),
            used@.len() == added@.len(),
            picks@.len() == j,
            rename_picks(a, d, j as int).len() == j,
            forall|x: int| 0 <= x < added@.len() ==> (used@[x] <==> rename_picks(a, d, j as int).contains(x)),
            forall|x: int| 0 <= x < j ==> pick_value(#[trigger] picks@[x]) == rename_picks(a, d, j as int)[x],
            forall|x: int| 0 <= x < j ==> rename_picks(a, d, j as int)[x] < added@.len(),
        decreases deleted@.len() - j,
    {
        let ghost prior = rename_picks(a, d, j as int);
        let mut found: usize = added.len();
        let mut x: usize = 0;
        while x < added.len()
            invariant
                a == pair_views(added@),
                d == pair_views(deleted@),
                j < deleted@.len(),
                x <= added@.len(),
                used@.len() == added@.len(),
                prior == rename_picks(a, d, j as int),
                forall|y: int| 0 <= y < added@.len() ==> (used@[y] <==> prior.contains(y)),
                found <= added@.len(),
                found == added@.len() ==> first_free(a, prior, d[j as int].1, x as int) == -1,
                found < added@.len() ==> found < x && first_free(a, prior, d[j as int].1, x as int)
                    == found,
            decreases added@.len() - x,
        {
            if found == added.len() && !used[x] && str_eq(added[x].1.as_str(), deleted[j].1.as_str()) {
                found = x;
            }
            x = x + 1;
        }
        let ghost pick: int = if found < added.len() {
            found as int
        } else {
            -1
        };
        proof {
            assert(a.len() == added@.len());
            assert(first_free(a, prior, d[j as int].1, a.len() as int) == pick);
            lemma_first_free(a, prior, d[j as int].1, a.len() as int);
            assert(rename_picks(a, d, j + 1) == prior.push(pick));
        }
        if found < added.len() {
            used.set(found, true);
            picks.push(Some(found));
        } else {
            picks.push(None);
        }
        proof {
            let np = prior.push(pick);
            assert forall|y: int| 0 <= y < added@.len() implies (used@[y] <==> np.contains(y)) by {
                if np.contains(y) && y != pick {
                    let w = choose|w: int| 0 <= w < np.len() && np[w] == y;
                    assert(prior[w] == y);
                }
                if prior.contains(y) {
                    let w = choose|w: int| 0 <= w < prior.len() && prior[w] == y;
                    assert(np[w] == y);
                }
                if y == pick {
                    assert(np[j as int] == y);
                }
            }
        }
        j = j + 1;
    }
    (picks, used)
}

/// Pairs deleted and added files that carry the same digest: each deleted
/// file, in order, takes the first added file with its digest that no
/// earlier one took. The paired entries leave both lists; the pairs come back
/// as (from, to, digest).
pub fn match_renames(added: &mut Vec<(String, String)>, deleted: &mut Vec<(String, String)>) -> (r:
    Vec<(String, String, String)>)
    ensures
        ({
            let a = pair_views(old(added)@);
            let d = pair_views(old(deleted)@);
            let picks = rename_picks(a, d, d.len() as int);
            &&& triple_views(r@) == renames_upto(a, d, picks, d.len() as int)
            &&& pair_views(final(added)@) == unpicked_added(a, picks, a.len() as int)
            &&& pair_views(final(deleted)@) == unpicked_deleted(d, picks, d.len() as int)
        }),
{
    let ghost a = pair_views(added@);
    let ghost d = pair_views(deleted@);
    let (picks, used) = pick_renames(added, deleted);
    let ghost pv = rename_picks(a, d, d.len() as int);
    let mut renamed: Vec<(String, String, String)> = Vec::new();
    let mut j: usize = 0;
    while j < deleted.len()
        invariant
            a == pair_views(added@),
            d == pair_views(deleted@),
            j <= deleted@.len(),
            picks@.len() == deleted@.len(),
            pv.len() == deleted@.len(),
            forall|x: int| 0 <= x < deleted@.len() ==> pick_value(#[trigger] picks@[x]) == pv[x],
            forall|x: int| 0 <= x < deleted@.len() ==> pv[x] < added@.len(),
            triple_views(renamed@) == renames_upto(a, d, pv, j as int),
        decreases deleted@.len() - j,
    {
        if let Some(t) = picks[j] {
            assert(pick_value(picks@[j as int]) == pv[j as int]);
            renamed.push((deleted[j].0.clone(), added[t].0.clone(), deleted[j].1.clone()));
        }
        proof {
            assert(triple_views(renamed@) =~= renames_upto(a, d, pv, j + 1));
        }
        j = j + 1;
    }
    let mut kept_added: Vec<(String, String)> = Vec::new();
    let mut y: usize = 0;
    while y < added.len()
        invariant
            a == pair_views(added@),
            y <= added@.len(),
            used@.len() == added@.len(),
            forall|x: int| 0 <= x < added@.len() ==> (#[trigger] used@[x] <==> pv.contains(x)),
            pair_views(kept_added@) == unpicked_added(a, pv, y as int),
        decreases added@.len() - y,
    {
        if !used[y] {
            kept_added.push((added[y].0.clone(), added[y].1.clone()));
        }
        proof {
            assert(used@[y as int] <==> pv.contains(y as int));
            assert(pair_views(kept_added@) =~= unpicked_added(a, pv, y + 1));
        }
        y = y + 1;
    }
    let mut kept_deleted: Vec<(String, String)> = Vec::new();
    let mut z: usize = 0;
    while z < deleted.len()
        invariant
            d == pair_views(deleted@),
            z <= deleted@.len(),
            picks@.len() == deleted@.len(),
            pv.len() == deleted@.len(),
            forall|x: int| 0 <= x < deleted@.len() ==> pick_value(#[trigger] picks@[x]) == pv[x],
            pair_views(kept_deleted@) == unpicked_deleted(d, pv, z as int),
        decreases deleted@.len() - z,
    {
        if picks[z].is_none() {
            kept_deleted.push((deleted[z].0.clone(), deleted[z].1.clone()));
        }
        proof {
            assert(pick_value(picks@[z as int]) == pv[z as int]);
            assert(pair_views(kept_deleted@) =~= unpicked_deleted(d, pv, z + 1));
        }
        z = z + 1;
    }
    *added = kept_added;
    *deleted = kept_deleted;
    renamed
}

/// `s` with every `/` turned into `\`.
pub open spec fn backslashed(s: Seq<char>) -> Seq<char> {
    Seq::new(s.len(), |i: int| if s[i] == '/' { '\\' } else { s[i] })
}

/// The path that a project root given as a path or a `file:///` URI names.
pub open spec fn uri_path(input: Seq<char>, windows: bool) -> Result<Seq<char>, (Seq<char>, Seq<char>)> {
    if input.len() >= 8 && input.subrange(0, 8) == "file:///"@ {
        let rest = input.subrange(8, input.len() as int);
        if rest.contains('%') {
            Err(
                (
                    "PROJECT_PATH_INVALID"@,
                    "percent-encoded file URIs are not supported by the Phase 3 local importer"@,
                ),
            )
        } else if windows {
            Ok(backslashed(rest))
        } else {
            Ok("/"@ + rest)
        }
    } else if input.len() >= 7 && input.subrange(0, 7) == "file://"@ {
        Err(("PROJECT_PATH_INVALID"@, "UNC/authority file URIs are not supported by this slice"@))
    } else {
        Ok(input)
    }
}

pub(crate) fn has_prefix(s: &str, prefix: &str) -> (r: bool)
    ensures
        r == (s@.len() >= prefix@.len() && s@.subrange(0, prefix@.len() as int) == prefix@),
{
    let n = s.unicode_len();
    let k = prefix.unicode_len();
    if n < k {
        return false;
    }
    let head = s.substring_char(0, k);
    str_eq(head, prefix)
}

/// The path named by a project root argument: a path as given, or the path
/// of a local `file:///` URI (with `\` separators on Windows).
pub fn file_uri_to_path(input: &str, windows: bool) -> (r: Result<String, IndexError>)
    ensures
        r matches Ok(p) ==> uri_path(input@, windows) == Ok::<Seq<char>, (Seq<char>, Seq<char>)>(p@),
        r matches Err(e) ==> uri_path(input@, windows) == Err::<Seq<char>, (Seq<char>, Seq<char>)>(
            (e.code@, e.message@),
        ),
{
    proof {
        reveal_strlit("file:///");
        reveal_strlit("file://");
    }
    if has_prefix(input, "file:///") {
        let n = input.unicode_len();
        let rest = input.substring_char(8, n);
        let mut out = String::new();
        let mut i: usize = 0;
        let m = rest.unicode_len();
        while i < m
            invariant
                m == rest@.len(),
                i <= m,
                rest@ == input@.subrange(8, input@.len() as int),
                input@.len() >= 8 && input@.subrange(0, 8) == "file:///"@,
                forall|k: int| 0 <= k < i ==> rest@[k] != '%',
                out@ == backslashed(rest@.subrange(0, i as int)),
            decreases m - i,
        {
            let c = rest.get_char(i);
            if c == '%' {
                assert(rest@.contains('%')) by {
                    assert(rest@[i as int] == '%');
                }
                return Err(
                    IndexError::new(
                        "PROJECT_PATH_INVALID",
                        String::from_str(
                            "percent-encoded file URIs are not supported by the Phase 3 local importer",
                        ),
                    ),
                );
            }
            let ghost old_out = out@;
            if c == '/' {
                out = out.concat("\\");
                proof {
                    reveal_strlit("\\");
                    assert(out@ =~= old_out.push('\\'));
                }
            } else {
                let one = rest.substring_char(i, i + 1);
                out = out.concat(one);
                proof {
                    assert(one@ =~= seq![c]);
                    assert(out@ =~= old_out.push(c));
                }
            }
            proof {
                assert(rest@.subrange(0, i + 1).drop_last() =~= rest@.subrange(0, i as int));
                assert(out@ =~= backslashed(rest@.subrange(0, i + 1)));
            }
            i = i + 1;
        }
        assert(rest@.subrange(0, m as int) =~= rest@);
        assert(!rest@.contains('%'));
        if windows {
            return Ok(out);
        } else {
            return Ok(String::from_str("/").concat(rest));
        }
    }
    if has_prefix(input, "file://") {
        return Err(
            IndexError::new(
                "PROJECT_PATH_INVALID",
                String::from_str("UNC/authority file URIs are not supported by this slice"),
            ),
        );
    }
    Ok(String::from_str(input))
}

/// The path of a project root argument before it is resolved on disk: a
/// blank argument is refused.
pub fn project_root_path(input: &str, windows: bool) -> (r: Result<String, IndexError>)
    ensures
        is_blank(input@) ==> (r matches Err(e) && e.code@ == "PROJECT_PATH_INVALID"@ && e.message@
            == "project root path is empty"@),
        !is_blank(input@) ==> (r matches Ok(p) ==> uri_path(input@, windows) == Ok::<
            Seq<char>,
            (Seq<char>, Seq<char>),
        >(p@)) && (r matches Err(e) ==> uri_path(input@, windows) == Err::<
            Seq<char>,
            (Seq<char>, Seq<char>),
        >((e.code@, e.message@))),
{
    if str_is_blank(input) {
        return Err(
            IndexError::new("PROJECT_PATH_INVALID", String::from_str("project root path is empty")),
        );
    }
    file_uri_to_path(input, windows)
}


/// The check a background indexing run makes between files: it goes on while
/// the host says it may (`may_continue`), else stops as deferred.
pub fn ensure_continue(may_continue: bool) -> (r: Result<(), IndexError>)
    ensures
        r is Ok <==> may_continue,
        r matches Err(e) ==> e.code == "INDEX_RECOVERY_DEFERRED" && e.message@
            == "background index recovery was deferred"@,
{
    if may_continue {
        Ok(())
    } else {
        Err(
            IndexError::new(
                "INDEX_RECOVERY_DEFERRED",
                String::from_str("background index recovery was deferred"),
            ),
        )
    }
}

} // verus!
