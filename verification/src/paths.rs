//! Path resolution: locating the repository root along a directory
//! ancestry, deriving the deterministic object and index paths under the
//! marker directory, and validating that a path lies inside the
//! repository.
//!
//! Paths are canonical absolute strings (as a filesystem canonicalization
//! produces them): they start with `/`, carry no trailing slash except
//! for the root itself, and no empty components.

use vstd::prelude::*;

use crate::db::ObjectRepr;
use vstd::string::StrSliceExecFns;
use vstd::string::StringExecFns;

verus! {

/// Failure of a path computation.
#[derive(Debug)]
pub enum PathError {
    /// No ancestor of the working directory contains the marker directory.
    NoRepoError,
    /// The path could not be canonicalized.
    IllegalPathError { msg: String },
    /// The path lies outside the repository.
    NotInRepoError { base: String, file: String },
}

/// The shape of a canonical absolute path.
pub open spec fn is_canonical_path(s: Seq<char>) -> bool {
    &&& s.len() >= 1
    &&& s[0] == '/'
    &&& (s.len() == 1 || s.last() != '/')
    &&& forall|i: int| 0 < i < s.len() ==> !(#[trigger] s[i] == '/' && s[i - 1] == '/')
}

/// The marker directory's name.
pub open spec fn marker_chars() -> Seq<char> {
    seq!['.', 'u', 'n', 'r', 'u', 's', 't', 'y']
}

/// Joining one more component onto a directory path.
pub open spec fn join_spec(base: Seq<char>, name: Seq<char>) -> Seq<char> {
    if base == seq!['/'] {
        base + name
    } else {
        base + seq!['/'] + name
    }
}

/// The marker directory under a base directory.
pub open spec fn vcs_dir_spec(base: Seq<char>) -> Seq<char> {
    join_spec(base, marker_chars())
}

/// The index file under a repository root.
pub open spec fn index_path_spec(root: Seq<char>) -> Seq<char> {
    vcs_dir_spec(root) + seq!['/'] + seq!['i', 'n', 'd', 'e', 'x']
}

/// The storage path of an object under a repository root.
pub open spec fn db_path_spec(root: Seq<char>, id: Seq<char>) -> Seq<char> {
    vcs_dir_spec(root) + seq!['/'] + seq!['o', 'b', 'j', 'e', 'c', 't', 's'] + seq!['/'] + id
}

/// Appends `/` unless the base is the filesystem root.
fn push_sep(out: &mut String, base_was_root: bool)
    ensures
        final(out)@ == if base_was_root {
            old(out)@
        } else {
            old(out)@ + seq!['/']
        },
{
    if !base_was_root {
        out.append("/");
        proof {
            reveal_strlit("/");
            assert("/"@ =~= seq!['/']);
        }
    }
}

/// The marker directory under the given base directory.
pub fn vcs_dir_from_base(path: &str) -> (r: String)
    requires
        is_canonical_path(path@),
    ensures
        r@ == vcs_dir_spec(path@),
{
    let mut out = path.to_owned();
    let is_root = path.unicode_len() == 1;
    proof {
        if is_root {
            assert(path@ =~= seq!['/']);
        } else {
            assert(path@ != seq!['/']);
        }
    }
    push_sep(&mut out, is_root);
    out.append(".unrusty");
    proof {
        reveal_strlit(".unrusty");
        assert(".unrusty"@ =~= marker_chars());
        assert(out@ =~= vcs_dir_spec(path@));
    }
    out
}

/// The index file's path under the given repository root.
pub fn index_path_required(root: &str) -> (r: String)
    requires
        is_canonical_path(root@),
    ensures
        r@ == index_path_spec(root@),
{
    let mut out = vcs_dir_from_base(root);
    out.append("/index");
    proof {
        reveal_strlit("/index");
        assert("/index"@ =~= seq!['/'] + seq!['i', 'n', 'd', 'e', 'x']);
        assert(out@ =~= index_path_spec(root@));
    }
    out
}

/// The storage path of an object under the given repository root.
pub fn db_path(root: &str, object: &ObjectRepr) -> (r: String)
    requires
        is_canonical_path(root@),
    ensures
        r@ == db_path_spec(root@, object@),
{
    let mut out = vcs_dir_from_base(root);
    out.append("/objects/");
    out.append(object.hash());
    proof {
        reveal_strlit("/objects/");
        assert("/objects/"@ =~= seq!['/'] + seq!['o', 'b', 'j', 'e', 'c', 't', 's'] + seq!['/']);
        assert(out@ =~= db_path_spec(root@, object@));
    }
    out
}

// ------------------------------------------------------------------
// Directory ancestry and root discovery
// ------------------------------------------------------------------

/// The index of the last slash in a path; canonical paths always hold one.
pub open spec fn last_slash(s: Seq<char>) -> int
    decreases s.len(),
{
    if s.len() == 0 {
        -1
    } else if s.last() == '/' {
        s.len() - 1
    } else {
        last_slash(s.drop_last())
    }
}

/// The parent directory: everything before the last slash, or the
/// filesystem root.
pub open spec fn parent_spec(s: Seq<char>) -> Seq<char> {
    if last_slash(s) <= 0 {
        seq!['/']
    } else {
        s.take(last_slash(s))
    }
}

proof fn lemma_last_slash_at(s: Seq<char>, j: int)
    requires
        0 <= j < s.len(),
        s[j] == '/',
        forall|k: int| j < k < s.len() ==> s[k] != '/',
    ensures
        last_slash(s) == j,
    decreases s.len(),
{
    if j == s.len() - 1 {
    } else {
        assert(s.last() != '/');
        let t = s.drop_last();
        assert(t[j] == '/');
        assert(forall|k: int| j < k < t.len() ==> t[k] == s[k] && #[trigger] t[k] != '/');
        lemma_last_slash_at(t, j);
    }
}

/// Strips the last component of a canonical path that is not the root.
pub fn parent_of(path: &str) -> (r: String)
    requires
        is_canonical_path(path@),
        path@.len() >= 2,
    ensures
        r@ == parent_spec(path@),
        is_canonical_path(r@),
        r@.len() < path@.len(),
{
    let n = path.unicode_len();
    let mut j: usize = n - 1;
    while path.get_char(j) != '/'
        invariant
            j < n,
            n == path@.len(),
            is_canonical_path(path@),
            forall|k: int| j < k < path@.len() ==> path@[k] != '/',
        decreases j,
    {
        j = j - 1;
    }
    proof {
        lemma_last_slash_at(path@, j as int);
    }
    if j == 0 {
        let r = String::from_str("/");
        proof {
            reveal_strlit("/");
            assert(r@ =~= seq!['/']);
        }
        r
    } else {
        let r = path.substring_char(0, j);
        proof {
            assert(r@ == path@.take(j as int));
            // the character before the last slash is not a slash, so the
            // parent keeps the canonical shape
            assert(path@[j as int] == '/');
            assert(r@.last() == path@[j as int - 1]);
        }
        r.to_owned()
    }
}

/// The directory and all its ancestors, nearest first, ending at the
/// filesystem root: each entry after the first is the parent of the one
/// before it.
pub fn ancestors_of(path: &str) -> (r: Vec<String>)
    requires
        is_canonical_path(path@),
    ensures
        r@.len() >= 1,
        r@[0]@ == path@,
        r@[r@.len() - 1]@ == seq!['/'],
        forall|i: int| 0 <= i < r@.len() ==> is_canonical_path(#[trigger] r@[i]@),
        forall|i: int| 0 <= i < r@.len() - 1 ==> #[trigger] r@[i + 1]@ == parent_spec(r@[i]@),
{
    let mut r: Vec<String> = Vec::new();
    let mut cur: String = path.to_owned();
    r.push(cur.clone());
    while cur.as_str().unicode_len() > 1
        invariant
            r@.len() >= 1,
            is_canonical_path(cur@),
            r@[r@.len() - 1]@ == cur@,
            r@[0]@ == path@,
            forall|i: int| 0 <= i < r@.len() ==> is_canonical_path(#[trigger] r@[i]@),
            forall|i: int| 0 <= i < r@.len() - 1 ==> #[trigger] r@[i + 1]@ == parent_spec(r@[i]@),
        decreases cur@.len(),
    {
        let p = parent_of(cur.as_str());
        cur = p;
        r.push(cur.clone());
    }
    proof {
        assert(cur@ =~= seq!['/']);
    }
    r
}

/// The position of the first set flag, if any.
pub open spec fn first_marked(flags: Seq<bool>) -> Option<int>
    decreases flags.len(),
{
    if flags.len() == 0 {
        None
    } else if flags[0] {
        Some(0)
    } else {
        match first_marked(flags.subrange(1, flags.len() as int)) {
            None => None,
            Some(i) => Some(i + 1),
        }
    }
}

proof fn lemma_first_marked_at(flags: Seq<bool>, i: int)
    requires
        0 <= i < flags.len(),
        flags[i],
        forall|j: int| 0 <= j < i ==> !flags[j],
    ensures
        first_marked(flags) == Some(i),
    decreases flags.len(),
{
    if i == 0 {
    } else {
        let t = flags.subrange(1, flags.len() as int);
        assert(t[i - 1]);
        assert(forall|j: int| 0 <= j < i - 1 ==> t[j] == flags[j + 1] && !(#[trigger] t[j]));
        lemma_first_marked_at(t, i - 1);
    }
}

proof fn lemma_first_marked_none(flags: Seq<bool>)
    requires
        forall|j: int| 0 <= j < flags.len() ==> !flags[j],
    ensures
        first_marked(flags) is None,
    decreases flags.len(),
{
    if flags.len() > 0 {
        let t = flags.subrange(1, flags.len() as int);
        assert(forall|j: int| 0 <= j < t.len() ==> t[j] == flags[j + 1] && !(#[trigger] t[j]));
        lemma_first_marked_none(t);
    }
}

/// Root discovery over a directory ancestry, nearest candidate first:
/// `has_marker[i]` says whether the marker directory exists under
/// `ancestors[i]`.  Picks the first (nearest) marked candidate, or none.
pub fn find_root(ancestors: &Vec<String>, has_marker: &Vec<bool>) -> (r: Option<usize>)
    requires
        ancestors@.len() == has_marker@.len(),
    ensures
        r matches Some(i) ==> first_marked(has_marker@) == Some(i as int) && i < ancestors@.len()
            && has_marker@[i as int] && (forall|j: int| 0 <= j < i ==> !has_marker@[j]),
        r is None ==> first_marked(has_marker@) is None,
{
    let n = has_marker.len();
    let mut i: usize = 0;
    while i < n
        invariant
            i <= n,
            n == has_marker@.len(),
            n == ancestors@.len(),
            forall|j: int| 0 <= j < i ==> !has_marker@[j],
        decreases n - i,
    {
        if has_marker[i] {
            proof {
                lemma_first_marked_at(has_marker@, i as int);
            }
            return Some(i);
        }
        i = i + 1;
    }
    proof {
        lemma_first_marked_none(has_marker@);
    }
    None
}

/// As `find_root`, but failing with `NoRepoError` when no candidate is
/// marked, and returning the root path itself.
pub fn root_path_required(ancestors: &Vec<String>, has_marker: &Vec<bool>) -> (r: Result<
    String,
    PathError,
>)
    requires
        ancestors@.len() == has_marker@.len(),
    ensures
        r matches Ok(p) ==> first_marked(has_marker@) matches Some(i) && p@ == ancestors@[i]@,
        r is Ok <==> first_marked(has_marker@) is Some,
        r matches Err(e) ==> e is NoRepoError,
{
    match find_root(ancestors, has_marker) {
        Some(i) => Ok(ancestors[i].clone()),
        None => Err(PathError::NoRepoError),
    }
}

// ------------------------------------------------------------------
// Containment: repository-relative paths
// ------------------------------------------------------------------

/// The repository-relative form of `path` under `base`: the remainder
/// after the base prefix at a component boundary, or `None` when `path`
/// does not lie under `base`.
pub open spec fn rel_of(path: Seq<char>, base: Seq<char>) -> Option<Seq<char>> {
    if path == base {
        Some(Seq::<char>::empty())
    } else if base == seq!['/'] && path.len() > 1 {
        Some(path.skip(1))
    } else if path.len() > base.len() && path.take(base.len() as int) == base && path[base.len() as int]
        == '/' {
        Some(path.skip(base.len() as int + 1))
    } else {
        None
    }
}

/// The repository-relative form of a canonical path, or `NotInRepoError`
/// (carrying both the root and the offending path) exactly when the path
/// lies outside the root.
pub fn relative_path(path: &str, base: &str) -> (r: Result<String, PathError>)
    requires
        is_canonical_path(path@),
        is_canonical_path(base@),
    ensures
        r matches Ok(s) ==> rel_of(path@, base@) == Some(s@),
        r is Ok <==> rel_of(path@, base@) is Some,
        r matches Err(e) ==> e matches PathError::NotInRepoError { base: b, file: f } && b@
            == base@ && f@ == path@,
{
    let plen = path.unicode_len();
    let blen = base.unicode_len();
    if plen == blen {
        let mut i: usize = 0;
        while i < plen
            invariant
                i <= plen,
                plen == path@.len(),
                plen == base@.len(),
                forall|j: int| 0 <= j < i ==> path@[j] == base@[j],
            decreases plen - i,
        {
            if path.get_char(i) != base.get_char(i) {
                proof {
                    assert(path@[i as int] != base@[i as int]);
                    assert(path@ != base@);
                }
                return Err(PathError::NotInRepoError {
                    base: base.to_owned(),
                    file: path.to_owned(),
                });
            }
            i = i + 1;
        }
        proof {
            assert(path@ =~= base@);
        }
        Ok(String::new())
    } else if blen == 1 {
        proof {
            assert(base@ =~= seq!['/']);
        }
        if plen > 1 {
            let r = path.substring_char(1, plen);
            Ok(r.to_owned())
        } else {
            proof {
                assert(path@ =~= seq!['/']);
            }
            Ok(String::new())
        }
    } else if plen > blen {
        let mut i: usize = 0;
        while i < blen
            invariant
                i <= blen,
                plen == path@.len(),
                blen == base@.len(),
                plen > blen,
                blen > 1,
                forall|j: int| 0 <= j < i ==> path@[j] == base@[j],
            decreases blen - i,
        {
            if path.get_char(i) != base.get_char(i) {
                proof {
                    assert(path@.take(blen as int)[i as int] != base@[i as int]);
                }
                return Err(PathError::NotInRepoError {
                    base: base.to_owned(),
                    file: path.to_owned(),
                });
            }
            i = i + 1;
        }
        proof {
            assert(path@.take(blen as int) =~= base@);
        }
        if path.get_char(blen) == '/' {
            let r = path.substring_char(blen + 1, plen);
            Ok(r.to_owned())
        } else {
            Err(PathError::NotInRepoError { base: base.to_owned(), file: path.to_owned() })
        }
    } else {
        proof {
            if path@.len() == base@.len() {
            }
            assert(path@ != base@);
        }
        Err(PathError::NotInRepoError { base: base.to_owned(), file: path.to_owned() })
    }
}

/// A validated repository-relative path, the key of a staging entry.
#[derive(Debug)]
pub struct RelativePathToBase {
    path: String,
}

impl View for RelativePathToBase {
    type V = Seq<char>;

    closed spec fn view(&self) -> Seq<char> {
        self.path@
    }
}

impl Clone for RelativePathToBase {
    fn clone(&self) -> (r: Self)
        ensures
            r@ == self@,
    {
        RelativePathToBase { path: self.path.clone() }
    }
}

impl RelativePathToBase {
    /// Wraps an already-relative path, as the persisted index records it.
    pub fn new(path: &str) -> (r: Self)
        ensures
            r@ == path@,
    {
        RelativePathToBase { path: path.to_owned() }
    }

    /// Validates a canonical path against a repository root.
    pub fn try_from(path: &str, base: &str) -> (r: Result<Self, PathError>)
        requires
            is_canonical_path(path@),
            is_canonical_path(base@),
        ensures
            r matches Ok(p) ==> rel_of(path@, base@) == Some(p@),
            r is Ok <==> rel_of(path@, base@) is Some,
            r matches Err(e) ==> e matches PathError::NotInRepoError { base: b, file: f } && b@
                == base@ && f@ == path@,
    {
        match relative_path(path, base) {
            Ok(p) => Ok(RelativePathToBase { path: p }),
            Err(e) => Err(e),
        }
    }

    /// The relative path's text.
    pub fn as_str(&self) -> (r: &str)
        ensures
            r@ == self@,
    {
        self.path.as_str()
    }

    /// Whether two keys name the same path.
    pub fn key_eq(&self, other: &RelativePathToBase) -> (r: bool)
        ensures
            r == (self@ == other@),
    {
        self.path.eq(&other.path)
    }
}

} // verus!
