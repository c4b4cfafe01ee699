//! Path discovery: canonical-path shapes, file-name and parent-directory
//! arithmetic, the upward walk that collects every sibling document between
//! a leaf document and the project root, and the root-marker search.

use vstd::prelude::*;
use vstd::string::StrSliceExecFns;
use vstd::string::StringExecFns;
use crate::strutil::{find_last_char, last_index_of, lemma_last_index_of, str_eq};
use crate::errors::{DiscoveryError, Error};

verus! {

/// No two adjacent slashes.
pub open spec fn no_double_slash(p: Seq<char>) -> bool {
    forall|j: int| 0 <= j < p.len() - 1 ==> !((#[trigger] p[j]) == '/' && p[j + 1] == '/')
}

/// The shape of a canonical absolute file path: absolute, with a nonempty
/// final component and no empty components.
pub open spec fn path_ok(p: Seq<char>) -> bool {
    p.len() >= 2 && p[0] == '/' && p[p.len() - 1] != '/' && no_double_slash(p)
}

/// The shape of a canonical absolute directory path: the root `/`, or an
/// absolute path without a trailing slash and without empty components.
pub open spec fn dir_ok(d: Seq<char>) -> bool {
    d.len() >= 1 && d[0] == '/' && (d.len() == 1 || d[d.len() - 1] != '/') && no_double_slash(d)
}

/// The final component of a path: everything after the last slash.
pub open spec fn file_name_of(p: Seq<char>) -> Seq<char> {
    p.subrange(last_index_of(p, '/') + 1, p.len() as int)
}

/// The parent directory of a path: everything before the last slash, or
/// the root directory.
pub open spec fn dir_of(p: Seq<char>) -> Seq<char> {
    if last_index_of(p, '/') <= 0 {
        p.subrange(0, 1)
    } else {
        p.subrange(0, last_index_of(p, '/'))
    }
}

/// A directory path joined with a file name.
pub open spec fn join_of(d: Seq<char>, f: Seq<char>) -> Seq<char> {
    if d.len() == 1 {
        d + f
    } else {
        d + seq!['/'] + f
    }
}

/// Whether `p` lies strictly inside the directory `d`.
pub open spec fn within_dir(p: Seq<char>, d: Seq<char>) -> bool {
    d.len() < p.len() && p.subrange(0, d.len() as int) == d && (d.len() == 1 || p[d.len() as int]
        == '/')
}

/// A path is its parent directory joined with its file name, which is
/// nonempty and slash-free.
pub proof fn lemma_path_split(p: Seq<char>)
    requires
        path_ok(p),
    ensures
        join_of(dir_of(p), file_name_of(p)) =~= p,
        dir_ok(dir_of(p)),
        file_name_of(p).len() > 0,
        !file_name_of(p).contains('/'),
{
    lemma_last_index_of(p, '/');
    let last = last_index_of(p, '/');
    assert(last >= 0);
    assert(last < p.len() - 1);
    if last > 1 {
        assert(p[last - 1] != '/');
    }
    let f = file_name_of(p);
    assert(forall|j: int| 0 <= j < f.len() ==> f[j] == p[last + 1 + j]);
    assert(forall|j: int| 0 <= j < f.len() ==> f[j] != '/');
    assert(!f.contains('/')) by {
        if f.contains('/') {
            let w = choose|w: int| 0 <= w < f.len() && f[w] == '/';
            assert(f[w] != '/');
        }
    }
}

/// Stepping to the parent directory keeps a path inside the root it lies
/// in: the parent either is the root or still lies strictly inside it.
pub proof fn lemma_parent_within(d: Seq<char>, root: Seq<char>)
    requires
        dir_ok(d),
        dir_ok(root),
        within_dir(d, root),
    ensures
        dir_of(d) == root || within_dir(dir_of(d), root),
        dir_ok(dir_of(d)),
        dir_of(d).len() < d.len(),
{
    lemma_last_index_of(d, '/');
    let last = last_index_of(d, '/');
    if root.len() == 1 {
        assert(dir_of(d)[0] == d[0]);
        if dir_of(d).len() == 1 {
            assert(dir_of(d) =~= root);
        } else {
            assert(dir_of(d).subrange(0, 1) =~= root);
        }
    } else {
        assert(d[root.len() as int] == '/');
        assert(last >= root.len());
        if last == root.len() {
            assert(dir_of(d) =~= root);
        } else {
            assert(dir_of(d).subrange(0, root.len() as int) =~= root) by {
                assert(forall|j: int|
                    0 <= j < root.len() ==> dir_of(d)[j] == d[j] && d[j] == root[j]);
            }
        }
    }
}

/// The chain of candidate document paths: for each directory from `dir` up
/// to `root` (inclusive), the directory joined with the file name.
pub open spec fn discovery_chain(dir: Seq<char>, root: Seq<char>, fname: Seq<char>) -> Seq<
    Seq<char>,
>
    decreases dir.len(),
    via discovery_chain_dec
{
    if dir == root || !within_dir(dir, root) || !dir_ok(dir) || !dir_ok(root) {
        seq![join_of(dir, fname)]
    } else {
        seq![join_of(dir, fname)] + discovery_chain(dir_of(dir), root, fname)
    }
}

#[via_fn]
proof fn discovery_chain_dec(dir: Seq<char>, root: Seq<char>, fname: Seq<char>) {
    if !(dir == root || !within_dir(dir, root) || !dir_ok(dir) || !dir_ok(root)) {
        lemma_parent_within(dir, root);
    }
}

/// Law: the discovery chain from a leaf document's directory contains the
/// originating document itself, first; every candidate lies inside the
/// project root and carries the leaf's file name; and the chain is a pure
/// function of the leaf path and the root alone, so re-invocation returns
/// the same chain.
pub proof fn lemma_discovery_properties(dir: Seq<char>, root: Seq<char>, fname: Seq<char>)
    requires
        dir_ok(dir),
        dir_ok(root),
        dir == root || within_dir(dir, root),
        !fname.contains('/'),
        fname.len() > 0,
    ensures
        discovery_chain(dir, root, fname).len() >= 1,
        discovery_chain(dir, root, fname)[0] == join_of(dir, fname),
        forall|i: int|
            0 <= i < discovery_chain(dir, root, fname).len() ==> within_dir(
                #[trigger] discovery_chain(dir, root, fname)[i],
                root,
            ),
        forall|i: int|
            0 <= i < discovery_chain(dir, root, fname).len() ==> file_name_of(
                #[trigger] discovery_chain(dir, root, fname)[i],
            ) =~= fname,
    decreases dir.len(),
{
    let c = discovery_chain(dir, root, fname);
    lemma_last_index_of(dir, '/');
    assert(within_dir(join_of(dir, fname), root)) by {
        if dir.len() == 1 {
            assert(join_of(dir, fname).subrange(0, 1) =~= dir);
        } else {
            assert(join_of(dir, fname).subrange(0, dir.len() as int) =~= dir);
            assert(join_of(dir, fname)[dir.len() as int] == '/');
            if root.len() > 1 && within_dir(dir, root) {
                assert(join_of(dir, fname).subrange(0, root.len() as int) =~= root) by {
                    assert(forall|j: int|
                        0 <= j < root.len() ==> join_of(dir, fname)[j] == dir[j] && dir[j]
                            == root[j]);
                }
            }
            if root.len() == 1 {
                assert(join_of(dir, fname).subrange(0, 1) =~= root) by {
                    assert(join_of(dir, fname)[0] == dir[0]);
                }
            }
            if root.len() > 1 && dir == root {
                assert(join_of(dir, fname).subrange(0, root.len() as int) =~= root);
            }
        }
    }
    assert(file_name_of(join_of(dir, fname)) =~= fname) by {
        lemma_join_file_name(dir, fname);
    }
    if !(dir == root || !within_dir(dir, root)) {
        lemma_parent_within(dir, root);
        lemma_discovery_properties(dir_of(dir), root, fname);
        assert(forall|i: int| 1 <= i < c.len() ==> c[i] == discovery_chain(
            dir_of(dir),
            root,
            fname,
        )[i - 1]);
    }
}

/// A canonical absolute path to a configuration document. Only the shape
/// is checked here; that the path names an existing regular file with
/// valid unicode is the loader's concern, which checks it before
/// constructing the value.
#[derive(Debug, PartialEq)]
pub struct VerifiedPath(pub String);

impl View for VerifiedPath {
    type V = Seq<char>;

    open spec fn view(&self) -> Seq<char> {
        self.0@
    }
}

impl VerifiedPath {
    /// The path has the canonical absolute-file shape.
    pub open spec fn wf(&self) -> bool {
        path_ok(self@)
    }

    /// Checks that a path string has the canonical absolute-file shape.
    pub fn verify_path(path: String) -> (r: Result<VerifiedPath, Error>)
        ensures
            match r {
                Ok(v) => v@ == path@ && v.wf(),
                Err(e) => !path_ok(path@) && (e matches Error::Discovery(
                    DiscoveryError::InvalidPath { path: p },
                ) && p@ == path@),
            },
    {
        let len = path.as_str().unicode_len();
        let shape_ok: bool = if len < 2 {
            false
        } else if path.as_str().get_char(0) != '/' {
            false
        } else if path.as_str().get_char(len - 1) == '/' {
            false
        } else {
            let mut i: usize = 0;
            let mut good: bool = true;
            while i + 1 < len
                invariant
                    i < len,
                    2 <= len,
                    len == path@.len(),
                    good == (forall|j: int|
                        0 <= j < i ==> !((#[trigger] path@[j]) == '/' && path@[j + 1] == '/')),
                decreases len - i,
            {
                if path.as_str().get_char(i) == '/' && path.as_str().get_char(i + 1) == '/' {
                    good = false;
                }
                i += 1;
            }
            good
        };
        if shape_ok {
            Ok(VerifiedPath(path))
        } else {
            Err(Error::Discovery(DiscoveryError::InvalidPath { path }))
        }
    }

    /// The file-name component of the path.
    pub fn get_file_name(&self) -> (r: String)
        requires
            self.wf(),
        ensures
            r@ == file_name_of(self@),
            r@.len() > 0,
            !r@.contains('/'),
    {
        proof {
            lemma_path_split(self@);
        }
        let len = self.0.as_str().unicode_len();
        let last = match find_last_char(self.0.as_str(), '/') {
            Some(i) => i,
            None => 0,
        };
        self.0.as_str().substring_char(last + 1, len).to_owned()
    }
}

/// The parent directory of a canonical path string.
pub fn parent_dir(path: &str) -> (r: String)
    requires
        path@.len() >= 1,
        path@[0] == '/',
    ensures
        r@ == dir_of(path@),
{
    let len = path.unicode_len();
    match find_last_char(path, '/') {
        Some(i) => {
            if i == 0 {
                path.substring_char(0, 1).to_owned()
            } else {
                path.substring_char(0, i).to_owned()
            }
        },
        None => path.substring_char(0, 1).to_owned(),
    }
}

/// A directory path joined with a file name.
pub fn join_path(dir: &str, fname: &str) -> (r: String)
    requires
        dir@.len() >= 1,
    ensures
        r@ == join_of(dir@, fname@),
{
    let mut out = dir.to_owned();
    if dir.unicode_len() != 1 {
        out.append("/");
        proof {
            reveal_strlit("/");
            assert(out@ =~= dir@ + seq!['/']);
        }
    }
    out.append(fname);
    proof {
        if dir@.len() != 1 {
            assert(out@ =~= dir@ + seq!['/'] + fname@);
        }
    }
    out
}

/// The candidate document paths between a leaf document and the project
/// root: for each directory from the leaf's directory up to the root
/// (inclusive), that directory joined with the leaf's file name, innermost
/// first. The first candidate is the originating document itself. The
/// result is a pure function of the leaf path and the root, so
/// re-invocation returns the same candidates.
pub fn candidate_paths(leaf: &VerifiedPath, root_dir: &str) -> (r: Vec<String>)
    requires
        leaf.wf(),
        dir_ok(root_dir@),
        dir_of(leaf@) == root_dir@ || within_dir(dir_of(leaf@), root_dir@),
    ensures
        r@.len() == discovery_chain(dir_of(leaf@), root_dir@, file_name_of(leaf@)).len(),
        forall|i: int|
            0 <= i < r@.len() ==> (#[trigger] r@[i])@ == discovery_chain(
                dir_of(leaf@),
                root_dir@,
                file_name_of(leaf@),
            )[i],
        r@.len() >= 1,
        r@[0]@ == leaf@,
{
    proof {
        lemma_path_split(leaf@);
    }
    let fname = leaf.get_file_name();
    let mut cur = parent_dir(leaf.0.as_str());
    let ghost d0 = dir_of(leaf@);
    let ghost rootv = root_dir@;
    let ghost fnv = file_name_of(leaf@);
    let mut out: Vec<String> = Vec::new();
    let ghost whole = discovery_chain(d0, rootv, fnv);
    proof {
        lemma_discovery_properties(d0, rootv, fnv);
    }
    while !str_eq(cur.as_str(), root_dir)
        invariant
            dir_ok(cur@),
            dir_ok(rootv),
            rootv == root_dir@,
            fname@ == fnv,
            fnv.len() > 0,
            !fnv.contains('/'),
            cur@ == rootv || within_dir(cur@, rootv),
            whole == discovery_chain(d0, rootv, fnv),
            whole =~= out@.map_values(|s: String| s@) + discovery_chain(cur@, rootv, fnv),
        decreases cur@.len(),
    {
        let ghost out0 = out@;
        out.push(join_path(cur.as_str(), fname.as_str()));
        proof {
            lemma_parent_within(cur@, rootv);
            assert(out@.map_values(|s: String| s@) =~= out0.map_values(|s: String| s@).push(
                join_of(cur@, fnv),
            ));
            assert(whole =~= out@.map_values(|s: String| s@) + discovery_chain(
                dir_of(cur@),
                rootv,
                fnv,
            ));
        }
        cur = parent_dir(cur.as_str());
    }
    let ghost out0 = out@;
    out.push(join_path(cur.as_str(), fname.as_str()));
    proof {
        assert(out@.map_values(|s: String| s@) =~= out0.map_values(|s: String| s@).push(
            join_of(cur@, fnv),
        ));
        assert(discovery_chain(cur@, rootv, fnv) =~= seq![join_of(cur@, fnv)]);
        assert(whole =~= out@.map_values(|s: String| s@));
        assert(forall|i: int|
            0 <= i < out@.len() ==> (#[trigger] out@[i])@ == out@.map_values(|s: String| s@)[i]);
        assert(whole[0] == join_of(d0, fnv));
        assert(join_of(dir_of(leaf@), file_name_of(leaf@)) == leaf@) by {
            lemma_path_split(leaf@);
        }
    }
    out
}

/// The position of the first directory that holds the project-root marker.
/// `dirs` are the candidate ancestor directories, innermost first;
/// `has_marker` says, for each, whether the marker was found there. When no
/// directory holds the marker, discovery fails: this is the mandatory part
/// of the walk.
pub fn find_root_folder(dirs: &Vec<String>, has_marker: &Vec<bool>) -> (r: Result<usize, Error>)
    requires
        dirs@.len() == has_marker@.len(),
    ensures
        match r {
            Ok(i) => i < dirs@.len() && has_marker@[i as int] && (forall|j: int|
                0 <= j < i ==> !has_marker@[j]),
            Err(e) => e == Error::Discovery(DiscoveryError::RootFolder) && (forall|j: int|
                0 <= j < has_marker@.len() ==> !has_marker@[j]),
        },
{
    let n = has_marker.len();
    let mut i: usize = 0;
    while i < n
        invariant
            i <= n,
            n == has_marker@.len(),
            n == dirs@.len(),
            forall|j: int| 0 <= j < i ==> !has_marker@[j],
        decreases n - i,
    {
        if has_marker[i] {
            return Ok(i);
        }
        i += 1;
    }
    Err(Error::Discovery(DiscoveryError::RootFolder))
}

/// Joining a directory with a slash-free file name and taking the file
/// name back returns the file name.
pub proof fn lemma_join_file_name(d: Seq<char>, f: Seq<char>)
    requires
        dir_ok(d),
        !f.contains('/'),
    ensures
        file_name_of(join_of(d, f)) =~= f,
{
    let p = join_of(d, f);
    lemma_last_index_of(p, '/');
    let cut: int = if d.len() == 1 {
        0
    } else {
        d.len() as int
    };
    assert(p[cut] == '/');
    assert(forall|j: int| 0 <= j < f.len() ==> f[j] != '/');
    assert(forall|j: int| cut < j < p.len() ==> p[j] == f[j - cut - 1]);
    assert(forall|j: int| cut < j < p.len() ==> p[j] != '/');
    assert(last_index_of(p, '/') == cut);
}

} // verus!
