//! The file sandbox: which paths the file tools may read or write, once the file
//! system has resolved them.
use vstd::prelude::*;

verus! {

/// What resolving a tool's file path against the file system gave.
#[derive(Clone, Debug, PartialEq)]
pub enum Resolution {
    /// The path, or for a file that does not exist yet its parent directory,
    /// resolved to this canonical path, given component by component as bytes.
    Resolved(Vec<Vec<u8>>),
    /// The path names no parent directory at all (the empty path, or a root);
    /// nothing places it under an allowed directory.
    NoParent,
    /// Neither the path nor its parent directory resolved, or the path is a bare
    /// file name that does not exist.
    Unresolved,
}

/// Components of a path, each as its bytes.
pub open spec fn components(v: Seq<Vec<u8>>) -> Seq<Seq<u8>> {
    v.map_values(|c: Vec<u8>| c@)
}

/// Components of each of a list of paths.
pub open spec fn all_components(dirs: Seq<Vec<Vec<u8>>>) -> Seq<Seq<Seq<u8>>> {
    dirs.map_values(|d: Vec<Vec<u8>>| components(d@))
}

/// `dir` is a leading part of `path`, whole component by whole component.
pub open spec fn is_under(path: Seq<Seq<u8>>, dir: Seq<Seq<u8>>) -> bool {
    dir.len() <= path.len() && path.subrange(0, dir.len() as int) == dir
}

/// The file tools may touch the resolved path: with no allowed directories at all
/// there is no sandbox; otherwise the path must have resolved, and lie under one
/// of them.
pub open spec fn sandbox_allows(dirs: Seq<Seq<Seq<u8>>>, resolution: Resolution) -> bool {
    dirs.len() == 0 || match resolution {
        Resolution::Resolved(path) => exists|i: int|
            0 <= i < dirs.len() && #[trigger] is_under(components(path@), dirs[i]),
        Resolution::NoParent => false,
        Resolution::Unresolved => false,
    }
}

fn same_bytes(a: &Vec<u8>, b: &Vec<u8>) -> (r: bool)
    ensures
        r == (a@ == b@),
{
    if a.len() != b.len() {
        return false;
    }
    let mut i: usize = 0;
    while i < a.len()
        invariant
            a.len() == b.len(),
            i <= a.len(),
            forall|j: int| 0 <= j < i ==> a@[j] == b@[j],
        decreases a.len() - i,
    {
        if a[i] != b[i] {
            return false;
        }
        i = i + 1;
    }
    assert(a@ =~= b@);
    true
}

/// Whether `dir` is a leading part of `path`, component by component.
fn starts_with(path: &Vec<Vec<u8>>, dir: &Vec<Vec<u8>>) -> (r: bool)
    ensures
        r == is_under(components(path@), components(dir@)),
{
    if dir.len() > path.len() {
        return false;
    }
    let mut i: usize = 0;
    while i < dir.len()
        invariant
            dir.len() <= path.len(),
            i <= dir.len(),
            forall|j: int| 0 <= j < i ==> path@[j]@ == dir@[j]@,
        decreases dir.len() - i,
    {
        if !same_bytes(&path[i], &dir[i]) {
            assert(components(path@).subrange(0, dir.len() as int)[i as int] != components(dir@)[i as int]);
            return false;
        }
        i = i + 1;
    }
    assert(components(path@).subrange(0, dir.len() as int) =~= components(dir@));
    true
}

/// Check a resolved file path against the allowed directories (themselves
/// resolved, component by component).
pub fn path_allowed(resolution: &Resolution, dirs: &Vec<Vec<Vec<u8>>>) -> (r: bool)
    ensures
        r == sandbox_allows(all_components(dirs@), *resolution),
{
    if dirs.len() == 0 {
        return true;
    }
    let path = match resolution {
        Resolution::Resolved(path) => path,
        Resolution::NoParent => {
            return false;
        },
        Resolution::Unresolved => {
            return false;
        },
    };
    let ghost ds = all_components(dirs@);
    let mut i: usize = 0;
    while i < dirs.len()
        invariant
            i <= dirs.len(),
            ds == all_components(dirs@),
            *resolution == Resolution::Resolved(*path),
            forall|j: int| 0 <= j < i ==> !is_under(components(path@), #[trigger] ds[j]),
        decreases dirs.len() - i,
    {
        if starts_with(path, &dirs[i]) {
            assert(is_under(components(path@), ds[i as int]));
            assert(resolution matches Resolution::Resolved(p) && p@ == path@);
            return true;
        }
        i = i + 1;
    }
    false
}

/// When there are allowed directories, a path that the sandbox lets through has
/// resolved and lies under one of them.
pub proof fn law_sandbox_keeps_inside(dirs: Seq<Seq<Seq<u8>>>, resolution: Resolution)
    requires
        dirs.len() > 0,
        sandbox_allows(dirs, resolution),
    ensures
        resolution matches Resolution::Resolved(path) && exists|i: int|
            0 <= i < dirs.len() && #[trigger] is_under(components(path@), dirs[i]),
{
}

} // verus!
