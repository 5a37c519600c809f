//! Whether two paths hold the same thing, decided from what the filesystem
//! shows of each.

use vstd::prelude::*;

use crate::path::FilePath;

verus! {

/// What the filesystem shows of a path, for comparing it with another.
#[derive(Clone, Debug, PartialEq, Eq)]
pub struct PathFacts {
    /// Whether it is a directory.
    pub is_dir: bool,
    /// Whether it is a symlink.
    pub is_symlink: bool,
    /// The size in its metadata, if it could be read.
    pub size: Option<u64>,
    /// Its inode number, if it could be read.
    pub inode: Option<u64>,
    /// Where it links to, if it is a symlink and the link could be read.
    pub link: Option<FilePath>,
}

/// Whether both paths are directories.
pub fn dirs_match(lhs_is_dir: bool, rhs_is_dir: bool) -> (r: bool)
    ensures
        r == (lhs_is_dir && rhs_is_dir),
{
    lhs_is_dir && rhs_is_dir
}

/// Whether two files match: their sizes are the same, or their contents
/// are.
pub fn files_match(lhs_size: u64, rhs_size: u64, same_contents: bool) -> (r: bool)
    ensures
        r == (lhs_size == rhs_size || same_contents),
{
    lhs_size == rhs_size || same_contents
}

/// Whether two paths are hard links to the same file: they have the same
/// inode.
pub fn hard_links_match(lhs_inode: u64, rhs_inode: u64) -> (r: bool)
    ensures
        r == (lhs_inode == rhs_inode),
{
    lhs_inode == rhs_inode
}

/// Why two paths couldn't be compared.
#[derive(Clone, Copy, Debug, PartialEq, Eq)]
pub enum CompareError {
    /// The metadata of one of them couldn't be read.
    Metadata,
    /// The contents of one of them couldn't be read as text.
    Contents,
    /// One of them is a symlink whose target couldn't be read.
    Link,
}

/// Whether two paths are symlinks to the same place: false when either
/// isn't a symlink, an error when both are and a target couldn't be read.
pub open spec fn spec_soft_links_match(lhs: PathFacts, rhs: PathFacts) -> Result<bool, CompareError> {
    if !(lhs.is_symlink && rhs.is_symlink) {
        Ok(false)
    } else {
        match (lhs.link, rhs.link) {
            (Some(a), Some(b)) => Ok(a@ == b@),
            _ => Err(CompareError::Link),
        }
    }
}

/// Whether two paths are hard links to the same file, else symlinks to the
/// same place; the metadata of both has to be readable.
pub open spec fn spec_links_match(lhs: PathFacts, rhs: PathFacts) -> Result<bool, CompareError> {
    match (lhs.inode, rhs.inode) {
        (Some(a), Some(b)) => if a == b {
            Ok(true)
        } else {
            spec_soft_links_match(lhs, rhs)
        },
        _ => Err(CompareError::Metadata),
    }
}

/// Whether two entries match, tried in turn as directories, files (the same
/// size, else the same contents), hard links and symlinks; the first test
/// that holds decides, and a test that can't read what it needs fails the
/// comparison. `same_contents` is whether both contents could be read as
/// text and are equal, `None` when either couldn't be read.
pub open spec fn spec_entries_match(lhs: PathFacts, rhs: PathFacts, same_contents: Option<bool>) -> Result<
    bool,
    CompareError,
> {
    if lhs.is_dir && rhs.is_dir {
        Ok(true)
    } else {
        match (lhs.size, rhs.size) {
            (Some(a), Some(b)) => if a == b {
                Ok(true)
            } else {
                match same_contents {
                    None => Err(CompareError::Contents),
                    Some(true) => Ok(true),
                    Some(false) => spec_links_match(lhs, rhs),
                }
            },
            _ => Err(CompareError::Metadata),
        }
    }
}

/// Whether two paths are symlinks to the same place.
pub fn soft_links_match(lhs: &PathFacts, rhs: &PathFacts) -> (r: Result<bool, CompareError>)
    ensures
        r == spec_soft_links_match(*lhs, *rhs),
{
    if !(lhs.is_symlink && rhs.is_symlink) {
        return Ok(false);
    }
    match (&lhs.link, &rhs.link) {
        (Some(a), Some(b)) => Ok(a.path_eq(b)),
        _ => Err(CompareError::Link),
    }
}

/// Whether the first entries of two walked trees match (see
/// `spec_entries_match`); two walks of which one is empty match.
pub fn all_match(first: Option<(&PathFacts, &PathFacts)>, same_contents: Option<bool>) -> (r: Result<
    bool,
    CompareError,
>)
    ensures
        match first {
            None => r == Ok::<bool, CompareError>(true),
            Some((lhs, rhs)) => r == spec_entries_match(*lhs, *rhs, same_contents),
        },
{
    match first {
        None => Ok(true),
        Some((lhs, rhs)) => {
            if dirs_match(lhs.is_dir, rhs.is_dir) {
                return Ok(true);
            }
            match (lhs.size, rhs.size) {
                (Some(a), Some(b)) => {
                    if a != b {
                        match same_contents {
                            None => return Err(CompareError::Contents),
                            Some(same) => {
                                if files_match(a, b, same) {
                                    return Ok(true);
                                }
                            },
                        }
                    }
                    if a == b {
                        return Ok(true);
                    }
                },
                _ => return Err(CompareError::Metadata),
            }
            match (lhs.inode, rhs.inode) {
                (Some(a), Some(b)) => {
                    if hard_links_match(a, b) {
                        return Ok(true);
                    }
                },
                _ => return Err(CompareError::Metadata),
            }
            soft_links_match(lhs, rhs)
        },
    }
}

/// Whether the entries of two walks match pair by pair from index `i` on:
/// the first pair that doesn't match, or can't be compared, decides.
pub open spec fn spec_pairs_match_from(
    lhs: Seq<PathFacts>,
    rhs: Seq<PathFacts>,
    same_contents: Seq<Option<bool>>,
    i: int,
) -> Result<bool, CompareError>
    decreases lhs.len() - i,
{
    if i < 0 || i >= lhs.len() {
        Ok(true)
    } else {
        match spec_entries_match(lhs[i], rhs[i], same_contents[i]) {
            Ok(true) => spec_pairs_match_from(lhs, rhs, same_contents, i + 1),
            other => other,
        }
    }
}

/// Whether two walked trees hold the same files: as many entries, and
/// every pair, in order, matching (see `spec_entries_match`).
pub open spec fn spec_walks_match(
    lhs: Seq<PathFacts>,
    rhs: Seq<PathFacts>,
    same_contents: Seq<Option<bool>>,
) -> Result<bool, CompareError> {
    if lhs.len() != rhs.len() {
        Ok(false)
    } else {
        spec_pairs_match_from(lhs, rhs, same_contents, 0)
    }
}

/// Whether two paths hold the same files, from what the filesystem shows
/// of the entries of the two walks, in the order walked; `same_contents[i]`
/// tells of the `i`th pair as in `all_match`.
pub fn walks_match(lhs: &Vec<PathFacts>, rhs: &Vec<PathFacts>, same_contents: &Vec<Option<bool>>) -> (r:
    Result<bool, CompareError>)
    requires
        lhs@.len() == rhs@.len() ==> same_contents@.len() == lhs@.len(),
    ensures
        r == spec_walks_match(lhs@, rhs@, same_contents@),
{
    if lhs.len() != rhs.len() {
        return Ok(false);
    }
    let n = lhs.len();
    let mut i: usize = 0;
    while i < n
        invariant
            n == lhs@.len(),
            n == rhs@.len(),
            n == same_contents@.len(),
            i <= n,
            spec_pairs_match_from(lhs@, rhs@, same_contents@, 0) == spec_pairs_match_from(
                lhs@,
                rhs@,
                same_contents@,
                i as int,
            ),
        decreases n - i,
    {
        let pair = all_match(Some((&lhs[i], &rhs[i])), same_contents[i]);
        match pair {
            Ok(true) => {},
            _ => {
                return pair;
            },
        }
        i = i + 1;
    }
    Ok(true)
}

} // verus!
