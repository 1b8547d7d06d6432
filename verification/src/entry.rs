//! One directory's listing, and its split into the files to hand over and the
//! subdirectories to visit.

use std::path::PathBuf;
use vstd::prelude::*;

verus! {

/// `std::path::PathBuf`, carried through as an opaque value: the traversal
/// never looks inside a path.
#[verifier::external_type_specification]
#[verifier::external_body]
pub struct ExPathBuf(std::path::PathBuf);

/// One entry of a directory's listing.
#[derive(Debug)]
pub struct Entry {
    /// The entry's absolute path.
    pub path: PathBuf,
    /// Whether the entry is a directory.
    pub is_dir: bool,
}

/// The paths of the entries of `listing` that are not directories, in the
/// order of the listing.
pub open spec fn files_of(listing: Seq<Entry>) -> Seq<PathBuf>
    decreases listing.len(),
{
    if listing.len() == 0 {
        Seq::empty()
    } else if listing.last().is_dir {
        files_of(listing.drop_last())
    } else {
        files_of(listing.drop_last()).push(listing.last().path)
    }
}

/// The paths of the entries of `listing` that are directories, in the order
/// of the listing.
pub open spec fn dirs_of(listing: Seq<Entry>) -> Seq<PathBuf>
    decreases listing.len(),
{
    if listing.len() == 0 {
        Seq::empty()
    } else if listing.last().is_dir {
        dirs_of(listing.drop_last()).push(listing.last().path)
    } else {
        dirs_of(listing.drop_last())
    }
}

/// Splits a listing into its files and its subdirectories; each side keeps
/// the order of the listing.
pub fn partition(listing: Vec<Entry>) -> (r: (Vec<PathBuf>, Vec<PathBuf>))
    ensures
        r.0@ == files_of(listing@),
        r.1@ == dirs_of(listing@),
{
    let mut files: Vec<PathBuf> = Vec::new();
    let mut dirs: Vec<PathBuf> = Vec::new();
    let ghost all = listing@;
    for e in it: listing.into_iter()
        invariant
            it.seq() == all,
            files@ == files_of(all.take(it.index() as int)),
            dirs@ == dirs_of(all.take(it.index() as int)),
    {
        proof {
            let k = it.index() as int;
            assert(all.take(k + 1).drop_last() == all.take(k));
            assert(all.take(k + 1).last() == all[k]);
        }
        if e.is_dir {
            dirs.push(e.path);
        } else {
            files.push(e.path);
        }
    }
    proof {
        assert(all.take(all.len() as int) == all);
    }
    (files, dirs)
}

} // verus!
