//! The virtual file set: an immutable path-to-text table built from the
//! caller's file list, standing in for the real filesystem within one call.
//!
//! Duplicate paths are resolved by a last-occurrence-wins policy: a lookup
//! returns the contents of the last file in the list with the requested
//! path.  The table is built fresh for every call and never shared.

use vstd::prelude::*;

use crate::model::SourceFile;
use crate::model::SourceFileV;
use crate::model::file_views;
use crate::text::str_eq;

verus! {

/// The contents bound to `path` in `files`, under the last-wins policy,
/// or `None` when no file in the list has that path.
pub open spec fn vfs_get(files: Seq<SourceFileV>, path: Seq<char>) -> Option<Seq<char>>
    decreases files.len(),
{
    if files.len() == 0 {
        None
    } else if files.last().path == path {
        Some(files.last().contents)
    } else {
        vfs_get(files.drop_last(), path)
    }
}

/// Whether `path` names a file of the set.
pub open spec fn vfs_contains(files: Seq<SourceFileV>, path: Seq<char>) -> bool {
    vfs_get(files, path) is Some
}

/// The virtual file set of one call.  It owns its table: the caller's list
/// is copied in, so later changes to the caller's data cannot reach a call
/// in flight.
pub struct Vfs {
    pub files: Vec<SourceFile>,
}

impl View for Vfs {
    type V = Seq<SourceFileV>;

    open spec fn view(&self) -> Seq<SourceFileV> {
        file_views(self.files@)
    }
}

impl Vfs {
    /// Builds the table from the caller's file list.
    pub fn new(files: &Vec<SourceFile>) -> (r: Vfs)
        ensures
            r@ == file_views(files@),
    {
        let mut copied: Vec<SourceFile> = Vec::new();
        let mut i: usize = 0;
        while i < files.len()
            invariant
                0 <= i <= files.len(),
                copied@.len() == i,
                forall|j: int| 0 <= j < i ==> copied@[j]@ == files@[j]@,
            decreases files.len() - i,
        {
            let f = SourceFile {
                path: files[i].path.clone(),
                contents: files[i].contents.clone(),
            };
            copied.push(f);
            i = i + 1;
        }
        assert(file_views(copied@) =~= file_views(files@));
        Vfs { files: copied }
    }

    /// Resolves `path` against the table, last occurrence winning.
    pub fn get<'a>(&'a self, path: &str) -> (r: Option<&'a String>)
        ensures
            match r {
                Some(contents) => vfs_get(self@, path@) == Some(contents@),
                None => vfs_get(self@, path@) is None,
            },
    {
        let mut i: usize = self.files.len();
        assert(self@.take(self.files@.len() as int) =~= self@);
        while i > 0
            invariant
                0 <= i <= self.files.len(),
                vfs_get(self@, path@) == vfs_get(self@.take(i as int), path@),
            decreases i,
        {
            i = i - 1;
            assert(self@.take(i as int + 1).last() == self@[i as int]);
            assert(self@.take(i as int + 1).drop_last() =~= self@.take(i as int));
            if str_eq(self.files[i].path.as_str(), path) {
                return Some(&self.files[i].contents);
            }
        }
        assert(self@.take(0) =~= Seq::<SourceFileV>::empty());
        None
    }

    /// Whether `path` names a file of the set.
    pub fn contains(&self, path: &str) -> (r: bool)
        ensures
            r == vfs_contains(self@, path@),
    {
        match self.get(path) {
            Some(_) => true,
            None => false,
        }
    }
}

} // verus!
