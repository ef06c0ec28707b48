use vstd::prelude::*;
use crate::dir::Dir;
use crate::file::File;
use crate::model::{entry_children, entry_path, entry_view, entries_view, EntryV};

verus! {

/// A directory entry: either a subdirectory or a file.
#[derive(Debug)]
pub enum DirEntry<'a> {
    /// A directory.
    Dir(Dir<'a>),
    /// A file.
    File(File<'a>),
}

impl<'a> View for DirEntry<'a> {
    type V = EntryV;

    open(crate) spec fn view(&self) -> EntryV {
        entry_view(*self)
    }
}

impl<'a> DirEntry<'a> {
    /// The entry's full root-relative path, whichever variant it is.
    pub fn path(&self) -> (r: &str)
        ensures
            r@ == entry_path(self@),
    {
        match self {
            DirEntry::Dir(d) => d.path(),
            DirEntry::File(f) => f.path(),
        }
    }

    /// This entry as a [`Dir`], if it is one.
    pub fn as_dir(&self) -> (r: Option<&Dir<'a>>)
        ensures
            match r {
                Some(d) => self@ == EntryV::Dir(d@),
                None => self@ is File,
            },
    {
        match self {
            DirEntry::Dir(d) => Some(d),
            DirEntry::File(_) => None,
        }
    }

    /// This entry as a [`File`], if it is one.
    pub fn as_file(&self) -> (r: Option<&File<'a>>)
        ensures
            match r {
                Some(f) => self@ == EntryV::File(f@),
                None => self@ is Dir,
            },
    {
        match self {
            DirEntry::File(f) => Some(f),
            DirEntry::Dir(_) => None,
        }
    }

    /// The entry's direct children: a directory's entries, or nothing for
    /// a file.
    pub fn children(&self) -> (r: &[DirEntry<'a>])
        ensures
            entries_view(r@) == entry_children(self@),
    {
        match self {
            DirEntry::Dir(d) => d.entries(),
            DirEntry::File(_) => &[],
        }
    }
}

} // verus!
