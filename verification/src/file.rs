use vstd::prelude::*;
use crate::model::FileV;
use crate::my_cow::{Cow, CowBytes};

verus! {

/// Best-effort timestamps for a file, each in seconds since an epoch.
/// Access and creation times are unavailable on some platforms; a
/// modification time is expected whenever metadata is present at all.
#[derive(Debug, Clone, Copy)]
pub struct Metadata {
    pub accessed: Option<u64>,
    pub created: Option<u64>,
    pub modified: u64,
}

impl Metadata {
    /// Bundle the three timestamps.
    pub fn new(accessed: Option<u64>, created: Option<u64>, modified: u64) -> (r: Self)
        ensures
            r == (Metadata { accessed, created, modified }),
    {
        Metadata { accessed, created, modified }
    }
}

/// A leaf entry of the tree: a root-relative path, the raw bytes of the
/// file, and optional timestamp metadata.
#[derive(Debug)]
pub struct File<'a> {
    pub(crate) path: Cow<'a>,
    pub(crate) contents: CowBytes<'a>,
    pub(crate) metadata: Option<Metadata>,
}

impl<'a> View for File<'a> {
    type V = FileV;

    open(crate) spec fn view(&self) -> FileV {
        FileV { path: self.path@, contents: self.contents@, metadata: self.metadata }
    }
}

/// Names what `core::str::from_utf8` returns: the decoded character
/// sequence of a byte sequence, or nothing when the bytes are not valid
/// UTF-8. The result depends on the bytes alone.
pub uninterp spec fn utf8_decode(bytes: Seq<u8>) -> Option<Seq<char>>;

/// Relies on `core::str::from_utf8`: it succeeds exactly on valid UTF-8
/// and returns the string whose bytes these are.
#[verifier::external_body]
fn bytes_to_utf8(bytes: &[u8]) -> (r: Option<&str>)
    ensures
        match r {
            Some(s) => utf8_decode(bytes@) == Some(s@),
            None => utf8_decode(bytes@) is None,
        },
{
    core::str::from_utf8(bytes).ok()
}

impl<'a> File<'a> {
    /// Create a new [`File`] over borrowed path and contents.
    pub fn new(path: &'a str, contents: &'a [u8]) -> (r: Self)
        ensures
            r@ == (FileV { path: path@, contents: contents@, metadata: None }),
    {
        File { path: Cow::Borrowed(path), contents: CowBytes::Borrowed(contents), metadata: None }
    }

    /// Create a new [`File`] that owns its path and contents, as produced
    /// by a runtime read of a real filesystem.
    pub fn new_owned(path: String, contents: Vec<u8>) -> (r: Self)
        ensures
            r@ == (FileV { path: path@, contents: contents@, metadata: None }),
    {
        File { path: Cow::Owned(path), contents: CowBytes::Owned(contents), metadata: None }
    }

    /// The full path for this [`File`], relative to the tree's root.
    pub fn path(&self) -> (r: &str)
        ensures
            r@ == self@.path,
    {
        self.path.as_str()
    }

    /// The file's raw contents.
    pub fn contents(&self) -> (r: &[u8])
        ensures
            r@ == self@.contents,
    {
        self.contents.as_bytes()
    }

    /// The file's contents interpreted as a string; absent when they are
    /// not valid UTF-8.
    pub fn contents_utf8(&self) -> (r: Option<&str>)
        ensures
            match r {
                Some(s) => utf8_decode(self@.contents) == Some(s@),
                None => utf8_decode(self@.contents) is None,
            },
    {
        bytes_to_utf8(self.contents.as_bytes())
    }

    /// A copy of this [`File`] with the given [`Metadata`] attached; the
    /// original value is consumed, never mutated.
    pub fn with_metadata(self, metadata: Metadata) -> (r: Self)
        ensures
            r@ == (FileV { metadata: Some(metadata), ..self@ }),
    {
        let File { path, contents, .. } = self;
        File { path, contents, metadata: Some(metadata) }
    }

    /// The file's [`Metadata`], if any was attached.
    pub fn metadata(&self) -> (r: Option<&Metadata>)
        ensures
            match r {
                Some(m) => self@.metadata == Some(*m),
                None => self@.metadata is None,
            },
    {
        self.metadata.as_ref()
    }
}

} // verus!
