use vstd::prelude::*;
use crate::dir_entry::DirEntry;
use crate::file::File;
use crate::model::{
    action_of, dir_view, dirs_of, entries_height, entries_plan, entries_view, entry_height,
    entry_plan, entry_view, files_of, joined_path, lemma_entries_height_index, lemma_entries_view,
    lemma_plan_take_step, lookup_entries, lookup_entry, ActionV, DirV, EntryV,
};
use crate::my_cow::{str_eq, Cow};
use vstd::string::StringExecFns;

verus! {

/// A directory: a root-relative path and an ordered sequence of entries.
/// The order is construction order and is preserved by every operation.
#[derive(Debug)]
pub struct Dir<'a> {
    pub(crate) path: Cow<'a>,
    pub(crate) entries: Vec<DirEntry<'a>>,
}

impl<'a> View for Dir<'a> {
    type V = DirV;

    open(crate) spec fn view(&self) -> DirV {
        dir_view(*self)
    }
}

impl<'a> Dir<'a> {
    /// Create a new [`Dir`] over a borrowed path.
    pub fn new(path: &'a str, entries: Vec<DirEntry<'a>>) -> (r: Self)
        ensures
            r@ == (DirV { path: path@, entries: entries_view(entries@) }),
    {
        Dir { path: Cow::Borrowed(path), entries }
    }

    /// Create a new [`Dir`] that owns its path, as produced by a runtime
    /// read of a real filesystem.
    pub fn new_owned(path: String, entries: Vec<DirEntry<'a>>) -> (r: Self)
        ensures
            r@ == (DirV { path: path@, entries: entries_view(entries@) }),
    {
        Dir { path: Cow::Owned(path), entries }
    }

    /// The full path for this [`Dir`], relative to the tree's root.
    pub fn path(&self) -> (r: &str)
        ensures
            r@ == self@.path,
    {
        self.path.as_str()
    }

    /// The entries within this [`Dir`], in construction order.
    pub fn entries(&self) -> (r: &[DirEntry<'a>])
        ensures
            entries_view(r@) == self@.entries,
    {
        self.entries.as_slice()
    }

    /// The files among this directory's direct children, in order.
    pub fn files(&self) -> (r: Vec<&File<'a>>)
        ensures
            r@.map_values(|f: &File<'a>| f@) == files_of(self@.entries),
    {
        proof {
            lemma_entries_view(self.entries@);
        }
        let mut out: Vec<&File<'a>> = Vec::new();
        let mut i: usize = 0;
        proof {
            assert(self@.entries.take(0) =~= Seq::<EntryV>::empty());
            assert(out@.map_values(|f: &File<'a>| f@) =~= Seq::<crate::model::FileV>::empty());
        }
        while i < self.entries.len()
            invariant
                i <= self.entries.len(),
                entries_view(self.entries@) == self@.entries,
                self.entries@.len() == self@.entries.len(),
                forall|j: int| 0 <= j < self.entries@.len() ==> self@.entries[j]
                    == self.entries@[j]@,
                out@.map_values(|f: &File<'a>| f@) == files_of(self@.entries.take(i as int)),
            decreases self.entries.len() - i,
        {
            let ghost pre = out@;
            match &self.entries[i] {
                DirEntry::File(f) => {
                    out.push(f);
                    proof {
                        assert(out@.map_values(|f: &File<'a>| f@) =~= pre.map_values(
                            |f: &File<'a>| f@,
                        ) + seq![self.entries@[i as int]@->File_0]);
                    }
                },
                DirEntry::Dir(_) => {},
            }
            proof {
                crate::model::lemma_files_of_take_step(self@.entries, i as int);
            }
            i = i + 1;
        }
        proof {
            assert(self@.entries.take(self@.entries.len() as int) =~= self@.entries);
        }
        out
    }

    /// The subdirectories among this directory's direct children, in
    /// order.
    pub fn dirs(&self) -> (r: Vec<&Dir<'a>>)
        ensures
            r@.map_values(|d: &Dir<'a>| d@) == dirs_of(self@.entries),
    {
        proof {
            lemma_entries_view(self.entries@);
        }
        let mut out: Vec<&Dir<'a>> = Vec::new();
        let mut i: usize = 0;
        proof {
            assert(self@.entries.take(0) =~= Seq::<EntryV>::empty());
            assert(out@.map_values(|d: &Dir<'a>| d@) =~= Seq::<DirV>::empty());
        }
        while i < self.entries.len()
            invariant
                i <= self.entries.len(),
                entries_view(self.entries@) == self@.entries,
                self.entries@.len() == self@.entries.len(),
                forall|j: int| 0 <= j < self.entries@.len() ==> self@.entries[j]
                    == self.entries@[j]@,
                out@.map_values(|d: &Dir<'a>| d@) == dirs_of(self@.entries.take(i as int)),
            decreases self.entries.len() - i,
        {
            let ghost pre = out@;
            match &self.entries[i] {
                DirEntry::Dir(d) => {
                    out.push(d);
                    proof {
                        assert(out@.map_values(|d: &Dir<'a>| d@) =~= pre.map_values(
                            |d: &Dir<'a>| d@,
                        ) + seq![self.entries@[i as int]@->Dir_0]);
                    }
                },
                DirEntry::File(_) => {},
            }
            proof {
                crate::model::lemma_dirs_of_take_step(self@.entries, i as int);
            }
            i = i + 1;
        }
        proof {
            assert(self@.entries.take(self@.entries.len() as int) =~= self@.entries);
        }
        out
    }

    /// Recursively search for the entry with exactly this path: pre-order
    /// depth-first, each child's subtree exhausted before the next
    /// sibling, first match wins.
    pub fn get_entry<'s>(&'s self, path: &str) -> (r: Option<&'s DirEntry<'a>>)
        ensures
            match r {
                Some(e) => lookup_entries(self@.entries, path@) == Some(e@),
                None => lookup_entries(self@.entries, path@) is None,
            },
        decreases entries_height(self@.entries),
    {
        proof {
            lemma_entries_view(self.entries@);
        }
        let mut i: usize = 0;
        proof {
            assert(self@.entries.skip(0) =~= self@.entries);
        }
        while i < self.entries.len()
            invariant
                i <= self.entries.len(),
                entries_view(self.entries@) == self@.entries,
                self.entries@.len() == self@.entries.len(),
                forall|j: int| 0 <= j < self.entries@.len() ==> self@.entries[j]
                    == self.entries@[j]@,
                lookup_entries(self@.entries, path@) == lookup_entries(
                    self@.entries.skip(i as int),
                    path@,
                ),
            decreases self.entries.len() - i,
        {
            let ghost rest = self@.entries.skip(i as int);
            proof {
                assert(rest[0] == self@.entries[i as int]);
                assert(rest.drop_first() =~= self@.entries.skip(i as int + 1));
            }
            let entry = &self.entries[i];
            if str_eq(entry.path(), path) {
                return Some(entry);
            }
            if let DirEntry::Dir(d) = entry {
                proof {
                    lemma_entries_height_index(self@.entries, i as int);
                    assert(entry_height(self@.entries[i as int]) == entries_height(d@.entries)
                        + 1);
                }
                if let Some(nested) = d.get_entry(path) {
                    return Some(nested);
                }
            }
            proof {
                assert(lookup_entry(rest[0], path@) is None);
            }
            i = i + 1;
        }
        proof {
            assert(self@.entries.skip(self@.entries.len() as int) =~= Seq::<EntryV>::empty());
        }
        None
    }

    /// Look a file up by path: [`Self::get_entry`] restricted to files.
    pub fn get_file<'s>(&'s self, path: &str) -> (r: Option<&'s File<'a>>)
        ensures
            match r {
                Some(f) => lookup_entries(self@.entries, path@) == Some(EntryV::File(f@)),
                None => match lookup_entries(self@.entries, path@) {
                    Some(e) => e is Dir,
                    None => true,
                },
            },
    {
        match self.get_entry(path) {
            Some(e) => e.as_file(),
            None => None,
        }
    }

    /// Look a directory up by path: [`Self::get_entry`] restricted to
    /// directories.
    pub fn get_dir<'s>(&'s self, path: &str) -> (r: Option<&'s Dir<'a>>)
        ensures
            match r {
                Some(d) => lookup_entries(self@.entries, path@) == Some(EntryV::Dir(d@)),
                None => match lookup_entries(self@.entries, path@) {
                    Some(e) => e is File,
                    None => true,
                },
            },
    {
        match self.get_entry(path) {
            Some(e) => e.as_dir(),
            None => None,
        }
    }

    /// Does this directory tree contain an entry with exactly this path?
    pub fn contains(&self, path: &str) -> (r: bool)
        ensures
            r == (lookup_entries(self@.entries, path@) is Some),
    {
        self.get_entry(path).is_some()
    }

    /// The filesystem actions that extract this tree under `base_path`,
    /// in order: for each entry in construction order, a directory is
    /// created (then its subtree handled) or a file's bytes are written,
    /// always at `base_path`, a separator, and the entry's own path.
    /// Performing the actions is left to the caller; files are meant to be
    /// written without overwriting, and a failure leaves earlier actions
    /// in place.
    pub fn extract_plan(&self, base_path: &str) -> (r: Vec<ExtractAction>)
        ensures
            r@.map_values(|a: ExtractAction| a@) == entries_plan(self@.entries, base_path@),
    {
        let mut out: Vec<ExtractAction> = Vec::new();
        proof {
            assert(out@.map_values(|a: ExtractAction| a@) =~= Seq::<ActionV>::empty());
        }
        self.push_plan(base_path, &mut out);
        out
    }

    /// Append this tree's extraction actions to `out`.
    #[verifier::loop_isolation(false)]
    fn push_plan(&self, base_path: &str, out: &mut Vec<ExtractAction>)
        ensures
            final(out)@.map_values(|a: ExtractAction| a@) == old(out)@.map_values(
                |a: ExtractAction| a@,
            ) + entries_plan(self@.entries, base_path@),
        decreases entries_height(self@.entries),
    {
        proof {
            lemma_entries_view(self.entries@);
            assert(self@.entries.take(0) =~= Seq::<EntryV>::empty());
            assert(entries_plan(self@.entries.take(0), base_path@) =~= Seq::<ActionV>::empty());
        }
        let ghost base0 = out@.map_values(|a: ExtractAction| a@);
        proof {
            assert(base0 + entries_plan(self@.entries.take(0), base_path@) =~= base0);
        }
        let mut i: usize = 0;
        while i < self.entries.len()
            invariant
                i <= self.entries.len(),
                out@.map_values(|a: ExtractAction| a@) == base0 + entries_plan(
                    self@.entries.take(i as int),
                    base_path@,
                ),
            decreases self.entries.len() - i,
        {
            let ghost pre = out@.map_values(|a: ExtractAction| a@);
            let entry = &self.entries[i];
            match entry {
                DirEntry::Dir(d) => {
                    let action = ExtractAction::CreateDir {
                        path: join_path(base_path, d.path()),
                    };
                    out.push(action);
                    proof {
                        assert(out@.map_values(|a: ExtractAction| a@) =~= pre + seq![
                            action_of(self@.entries[i as int], base_path@),
                        ]);
                        lemma_entries_height_index(self@.entries, i as int);
                        assert(entry_height(self@.entries[i as int]) == entries_height(
                            d@.entries,
                        ) + 1);
                    }
                    d.push_plan(base_path, out);
                    proof {
                        assert(entry_plan(self@.entries[i as int], base_path@) == seq![
                            action_of(self@.entries[i as int], base_path@),
                        ] + entries_plan(d@.entries, base_path@));
                        assert(out@.map_values(|a: ExtractAction| a@) =~= pre + entry_plan(
                            self@.entries[i as int],
                            base_path@,
                        ));
                    }
                },
                DirEntry::File(f) => {
                    let action = ExtractAction::WriteFile {
                        path: join_path(base_path, f.path()),
                        contents: f.contents.to_vec(),
                    };
                    out.push(action);
                    proof {
                        assert(entry_plan(self@.entries[i as int], base_path@) == seq![
                            action_of(self@.entries[i as int], base_path@),
                        ]);
                        assert(out@.map_values(|a: ExtractAction| a@) =~= pre + entry_plan(
                            self@.entries[i as int],
                            base_path@,
                        ));
                    }
                },
            }
            proof {
                lemma_plan_take_step(self@.entries, i as int, base_path@);
                assert(out@.map_values(|a: ExtractAction| a@) =~= base0 + entries_plan(
                    self@.entries.take(i as int + 1),
                    base_path@,
                ));
            }
            i = i + 1;
        }
        proof {
            assert(self@.entries.take(self@.entries.len() as int) =~= self@.entries);
        }
    }
}

/// One step of extracting a tree onto a real filesystem: create a
/// directory (with its missing ancestors) or write a fresh file's bytes.
/// The path is already the joined, base-relative target.
#[derive(Debug)]
pub enum ExtractAction {
    /// Create the directory at `path`, and any missing ancestors.
    CreateDir { path: String },
    /// Write `contents` to a new file at `path`; an existing file there is
    /// an error, not overwritten.
    WriteFile { path: String, contents: Vec<u8> },
}

impl View for ExtractAction {
    type V = ActionV;

    open spec fn view(&self) -> ActionV {
        match self {
            ExtractAction::CreateDir { path } => ActionV::CreateDir { path: path@ },
            ExtractAction::WriteFile { path, contents } => ActionV::WriteFile {
                path: path@,
                contents: contents@,
            },
        }
    }
}

/// The extraction target for one entry: the base, a separator, and the
/// entry's root-relative path.
pub fn join_path(base: &str, path: &str) -> (r: String)
    ensures
        r@ == joined_path(base@, path@),
{
    let mut s = base.to_owned();
    s.append("/");
    s.append(path);
    proof {
        reveal_strlit("/");
        assert(s@ =~= joined_path(base@, path@));
    }
    s
}

} // verus!
