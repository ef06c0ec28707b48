use vstd::prelude::*;
use crate::dir::Dir;
use crate::dir_entry::DirEntry;
use crate::model::{
    after_first_match, entry_children, entry_path, first_match, lemma_entries_view,
    lemma_stack_visits_step, stack_visits, EntryV,
};

verus! {

/// The compiled form of a glob pattern, from the `glob` crate. The value
/// is opaque here; everything stated about it goes through the pattern
/// text it was compiled from, named by [`pattern_source`].
#[verifier::external_type_specification]
#[verifier::external_body]
pub struct ExPattern(glob::Pattern);

/// Names the pattern text a `glob::Pattern` was compiled from, as
/// `glob::Pattern::as_str` returns it.
pub uninterp spec fn pattern_source(p: glob::Pattern) -> Seq<char>;

/// Names whether `glob::Pattern::new` accepts a pattern text; compilation
/// is deterministic, so this depends on the text alone.
pub uninterp spec fn glob_syntax_ok(pat: Seq<char>) -> bool;

/// Names what `glob::Pattern::matches` returns; matching is deterministic,
/// so this depends on the pattern text and the candidate path alone.
pub uninterp spec fn glob_matches(pat: Seq<char>, path: Seq<char>) -> bool;

/// A malformed glob pattern: the rough position and a description of the
/// first error in it.
#[derive(Debug, Clone)]
pub struct PatternError {
    pub pos: usize,
    pub msg: String,
}

/// Relies on `glob::Pattern::new`: it compiles a well-formed pattern,
/// keeping its text (`glob::Pattern::as_str`), and rejects a malformed one
/// with a `glob::PatternError`, converted here into the library's own
/// error type.
#[verifier::external_body]
fn compile_pattern(pat: &str) -> (r: Result<glob::Pattern, PatternError>)
    ensures
        r is Ok <==> glob_syntax_ok(pat@),
        r matches Ok(p) ==> pattern_source(p) == pat@,
{
    match glob::Pattern::new(pat) {
        Ok(p) => Ok(p),
        Err(e) => Err(PatternError { pos: e.pos, msg: e.msg.to_string() }),
    }
}

/// Relies on `glob::Pattern::matches`: whether the path matches the
/// pattern, a function of the pattern's text and the path alone.
#[verifier::external_body]
fn pattern_matches(p: &glob::Pattern, path: &str) -> (r: bool)
    ensures
        r == glob_matches(pattern_source(*p), path@),
{
    p.matches(path)
}

/// The lazy glob search: a work stack of entries still to visit and the
/// compiled pattern. Entries are popped from the back; popping an entry
/// pushes its children, so a subtree is explored before the siblings that
/// were pushed earlier. [`Globs::next`] yields the next visited entry
/// whose path matches.
pub struct Globs<'a, 'b> {
    stack: Vec<&'b DirEntry<'a>>,
    pattern: glob::Pattern,
}

impl<'a, 'b> Globs<'a, 'b> {
    /// The pattern text this search was started with.
    pub closed spec fn pattern_chars(&self) -> Seq<char> {
        pattern_source(self.pattern)
    }

    /// The entries this search will still visit, in visit order.
    pub closed spec fn future(&self) -> Seq<EntryV> {
        stack_visits(self.stack@.map_values(|e: &DirEntry<'a>| e@))
    }

    /// The predicate an entry must satisfy to be yielded: its path matches
    /// the pattern text.
    pub open spec fn match_pred(&self) -> spec_fn(EntryV) -> bool {
        |e: EntryV| glob_matches(self.pattern_chars(), entry_path(e))
    }

    /// Pop one entry, push its children, and report whether it matched:
    /// one step of the traversal, visiting exactly one entry.
    fn step(&mut self) -> (r: Option<&'b DirEntry<'a>>)
        ensures
            final(self).pattern_chars() == old(self).pattern_chars(),
            match r {
                Some(e) => old(self).future().len() > 0 && old(self).future()[0] == e@
                    && final(self).future() == old(self).future().drop_first(),
                None => old(self).future().len() == 0 && final(self).future()
                    == old(self).future(),
            },
    {
        proof {
            let svs = self.stack@.map_values(|e: &DirEntry<'a>| e@);
            if self.stack@.len() > 0 {
                lemma_stack_visits_step(svs);
            } else {
                assert(svs =~= Seq::<EntryV>::empty());
            }
        }
        let popped = self.stack.pop();
        match popped {
            None => None,
            Some(item) => {
                let ghost svs0 = old(self).stack@.map_values(|e: &DirEntry<'a>| e@);
                proof {
                    assert(self.stack@ =~= old(self).stack@.drop_last());
                    assert(self.stack@.map_values(|e: &DirEntry<'a>| e@) =~= svs0.drop_last());
                    assert(svs0.last() == item@);
                }
                let children = item.children();
                proof {
                    lemma_entries_view(children@);
                }
                let ghost base = self.stack@;
                let mut k: usize = 0;
                while k < children.len()
                    invariant
                        k <= children.len(),
                        crate::model::entries_view(children@) == entry_children(item@),
                        children@.len() == entry_children(item@).len(),
                        forall|j: int| 0 <= j < children@.len() ==> entry_children(item@)[j]
                            == children@[j]@,
                        self.stack@.len() == base.len() + k,
                        forall|j: int| 0 <= j < base.len() ==> self.stack@[j] == base[j],
                        forall|j: int| 0 <= j < k ==> self.stack@[base.len() + j]@
                            == entry_children(item@)[j],
                        self.pattern == old(self).pattern,
                    decreases children.len() - k,
                {
                    self.stack.push(&children[k]);
                    k = k + 1;
                }
                proof {
                    let svs1 = self.stack@.map_values(|e: &DirEntry<'a>| e@);
                    assert(svs1 =~= svs0.drop_last() + entry_children(svs0.last()));
                    assert(self.future() == stack_visits(svs1));
                    assert(old(self).future() == seq![svs0.last()] + stack_visits(svs1));
                    assert(old(self).future()[0] == item@);
                    assert(old(self).future().drop_first() =~= stack_visits(svs1));
                }
                Some(item)
            },
        }
    }

    /// Yield the next entry, in visit order, whose path matches the
    /// pattern; exhausted when no entry to visit matches.
    #[verifier::loop_isolation(false)]
    pub fn next(&mut self) -> (r: Option<&'b DirEntry<'a>>)
        ensures
            final(self).pattern_chars() == old(self).pattern_chars(),
            match r {
                Some(e) => first_match(old(self).future(), old(self).match_pred()) == Some(e@)
                    && final(self).future() == after_first_match(
                    old(self).future(),
                    old(self).match_pred(),
                ),
                None => first_match(old(self).future(), old(self).match_pred()) is None
                    && final(self).future().len() == 0,
            },
    {
        let ghost pred = self.match_pred();
        let ghost fut0 = self.future();
        loop
            invariant
                self.pattern_chars() == old(self).pattern_chars(),
                pred == self.match_pred(),
                first_match(fut0, pred) == first_match(self.future(), pred),
                after_first_match(fut0, pred) == after_first_match(self.future(), pred),
            decreases self.future().len(),
        {
            let ghost fut_before = self.future();
            match self.step() {
                None => {
                    return None;
                },
                Some(item) => {
                    if pattern_matches(&self.pattern, item.path()) {
                        proof {
                            assert(pred(fut_before[0]));
                            assert(first_match(fut_before, pred) == Some(item@));
                            assert(after_first_match(fut_before, pred)
                                == fut_before.drop_first());
                        }
                        return Some(item);
                    }
                    proof {
                        assert(!pred(fut_before[0]));
                        assert(first_match(fut_before, pred) == first_match(
                            fut_before.drop_first(),
                            pred,
                        ));
                        assert(after_first_match(fut_before, pred) == after_first_match(
                            fut_before.drop_first(),
                            pred,
                        ));
                    }
                },
            }
        }
    }
}

impl<'a> Dir<'a> {
    /// Search the whole tree for entries whose path matches a glob
    /// pattern. A malformed pattern is rejected here, before any entry is
    /// visited; a well-formed one starts a lazy traversal seeded with this
    /// directory's entries.
    pub fn find<'s>(&'s self, glob: &str) -> (r: Result<Globs<'a, 's>, PatternError>)
        ensures
            r is Ok <==> glob_syntax_ok(glob@),
            r matches Ok(g) ==> g.pattern_chars() == glob@ && g.future() == stack_visits(
                self@.entries,
            ),
    {
        let pattern = match compile_pattern(glob) {
            Ok(p) => p,
            Err(e) => {
                return Err(e);
            },
        };
        let entries = self.entries();
        proof {
            lemma_entries_view(entries@);
        }
        let mut stack: Vec<&'s DirEntry<'a>> = Vec::new();
        let mut i: usize = 0;
        while i < entries.len()
            invariant
                i <= entries.len(),
                crate::model::entries_view(entries@) == self@.entries,
                entries@.len() == self@.entries.len(),
                forall|j: int| 0 <= j < entries@.len() ==> self@.entries[j] == entries@[j]@,
                stack@.len() == i,
                forall|j: int| 0 <= j < i ==> stack@[j]@ == self@.entries[j],
            decreases entries.len() - i,
        {
            stack.push(&entries[i]);
            i = i + 1;
        }
        let g = Globs { stack, pattern };
        proof {
            assert(g.stack@.map_values(|e: &DirEntry<'a>| e@) =~= self@.entries);
        }
        Ok(g)
    }
}

} // verus!
