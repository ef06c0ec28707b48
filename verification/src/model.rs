use vstd::prelude::*;
use vstd::seq_lib::{lemma_multiset_commutative, to_multiset_contains};
use crate::dir::Dir;
use crate::dir_entry::DirEntry;
use crate::file::Metadata;

verus! {

/// Mathematical model of a directory: a path and an ordered sequence of
/// child entries. Entry order is construction order and is never sorted.
pub struct DirV {
    pub path: Seq<char>,
    pub entries: Seq<EntryV>,
}

/// Mathematical model of a file: a path, its raw bytes, and optional
/// timestamp metadata.
pub struct FileV {
    pub path: Seq<char>,
    pub contents: Seq<u8>,
    pub metadata: Option<Metadata>,
}

/// Mathematical model of a tree entry: a directory or a file.
pub enum EntryV {
    Dir(DirV),
    File(FileV),
}

/// The root-relative path of an entry, its identity in the tree.
pub open spec fn entry_path(e: EntryV) -> Seq<char> {
    match e {
        EntryV::Dir(d) => d.path,
        EntryV::File(f) => f.path,
    }
}

/// The direct children of an entry; empty for a file.
pub open spec fn entry_children(e: EntryV) -> Seq<EntryV> {
    match e {
        EntryV::Dir(d) => d.entries,
        EntryV::File(_) => Seq::empty(),
    }
}

/// Recursive lookup within one entry: the entry itself if its path matches,
/// otherwise the first match anywhere below it.
pub open spec fn lookup_entry(e: EntryV, p: Seq<char>) -> Option<EntryV>
    decreases e,
{
    if entry_path(e) == p {
        Some(e)
    } else {
        match e {
            EntryV::Dir(d) => lookup_entries(d.entries, p),
            EntryV::File(_) => None,
        }
    }
}

/// Pre-order depth-first lookup over a sequence of entries: each entry's
/// subtree is exhausted before the next sibling is tried.
pub open spec fn lookup_entries(es: Seq<EntryV>, p: Seq<char>) -> Option<EntryV>
    decreases es,
{
    if es.len() == 0 {
        None
    } else {
        match lookup_entry(es[0], p) {
            Some(r) => Some(r),
            None => lookup_entries(es.drop_first(), p),
        }
    }
}

/// All entries of a subtree in pre-order: the entry itself, then the
/// descendants of each child in order.
pub open spec fn entry_descendants(e: EntryV) -> Seq<EntryV>
    decreases e,
{
    match e {
        EntryV::Dir(d) => seq![e] + entries_descendants(d.entries),
        EntryV::File(_) => seq![e],
    }
}

/// Pre-order flattening of a forest of entries.
pub open spec fn entries_descendants(es: Seq<EntryV>) -> Seq<EntryV>
    decreases es,
{
    if es.len() == 0 {
        Seq::empty()
    } else {
        entry_descendants(es[0]) + entries_descendants(es.drop_first())
    }
}

/// Height of a subtree, used as a termination measure for the executable
/// recursive traversals.
pub open spec fn entry_height(e: EntryV) -> nat
    decreases e,
{
    match e {
        EntryV::Dir(d) => entries_height(d.entries) + 1,
        EntryV::File(_) => 0,
    }
}

/// Height of a forest: the greatest height among its entries.
pub open spec fn entries_height(es: Seq<EntryV>) -> nat
    decreases es,
{
    if es.len() == 0 {
        0
    } else {
        let h0 = entry_height(es[0]);
        let hr = entries_height(es.drop_first());
        if h0 > hr {
            h0
        } else {
            hr
        }
    }
}

/// The first entry of `s` satisfying `pred`, if any.
pub open spec fn first_match(s: Seq<EntryV>, pred: spec_fn(EntryV) -> bool) -> Option<EntryV>
    decreases s,
{
    if s.len() == 0 {
        None
    } else if pred(s[0]) {
        Some(s[0])
    } else {
        first_match(s.drop_first(), pred)
    }
}

/// What remains of `s` after the first entry satisfying `pred`; empty when
/// no entry satisfies it.
pub open spec fn after_first_match(s: Seq<EntryV>, pred: spec_fn(EntryV) -> bool) -> Seq<EntryV>
    decreases s,
{
    if s.len() == 0 {
        Seq::empty()
    } else if pred(s[0]) {
        s.drop_first()
    } else {
        after_first_match(s.drop_first(), pred)
    }
}

/// The predicate "this entry's path is exactly `p`".
pub open spec fn path_pred(p: Seq<char>) -> spec_fn(EntryV) -> bool {
    |e: EntryV| entry_path(e) == p
}

/// The order in which the stack-based glob traversal visits one entry's
/// subtree: the entry first, then its children treated as a fresh stack.
pub open spec fn entry_visits(e: EntryV) -> Seq<EntryV>
    decreases e,
{
    match e {
        EntryV::Dir(d) => seq![e] + stack_visits(d.entries),
        EntryV::File(_) => seq![e],
    }
}

/// The order in which the stack-based glob traversal visits the entries of
/// a work stack, popping from the back: the last element's subtree first.
pub open spec fn stack_visits(es: Seq<EntryV>) -> Seq<EntryV>
    decreases es,
{
    if es.len() == 0 {
        Seq::empty()
    } else {
        entry_visits(es.last()) + stack_visits(es.drop_last())
    }
}

/// No two entries anywhere in the forest share a path.
pub open spec fn paths_unique(es: Seq<EntryV>) -> bool {
    let ds = entries_descendants(es);
    forall|i: int, j: int|
        0 <= i < ds.len() && 0 <= j < ds.len() && i != j ==> entry_path(ds[i]) != entry_path(
            ds[j],
        )
}

/// The file models among a sequence of entry models, in order.
pub open spec fn files_of(es: Seq<EntryV>) -> Seq<FileV>
    decreases es,
{
    if es.len() == 0 {
        Seq::empty()
    } else {
        match es[0] {
            EntryV::File(f) => seq![f] + files_of(es.drop_first()),
            EntryV::Dir(_) => files_of(es.drop_first()),
        }
    }
}

/// The directory models among a sequence of entry models, in order.
pub open spec fn dirs_of(es: Seq<EntryV>) -> Seq<DirV>
    decreases es,
{
    if es.len() == 0 {
        Seq::empty()
    } else {
        match es[0] {
            EntryV::Dir(d) => seq![d] + dirs_of(es.drop_first()),
            EntryV::File(_) => dirs_of(es.drop_first()),
        }
    }
}

/// The entries a traversal of `s` yields, in order: those satisfying
/// `pred`, each at most once, skipping the rest.
pub open spec fn yields_of(s: Seq<EntryV>, pred: spec_fn(EntryV) -> bool) -> Seq<EntryV>
    decreases s.len(),
{
    if s.len() == 0 {
        Seq::empty()
    } else if pred(s[0]) {
        seq![s[0]] + yields_of(s.drop_first(), pred)
    } else {
        yields_of(s.drop_first(), pred)
    }
}

/// Unrolling a traversal one yielded entry at a time: a run yields the
/// first match, then whatever a run over the rest yields; or nothing when
/// no entry matches.
pub proof fn lemma_yields_of_first_match(s: Seq<EntryV>, pred: spec_fn(EntryV) -> bool)
    ensures
        match first_match(s, pred) {
            Some(e) => yields_of(s, pred) == seq![e] + yields_of(after_first_match(s, pred), pred),
            None => yields_of(s, pred) == Seq::<EntryV>::empty(),
        },
    decreases s.len(),
{
    if s.len() > 0 && !pred(s[0]) {
        lemma_yields_of_first_match(s.drop_first(), pred);
    }
}

/// What a traversal yields is exactly the matching subsequence of its
/// visit order.
pub proof fn lemma_yields_of_is_filter(s: Seq<EntryV>, pred: spec_fn(EntryV) -> bool)
    ensures
        yields_of(s, pred) == s.filter(pred),
    decreases s.len(),
{
    reveal(Seq::filter);
    if s.len() == 0 {
    } else {
        lemma_yields_of_is_filter(s.drop_first(), pred);
        Seq::filter_distributes_over_add(seq![s[0]], s.drop_first(), pred);
        assert(s =~= seq![s[0]] + s.drop_first());
        let one = seq![s[0]];
        assert(one.drop_last() =~= Seq::<EntryV>::empty());
        assert(one.drop_last().filter(pred) =~= Seq::<EntryV>::empty());
        if pred(s[0]) {
            assert(one.filter(pred) =~= seq![s[0]]);
        } else {
            assert(one.filter(pred) =~= Seq::<EntryV>::empty());
            assert(Seq::<EntryV>::empty() + s.drop_first().filter(pred) =~= s.drop_first().filter(
                pred,
            ));
        }
    }
}

/// A completed glob search yields exactly the matching entries of the
/// tree: in order, the matching subsequence of the visit order; as a set,
/// precisely the entries of the tree whose path satisfies the predicate.
pub proof fn lemma_search_yields_exactly_matches(es: Seq<EntryV>, pred: spec_fn(EntryV) -> bool)
    ensures
        yields_of(stack_visits(es), pred) == stack_visits(es).filter(pred),
        forall|e: EntryV| #[trigger] yields_of(stack_visits(es), pred).contains(e) <==> (
        entries_descendants(es).contains(e) && pred(e)),
{
    broadcast use vstd::seq_lib::group_filter_ensures;
    broadcast use vstd::seq_lib::group_to_multiset_ensures;
    broadcast use vstd::multiset::group_multiset_axioms;

    lemma_yields_of_is_filter(stack_visits(es), pred);
    lemma_stack_visits_exactly_once(es);
    let vs = stack_visits(es);
    let ds = entries_descendants(es);
    assert forall|e: EntryV| #[trigger] vs.filter(pred).contains(e) <==> (ds.contains(e) && pred(
        e,
    )) by {
        assert(vs.contains(e) <==> ds.contains(e)) by {
            to_multiset_contains(vs, e);
            to_multiset_contains(ds, e);
        }
        if vs.filter(pred).contains(e) {
            vs.lemma_filter_contains_rev(pred, e);
        }
        if vs.contains(e) && pred(e) {
            let i = choose|i: int| 0 <= i < vs.len() && vs[i] == e;
            assert(vs.filter(pred).contains(vs[i]));
        }
    }
}

/// A file never has children, and a non-empty directory always does; so
/// among entries whose directories are non-empty, having no children is
/// the same as being a file. (An empty directory also has no children,
/// which is why the requirement excludes it.)
pub proof fn lemma_children_empty_iff_file(e: EntryV)
    requires
        e matches EntryV::Dir(d) ==> d.entries.len() > 0,
    ensures
        entry_children(e).len() == 0 <==> e is File,
{
}

/// Mathematical model of one extraction action.
pub enum ActionV {
    CreateDir { path: Seq<char> },
    WriteFile { path: Seq<char>, contents: Seq<u8> },
}

/// The real path under which an entry is materialized: the extraction
/// base, a separator, and the entry's root-relative path.
pub open spec fn joined_path(base: Seq<char>, path: Seq<char>) -> Seq<char> {
    base + seq!['/'] + path
}

/// The one action that materializes one entry: create the directory, or
/// write the file's bytes.
pub open spec fn action_of(e: EntryV, base: Seq<char>) -> ActionV {
    match e {
        EntryV::Dir(d) => ActionV::CreateDir { path: joined_path(base, d.path) },
        EntryV::File(f) => ActionV::WriteFile {
            path: joined_path(base, f.path),
            contents: f.contents,
        },
    }
}

/// The actions that materialize one entry's subtree, in pre-order: a
/// directory is created before anything under it is touched.
pub open spec fn entry_plan(e: EntryV, base: Seq<char>) -> Seq<ActionV>
    decreases e,
{
    match e {
        EntryV::Dir(d) => seq![action_of(e, base)] + entries_plan(d.entries, base),
        EntryV::File(_) => seq![action_of(e, base)],
    }
}

/// The actions that materialize a forest, sibling order preserved.
pub open spec fn entries_plan(es: Seq<EntryV>, base: Seq<char>) -> Seq<ActionV>
    decreases es,
{
    if es.len() == 0 {
        Seq::empty()
    } else {
        entry_plan(es[0], base) + entries_plan(es.drop_first(), base)
    }
}

/// Planning distributes over concatenation of forests.
pub proof fn lemma_plan_concat(a: Seq<EntryV>, b: Seq<EntryV>, base: Seq<char>)
    ensures
        entries_plan(a + b, base) == entries_plan(a, base) + entries_plan(b, base),
    decreases a.len(),
{
    if a.len() == 0 {
        assert(a + b =~= b);
        assert(entries_plan(a, base) + entries_plan(b, base) =~= entries_plan(b, base));
    } else {
        assert((a + b).drop_first() =~= a.drop_first() + b);
        lemma_plan_concat(a.drop_first(), b, base);
        assert(entry_plan(a[0], base) + (entries_plan(a.drop_first(), base) + entries_plan(
            b,
            base,
        )) =~= (entry_plan(a[0], base) + entries_plan(a.drop_first(), base)) + entries_plan(
            b,
            base,
        ));
    }
}

/// Extending a prefix by one entry appends that entry's subtree plan.
pub proof fn lemma_plan_take_step(es: Seq<EntryV>, i: int, base: Seq<char>)
    requires
        0 <= i < es.len(),
    ensures
        entries_plan(es.take(i + 1), base) == entries_plan(es.take(i), base) + entry_plan(
            es[i],
            base,
        ),
{
    assert(es.take(i + 1) =~= es.take(i) + seq![es[i]]);
    lemma_plan_concat(es.take(i), seq![es[i]], base);
    let s = seq![es[i]];
    assert(s.len() == 1);
    assert(s[0] == es[i]);
    assert(s.drop_first() =~= Seq::<EntryV>::empty());
    assert(entries_plan(s.drop_first(), base) =~= Seq::<ActionV>::empty());
    assert(entries_plan(s, base) =~= entry_plan(es[i], base));
}

/// One entry's plan is exactly one action per entry of its subtree, in
/// pre-order: the i-th action materializes the i-th entry visited.
pub proof fn lemma_entry_plan_covers(e: EntryV, base: Seq<char>)
    ensures
        entry_plan(e, base) == entry_descendants(e).map_values(
            (|x: EntryV| action_of(x, base)),
        ),
    decreases e,
{
    let f = (|x: EntryV| action_of(x, base));
    match e {
        EntryV::Dir(d) => {
            lemma_entries_plan_covers(d.entries, base);
            assert((seq![e] + entries_descendants(d.entries)).map_values(f) =~= seq![
                action_of(e, base),
            ] + entries_descendants(d.entries).map_values(f));
        },
        EntryV::File(_) => {
            assert(seq![e].map_values(f) =~= seq![action_of(e, base)]);
        },
    }
}

/// A forest's plan is exactly one action per entry of its pre-order
/// flattening, in the same order: every file is written once, at its
/// joined path and with its own bytes, every directory created once, and
/// each directory's action comes before those of everything under it.
pub proof fn lemma_entries_plan_covers(es: Seq<EntryV>, base: Seq<char>)
    ensures
        entries_plan(es, base) == entries_descendants(es).map_values(
            (|x: EntryV| action_of(x, base)),
        ),
    decreases es,
{
    let f = (|x: EntryV| action_of(x, base));
    if es.len() == 0 {
        assert(entries_descendants(es).map_values(f) =~= Seq::<ActionV>::empty());
    } else {
        lemma_entry_plan_covers(es[0], base);
        lemma_entries_plan_covers(es.drop_first(), base);
        assert((entry_descendants(es[0]) + entries_descendants(es.drop_first())).map_values(f)
            =~= entry_descendants(es[0]).map_values(f) + entries_descendants(
            es.drop_first(),
        ).map_values(f));
    }
}

// ------------------------------------------------------------------
// Views of the executable tree types.
// ------------------------------------------------------------------

/// Model of one executable entry.
pub open(crate) spec fn entry_view(e: DirEntry) -> EntryV
    decreases e,
{
    match e {
        DirEntry::Dir(d) => EntryV::Dir(dir_view(d)),
        DirEntry::File(f) => EntryV::File(
            FileV { path: f.path@, contents: f.contents@, metadata: f.metadata },
        ),
    }
}

/// Model of one executable directory.
pub open(crate) spec fn dir_view(d: Dir) -> DirV
    decreases d,
{
    DirV { path: d.path@, entries: entries_view(d.entries@) }
}

/// Models of a sequence of executable entries, elementwise.
pub open(crate) spec fn entries_view(s: Seq<DirEntry>) -> Seq<EntryV>
    decreases s,
{
    if s.len() == 0 {
        Seq::empty()
    } else {
        seq![entry_view(s[0])] + entries_view(s.drop_first())
    }
}

/// `entries_view` is the elementwise view: it keeps the length and models
/// each entry in place.
pub broadcast proof fn lemma_entries_view(s: Seq<DirEntry>)
    ensures
        (#[trigger] entries_view(s)).len() == s.len(),
        forall|i: int| 0 <= i < s.len() ==> entries_view(s)[i] == s[i]@,
    decreases s.len(),
{
    if s.len() > 0 {
        lemma_entries_view(s.drop_first());
    }
}

// ------------------------------------------------------------------
// Lemmas.
// ------------------------------------------------------------------

/// Flattening a single entry is that entry's subtree.
pub proof fn lemma_descendants_singleton(e: EntryV)
    ensures
        entries_descendants(seq![e]) == entry_descendants(e),
{
    let s = seq![e];
    assert(s.len() == 1);
    assert(s[0] == e);
    assert(s.drop_first() =~= Seq::<EntryV>::empty());
    assert(entries_descendants(s.drop_first()) =~= Seq::<EntryV>::empty());
    assert(entry_descendants(e) + Seq::<EntryV>::empty() =~= entry_descendants(e));
}

/// A forest is at least as high as each of its entries.
pub proof fn lemma_entries_height_index(es: Seq<EntryV>, i: int)
    requires
        0 <= i < es.len(),
    ensures
        entry_height(es[i]) <= entries_height(es),
    decreases es.len(),
{
    if i > 0 {
        lemma_entries_height_index(es.drop_first(), i - 1);
    }
}

/// Pre-order flattening distributes over concatenation of forests.
pub proof fn lemma_descendants_concat(a: Seq<EntryV>, b: Seq<EntryV>)
    ensures
        entries_descendants(a + b) == entries_descendants(a) + entries_descendants(b),
    decreases a.len(),
{
    if a.len() == 0 {
        assert(a + b =~= b);
        assert(entries_descendants(a) + entries_descendants(b) =~= entries_descendants(b));
    } else {
        assert((a + b).drop_first() =~= a.drop_first() + b);
        lemma_descendants_concat(a.drop_first(), b);
        assert(entry_descendants(a[0]) + (entries_descendants(a.drop_first())
            + entries_descendants(b)) =~= (entry_descendants(a[0]) + entries_descendants(
            a.drop_first(),
        )) + entries_descendants(b));
    }
}

/// Searching a concatenation finds the first match of the left part, and
/// only past it the first match of the right part.
pub proof fn lemma_first_match_concat(a: Seq<EntryV>, b: Seq<EntryV>, pred: spec_fn(EntryV) -> bool)
    ensures
        first_match(a + b, pred) == (if first_match(a, pred) is Some {
            first_match(a, pred)
        } else {
            first_match(b, pred)
        }),
        first_match(a, pred) is Some ==> after_first_match(a + b, pred) == after_first_match(
            a,
            pred,
        ) + b,
        first_match(a, pred) is None ==> after_first_match(a + b, pred) == after_first_match(
            b,
            pred,
        ),
    decreases a.len(),
{
    if a.len() == 0 {
        assert(a + b =~= b);
    } else {
        assert((a + b)[0] == a[0]);
        assert((a + b).drop_first() =~= a.drop_first() + b);
        lemma_first_match_concat(a.drop_first(), b, pred);
    }
}

/// What a successful or failed search means: a found entry satisfies the
/// predicate and lies in the sequence; a failed search leaves no entry
/// satisfying it.
pub proof fn lemma_first_match_props(s: Seq<EntryV>, pred: spec_fn(EntryV) -> bool)
    ensures
        match first_match(s, pred) {
            Some(e) => s.contains(e) && pred(e),
            None => forall|i: int| 0 <= i < s.len() ==> !pred(s[i]),
        },
    decreases s.len(),
{
    if s.len() > 0 {
        lemma_first_match_props(s.drop_first(), pred);
        if !pred(s[0]) {
            match first_match(s.drop_first(), pred) {
                Some(e) => {
                    assert(s.drop_first().contains(e));
                    let i = choose|i: int|
                        0 <= i < s.drop_first().len() && s.drop_first()[i] == e;
                    assert(s[i + 1] == e);
                },
                None => {
                    assert forall|i: int| 0 <= i < s.len() implies !pred(s[i]) by {
                        if i > 0 {
                            assert(s.drop_first()[i - 1] == s[i]);
                            assert(!pred(s.drop_first()[i - 1]));
                        }
                    }
                },
            }
        }
    }
}

/// Recursive lookup is exactly "first entry with this path, in pre-order".
pub proof fn lemma_lookup_entry_first_match(e: EntryV, p: Seq<char>)
    ensures
        lookup_entry(e, p) == first_match(entry_descendants(e), path_pred(p)),
    decreases e,
{
    let pred = path_pred(p);
    match e {
        EntryV::Dir(d) => {
            let ds = entry_descendants(e);
            assert(ds == seq![e] + entries_descendants(d.entries));
            assert(ds.len() >= 1);
            assert(ds[0] == e);
            assert(ds.drop_first() =~= entries_descendants(d.entries));
            if entry_path(e) == p {
                assert(pred(ds[0]));
                assert(first_match(ds, pred) == Some(e));
            } else {
                lemma_lookup_entries_first_match(d.entries, p);
                assert(!pred(ds[0]));
                assert(first_match(ds, pred) == first_match(ds.drop_first(), pred));
                assert(lookup_entry(e, p) == lookup_entries(d.entries, p));
            }
        },
        EntryV::File(_) => {
            let ds = entry_descendants(e);
            assert(ds == seq![e]);
            assert(ds.len() == 1);
            assert(ds[0] == e);
            assert(ds.drop_first() =~= Seq::<EntryV>::empty());
            if entry_path(e) == p {
                assert(pred(ds[0]));
            } else {
                assert(!pred(ds[0]));
                assert(first_match(ds, pred) == first_match(ds.drop_first(), pred));
                assert(first_match(Seq::<EntryV>::empty(), pred) is None);
            }
        },
    }
}

/// Recursive lookup over a forest is exactly "first entry with this path in
/// the pre-order flattening".
pub proof fn lemma_lookup_entries_first_match(es: Seq<EntryV>, p: Seq<char>)
    ensures
        lookup_entries(es, p) == first_match(entries_descendants(es), path_pred(p)),
    decreases es,
{
    let pred = path_pred(p);
    if es.len() > 0 {
        lemma_lookup_entry_first_match(es[0], p);
        lemma_lookup_entries_first_match(es.drop_first(), p);
        lemma_first_match_concat(
            entry_descendants(es[0]),
            entries_descendants(es.drop_first()),
            pred,
        );
    }
}

/// Round-trip lookup: in a tree without duplicate paths, looking an
/// entry's own path up returns that entry.
pub proof fn lemma_get_entry_round_trip(es: Seq<EntryV>, e: EntryV)
    requires
        entries_descendants(es).contains(e),
        paths_unique(es),
    ensures
        lookup_entries(es, entry_path(e)) == Some(e),
{
    let p = entry_path(e);
    let pred = path_pred(p);
    let ds = entries_descendants(es);
    lemma_lookup_entries_first_match(es, p);
    lemma_first_match_props(ds, pred);
    let j = choose|j: int| 0 <= j < ds.len() && ds[j] == e;
    match first_match(ds, pred) {
        Some(r) => {
            let i = choose|i: int| 0 <= i < ds.len() && ds[i] == r;
            if i != j {
                assert(entry_path(ds[i]) == p && entry_path(ds[j]) == p);
                assert(false);
            }
        },
        None => {
            assert(pred(ds[j]));
            assert(false);
        },
    }
}

/// Every subtree's visit order holds exactly the entries of the subtree.
pub proof fn lemma_entry_visits_exactly_once(e: EntryV)
    ensures
        entry_visits(e).to_multiset() == entry_descendants(e).to_multiset(),
    decreases e,
{
    match e {
        EntryV::Dir(d) => {
            lemma_stack_visits_exactly_once(d.entries);
            lemma_multiset_commutative(seq![e], stack_visits(d.entries));
            lemma_multiset_commutative(seq![e], entries_descendants(d.entries));
        },
        EntryV::File(_) => {},
    }
}

/// The stack-based traversal visits every entry of the forest exactly
/// once: its visit order is a permutation of the pre-order flattening.
pub proof fn lemma_stack_visits_exactly_once(es: Seq<EntryV>)
    ensures
        stack_visits(es).to_multiset() == entries_descendants(es).to_multiset(),
    decreases es,
{
    if es.len() > 0 {
        lemma_entry_visits_exactly_once(es.last());
        lemma_stack_visits_exactly_once(es.drop_last());
        lemma_multiset_commutative(entry_visits(es.last()), stack_visits(es.drop_last()));
        assert(es =~= es.drop_last() + seq![es.last()]);
        lemma_descendants_concat(es.drop_last(), seq![es.last()]);
        lemma_descendants_singleton(es.last());
        lemma_multiset_commutative(
            entries_descendants(es.drop_last()),
            entry_descendants(es.last()),
        );
        assert(stack_visits(es).to_multiset() =~= entries_descendants(es).to_multiset());
    }
}

/// Visit order distributes over stack concatenation: what was pushed last
/// is visited first.
pub proof fn lemma_stack_visits_concat(a: Seq<EntryV>, b: Seq<EntryV>)
    ensures
        stack_visits(a + b) == stack_visits(b) + stack_visits(a),
    decreases b.len(),
{
    if b.len() == 0 {
        assert(a + b =~= a);
        assert(stack_visits(b) + stack_visits(a) =~= stack_visits(a));
    } else {
        assert((a + b).last() == b.last());
        assert((a + b).drop_last() =~= a + b.drop_last());
        lemma_stack_visits_concat(a, b.drop_last());
        assert(entry_visits(b.last()) + (stack_visits(b.drop_last()) + stack_visits(a)) =~= (
        entry_visits(b.last()) + stack_visits(b.drop_last())) + stack_visits(a));
    }
}

/// Selecting the files distributes over concatenation of forests.
pub proof fn lemma_files_of_concat(a: Seq<EntryV>, b: Seq<EntryV>)
    ensures
        files_of(a + b) == files_of(a) + files_of(b),
    decreases a.len(),
{
    if a.len() == 0 {
        assert(a + b =~= b);
        assert(files_of(a) + files_of(b) =~= files_of(b));
    } else {
        assert((a + b).drop_first() =~= a.drop_first() + b);
        lemma_files_of_concat(a.drop_first(), b);
        match a[0] {
            EntryV::File(f) => {
                assert(seq![f] + (files_of(a.drop_first()) + files_of(b)) =~= (seq![f] + files_of(
                    a.drop_first(),
                )) + files_of(b));
            },
            EntryV::Dir(_) => {},
        }
    }
}

/// Selecting the directories distributes over concatenation of forests.
pub proof fn lemma_dirs_of_concat(a: Seq<EntryV>, b: Seq<EntryV>)
    ensures
        dirs_of(a + b) == dirs_of(a) + dirs_of(b),
    decreases a.len(),
{
    if a.len() == 0 {
        assert(a + b =~= b);
        assert(dirs_of(a) + dirs_of(b) =~= dirs_of(b));
    } else {
        assert((a + b).drop_first() =~= a.drop_first() + b);
        lemma_dirs_of_concat(a.drop_first(), b);
        match a[0] {
            EntryV::Dir(d) => {
                assert(seq![d] + (dirs_of(a.drop_first()) + dirs_of(b)) =~= (seq![d] + dirs_of(
                    a.drop_first(),
                )) + dirs_of(b));
            },
            EntryV::File(_) => {},
        }
    }
}

/// Extending a prefix by one entry extends its selected files by that
/// entry's file model, if it is a file.
pub proof fn lemma_files_of_take_step(es: Seq<EntryV>, i: int)
    requires
        0 <= i < es.len(),
    ensures
        files_of(es.take(i + 1)) == files_of(es.take(i)) + (match es[i] {
            EntryV::File(f) => seq![f],
            EntryV::Dir(_) => Seq::<FileV>::empty(),
        }),
{
    assert(es.take(i + 1) =~= es.take(i) + seq![es[i]]);
    lemma_files_of_concat(es.take(i), seq![es[i]]);
    let s = seq![es[i]];
    assert(s.len() == 1);
    assert(s[0] == es[i]);
    assert(s.drop_first() =~= Seq::<EntryV>::empty());
    assert(files_of(s.drop_first()) =~= Seq::<FileV>::empty());
    match es[i] {
        EntryV::File(f) => {
            assert(files_of(s) =~= seq![f]);
        },
        EntryV::Dir(_) => {
            assert(files_of(s) =~= Seq::<FileV>::empty());
        },
    }
}

/// Extending a prefix by one entry extends its selected directories by
/// that entry's directory model, if it is a directory.
pub proof fn lemma_dirs_of_take_step(es: Seq<EntryV>, i: int)
    requires
        0 <= i < es.len(),
    ensures
        dirs_of(es.take(i + 1)) == dirs_of(es.take(i)) + (match es[i] {
            EntryV::Dir(d) => seq![d],
            EntryV::File(_) => Seq::<DirV>::empty(),
        }),
{
    assert(es.take(i + 1) =~= es.take(i) + seq![es[i]]);
    lemma_dirs_of_concat(es.take(i), seq![es[i]]);
    let s = seq![es[i]];
    assert(s.len() == 1);
    assert(s[0] == es[i]);
    assert(s.drop_first() =~= Seq::<EntryV>::empty());
    assert(dirs_of(s.drop_first()) =~= Seq::<DirV>::empty());
    match es[i] {
        EntryV::Dir(d) => {
            assert(dirs_of(s) =~= seq![d]);
        },
        EntryV::File(_) => {
            assert(dirs_of(s) =~= Seq::<DirV>::empty());
        },
    }
}

/// One traversal step: popping the top entry and pushing its children
/// removes exactly that entry from the front of the visit order.
pub proof fn lemma_stack_visits_step(es: Seq<EntryV>)
    requires
        es.len() > 0,
    ensures
        stack_visits(es) == seq![es.last()] + stack_visits(
            es.drop_last() + entry_children(es.last()),
        ),
{
    let e = es.last();
    lemma_stack_visits_concat(es.drop_last(), entry_children(e));
    assert(stack_visits(es) == entry_visits(e) + stack_visits(es.drop_last()));
    match e {
        EntryV::Dir(d) => {
            assert(entry_children(e) =~= d.entries);
            assert(entry_visits(e) == seq![e] + stack_visits(d.entries));
            assert(seq![e] + (stack_visits(d.entries) + stack_visits(es.drop_last())) =~= (
            seq![e] + stack_visits(d.entries)) + stack_visits(es.drop_last()));
        },
        EntryV::File(_) => {
            assert(entry_children(e) =~= Seq::<EntryV>::empty());
            assert(entry_visits(e) == seq![e]);
            assert(stack_visits(Seq::<EntryV>::empty()) =~= Seq::<EntryV>::empty());
            assert(seq![e] + (stack_visits(Seq::<EntryV>::empty()) + stack_visits(
                es.drop_last(),
            )) =~= seq![e] + stack_visits(es.drop_last()));
        },
    }
}

} // verus!
