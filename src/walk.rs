//! The traversal: what each directory entry contributes, and the queue of
//! directories that remain to be listed.
//!
//! The caller lists a directory, describes each entry as an `Entry` (or as
//! `None` where the entry or its metadata could not be read, or where its name
//! or path is not valid Unicode), and hands the listing to `Search::visit_dir`.
//! It prints what that reports and puts what it descends into on a
//! `WorkQueue`. Unreadable entries contribute nothing, and nothing else is
//! lost on their account.
use vstd::prelude::*;

use crate::exclusion::{all_compile, excluded_by, first_refused, rule_texts, ExclusionError, ExclusionSet};
use crate::pattern::{pattern_regex, Pattern, PatternError};
use crate::regex_rule::{regex_compiles, regex_finds};

verus! {

/// A readable directory entry.
pub struct Entry {
    /// The entry's full path.
    pub path: String,
    /// The entry's own file name.
    pub name: String,
    /// Whether the entry is a directory.
    pub is_dir: bool,
}

/// Whether an entry is reported: its name matches the pattern's expression,
/// whether it is a file or a directory.
pub open spec fn emits(pattern: Seq<char>, e: Entry) -> bool {
    regex_finds(pattern, e.name@)
}

/// Whether the walk descends into an entry: it is a directory and no rule
/// matches its path.
pub open spec fn descends(rules: Seq<Seq<char>>, e: Entry) -> bool {
    e.is_dir && !excluded_by(rules, e.path@)
}

/// The paths of the readable entries of `listing` that `pick` selects, in
/// the listing's order.
pub open spec fn chosen(listing: Seq<Option<Entry>>, pick: spec_fn(Entry) -> bool) -> Seq<String>
    decreases listing.len(),
{
    if listing.len() == 0 {
        seq![]
    } else {
        let r = chosen(listing.drop_last(), pick);
        match listing.last() {
            Some(e) => if pick(e) {
                r.push(e.path)
            } else {
                r
            },
            None => r,
        }
    }
}

/// The paths of a listing that are reported, in the listing's order.
pub open spec fn reported(pattern: Seq<char>, listing: Seq<Option<Entry>>) -> Seq<String> {
    chosen(listing, |e: Entry| emits(pattern, e))
}

/// The paths of a listing that the walk descends into, in the listing's order.
pub open spec fn descended(rules: Seq<Seq<char>>, listing: Seq<Option<Entry>>) -> Seq<String> {
    chosen(listing, |e: Entry| descends(rules, e))
}

/// The paths of the readable entries of `listing` whose flag in `flags` is
/// set, in the listing's order.
pub open spec fn kept(listing: Seq<Option<Entry>>, flags: Seq<bool>) -> Seq<String>
    decreases listing.len(),
{
    if listing.len() == 0 {
        seq![]
    } else {
        let r = kept(listing.drop_last(), flags.drop_last());
        match listing.last() {
            Some(e) => if flags.last() {
                r.push(e.path)
            } else {
                r
            },
            None => r,
        }
    }
}

/// Whether `flags` holds, for each readable entry of `listing`, what `pick`
/// says of it.
pub open spec fn flags_follow(
    listing: Seq<Option<Entry>>,
    flags: Seq<bool>,
    pick: spec_fn(Entry) -> bool,
) -> bool {
    &&& flags.len() == listing.len()
    &&& forall|i: int|
        0 <= i < listing.len() ==> match #[trigger] listing[i] {
            Some(e) => flags[i] == pick(e),
            None => true,
        }
}

proof fn lemma_kept_chosen(listing: Seq<Option<Entry>>, flags: Seq<bool>, pick: spec_fn(Entry) -> bool)
    requires
        flags_follow(listing, flags, pick),
    ensures
        kept(listing, flags) == chosen(listing, pick),
    decreases listing.len(),
{
    if listing.len() > 0 {
        let (l, f) = (listing.drop_last(), flags.drop_last());
        assert forall|i: int| 0 <= i < l.len() implies match #[trigger] l[i] {
            Some(e) => f[i] == pick(e),
            None => true,
        } by {
            assert(l[i] == listing[i]);
        }
        lemma_kept_chosen(l, f, pick);
        assert(listing[listing.len() - 1] == listing.last());
    }
}

/// The paths of the readable entries of `listing` whose flag is set.
pub fn select_paths(listing: &Vec<Option<Entry>>, flags: &Vec<bool>) -> (r: Vec<String>)
    requires
        flags.len() == listing.len(),
    ensures
        r@ == kept(listing@, flags@),
{
    let mut out: Vec<String> = Vec::new();
    let mut i: usize = 0;
    assert(listing@.subrange(0, 0) =~= seq![]);
    while i < listing.len()
        invariant
            i <= listing.len(),
            flags.len() == listing.len(),
            out@ == kept(listing@.subrange(0, i as int), flags@.subrange(0, i as int)),
        decreases listing.len() - i,
    {
        let ghost (pl, pf) = (listing@.subrange(0, i as int), flags@.subrange(0, i as int));
        match &listing[i] {
            Some(e) => {
                if flags[i] {
                    out.push(e.path.clone());
                }
            },
            None => {},
        }
        i = i + 1;
        assert(listing@.subrange(0, i as int).drop_last() =~= pl);
        assert(flags@.subrange(0, i as int).drop_last() =~= pf);
    }
    assert(listing@.subrange(0, i as int) =~= listing@);
    assert(flags@.subrange(0, i as int) =~= flags@);
    out
}

/// Whether entry `i` of `listing` is readable, is selected by `pick`, and has the path `x`.
pub open spec fn chosen_at(listing: Seq<Option<Entry>>, pick: spec_fn(Entry) -> bool, i: int, x: String) -> bool {
    0 <= i < listing.len() && match listing[i] {
        Some(e) => pick(e) && e.path == x,
        None => false,
    }
}

proof fn lemma_push_contains(r: Seq<String>, v: String, y: String)
    ensures
        r.push(v).contains(y) <==> (r.contains(y) || v == y),
{
    if r.push(v).contains(y) {
        let k = choose|k: int| 0 <= k < r.push(v).len() && r.push(v)[k] == y;
        if k < r.len() {
            assert(r[k] == y);
        }
    }
    if r.contains(y) {
        let k = choose|k: int| 0 <= k < r.len() && r[k] == y;
        assert(r.push(v)[k] == y);
    }
    if v == y {
        assert(r.push(v)[r.len() as int] == y);
    }
}

/// A path is selected exactly when some readable entry of the listing with
/// that path is picked. With `pick` the name test, this says which paths are
/// reported; with the descent test, which directories the walk enters.
pub proof fn lemma_chosen_members(listing: Seq<Option<Entry>>, pick: spec_fn(Entry) -> bool, x: String)
    ensures
        chosen(listing, pick).contains(x) <==> exists|i: int| chosen_at(listing, pick, i, x),
    decreases listing.len(),
{
    if listing.len() > 0 {
        let prev = listing.drop_last();
        let n = listing.len() - 1;
        lemma_chosen_members(prev, pick, x);
        assert forall|i: int| 0 <= i < prev.len() implies (chosen_at(prev, pick, i, x)
            <==> chosen_at(listing, pick, i, x)) by {
            assert(prev[i] == listing[i]);
        }
        let r = chosen(prev, pick);
        assert(listing[n] == listing.last());
        if exists|i: int| chosen_at(listing, pick, i, x) {
            let i = choose|i: int| chosen_at(listing, pick, i, x);
            if i < n {
                assert(chosen_at(prev, pick, i, x));
            }
        }
        match listing.last() {
            Some(e) => {
                if pick(e) {
                    lemma_push_contains(r, e.path, x);
                    if e.path == x {
                        assert(chosen_at(listing, pick, n, x));
                    }
                } else {
                    assert(!chosen_at(listing, pick, n, x));
                }
            },
            None => {
                assert(!chosen_at(listing, pick, n, x));
            },
        }
    }
}

/// The walk never descends into a path that an exclusion rule matches.
pub proof fn lemma_excluded_never_descended(
    rules: Seq<Seq<char>>,
    listing: Seq<Option<Entry>>,
    x: String,
)
    requires
        excluded_by(rules, x@),
    ensures
        !descended(rules, listing).contains(x),
{
    let pick = |e: Entry| descends(rules, e);
    lemma_chosen_members(listing, pick, x);
    assert forall|i: int| !chosen_at(listing, pick, i, x) by {
        if 0 <= i < listing.len() {
            match listing[i] {
                Some(e) => {
                    if e.path == x {
                        assert(excluded_by(rules, e.path@));
                    }
                },
                None => {},
            }
        }
    }
}

/// What a listing selects is the concatenation of what its parts select.
pub proof fn lemma_chosen_concat(
    a: Seq<Option<Entry>>,
    b: Seq<Option<Entry>>,
    pick: spec_fn(Entry) -> bool,
)
    ensures
        chosen(a + b, pick) == chosen(a, pick) + chosen(b, pick),
    decreases b.len(),
{
    if b.len() == 0 {
        assert(a + b =~= a);
        assert(chosen(a, pick) + chosen(b, pick) =~= chosen(a, pick));
    } else {
        lemma_chosen_concat(a, b.drop_last(), pick);
        assert((a + b).drop_last() =~= a + b.drop_last());
        assert((a + b).last() == b.last());
        assert(chosen(a, pick) + chosen(b.drop_last(), pick).push(b.last()->Some_0.path) =~= (chosen(
            a,
            pick,
        ) + chosen(b.drop_last(), pick)).push(b.last()->Some_0.path));
    }
}

proof fn lemma_none_dropped(
    before: Seq<Option<Entry>>,
    after: Seq<Option<Entry>>,
    pick: spec_fn(Entry) -> bool,
)
    ensures
        chosen(before + seq![None] + after, pick) == chosen(before + after, pick),
{
    let none: Seq<Option<Entry>> = seq![None];
    lemma_chosen_concat(before + none, after, pick);
    lemma_chosen_concat(before, none, pick);
    lemma_chosen_concat(before, after, pick);
    assert(none.drop_last() =~= seq![]);
    assert(none.last() is None);
    assert(chosen(none.drop_last(), pick) == Seq::<String>::empty());
    assert(chosen(before, pick) + chosen(none, pick) =~= chosen(before, pick));
}

/// An entry that cannot be read contributes nothing, and its siblings
/// contribute what they would without it.
pub proof fn lemma_unreadable_entry_skipped(
    pattern: Seq<char>,
    rules: Seq<Seq<char>>,
    before: Seq<Option<Entry>>,
    after: Seq<Option<Entry>>,
)
    ensures
        reported(pattern, before + seq![None] + after) == reported(pattern, before + after),
        descended(rules, before + seq![None] + after) == descended(rules, before + after),
{
    lemma_none_dropped(before, after, |e: Entry| emits(pattern, e));
    lemma_none_dropped(before, after, |e: Entry| descends(rules, e));
}

proof fn lemma_chosen_same_set(
    l1: Seq<Option<Entry>>,
    l2: Seq<Option<Entry>>,
    pick: spec_fn(Entry) -> bool,
)
    requires
        l1.to_set() == l2.to_set(),
    ensures
        chosen(l1, pick).to_set() == chosen(l2, pick).to_set(),
{
    assert forall|x: String| chosen(l1, pick).contains(x) <==> chosen(l2, pick).contains(x) by {
        lemma_chosen_members(l1, pick, x);
        lemma_chosen_members(l2, pick, x);
        if chosen(l1, pick).contains(x) {
            let i = choose|i: int| chosen_at(l1, pick, i, x);
            assert(l1.to_set().contains(l1[i]));
            let j = choose|j: int| 0 <= j < l2.len() && l2[j] == l1[i];
            assert(chosen_at(l2, pick, j, x));
        }
        if chosen(l2, pick).contains(x) {
            let i = choose|i: int| chosen_at(l2, pick, i, x);
            assert(l2.to_set().contains(l2[i]));
            let j = choose|j: int| 0 <= j < l1.len() && l1[j] == l2[i];
            assert(chosen_at(l1, pick, j, x));
        }
    }
    assert(chosen(l1, pick).to_set() =~= chosen(l2, pick).to_set());
}

/// Listings that hold the same entries, in whatever order, give the same set
/// of reported paths and the same set of directories to descend into: a
/// repeated walk over an unchanged tree finds the same paths.
pub proof fn lemma_visit_order_irrelevant(
    pattern: Seq<char>,
    rules: Seq<Seq<char>>,
    l1: Seq<Option<Entry>>,
    l2: Seq<Option<Entry>>,
)
    requires
        l1.to_set() == l2.to_set(),
    ensures
        reported(pattern, l1).to_set() == reported(pattern, l2).to_set(),
        descended(rules, l1).to_set() == descended(rules, l2).to_set(),
{
    lemma_chosen_same_set(l1, l2, |e: Entry| emits(pattern, e));
    lemma_chosen_same_set(l1, l2, |e: Entry| descends(rules, e));
}

/// A pattern that matches no entry's name reports nothing.
pub proof fn lemma_no_match_reports_nothing(pattern: Seq<char>, listing: Seq<Option<Entry>>)
    requires
        forall|i: int| 0 <= i < listing.len() ==> match #[trigger] listing[i] {
            Some(e) => !emits(pattern, e),
            None => true,
        },
    ensures
        reported(pattern, listing) == Seq::<String>::empty(),
{
    let pick = |e: Entry| emits(pattern, e);
    if reported(pattern, listing).len() > 0 {
        let x = reported(pattern, listing)[0];
        assert(reported(pattern, listing).contains(x));
        lemma_chosen_members(listing, pick, x);
        let i = choose|i: int| chosen_at(listing, pick, i, x);
        assert(listing[i] is Some);
    }
}

/// What one listed directory contributes to the walk.
pub struct Visit {
    /// The paths to report.
    pub reported: Vec<String>,
    /// The directories to descend into.
    pub descend: Vec<String>,
}

/// Why a search could not be set up.
#[derive(Debug, PartialEq, Eq)]
pub enum SearchError {
    /// The name pattern could not be compiled.
    Pattern(PatternError),
    /// An exclusion rule could not be compiled.
    Exclusion(ExclusionError),
}

/// A compiled name pattern together with the exclusion rules.
pub struct Search {
    pattern: Pattern,
    exclusions: ExclusionSet,
}

impl View for Search {
    type V = (Seq<char>, Seq<Seq<char>>);

    /// The pattern's regular expression and the exclusion rules.
    closed spec fn view(&self) -> (Seq<char>, Seq<Seq<char>>) {
        (self.pattern@, self.exclusions@)
    }
}

impl Search {
    /// A search for `pattern` that skips what `exclusions` excludes.
    pub fn new(pattern: Pattern, exclusions: ExclusionSet) -> (r: Search)
        ensures
            r@ == (pattern@, exclusions@),
    {
        Search { pattern, exclusions }
    }

    /// Compiles a comma-separated exclusion argument, then a wildcard pattern.
    /// The first failure is reported; with none, the search is ready.
    pub fn from_args(name: &str, excluded: &str) -> (r: Result<Search, SearchError>)
        ensures
            r is Ok == (all_compile(rule_texts(excluded@)) && regex_compiles(pattern_regex(name@))),
            r matches Err(SearchError::Exclusion(_)) <==> !all_compile(rule_texts(excluded@)),
            r matches Err(SearchError::Pattern(_)) <==> (all_compile(rule_texts(excluded@))
                && !regex_compiles(pattern_regex(name@))),
            r matches Ok(s) ==> s@ == (pattern_regex(name@), rule_texts(excluded@)),
            r matches Err(SearchError::Pattern(PatternError::Regex(p))) ==> p@ == name@,
            r matches Err(SearchError::Exclusion(e)) ==> first_refused(rule_texts(excluded@), e.rule@),
    {
        let exclusions = match ExclusionSet::parse(excluded) {
            Ok(set) => set,
            Err(e) => return Err(SearchError::Exclusion(e)),
        };
        let pattern = match Pattern::compile(name) {
            Ok(p) => p,
            Err(e) => return Err(SearchError::Pattern(e)),
        };
        Ok(Search { pattern, exclusions })
    }

    /// Whether `e` is reported, and whether the walk descends into it.
    pub fn visit_entry(&self, e: &Entry) -> (r: (bool, bool))
        ensures
            r.0 == emits(self@.0, *e),
            r.1 == descends(self@.1, *e),
    {
        let report = self.pattern.matches(e.name.as_str());
        let descend = e.is_dir && !self.exclusions.excludes(e.path.as_str());
        (report, descend)
    }

    /// What a directory with the entries `listing` contributes to the walk.
    pub fn visit_dir(&self, listing: &Vec<Option<Entry>>) -> (r: Visit)
        ensures
            r.reported@ == reported(self@.0, listing@),
            r.descend@ == descended(self@.1, listing@),
    {
        let mut hits: Vec<bool> = Vec::new();
        let mut dives: Vec<bool> = Vec::new();
        let mut i: usize = 0;
        while i < listing.len()
            invariant
                i <= listing.len(),
                hits.len() == i,
                dives.len() == i,
                flags_follow(listing@.subrange(0, i as int), hits@, |e: Entry| emits(self@.0, e)),
                flags_follow(listing@.subrange(0, i as int), dives@, |e: Entry| descends(self@.1, e)),
            decreases listing.len() - i,
        {
            match &listing[i] {
                Some(e) => {
                    let (report, descend) = self.visit_entry(e);
                    hits.push(report);
                    dives.push(descend);
                },
                None => {
                    hits.push(false);
                    dives.push(false);
                },
            }
            i = i + 1;
        }
        proof {
            assert(listing@.subrange(0, i as int) =~= listing@);
            lemma_kept_chosen(listing@, hits@, |e: Entry| emits(self@.0, e));
            lemma_kept_chosen(listing@, dives@, |e: Entry| descends(self@.1, e));
        }
        Visit { reported: select_paths(listing, &hits), descend: select_paths(listing, &dives) }
    }
}

/// The directories that remain to be listed.
pub struct WorkQueue {
    pending: Vec<String>,
}

impl View for WorkQueue {
    type V = Seq<String>;

    closed spec fn view(&self) -> Seq<String> {
        self.pending@
    }
}

impl WorkQueue {
    /// A queue that holds the root directory alone.
    pub fn new(root: String) -> (r: WorkQueue)
        ensures
            r@ == seq![root],
    {
        let mut pending = Vec::new();
        pending.push(root);
        let r = WorkQueue { pending };
        assert(r@ =~= seq![root]);
        r
    }

    /// Whether no directory remains.
    pub fn is_empty(&self) -> (r: bool)
        ensures
            r == (self@.len() == 0),
    {
        self.pending.len() == 0
    }

    /// Adds directories to be listed.
    pub fn push_all(&mut self, dirs: Vec<String>)
        ensures
            final(self)@ == old(self)@ + dirs@,
    {
        let mut dirs = dirs;
        self.pending.append(&mut dirs);
    }

    /// Takes one directory out of the queue, the one added last.
    pub fn next(&mut self) -> (r: Option<String>)
        ensures
            old(self)@.len() == 0 ==> r is None && final(self)@ == old(self)@,
            old(self)@.len() > 0 ==> r == Some(old(self)@.last()) && final(self)@ == old(
                self,
            )@.drop_last(),
    {
        self.pending.pop()
    }

    /// Takes every directory out of the queue.
    pub fn take_all(&mut self) -> (r: Vec<String>)
        ensures
            r@ == old(self)@,
            final(self)@ == Seq::<String>::empty(),
    {
        let mut taken = Vec::new();
        std::mem::swap(&mut taken, &mut self.pending);
        taken
    }
}

} // verus!
