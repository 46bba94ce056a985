//! The search engine: three filters on an entry's kind, name and extension,
//! a depth bound, and the selection of matching entries from a walk.
use vstd::prelude::*;

use crate::entry::{Entry, EntryKind};
use crate::text::{
    chars_of, contains_chars, contains_text, extension_of, has_extension, is_ascii_text, is_last_dot,
    lemma_lowered_occurrence, lower_of, occurs_ignoring_ascii_case, to_lower,
};
use crate::Args;

verus! {

/// Which kinds of entry a search reports, resolved once from the two flags.
#[derive(Clone, Copy, Debug, PartialEq, Eq, Structural)]
pub enum Scope {
    FilesOnly,
    DirsOnly,
    Both,
}

/// `only_dirs` wins over `include_dirs`; with neither, only files are reported.
pub open spec fn scope_of(only_dirs: bool, include_dirs: bool) -> Scope {
    if only_dirs {
        Scope::DirsOnly
    } else if include_dirs {
        Scope::Both
    } else {
        Scope::FilesOnly
    }
}

/// The kind filter: directories only, files and directories, or files only.
/// Other kinds never pass.
pub open spec fn kind_passes(a: Args, k: EntryKind) -> bool {
    if a.only_dirs {
        k == EntryKind::Dir
    } else if a.include_dirs {
        k == EntryKind::File || k == EntryKind::Dir
    } else {
        k == EntryKind::File
    }
}

/// The name filter: the base name contains the fragment, both lower-cased
/// first when `ignore_case` is set. An entry without a textual name fails.
pub open spec fn name_passes(a: Args, name: Option<String>) -> bool {
    match name {
        None => false,
        Some(n) => if a.ignore_case {
            contains_text(lower_of(n@), lower_of(a.filename@))
        } else {
            contains_text(n@, a.filename@)
        },
    }
}

/// The extension filter: with no extension asked for, every entry passes;
/// otherwise the base name's extension equals it exactly, in any case mode.
pub open spec fn extension_passes(a: Args, name: Option<String>) -> bool {
    match a.file_type {
        None => true,
        Some(t) => match name {
            None => false,
            Some(n) => extension_of(n@) == Some(t@),
        },
    }
}

/// The depth bound: an entry lies at most `max_depth` levels below the root.
pub open spec fn depth_passes(a: Args, depth: usize) -> bool {
    match a.max_depth {
        None => true,
        Some(m) => depth <= m,
    }
}

/// An entry belongs in the result of a search with settings `a`.
pub open spec fn selects(a: Args, e: Entry) -> bool {
    &&& kind_passes(a, e.kind)
    &&& name_passes(a, e.name)
    &&& extension_passes(a, e.name)
    &&& depth_passes(a, e.depth)
}

/// The paths of the selected entries of a walk, in the walk's order.
pub open spec fn matched_paths(a: Args, es: Seq<Entry>) -> Seq<Seq<char>>
    decreases es.len(),
{
    if es.len() == 0 {
        seq![]
    } else {
        let rest = matched_paths(a, es.drop_last());
        if selects(a, es.last()) {
            rest.push(es.last().path@)
        } else {
            rest
        }
    }
}

/// The texts held by a sequence of strings.
pub open spec fn texts(v: Seq<String>) -> Seq<Seq<char>> {
    v.map_values(|s: String| s@)
}

/// A configured search.
pub struct FileSearcher {
    pub args: Args,
    /// The kind filter, resolved from `args` when the searcher is made.
    pub scope: Scope,
}

impl FileSearcher {
    /// The scope agrees with the flags of `args`.
    pub open spec fn wf(&self) -> bool {
        self.scope == scope_of(self.args.only_dirs, self.args.include_dirs)
    }

    /// A searcher for the settings `args`.
    pub fn new(args: Args) -> (r: Self)
        ensures
            r.args == args,
            r.wf(),
    {
        let scope = if args.only_dirs {
            Scope::DirsOnly
        } else if args.include_dirs {
            Scope::Both
        } else {
            Scope::FilesOnly
        };
        FileSearcher { args, scope }
    }

    /// Whether the entry's kind is one that this search reports.
    pub fn is_allowed(&self, entry: &Entry) -> (r: bool)
        requires
            self.wf(),
        ensures
            r == kind_passes(self.args, entry.kind),
    {
        match self.scope {
            Scope::DirsOnly => entry.kind == EntryKind::Dir,
            Scope::Both => entry.kind == EntryKind::File || entry.kind == EntryKind::Dir,
            Scope::FilesOnly => entry.kind == EntryKind::File,
        }
    }

    /// Whether the entry's base name contains the fragment.
    /// For ASCII texts, the case-insensitive comparison is ASCII case folding.
    pub fn name_matches(&self, entry: &Entry) -> (r: bool)
        ensures
            r == name_passes(self.args, entry.name),
            self.args.ignore_case && entry.name is Some && is_ascii_text(entry.name->0@)
                && is_ascii_text(self.args.filename@) ==> (r <==> exists|i: int|
                occurs_ignoring_ascii_case(entry.name->0@, self.args.filename@, i)),
    {
        match &entry.name {
            None => false,
            Some(name) => {
                if self.args.ignore_case {
                    let n = to_lower(name.as_str());
                    let f = to_lower(self.args.filename.as_str());
                    proof {
                        if is_ascii_text(name@) && is_ascii_text(self.args.filename@) {
                            lemma_lowered_occurrence(name@, self.args.filename@, n@, f@);
                        }
                    }
                    contains_chars(&chars_of(n.as_str()), &chars_of(f.as_str()))
                } else {
                    contains_chars(&chars_of(name.as_str()), &chars_of(self.args.filename.as_str()))
                }
            },
        }
    }

    /// Whether the entry has the extension asked for, if one was.
    pub fn file_type_matches(&self, entry: &Entry) -> (r: bool)
        ensures
            r == extension_passes(self.args, entry.name),
    {
        match &self.args.file_type {
            None => true,
            Some(t) => match &entry.name {
                None => false,
                Some(name) => has_extension(&chars_of(name.as_str()), &chars_of(t.as_str())),
            },
        }
    }

    /// Whether the entry lies within the depth bound, if there is one.
    pub fn within_depth(&self, entry: &Entry) -> (r: bool)
        ensures
            r == depth_passes(self.args, entry.depth),
    {
        match self.args.max_depth {
            None => true,
            Some(m) => entry.depth <= m,
        }
    }

    /// Whether the entry belongs in the result: every filter passes.
    pub fn matches(&self, entry: &Entry) -> (r: bool)
        requires
            self.wf(),
        ensures
            r == selects(self.args, *entry),
    {
        self.is_allowed(entry) && self.name_matches(entry) && self.file_type_matches(entry)
            && self.within_depth(entry)
    }

    /// The paths of the entries of a walk that belong in the result, in the
    /// order the walk produced them.
    pub fn search(&self, entries: &Vec<Entry>) -> (r: Vec<String>)
        requires
            self.wf(),
        ensures
            texts(r@) == matched_paths(self.args, entries@),
    {
        let mut r: Vec<String> = Vec::new();
        let mut i: usize = 0;
        while i < entries.len()
            invariant
                self.wf(),
                i <= entries@.len(),
                texts(r@) == matched_paths(self.args, entries@.subrange(0, i as int)),
            decreases entries@.len() - i,
        {
            let e = &entries[i];
            let ghost prefix = entries@.subrange(0, i + 1);
            assert(prefix.drop_last() =~= entries@.subrange(0, i as int));
            assert(prefix.last() == *e);
            if self.matches(e) {
                let p = e.path.clone();
                let ghost before = r@;
                r.push(p);
                assert(texts(r@) =~= texts(before).push(e.path@));
            }
            i = i + 1;
        }
        assert(entries@.subrange(0, entries@.len() as int) =~= entries@);
        r
    }

    /// Runs the search over the entries of a walk and gives the lines to
    /// report: one path per matching entry, in the walk's order.
    pub fn run(&self, entries: &Vec<Entry>) -> (r: Vec<String>)
        requires
            self.wf(),
        ensures
            texts(r@) == matched_paths(self.args, entries@),
    {
        self.search(entries)
    }
}


/// A path is in the result of a walk exactly when some entry of the walk with
/// that path passes the kind, name and extension filters and the depth bound.
pub proof fn lemma_result_membership(a: Args, es: Seq<Entry>, p: Seq<char>)
    ensures
        matched_paths(a, es).contains(p) <==> exists|i: int|
            0 <= i < es.len() && selects(a, #[trigger] es[i]) && es[i].path@ == p,
    decreases es.len(),
{
    if es.len() > 0 {
        let init = es.drop_last();
        let rest = matched_paths(a, init);
        lemma_result_membership(a, init, p);
        if matched_paths(a, es).contains(p) {
            let k = choose|k: int| 0 <= k < matched_paths(a, es).len() && matched_paths(a, es)[k] == p;
            if selects(a, es.last()) && k == rest.len() {
                assert(selects(a, es[es.len() - 1]) && es[es.len() - 1].path@ == p);
            } else {
                assert(rest[k] == p);
                assert(rest.contains(p));
                let i = choose|i: int| 0 <= i < init.len() && selects(a, #[trigger] init[i]) && init[i].path@ == p;
                assert(es[i] == init[i]);
            }
        }
        if exists|i: int| 0 <= i < es.len() && selects(a, #[trigger] es[i]) && es[i].path@ == p {
            let i = choose|i: int| 0 <= i < es.len() && selects(a, #[trigger] es[i]) && es[i].path@ == p;
            if i == es.len() - 1 {
                assert(matched_paths(a, es) == rest.push(p));
                assert(matched_paths(a, es)[rest.len() as int] == p);
            } else {
                assert(init[i] == es[i]);
                assert(rest.contains(p));
                let k = choose|k: int| 0 <= k < rest.len() && rest[k] == p;
                if selects(a, es.last()) {
                    assert(matched_paths(a, es)[k] == p);
                }
            }
        }
    }
}

/// Searching two walks that met the same entries, in any order, gives the same
/// set of paths: a search on an unchanged tree can be repeated.
pub proof fn lemma_same_entries_same_results(a: Args, es1: Seq<Entry>, es2: Seq<Entry>)
    requires
        es1.to_set() == es2.to_set(),
    ensures
        matched_paths(a, es1).to_set() == matched_paths(a, es2).to_set(),
{
    assert forall|p: Seq<char>| matched_paths(a, es1).contains(p) implies matched_paths(a, es2).contains(p) by {
        lemma_result_membership(a, es1, p);
        lemma_result_membership(a, es2, p);
        let i = choose|i: int| 0 <= i < es1.len() && selects(a, #[trigger] es1[i]) && es1[i].path@ == p;
        assert(es1.to_set().contains(es1[i]));
        assert(es2.contains(es1[i]));
        let j = choose|j: int| 0 <= j < es2.len() && es2[j] == es1[i];
        assert(selects(a, es2[j]));
    }
    assert forall|p: Seq<char>| matched_paths(a, es2).contains(p) implies matched_paths(a, es1).contains(p) by {
        lemma_result_membership(a, es1, p);
        lemma_result_membership(a, es2, p);
        let i = choose|i: int| 0 <= i < es2.len() && selects(a, #[trigger] es2[i]) && es2[i].path@ == p;
        assert(es2.to_set().contains(es2[i]));
        assert(es1.contains(es2[i]));
        let j = choose|j: int| 0 <= j < es1.len() && es1[j] == es2[i];
        assert(selects(a, es1[j]));
    }
    assert(matched_paths(a, es1).to_set() =~= matched_paths(a, es2).to_set());
}

/// With a depth bound `m`, every reported path belongs to an entry at most `m`
/// levels below the root; with `m == 0` that is the root alone.
pub proof fn lemma_depth_bound(a: Args, es: Seq<Entry>, m: usize, p: Seq<char>)
    requires
        a.max_depth == Some(m),
        matched_paths(a, es).contains(p),
    ensures
        exists|i: int| 0 <= i < es.len() && (#[trigger] es[i]).depth <= m && es[i].path@ == p,
{
    lemma_result_membership(a, es, p);
    let i = choose|i: int| 0 <= i < es.len() && selects(a, #[trigger] es[i]) && es[i].path@ == p;
    assert(es[i].depth <= m);
}

/// A case-sensitive search for a fragment that no entry's name contains, as
/// written, reports nothing.
pub proof fn lemma_exact_case_no_occurrence(a: Args, es: Seq<Entry>)
    requires
        !a.ignore_case,
        forall|i: int|
            0 <= i < es.len() && (#[trigger] es[i]).name is Some ==> !contains_text(
                es[i].name->0@,
                a.filename@,
            ),
    ensures
        matched_paths(a, es).len() == 0,
{
    if matched_paths(a, es).len() > 0 {
        let p = matched_paths(a, es)[0];
        assert(matched_paths(a, es).contains(p));
        lemma_result_membership(a, es, p);
        let i = choose|i: int| 0 <= i < es.len() && selects(a, #[trigger] es[i]) && es[i].path@ == p;
        assert(name_passes(a, es[i].name));
    }
}

/// A case-insensitive search reports, of the entries that pass the other
/// filters, exactly those whose lower-cased name contains the lower-cased
/// fragment.
pub proof fn lemma_ignore_case_selection(a: Args, e: Entry)
    requires
        a.ignore_case,
    ensures
        selects(a, e) <==> (kind_passes(a, e.kind) && extension_passes(a, e.name) && depth_passes(
            a,
            e.depth,
        ) && e.name is Some && contains_text(lower_of(e.name->0@), lower_of(a.filename@))),
{
}

/// An extension never holds a dot: it is what follows the last one. So an
/// extension filter that holds a dot (`tar.gz`) passes no entry.
pub proof fn lemma_extension_has_no_dot(a: Args, e: Entry)
    ensures
        e.name is Some && extension_of(e.name->0@) is Some ==> forall|k: int|
            0 <= k < extension_of(e.name->0@)->0.len() ==> extension_of(e.name->0@)->0[k] != '.',
        a.file_type is Some && a.file_type->0@.contains('.') ==> !extension_passes(a, e.name),
{
    if e.name is Some {
        let n = e.name->0@;
        if extension_of(n) is Some {
            let i = choose|i: int| is_last_dot(n, i);
            let x = extension_of(n)->0;
            assert(x == n.subrange(i + 1, n.len() as int));
            assert forall|k: int| 0 <= k < x.len() implies x[k] != '.' by {
                assert(x[k] == n[i + 1 + k]);
            }
        }
    }
}

} // verus!
