//! Which files on disk hold DSD audio, and how to search for them.
//!
//! A search looks at one path after the other. It does not touch the disk
//! itself: its owner tells it what is at a path, and what is in a directory.
use vstd::prelude::*;
use crate::text::{ascii_lower, ascii_lowercase, eq_ignore_ascii_case, law_lower};

verus! {

/// The file name extensions of DSD files, in lower case.
pub open spec fn dsd_extensions() -> Seq<Seq<char>> {
    seq!["dsf"@, "dff"@, "dsd"@]
}

/// The file name extensions of DSD files, in lower case.
pub fn dsd_extension_list() -> (r: Vec<&'static str>)
    ensures
        r@.len() == dsd_extensions().len(),
        forall|i: int| 0 <= i < r@.len() ==> (#[trigger] r@[i])@ == dsd_extensions()[i],
{
    vec!["dsf", "dff", "dsd"]
}

/// Whether an extension is that of a DSD file, whatever its case.
pub open spec fn is_dsd_extension(extension: Option<Seq<char>>) -> bool {
    match extension {
        Some(e) => dsd_extensions().contains(ascii_lowercase(e)),
        None => false,
    }
}

/// Whether a path is a DSD file, by its extension.
///
/// `is_file` says whether the path is a regular file, `extension` is what
/// follows the last dot of its name, if there is one. True if the extension, in
/// lower case, is one of `dsd_extensions`.
pub fn is_dsd_file(is_file: bool, extension: Option<&str>) -> (r: bool)
    ensures
        r == (is_file && is_dsd_extension(
            match extension {
                Some(e) => Some(e@),
                None => None,
            },
        )),
{
    if !is_file {
        return false;
    }
    match extension {
        Some(ext) => {
            proof {
                reveal_strlit("dsf");
                reveal_strlit("dff");
                reveal_strlit("dsd");
                let e = dsd_extensions();
                assert(e[0] == "dsf"@ && e[1] == "dff"@ && e[2] == "dsd"@);
                assert(ascii_lowercase("dsf"@) =~= "dsf"@);
                assert(ascii_lowercase("dff"@) =~= "dff"@);
                assert(ascii_lowercase("dsd"@) =~= "dsd"@);
            }
            eq_ignore_ascii_case(ext, "dsf") || eq_ignore_ascii_case(ext, "dff")
                || eq_ignore_ascii_case(ext, "dsd")
        },
        None => false,
    }
}

/// Whether a text is one of three words, in whatever case: D, S, F; D, F, F; or D,
/// S, D.
pub open spec fn spells_dsd(e: Seq<char>) -> bool {
    &&& e.len() == 3
    &&& (e[0] == 'd' || e[0] == 'D')
    &&& {
        ||| (e[1] == 's' || e[1] == 'S') && (e[2] == 'f' || e[2] == 'F')
        ||| (e[1] == 'f' || e[1] == 'F') && (e[2] == 'f' || e[2] == 'F')
        ||| (e[1] == 's' || e[1] == 'S') && (e[2] == 'd' || e[2] == 'D')
    }
}

/// The extensions of DSD files are the three letters D, S, F; D, F, F; and D, S, D,
/// in whatever case, and no others. A file without an extension is none.
pub proof fn law_dsd_extensions(extension: Option<Seq<char>>)
    ensures
        is_dsd_extension(extension) <==> (extension matches Some(e) && {
            &&& e.len() == 3
            &&& (e[0] == 'd' || e[0] == 'D')
            &&& {
                ||| (e[1] == 's' || e[1] == 'S') && (e[2] == 'f' || e[2] == 'F')
                ||| (e[1] == 'f' || e[1] == 'F') && (e[2] == 'f' || e[2] == 'F')
                ||| (e[1] == 's' || e[1] == 'S') && (e[2] == 'd' || e[2] == 'D')
            }
        }),
{
    reveal_strlit("dsf");
    reveal_strlit("dff");
    reveal_strlit("dsd");
    let all = dsd_extensions();
    assert(all[0] == "dsf"@ && all[1] == "dff"@ && all[2] == "dsd"@);
    if let Some(e) = extension {
        let l = ascii_lowercase(e);
        if is_dsd_extension(extension) {
            let i = choose|i: int| 0 <= i < all.len() && all[i] == l;
            assert(l == "dsf"@ || l == "dff"@ || l == "dsd"@);
            assert(e.len() == 3);
            assert(l[0] == ascii_lower(e[0]) && l[1] == ascii_lower(e[1]) && l[2] == ascii_lower(
                e[2],
            ));
            law_lower(e[0]);
            law_lower(e[1]);
            law_lower(e[2]);
        }
        if spells_dsd(e) {
            assert(l[0] == 'd');
            assert(l[1] == 's' && l[2] == 'f' ==> l =~= "dsf"@);
            assert(l[1] == 'f' && l[2] == 'f' ==> l =~= "dff"@);
            assert(l[1] == 's' && l[2] == 'd' ==> l =~= "dsd"@);
            assert(all.contains(l));
        }
    }
}

/// What is at a path.
#[derive(Copy, Clone, PartialEq, Eq, Debug, Structural)]
pub enum PathKind {
    Directory,
    File,
    Other,
}

/// What to do about a path.
#[derive(Copy, Clone, PartialEq, Eq, Debug, Structural)]
pub enum Visit {
    /// Look at what is in the directory
    List,
    /// Keep the file
    Keep,
    Skip,
}

/// What to do about a path. Directories are looked into if they may be; files are
/// kept if they are DSD files.
pub open spec fn visit_of(kind: PathKind, extension: Option<Seq<char>>, may_list: bool) -> Visit {
    match kind {
        PathKind::Directory => if may_list {
            Visit::List
        } else {
            Visit::Skip
        },
        PathKind::File => if is_dsd_extension(extension) {
            Visit::Keep
        } else {
            Visit::Skip
        },
        PathKind::Other => Visit::Skip,
    }
}

/// What to do about a path.
pub fn visit(kind: PathKind, extension: Option<&str>, may_list: bool) -> (r: Visit)
    ensures
        r == visit_of(
            kind,
            match extension {
                Some(e) => Some(e@),
                None => None,
            },
            may_list,
        ),
{
    match kind {
        PathKind::Directory => if may_list {
            Visit::List
        } else {
            Visit::Skip
        },
        PathKind::File => if is_dsd_file(true, extension) {
            Visit::Keep
        } else {
            Visit::Skip
        },
        PathKind::Other => Visit::Skip,
    }
}

/// A path is kept exactly if it is a file whose extension spells that of a DSD file,
/// and looked into exactly if it is a directory that may be. No file is looked
/// into, and nothing else than a file is kept.
pub proof fn law_visits(kind: PathKind, extension: Option<Seq<char>>, may_list: bool)
    ensures
        visit_of(kind, extension, may_list) == Visit::Keep <==> (kind == PathKind::File && (
        extension matches Some(e) && spells_dsd(e))),
        visit_of(kind, extension, may_list) == Visit::List <==> (kind == PathKind::Directory
            && may_list),
{
    law_dsd_extensions(extension);
}

/// The state of a search among paths of some type.
#[verifier::ext_equal]
pub struct SearchModel<P> {
    /// Whether directories within directories are looked into
    pub recurse: bool,
    /// The paths to look at, the next one last, and whether they may be looked
    /// into if they are directories
    pub pending: Seq<(P, bool)>,
    /// The files found so far
    pub found: Seq<std::path::PathBuf>,
}

/// Paths to look at, the first one last.
pub open spec fn to_visit<P>(paths: Seq<P>, may_list: bool) -> Seq<(P, bool)> {
    Seq::new(paths.len(), |i: int| (paths[paths.len() - 1 - i], may_list))
}

impl<P> SearchModel<P> {
    /// A search that begins.
    pub open spec fn begun(paths: Seq<P>, recurse: bool) -> SearchModel<P> {
        SearchModel { recurse, pending: to_visit(paths, true), found: Seq::empty() }
    }

    /// The search without the path that is looked at now.
    pub open spec fn popped(self) -> SearchModel<P> {
        SearchModel { pending: self.pending.drop_last(), ..self }
    }

    /// The search with the entries of a directory, which come next.
    pub open spec fn listed(self, entries: Seq<P>) -> SearchModel<P> {
        SearchModel { pending: self.pending + to_visit(entries, self.recurse), ..self }
    }

    /// The search with one more file.
    pub open spec fn kept(self, file: std::path::PathBuf) -> SearchModel<P> {
        SearchModel { found: self.found.push(file), ..self }
    }
}

/// A search for DSD files.
pub struct FileSearch {
    recurse: bool,
    pending: Vec<(std::path::PathBuf, bool)>,
    found: Vec<std::path::PathBuf>,
}

impl View for FileSearch {
    type V = SearchModel<std::path::PathBuf>;

    closed spec fn view(&self) -> SearchModel<std::path::PathBuf> {
        SearchModel { recurse: self.recurse, pending: self.pending@, found: self.found@ }
    }
}

impl FileSearch {
    /// Begins a search at some paths.
    pub fn new(paths: Vec<std::path::PathBuf>, recurse: bool) -> (r: Self)
        ensures
            r@ == SearchModel::begun(paths@, recurse),
    {
        let mut r = FileSearch { recurse, pending: Vec::new(), found: Vec::new() };
        r.push_paths(paths, true);
        assert(r@ =~= SearchModel::begun(paths@, recurse));
        r
    }

    /// Adds paths to look at, the first one last.
    fn push_paths(&mut self, paths: Vec<std::path::PathBuf>, may_list: bool)
        ensures
            final(self)@ == (SearchModel {
                pending: old(self)@.pending + to_visit(paths@, may_list),
                ..old(self)@
            }),
    {
        let ghost all = paths@;
        let ghost start = self.pending@;
        let mut rest: Vec<std::path::PathBuf> = paths;
        assert(start + to_visit(all, may_list).take(0) =~= start);
        loop
            invariant
                rest@.len() <= all.len(),
                rest@ == all.take(rest@.len() as int),
                self.recurse == old(self).recurse,
                self.found@ == old(self).found@,
                self.pending@ == start + to_visit(all, may_list).take(all.len() - rest@.len()),
            ensures
                rest@.len() == 0,
            decreases rest@.len(),
        {
            match rest.pop() {
                Some(p) => {
                    self.pending.push((p, may_list));
                    assert(self.pending@ =~= start + to_visit(all, may_list).take(
                        all.len() - rest@.len(),
                    ));
                },
                None => {
                    break;
                },
            }
        }
        assert(to_visit(all, may_list).take(all.len() as int) =~= to_visit(all, may_list));
    }

    /// The next path to look at, and whether it may be looked into if it is a
    /// directory.
    pub fn next_path(&mut self) -> (r: Option<(std::path::PathBuf, bool)>)
        ensures
            match r {
                Some(p) => {
                    &&& old(self)@.pending.len() > 0
                    &&& p == old(self)@.pending.last()
                    &&& final(self)@ == old(self)@.popped()
                },
                None => old(self)@.pending.len() == 0 && final(self)@ == old(self)@,
            },
    {
        self.pending.pop()
    }

    /// Takes the entries of a directory.
    pub fn listed(&mut self, entries: Vec<std::path::PathBuf>)
        ensures
            final(self)@ == old(self)@.listed(entries@),
    {
        let may_list: bool = self.recurse;
        self.push_paths(entries, may_list);
    }

    /// Takes a file to keep.
    pub fn keep(&mut self, file: std::path::PathBuf)
        ensures
            final(self)@ == old(self)@.kept(file),
    {
        self.found.push(file);
    }

    /// The files found, in the order in which they were.
    pub fn into_found(self) -> (r: Vec<std::path::PathBuf>)
        ensures
            r@ == self@.found,
    {
        self.found
    }
}

/// What is on disk at a path: a file, with its extension and the path it is kept
/// under; a directory, with its entries; or something else.
pub enum Tree {
    File(Option<Seq<char>>, std::path::PathBuf),
    Directory(Seq<Tree>),
    Other,
}

/// The DSD files to be found in a tree, in order: itself, or those in its entries
/// if it may be looked into.
pub open spec fn files_in(tree: Tree, may_list: bool, recurse: bool) -> Seq<std::path::PathBuf>
    decreases tree, 0nat,
{
    match tree {
        Tree::File(extension, path) => if is_dsd_extension(extension) {
            seq![path]
        } else {
            Seq::empty()
        },
        Tree::Directory(entries) => if may_list {
            files_in_all(entries, recurse, entries.len())
        } else {
            Seq::empty()
        },
        Tree::Other => Seq::empty(),
    }
}

/// The DSD files to be found in the first `n` entries of a directory.
pub open spec fn files_in_all(entries: Seq<Tree>, recurse: bool, n: nat) -> Seq<
    std::path::PathBuf,
>
    decreases entries, n,
{
    if n == 0 || n > entries.len() {
        Seq::empty()
    } else {
        files_in_all(entries, recurse, (n - 1) as nat) + files_in(
            entries[n - 1],
            recurse,
            recurse,
        )
    }
}

/// The DSD files to be found in the trees that are still to be looked at.
pub open spec fn files_pending(pending: Seq<(Tree, bool)>, recurse: bool) -> Seq<
    std::path::PathBuf,
>
    decreases pending.len(),
{
    if pending.len() == 0 {
        Seq::empty()
    } else {
        files_in(pending.last().0, pending.last().1, recurse) + files_pending(
            pending.drop_last(),
            recurse,
        )
    }
}

/// The search after it has looked at its next path.
pub open spec fn searched_one(s: SearchModel<Tree>) -> SearchModel<Tree> {
    let (tree, may_list) = s.pending.last();
    match tree {
        Tree::File(extension, path) => if visit_of(PathKind::File, extension, may_list)
            == Visit::Keep {
            s.popped().kept(path)
        } else {
            s.popped()
        },
        Tree::Directory(entries) => if visit_of(PathKind::Directory, None, may_list)
            == Visit::List {
            s.popped().listed(entries)
        } else {
            s.popped()
        },
        Tree::Other => s.popped(),
    }
}

/// The entry that comes `n`-th.
proof fn lemma_one_entry(
    rest: Seq<(Tree, bool)>,
    entries: Seq<Tree>,
    recurse: bool,
    n: nat,
)
    requires
        n < entries.len(),
    ensures
        files_in_all(entries, recurse, n) + files_pending(
            rest + to_visit(entries, recurse).take(entries.len() - n),
            recurse,
        ) == files_in_all(entries, recurse, n + 1) + files_pending(
            rest + to_visit(entries, recurse).take(entries.len() - n - 1),
            recurse,
        ),
{
    let all = to_visit(entries, recurse);
    let more = rest + all.take(entries.len() - n);
    let fewer = rest + all.take(entries.len() - n - 1);
    assert(more.drop_last() =~= fewer);
    assert(more.last() == (entries[n as int], recurse));
    let head = files_in_all(entries, recurse, n);
    let one = files_in(entries[n as int], recurse, recurse);
    let tail = files_pending(fewer, recurse);
    assert(head + (one + tail) =~= (head + one) + tail);
}

/// All entries of a directory.
proof fn lemma_all_entries(
    rest: Seq<(Tree, bool)>,
    entries: Seq<Tree>,
    recurse: bool,
    n: nat,
)
    requires
        n <= entries.len(),
    ensures
        files_in_all(entries, recurse, n) + files_pending(
            rest + to_visit(entries, recurse).take(entries.len() - n),
            recurse,
        ) == files_pending(rest + to_visit(entries, recurse), recurse),
    decreases n,
{
    let all = to_visit(entries, recurse);
    if n == 0 {
        assert(all.take(entries.len() as int) =~= all);
        assert(files_in_all(entries, recurse, 0) + files_pending(rest + all, recurse)
            =~= files_pending(rest + all, recurse));
    } else {
        lemma_all_entries(rest, entries, recurse, (n - 1) as nat);
        lemma_one_entry(rest, entries, recurse, (n - 1) as nat);
    }
}

/// Every step of a search keeps this: the files found and those still to be found
/// are, in order, all that there are. When no path is left to look at, all files
/// are found.
pub proof fn law_search_finds_all(s: SearchModel<Tree>)
    requires
        s.pending.len() > 0,
    ensures
        searched_one(s).recurse == s.recurse,
        searched_one(s).found + files_pending(searched_one(s).pending, s.recurse) == s.found
            + files_pending(s.pending, s.recurse),
{
    let (tree, may_list) = s.pending.last();
    let rest = s.pending.drop_last();
    let tail = files_pending(rest, s.recurse);
    match tree {
        Tree::File(extension, path) => {
            if is_dsd_extension(extension) {
                assert(s.found.push(path) + tail =~= s.found + (seq![path] + tail));
            } else {
                assert(Seq::<std::path::PathBuf>::empty() + tail =~= tail);
            }
        },
        Tree::Directory(entries) => {
            if may_list {
                lemma_all_entries(rest, entries, s.recurse, entries.len());
                let all = to_visit(entries, s.recurse);
                assert(rest + all.take(0) =~= rest);
            } else {
                assert(Seq::<std::path::PathBuf>::empty() + tail =~= tail);
            }
        },
        Tree::Other => {
            assert(Seq::<std::path::PathBuf>::empty() + tail =~= tail);
        },
    }
}

/// A search begins with all files of the trees at its paths still to be found.
proof fn lemma_search_begins(trees: Seq<Tree>, recurse: bool)
    ensures
        ({
            let s = SearchModel::begun(trees, recurse);
            s.found + files_pending(s.pending, recurse) == files_at(trees, recurse, trees.len())
        }),
{
    let s = SearchModel::begun(trees, recurse);
    lemma_begun(trees, recurse, trees.len());
    let all = to_visit(trees, true);
    assert(all.take(0) =~= Seq::empty());
    assert(files_at(trees, recurse, trees.len()) + Seq::empty() =~= files_at(
        trees,
        recurse,
        trees.len(),
    ));
    assert(s.found + files_pending(s.pending, recurse) =~= files_pending(s.pending, recurse));
}

/// The DSD files to be found at the first `n` of the paths that a search begins
/// with.
pub open spec fn files_at(trees: Seq<Tree>, recurse: bool, n: nat) -> Seq<std::path::PathBuf>
    decreases n,
{
    if n == 0 || n > trees.len() {
        Seq::empty()
    } else {
        files_at(trees, recurse, (n - 1) as nat) + files_in(trees[n - 1], true, recurse)
    }
}

/// The first `n` paths of a search.
proof fn lemma_begun(trees: Seq<Tree>, recurse: bool, n: nat)
    requires
        n <= trees.len(),
    ensures
        files_at(trees, recurse, n) + files_pending(
            to_visit(trees, true).take(trees.len() - n),
            recurse,
        ) == files_pending(to_visit(trees, true), recurse),
    decreases n,
{
    let all = to_visit(trees, true);
    if n == 0 {
        assert(all.take(trees.len() as int) =~= all);
        assert(Seq::<std::path::PathBuf>::empty() + files_pending(all, recurse) =~= files_pending(
            all,
            recurse,
        ));
    } else {
        let m = (n - 1) as nat;
        lemma_begun(trees, recurse, m);
        let more = all.take(trees.len() - m);
        let fewer = all.take(trees.len() - n);
        assert(more.drop_last() =~= fewer);
        assert(more.last() == (trees[m as int], true));
        let head = files_at(trees, recurse, m);
        let one = files_in(trees[m as int], true, recurse);
        let tail = files_pending(fewer, recurse);
        assert(head + (one + tail) =~= (head + one) + tail);
    }
}

/// A search after `steps` more paths were looked at, as far as there are any.
pub open spec fn searched(s: SearchModel<Tree>, steps: nat) -> SearchModel<Tree>
    decreases steps,
{
    if steps == 0 {
        s
    } else {
        let before = searched(s, (steps - 1) as nat);
        if before.pending.len() == 0 {
            before
        } else {
            searched_one(before)
        }
    }
}

/// What is found and what is still to be found does not change.
proof fn lemma_searched(s: SearchModel<Tree>, steps: nat)
    ensures
        searched(s, steps).recurse == s.recurse,
        searched(s, steps).found + files_pending(searched(s, steps).pending, s.recurse) == s.found
            + files_pending(s.pending, s.recurse),
    decreases steps,
{
    if steps > 0 {
        lemma_searched(s, (steps - 1) as nat);
        let before = searched(s, (steps - 1) as nat);
        if before.pending.len() > 0 {
            law_search_finds_all(before);
        }
    }
}

/// A search that has come to its end has found exactly the DSD files in the trees
/// at its paths, in order.
pub proof fn law_search_complete(trees: Seq<Tree>, recurse: bool, steps: nat)
    requires
        searched(SearchModel::begun(trees, recurse), steps).pending.len() == 0,
    ensures
        searched(SearchModel::begun(trees, recurse), steps).found == files_at(
            trees,
            recurse,
            trees.len(),
        ),
{
    let s = SearchModel::begun(trees, recurse);
    lemma_searched(s, steps);
    lemma_search_begins(trees, recurse);
    let e = searched(s, steps);
    assert(e.found + files_pending(e.pending, recurse) =~= e.found);
}

/// What is found among a directory's entries when directories within are not looked
/// into is found when they are.
proof fn lemma_entries_within(entries: Seq<Tree>, n: nat, p: std::path::PathBuf)
    requires
        files_in_all(entries, false, n).contains(p),
    ensures
        files_in_all(entries, true, n).contains(p),
    decreases n,
{
    if 0 < n <= entries.len() {
        let m = (n - 1) as nat;
        let (a, b) = (files_in_all(entries, false, m), files_in(entries[n - 1], false, false));
        let (c, d) = (files_in_all(entries, true, m), files_in(entries[n - 1], true, true));
        let i = choose|i: int| 0 <= i < (a + b).len() && (a + b)[i] == p;
        if i < a.len() {
            assert(a[i] == p);
            lemma_entries_within(entries, m, p);
            let j = choose|j: int| 0 <= j < c.len() && c[j] == p;
            assert((c + d)[j] == p);
        } else {
            assert(b[i - a.len()] == p);
            assert(b == d);
            assert((c + d)[c.len() + (i - a.len())] == p);
        }
    }
}

/// Every file that is found without looking into directories within directories is
/// found when they are looked into.
pub proof fn law_recursion_finds_more(trees: Seq<Tree>, n: nat, p: std::path::PathBuf)
    requires
        files_at(trees, false, n).contains(p),
    ensures
        files_at(trees, true, n).contains(p),
    decreases n,
{
    if 0 < n <= trees.len() {
        let m = (n - 1) as nat;
        let (a, b) = (files_at(trees, false, m), files_in(trees[n - 1], true, false));
        let (c, d) = (files_at(trees, true, m), files_in(trees[n - 1], true, true));
        let i = choose|i: int| 0 <= i < (a + b).len() && (a + b)[i] == p;
        if i < a.len() {
            assert(a[i] == p);
            law_recursion_finds_more(trees, m, p);
            let j = choose|j: int| 0 <= j < c.len() && c[j] == p;
            assert((c + d)[j] == p);
        } else {
            assert(b[i - a.len()] == p);
            match trees[n - 1] {
                Tree::Directory(entries) => {
                    lemma_entries_within(entries, entries.len(), p);
                },
                _ => {},
            }
            assert(d.contains(p));
            let j = choose|j: int| 0 <= j < d.len() && d[j] == p;
            assert((c + d)[c.len() + j] == p);
        }
    }
}

/// Whether a tree is no directory, or one without directories among its entries.
pub open spec fn is_flat(tree: Tree) -> bool {
    match tree {
        Tree::Directory(entries) => forall|i: int|
            0 <= i < entries.len() ==> !((#[trigger] entries[i]) is Directory),
        _ => true,
    }
}

/// The entries of a directory without directories.
proof fn lemma_flat_entries(entries: Seq<Tree>, n: nat)
    requires
        forall|i: int| 0 <= i < entries.len() ==> !((#[trigger] entries[i]) is Directory),
    ensures
        files_in_all(entries, false, n) == files_in_all(entries, true, n),
    decreases n,
{
    if 0 < n <= entries.len() {
        lemma_flat_entries(entries, (n - 1) as nat);
        assert(!(entries[n - 1] is Directory));
        assert(files_in(entries[n - 1], false, false) == files_in(entries[n - 1], true, true));
    }
}

/// Where no directory has a directory in it, the same files are found with and
/// without looking into directories within directories.
pub proof fn law_recursion_finds_same(trees: Seq<Tree>, n: nat)
    requires
        forall|i: int| 0 <= i < trees.len() ==> is_flat(#[trigger] trees[i]),
    ensures
        files_at(trees, false, n) == files_at(trees, true, n),
    decreases n,
{
    if 0 < n <= trees.len() {
        law_recursion_finds_same(trees, (n - 1) as nat);
        assert(is_flat(trees[n - 1]));
        match trees[n - 1] {
            Tree::Directory(entries) => {
                lemma_flat_entries(entries, entries.len());
            },
            _ => {},
        }
    }
}

/// A file is found exactly where it is found at one of the paths.
proof fn lemma_found_at_one(trees: Seq<Tree>, recurse: bool, n: nat, p: std::path::PathBuf)
    requires
        n <= trees.len(),
    ensures
        files_at(trees, recurse, n).contains(p) <==> exists|i: int|
            0 <= i < n && files_in(#[trigger] trees[i], true, recurse).contains(p),
    decreases n,
{
    if n > 0 {
        let m = (n - 1) as nat;
        lemma_found_at_one(trees, recurse, m, p);
        let a = files_at(trees, recurse, m);
        let b = files_in(trees[n - 1], true, recurse);
        if a.contains(p) {
            let j = choose|j: int| 0 <= j < a.len() && a[j] == p;
            assert((a + b)[j] == p);
        }
        if b.contains(p) {
            let j = choose|j: int| 0 <= j < b.len() && b[j] == p;
            assert((a + b)[a.len() + j] == p);
        }
        if (a + b).contains(p) {
            let j = choose|j: int| 0 <= j < (a + b).len() && (a + b)[j] == p;
            if j < a.len() {
                assert(a[j] == p);
            } else {
                assert(b[j - a.len()] == p);
            }
        }
    }
}

/// Which files are found depends neither on the order of the paths nor on how often
/// each of them is given.
pub proof fn law_paths_are_a_set(
    trees: Seq<Tree>,
    others: Seq<Tree>,
    recurse: bool,
    p: std::path::PathBuf,
)
    requires
        forall|t: Tree| trees.contains(t) <==> others.contains(t),
        files_at(trees, recurse, trees.len()).contains(p),
    ensures
        files_at(others, recurse, others.len()).contains(p),
{
    lemma_found_at_one(trees, recurse, trees.len(), p);
    lemma_found_at_one(others, recurse, others.len(), p);
    let i = choose|i: int|
        0 <= i < trees.len() && files_in(#[trigger] trees[i], true, recurse).contains(p);
    assert(trees.contains(trees[i]));
    let j = choose|j: int| 0 <= j < others.len() && others[j] == trees[i];
    assert(files_in(others[j], true, recurse).contains(p));
}

/// Whether a tree is a DSD file that is kept under a path.
pub open spec fn is_dsd_at(tree: Tree, p: std::path::PathBuf) -> bool {
    tree matches Tree::File(Some(e), q) && q == p && spells_dsd(e)
}

/// Whether a tree has, at any depth, a DSD file that is kept under a path.
pub open spec fn holds_dsd(tree: Tree, p: std::path::PathBuf) -> bool
    decreases tree,
{
    match tree {
        Tree::Directory(entries) => exists|i: int|
            0 <= i < entries.len() && holds_dsd(#[trigger] entries[i], p),
        _ => is_dsd_at(tree, p),
    }
}

/// A file among a directory's entries.
proof fn lemma_in_entries(entries: Seq<Tree>, recurse: bool, n: nat, p: std::path::PathBuf)
    requires
        n <= entries.len(),
    ensures
        files_in_all(entries, recurse, n).contains(p) <==> exists|i: int|
            0 <= i < n && files_in(#[trigger] entries[i], recurse, recurse).contains(p),
    decreases n,
{
    if n > 0 {
        let m = (n - 1) as nat;
        lemma_in_entries(entries, recurse, m, p);
        let a = files_in_all(entries, recurse, m);
        let b = files_in(entries[n - 1], recurse, recurse);
        if a.contains(p) {
            let j = choose|j: int| 0 <= j < a.len() && a[j] == p;
            assert((a + b)[j] == p);
        }
        if b.contains(p) {
            let j = choose|j: int| 0 <= j < b.len() && b[j] == p;
            assert((a + b)[a.len() + j] == p);
        }
        if (a + b).contains(p) {
            let j = choose|j: int| 0 <= j < (a + b).len() && (a + b)[j] == p;
            if j < a.len() {
                assert(a[j] == p);
            } else {
                assert(b[j - a.len()] == p);
            }
        }
    }
}

/// What is found where a file may be.
proof fn lemma_in_file(tree: Tree, may_list: bool, recurse: bool, p: std::path::PathBuf)
    requires
        !(tree is Directory),
    ensures
        files_in(tree, may_list, recurse).contains(p) <==> is_dsd_at(tree, p),
{
    if let Tree::File(extension, q) = tree {
        law_dsd_extensions(extension);
        if is_dsd_extension(extension) {
            assert(seq![q][0] == q);
        }
    }
}

/// What is found in a tree when directories within directories are looked into.
proof fn lemma_in_tree(tree: Tree, p: std::path::PathBuf)
    ensures
        files_in(tree, true, true).contains(p) <==> holds_dsd(tree, p),
    decreases tree,
{
    match tree {
        Tree::Directory(entries) => {
            lemma_in_entries(entries, true, entries.len(), p);
            assert forall|i: int| 0 <= i < entries.len() implies files_in(
                #[trigger] entries[i],
                true,
                true,
            ).contains(p) == holds_dsd(entries[i], p) by {
                lemma_in_tree(entries[i], p);
            }
        },
        _ => {
            lemma_in_file(tree, true, true, p);
        },
    }
}

/// What a search finds when directories within directories are looked into: the DSD
/// files at any depth below its paths, and nothing else.
pub proof fn law_recursive_search_finds(trees: Seq<Tree>, p: std::path::PathBuf)
    ensures
        files_at(trees, true, trees.len()).contains(p) <==> exists|i: int|
            0 <= i < trees.len() && holds_dsd(#[trigger] trees[i], p),
{
    lemma_found_at_one(trees, true, trees.len(), p);
    assert forall|i: int| 0 <= i < trees.len() implies files_in(
        #[trigger] trees[i],
        true,
        true,
    ).contains(p) == holds_dsd(trees[i], p) by {
        lemma_in_tree(trees[i], p);
    }
}

/// Whether a tree is a DSD file that is kept under a path, or a directory with such a
/// file among its entries.
pub open spec fn shows_dsd(tree: Tree, p: std::path::PathBuf) -> bool {
    match tree {
        Tree::Directory(entries) => exists|i: int|
            0 <= i < entries.len() && is_dsd_at(#[trigger] entries[i], p),
        _ => is_dsd_at(tree, p),
    }
}

/// What a search finds when directories within directories are not looked into: the
/// DSD files among its paths and those directly in the directories among its paths,
/// and nothing else.
pub proof fn law_flat_search_finds(trees: Seq<Tree>, p: std::path::PathBuf)
    ensures
        files_at(trees, false, trees.len()).contains(p) <==> exists|i: int|
            0 <= i < trees.len() && shows_dsd(#[trigger] trees[i], p),
{
    lemma_found_at_one(trees, false, trees.len(), p);
    assert forall|i: int| 0 <= i < trees.len() implies files_in(
        #[trigger] trees[i],
        true,
        false,
    ).contains(p) == shows_dsd(trees[i], p) by {
        match trees[i] {
            Tree::Directory(entries) => {
                lemma_in_entries(entries, false, entries.len(), p);
                assert forall|j: int| 0 <= j < entries.len() implies files_in(
                    #[trigger] entries[j],
                    false,
                    false,
                ).contains(p) == is_dsd_at(entries[j], p) by {
                    if !(entries[j] is Directory) {
                        lemma_in_file(entries[j], false, false, p);
                    }
                }
            },
            _ => {
                lemma_in_file(trees[i], true, false, p);
            },
        }
    }
}

} // verus!
