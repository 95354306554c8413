//! Selection and ordering of walked directory entries: the site build keeps
//! top-level folders or all files of a tree, in natural sort order, so that
//! `lesson2` precedes `lesson10`.
use vstd::prelude::*;
use crate::text::contains_sub;
use crate::text::contains_sub_spec;
use crate::text::views_of;
use natural_sort_rs::NaturalSort;

verus! {

/// One entry of a walked directory tree, relative to its root.
pub struct FsEntry {
    pub rel_path: String,
    pub is_dir: bool,
    pub is_file: bool,
}

/// The mathematical content of an [`FsEntry`].
pub struct FsEntryView {
    pub rel_path: Seq<char>,
    pub is_dir: bool,
    pub is_file: bool,
}

impl View for FsEntry {
    type V = FsEntryView;

    open spec fn view(&self) -> FsEntryView {
        FsEntryView { rel_path: self.rel_path@, is_dir: self.is_dir, is_file: self.is_file }
    }
}

/// The views of a sequence of entries.
pub open spec fn entry_views(es: Seq<FsEntry>) -> Seq<FsEntryView> {
    es.map_values(|e: FsEntry| e@)
}

/// A path of one component: non-empty and without a separator.
pub open spec fn single_component(p: Seq<char>) -> bool {
    p.len() > 0 && !contains_sub_spec(p, seq!['/'])
}

/// Whether an entry is kept: a top-level directory when folders are wanted,
/// otherwise any file; the root's own empty path never is.
pub open spec fn keep_entry(e: FsEntryView, want_dirs: bool) -> bool {
    &&& e.rel_path.len() > 0
    &&& if want_dirs {
        single_component(e.rel_path) && e.is_dir
    } else {
        e.is_file
    }
}

/// The kept paths, in walk order.
pub open spec fn selected_paths(es: Seq<FsEntryView>, want_dirs: bool) -> Seq<Seq<char>>
    decreases es.len(),
{
    if es.len() == 0 {
        Seq::empty()
    } else {
        let rest = selected_paths(es.drop_last(), want_dirs);
        if keep_entry(es.last(), want_dirs) {
            rest.push(es.last().rel_path)
        } else {
            rest
        }
    }
}

/// The natural order on path strings: numeric runs compare as numbers; what
/// natural_sort_rs::natural_cmp decides, a function of the two strings
/// alone.
pub uninterp spec fn natural_leq(a: Seq<char>, b: Seq<char>) -> bool;

/// Relies on natural_sort_rs::NaturalSort::natural_sort: a stable sort of
/// the slice by natural order, so the result holds the same strings,
/// ordered by that comparison.
#[verifier::external_body]
pub(crate) fn natural_sort_strings(v: &mut Vec<String>)
    ensures
        final(v)@.len() == old(v)@.len(),
        views_of(final(v)@).to_multiset() == views_of(old(v)@).to_multiset(),
        forall|i: int, j: int|
            0 <= i < j < final(v)@.len() ==> natural_leq(
                #[trigger] final(v)@[i]@,
                #[trigger] final(v)@[j]@,
            ),
{
    v.natural_sort::<str>();
}

/// Keeps the wanted entries of a directory walk and orders them naturally.
pub fn get_folders_or_paths(entries: &Vec<FsEntry>, want_dirs: bool) -> (r: Vec<String>)
    ensures
        views_of(r@).to_multiset() == selected_paths(entry_views(entries@), want_dirs)
            .to_multiset(),
        forall|i: int, j: int|
            0 <= i < j < r@.len() ==> natural_leq(#[trigger] r@[i]@, #[trigger] r@[j]@),
{
    let ghost es = entry_views(entries@);
    let mut paths: Vec<String> = Vec::new();
    let mut i: usize = 0;
    while i < entries.len()
        invariant
            i <= entries@.len(),
            es == entry_views(entries@),
            es.len() == entries@.len(),
            views_of(paths@) == selected_paths(es.subrange(0, i as int), want_dirs),
        decreases entries@.len() - i,
    {
        let e: &FsEntry = &entries[i];
        proof {
            assert(es[i as int] == e@);
        }
        let keep: bool = if e.rel_path.as_str().is_empty() {
            false
        } else if want_dirs {
            !contains_sub(e.rel_path.as_str(), "/") && e.is_dir
        } else {
            e.is_file
        };
        if keep {
            proof {
                reveal_strlit("/");
                assert("/"@ =~= seq!['/']);
                assert(keep_entry(es[i as int], want_dirs));
            }
            paths.push(e.rel_path.clone());
        } else {
            proof {
                reveal_strlit("/");
                assert("/"@ =~= seq!['/']);
                assert(!keep_entry(es[i as int], want_dirs));
            }
        }
        i = i + 1;
        proof {
            let pre = es.subrange(0, i - 1);
            let now = es.subrange(0, i as int);
            assert(now.drop_last() =~= pre);
            assert(now.last() == es[i - 1]);
            assert(views_of(paths@) =~= selected_paths(now, want_dirs));
        }
    }
    proof {
        assert(es.subrange(0, es.len() as int) =~= es);
    }
    natural_sort_strings(&mut paths);
    paths
}

/// The top-level folders of a walked tree, naturally ordered.
pub fn get_folders(entries: &Vec<FsEntry>) -> (r: Vec<String>)
    ensures
        views_of(r@).to_multiset() == selected_paths(entry_views(entries@), true).to_multiset(),
        forall|i: int, j: int|
            0 <= i < j < r@.len() ==> natural_leq(#[trigger] r@[i]@, #[trigger] r@[j]@),
{
    get_folders_or_paths(entries, true)
}

/// All files of a walked tree, naturally ordered.
pub fn get_files(entries: &Vec<FsEntry>) -> (r: Vec<String>)
    ensures
        views_of(r@).to_multiset() == selected_paths(entry_views(entries@), false).to_multiset(),
        forall|i: int, j: int|
            0 <= i < j < r@.len() ==> natural_leq(#[trigger] r@[i]@, #[trigger] r@[j]@),
{
    get_folders_or_paths(entries, false)
}

} // verus!
