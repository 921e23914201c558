//! The walk through a directory tree, step by step.

use vstd::prelude::*;
use crate::discovery::{
    discover_files, is_walk_of, is_whole_walk, listing_views, path_views, push_warning,
    with_warning, Listed, ListedView, Walk,
};
use crate::path::{first_is, path_view, ComponentView, OsNameView, PathComponent};
use crate::selection::lemma_pushed_contains;
use crate::text::{decimal, views};

verus! {

/// The path of an entry of a directory.
pub open spec fn entry_of(dir: Seq<ComponentView>, name: OsNameView) -> Seq<ComponentView> {
    dir.push(ComponentView::Normal(name))
}

/// A warning was added, unless it was there.
pub open spec fn warned(before: Walk, after: Walk, warning: Seq<char>) -> bool {
    &&& after.files == before.files
    &&& after.pending == before.pending
    &&& after.warnings.contains(warning)
    &&& before.warnings.contains(warning) ==> after.warnings == before.warnings
    &&& !before.warnings.contains(warning) ==> after.warnings == before.warnings.push(warning)
}

/// Nothing was found or noted.
pub open spec fn passed_over(before: Walk, after: Walk) -> bool {
    &&& after.files == before.files
    &&& after.pending == before.pending
    &&& after.warnings == before.warnings
}

/// What one entry of a directory comes to, while fewer than 8192 entries were looked at: a file is
/// found; a directory is noted, unless it is `vision` at the top or lies deeper than sixteen levels,
/// which is told of; a link, and what cannot be read, is told of; anything else is passed over.
pub proof fn lemma_entry(
    walk: Walk,
    root: Seq<ComponentView>,
    dir: Seq<ComponentView>,
    depth: nat,
    entry: ListedView,
)
    requires
        !walk.stopped,
        walk.visited < 8192,
    ensures
        ({
            let after = walk.after_entry(root, dir, depth, entry);
            &&& after.visited == walk.visited + 1
            &&& !after.stopped
            &&& entry matches ListedView::File(name) ==> {
                &&& after.files == walk.files.push(entry_of(dir, name))
                &&& after.pending == walk.pending
                &&& after.warnings == walk.warnings
            }
            &&& entry matches ListedView::Directory(name) ==> {
                let path = entry_of(dir, name);
                let vision = first_is(path.skip(root.len() as int), "vision"@);
                &&& vision ==> passed_over(walk, after)
                &&& !vision && depth >= 16 ==> warned(
                    walk,
                    after,
                    "discovery_depth_limit_reached:"@ + decimal(16),
                )
                &&& !vision && depth < 16 ==> {
                    &&& after.pending == walk.pending.push((path, depth + 1))
                    &&& after.files == walk.files
                    &&& after.warnings == walk.warnings
                }
            }
            &&& entry is Symlink ==> warned(walk, after, "discovery_symlink_skipped"@)
            &&& entry is Unreadable ==> warned(walk, after, "discovery_read_entry_failed"@)
            &&& entry is TypeUnknown ==> warned(walk, after, "discovery_file_type_failed"@)
            &&& entry is Special ==> passed_over(walk, after)
        }),
{
    let depth_warning = "discovery_depth_limit_reached:"@ + decimal(16);
    lemma_pushed_contains(walk.warnings, depth_warning, depth_warning);
    lemma_pushed_contains(
        walk.warnings,
        "discovery_symlink_skipped"@,
        "discovery_symlink_skipped"@,
    );
    lemma_pushed_contains(
        walk.warnings,
        "discovery_read_entry_failed"@,
        "discovery_read_entry_failed"@,
    );
    lemma_pushed_contains(
        walk.warnings,
        "discovery_file_type_failed"@,
        "discovery_file_type_failed"@,
    );
}

/// The walk stops at the first entry beyond 8192, tells so, and takes nothing more.
pub proof fn lemma_entry_limit(
    walk: Walk,
    root: Seq<ComponentView>,
    dir: Seq<ComponentView>,
    depth: nat,
    entry: ListedView,
)
    ensures
        ({
            let after = walk.after_entry(root, dir, depth, entry);
            &&& walk.stopped ==> after == walk
            &&& !walk.stopped && walk.visited >= 8192 ==> {
                &&& after.stopped
                &&& after.visited == walk.visited
                &&& warned(walk, after, "discovery_entry_limit_reached:"@ + decimal(8192))
                &&& after.finished()
            }
        }),
{
    let warning = "discovery_entry_limit_reached:"@ + decimal(8192);
    lemma_pushed_contains(walk.warnings, warning, warning);
}

/// Entries are looked at one after the other.
pub proof fn lemma_entries(
    walk: Walk,
    root: Seq<ComponentView>,
    dir: Seq<ComponentView>,
    depth: nat,
    entries: Seq<ListedView>,
    entry: ListedView,
)
    ensures
        walk.after_entries(root, dir, depth, Seq::<ListedView>::empty()) == walk,
        walk.after_entries(root, dir, depth, entries.push(entry)) == walk.after_entries(
            root,
            dir,
            depth,
            entries,
        ).after_entry(root, dir, depth, entry),
{
    assert(entries.push(entry).drop_last() =~= entries);
}

/// The directory that was noted last is listed next, and is not noted any more; one that cannot be
/// listed is told of.
pub proof fn lemma_listing(walk: Walk, root: Seq<ComponentView>, entries: Seq<ListedView>)
    requires
        walk.pending.len() > 0,
    ensures
        ({
            let (dir, depth) = walk.pending.last();
            let rest = Walk { pending: walk.pending.take(walk.pending.len() - 1), ..walk };
            &&& walk.after_listing(root, Some(entries)) == rest.after_entries(
                root,
                dir,
                depth,
                entries,
            )
            &&& warned(
                rest,
                walk.after_listing(root, None),
                "discovery_read_directory_failed"@,
            )
        }),
{
    assert(walk.pending.take(walk.pending.len() - 1) =~= walk.pending.drop_last());
    lemma_pushed_contains(
        walk.warnings,
        "discovery_read_directory_failed"@,
        "discovery_read_directory_failed"@,
    );
}

/// A walk begins with its root alone, where that is a directory, and ends when nothing is noted any
/// more or it was stopped.
pub proof fn lemma_walk(
    root: Seq<ComponentView>,
    is_dir: bool,
    listings: Seq<Option<Seq<ListedView>>>,
    listing: Option<Seq<ListedView>>,
    walk: Walk,
)
    ensures
        ({
            let start = Walk::after(root, is_dir, Seq::<Option<Seq<ListedView>>>::empty());
            &&& is_dir ==> start.pending.len() == 1 && start.pending[0] == (root, 0nat)
            &&& !is_dir ==> start.pending.len() == 0
            &&& start.files.len() == 0
            &&& start.warnings.len() == 0
            &&& start.visited == 0
            &&& !start.stopped
        }),
        Walk::after(root, is_dir, listings.push(listing)) == Walk::after(
            root,
            is_dir,
            listings,
        ).after_listing(root, listing),
        walk.finished() <==> walk.stopped || walk.pending.len() == 0,
{
    assert(listings.push(listing).drop_last() =~= listings);
}

/// A warning is kept once, however often it comes.
pub proof fn lemma_warning_once(warnings: Seq<Seq<char>>, warning: Seq<char>, other: Seq<char>)
    ensures
        with_warning(warnings, warning).contains(other) <==> warnings.contains(other) || other
            == warning,
        with_warning(with_warning(warnings, warning), warning) == with_warning(warnings, warning),
        warnings.no_duplicates() ==> with_warning(warnings, warning).no_duplicates(),
{
    lemma_pushed_contains(warnings, warning, other);
    lemma_pushed_contains(warnings, warning, warning);
}

/// The directory that is listed at a turn of a walk is the one that was noted last, with room for as
/// many entries as are left of 8192; a walk goes on until nothing is noted any more or it is stopped.
pub proof fn lemma_asked<F: Fn(&Vec<PathComponent>, usize) -> Option<Vec<Listed>>>(
    root: Seq<ComponentView>,
    is_dir: bool,
    list: F,
    listings: Seq<Option<Vec<Listed>>>,
    i: int,
)
    requires
        is_whole_walk(root, is_dir, list, listings),
    ensures
        ({
            let end = Walk::after(root, is_dir, listing_views(listings));
            end.stopped || end.pending.len() == 0
        }),
        0 <= i < listings.len() ==> {
            let walk = Walk::after(root, is_dir, listing_views(listings).take(i));
            &&& !walk.stopped
            &&& walk.pending.len() > 0
            &&& exists|dir: Vec<PathComponent>, room: usize|
                {
                    &&& path_view(dir@) == walk.pending.last().0
                    &&& room == 8192 - walk.visited
                    &&& #[trigger] call_ensures(list, (&dir, room), listings[i])
                }
        },
{
    if 0 <= i < listings.len() {
        let walk = Walk::after(root, is_dir, listing_views(listings).take(i));
        assert(!walk.finished());
        assert(crate::discovery::answered(root, is_dir, list, listings, i));
    }
}

/// What is found is what a whole walk below the root came to.
pub proof fn lemma_discover_files<F: Fn(&Vec<PathComponent>, usize) -> Option<Vec<Listed>>>(
    root: &[PathComponent],
    is_dir: bool,
    list: F,
    found: (Vec<Vec<PathComponent>>, Vec<String>),
)
    requires
        call_ensures(discover_files::<F>, (root, is_dir, list), found),
    ensures
        !is_dir ==> found.0@.len() == 0 && found.1@.len() == 0,
        exists|listings: Seq<Option<Vec<Listed>>>|
            {
                &&& #[trigger] is_whole_walk(path_view(root@), is_dir, list, listings)
                &&& path_views(found.0@) == Walk::after(
                    path_view(root@),
                    is_dir,
                    listing_views(listings),
                ).files
                &&& views(found.1@) == Walk::after(
                    path_view(root@),
                    is_dir,
                    listing_views(listings),
                ).warnings
            },
{
    let listings = choose|listings: Seq<Option<Vec<Listed>>>|
        is_walk_of(path_view(root@), is_dir, list, listings, found.0@, found.1@);
    assert(is_whole_walk(path_view(root@), is_dir, list, listings));
    if !is_dir {
        let all = listing_views(listings);
        if listings.len() > 0 {
            assert(all.take(0) =~= Seq::<Option<Seq<ListedView>>>::empty());
            assert(!Walk::after(path_view(root@), is_dir, all.take(0)).finished());
        }
        assert(path_views(found.0@).len() == found.0@.len());
        assert(views(found.1@).len() == found.1@.len());
    }
}

/// A warning is added once.
pub proof fn lemma_push_warning(warnings: &mut Vec<String>, warning: &str, other: Seq<char>)
    requires
        call_ensures(push_warning, (warnings, warning), ()),
    ensures
        views(final(warnings)@).contains(other) <==> views(old(warnings)@).contains(other) || other
            == warning@,
        views(old(warnings)@).contains(warning@) ==> views(final(warnings)@) == views(
            old(warnings)@,
        ),
        !views(old(warnings)@).contains(warning@) ==> views(final(warnings)@) == views(
            old(warnings)@,
        ).push(warning@),
{
    lemma_pushed_contains(views(old(warnings)@), warning@, other);
}

} // verus!
