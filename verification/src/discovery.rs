//! A bounded walk through a directory tree.

use vstd::prelude::*;
use crate::path::{
    copy_path, first_component_is, first_is, lies_under, path_view, ComponentView, OsName,
    OsNameView, PathComponent,
};
use crate::text::{concat, decimal, format_u64, same_text, views};
use vstd::slice::slice_subrange;

verus! {

/// The walk looks at no more directory entries than this.
pub const MAX_DISCOVERY_ENTRIES: usize = 8192;

/// The walk enters no directory that lies deeper than this below the root.
pub const MAX_DISCOVERY_DEPTH: usize = 16;

/// `warnings` with `warning` behind them, unless it is among them already.
pub open spec fn with_warning(warnings: Seq<Seq<char>>, warning: Seq<char>) -> Seq<Seq<char>> {
    if warnings.contains(warning) {
        warnings
    } else {
        warnings.push(warning)
    }
}

/// Adds `warning` unless it is there already.
pub fn push_warning(warnings: &mut Vec<String>, warning: &str)
    ensures
        views(final(warnings)@) == with_warning(views(old(warnings)@), warning@),
{
    let mut index: usize = 0;
    while index < warnings.len()
        invariant
            index <= warnings@.len(),
            warnings@ == old(warnings)@,
            forall|i: int| 0 <= i < index ==> (#[trigger] warnings@[i])@ != warning@,
        decreases warnings@.len() - index,
    {
        if same_text(warnings[index].as_str(), warning) {
            assert(views(warnings@)[index as int] == warning@);
            return;
        }
        index += 1;
    }
    proof {
        if views(warnings@).contains(warning@) {
            let i = choose|i: int| 0 <= i < warnings@.len() && views(warnings@)[i] == warning@;
            assert(warnings@[i]@ == warning@);
        }
    }
    warnings.push(warning.to_owned());
    assert(views(warnings@) =~= views(old(warnings)@).push(warning@));
}

/// One item of a directory listing.
#[derive(Debug)]
pub enum Listed {
    /// The item could not be read.
    Unreadable,
    /// The item was read, but not what kind of file it is.
    TypeUnknown,
    Symlink,
    Directory(OsName),
    File(OsName),
    /// Neither a link, nor a directory, nor a regular file.
    Special,
}

/// The content of an item of a directory listing.
pub enum ListedView {
    Unreadable,
    TypeUnknown,
    Symlink,
    Directory(OsNameView),
    File(OsNameView),
    Special,
}

impl View for Listed {
    type V = ListedView;

    open spec fn view(&self) -> ListedView {
        match self {
            Listed::Unreadable => ListedView::Unreadable,
            Listed::TypeUnknown => ListedView::TypeUnknown,
            Listed::Symlink => ListedView::Symlink,
            Listed::Directory(name) => ListedView::Directory(name@),
            Listed::File(name) => ListedView::File(name@),
            Listed::Special => ListedView::Special,
        }
    }
}

/// How far a walk has come.
#[verifier::ext_equal]
pub struct Walk {
    /// Directories still to be listed, the next one last, each with its depth below the root.
    pub pending: Seq<(Seq<ComponentView>, nat)>,
    /// Regular files met so far.
    pub files: Seq<Seq<ComponentView>>,
    pub warnings: Seq<Seq<char>>,
    /// The number of directory entries looked at.
    pub visited: nat,
    /// The walk ran into its limit of entries.
    pub stopped: bool,
}

impl Walk {
    pub open spec fn warn(self, warning: Seq<char>) -> Walk {
        Walk { warnings: with_warning(self.warnings, warning), ..self }
    }

    pub open spec fn finished(self) -> bool {
        self.stopped || self.pending.len() == 0
    }

    /// The walk before the first directory is listed.
    pub open spec fn start(root: Seq<ComponentView>, is_dir: bool) -> Walk {
        Walk {
            pending: if is_dir {
                seq![(root, 0nat)]
            } else {
                seq![]
            },
            files: seq![],
            warnings: seq![],
            visited: 0,
            stopped: false,
        }
    }

    /// The walk after one more entry of the directory `dir`, `depth` levels below the root.
    pub open spec fn after_entry(
        self,
        root: Seq<ComponentView>,
        dir: Seq<ComponentView>,
        depth: nat,
        entry: ListedView,
    ) -> Walk {
        if self.stopped {
            self
        } else if self.visited >= MAX_DISCOVERY_ENTRIES {
            Walk { stopped: true, ..self.warn(entry_limit_warning()) }
        } else {
            let counted = Walk { visited: self.visited + 1, ..self };
            match entry {
                ListedView::Unreadable => counted.warn("discovery_read_entry_failed"@),
                ListedView::TypeUnknown => counted.warn("discovery_file_type_failed"@),
                ListedView::Symlink => counted.warn("discovery_symlink_skipped"@),
                ListedView::Directory(name) => {
                    let path = dir.push(ComponentView::Normal(name));
                    if first_is(path.skip(root.len() as int), "vision"@) {
                        counted
                    } else if depth >= MAX_DISCOVERY_DEPTH {
                        counted.warn(depth_limit_warning())
                    } else {
                        Walk { pending: counted.pending.push((path, depth + 1)), ..counted }
                    }
                },
                ListedView::File(name) => Walk {
                    files: counted.files.push(dir.push(ComponentView::Normal(name))),
                    ..counted
                },
                ListedView::Special => counted,
            }
        }
    }

    /// The walk after the given entries of the directory `dir`.
    pub open spec fn after_entries(
        self,
        root: Seq<ComponentView>,
        dir: Seq<ComponentView>,
        depth: nat,
        entries: Seq<ListedView>,
    ) -> Walk
        decreases entries.len(),
    {
        if entries.len() == 0 {
            self
        } else {
            self.after_entries(root, dir, depth, entries.drop_last()).after_entry(
                root,
                dir,
                depth,
                entries.last(),
            )
        }
    }

    /// The walk after the next directory was listed; `None` says that it could not be.
    pub open spec fn after_listing(
        self,
        root: Seq<ComponentView>,
        listing: Option<Seq<ListedView>>,
    ) -> Walk {
        let (dir, depth) = self.pending.last();
        let rest = Walk { pending: self.pending.drop_last(), ..self };
        match listing {
            None => rest.warn("discovery_read_directory_failed"@),
            Some(entries) => rest.after_entries(root, dir, depth, entries),
        }
    }

    /// The walk after the directories that it asked for were listed as `listings` says.
    pub open spec fn after(
        root: Seq<ComponentView>,
        is_dir: bool,
        listings: Seq<Option<Seq<ListedView>>>,
    ) -> Walk
        decreases listings.len(),
    {
        if listings.len() == 0 {
            Walk::start(root, is_dir)
        } else {
            Walk::after(root, is_dir, listings.drop_last()).after_listing(root, listings.last())
        }
    }
}

/// The warning that the walk stopped at its limit of entries.
pub open spec fn entry_limit_warning() -> Seq<char> {
    "discovery_entry_limit_reached:"@ + decimal(MAX_DISCOVERY_ENTRIES as nat)
}

/// The warning that the walk left out a directory below its limit of depth.
pub open spec fn depth_limit_warning() -> Seq<char> {
    "discovery_depth_limit_reached:"@ + decimal(MAX_DISCOVERY_DEPTH as nat)
}

/// The contents of the paths of a list.
pub open spec fn path_views(paths: Seq<Vec<PathComponent>>) -> Seq<Seq<ComponentView>> {
    Seq::new(paths.len(), |i: int| path_view(paths[i]@))
}

/// The content of a directory listing.
pub open spec fn listing_view(listing: Option<Vec<Listed>>) -> Option<Seq<ListedView>> {
    match listing {
        Some(entries) => Some(Seq::new(entries@.len(), |i: int| entries@[i]@)),
        None => None,
    }
}

/// The contents of directory listings.
pub open spec fn listing_views(listings: Seq<Option<Vec<Listed>>>) -> Seq<Option<Seq<ListedView>>> {
    Seq::new(listings.len(), |i: int| listing_view(listings[i]))
}

/// `list` gave `listings[i]` for the directory that the walk asked for at its turn `i`.
pub open spec fn answered<F: Fn(&Vec<PathComponent>, usize) -> Option<Vec<Listed>>>(
    root: Seq<ComponentView>,
    is_dir: bool,
    list: F,
    listings: Seq<Option<Vec<Listed>>>,
    i: int,
) -> bool {
    let walk = Walk::after(root, is_dir, listing_views(listings).take(i));
    exists|dir: Vec<PathComponent>, room: usize|
        {
            &&& path_view(dir@) == walk.pending.last().0
            &&& room == MAX_DISCOVERY_ENTRIES - walk.visited
            &&& #[trigger] call_ensures(list, (&dir, room), listings[i])
        }
}

/// `listings` are the answers of `list` along the whole walk below `root`.
pub open spec fn is_whole_walk<F: Fn(&Vec<PathComponent>, usize) -> Option<Vec<Listed>>>(
    root: Seq<ComponentView>,
    is_dir: bool,
    list: F,
    listings: Seq<Option<Vec<Listed>>>,
) -> bool {
    &&& forall|i: int|
        0 <= i < listings.len() ==> #[trigger] answered(root, is_dir, list, listings, i)
    &&& forall|i: int|
        0 <= i < listings.len() ==> !(#[trigger] Walk::after(
            root,
            is_dir,
            listing_views(listings).take(i),
        )).finished()
    &&& Walk::after(root, is_dir, listing_views(listings)).finished()
}

/// `files` and `warnings` are what a whole walk came to that `list` answered with `listings`.
pub open spec fn is_walk_of<F: Fn(&Vec<PathComponent>, usize) -> Option<Vec<Listed>>>(
    root: Seq<ComponentView>,
    is_dir: bool,
    list: F,
    listings: Seq<Option<Vec<Listed>>>,
    files: Seq<Vec<PathComponent>>,
    warnings: Seq<String>,
) -> bool {
    let walk = Walk::after(root, is_dir, listing_views(listings));
    &&& is_whole_walk(root, is_dir, list, listings)
    &&& path_views(files) == walk.files
    &&& views(warnings) == walk.warnings
}

/// What a walk holds while it goes on.
struct WalkState {
    pending: Vec<(Vec<PathComponent>, usize)>,
    files: Vec<Vec<PathComponent>>,
    warnings: Vec<String>,
    visited: usize,
    stopped: bool,
}

impl View for WalkState {
    type V = Walk;

    closed spec fn view(&self) -> Walk {
        Walk {
            pending: Seq::new(
                self.pending@.len(),
                |i: int| (path_view(self.pending@[i].0@), self.pending@[i].1 as nat),
            ),
            files: path_views(self.files@),
            warnings: views(self.warnings@),
            visited: self.visited as nat,
            stopped: self.stopped,
        }
    }
}

/// The path of the entry `name` of the directory `dir`.
fn entry_path(dir: &Vec<PathComponent>, name: OsName) -> (path: Vec<PathComponent>)
    ensures
        path_view(path@) == path_view(dir@).push(ComponentView::Normal(name@)),
{
    let mut path = copy_path(dir.as_slice());
    let ghost before = path@;
    path.push(PathComponent::Normal(name));
    assert(path_view(path@) =~= path_view(before).push(ComponentView::Normal(name@)));
    path
}

impl WalkState {
    fn warn(&mut self, warning: &str)
        ensures
            final(self)@ == old(self)@.warn(warning@),
            final(self).visited == old(self).visited,
            final(self).stopped == old(self).stopped,
            final(self).pending == old(self).pending,
    {
        push_warning(&mut self.warnings, warning);
    }

    fn visit(&mut self, root: &[PathComponent], dir: &Vec<PathComponent>, depth: usize, entry: Listed)
        requires
            !old(self).stopped,
            old(self).visited <= MAX_DISCOVERY_ENTRIES,
            depth <= MAX_DISCOVERY_DEPTH,
            root@.len() <= dir@.len(),
        ensures
            final(self)@ == old(self)@.after_entry(
                path_view(root@),
                path_view(dir@),
                depth as nat,
                entry@,
            ),
            final(self).visited <= MAX_DISCOVERY_ENTRIES,
            final(self).visited >= old(self).visited,
            final(self).pending@.len() + old(self).visited <= final(self).visited + old(
                self,
            ).pending@.len(),
            forall|i: int|
                old(self).pending@.len() <= i < final(self).pending@.len() ==> {
                    &&& (#[trigger] final(self).pending@[i]).0@.len() > root@.len()
                    &&& final(self).pending@[i].1 <= MAX_DISCOVERY_DEPTH
                },
            forall|i: int|
                0 <= i < old(self).pending@.len() ==> i < final(self).pending@.len()
                    && #[trigger] final(self).pending@[i] == old(self).pending@[i],
            final(self).stopped == old(self).stopped || final(self).stopped,
    {
        if self.visited >= MAX_DISCOVERY_ENTRIES {
            let limit = concat(
                "discovery_entry_limit_reached:",
                format_u64(MAX_DISCOVERY_ENTRIES as u64).as_str(),
            );
            self.warn(limit.as_str());
            self.stopped = true;
            return;
        }
        self.visited = self.visited + 1;
        match entry {
            Listed::Unreadable => self.warn("discovery_read_entry_failed"),
            Listed::TypeUnknown => self.warn("discovery_file_type_failed"),
            Listed::Symlink => self.warn("discovery_symlink_skipped"),
            Listed::Directory(name) => {
                let path = entry_path(dir, name);
                assert(path@.len() == path_view(path@).len());
                assert(dir@.len() == path_view(dir@).len());
                let relative = slice_subrange(path.as_slice(), root.len(), path.len());
                assert(path_view(relative@) =~= path_view(path@).skip(root@.len() as int));
                if first_component_is(relative, "vision") {
                    return;
                }
                if depth >= MAX_DISCOVERY_DEPTH {
                    let limit = concat(
                        "discovery_depth_limit_reached:",
                        format_u64(MAX_DISCOVERY_DEPTH as u64).as_str(),
                    );
                    self.warn(limit.as_str());
                    return;
                }
                let ghost before = *self;
                self.pending.push((path, depth + 1));
                assert(self@.pending =~= before@.pending.push(
                    (path_view(path@), (depth + 1) as nat),
                ));
            },
            Listed::File(name) => {
                let path = entry_path(dir, name);
                let ghost before = *self;
                self.files.push(path);
                assert(self@.files =~= before@.files.push(path_view(path@)));
            },
            Listed::Special => {},
        }
    }
}

/// Lists the regular files below `root`.
///
/// `list` gives the entries of a directory, or `None` where they cannot be read. The walk needs
/// no more of them than the number it hands over and one. What was left out is told by warnings.
pub fn discover_files<F: Fn(&Vec<PathComponent>, usize) -> Option<Vec<Listed>>>(
    root: &[PathComponent],
    is_dir: bool,
    list: F,
) -> (found: (Vec<Vec<PathComponent>>, Vec<String>))
    requires
        forall|dir: &Vec<PathComponent>, room: usize| call_requires(list, (dir, room)),
    ensures
        exists|listings: Seq<Option<Vec<Listed>>>|
            #[trigger] is_walk_of(path_view(root@), is_dir, list, listings, found.0@, found.1@),
{
    let ghost root_view = path_view(root@);
    let ghost mut listings: Seq<Option<Vec<Listed>>> = seq![];
    let mut state = WalkState {
        pending: Vec::new(),
        files: Vec::new(),
        warnings: Vec::new(),
        visited: 0,
        stopped: false,
    };
    if is_dir {
        state.pending.push((copy_path(root), 0));
        assert(path_view(state.pending@[0].0@).len() == state.pending@[0].0@.len());
        assert(root_view.len() == root@.len());
    }
    proof {
        assert(listing_views(listings) =~= seq![]);
        assert(state@ =~= Walk::start(root_view, is_dir));
    }
    while !state.stopped && state.pending.len() > 0
        invariant
            root_view == path_view(root@),
            state@ == Walk::after(root_view, is_dir, listing_views(listings)),
            state.visited <= MAX_DISCOVERY_ENTRIES,
            forall|i: int|
                0 <= i < state.pending@.len() ==> {
                    &&& (#[trigger] state.pending@[i]).0@.len() >= root@.len()
                    &&& state.pending@[i].1 <= MAX_DISCOVERY_DEPTH
                },
            forall|dir: &Vec<PathComponent>, room: usize| call_requires(list, (dir, room)),
            forall|i: int|
                0 <= i < listings.len() ==> #[trigger] answered(
                    root_view,
                    is_dir,
                    list,
                    listings,
                    i,
                ),
            forall|i: int|
                0 <= i < listings.len() ==> !(#[trigger] Walk::after(
                    root_view,
                    is_dir,
                    listing_views(listings).take(i),
                )).finished(),
        decreases MAX_DISCOVERY_ENTRIES - state.visited + state.pending@.len(),
    {
        let ghost turn = state@;
        let ghost earlier = listings;
        let ghost measure = MAX_DISCOVERY_ENTRIES - state.visited + state.pending@.len();
        let room: usize = MAX_DISCOVERY_ENTRIES - state.visited;
        match state.pending.pop() {
            None => {
                assert(false);
            },
            Some((dir, depth)) => {
                assert(turn.pending.last() == (path_view(dir@), depth as nat));
                let ghost rest = Walk { pending: turn.pending.drop_last(), ..turn };
                assert(state@ =~= rest);
                let listing = list(&dir, room);
                proof {
                    listings = listings.push(listing);
                    assert(listing_views(listings).drop_last() =~= listing_views(earlier));
                    assert(listing_views(listings).last() == listing_view(listing));
                    assert forall|i: int| 0 <= i < listings.len() implies #[trigger] answered(
                        root_view,
                        is_dir,
                        list,
                        listings,
                        i,
                    ) by {
                        if i < earlier.len() {
                            assert(answered(root_view, is_dir, list, earlier, i));
                            assert(listings[i] == earlier[i]);
                            assert(listing_views(listings).take(i) =~= listing_views(earlier).take(i));
                        } else {
                            assert(listing_views(listings).take(i) =~= listing_views(earlier));
                            assert(listings[i] == listing);
                            assert(room == MAX_DISCOVERY_ENTRIES - turn.visited);
                            assert(call_ensures(list, (&dir, room), listings[i]));
                        }
                    }
                    assert forall|i: int| 0 <= i < listings.len() implies !(#[trigger] Walk::after(
                        root_view,
                        is_dir,
                        listing_views(listings).take(i),
                    )).finished() by {
                        if i < earlier.len() {
                            assert(listing_views(listings).take(i) =~= listing_views(earlier).take(i));
                        } else {
                            assert(listing_views(listings).take(i) =~= listing_views(earlier));
                        }
                    }
                }
                match listing {
                    None => {
                        state.warn("discovery_read_directory_failed");
                    },
                    Some(entries) => {
                        let ghost all = entries@;
                        let ghost seen = listing_view(Some(entries))->Some_0;
                        let ghost limit = state.pending@.len();
                        assert(seen.take(0) =~= seq![]);
                        for entry in it: entries
                            invariant
                                it.seq() == all,
                                seen == Seq::new(all.len(), |i: int| all[i]@),
                                state@ == rest.after_entries(
                                    root_view,
                                    path_view(dir@),
                                    depth as nat,
                                    seen.take(it.index() as int),
                                ),
                                root_view == path_view(root@),
                                root@.len() <= dir@.len(),
                                depth <= MAX_DISCOVERY_DEPTH,
                                state.visited <= MAX_DISCOVERY_ENTRIES,
                                MAX_DISCOVERY_ENTRIES - state.visited + state.pending@.len()
                                    < measure,
                                forall|i: int|
                                    0 <= i < state.pending@.len() ==> {
                                        &&& (#[trigger] state.pending@[i]).0@.len() >= root@.len()
                                        &&& state.pending@[i].1 <= MAX_DISCOVERY_DEPTH
                                    },
                        {
                            let ghost part = seen.take(it.index() + 1);
                            assert(part.drop_last() =~= seen.take(it.index() as int));
                            assert(part.last() == entry@);
                            if !state.stopped {
                                state.visit(root, &dir, depth, entry);
                            }
                        }
                        assert(seen.take(all.len() as int) =~= seen);
                    },
                }
            },
        }
    }
    let found = (state.files, state.warnings);
    assert(is_walk_of(path_view(root@), is_dir, list, listings, found.0@, found.1@));
    found
}

/// What holds of every walk, however the directories are listed.
pub open spec fn is_bounded(walk: Walk, root: Seq<ComponentView>) -> bool {
    &&& walk.visited <= MAX_DISCOVERY_ENTRIES
    &&& walk.files.len() <= walk.visited
    &&& walk.files.len() + walk.pending.len() <= walk.visited + 1
    &&& walk.warnings.no_duplicates()
    &&& walk.stopped ==> walk.warnings.contains(entry_limit_warning())
    &&& forall|i: int|
        0 <= i < walk.files.len() ==> {
            let file = #[trigger] walk.files[i];
            &&& lies_under(root, file)
            &&& root.len() < file.len() <= root.len() + MAX_DISCOVERY_DEPTH + 1
            &&& file.len() > root.len() + 1 ==> !first_is(file.skip(root.len() as int), "vision"@)
        }
    &&& forall|i: int|
        0 <= i < walk.pending.len() ==> {
            let (dir, depth) = #[trigger] walk.pending[i];
            &&& lies_under(root, dir)
            &&& dir.len() == root.len() + depth
            &&& depth <= MAX_DISCOVERY_DEPTH
            &&& depth > 0 ==> !first_is(dir.skip(root.len() as int), "vision"@)
        }
}

proof fn lemma_entry_path(root: Seq<ComponentView>, dir: Seq<ComponentView>, name: OsNameView)
    requires
        lies_under(root, dir),
    ensures
        lies_under(root, dir.push(ComponentView::Normal(name))),
        dir.len() > root.len() ==> dir.push(ComponentView::Normal(name)).skip(
            root.len() as int,
        ).first() == dir.skip(root.len() as int).first(),
{
    let path = dir.push(ComponentView::Normal(name));
    assert(path.take(root.len() as int) =~= dir.take(root.len() as int));
    assert(path.skip(root.len() as int) =~= dir.skip(root.len() as int).push(
        ComponentView::Normal(name),
    ));
}

proof fn lemma_entry_bounded(
    walk: Walk,
    root: Seq<ComponentView>,
    dir: Seq<ComponentView>,
    depth: nat,
    entry: ListedView,
)
    requires
        is_bounded(Walk { pending: walk.pending.push((dir, depth)), ..walk }, root),
    ensures
        is_bounded(
            Walk {
                pending: walk.after_entry(root, dir, depth, entry).pending.push((dir, depth)),
                ..walk.after_entry(root, dir, depth, entry)
            },
            root,
        ),
{
    let outer = Walk { pending: walk.pending.push((dir, depth)), ..walk };
    let next = walk.after_entry(root, dir, depth, entry);
    let next_outer = Walk { pending: next.pending.push((dir, depth)), ..next };
    assert(outer.pending[walk.pending.len() as int] == (dir, depth));
    assert forall|i: int| 0 <= i < walk.pending.len() implies outer.pending[i] == #[trigger] walk.pending[i] by {}
    if !walk.stopped && walk.visited >= MAX_DISCOVERY_ENTRIES {
        if !walk.warnings.contains(entry_limit_warning()) {
            assert(next.warnings[walk.warnings.len() as int] == entry_limit_warning());
        }
    }
    match entry {
        ListedView::Directory(name) => {
            lemma_entry_path(root, dir, name);
        },
        ListedView::File(name) => {
            lemma_entry_path(root, dir, name);
        },
        _ => {},
    }
    assert forall|i: int| 0 <= i < next_outer.pending.len() implies {
        let (d, k) = #[trigger] next_outer.pending[i];
        &&& lies_under(root, d)
        &&& d.len() == root.len() + k
        &&& k <= MAX_DISCOVERY_DEPTH
        &&& k > 0 ==> !first_is(d.skip(root.len() as int), "vision"@)
    } by {
        if i < walk.pending.len() {
            assert(next_outer.pending[i] == outer.pending[i]);
        } else if i == next_outer.pending.len() - 1 {
            assert(next_outer.pending[i] == outer.pending[walk.pending.len() as int]);
        }
    }
    assert forall|i: int| 0 <= i < next_outer.files.len() implies {
        let file = #[trigger] next_outer.files[i];
        &&& lies_under(root, file)
        &&& root.len() < file.len() <= root.len() + MAX_DISCOVERY_DEPTH + 1
        &&& file.len() > root.len() + 1 ==> !first_is(file.skip(root.len() as int), "vision"@)
    } by {
        if i < outer.files.len() {
            assert(next_outer.files[i] == outer.files[i]);
        }
    }
}

proof fn lemma_entries_bounded(
    walk: Walk,
    root: Seq<ComponentView>,
    dir: Seq<ComponentView>,
    depth: nat,
    entries: Seq<ListedView>,
)
    requires
        is_bounded(Walk { pending: walk.pending.push((dir, depth)), ..walk }, root),
    ensures
        is_bounded(
            Walk {
                pending: walk.after_entries(root, dir, depth, entries).pending.push((dir, depth)),
                ..walk.after_entries(root, dir, depth, entries)
            },
            root,
        ),
    decreases entries.len(),
{
    if entries.len() > 0 {
        lemma_entries_bounded(walk, root, dir, depth, entries.drop_last());
        lemma_entry_bounded(
            walk.after_entries(root, dir, depth, entries.drop_last()),
            root,
            dir,
            depth,
            entries.last(),
        );
    }
}

/// However the directories are listed, a walk stays within its limits, below its root, out of
/// `vision`, and tells when it ran into its limit of entries.
pub proof fn lemma_walk_bounded(
    root: Seq<ComponentView>,
    is_dir: bool,
    listings: Seq<Option<Seq<ListedView>>>,
)
    requires
        forall|i: int|
            0 <= i < listings.len() ==> !(#[trigger] Walk::after(root, is_dir, listings.take(
                i,
            ))).finished(),
    ensures
        is_bounded(Walk::after(root, is_dir, listings), root),
    decreases listings.len(),
{
    if listings.len() == 0 {
        assert(root.skip(root.len() as int) =~= seq![]);
        assert(root.take(root.len() as int) =~= root);
    } else {
        let earlier = listings.drop_last();
        assert forall|i: int| 0 <= i < earlier.len() implies !(#[trigger] Walk::after(
            root,
            is_dir,
            earlier.take(i),
        )).finished() by {
            assert(earlier.take(i) =~= listings.take(i));
        }
        lemma_walk_bounded(root, is_dir, earlier);
        let turn = Walk::after(root, is_dir, earlier);
        assert(listings.take(listings.len() - 1) =~= earlier);
        assert(!turn.finished());
        let (dir, depth) = turn.pending.last();
        let rest = Walk { pending: turn.pending.drop_last(), ..turn };
        assert(rest.pending.push((dir, depth)) =~= turn.pending);
        let whole = Walk::after(root, is_dir, listings);
        match listings.last() {
            None => {
                assert forall|i: int| 0 <= i < whole.pending.len() implies #[trigger] whole.pending[i]
                    == turn.pending[i] by {}
            },
            Some(entries) => {
                lemma_entries_bounded(rest, root, dir, depth, entries);
                let outer = Walk { pending: whole.pending.push((dir, depth)), ..whole };
                assert forall|i: int| 0 <= i < whole.pending.len() implies #[trigger] whole.pending[i]
                    == outer.pending[i] by {}
            },
        }
    }
}

/// `list` always gives the same for the same directory.
pub open spec fn lists_alike<F: Fn(&Vec<PathComponent>, usize) -> Option<Vec<Listed>>>(
    list: F,
) -> bool {
    forall|
        dir: &Vec<PathComponent>,
        same: &Vec<PathComponent>,
        room: usize,
        first: Option<Vec<Listed>>,
        second: Option<Vec<Listed>>,
    |
        path_view(dir@) == path_view(same@) && #[trigger] call_ensures(list, (dir, room), first)
            && #[trigger] call_ensures(list, (same, room), second) ==> listing_view(first)
            == listing_view(second)
}

proof fn lemma_same_listings<F: Fn(&Vec<PathComponent>, usize) -> Option<Vec<Listed>>>(
    root: Seq<ComponentView>,
    is_dir: bool,
    list: F,
    first: Seq<Option<Vec<Listed>>>,
    second: Seq<Option<Vec<Listed>>>,
    count: int,
)
    requires
        lists_alike(list),
        is_whole_walk(root, is_dir, list, first),
        is_whole_walk(root, is_dir, list, second),
        0 <= count <= first.len(),
        count <= second.len(),
    ensures
        listing_views(first).take(count) == listing_views(second).take(count),
    decreases count,
{
    if count > 0 {
        let at = count - 1;
        lemma_same_listings(root, is_dir, list, first, second, at);
        assert(answered(root, is_dir, list, first, at));
        assert(answered(root, is_dir, list, second, at));
        assert(listing_view(first[at]) == listing_view(second[at]));
        let ones = listing_views(first).take(count);
        let others = listing_views(second).take(count);
        assert forall|i: int| 0 <= i < count implies ones[i] == others[i] by {
            if i < at {
                assert(listing_views(first).take(at)[i] == listing_views(second).take(at)[i]);
            }
        }
        assert(ones =~= others);
    }
}

/// Two walks over the same files take the same course.
pub proof fn lemma_same_walk<F: Fn(&Vec<PathComponent>, usize) -> Option<Vec<Listed>>>(
    root: Seq<ComponentView>,
    is_dir: bool,
    list: F,
    first: Seq<Option<Vec<Listed>>>,
    second: Seq<Option<Vec<Listed>>>,
)
    requires
        lists_alike(list),
        is_whole_walk(root, is_dir, list, first),
        is_whole_walk(root, is_dir, list, second),
    ensures
        listing_views(first) == listing_views(second),
{
    let count = if first.len() <= second.len() {
        first.len() as int
    } else {
        second.len() as int
    };
    lemma_same_listings(root, is_dir, list, first, second, count);
    let ones = listing_views(first);
    let others = listing_views(second);
    if first.len() < second.len() {
        assert(ones.take(count) =~= ones);
        assert(!Walk::after(root, is_dir, others.take(count)).finished());
    } else if second.len() < first.len() {
        assert(others.take(count) =~= others);
        assert(!Walk::after(root, is_dir, ones.take(count)).finished());
    } else {
        assert(ones.take(count) =~= ones);
        assert(others.take(count) =~= others);
    }
}

/// One sequence goes on where the other ends.
pub open spec fn goes_on<A>(longer: Seq<A>, shorter: Seq<A>) -> bool {
    shorter.len() <= longer.len() && longer.take(shorter.len() as int) == shorter
}

proof fn lemma_goes_on<A>(first: Seq<A>, second: Seq<A>, third: Seq<A>)
    requires
        goes_on(second, first),
        goes_on(third, second),
    ensures
        goes_on(third, first),
{
    assert(third.take(first.len() as int) =~= second.take(first.len() as int));
}

proof fn lemma_goes_on_contains<A>(longer: Seq<A>, shorter: Seq<A>, item: A)
    requires
        goes_on(longer, shorter),
        shorter.contains(item),
    ensures
        longer.contains(item),
{
    let i = choose|i: int| 0 <= i < shorter.len() && shorter[i] == item;
    assert(longer[i] == longer.take(shorter.len() as int)[i]);
}

/// What an entry of the directory `dir` comes to in a walk that leaves nothing out: a file is found,
/// and a directory outside `vision` is listed later.
pub open spec fn is_followed(
    walk: Walk,
    root: Seq<ComponentView>,
    dir: Seq<ComponentView>,
    depth: nat,
    entry: ListedView,
) -> bool {
    match entry {
        ListedView::File(name) => walk.files.contains(dir.push(ComponentView::Normal(name))),
        ListedView::Directory(name) => {
            let path = dir.push(ComponentView::Normal(name));
            first_is(path.skip(root.len() as int), "vision"@) || walk.pending.contains(
                (path, depth + 1),
            )
        },
        ListedView::Special => true,
        _ => false,
    }
}

proof fn lemma_entry_followed(
    walk: Walk,
    root: Seq<ComponentView>,
    dir: Seq<ComponentView>,
    depth: nat,
    entry: ListedView,
)
    requires
        walk.after_entry(root, dir, depth, entry).warnings.len() == 0,
        !walk.stopped,
    ensures
        walk.warnings.len() == 0,
        !walk.after_entry(root, dir, depth, entry).stopped,
        walk.after_entry(root, dir, depth, entry).visited == walk.visited + 1,
        walk.visited < MAX_DISCOVERY_ENTRIES,
        goes_on(walk.after_entry(root, dir, depth, entry).files, walk.files),
        goes_on(walk.after_entry(root, dir, depth, entry).pending, walk.pending),
        is_followed(walk.after_entry(root, dir, depth, entry), root, dir, depth, entry),
{
    let next = walk.after_entry(root, dir, depth, entry);
    assert forall|warning: Seq<char>| (#[trigger] with_warning(walk.warnings, warning)).len() > 0 by {}
    assert(next.files.take(walk.files.len() as int) =~= walk.files);
    assert(next.pending.take(walk.pending.len() as int) =~= walk.pending);
    match entry {
        ListedView::File(name) => {
            assert(next.files.last() == dir.push(ComponentView::Normal(name)));
        },
        ListedView::Directory(name) => {
            let path = dir.push(ComponentView::Normal(name));
            if !first_is(path.skip(root.len() as int), "vision"@) {
                assert(next.pending.last() == (path, depth + 1));
            }
        },
        _ => {},
    }
}

proof fn lemma_entries_followed(
    walk: Walk,
    root: Seq<ComponentView>,
    dir: Seq<ComponentView>,
    depth: nat,
    entries: Seq<ListedView>,
)
    requires
        walk.after_entries(root, dir, depth, entries).warnings.len() == 0,
        !walk.after_entries(root, dir, depth, entries).stopped,
    ensures
        walk.warnings.len() == 0,
        !walk.stopped,
        entries.len() == 0 || walk.visited + entries.len() <= MAX_DISCOVERY_ENTRIES,
        walk.after_entries(root, dir, depth, entries).visited == walk.visited + entries.len(),
        goes_on(walk.after_entries(root, dir, depth, entries).files, walk.files),
        goes_on(walk.after_entries(root, dir, depth, entries).pending, walk.pending),
        forall|i: int|
            0 <= i < entries.len() ==> is_followed(
                walk.after_entries(root, dir, depth, entries),
                root,
                dir,
                depth,
                #[trigger] entries[i],
            ),
    decreases entries.len(),
{
    if entries.len() == 0 {
        assert(walk.files.take(walk.files.len() as int) =~= walk.files);
        assert(walk.pending.take(walk.pending.len() as int) =~= walk.pending);
    } else {
        let front = entries.drop_last();
        let before = walk.after_entries(root, dir, depth, front);
        let after = walk.after_entries(root, dir, depth, entries);
        assert(!before.stopped);
        lemma_entry_followed(before, root, dir, depth, entries.last());
        lemma_entries_followed(walk, root, dir, depth, front);
        lemma_goes_on(walk.files, before.files, after.files);
        lemma_goes_on(walk.pending, before.pending, after.pending);
        assert forall|i: int| 0 <= i < entries.len() implies is_followed(
            after,
            root,
            dir,
            depth,
            #[trigger] entries[i],
        ) by {
            if i < front.len() {
                assert(is_followed(before, root, dir, depth, front[i]));
                match entries[i] {
                    ListedView::File(name) => {
                        lemma_goes_on_contains(
                            after.files,
                            before.files,
                            dir.push(ComponentView::Normal(name)),
                        );
                    },
                    ListedView::Directory(name) => {
                        let path = dir.push(ComponentView::Normal(name));
                        if before.pending.contains((path, depth + 1)) {
                            lemma_goes_on_contains(
                                after.pending,
                                before.pending,
                                (path, depth + 1),
                            );
                        }
                    },
                    _ => {},
                }
            }
        }
    }
}

/// `listings` take a walk below `root` from its start to its end.
pub open spec fn is_course(
    root: Seq<ComponentView>,
    is_dir: bool,
    listings: Seq<Option<Seq<ListedView>>>,
) -> bool {
    &&& forall|i: int|
        0 <= i < listings.len() ==> !(#[trigger] Walk::after(
            root,
            is_dir,
            listings.take(i),
        )).finished()
    &&& Walk::after(root, is_dir, listings).finished()
}

/// The directory that a walk asks for at its turn `i`, and its depth.
pub open spec fn asked(
    root: Seq<ComponentView>,
    is_dir: bool,
    listings: Seq<Option<Seq<ListedView>>>,
    i: int,
) -> (Seq<ComponentView>, nat) {
    Walk::after(root, is_dir, listings.take(i)).pending.last()
}

/// A walk that ended without a warning has none at any turn, was not stopped, and what it found and
/// noted stays.
proof fn lemma_turn(
    root: Seq<ComponentView>,
    is_dir: bool,
    listings: Seq<Option<Seq<ListedView>>>,
    turn: int,
)
    requires
        is_course(root, is_dir, listings),
        Walk::after(root, is_dir, listings).warnings.len() == 0,
        0 <= turn <= listings.len(),
    ensures
        Walk::after(root, is_dir, listings.take(turn)).warnings.len() == 0,
        !Walk::after(root, is_dir, listings.take(turn)).stopped,
        goes_on(
            Walk::after(root, is_dir, listings).files,
            Walk::after(root, is_dir, listings.take(turn)).files,
        ),
        turn < listings.len() ==> {
            let before = Walk::after(root, is_dir, listings.take(turn));
            let rest = Walk { pending: before.pending.drop_last(), ..before };
            let (dir, depth) = before.pending.last();
            &&& before.pending.len() > 0
            &&& listings[turn] is Some
            &&& Walk::after(root, is_dir, listings.take(turn + 1)) == rest.after_entries(
                root,
                dir,
                depth,
                listings[turn]->0,
            )
        },
    decreases listings.len() - turn,
{
    let whole = Walk::after(root, is_dir, listings);
    if turn == listings.len() {
        assert(listings.take(turn) =~= listings);
        lemma_walk_bounded(root, is_dir, listings);
        assert(whole.files.take(whole.files.len() as int) =~= whole.files);
    } else {
        lemma_turn(root, is_dir, listings, turn + 1);
        let before = Walk::after(root, is_dir, listings.take(turn));
        let after = Walk::after(root, is_dir, listings.take(turn + 1));
        assert(listings.take(turn + 1).drop_last() =~= listings.take(turn));
        assert(listings.take(turn + 1).last() == listings[turn]);
        assert(after == before.after_listing(root, listings[turn]));
        let rest = Walk { pending: before.pending.drop_last(), ..before };
        let (dir, depth) = before.pending.last();
        assert(!before.finished());
        match listings[turn] {
            None => {
                assert(with_warning(
                    before.warnings,
                    "discovery_read_directory_failed"@,
                ).len() > 0);
            },
            Some(entries) => {
                lemma_entries_followed(rest, root, dir, depth, entries);
                lemma_goes_on(before.files, after.files, whole.files);
            },
        }
    }
}

/// What is noted at a turn is asked for at that turn or later.
proof fn lemma_noted_asked(
    root: Seq<ComponentView>,
    is_dir: bool,
    listings: Seq<Option<Seq<ListedView>>>,
    turn: int,
    item: (Seq<ComponentView>, nat),
) -> (at: int)
    requires
        is_course(root, is_dir, listings),
        Walk::after(root, is_dir, listings).warnings.len() == 0,
        0 <= turn <= listings.len(),
        Walk::after(root, is_dir, listings.take(turn)).pending.contains(item),
    ensures
        turn <= at < listings.len(),
        asked(root, is_dir, listings, at) == item,
    decreases listings.len() - turn,
{
    lemma_turn(root, is_dir, listings, turn);
    let before = Walk::after(root, is_dir, listings.take(turn));
    if turn == listings.len() {
        assert(listings.take(turn) =~= listings);
        assert(before.pending.len() == 0);
        turn
    } else if before.pending.last() == item {
        turn
    } else {
        let after = Walk::after(root, is_dir, listings.take(turn + 1));
        let rest = Walk { pending: before.pending.drop_last(), ..before };
        let (dir, depth) = before.pending.last();
        lemma_turn(root, is_dir, listings, turn + 1);
        lemma_entries_followed(rest, root, dir, depth, listings[turn]->0);
        let i = choose|i: int| 0 <= i < before.pending.len() && before.pending[i] == item;
        assert(rest.pending[i] == item);
        lemma_goes_on_contains(after.pending, rest.pending, item);
        lemma_noted_asked(root, is_dir, listings, turn + 1, item)
    }
}

/// `listing` tells what stands in a directory: all of it, or more than there is room for.
pub open spec fn tells(
    entries: Seq<ListedView>,
    room: int,
    listing: Option<Seq<ListedView>>,
) -> bool {
    listing matches Some(listed) ==> listed == entries || listed.len() > room && goes_on(
        entries,
        listed,
    )
}

/// The listings of a walk tell what stands in the directories, where `tree` gives the entries of
/// each.
pub open spec fn tells_tree(
    root: Seq<ComponentView>,
    is_dir: bool,
    listings: Seq<Option<Seq<ListedView>>>,
    tree: spec_fn(Seq<ComponentView>) -> Seq<ListedView>,
) -> bool {
    forall|i: int|
        0 <= i < listings.len() ==> tells(
            tree(asked(root, is_dir, listings, i).0),
            MAX_DISCOVERY_ENTRIES - Walk::after(root, is_dir, listings.take(i)).visited,
            #[trigger] listings[i],
        )
}

/// The path that leads from `root` along the given names.
pub open spec fn path_along(root: Seq<ComponentView>, names: Seq<OsNameView>) -> Seq<ComponentView>
    decreases names.len(),
{
    if names.len() == 0 {
        root
    } else {
        path_along(root, names.drop_last()).push(ComponentView::Normal(names.last()))
    }
}

/// Each of the given names is that of a directory, the first one below `root` and each other one
/// below the one before it.
pub open spec fn leads(
    tree: spec_fn(Seq<ComponentView>) -> Seq<ListedView>,
    root: Seq<ComponentView>,
    names: Seq<OsNameView>,
) -> bool
    decreases names.len(),
{
    names.len() == 0 || leads(tree, root, names.drop_last()) && tree(
        path_along(root, names.drop_last()),
    ).contains(ListedView::Directory(names.last()))
}

/// The first of the given names is `vision`, in any case of its letters.
pub open spec fn leads_into_vision(names: Seq<OsNameView>) -> bool {
    names.len() > 0 && first_is(seq![ComponentView::Normal(names[0])], "vision"@)
}

proof fn lemma_path_along(root: Seq<ComponentView>, names: Seq<OsNameView>)
    ensures
        path_along(root, names).len() == root.len() + names.len(),
        names.len() > 0 ==> path_along(root, names).skip(root.len() as int).first()
            == ComponentView::Normal(names[0]),
    decreases names.len(),
{
    if names.len() > 0 {
        let front = names.drop_last();
        lemma_path_along(root, front);
        let path = path_along(root, names);
        let shorter = path_along(root, front);
        assert(path.skip(root.len() as int).first() == path[root.len() as int]);
        if front.len() > 0 {
            assert(shorter.skip(root.len() as int).first() == shorter[root.len() as int]);
            assert(path[root.len() as int] == shorter[root.len() as int]);
        }
    }
}

/// What a turn of a walk without warnings comes to: the directory is listed whole, and every entry is
/// followed.
proof fn lemma_turn_followed(
    root: Seq<ComponentView>,
    is_dir: bool,
    listings: Seq<Option<Seq<ListedView>>>,
    tree: spec_fn(Seq<ComponentView>) -> Seq<ListedView>,
    turn: int,
    entry: ListedView,
)
    requires
        is_course(root, is_dir, listings),
        Walk::after(root, is_dir, listings).warnings.len() == 0,
        tells_tree(root, is_dir, listings, tree),
        0 <= turn < listings.len(),
        tree(asked(root, is_dir, listings, turn).0).contains(entry),
    ensures
        is_followed(
            Walk::after(root, is_dir, listings.take(turn + 1)),
            root,
            asked(root, is_dir, listings, turn).0,
            asked(root, is_dir, listings, turn).1,
            entry,
        ),
{
    lemma_turn(root, is_dir, listings, turn);
    lemma_turn(root, is_dir, listings, turn + 1);
    let before = Walk::after(root, is_dir, listings.take(turn));
    let rest = Walk { pending: before.pending.drop_last(), ..before };
    let (dir, depth) = before.pending.last();
    let entries = listings[turn]->0;
    lemma_entries_followed(rest, root, dir, depth, entries);
    assert(tells(tree(dir), MAX_DISCOVERY_ENTRIES - before.visited, listings[turn]));
    assert(before.visited <= MAX_DISCOVERY_ENTRIES) by {
        assert forall|i: int| 0 <= i < turn implies !(#[trigger] Walk::after(
            root,
            is_dir,
            listings.take(turn).take(i),
        )).finished() by {
            assert(listings.take(turn).take(i) =~= listings.take(i));
        }
        lemma_walk_bounded(root, is_dir, listings.take(turn));
    }
    assert(entries == tree(dir));
    let i = choose|i: int| 0 <= i < entries.len() && entries[i] == entry;
    assert(is_followed(
        Walk::after(root, is_dir, listings.take(turn + 1)),
        root,
        dir,
        depth,
        entries[i],
    ));
}

proof fn lemma_directory_asked(
    root: Seq<ComponentView>,
    listings: Seq<Option<Seq<ListedView>>>,
    tree: spec_fn(Seq<ComponentView>) -> Seq<ListedView>,
    names: Seq<OsNameView>,
) -> (at: int)
    requires
        is_course(root, true, listings),
        Walk::after(root, true, listings).warnings.len() == 0,
        tells_tree(root, true, listings, tree),
        leads(tree, root, names),
        !leads_into_vision(names),
    ensures
        0 <= at < listings.len(),
        asked(root, true, listings, at).0 == path_along(root, names),
    decreases names.len(),
{
    if names.len() == 0 {
        let start = Walk::start(root, true);
        assert(listings.take(0) =~= seq![]);
        assert(Walk::after(root, true, listings.take(0)) == start);
        assert(start.pending[0] == (root, 0nat));
        assert(start.pending.contains((root, 0nat)));
        lemma_noted_asked(root, true, listings, 0, (root, 0nat))
    } else {
        let front = names.drop_last();
        let above = lemma_directory_asked(root, listings, tree, front);
        let path = path_along(root, names);
        let (dir, depth) = asked(root, true, listings, above);
        lemma_turn_followed(
            root,
            true,
            listings,
            tree,
            above,
            ListedView::Directory(names.last()),
        );
        lemma_path_along(root, names);
        let first = seq![ComponentView::Normal(names[0])];
        assert(first.first() == path.skip(root.len() as int).first());
        assert(!first_is(path.skip(root.len() as int), "vision"@));
        lemma_noted_asked(root, true, listings, above + 1, (path, depth + 1))
    }
}

proof fn lemma_course_complete(
    root: Seq<ComponentView>,
    listings: Seq<Option<Seq<ListedView>>>,
    tree: spec_fn(Seq<ComponentView>) -> Seq<ListedView>,
    names: Seq<OsNameView>,
    file: OsNameView,
)
    requires
        is_course(root, true, listings),
        Walk::after(root, true, listings).warnings.len() == 0,
        tells_tree(root, true, listings, tree),
        leads(tree, root, names),
        !leads_into_vision(names),
        tree(path_along(root, names)).contains(ListedView::File(file)),
    ensures
        Walk::after(root, true, listings).files.contains(
            path_along(root, names).push(ComponentView::Normal(file)),
        ),
{
    let at = lemma_directory_asked(root, listings, tree, names);
    lemma_turn_followed(root, true, listings, tree, at, ListedView::File(file));
    lemma_turn(root, true, listings, at + 1);
    lemma_goes_on_contains(
        Walk::after(root, true, listings).files,
        Walk::after(root, true, listings.take(at + 1)).files,
        path_along(root, names).push(ComponentView::Normal(file)),
    );
}

/// `list` tells what stands in the directories, where `tree` gives the entries of each: all of it, or
/// more than it was given room for.
pub open spec fn lists_tree<F: Fn(&Vec<PathComponent>, usize) -> Option<Vec<Listed>>>(
    list: F,
    tree: spec_fn(Seq<ComponentView>) -> Seq<ListedView>,
) -> bool {
    forall|dir: &Vec<PathComponent>, room: usize, listing: Option<Vec<Listed>>|
        #[trigger] call_ensures(list, (dir, room), listing) ==> tells(
            tree(path_view(dir@)),
            room as int,
            listing_view(listing),
        )
}

/// A walk finds no more files than it looks at entries, however the directories are listed.
pub proof fn lemma_walk_finds_few<F: Fn(&Vec<PathComponent>, usize) -> Option<Vec<Listed>>>(
    root: Seq<ComponentView>,
    is_dir: bool,
    list: F,
    listings: Seq<Option<Vec<Listed>>>,
    files: Seq<Vec<PathComponent>>,
    warnings: Seq<String>,
)
    requires
        is_walk_of(root, is_dir, list, listings, files, warnings),
    ensures
        files.len() <= MAX_DISCOVERY_ENTRIES,
{
    lemma_walk_bounded(root, is_dir, listing_views(listings));
    assert(path_views(files).len() == files.len());
}

/// A walk without warnings found every file below its root and outside `vision`, whatever directories
/// lead to it.
pub proof fn lemma_walk_complete<F: Fn(&Vec<PathComponent>, usize) -> Option<Vec<Listed>>>(
    root: Seq<ComponentView>,
    list: F,
    listings: Seq<Option<Vec<Listed>>>,
    files: Seq<Vec<PathComponent>>,
    warnings: Seq<String>,
    tree: spec_fn(Seq<ComponentView>) -> Seq<ListedView>,
    names: Seq<OsNameView>,
    file: OsNameView,
)
    requires
        is_walk_of(root, true, list, listings, files, warnings),
        warnings.len() == 0,
        lists_tree(list, tree),
        leads(tree, root, names),
        !leads_into_vision(names),
        tree(path_along(root, names)).contains(ListedView::File(file)),
    ensures
        path_views(files).contains(path_along(root, names).push(ComponentView::Normal(file))),
{
    let seen = listing_views(listings);
    assert(views(warnings).len() == 0);
    assert forall|i: int| 0 <= i < seen.len() implies tells(
        tree(asked(root, true, seen, i).0),
        MAX_DISCOVERY_ENTRIES - Walk::after(root, true, seen.take(i)).visited,
        #[trigger] seen[i],
    ) by {
        assert(answered(root, true, list, listings, i));
    }
    lemma_course_complete(root, seen, tree, names, file);
}

} // verus!
