//! The evidence of a failed task: what is selected when it ends, and how late screenshots are
//! added to it.

use vstd::prelude::*;
use crate::discovery::{
    discover_files, is_walk_of, is_whole_walk, lemma_same_walk, listing_views, lists_alike,
    path_views, push_warning, with_warning, Listed, Walk,
};
use crate::evidence::{
    append_texts, are_opened, image_limit_warning, image_name_order, image_views, includes_image,
    lemma_same_picks, less, log_name_order, log_views, open_gave, opens_alike, push_image,
    push_text, select_from_files, should_include_image, sort_images, Baseline, ImageEntry, ImagePick, LogPick, LogSlice, Opened, PathMap, Picks,
    SelectedEntries, TaskEvidenceStart, LOG_PRELUDE_BYTES, MAX_IMAGE_FILES, MAX_LOG_FILES,
};
use crate::order::{
    in_order, is_order, lemma_ordered_set, lemma_sorted_by, lemma_sorted_contains, ordered_set,
    sort_and_dedup, sorted_by, text_order,
};
use crate::path::{
    archive_path, is_image_path, is_log_path, is_on_error_image, lies_under,
    normalize_archive_path, path_view, safe_relative_path, ComponentView, PathComponent,
};
use crate::text::{
    concat, format_u64, lemma_text_le_total, lemma_text_le_transitive, same_text, views,
};
use crate::time::{is_modified_since, FileStamp, Timestamp};

verus! {

/// What is selected for a failed task.
#[derive(Debug)]
pub struct TaskEvidenceSelection<H> {
    pub logs: Vec<LogSlice<H>>,
    pub images: Vec<ImageEntry<H>>,
    pub warnings: Vec<String>,
    pub image_root: Vec<PathComponent>,
    pub image_started_at: Timestamp,
    pub existing_images: PathMap<FileStamp>,
}

/// The content of a selection.
#[verifier::ext_equal]
pub struct Selection<H> {
    pub logs: Seq<LogPick<H>>,
    pub images: Seq<ImagePick<H>>,
    pub warnings: Seq<Seq<char>>,
    pub image_root: Seq<ComponentView>,
    pub image_started_at: Timestamp,
    pub existing_images: Map<Seq<ComponentView>, FileStamp>,
}

impl<H> View for TaskEvidenceSelection<H> {
    type V = Selection<H>;

    open spec fn view(&self) -> Selection<H> {
        Selection {
            logs: log_views(self.logs@),
            images: image_views(self.images@),
            warnings: views(self.warnings@),
            image_root: path_view(self.image_root@),
            image_started_at: self.image_started_at,
            existing_images: self.existing_images@,
        }
    }
}

/// Screenshots that were found after the task had ended.
#[derive(Debug)]
pub struct TaskImageRefresh<H> {
    pub images: Vec<ImageEntry<H>>,
    pub warnings: Vec<String>,
}

/// The content of a refresh.
#[verifier::ext_equal]
pub struct Refresh<H> {
    pub images: Seq<ImagePick<H>>,
    pub warnings: Seq<Seq<char>>,
}

impl<H> View for TaskImageRefresh<H> {
    type V = Refresh<H>;

    open spec fn view(&self) -> Refresh<H> {
        Refresh { images: image_views(self.images@), warnings: views(self.warnings@) }
    }
}

/// `picks` are what a walk and the files that `open` opened give for the baseline `start`.
pub open spec fn is_selection<H, F: Fn(&Vec<PathComponent>) -> Opened<H>>(
    picks: Picks<H>,
    start: Baseline,
    walk: Walk,
    open: F,
    opened: Seq<Opened<H>>,
) -> bool {
    &&& are_opened(start.root, walk.files, open, opened)
    &&& picks == (Picks {
        logs: seq![],
        images: seq![],
        warnings: start.warnings + walk.warnings,
    }).after_files(start, walk.files, opened).in_order()
}

/// Walks the tree below the root of `start` and selects what belongs to the task.
pub fn select_entries<
    H,
    L: Fn(&Vec<PathComponent>, usize) -> Option<Vec<Listed>>,
    F: Fn(&Vec<PathComponent>) -> Opened<H>,
>(start: &TaskEvidenceStart, is_dir: bool, list: L, open: F) -> (selected: SelectedEntries<H>)
    requires
        forall|dir: &Vec<PathComponent>, room: usize| call_requires(list, (dir, room)),
        forall|path: &Vec<PathComponent>| call_requires(open, (path,)),
    ensures
        exists|listings: Seq<Option<Vec<Listed>>>, opened: Seq<Opened<H>>|
            {
                &&& #[trigger] is_whole_walk(start@.root, is_dir, list, listings)
                &&& #[trigger] is_selection(
                    selected@,
                    start@,
                    Walk::after(start@.root, is_dir, listing_views(listings)),
                    open,
                    opened,
                )
            },
{
    let (files, warnings) = discover_files(start.root.as_slice(), is_dir, list);
    let selected = select_from_files(start, &files, warnings, open);
    proof {
        let listings = choose|listings: Seq<Option<Vec<Listed>>>|
            is_walk_of(start@.root, is_dir, list, listings, files@, warnings@);
        let opened = choose|opened: Seq<Opened<H>>|
            {
                &&& #[trigger] are_opened(start@.root, path_views(files@), open, opened)
                &&& selected@ == (Picks {
                    logs: seq![],
                    images: seq![],
                    warnings: start@.warnings + views(warnings@),
                }).after_files(start@, path_views(files@), opened).in_order()
            };
        let walk = Walk::after(start@.root, is_dir, listing_views(listings));
        assert(is_selection(selected@, start@, walk, open, opened));
    }
    selected
}

/// `selection` is what a walk finds for the baseline `start`, where `list` lists directories and
/// `open` opens files.
pub open spec fn is_capture<
    H,
    L: Fn(&Vec<PathComponent>, usize) -> Option<Vec<Listed>>,
    F: Fn(&Vec<PathComponent>) -> Opened<H>,
>(selection: Selection<H>, start: Baseline, is_dir: bool, list: L, open: F) -> bool {
    &&& selection.image_root == start.root
    &&& selection.image_started_at == start.started_at
    &&& selection.existing_images == start.existing_images
    &&& exists|listings: Seq<Option<Vec<Listed>>>, opened: Seq<Opened<H>>|
        {
            &&& #[trigger] is_whole_walk(start.root, is_dir, list, listings)
            &&& #[trigger] is_selection(
                Picks {
                    logs: selection.logs,
                    images: selection.images,
                    warnings: selection.warnings,
                },
                start,
                Walk::after(start.root, is_dir, listing_views(listings)),
                open,
                opened,
            )
        }
}

/// Freezes the logs and the screenshots that are visible when the task ends.
pub fn capture_task_end<
    H,
    L: Fn(&Vec<PathComponent>, usize) -> Option<Vec<Listed>>,
    F: Fn(&Vec<PathComponent>) -> Opened<H>,
>(start: TaskEvidenceStart, is_dir: bool, list: L, open: F) -> (selection: TaskEvidenceSelection<H>)
    requires
        forall|dir: &Vec<PathComponent>, room: usize| call_requires(list, (dir, room)),
        forall|path: &Vec<PathComponent>| call_requires(open, (path,)),
    ensures
        is_capture(selection@, start@, is_dir, list, open),
{
    let selected = select_entries(&start, is_dir, list, open);
    let ghost picks = selected@;
    let ghost baseline = start@;
    let selection = TaskEvidenceSelection {
        logs: selected.logs,
        images: selected.images,
        warnings: selected.warnings,
        image_root: start.root,
        image_started_at: start.started_at,
        existing_images: start.existing_images,
    };
    proof {
        assert(picks == Picks {
            logs: selection@.logs,
            images: selection@.images,
            warnings: selection@.warnings,
        });
        let (listings, opened) = choose|
            listings: Seq<Option<Vec<Listed>>>,
            opened: Seq<Opened<H>>,
        |
            {
                &&& #[trigger] is_whole_walk(baseline.root, is_dir, list, listings)
                &&& #[trigger] is_selection(
                    picks,
                    baseline,
                    Walk::after(baseline.root, is_dir, listing_views(listings)),
                    open,
                    opened,
                )
            };
        assert(is_whole_walk(start@.root, is_dir, list, listings));
    }
    selection
}

/// The screenshots selected so far by a refresh.
#[verifier::ext_equal]
pub struct ImagePicks<H> {
    pub images: Seq<ImagePick<H>>,
    pub warnings: Seq<Seq<char>>,
    /// No more are taken.
    pub full: bool,
}

/// A file that a refresh opens.
pub open spec fn is_image_candidate(root: Seq<ComponentView>, file: Seq<ComponentView>) -> bool {
    let relative = file.skip(root.len() as int);
    lies_under(root, file) && is_image_path(relative) && archive_path(relative) is Some
}

impl<H> ImagePicks<H> {
    /// The selection after one more file.
    pub open spec fn after_file(
        self,
        root: Seq<ComponentView>,
        started_at: Timestamp,
        existing: Map<Seq<ComponentView>, FileStamp>,
        file: Seq<ComponentView>,
        opened: Opened<H>,
    ) -> ImagePicks<H> {
        let relative = file.skip(root.len() as int);
        let name = archive_path(relative).unwrap_or(seq![]);
        if self.full || !is_image_candidate(root, file) {
            self
        } else {
            match opened {
                Opened::Unopenable(error) => ImagePicks {
                    warnings: self.warnings.push("open_image_failed:"@ + name + ":"@ + error@),
                    ..self
                },
                Opened::NoMetadata(error) => ImagePicks {
                    warnings: self.warnings.push(
                        "read_image_metadata_failed:"@ + name + ":"@ + error@,
                    ),
                    ..self
                },
                Opened::File { source, display, stamp } => if !includes_image(
                    relative,
                    stamp,
                    started_at,
                    existing,
                ) {
                    self
                } else if self.images.len() >= MAX_IMAGE_FILES {
                    ImagePicks {
                        warnings: with_warning(self.warnings, image_limit_warning()),
                        full: true,
                        ..self
                    }
                } else {
                    ImagePicks {
                        images: self.images.push(
                            ImagePick {
                                source,
                                source_path: display@,
                                archive_name: name,
                                len: stamp.len,
                                stamp,
                            },
                        ),
                        ..self
                    }
                },
            }
        }
    }

    /// The selection after the given files.
    pub open spec fn after_files(
        self,
        root: Seq<ComponentView>,
        started_at: Timestamp,
        existing: Map<Seq<ComponentView>, FileStamp>,
        files: Seq<Seq<ComponentView>>,
        opened: Seq<Opened<H>>,
    ) -> ImagePicks<H>
        decreases files.len(),
    {
        if files.len() == 0 {
            self
        } else {
            self.after_files(root, started_at, existing, files.drop_last(), opened.drop_last()).after_file(
                root,
                started_at,
                existing,
                files.last(),
                opened.last(),
            )
        }
    }

    /// The selection in its final order.
    pub open spec fn in_order(self) -> Refresh<H> {
        Refresh {
            images: sorted_by(self.images, image_name_order()),
            warnings: ordered_set(self.warnings),
        }
    }

    /// The selection before any file is looked at.
    pub open spec fn empty(warnings: Seq<Seq<char>>) -> ImagePicks<H> {
        ImagePicks { images: seq![], warnings, full: false }
    }
}

/// `opened` is what `open` gave for the screenshots among `files`, until no more were taken.
pub open spec fn are_images_opened<H, F: Fn(&Vec<PathComponent>) -> Opened<H>>(
    root: Seq<ComponentView>,
    started_at: Timestamp,
    existing: Map<Seq<ComponentView>, FileStamp>,
    files: Seq<Seq<ComponentView>>,
    warnings: Seq<Seq<char>>,
    open: F,
    opened: Seq<Opened<H>>,
) -> bool {
    &&& opened.len() == files.len()
    &&& forall|i: int|
        0 <= i < files.len() && is_image_candidate(root, files[i]) && !ImagePicks::<H>::empty(
            warnings,
        ).after_files(root, started_at, existing, files.take(i), opened.take(i)).full
            ==> #[trigger] open_gave(open, files[i], opened[i])
}

/// `refresh` is what a walk and the screenshots that `open` opened give.
pub open spec fn is_refresh<H, F: Fn(&Vec<PathComponent>) -> Opened<H>>(
    refresh: Refresh<H>,
    root: Seq<ComponentView>,
    started_at: Timestamp,
    existing: Map<Seq<ComponentView>, FileStamp>,
    files: Seq<Seq<ComponentView>>,
    warnings: Seq<Seq<char>>,
    open: F,
    opened: Seq<Opened<H>>,
) -> bool {
    &&& are_images_opened(root, started_at, existing, files, warnings, open, opened)
    &&& refresh == ImagePicks::<H>::empty(warnings).after_files(
        root,
        started_at,
        existing,
        files,
        opened,
    ).in_order()
}

/// Screenshots while they are being selected.
struct SelectedImages<H> {
    images: Vec<ImageEntry<H>>,
    warnings: Vec<String>,
    full: bool,
}

impl<H> View for SelectedImages<H> {
    type V = ImagePicks<H>;

    closed spec fn view(&self) -> ImagePicks<H> {
        ImagePicks {
            images: image_views(self.images@),
            warnings: views(self.warnings@),
            full: self.full,
        }
    }
}

/// The text of a warning about a file: what went wrong, the file and the reason.
pub(crate) fn file_warning(prefix: &str, name: &str, error: &str) -> (text: String)
    ensures
        text@ == prefix@ + name@ + ":"@ + error@,
{
    let text = concat(concat(concat(prefix, name).as_str(), ":").as_str(), error);
    text
}

/// Adds a screenshot that was opened to the selection, if it belongs there.
fn select_image<H>(
    root: &[PathComponent],
    started_at: Timestamp,
    existing_images: &PathMap<FileStamp>,
    selected: &mut SelectedImages<H>,
    relative: &[PathComponent],
    archive_name: String,
    opened: Opened<H>,
    Ghost(file): Ghost<Seq<ComponentView>>,
)
    requires
        !old(selected)@.full,
        is_image_candidate(path_view(root@), file),
        path_view(relative@) == file.skip(root@.len() as int),
        archive_path(path_view(relative@)) == Some(archive_name@),
    ensures
        final(selected)@ == old(selected)@.after_file(
            path_view(root@),
            started_at,
            existing_images@,
            file,
            opened,
        ),
{
    match opened {
        Opened::Unopenable(error) => {
            push_text(
                &mut selected.warnings,
                file_warning("open_image_failed:", archive_name.as_str(), error.as_str()),
            );
        },
        Opened::NoMetadata(error) => {
            push_text(
                &mut selected.warnings,
                file_warning("read_image_metadata_failed:", archive_name.as_str(), error.as_str()),
            );
        },
        Opened::File { source, display, stamp } => {
            if !should_include_image(relative, stamp, started_at, existing_images) {
                return;
            }
            if selected.images.len() >= MAX_IMAGE_FILES {
                let warning = concat(
                    "image_file_limit_reached:",
                    format_u64(MAX_IMAGE_FILES as u64).as_str(),
                );
                push_warning(&mut selected.warnings, warning.as_str());
                selected.full = true;
                return;
            }
            push_image(
                &mut selected.images,
                ImageEntry { source, source_path: display, archive_name, len: stamp.len, stamp },
            );
        },
    }
}

/// Selects the screenshots of a task from `files`, what lies below `root`.
pub fn select_images_from_files<H, F: Fn(&Vec<PathComponent>) -> Opened<H>>(
    root: &[PathComponent],
    started_at: Timestamp,
    existing_images: &PathMap<FileStamp>,
    files: &Vec<Vec<PathComponent>>,
    warnings: Vec<String>,
    open: F,
) -> (refresh: TaskImageRefresh<H>)
    requires
        forall|path: &Vec<PathComponent>| call_requires(open, (path,)),
    ensures
        exists|opened: Seq<Opened<H>>| #[trigger]
            is_refresh(
                refresh@,
                path_view(root@),
                started_at,
                existing_images@,
                path_views(files@),
                views(warnings@),
                open,
                opened,
            ),
{
    let ghost root_view = path_view(root@);
    let ghost all = path_views(files@);
    let ghost empty = ImagePicks::<H>::empty(views(warnings@));
    let ghost mut opened: Seq<Opened<H>> = seq![];
    let mut selected: SelectedImages<H> = SelectedImages {
        images: Vec::new(),
        warnings,
        full: false,
    };
    assert(selected@ =~= empty);
    assert(all.take(0) =~= seq![]);
    let mut index: usize = 0;
    while index < files.len()
        invariant
            index <= files@.len(),
            all == path_views(files@),
            root_view == path_view(root@),
            opened.len() == index,
            selected@ == empty.after_files(
                root_view,
                started_at,
                existing_images@,
                all.take(index as int),
                opened,
            ),
            forall|path: &Vec<PathComponent>| call_requires(open, (path,)),
            forall|i: int|
                0 <= i < index && is_image_candidate(root_view, all[i]) && !empty.after_files(
                    root_view,
                    started_at,
                    existing_images@,
                    all.take(i),
                    opened.take(i),
                ).full ==> #[trigger] open_gave(open, all[i], opened[i]),
        decreases files@.len() - index,
    {
        let ghost before = selected@;
        let ghost earlier = opened;
        let ghost mut answer: Opened<H> = Opened::Unopenable(arbitrary());
        let path = &files[index];
        assert(all[index as int] == path_view(path@));
        if !selected.full {
            if let Some(relative) = safe_relative_path(root, path.as_slice()) {
                if is_on_error_image(relative) {
                    if let Some(archive_name) = normalize_archive_path(relative) {
                        let file = open(path);
                        proof {
                            answer = file;
                            assert(call_ensures(open, (path,), file));
                            assert(open_gave(open, all[index as int], file));
                        }
                        select_image(
                            root,
                            started_at,
                            existing_images,
                            &mut selected,
                            relative,
                            archive_name,
                            file,
                            Ghost(all[index as int]),
                        );
                    }
                }
            }
        }
        proof {
            opened = opened.push(answer);
            assert(selected@ == before.after_file(
                root_view,
                started_at,
                existing_images@,
                all[index as int],
                answer,
            ));
            assert(all.take(index + 1).drop_last() =~= all.take(index as int));
            assert(opened.drop_last() =~= earlier);
            assert forall|i: int|
                0 <= i < index + 1 && is_image_candidate(root_view, all[i]) && !empty.after_files(
                    root_view,
                    started_at,
                    existing_images@,
                    all.take(i),
                    opened.take(i),
                ).full implies #[trigger] open_gave(open, all[i], opened[i]) by {
                assert(opened.take(i) =~= earlier.take(i));
                if i < index {
                    assert(open_gave(open, all[i], earlier[i]));
                } else {
                    assert(earlier.take(i) =~= earlier);
                }
            }
        }
        index += 1;
    }
    assert(all.take(index as int) =~= all);
    let refresh = TaskImageRefresh {
        images: sort_images(selected.images),
        warnings: sort_and_dedup(selected.warnings),
    };
    assert(refresh@ =~= selected@.in_order());
    assert(is_refresh(
        refresh@,
        path_view(root@),
        started_at,
        existing_images@,
        all,
        views(warnings@),
        open,
        opened,
    ));
    refresh
}

/// Walks the tree below `root` and selects the screenshots of a task.
pub fn select_images<
    H,
    L: Fn(&Vec<PathComponent>, usize) -> Option<Vec<Listed>>,
    F: Fn(&Vec<PathComponent>) -> Opened<H>,
>(
    root: &[PathComponent],
    started_at: Timestamp,
    existing_images: &PathMap<FileStamp>,
    is_dir: bool,
    list: L,
    open: F,
) -> (refresh: TaskImageRefresh<H>)
    requires
        forall|dir: &Vec<PathComponent>, room: usize| call_requires(list, (dir, room)),
        forall|path: &Vec<PathComponent>| call_requires(open, (path,)),
    ensures
        exists|listings: Seq<Option<Vec<Listed>>>, opened: Seq<Opened<H>>|
            {
                &&& #[trigger] is_whole_walk(path_view(root@), is_dir, list, listings)
                &&& #[trigger] is_refresh(
                    refresh@,
                    path_view(root@),
                    started_at,
                    existing_images@,
                    Walk::after(path_view(root@), is_dir, listing_views(listings)).files,
                    Walk::after(path_view(root@), is_dir, listing_views(listings)).warnings,
                    open,
                    opened,
                )
            },
{
    let (files, warnings) = discover_files(root, is_dir, list);
    let refresh = select_images_from_files(
        root,
        started_at,
        existing_images,
        &files,
        warnings,
        open,
    );
    proof {
        let listings = choose|listings: Seq<Option<Vec<Listed>>>|
            is_walk_of(path_view(root@), is_dir, list, listings, files@, warnings@);
        assert(is_whole_walk(path_view(root@), is_dir, list, listings));
    }
    refresh
}

/// Takes the screenshots that are visible some time after the task ended.
pub fn capture_task_image_refresh<
    H,
    L: Fn(&Vec<PathComponent>, usize) -> Option<Vec<Listed>>,
    F: Fn(&Vec<PathComponent>) -> Opened<H>,
>(selection: &TaskEvidenceSelection<H>, is_dir: bool, list: L, open: F) -> (refresh:
    TaskImageRefresh<H>)
    requires
        forall|dir: &Vec<PathComponent>, room: usize| call_requires(list, (dir, room)),
        forall|path: &Vec<PathComponent>| call_requires(open, (path,)),
    ensures
        exists|listings: Seq<Option<Vec<Listed>>>, opened: Seq<Opened<H>>|
            {
                &&& #[trigger] is_whole_walk(selection@.image_root, is_dir, list, listings)
                &&& #[trigger] is_refresh(
                    refresh@,
                    selection@.image_root,
                    selection@.image_started_at,
                    selection@.existing_images,
                    Walk::after(selection@.image_root, is_dir, listing_views(listings)).files,
                    Walk::after(selection@.image_root, is_dir, listing_views(listings)).warnings,
                    open,
                    opened,
                )
            },
{
    let root = selection.image_root.as_slice();
    let refresh = select_images(
        root,
        selection.image_started_at,
        &selection.existing_images,
        is_dir,
        list,
        open,
    );
    proof {
        assert(path_view(root@) == selection@.image_root);
        let (listings, opened) = choose|
            listings: Seq<Option<Vec<Listed>>>,
            opened: Seq<Opened<H>>,
        |
            {
                &&& #[trigger] is_whole_walk(path_view(root@), is_dir, list, listings)
                &&& #[trigger] is_refresh(
                    refresh@,
                    path_view(root@),
                    selection.image_started_at,
                    selection.existing_images@,
                    Walk::after(path_view(root@), is_dir, listing_views(listings)).files,
                    Walk::after(path_view(root@), is_dir, listing_views(listings)).warnings,
                    open,
                    opened,
                )
            };
        assert(is_whole_walk(selection@.image_root, is_dir, list, listings));
        assert(is_refresh(
            refresh@,
            selection@.image_root,
            selection@.image_started_at,
            selection@.existing_images,
            Walk::after(selection@.image_root, is_dir, listing_views(listings)).files,
            Walk::after(selection@.image_root, is_dir, listing_views(listings)).warnings,
            open,
            opened,
        ));
    }
    refresh
}

/// Where the first screenshot with the given name stands, or their number if there is none.
pub open spec fn position<H>(images: Seq<ImagePick<H>>, name: Seq<char>) -> int
    decreases images.len(),
{
    if images.len() == 0 {
        0
    } else if images[0].archive_name == name {
        0
    } else {
        1 + position(images.skip(1), name)
    }
}

/// The screenshots after one more was seen: it takes the place of another generation with its
/// name.
pub open spec fn merged_image<H>(images: Seq<ImagePick<H>>, image: ImagePick<H>) -> Seq<
    ImagePick<H>,
> {
    let at = position(images, image.archive_name);
    if at >= images.len() {
        images.push(image)
    } else if images[at].stamp != image.stamp {
        images.update(at, image)
    } else {
        images
    }
}

/// The screenshots after those of a refresh were seen.
pub open spec fn merged_images<H>(
    images: Seq<ImagePick<H>>,
    refreshed: Seq<ImagePick<H>>,
) -> Seq<ImagePick<H>>
    decreases refreshed.len(),
{
    if refreshed.len() == 0 {
        images
    } else {
        merged_image(merged_images(images, refreshed.drop_last()), refreshed.last())
    }
}

/// The selection after a refresh.
pub open spec fn refreshed<H>(selection: Selection<H>, refresh: Refresh<H>) -> Selection<H> {
    Selection {
        images: sorted_by(merged_images(selection.images, refresh.images), image_name_order()),
        warnings: ordered_set(selection.warnings + refresh.warnings),
        ..selection
    }
}

proof fn lemma_position_from<H>(images: Seq<ImagePick<H>>, name: Seq<char>, at: int)
    requires
        0 <= at <= images.len(),
        at < images.len() ==> images[at].archive_name == name,
        forall|i: int| 0 <= i < at ==> (#[trigger] images[i]).archive_name != name,
    ensures
        position(images, name) == at,
    decreases images.len(),
{
    if images.len() > 0 && at > 0 {
        assert(images[0].archive_name != name);
        let rest = images.skip(1);
        assert forall|i: int| 0 <= i < at - 1 implies (#[trigger] rest[i]).archive_name != name by {
            assert(images[i + 1].archive_name != name);
        }
        lemma_position_from(rest, name, at - 1);
    }
}

/// Adds one screenshot of a refresh.
fn merge_image<H>(images: &mut Vec<ImageEntry<H>>, image: ImageEntry<H>)
    ensures
        image_views(final(images)@) == merged_image(image_views(old(images)@), image@),
{
    let ghost before = image_views(images@);
    let mut at: usize = 0;
    while at < images.len() && !same_text(
        images[at].archive_name.as_str(),
        image.archive_name.as_str(),
    )
        invariant
            at <= images@.len(),
            before == image_views(images@),
            forall|i: int|
                0 <= i < at ==> (#[trigger] before[i]).archive_name != image.archive_name@,
        decreases images@.len() - at,
    {
        assert(before[at as int] == images@[at as int]@);
        at += 1;
    }
    proof {
        if at < images@.len() {
            assert(before[at as int] == images@[at as int]@);
        }
        lemma_position_from(before, image.archive_name@, at as int);
    }
    if at >= images.len() {
        push_image(images, image);
    } else if images[at].stamp != image.stamp {
        images.set(at, image);
        assert(image_views(images@) =~= before.update(at as int, image@));
    }
}

/// Adds the screenshots of a refresh to the selection: those whose generation did not change keep
/// their open file, others are replaced.
pub fn apply_task_image_refresh<H>(
    selection: &mut TaskEvidenceSelection<H>,
    refresh: TaskImageRefresh<H>,
)
    ensures
        final(selection)@ == refreshed(old(selection)@, refresh@),
{
    let ghost all = image_views(refresh.images@);
    let ghost start = image_views(selection.images@);
    let ghost given = selection@;
    let mut images: Vec<ImageEntry<H>> = Vec::new();
    std::mem::swap(&mut images, &mut selection.images);
    let mut warnings: Vec<String> = Vec::new();
    std::mem::swap(&mut warnings, &mut selection.warnings);
    assert(all.take(0) =~= seq![]);
    for image in it: refresh.images
        invariant
            all == image_views(it.seq()),
            image_views(images@) == merged_images(start, all.take(it.index() as int)),
    {
        assert(all.take(it.index() + 1).drop_last() =~= all.take(it.index() as int));
        assert(all[it.index() as int] == image@);
        merge_image(&mut images, image);
    }
    assert(all.take(all.len() as int) =~= all);
    append_texts(&mut warnings, refresh.warnings);
    selection.images = sort_images(images);
    selection.warnings = sort_and_dedup(warnings);
    assert(selection@ =~= refreshed(given, refresh@));
}

/// The screenshot `image` is the file at `index`: a screenshot below the root that was written
/// since the task started, in a generation that was not there before.
pub open spec fn is_task_image<H>(
    start: Baseline,
    files: Seq<Seq<ComponentView>>,
    opened: Seq<Opened<H>>,
    image: ImagePick<H>,
    index: int,
) -> bool {
    let relative = files[index].skip(start.root.len() as int);
    &&& 0 <= index < files.len()
    &&& lies_under(start.root, files[index])
    &&& is_image_path(relative)
    &&& archive_path(relative) == Some(image.archive_name)
    &&& opened[index] is File
    &&& opened[index]->source == image.source
    &&& opened[index]->display@ == image.source_path
    &&& opened[index]->stamp == image.stamp
    &&& image.len == image.stamp.len
    &&& includes_image(relative, image.stamp, start.started_at, start.existing_images)
}

/// The range `log` is of the file at `index`: a log below the root, from where the task began to
/// write less the prelude, to the end that it had when the task ended.
pub open spec fn is_task_log<H>(
    start: Baseline,
    files: Seq<Seq<ComponentView>>,
    opened: Seq<Opened<H>>,
    log: LogPick<H>,
    index: int,
) -> bool {
    let relative = files[index].skip(start.root.len() as int);
    let stamp = opened[index]->stamp;
    &&& 0 <= index < files.len()
    &&& lies_under(start.root, files[index])
    &&& is_log_path(relative)
    &&& !is_image_path(relative)
    &&& archive_path(relative) == Some(log.archive_name)
    &&& opened[index] is File
    &&& opened[index]->source == log.source
    &&& log.end == stamp.len
    &&& log.start < log.end
    &&& start.log_lengths.dom().contains(relative) && stamp.len >= start.log_lengths[relative]
        ==> log.start == less(start.log_lengths[relative], LOG_PRELUDE_BYTES)
    &&& !start.log_lengths.dom().contains(relative) || stamp.len <= start.log_lengths[relative]
        ==> is_modified_since(stamp, start.started_at)
}

/// What every selection of a task's files is made of.
pub open spec fn is_of_task<H>(
    start: Baseline,
    files: Seq<Seq<ComponentView>>,
    opened: Seq<Opened<H>>,
    picks: Picks<H>,
) -> bool {
    &&& picks.logs.len() <= MAX_LOG_FILES
    &&& picks.images.len() <= MAX_IMAGE_FILES
    &&& forall|image: ImagePick<H>| #[trigger]
        picks.images.contains(image) ==> exists|index: int| #[trigger]
            is_task_image(start, files, opened, image, index)
    &&& forall|log: LogPick<H>| #[trigger]
        picks.logs.contains(log) ==> exists|index: int| #[trigger]
            is_task_log(start, files, opened, log, index)
}

pub(crate) proof fn lemma_pushed_contains<T>(items: Seq<T>, item: T, other: T)
    ensures
        items.push(item).contains(other) == (items.contains(other) || other == item),
{
    let all = items.push(item);
    if items.contains(other) {
        let i = choose|i: int| 0 <= i < items.len() && items[i] == other;
        assert(all[i] == other);
    }
    if other == item {
        assert(all[all.len() - 1] == other);
    }
    if all.contains(other) && other != item {
        let i = choose|i: int| 0 <= i < all.len() && all[i] == other;
        assert(items[i] == other);
    }
}

proof fn lemma_picks_of_task<H>(
    start: Baseline,
    files: Seq<Seq<ComponentView>>,
    opened: Seq<Opened<H>>,
    warnings: Seq<Seq<char>>,
)
    requires
        opened.len() == files.len(),
    ensures
        is_of_task(
            start,
            files,
            opened,
            (Picks { logs: seq![], images: seq![], warnings }).after_files(start, files, opened),
        ),
    decreases files.len(),
{
    let empty = Picks::<H> { logs: seq![], images: seq![], warnings };
    let picks = empty.after_files(start, files, opened);
    if files.len() > 0 {
        let front = files.drop_last();
        let opened_front = opened.drop_last();
        let last = files.len() - 1;
        lemma_picks_of_task(start, front, opened_front, warnings);
        let before = empty.after_files(start, front, opened_front);
        assert forall|image: ImagePick<H>| #[trigger] picks.images.contains(
            image,
        ) implies exists|index: int| #[trigger] is_task_image(start, files, opened, image, index) by {
            if before.images.contains(image) {
                let index = choose|index: int| #[trigger]
                    is_task_image(start, front, opened_front, image, index);
                assert(is_task_image(start, files, opened, image, index));
            } else {
                lemma_pushed_contains(before.images, picks.images.last(), image);
                assert(is_task_image(start, files, opened, image, last));
            }
        }
        assert forall|log: LogPick<H>| #[trigger] picks.logs.contains(
            log,
        ) implies exists|index: int| #[trigger] is_task_log(start, files, opened, log, index) by {
            if before.logs.contains(log) {
                let index = choose|index: int| #[trigger]
                    is_task_log(start, front, opened_front, log, index);
                assert(is_task_log(start, files, opened, log, index));
            } else {
                lemma_pushed_contains(before.logs, picks.logs.last(), log);
                assert(is_task_log(start, files, opened, log, last));
            }
        }
    }
}

proof fn lemma_image_name_order<H>()
    ensures
        is_order(image_name_order::<H>()),
{
    let le = image_name_order::<H>();
    assert forall|a: ImagePick<H>, b: ImagePick<H>| #[trigger] le(a, b) || le(b, a) by {
        lemma_text_le_total(a.archive_name, b.archive_name);
    }
    assert forall|a: ImagePick<H>, b: ImagePick<H>, c: ImagePick<H>| #[trigger]
        le(a, b) && #[trigger] le(b, c) implies le(a, c) by {
        lemma_text_le_transitive(a.archive_name, b.archive_name, c.archive_name);
    }
}

proof fn lemma_log_name_order<H>()
    ensures
        is_order(log_name_order::<H>()),
{
    let le = log_name_order::<H>();
    assert forall|a: LogPick<H>, b: LogPick<H>| #[trigger] le(a, b) || le(b, a) by {
        lemma_text_le_total(a.archive_name, b.archive_name);
    }
    assert forall|a: LogPick<H>, b: LogPick<H>, c: LogPick<H>| #[trigger]
        le(a, b) && #[trigger] le(b, c) implies le(a, c) by {
        lemma_text_le_transitive(a.archive_name, b.archive_name, c.archive_name);
    }
}

/// A selection holds only what belongs to the task, bounded in number, each kind in the order of
/// the names, and each warning once.
pub proof fn lemma_selection_is_of_task<H, F: Fn(&Vec<PathComponent>) -> Opened<H>>(
    picks: Picks<H>,
    start: Baseline,
    walk: Walk,
    open: F,
    opened: Seq<Opened<H>>,
)
    requires
        is_selection(picks, start, walk, open, opened),
    ensures
        is_of_task(start, walk.files, opened, picks),
        in_order(picks.logs, log_name_order()),
        in_order(picks.images, image_name_order()),
        in_order(picks.warnings, text_order()),
        picks.warnings.no_duplicates(),
{
    let unsorted = (Picks {
        logs: seq![],
        images: seq![],
        warnings: start.warnings + walk.warnings,
    }).after_files(start, walk.files, opened);
    lemma_picks_of_task(start, walk.files, opened, start.warnings + walk.warnings);
    lemma_image_name_order::<H>();
    lemma_log_name_order::<H>();
    lemma_sorted_by(unsorted.images, image_name_order());
    lemma_sorted_by(unsorted.logs, log_name_order());
    lemma_ordered_set(unsorted.warnings);
    assert forall|image: ImagePick<H>| #[trigger] picks.images.contains(
        image,
    ) implies exists|index: int| #[trigger]
        is_task_image(start, walk.files, opened, image, index) by {
        lemma_sorted_contains(unsorted.images, image_name_order(), image);
    }
    assert forall|log: LogPick<H>| #[trigger] picks.logs.contains(log) implies exists|index: int|
        #[trigger] is_task_log(start, walk.files, opened, log, index) by {
        lemma_sorted_contains(unsorted.logs, log_name_order(), log);
    }
}

/// No two screenshots have the same name.
pub open spec fn distinct_names<H>(images: Seq<ImagePick<H>>) -> bool {
    forall|i: int, j: int|
        0 <= i < j < images.len() ==> (#[trigger] images[i]).archive_name != (
        #[trigger] images[j]).archive_name
}

proof fn lemma_position<H>(images: Seq<ImagePick<H>>, name: Seq<char>)
    ensures
        0 <= position(images, name) <= images.len(),
        position(images, name) < images.len() ==> images[position(images, name)].archive_name
            == name,
        forall|i: int|
            0 <= i < position(images, name) ==> (#[trigger] images[i]).archive_name != name,
    decreases images.len(),
{
    if images.len() > 0 && images[0].archive_name != name {
        let rest = images.skip(1);
        lemma_position(rest, name);
        assert forall|i: int| 0 <= i < position(images, name) implies (
        #[trigger] images[i]).archive_name != name by {
            if i > 0 {
                assert(rest[i - 1].archive_name != name);
            }
        }
    }
}

/// What a list of screenshots is after those of `refreshed` were merged into `given`.
pub open spec fn is_merge_of<H>(
    result: Seq<ImagePick<H>>,
    given: Seq<ImagePick<H>>,
    refreshed: Seq<ImagePick<H>>,
) -> bool {
    &&& distinct_names(result)
    // Nothing comes from elsewhere.
    &&& forall|image: ImagePick<H>| #[trigger]
        result.contains(image) ==> given.contains(image) || refreshed.contains(image)
    // Every name that was there stays, with the open file that it had unless a refreshed
    // screenshot with that name has another stamp.
    &&& forall|image: ImagePick<H>| #[trigger]
        given.contains(image) ==> result.contains(image) || exists|newer: ImagePick<H>| #[trigger]
            refreshed.contains(newer) && newer.archive_name == image.archive_name && newer.stamp
                != image.stamp && result.contains(newer)
    // Every refreshed screenshot is there in the generation that was seen.
    &&& forall|newer: ImagePick<H>| #[trigger]
        refreshed.contains(newer) ==> exists|image: ImagePick<H>| #[trigger]
            result.contains(image) && image.archive_name == newer.archive_name && image.stamp
                == newer.stamp
}

proof fn lemma_distinct_same<H>(images: Seq<ImagePick<H>>, a: ImagePick<H>, b: ImagePick<H>)
    requires
        distinct_names(images),
        images.contains(a),
        images.contains(b),
        a.archive_name == b.archive_name,
    ensures
        a == b,
{
    let i = choose|i: int| 0 <= i < images.len() && images[i] == a;
    let j = choose|j: int| 0 <= j < images.len() && images[j] == b;
    if i < j {
        assert(images[i].archive_name != images[j].archive_name);
    } else if j < i {
        assert(images[j].archive_name != images[i].archive_name);
    }
}

proof fn lemma_merged_images<H>(given: Seq<ImagePick<H>>, refreshed: Seq<ImagePick<H>>)
    requires
        distinct_names(given),
        distinct_names(refreshed),
    ensures
        is_merge_of(merged_images(given, refreshed), given, refreshed),
    decreases refreshed.len(),
{
    let result = merged_images(given, refreshed);
    if refreshed.len() == 0 {
        assert forall|newer: ImagePick<H>| #[trigger] refreshed.contains(newer) implies false by {}
    } else {
        let front = refreshed.drop_last();
        let newest = refreshed.last();
        assert(refreshed =~= front.push(newest));
        assert forall|i: int, j: int| 0 <= i < j < front.len() implies (
        #[trigger] front[i]).archive_name != (#[trigger] front[j]).archive_name by {
            assert(refreshed[i].archive_name != refreshed[j].archive_name);
        }
        lemma_merged_images(given, front);
        let before = merged_images(given, front);
        let at = position(before, newest.archive_name);
        lemma_position(before, newest.archive_name);
        assert forall|newer: ImagePick<H>| #[trigger] front.contains(newer) implies
            newer.archive_name != newest.archive_name && refreshed.contains(newer) by {
            let i = choose|i: int| 0 <= i < front.len() && front[i] == newer;
            assert(refreshed[i] == newer);
            assert(refreshed[i].archive_name != refreshed[refreshed.len() - 1].archive_name);
        }
        assert(refreshed.contains(newest)) by {
            assert(refreshed[refreshed.len() - 1] == newest);
        }
        // What the merge of one screenshot keeps, replaces and adds.
        assert forall|image: ImagePick<H>| #[trigger] result.contains(image) implies
            before.contains(image) || image == newest by {
            let i = choose|i: int| 0 <= i < result.len() && result[i] == image;
            if i < before.len() && image != newest {
                assert(before[i] == image);
            }
        }
        assert forall|image: ImagePick<H>|
            before.contains(image) && image.archive_name != newest.archive_name implies
            #[trigger] result.contains(image) by {
            let i = choose|i: int| 0 <= i < before.len() && before[i] == image;
            assert(result[i] == image);
        }
        if at >= before.len() {
            assert(result[result.len() - 1] == newest);
            assert(result.contains(newest));
        } else {
            assert(result[at].archive_name == newest.archive_name && result[at].stamp
                == newest.stamp);
            assert(result.contains(result[at]));
            assert(before.contains(before[at]));
        }
        assert forall|i: int, j: int| 0 <= i < j < result.len() implies (
        #[trigger] result[i]).archive_name != (#[trigger] result[j]).archive_name by {
            if j < before.len() {
                assert(before[i].archive_name != before[j].archive_name);
            }
        }
        assert forall|image: ImagePick<H>| #[trigger] result.contains(image) implies
            given.contains(image) || refreshed.contains(image) by {
            if image != newest {
                assert(before.contains(image));
            }
        }
        assert forall|image: ImagePick<H>| #[trigger] given.contains(image) implies
            result.contains(image) || exists|newer: ImagePick<H>| #[trigger]
            refreshed.contains(newer) && newer.archive_name == image.archive_name && newer.stamp
                != image.stamp && result.contains(newer) by {
            if before.contains(image) {
                if image.archive_name == newest.archive_name {
                    if at < before.len() {
                        lemma_distinct_same(before, image, before[at]);
                        if image.stamp != newest.stamp {
                            assert(result[at] == newest);
                            assert(refreshed.contains(newest) && result.contains(newest));
                        } else {
                            assert(result == before);
                        }
                    } else {
                        let i = choose|i: int| 0 <= i < before.len() && before[i] == image;
                        assert(before[i].archive_name != newest.archive_name);
                    }
                }
            } else {
                let newer = choose|newer: ImagePick<H>| #[trigger]
                    front.contains(newer) && newer.archive_name == image.archive_name
                        && newer.stamp != image.stamp && before.contains(newer);
                assert(newer.archive_name != newest.archive_name);
                assert(result.contains(newer) && refreshed.contains(newer));
            }
        }
        assert forall|newer: ImagePick<H>| #[trigger] refreshed.contains(newer) implies exists|
            image: ImagePick<H>,
        | #[trigger]
            result.contains(image) && image.archive_name == newer.archive_name && image.stamp
                == newer.stamp by {
            lemma_pushed_contains(front, newest, newer);
            if newer == newest {
                if at >= before.len() {
                    assert(result.contains(newest));
                } else {
                    assert(result.contains(result[at]));
                }
            } else {
                let image = choose|image: ImagePick<H>| #[trigger]
                    before.contains(image) && image.archive_name == newer.archive_name
                        && image.stamp == newer.stamp;
                assert(result.contains(image));
            }
        }
    }
}

/// A refresh keeps the names distinct, keeps the open file of every screenshot whose generation did
/// not change, brings in every screenshot that it saw, and nothing else. The logs stay as they are.
pub proof fn lemma_refresh_merges<H>(selection: Selection<H>, refresh: Refresh<H>)
    requires
        distinct_names(selection.images),
        distinct_names(refresh.images),
    ensures
        is_merge_of(
            refreshed(selection, refresh).images,
            selection.images,
            refresh.images,
        ),
        in_order(refreshed(selection, refresh).images, image_name_order()),
        refreshed(selection, refresh).logs == selection.logs,
        refreshed(selection, refresh).warnings.no_duplicates(),
{
    let merged = merged_images(selection.images, refresh.images);
    let result = refreshed(selection, refresh).images;
    lemma_merged_images(selection.images, refresh.images);
    lemma_image_name_order::<H>();
    lemma_sorted_by(merged, image_name_order());
    lemma_ordered_set(selection.warnings + refresh.warnings);
    assert forall|image: ImagePick<H>| #[trigger] result.contains(image) == merged.contains(
        image,
    ) by {
        lemma_sorted_contains(merged, image_name_order(), image);
    }
    lemma_sorted_distinct_names(merged, result);
    assert forall|image: ImagePick<H>| #[trigger] selection.images.contains(image) implies
        result.contains(image) || exists|newer: ImagePick<H>| #[trigger]
        refresh.images.contains(newer) && newer.archive_name == image.archive_name && newer.stamp
            != image.stamp && result.contains(newer) by {
        if !merged.contains(image) {
            let newer = choose|newer: ImagePick<H>| #[trigger]
                refresh.images.contains(newer) && newer.archive_name == image.archive_name
                    && newer.stamp != image.stamp && merged.contains(newer);
            assert(result.contains(newer));
        }
    }
    assert forall|newer: ImagePick<H>| #[trigger] refresh.images.contains(newer) implies exists|
        image: ImagePick<H>,
    | #[trigger]
        result.contains(image) && image.archive_name == newer.archive_name && image.stamp
            == newer.stamp by {
        let image = choose|image: ImagePick<H>| #[trigger]
            merged.contains(image) && image.archive_name == newer.archive_name && image.stamp
                == newer.stamp;
        assert(result.contains(image));
    }
}

proof fn lemma_sorted_distinct_names<H>(images: Seq<ImagePick<H>>, sorted: Seq<ImagePick<H>>)
    requires
        distinct_names(images),
        sorted.to_multiset() == images.to_multiset(),
    ensures
        distinct_names(sorted),
{
    broadcast use vstd::seq_lib::group_to_multiset_ensures;
    assert(images.no_duplicates()) by {
        assert forall|i: int, j: int| 0 <= i < images.len() && 0 <= j < images.len() && i
            != j implies images[i] != images[j] by {
            if i < j {
                assert(images[i].archive_name != images[j].archive_name);
            } else {
                assert(images[j].archive_name != images[i].archive_name);
            }
        }
    }
    images.lemma_multiset_has_no_duplicates();
    sorted.lemma_multiset_has_no_duplicates_conv();
    assert forall|i: int, j: int| 0 <= i < j < sorted.len() implies (
    #[trigger] sorted[i]).archive_name != (#[trigger] sorted[j]).archive_name by {
        if sorted[i].archive_name == sorted[j].archive_name {
            assert(sorted.to_multiset().count(sorted[i]) > 0);
            assert(sorted.to_multiset().count(sorted[j]) > 0);
            lemma_distinct_same(images, sorted[i], sorted[j]);
        }
    }
}

/// A screenshot that was written since the task started, as far as its time tells, is not in the
/// baseline, and so is not taken for an old one.
pub proof fn lemma_baseline_is_older(
    root: Seq<ComponentView>,
    started_at: Timestamp,
    warnings: Seq<Seq<char>>,
    files: Seq<Seq<ComponentView>>,
    stamps: Seq<Option<FileStamp>>,
)
    ensures
        ({
            let start = Baseline::empty(root, started_at, warnings).after_files(files, stamps);
            &&& start.root == root
            &&& start.started_at == started_at
            &&& start.warnings == warnings
            &&& forall|path: Seq<ComponentView>| #[trigger]
                start.existing_images.dom().contains(path) ==> {
                    &&& is_image_path(path)
                    &&& start.existing_images[path].modified matches Some(modified)
                        ==> modified.is_before(started_at)
                }
            &&& forall|path: Seq<ComponentView>| #[trigger]
                start.log_lengths.dom().contains(path) ==> is_log_path(path)
        }),
    decreases files.len(),
{
    if files.len() > 0 {
        lemma_baseline_is_older(root, started_at, warnings, files.drop_last(), stamps.drop_last());
    }
}

/// What is captured for the same baseline in the same state of the files is the same.
pub proof fn lemma_same_capture<
    H,
    L: Fn(&Vec<PathComponent>, usize) -> Option<Vec<Listed>>,
    F: Fn(&Vec<PathComponent>) -> Opened<H>,
>(
    first: Selection<H>,
    second: Selection<H>,
    start: Baseline,
    is_dir: bool,
    list: L,
    open: F,
)
    requires
        lists_alike(list),
        opens_alike::<H, F>(open),
        is_capture(first, start, is_dir, list, open),
        is_capture(second, start, is_dir, list, open),
    ensures
        first == second,
{
    let ones = Picks { logs: first.logs, images: first.images, warnings: first.warnings };
    let others = Picks { logs: second.logs, images: second.images, warnings: second.warnings };
    let (listed, opened) = choose|listings: Seq<Option<Vec<Listed>>>, opened: Seq<Opened<H>>|
        #[trigger] is_whole_walk(start.root, is_dir, list, listings) && #[trigger] is_selection(
            ones,
            start,
            Walk::after(start.root, is_dir, listing_views(listings)),
            open,
            opened,
        );
    let (relisted, reopened) = choose|listings: Seq<Option<Vec<Listed>>>, opened: Seq<Opened<H>>|
        #[trigger] is_whole_walk(start.root, is_dir, list, listings) && #[trigger] is_selection(
            others,
            start,
            Walk::after(start.root, is_dir, listing_views(listings)),
            open,
            opened,
        );
    lemma_same_walk(start.root, is_dir, list, listed, relisted);
    let walk = Walk::after(start.root, is_dir, listing_views(listed));
    lemma_same_picks(
        Picks { logs: seq![], images: seq![], warnings: start.warnings + walk.warnings },
        start,
        walk.files,
        open,
        opened,
        reopened,
    );
    assert(ones == others);
}

} // verus!
