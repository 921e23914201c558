//! Which files belong to a failed task: the baseline taken when it starts, and the logs and
//! screenshots selected when it ends.

use vstd::prelude::*;
use crate::discovery::{
    discover_files, is_walk_of, is_whole_walk, listing_views, path_views, push_warning, with_warning, Listed,
    Walk,
};
use crate::order::{
    lemma_sorted_mapped, ordered_set, sort_and_dedup, sorted_by, stable_sort,
};
use crate::path::{
    archive_path, copy_path, is_image_path, is_log_file, is_log_path, is_on_error_image,
    lies_under, normalize_archive_path, path_view, safe_relative_path, same_path, ComponentView,
    PathComponent,
};
use crate::text::{at_most, concat, decimal, format_u64, text_le, views};
use crate::time::{is_modified_since, modified_since, FileStamp, Timestamp};

verus! {

/// How much of a log is kept from before the task started.
pub const LOG_PRELUDE_BYTES: u64 = 65536;

/// No more logs than this are selected.
pub const MAX_LOG_FILES: usize = 128;

/// No more screenshots than this are selected.
pub const MAX_IMAGE_FILES: usize = 128;

/// A value for each of a number of paths.
#[derive(Debug)]
pub struct PathMap<V> {
    entries: Vec<(Vec<PathComponent>, V)>,
}

/// The map that results from inserting `entries` in their order.
pub open spec fn map_of<V>(entries: Seq<(Vec<PathComponent>, V)>) -> Map<Seq<ComponentView>, V>
    decreases entries.len(),
{
    if entries.len() == 0 {
        Map::empty()
    } else {
        map_of(entries.drop_last()).insert(path_view(entries.last().0@), entries.last().1)
    }
}

impl<V> View for PathMap<V> {
    type V = Map<Seq<ComponentView>, V>;

    closed spec fn view(&self) -> Map<Seq<ComponentView>, V> {
        map_of(self.entries@)
    }
}

impl<V> PathMap<V> {
    /// A map without paths.
    pub fn new() -> (map: Self)
        ensures
            map@ == Map::<Seq<ComponentView>, V>::empty(),
    {
        PathMap { entries: Vec::new() }
    }

    /// Sets the value of `path`.
    pub fn insert(&mut self, path: Vec<PathComponent>, value: V)
        ensures
            final(self)@ == old(self)@.insert(path_view(path@), value),
    {
        let ghost before = self.entries@;
        self.entries.push((path, value));
        assert(self.entries@.drop_last() =~= before);
    }

    /// The value of `path`, if it has one.
    pub fn get(&self, path: &[PathComponent]) -> (value: Option<&V>)
        ensures
            match value {
                Some(found) => self@.dom().contains(path_view(path@)) && *found == self@[path_view(
                    path@,
                )],
                None => !self@.dom().contains(path_view(path@)),
            },
    {
        let mut end: usize = self.entries.len();
        assert(self.entries@.take(end as int) =~= self.entries@);
        while end > 0
            invariant
                end <= self.entries@.len(),
                map_of(self.entries@).dom().contains(path_view(path@)) == map_of(
                    self.entries@.take(end as int),
                ).dom().contains(path_view(path@)),
                map_of(self.entries@.take(end as int)).dom().contains(path_view(path@)) ==> map_of(
                    self.entries@,
                )[path_view(path@)] == map_of(self.entries@.take(end as int))[path_view(path@)],
            decreases end,
        {
            let ghost part = self.entries@.take(end as int);
            assert(part.last() == self.entries@[end - 1]);
            assert(part.drop_last() =~= self.entries@.take(end - 1));
            if same_path(self.entries[end - 1].0.as_slice(), path) {
                return Some(&self.entries[end - 1].1);
            }
            end -= 1;
        }
        None
    }
}

/// The files that matter to a task as they stood when it started.
#[derive(Debug)]
pub struct TaskEvidenceStart {
    pub root: Vec<PathComponent>,
    pub started_at: Timestamp,
    pub log_lengths: PathMap<u64>,
    pub existing_images: PathMap<FileStamp>,
    pub warnings: Vec<String>,
}

/// The content of a baseline.
#[verifier::ext_equal]
pub struct Baseline {
    pub root: Seq<ComponentView>,
    pub started_at: Timestamp,
    pub log_lengths: Map<Seq<ComponentView>, u64>,
    pub existing_images: Map<Seq<ComponentView>, FileStamp>,
    pub warnings: Seq<Seq<char>>,
}

impl View for TaskEvidenceStart {
    type V = Baseline;

    open spec fn view(&self) -> Baseline {
        Baseline {
            root: path_view(self.root@),
            started_at: self.started_at,
            log_lengths: self.log_lengths@,
            existing_images: self.existing_images@,
            warnings: views(self.warnings@),
        }
    }
}

/// A file whose state is looked up when a task starts.
pub open spec fn is_relevant(root: Seq<ComponentView>, file: Seq<ComponentView>) -> bool {
    let relative = file.skip(root.len() as int);
    lies_under(root, file) && (is_image_path(relative) || is_log_path(relative))
}

impl Baseline {
    /// The baseline with one more file, whose state is `stamp` where it could be read.
    ///
    /// A screenshot that is younger than the start belongs to the task and not to the baseline.
    pub open spec fn after_file(self, file: Seq<ComponentView>, stamp: Option<FileStamp>) -> Baseline {
        let relative = file.skip(self.root.len() as int);
        if !lies_under(self.root, file) || stamp is None {
            self
        } else if is_image_path(relative) {
            if stamp->0.modified matches Some(modified) && !modified.is_before(self.started_at) {
                self
            } else {
                Baseline {
                    existing_images: self.existing_images.insert(relative, stamp->0),
                    ..self
                }
            }
        } else if is_log_path(relative) {
            Baseline { log_lengths: self.log_lengths.insert(relative, stamp->0.len), ..self }
        } else {
            self
        }
    }

    /// The baseline with the given files, whose states are `stamps`.
    pub open spec fn after_files(
        self,
        files: Seq<Seq<ComponentView>>,
        stamps: Seq<Option<FileStamp>>,
    ) -> Baseline
        decreases files.len(),
    {
        if files.len() == 0 {
            self
        } else {
            self.after_files(files.drop_last(), stamps.drop_last()).after_file(
                files.last(),
                stamps.last(),
            )
        }
    }

    /// The baseline before any file is looked at.
    pub open spec fn empty(
        root: Seq<ComponentView>,
        started_at: Timestamp,
        warnings: Seq<Seq<char>>,
    ) -> Baseline {
        Baseline {
            root,
            started_at,
            log_lengths: Map::empty(),
            existing_images: Map::empty(),
            warnings,
        }
    }
}

/// `stat` gave `stamp` for the file `file`.
pub open spec fn stat_gave<F: Fn(&Vec<PathComponent>) -> Option<FileStamp>>(
    stat: F,
    file: Seq<ComponentView>,
    stamp: Option<FileStamp>,
) -> bool {
    exists|path: Vec<PathComponent>|
        path_view(path@) == file && #[trigger] call_ensures(stat, (&path,), stamp)
}

/// `stamps` are the states that `stat` gave for those of `files` that matter.
pub open spec fn are_stamps<F: Fn(&Vec<PathComponent>) -> Option<FileStamp>>(
    root: Seq<ComponentView>,
    files: Seq<Seq<ComponentView>>,
    stat: F,
    stamps: Seq<Option<FileStamp>>,
) -> bool {
    &&& stamps.len() == files.len()
    &&& forall|i: int|
        0 <= i < files.len() && is_relevant(root, files[i]) ==> #[trigger] stat_gave(
            stat,
            files[i],
            stamps[i],
        )
}

/// The baseline of a task that starts at `started_at`, when `files` are what lies below `root`.
///
/// `stat` gives the state of a file, or `None` where it cannot be read.
pub fn record_baseline<F: Fn(&Vec<PathComponent>) -> Option<FileStamp>>(
    root: &[PathComponent],
    started_at: Timestamp,
    files: &Vec<Vec<PathComponent>>,
    warnings: Vec<String>,
    stat: F,
) -> (start: TaskEvidenceStart)
    requires
        forall|path: &Vec<PathComponent>| call_requires(stat, (path,)),
    ensures
        exists|stamps: Seq<Option<FileStamp>>|
            {
                &&& #[trigger] are_stamps(path_view(root@), path_views(files@), stat, stamps)
                &&& start@ == Baseline::empty(
                    path_view(root@),
                    started_at,
                    views(warnings@),
                ).after_files(path_views(files@), stamps)
            },
{
    let ghost root_view = path_view(root@);
    let ghost all = path_views(files@);
    let ghost empty = Baseline::empty(root_view, started_at, views(warnings@));
    let ghost mut stamps: Seq<Option<FileStamp>> = seq![];
    let mut start = TaskEvidenceStart {
        root: copy_path(root),
        started_at,
        log_lengths: PathMap::new(),
        existing_images: PathMap::new(),
        warnings,
    };
    assert(start@ =~= empty);
    assert(all.take(0) =~= seq![]);
    let mut index: usize = 0;
    while index < files.len()
        invariant
            index <= files@.len(),
            all == path_views(files@),
            root_view == path_view(root@),
            stamps.len() == index,
            start@ == empty.after_files(all.take(index as int), stamps),
            start@.root == root_view,
            start.started_at == started_at,
            forall|path: &Vec<PathComponent>| call_requires(stat, (path,)),
            forall|i: int|
                0 <= i < index && is_relevant(root_view, all[i]) ==> #[trigger] stat_gave(
                    stat,
                    all[i],
                    stamps[i],
                ),
        decreases files@.len() - index,
    {
        let ghost before = start@;
        let ghost earlier = stamps;
        let ghost mut answer: Option<FileStamp> = None;
        let path = &files[index];
        assert(all[index as int] == path_view(path@));
        if let Some(relative) = safe_relative_path(root, path.as_slice()) {
            let image = is_on_error_image(relative);
            if image || is_log_file(relative) {
                let stamp = stat(path);
                proof {
                    answer = stamp;
                    assert(call_ensures(stat, (path,), stamp));
                    assert(stat_gave(stat, all[index as int], stamp));
                }
                if let Some(stamp) = stamp {
                    if image {
                        let younger = match stamp.modified {
                            Some(modified) => !modified.before(started_at),
                            None => false,
                        };
                        if !younger {
                            start.existing_images.insert(copy_path(relative), stamp);
                        }
                    } else {
                        start.log_lengths.insert(copy_path(relative), stamp.len);
                    }
                }
            }
        }
        proof {
            stamps = stamps.push(answer);
            assert(start@ =~= before.after_file(all[index as int], answer));
            assert(all.take(index + 1).drop_last() =~= all.take(index as int));
            assert(stamps.drop_last() =~= earlier);
            assert forall|i: int| 0 <= i < index + 1 && is_relevant(root_view, all[i]) implies
                #[trigger] stat_gave(stat, all[i], stamps[i]) by {
                if i < index {
                    assert(stat_gave(stat, all[i], earlier[i]));
                }
            }
        }
        index += 1;
    }
    assert(all.take(index as int) =~= all);
    assert(are_stamps(root_view, all, stat, stamps));
    start
}

/// `start` is the baseline of a task, given what a walk found and the states that `stat` gave.
pub open spec fn is_baseline<F: Fn(&Vec<PathComponent>) -> Option<FileStamp>>(
    start: Baseline,
    root: Seq<ComponentView>,
    started_at: Timestamp,
    walk: Walk,
    stat: F,
    stamps: Seq<Option<FileStamp>>,
) -> bool {
    &&& are_stamps(root, walk.files, stat, stamps)
    &&& start == Baseline::empty(root, started_at, walk.warnings).after_files(walk.files, stamps)
}

/// Takes the baseline of a task.
///
/// `started_at` is read before the walk, so that a screenshot written meanwhile is not taken for
/// an old one. `list` lists a directory and `stat` reads the state of a file.
pub fn capture_task_start<
    L: Fn(&Vec<PathComponent>, usize) -> Option<Vec<Listed>>,
    F: Fn(&Vec<PathComponent>) -> Option<FileStamp>,
>(root: &[PathComponent], started_at: Timestamp, is_dir: bool, list: L, stat: F) -> (start:
    TaskEvidenceStart)
    requires
        forall|dir: &Vec<PathComponent>, room: usize| call_requires(list, (dir, room)),
        forall|path: &Vec<PathComponent>| call_requires(stat, (path,)),
    ensures
        exists|listings: Seq<Option<Vec<Listed>>>, stamps: Seq<Option<FileStamp>>|
            {
                &&& #[trigger] is_whole_walk(path_view(root@), is_dir, list, listings)
                &&& #[trigger] is_baseline(
                    start@,
                    path_view(root@),
                    started_at,
                    Walk::after(path_view(root@), is_dir, listing_views(listings)),
                    stat,
                    stamps,
                )
            },
{
    let (files, warnings) = discover_files(root, is_dir, list);
    let start = record_baseline(root, started_at, &files, warnings, stat);
    proof {
        let listings = choose|listings: Seq<Option<Vec<Listed>>>|
            is_walk_of(path_view(root@), is_dir, list, listings, files@, warnings@);
        let stamps = choose|stamps: Seq<Option<FileStamp>>|
            #[trigger] are_stamps(path_view(root@), path_views(files@), stat, stamps) && start@
                == Baseline::empty(path_view(root@), started_at, views(warnings@)).after_files(
                path_views(files@),
                stamps,
            );
        let walk = Walk::after(path_view(root@), is_dir, listing_views(listings));
        assert(is_baseline(start@, path_view(root@), started_at, walk, stat, stamps));
    }
    start
}

/// A file that was opened when a task ended.
#[derive(Debug)]
pub enum Opened<H> {
    /// The open file, its path for messages, and its state.
    File { source: H, display: String, stamp: FileStamp },
    /// It could not be opened, for the reason given.
    Unopenable(String),
    /// It was opened, but its state could not be read, for the reason given.
    NoMetadata(String),
}

/// The range of a log that is read for a failed task.
#[derive(Debug)]
pub struct LogSlice<H> {
    pub source: H,
    pub archive_name: String,
    pub start: u64,
    pub end: u64,
}

/// The content of a log range.
#[verifier::ext_equal]
pub struct LogPick<H> {
    pub source: H,
    pub archive_name: Seq<char>,
    pub start: u64,
    pub end: u64,
}

impl<H> View for LogSlice<H> {
    type V = LogPick<H>;

    open spec fn view(&self) -> LogPick<H> {
        LogPick {
            source: self.source,
            archive_name: self.archive_name@,
            start: self.start,
            end: self.end,
        }
    }
}

/// A screenshot that goes with a failed task.
#[derive(Debug)]
pub struct ImageEntry<H> {
    pub source: H,
    pub source_path: String,
    pub archive_name: String,
    pub len: u64,
    pub stamp: FileStamp,
}

/// The content of a screenshot entry.
#[verifier::ext_equal]
pub struct ImagePick<H> {
    pub source: H,
    pub source_path: Seq<char>,
    pub archive_name: Seq<char>,
    pub len: u64,
    pub stamp: FileStamp,
}

impl<H> View for ImageEntry<H> {
    type V = ImagePick<H>;

    open spec fn view(&self) -> ImagePick<H> {
        ImagePick {
            source: self.source,
            source_path: self.source_path@,
            archive_name: self.archive_name@,
            len: self.len,
            stamp: self.stamp,
        }
    }
}

pub open spec fn log_views<H>(logs: Seq<LogSlice<H>>) -> Seq<LogPick<H>> {
    logs.map_values(|log: LogSlice<H>| log@)
}

pub open spec fn image_views<H>(images: Seq<ImageEntry<H>>) -> Seq<ImagePick<H>> {
    images.map_values(|image: ImageEntry<H>| image@)
}

/// The order of logs by name.
pub open spec fn log_name_order<H>() -> spec_fn(LogPick<H>, LogPick<H>) -> bool {
    |left: LogPick<H>, right: LogPick<H>| text_le(left.archive_name, right.archive_name)
}

/// The order of screenshots by name.
pub open spec fn image_name_order<H>() -> spec_fn(ImagePick<H>, ImagePick<H>) -> bool {
    |left: ImagePick<H>, right: ImagePick<H>| text_le(left.archive_name, right.archive_name)
}

/// The warning that not all screenshots were selected.
pub open spec fn image_limit_warning() -> Seq<char> {
    "image_file_limit_reached:"@ + decimal(MAX_IMAGE_FILES as nat)
}

/// The warning that not all logs were selected.
pub open spec fn log_limit_warning() -> Seq<char> {
    "log_file_limit_reached:"@ + decimal(MAX_LOG_FILES as nat)
}

/// `value` less `amount`, but not below zero.
pub open spec fn less(value: u64, amount: u64) -> u64 {
    if value >= amount {
        (value - amount) as u64
    } else {
        0
    }
}

/// A screenshot is a task's own when it was written since the task started, in a generation that
/// was not there before.
pub open spec fn includes_image(
    relative: Seq<ComponentView>,
    stamp: FileStamp,
    started_at: Timestamp,
    existing: Map<Seq<ComponentView>, FileStamp>,
) -> bool {
    &&& is_modified_since(stamp, started_at)
    &&& existing.dom().contains(relative) ==> existing[relative] != stamp
}

/// Where the part of a log that belongs to a task begins, and the warning that goes with it.
///
/// `previous` is the length of the log when the task started. `None` says that nothing of the log
/// belongs to the task.
pub open spec fn log_part(previous: Option<u64>, stamp: FileStamp, started_at: Timestamp) -> Option<
    (u64, Option<Seq<char>>),
> {
    let touched = is_modified_since(stamp, started_at) && stamp.len > 0;
    match previous {
        None => if touched {
            Some((0, Some("new_log_included_whole:"@)))
        } else {
            None
        },
        Some(length) => if stamp.len > length {
            Some((less(length, LOG_PRELUDE_BYTES), None))
        } else if touched && stamp.len == length {
            Some((less(stamp.len, LOG_PRELUDE_BYTES), Some("log_changed_during_start_snapshot:"@)))
        } else if touched {
            Some((0, Some("rotated_log_included_whole:"@)))
        } else {
            None
        },
    }
}

/// The files selected so far.
#[verifier::ext_equal]
pub struct Picks<H> {
    pub logs: Seq<LogPick<H>>,
    pub images: Seq<ImagePick<H>>,
    pub warnings: Seq<Seq<char>>,
}

impl<H> Picks<H> {
    pub open spec fn warn(self, warning: Seq<char>) -> Picks<H> {
        Picks { warnings: with_warning(self.warnings, warning), ..self }
    }

    /// The selection after one more file was opened.
    pub open spec fn after_file(
        self,
        start: Baseline,
        file: Seq<ComponentView>,
        opened: Opened<H>,
    ) -> Picks<H> {
        let relative = file.skip(start.root.len() as int);
        let previous = if start.log_lengths.dom().contains(relative) {
            Some(start.log_lengths[relative])
        } else {
            None
        };
        if !lies_under(start.root, file) {
            self
        } else {
            match (archive_path(relative), opened) {
                (Some(name), Opened::File { source, display, stamp }) => {
                    if is_image_path(relative) {
                        if self.images.len() >= MAX_IMAGE_FILES {
                            self.warn(image_limit_warning())
                        } else if includes_image(
                            relative,
                            stamp,
                            start.started_at,
                            start.existing_images,
                        ) {
                            Picks {
                                images: self.images.push(
                                    ImagePick {
                                        source,
                                        source_path: display@,
                                        archive_name: name,
                                        len: stamp.len,
                                        stamp,
                                    },
                                ),
                                ..self
                            }
                        } else {
                            self
                        }
                    } else if !is_log_path(relative) {
                        self
                    } else if self.logs.len() >= MAX_LOG_FILES {
                        self.warn(log_limit_warning())
                    } else {
                        match log_part(previous, stamp, start.started_at) {
                            None => self,
                            Some((from, warning)) => Picks {
                                logs: self.logs.push(
                                    LogPick {
                                        source,
                                        archive_name: name,
                                        start: from,
                                        end: stamp.len,
                                    },
                                ),
                                warnings: match warning {
                                    Some(prefix) => self.warnings.push(prefix + name),
                                    None => self.warnings,
                                },
                                ..self
                            },
                        }
                    }
                },
                _ => self,
            }
        }
    }

    /// The selection after the given files were opened.
    pub open spec fn after_files(
        self,
        start: Baseline,
        files: Seq<Seq<ComponentView>>,
        opened: Seq<Opened<H>>,
    ) -> Picks<H>
        decreases files.len(),
    {
        if files.len() == 0 {
            self
        } else {
            self.after_files(start, files.drop_last(), opened.drop_last()).after_file(
                start,
                files.last(),
                opened.last(),
            )
        }
    }

    /// The selection in its final order.
    pub open spec fn in_order(self) -> Picks<H> {
        Picks {
            logs: sorted_by(self.logs, log_name_order()),
            images: sorted_by(self.images, image_name_order()),
            warnings: ordered_set(self.warnings),
        }
    }
}

/// A file that is opened when a task ends.
pub open spec fn is_candidate(root: Seq<ComponentView>, file: Seq<ComponentView>) -> bool {
    lies_under(root, file) && archive_path(file.skip(root.len() as int)) is Some
}

/// `open` gave `opened` for the file `file`.
pub open spec fn open_gave<H, F: Fn(&Vec<PathComponent>) -> Opened<H>>(
    open: F,
    file: Seq<ComponentView>,
    opened: Opened<H>,
) -> bool {
    exists|path: Vec<PathComponent>|
        path_view(path@) == file && #[trigger] call_ensures(open, (&path,), opened)
}

/// `opened` is what `open` gave for those of `files` that can go into an archive.
pub open spec fn are_opened<H, F: Fn(&Vec<PathComponent>) -> Opened<H>>(
    root: Seq<ComponentView>,
    files: Seq<Seq<ComponentView>>,
    open: F,
    opened: Seq<Opened<H>>,
) -> bool {
    &&& opened.len() == files.len()
    &&& forall|i: int|
        0 <= i < files.len() && is_candidate(root, files[i]) ==> #[trigger] open_gave(
            open,
            files[i],
            opened[i],
        )
}

/// Whether a screenshot is the task's own.
pub fn should_include_image(
    relative: &[PathComponent],
    stamp: FileStamp,
    started_at: Timestamp,
    existing_images: &PathMap<FileStamp>,
) -> (included: bool)
    ensures
        included == includes_image(path_view(relative@), stamp, started_at, existing_images@),
{
    if !modified_since(stamp, started_at) {
        return false;
    }
    match existing_images.get(relative) {
        Some(previous) => *previous != stamp,
        None => true,
    }
}

/// What of a log belongs to a task.
#[derive(Clone, Copy, PartialEq, Eq, Structural, Debug)]
pub enum LogPart {
    Nothing,
    /// The log did not exist before.
    New,
    /// The log grew; the part to read begins at the given offset.
    Grown(u64),
    /// The log changed while the baseline was taken; the part to read begins at the given offset.
    Touched(u64),
    /// The log became shorter, so it was begun anew.
    Rotated,
}

impl LogPart {
    /// Where the part begins, and the warning that goes with it.
    pub open spec fn meaning(self) -> Option<(u64, Option<Seq<char>>)> {
        match self {
            LogPart::Nothing => None,
            LogPart::New => Some((0, Some("new_log_included_whole:"@))),
            LogPart::Grown(start) => Some((start, None)),
            LogPart::Touched(start) => Some((start, Some("log_changed_during_start_snapshot:"@))),
            LogPart::Rotated => Some((0, Some("rotated_log_included_whole:"@))),
        }
    }
}

/// Decides what of a log belongs to a task that started when the log had the length `previous`.
pub fn select_log_part(previous: Option<u64>, stamp: FileStamp, started_at: Timestamp) -> (part:
    LogPart)
    ensures
        part.meaning() == log_part(previous, stamp, started_at),
{
    let end: u64 = stamp.len;
    match previous {
        None => if !modified_since(stamp, started_at) || end == 0 {
            LogPart::Nothing
        } else {
            LogPart::New
        },
        Some(length) => if end > length {
            LogPart::Grown(length.saturating_sub(LOG_PRELUDE_BYTES))
        } else if end == length && end > 0 && modified_since(stamp, started_at) {
            LogPart::Touched(end.saturating_sub(LOG_PRELUDE_BYTES))
        } else if end < length && modified_since(stamp, started_at) && end > 0 {
            LogPart::Rotated
        } else {
            LogPart::Nothing
        },
    }
}

/// The files selected so far.
#[derive(Debug)]
pub struct SelectedEntries<H> {
    pub logs: Vec<LogSlice<H>>,
    pub images: Vec<ImageEntry<H>>,
    pub warnings: Vec<String>,
}

impl<H> View for SelectedEntries<H> {
    type V = Picks<H>;

    open spec fn view(&self) -> Picks<H> {
        Picks {
            logs: log_views(self.logs@),
            images: image_views(self.images@),
            warnings: views(self.warnings@),
        }
    }
}

pub(crate) fn push_text(texts: &mut Vec<String>, text: String)
    ensures
        views(final(texts)@) == views(old(texts)@).push(text@),
{
    let ghost before = texts@;
    texts.push(text);
    assert(views(texts@) =~= views(before).push(text@));
}

fn push_log<H>(logs: &mut Vec<LogSlice<H>>, log: LogSlice<H>)
    ensures
        log_views(final(logs)@) == log_views(old(logs)@).push(log@),
{
    let ghost before = logs@;
    logs.push(log);
    assert(log_views(logs@) =~= log_views(before).push(log@));
}

pub(crate) fn push_image<H>(images: &mut Vec<ImageEntry<H>>, image: ImageEntry<H>)
    ensures
        image_views(final(images)@) == image_views(old(images)@).push(image@),
{
    let ghost before = images@;
    images.push(image);
    assert(image_views(images@) =~= image_views(before).push(image@));
}

/// Adds a file that was opened at the end of a task to the selection, if it belongs there.
///
/// `relative` is the path of the file below the root, and `archive_name` its name in an archive.
fn select_file<H>(
    start: &TaskEvidenceStart,
    selected: &mut SelectedEntries<H>,
    relative: &[PathComponent],
    archive_name: String,
    opened: Opened<H>,
    Ghost(file): Ghost<Seq<ComponentView>>,
)
    requires
        lies_under(start@.root, file),
        path_view(relative@) == file.skip(start@.root.len() as int),
        archive_path(path_view(relative@)) == Some(archive_name@),
    ensures
        final(selected)@ == old(selected)@.after_file(start@, file, opened),
{
    match opened {
        Opened::File { source, display, stamp } => {
            if is_on_error_image(relative) {
                if selected.images.len() >= MAX_IMAGE_FILES {
                    let warning = concat(
                        "image_file_limit_reached:",
                        format_u64(MAX_IMAGE_FILES as u64).as_str(),
                    );
                    push_warning(&mut selected.warnings, warning.as_str());
                    return;
                }
                if should_include_image(
                    relative,
                    stamp,
                    start.started_at,
                    &start.existing_images,
                ) {
                    push_image(
                        &mut selected.images,
                        ImageEntry {
                            source,
                            source_path: display,
                            archive_name,
                            len: stamp.len,
                            stamp,
                        },
                    );
                }
                return;
            }
            if !is_log_file(relative) {
                return;
            }
            if selected.logs.len() >= MAX_LOG_FILES {
                let warning = concat(
                    "log_file_limit_reached:",
                    format_u64(MAX_LOG_FILES as u64).as_str(),
                );
                push_warning(&mut selected.warnings, warning.as_str());
                return;
            }
            let previous: Option<u64> = match start.log_lengths.get(relative) {
                Some(length) => Some(*length),
                None => None,
            };
            let from: u64 = match select_log_part(previous, stamp, start.started_at) {
                LogPart::Nothing => {
                    return;
                },
                LogPart::New => {
                    push_text(
                        &mut selected.warnings,
                        concat("new_log_included_whole:", archive_name.as_str()),
                    );
                    0
                },
                LogPart::Grown(from) => from,
                LogPart::Touched(from) => {
                    push_text(
                        &mut selected.warnings,
                        concat("log_changed_during_start_snapshot:", archive_name.as_str()),
                    );
                    from
                },
                LogPart::Rotated => {
                    push_text(
                        &mut selected.warnings,
                        concat("rotated_log_included_whole:", archive_name.as_str()),
                    );
                    0
                },
            };
            push_log(
                &mut selected.logs,
                LogSlice { source, archive_name, start: from, end: stamp.len },
            );
        },
        _ => {},
    }
}

/// Sorts logs by name.
fn sort_logs<H>(logs: Vec<LogSlice<H>>) -> (sorted: Vec<LogSlice<H>>)
    ensures
        log_views(sorted@) == sorted_by(log_views(logs@), log_name_order()),
{
    let ghost order = |a: LogSlice<H>, b: LogSlice<H>| text_le(a.archive_name@, b.archive_name@);
    let le = |a: &LogSlice<H>, b: &LogSlice<H>| -> (answer: bool)
        ensures
            answer == text_le(a.archive_name@, b.archive_name@),
        { at_most(a.archive_name.as_str(), b.archive_name.as_str()) };
    proof {
        lemma_sorted_mapped(logs@, |log: LogSlice<H>| log@, order, log_name_order());
    }
    stable_sort(logs, le, Ghost(order))
}

/// Sorts screenshots by name.
pub(crate) fn sort_images<H>(images: Vec<ImageEntry<H>>) -> (sorted: Vec<ImageEntry<H>>)
    ensures
        image_views(sorted@) == sorted_by(image_views(images@), image_name_order()),
{
    let ghost order = |a: ImageEntry<H>, b: ImageEntry<H>|
        text_le(a.archive_name@, b.archive_name@);
    let le = |a: &ImageEntry<H>, b: &ImageEntry<H>| -> (answer: bool)
        ensures
            answer == text_le(a.archive_name@, b.archive_name@),
        { at_most(a.archive_name.as_str(), b.archive_name.as_str()) };
    proof {
        lemma_sorted_mapped(images@, |image: ImageEntry<H>| image@, order, image_name_order());
    }
    stable_sort(images, le, Ghost(order))
}

/// Copies a list of texts.
pub fn copy_texts(texts: &Vec<String>) -> (copy: Vec<String>)
    ensures
        views(copy@) == views(texts@),
{
    let copy = texts.clone();
    assert(views(copy@) =~= views(texts@));
    copy
}

/// Appends the texts of one list to another.
pub fn append_texts(texts: &mut Vec<String>, more: Vec<String>)
    ensures
        views(final(texts)@) == views(old(texts)@) + views(more@),
{
    let ghost before = texts@;
    let mut more = more;
    let ghost added = more@;
    texts.append(&mut more);
    assert(views(texts@) =~= views(before) + views(added));
}

/// Selects the logs and screenshots of a task from `files`, what lies below its root at its end.
///
/// `open` opens a file once and for all, so that what is selected stays the same file even if its
/// path is given to another one.
pub fn select_from_files<H, F: Fn(&Vec<PathComponent>) -> Opened<H>>(
    start: &TaskEvidenceStart,
    files: &Vec<Vec<PathComponent>>,
    discovery_warnings: Vec<String>,
    open: F,
) -> (selected: SelectedEntries<H>)
    requires
        forall|path: &Vec<PathComponent>| call_requires(open, (path,)),
    ensures
        exists|opened: Seq<Opened<H>>|
            {
                &&& #[trigger] are_opened(start@.root, path_views(files@), open, opened)
                &&& selected@ == (Picks {
                    logs: seq![],
                    images: seq![],
                    warnings: start@.warnings + views(discovery_warnings@),
                }).after_files(start@, path_views(files@), opened).in_order()
            },
{
    let ghost all = path_views(files@);
    let ghost mut opened: Seq<Opened<H>> = seq![];
    let mut warnings = copy_texts(&start.warnings);
    append_texts(&mut warnings, discovery_warnings);
    let mut selected: SelectedEntries<H> = SelectedEntries {
        logs: Vec::new(),
        images: Vec::new(),
        warnings,
    };
    let ghost empty = Picks::<H> {
        logs: seq![],
        images: seq![],
        warnings: start@.warnings + views(discovery_warnings@),
    };
    assert(selected@ =~= empty);
    assert(all.take(0) =~= seq![]);
    let mut index: usize = 0;
    while index < files.len()
        invariant
            index <= files@.len(),
            all == path_views(files@),
            opened.len() == index,
            selected@ == empty.after_files(start@, all.take(index as int), opened),
            forall|path: &Vec<PathComponent>| call_requires(open, (path,)),
            forall|i: int|
                0 <= i < index && is_candidate(start@.root, all[i]) ==> #[trigger] open_gave(
                    open,
                    all[i],
                    opened[i],
                ),
        decreases files@.len() - index,
    {
        let ghost before = selected@;
        let ghost earlier = opened;
        let ghost mut answer: Opened<H> = Opened::Unopenable(arbitrary());
        let path = &files[index];
        assert(all[index as int] == path_view(path@));
        if let Some(relative) = safe_relative_path(start.root.as_slice(), path.as_slice()) {
            if let Some(archive_name) = normalize_archive_path(relative) {
                let file = open(path);
                proof {
                    answer = file;
                    assert(call_ensures(open, (path,), file));
                    assert(open_gave(open, all[index as int], file));
                }
                select_file(
                    start,
                    &mut selected,
                    relative,
                    archive_name,
                    file,
                    Ghost(all[index as int]),
                );
            }
        }
        proof {
            opened = opened.push(answer);
            assert(selected@ == before.after_file(start@, all[index as int], answer));
            assert(all.take(index + 1).drop_last() =~= all.take(index as int));
            assert(opened.drop_last() =~= earlier);
            assert forall|i: int| 0 <= i < index + 1 && is_candidate(start@.root, all[i]) implies
                #[trigger] open_gave(open, all[i], opened[i]) by {
                if i < index {
                    assert(open_gave(open, all[i], earlier[i]));
                }
            }
        }
        index += 1;
    }
    assert(all.take(index as int) =~= all);
    assert(are_opened(start@.root, all, open, opened));
    let SelectedEntries { logs, images, warnings } = selected;
    let sorted = SelectedEntries {
        logs: sort_logs(logs),
        images: sort_images(images),
        warnings: sort_and_dedup(warnings),
    };
    assert(sorted@ =~= selected@.in_order());
    sorted
}

/// Two openings came to the same.
pub open spec fn same_opened<H>(first: Opened<H>, second: Opened<H>) -> bool {
    match (first, second) {
        (
            Opened::File { source, display, stamp },
            Opened::File { source: other, display: shown, stamp: state },
        ) => source == other && display@ == shown@ && stamp == state,
        (Opened::Unopenable(error), Opened::Unopenable(other)) => error@ == other@,
        (Opened::NoMetadata(error), Opened::NoMetadata(other)) => error@ == other@,
        _ => false,
    }
}

/// `open` always gives the same for the same file.
pub open spec fn opens_alike<H, F: Fn(&Vec<PathComponent>) -> Opened<H>>(open: F) -> bool {
    forall|
        path: &Vec<PathComponent>,
        same: &Vec<PathComponent>,
        first: Opened<H>,
        second: Opened<H>,
    |
        path_view(path@) == path_view(same@) && #[trigger] call_ensures(open, (path,), first)
            && #[trigger] call_ensures(open, (same,), second) ==> same_opened(first, second)
}

/// The same files, opened in the same state, are picked in the same way.
pub(crate) proof fn lemma_same_picks<H, F: Fn(&Vec<PathComponent>) -> Opened<H>>(
    picks: Picks<H>,
    start: Baseline,
    files: Seq<Seq<ComponentView>>,
    open: F,
    first: Seq<Opened<H>>,
    second: Seq<Opened<H>>,
)
    requires
        opens_alike::<H, F>(open),
        are_opened(start.root, files, open, first),
        are_opened(start.root, files, open, second),
    ensures
        picks.after_files(start, files, first) == picks.after_files(start, files, second),
    decreases files.len(),
{
    if files.len() > 0 {
        let last = files.len() - 1;
        let front = files.drop_last();
        assert forall|i: int| 0 <= i < front.len() && is_candidate(start.root, front[i]) implies
            #[trigger] open_gave(open, front[i], first.drop_last()[i]) by {
            assert(open_gave(open, files[i], first[i]));
        }
        assert forall|i: int| 0 <= i < front.len() && is_candidate(start.root, front[i]) implies
            #[trigger] open_gave(open, front[i], second.drop_last()[i]) by {
            assert(open_gave(open, files[i], second[i]));
        }
        lemma_same_picks(picks, start, front, open, first.drop_last(), second.drop_last());
        if is_candidate(start.root, files[last]) {
            assert(open_gave(open, files[last], first[last]));
            assert(open_gave(open, files[last], second[last]));
            assert(same_opened(first[last], second[last]));
        }
    }
}

} // verus!
