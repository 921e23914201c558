use mxu_telemetry::bundle::{
    build_image_bundle, ImageBundle, ImageBundleError, MAX_IMAGE_BUNDLE_BYTES, MAX_IMAGE_RAW_BYTES,
};
use mxu_telemetry::discovery::{discover_files, Listed, MAX_DISCOVERY_DEPTH, MAX_DISCOVERY_ENTRIES};
use mxu_telemetry::evidence::{
    capture_task_start, select_log_part, ImageEntry, LogPart, Opened, PathMap, TaskEvidenceStart,
    LOG_PRELUDE_BYTES, MAX_IMAGE_FILES,
};
use mxu_telemetry::logs::{
    build_diagnostic_logs, DiagnosticLogs, MAX_LOG_FILE_BYTES, MAX_LOG_RAW_BYTES,
};
use mxu_telemetry::path::{OsName, PathComponent};
use mxu_telemetry::selection::{
    apply_task_image_refresh, capture_task_end, capture_task_image_refresh, TaskEvidenceSelection,
    TaskImageRefresh,
};
use mxu_telemetry::time::{FileStamp, Timestamp};
use std::cell::RefCell;
use std::collections::{BTreeMap, BTreeSet};
use std::io::{Cursor, Read};
use std::rc::Rc;

/// The content of a file, which outlives the path that it was found under.
type Body = Rc<RefCell<Vec<u8>>>;

/// A directory tree in memory; paths are relative to its root.
struct Tree {
    files: BTreeMap<String, (Body, Timestamp)>,
    dirs: BTreeSet<String>,
    now: i64,
}

const ROOT: &str = "debug";

fn at(secs: i64) -> Timestamp {
    Timestamp { secs, nanos: 0 }
}

fn root() -> Vec<PathComponent> {
    vec![PathComponent::RootDir, PathComponent::Normal(OsName::Text(ROOT.to_string()))]
}

fn below_root(path: &[PathComponent]) -> String {
    let names: Vec<String> = path[2..]
        .iter()
        .map(|component| match component {
            PathComponent::Normal(OsName::Text(name)) => name.clone(),
            _ => panic!("unexpected component"),
        })
        .collect();
    names.join("/")
}

impl Tree {
    fn new() -> Tree {
        let mut tree = Tree { files: BTreeMap::new(), dirs: BTreeSet::new(), now: 1_000 };
        tree.create_dir("on_error");
        tree
    }

    fn create_dir(&mut self, path: &str) {
        let mut whole = String::new();
        for name in path.split('/') {
            if !whole.is_empty() {
                whole.push('/');
            }
            whole.push_str(name);
            self.dirs.insert(whole.clone());
        }
    }

    fn write(&mut self, path: &str, body: &[u8]) {
        self.files.insert(
            path.to_string(),
            (Rc::new(RefCell::new(body.to_vec())), at(self.now)),
        );
    }

    fn append(&mut self, path: &str, body: &[u8]) {
        let now = self.now;
        let entry = self.files.get_mut(path).expect("existing file");
        entry.0.borrow_mut().extend_from_slice(body);
        entry.1 = at(now);
    }

    fn rename(&mut self, from: &str, to: &str) {
        let entry = self.files.remove(from).expect("existing file");
        self.files.insert(to.to_string(), entry);
    }

    fn list(&self, dir: &Vec<PathComponent>, room: usize) -> Option<Vec<Listed>> {
        let dir = below_root(dir);
        let prefix = if dir.is_empty() { String::new() } else { format!("{dir}/") };
        let child = |path: &String| {
            path.strip_prefix(&prefix)
                .filter(|rest| !rest.is_empty() && !rest.contains('/'))
                .map(str::to_string)
        };
        let dirs = self.dirs.iter().filter_map(child);
        let files = self.files.keys().filter_map(child);
        Some(
            dirs.map(|name| Listed::Directory(OsName::Text(name)))
                .chain(files.map(|name| Listed::File(OsName::Text(name))))
                .take(room + 1)
                .collect(),
        )
    }

    fn stamp(&self, path: &Vec<PathComponent>) -> Option<FileStamp> {
        self.files.get(&below_root(path)).map(|(body, modified)| FileStamp {
            len: body.borrow().len() as u64,
            modified: Some(*modified),
        })
    }

    fn open(&self, path: &Vec<PathComponent>) -> Opened<Body> {
        let name = below_root(path);
        match self.files.get(&name) {
            None => Opened::Unopenable("not found".to_string()),
            Some((body, modified)) => Opened::File {
                source: body.clone(),
                display: format!("/{ROOT}/{name}"),
                stamp: FileStamp { len: body.borrow().len() as u64, modified: Some(*modified) },
            },
        }
    }

    fn start(&mut self) -> TaskEvidenceStart {
        self.now += 60;
        let start = capture_task_start(
            &root(),
            at(self.now),
            true,
            |dir: &Vec<PathComponent>, room: usize| self.list(dir, room),
            |path: &Vec<PathComponent>| self.stamp(path),
        );
        self.now += 60;
        start
    }

    fn end(&self, start: TaskEvidenceStart) -> TaskEvidenceSelection<Body> {
        capture_task_end(
            start,
            true,
            |dir: &Vec<PathComponent>, room: usize| self.list(dir, room),
            |path: &Vec<PathComponent>| self.open(path),
        )
    }

    fn refresh(&self, selection: &TaskEvidenceSelection<Body>) -> TaskImageRefresh<Body> {
        capture_task_image_refresh(
            selection,
            true,
            |dir: &Vec<PathComponent>, room: usize| self.list(dir, room),
            |path: &Vec<PathComponent>| self.open(path),
        )
    }
}

fn slice(body: &Body, start: u64, len: u64) -> Vec<u8> {
    let body = body.borrow();
    let from = (start as usize).min(body.len());
    let to = (from as u64).saturating_add(len).min(body.len() as u64) as usize;
    body[from..to].to_vec()
}

fn build_logs(selection: &mut TaskEvidenceSelection<Body>) -> DiagnosticLogs {
    build_diagnostic_logs(selection, |body: &Body, start: u64, len: u64| Ok(slice(body, start, len)))
}

fn bundle(
    selection: TaskEvidenceSelection<Body>,
    maa_task_id: i64,
) -> Result<ImageBundle, ImageBundleError> {
    build_image_bundle(selection, "run", maa_task_id, |body: &Body, len: u64| Ok(slice(body, 0, len)))
}

fn zip_entries(buffer: Vec<u8>) -> BTreeMap<String, Vec<u8>> {
    let mut archive = zip::ZipArchive::new(Cursor::new(buffer)).expect("open ZIP");
    let mut entries = BTreeMap::new();
    for index in 0..archive.len() {
        let mut entry = archive.by_index(index).expect("read ZIP entry");
        let mut body = Vec::new();
        entry.read_to_end(&mut body).expect("read ZIP body");
        entries.insert(entry.name().expect("entry name").to_string(), body);
    }
    entries
}

fn zip_compression_methods(buffer: &[u8]) -> Vec<zip::CompressionMethod> {
    let mut archive = zip::ZipArchive::new(Cursor::new(buffer)).expect("open ZIP");
    (0..archive.len())
        .map(|index| archive.by_index(index).expect("read ZIP entry").compression())
        .collect()
}

#[test]
fn bundles_only_appended_logs_and_new_on_error_images() {
    let mut tree = Tree::new();
    tree.write("maafw.log", b"old-log\n");
    tree.write("on_error/old.png", b"old-image");
    tree.create_dir("vision");
    tree.write("vision/ignored.png", b"vision");

    let start = tree.start();
    tree.append("maafw.log", b"task-log\n");
    tree.write("on_error/new.png", b"new-image");

    let mut selection = tree.end(start);
    tree.append("maafw.log", b"next-task-log\n");
    tree.write("on_error/next.png", b"next-image");
    let logs = build_logs(&mut selection);
    let bundle = bundle(selection, 42).expect("build image bundle");
    let compression_methods = zip_compression_methods(&bundle.buffer);
    assert!(bundle.buffer.len() <= MAX_IMAGE_BUNDLE_BYTES);
    let entries = zip_entries(bundle.buffer);
    assert_eq!(logs.entries.len(), 1);
    assert_eq!(bundle.image_count, 1);
    assert!(logs.entries[0].content.ends_with("task-log\n"));
    assert_eq!(entries["on_error/new.png"], b"new-image");
    assert_eq!(compression_methods, vec![zip::CompressionMethod::Stored]);
    assert!(!logs.entries[0].content.contains("next-task-log"));
    assert!(!entries.contains_key("maafw.log"));
    assert!(!entries.contains_key("on_error/old.png"));
    assert!(!entries.contains_key("on_error/next.png"));
    assert!(!entries.contains_key("vision/ignored.png"));
}

#[test]
fn includes_an_existing_screenshot_path_when_its_generation_changes() {
    let mut tree = Tree::new();
    tree.write("on_error/failure.png", b"old");

    let start = tree.start();
    tree.write("on_error/failure.png", b"new-image-generation");

    let selection = tree.end(start);
    let bundle = bundle(selection, 43).expect("build image bundle");
    let entries = zip_entries(bundle.buffer);
    assert_eq!(entries["on_error/failure.png"], b"new-image-generation");
}

#[test]
fn late_screenshot_refresh_can_be_applied_after_an_empty_terminal_snapshot() {
    let mut tree = Tree::new();
    let start = tree.start();
    let mut selection = tree.end(start);

    tree.write("on_error/late.png", b"late-image");
    let refresh = tree.refresh(&selection);
    apply_task_image_refresh(&mut selection, refresh);

    let bundle = bundle(selection, 44).expect("build image bundle");
    let entries = zip_entries(bundle.buffer);
    assert_eq!(entries["on_error/late.png"], b"late-image");
}

#[test]
fn includes_nested_agent_logs_but_not_config_or_dump_files() {
    let mut tree = Tree::new();
    tree.create_dir("cpp-algo/debug");
    tree.write("cpp-algo/debug/maafw.log", b"before\n");
    tree.write("config.json", b"config");
    tree.write("process.dmp", b"dump");

    let start = tree.start();
    tree.append("cpp-algo/debug/maafw.log", b"failure\n");

    let mut selection = tree.end(start);
    let logs = build_logs(&mut selection);
    assert_eq!(logs.entries.len(), 1);
    assert_eq!(logs.entries[0].source, "cpp-algo/debug/maafw.log");
    assert!(logs.entries[0].content.contains("failure"));
    assert!(matches!(bundle(selection, 7), Err(ImageBundleError::NoEvidence)));
}

#[test]
fn keeps_selected_file_generations_when_paths_are_replaced() {
    let mut tree = Tree::new();
    tree.write("maafw.log", b"before\n");

    let start = tree.start();
    tree.append("maafw.log", b"selected-failure\n");
    tree.write("on_error/failure.png", b"selected-image");

    let mut selection = tree.end(start);
    tree.rename("maafw.log", "maafw.log.1");
    tree.write("maafw.log", b"replacement-generation\n");
    tree.rename("on_error/failure.png", "on_error/failure-old.png");
    tree.write("on_error/failure.png", b"replacement-image");

    let logs = build_logs(&mut selection);
    let bundle = bundle(selection, 9).expect("build image bundle");
    let entries = zip_entries(bundle.buffer);
    assert!(logs.entries[0].content.contains("selected-failure"));
    assert!(!logs.entries[0].content.contains("replacement-generation"));
    assert!(!entries.contains_key("maafw.log"));
    assert_eq!(entries["on_error/failure.png"], b"selected-image");
}

#[test]
fn bounds_structured_logs_per_file_and_in_total() {
    let mut tree = Tree::new();
    tree.write("maafw.log", b"before\n");
    tree.write("agent.log", b"before\n");

    let start = tree.start();
    for path in ["maafw.log", "agent.log"] {
        tree.append(path, &vec![b'x'; 700 * 1024]);
    }

    let mut selection = tree.end(start);
    let logs = build_logs(&mut selection);
    assert_eq!(logs.entries.len(), 2);
    assert_eq!(logs.selected_raw_bytes, MAX_LOG_RAW_BYTES);
    assert!(logs.entries.iter().all(|entry| entry.raw_bytes <= MAX_LOG_FILE_BYTES));
    assert!(logs.truncated);
}

#[test]
fn retains_log_tail_written_during_the_start_snapshot() {
    let mut tree = Tree::new();
    tree.write("maafw.log", b"failure-before-snapshot-finished\n");
    let mut start = tree.start();
    // Model a snapshot whose wall-clock boundary preceded the write while its
    // recorded file length already included it.
    start.started_at = at(0);

    let mut selection = tree.end(start);
    let logs = build_logs(&mut selection);
    assert_eq!(logs.entries.len(), 1);
    assert!(logs.entries[0].content.contains("failure-before-snapshot-finished"));
    assert!(logs
        .warnings
        .iter()
        .any(|warning| warning.starts_with("log_changed_during_start_snapshot:")));
}

#[test]
fn rejects_oversized_screenshot_sets_before_bundling() {
    let mut tree = Tree::new();
    let start = tree.start();
    tree.write("on_error/oversized.png", &vec![0; MAX_IMAGE_RAW_BYTES as usize + 1]);

    let mut selection = tree.end(start);
    let logs = build_logs(&mut selection);
    assert!(logs.entries.is_empty());
    assert!(matches!(
        bundle(selection, 11),
        Err(ImageBundleError::TooLarge { selected_raw_bytes, bundle_bytes: None })
            if selected_raw_bytes == MAX_IMAGE_RAW_BYTES + 1
    ));
}

#[test]
fn rejects_zip_metadata_that_pushes_a_bundle_over_the_hard_limit() {
    let mut tree = Tree::new();
    let start = tree.start();
    tree.write("on_error/at-limit.png", &vec![0; MAX_IMAGE_RAW_BYTES as usize]);

    let selection = tree.end(start);
    assert!(matches!(
        bundle(selection, 12),
        Err(ImageBundleError::TooLarge { selected_raw_bytes, bundle_bytes: Some(bundle_bytes) })
            if selected_raw_bytes == MAX_IMAGE_RAW_BYTES && bundle_bytes > MAX_IMAGE_BUNDLE_BYTES
    ));
}

#[test]
fn reports_directory_depth_limit_as_diagnostic_warning() {
    let mut tree = Tree::new();
    let mut directory = String::new();
    for index in 0..=MAX_DISCOVERY_DEPTH {
        if !directory.is_empty() {
            directory.push('/');
        }
        directory.push_str(&format!("level-{index}"));
        tree.create_dir(&directory);
    }

    let start = tree.start();
    let mut selection = tree.end(start);
    let logs = build_logs(&mut selection);
    assert!(logs.entries.is_empty());
    assert!(logs.warnings.iter().any(|warning| {
        warning == &format!("discovery_depth_limit_reached:{MAX_DISCOVERY_DEPTH}")
    }));
}

#[test]
fn walk_stops_at_the_entry_limit() {
    let (files, warnings) = discover_files(&root(), true, |_: &Vec<PathComponent>, room: usize| {
        Some(
            (0..room + 1)
                .map(|index| Listed::File(OsName::Text(format!("{index}.log"))))
                .collect(),
        )
    });
    assert_eq!(files.len(), MAX_DISCOVERY_ENTRIES);
    assert_eq!(warnings, vec![format!("discovery_entry_limit_reached:{MAX_DISCOVERY_ENTRIES}")]);
}

#[test]
fn walk_reports_what_it_cannot_read() {
    let (files, warnings) = discover_files(&root(), true, |dir: &Vec<PathComponent>, _: usize| {
        if dir.len() > 2 {
            None
        } else {
            Some(vec![
                Listed::Unreadable,
                Listed::TypeUnknown,
                Listed::Symlink,
                Listed::Special,
                Listed::Directory(OsName::Text("closed".to_string())),
                Listed::File(OsName::Text("go.log".to_string())),
            ])
        }
    });
    assert_eq!(files.len(), 1);
    assert_eq!(below_root(&files[0]), "go.log");
    assert_eq!(
        warnings,
        vec![
            "discovery_read_entry_failed".to_string(),
            "discovery_file_type_failed".to_string(),
            "discovery_symlink_skipped".to_string(),
            "discovery_read_directory_failed".to_string(),
        ]
    );
}

#[test]
fn walk_without_warnings_finds_every_file_outside_vision() {
    let mut tree = Tree::new();
    let found = [
        "go.log",
        "on_error/a.png",
        "agents/one/deep/er/x.bin",
        "agents/vision/kept.txt",
        "agents/one/go.log",
        "vision",
    ];
    for path in found {
        if let Some((dir, _)) = path.rsplit_once('/') {
            tree.create_dir(dir);
        }
        tree.write(path, b"x");
    }
    tree.create_dir("Vision/inner");
    tree.write("Vision/left_out.png", b"x");
    tree.write("Vision/inner/left_out.png", b"x");
    let (files, warnings) =
        discover_files(&root(), true, |dir: &Vec<PathComponent>, room: usize| tree.list(dir, room));
    assert!(warnings.is_empty());
    let names: BTreeSet<String> = files.iter().map(|path| below_root(path)).collect();
    assert_eq!(names, found.iter().map(|path| path.to_string()).collect());
    assert_eq!(files.len(), found.len());
}

#[test]
fn walk_of_a_missing_root_finds_nothing() {
    let (files, warnings) =
        discover_files(&root(), false, |_: &Vec<PathComponent>, _: usize| None);
    assert!(files.is_empty());
    assert!(warnings.is_empty());
}

#[test]
fn log_parts_follow_the_recorded_length() {
    let changed = |len: u64| FileStamp { len, modified: Some(at(100)) };
    let started = at(100);
    assert_eq!(select_log_part(None, changed(7), started), LogPart::New);
    assert_eq!(select_log_part(None, changed(0), started), LogPart::Nothing);
    assert_eq!(select_log_part(None, changed(7), at(103)), LogPart::Nothing);
    assert_eq!(select_log_part(Some(90_000), changed(90_001), started), LogPart::Grown(90_000 - LOG_PRELUDE_BYTES));
    assert_eq!(select_log_part(Some(7), changed(9), at(103)), LogPart::Grown(0));
    assert_eq!(select_log_part(Some(90_000), changed(90_000), started), LogPart::Touched(90_000 - LOG_PRELUDE_BYTES));
    assert_eq!(select_log_part(Some(7), changed(3), started), LogPart::Rotated);
    assert_eq!(select_log_part(Some(7), changed(7), at(103)), LogPart::Nothing);
}

#[test]
fn undecodable_log_bytes_are_replaced() {
    let mut tree = Tree::new();
    let start = tree.start();
    tree.write("maafw.log", b"ok \xff\xfe end");
    let mut selection = tree.end(start);
    let logs = build_logs(&mut selection);
    assert_eq!(logs.entries[0].content, "ok \u{FFFD}\u{FFFD} end");
    assert_eq!(logs.entries[0].raw_bytes, 9);
    assert_eq!(logs.entries[0].kind, "maafw");
    assert!(!logs.truncated);
}

#[test]
fn unreadable_logs_become_warnings() {
    let mut tree = Tree::new();
    let start = tree.start();
    tree.write("maafw.log", b"text");
    let mut selection = tree.end(start);
    let logs = build_diagnostic_logs(&mut selection, |_: &Body, _: u64, _: u64| {
        Err("gone".to_string())
    });
    assert!(logs.entries.is_empty());
    assert_eq!(logs.warnings, vec!["new_log_included_whole:maafw.log".to_string(), "read_log_failed:maafw.log:gone".to_string()]);
}

#[test]
fn unreadable_images_end_the_bundle() {
    let mut tree = Tree::new();
    let start = tree.start();
    tree.write("on_error/a.png", b"image");
    let selection = tree.end(start);
    let outcome = build_image_bundle(selection, "run", 1, |_: &Body, _: u64| Err("gone".to_string()));
    assert!(matches!(
        outcome,
        Err(ImageBundleError::Io(message))
            if message == "write attachment [/debug/on_error/a.png]: gone"
    ));
}

#[test]
fn bundle_name_and_entries_follow_the_selection() {
    let mut tree = Tree::new();
    let start = tree.start();
    tree.write("on_error/a.png", b"first");
    tree.write("on_error/b.jpg", b"second");
    tree.write("on_error/c.txt", b"text");
    let selection = tree.end(start);
    let bundle = bundle(selection, 5).expect("build image bundle");
    assert_eq!(bundle.filename, "mxu-task-failure-run-5-screenshots.zip");
    assert_eq!(bundle.image_count, 2);
    assert_eq!(bundle.selected_raw_bytes, 11);
    let entries = zip_entries(bundle.buffer);
    assert_eq!(entries.len(), 2);
    assert_eq!(entries["on_error/a.png"], b"first");
    assert_eq!(entries["on_error/b.jpg"], b"second");
}

#[test]
fn bundle_errors_describe_themselves() {
    assert_eq!(ImageBundleError::NoEvidence.describe(), "no task-scoped evidence was found");
    assert_eq!(
        ImageBundleError::TooLarge { selected_raw_bytes: 7, bundle_bytes: None }.describe(),
        "task screenshot evidence is too large (raw=7, bundle=not-built)"
    );
    assert_eq!(
        ImageBundleError::TooLarge { selected_raw_bytes: 7, bundle_bytes: Some(9) }.describe(),
        "task screenshot evidence is too large (raw=7, bundle=9)"
    );
    assert_eq!(ImageBundleError::Io("disk".to_string()).describe(), "disk");
}

#[test]
fn refresh_adds_what_is_new_and_keeps_the_rest() {
    let mut tree = Tree::new();
    let start = tree.start();
    tree.write("on_error/a.png", b"first");
    let mut selection = tree.end(start);
    tree.write("on_error/b.png", b"second");
    let refresh = tree.refresh(&selection);
    apply_task_image_refresh(&mut selection, refresh);
    let names: Vec<String> =
        selection.images.iter().map(|image| image.archive_name.clone()).collect();
    assert_eq!(names, vec!["on_error/a.png".to_string(), "on_error/b.png".to_string()]);
}

#[test]
fn repeated_entry_names_end_the_bundle() {
    let image = || ImageEntry {
        source: Rc::new(RefCell::new(b"image".to_vec())),
        source_path: "/debug/on_error/a.png".to_string(),
        archive_name: "on_error/a.png".to_string(),
        len: 5,
        stamp: FileStamp { len: 5, modified: None },
    };
    let selection = TaskEvidenceSelection {
        logs: Vec::new(),
        images: vec![image(), image()],
        warnings: Vec::new(),
        image_root: root(),
        image_started_at: at(0),
        existing_images: PathMap::new(),
    };
    assert!(matches!(
        bundle(selection, 1),
        Err(ImageBundleError::Io(message)) if message.starts_with("start ZIP entry: ")
    ));
}

#[test]
fn bundle_length_is_that_of_its_parts() {
    let mut tree = Tree::new();
    let start = tree.start();
    tree.write("on_error/a.png", b"first");
    tree.write("on_error/界.png", b"");
    let selection = tree.end(start);
    let bundle = bundle(selection, 5).expect("build image bundle");
    let names = "on_error/a.png".len() + "on_error/界.png".len();
    assert_eq!(bundle.buffer.len(), 22 + 2 * (30 + 46) + 2 * names + 5);
    let entries = zip_entries(bundle.buffer);
    assert_eq!(entries["on_error/界.png"], b"");
}

#[test]
fn long_entry_names_are_refused() {
    let image = |length: usize| ImageEntry {
        source: Rc::new(RefCell::new(Vec::new())),
        source_path: String::new(),
        archive_name: "x".repeat(length),
        len: 0,
        stamp: FileStamp { len: 0, modified: None },
    };
    let selection = |length: usize| TaskEvidenceSelection {
        logs: Vec::new(),
        images: vec![image(length)],
        warnings: Vec::new(),
        image_root: root(),
        image_started_at: at(0),
        existing_images: PathMap::new(),
    };
    assert!(bundle(selection(65_504), 1).is_ok());
    assert!(matches!(bundle(selection(65_505), 1), Err(ImageBundleError::Io(_))));
}

#[test]
fn screenshots_of_a_refresh_stop_at_the_limit() {
    let mut tree = Tree::new();
    let start = tree.start();
    for index in 0..MAX_IMAGE_FILES + 1 {
        tree.write(&format!("on_error/{index}.png"), b"x");
    }
    let mut selection = tree.end(start);
    assert_eq!(selection.images.len(), MAX_IMAGE_FILES);
    let warning = format!("image_file_limit_reached:{MAX_IMAGE_FILES}");
    assert_eq!(selection.warnings, vec![warning.clone()]);
    let refresh = tree.refresh(&selection);
    assert_eq!(refresh.images.len(), MAX_IMAGE_FILES);
    assert_eq!(refresh.warnings, vec![warning.clone()]);
    apply_task_image_refresh(&mut selection, refresh);
    assert_eq!(selection.images.len(), MAX_IMAGE_FILES);
    assert_eq!(selection.warnings, vec![warning]);
}

#[test]
fn screenshots_that_cannot_be_opened_are_warned_of() {
    let mut tree = Tree::new();
    let start = tree.start();
    tree.write("on_error/a.png", b"x");
    tree.write("on_error/b.png", b"x");
    let selection = tree.end(start);
    let refresh: TaskImageRefresh<Body> = capture_task_image_refresh(
        &selection,
        true,
        |dir: &Vec<PathComponent>, room: usize| tree.list(dir, room),
        |path: &Vec<PathComponent>| {
            if below_root(path) == "on_error/a.png" {
                Opened::Unopenable("locked".to_string())
            } else {
                Opened::NoMetadata("gone".to_string())
            }
        },
    );
    assert!(refresh.images.is_empty());
    assert_eq!(
        refresh.warnings,
        vec![
            "open_image_failed:on_error/a.png:locked".to_string(),
            "read_image_metadata_failed:on_error/b.png:gone".to_string(),
        ]
    );
}

#[test]
fn blank_tail_still_tells_of_the_limit() {
    let mut tree = Tree::new();
    let start = tree.start();
    let mut body = vec![b'x'; 90_112];
    body.extend(vec![b' '; MAX_LOG_FILE_BYTES as usize]);
    tree.write("maafw.log", &body);
    let mut selection = tree.end(start);
    let logs = build_logs(&mut selection);
    assert!(logs.truncated);
    assert!(logs.entries.is_empty());
    assert_eq!(logs.selected_raw_bytes, 0);
}

#[test]
fn blank_log_that_was_read_whole_is_not_truncated() {
    let mut tree = Tree::new();
    let start = tree.start();
    tree.write("maafw.log", &vec![b' '; MAX_LOG_FILE_BYTES as usize]);
    let mut selection = tree.end(start);
    let logs = build_logs(&mut selection);
    assert!(!logs.truncated);
    assert!(logs.entries.is_empty());
}
