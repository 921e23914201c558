//! The screenshots of a failed task in one bounded ZIP file.

use vstd::prelude::*;
use vstd::utf8::encode_utf8;
use crate::evidence::{image_views, ImagePick};
use crate::selection::TaskEvidenceSelection;
use crate::text::{concat, decimal, format_i64, format_u64, signed_decimal};

verus! {

/// The screenshots together have no more bytes than this.
pub const MAX_IMAGE_RAW_BYTES: u64 = 5242880;

/// The ZIP file has no more bytes than this.
pub const MAX_IMAGE_BUNDLE_BYTES: usize = 5242880;

/// An entry has fewer bytes than this.
pub const ENTRY_LIMIT: u64 = 4294967295;

/// No more entries than this fit without the extensions for large files.
pub const ENTRY_COUNT_LIMIT: u64 = 65535;

/// A finished ZIP file with the screenshots of a task.
#[derive(Debug)]
pub struct ImageBundle {
    pub buffer: Vec<u8>,
    pub filename: String,
    pub image_count: usize,
    pub selected_raw_bytes: u64,
    pub warnings: Vec<String>,
}

/// Why there is no ZIP file.
#[derive(Debug)]
pub enum ImageBundleError {
    /// There is no screenshot.
    NoEvidence,
    /// The screenshots, or the ZIP file made of them, are too large.
    TooLarge { selected_raw_bytes: u64, bundle_bytes: Option<usize> },
    /// A screenshot could not be read, or the ZIP file not be written.
    Io(String),
}

impl ImageBundleError {
    /// What the error says.
    pub open spec fn description(self) -> Seq<char> {
        match self {
            ImageBundleError::NoEvidence => "no task-scoped evidence was found"@,
            ImageBundleError::TooLarge { selected_raw_bytes, bundle_bytes } => {
                "task screenshot evidence is too large (raw="@ + decimal(selected_raw_bytes as nat)
                    + ", bundle="@ + (match bundle_bytes {
                    Some(size) => decimal(size as nat),
                    None => "not-built"@,
                }) + ")"@
            },
            ImageBundleError::Io(message) => message@,
        }
    }

    /// What the error says.
    pub fn describe(&self) -> (text: String)
        ensures
            text@ == self.description(),
    {
        match self {
            ImageBundleError::NoEvidence => "no task-scoped evidence was found".to_owned(),
            ImageBundleError::TooLarge { selected_raw_bytes, bundle_bytes } => {
                let raw = format_u64(*selected_raw_bytes);
                let size = match bundle_bytes {
                    Some(size) => format_u64(*size as u64),
                    None => "not-built".to_owned(),
                };
                let text = concat("task screenshot evidence is too large (raw=", raw.as_str());
                let text = concat(text.as_str(), ", bundle=");
                let text = concat(text.as_str(), size.as_str());
                concat(text.as_str(), ")")
            },
            ImageBundleError::Io(message) => message.clone(),
        }
    }
}

/// A ZIP file while it is being written, in memory.
#[verifier::external_body]
pub struct Archive {
    writer: zip::ZipWriter<std::io::Cursor<Vec<u8>>>,
}

/// The names and contents of the entries of an archive, of which the last can be written to.
pub uninterp spec fn archive_entries(archive: Archive) -> Seq<(Seq<char>, Seq<u8>)>;

/// The names and contents of the entries that a finished ZIP file lists in its directory.
pub uninterp spec fn listed_entries(file: Seq<u8>) -> Seq<(Seq<char>, Seq<u8>)>;

/// What `ZipWriter::start_file` says of a name that it refuses, for an archive with the given
/// entries.
pub uninterp spec fn start_refusal(entries: Seq<(Seq<char>, Seq<u8>)>, name: Seq<char>) -> Seq<char>;

/// What `ZipWriter::finish` says where it fails on an archive with the given entries.
pub uninterp spec fn finish_refusal(entries: Seq<(Seq<char>, Seq<u8>)>) -> Seq<char>;

/// An entry has the given name.
pub open spec fn has_entry(entries: Seq<(Seq<char>, Seq<u8>)>, name: Seq<char>) -> bool {
    exists|i: int| 0 <= i < entries.len() && (#[trigger] entries[i]).0 == name
}

/// A name that an archive with the given entries accepts: a new one that leaves room for the header
/// of its entry.
pub open spec fn accepts_name(entries: Seq<(Seq<char>, Seq<u8>)>, name: Seq<char>) -> bool {
    !has_entry(entries, name) && 30 + encode_utf8(name).len() < 65535
}

/// The length of a ZIP file with the given entries, stored as they are: each has a header, its
/// content and a line in the directory, and the directory has an end.
pub open spec fn archive_len(entries: Seq<(Seq<char>, Seq<u8>)>) -> nat
    decreases entries.len(),
{
    if entries.len() == 0 {
        22
    } else {
        let (name, content) = entries.last();
        archive_len(entries.drop_last()) + 30 + encode_utf8(name).len() + content.len() + 46
            + encode_utf8(name).len()
    }
}

/// A ZIP file with the given entries needs none of the extensions for large files.
pub open spec fn is_small(entries: Seq<(Seq<char>, Seq<u8>)>) -> bool {
    entries.len() <= ENTRY_COUNT_LIMIT && archive_len(entries) < ENTRY_LIMIT
}

/// A ZIP file with the given entries can have the given length: that of its parts, or more where it
/// needs the extensions for large files.
pub open spec fn is_archive_of(len: nat, entries: Seq<(Seq<char>, Seq<u8>)>) -> bool {
    len >= archive_len(entries) && (is_small(entries) ==> len == archive_len(entries))
}

impl Archive {
    /// `ZipWriter::new` on an empty cursor begins an archive without entries.
    #[verifier::external_body]
    fn new() -> (archive: Archive)
        ensures
            archive_entries(archive) == Seq::<(Seq<char>, Seq<u8>)>::empty(),
    {
        Archive { writer: zip::ZipWriter::new(std::io::Cursor::new(Vec::new())) }
    }

    /// `ZipWriter::start_file`, with entries stored without compression, adds an empty entry. It
    /// refuses a name that an entry has already, and one that is too long for its header.
    #[verifier::external_body]
    fn start_file(self, name: &str) -> (outcome: Result<Archive, String>)
        ensures
            outcome is Ok <==> accepts_name(archive_entries(self), name@),
            outcome matches Ok(archive) ==> archive_entries(archive) == archive_entries(self).push(
                (name@, seq![]),
            ),
            outcome matches Err(message) ==> message@ == start_refusal(
                archive_entries(self),
                name@,
            ),
    {
        let mut writer = self.writer;
        let options = zip::write::SimpleFileOptions::default().compression_method(
            zip::CompressionMethod::Stored,
        );
        match writer.start_file(name, options) {
            Ok(()) => Ok(Archive { writer }),
            Err(error) => Err(format!("{error}")),
        }
    }

    /// `ZipWriter` as `std::io::Write`: `write_all` appends to the last entry. It does not fail as
    /// long as the entry needs no extensions for large files, since the file is in memory.
    #[verifier::external_body]
    fn write_all(&mut self, bytes: &[u8])
        requires
            archive_entries(*old(self)).len() > 0,
            archive_entries(*old(self)).last().1.len() + bytes@.len() < ENTRY_LIMIT,
        ensures
            archive_entries(*final(self)) == archive_entries(*old(self)).drop_last().push(
                (
                    archive_entries(*old(self)).last().0,
                    archive_entries(*old(self)).last().1 + bytes@,
                ),
            ),
    {
        std::io::Write::write_all(&mut self.writer, bytes).expect("an archive in memory")
    }

    /// `ZipWriter::finish` ends the archive and hands out the file, which lists the entries in their
    /// order. A file that needs no extensions for large files has the length of its parts, and
    /// every other one is longer.
    #[verifier::external_body]
    fn finish(self) -> (outcome: Result<Vec<u8>, String>)
        ensures
            is_small(archive_entries(self)) ==> outcome is Ok,
            outcome matches Ok(file) ==> {
                &&& listed_entries(file@) == archive_entries(self)
                &&& is_archive_of(file@.len(), archive_entries(self))
            },
            outcome matches Err(message) ==> message@ == finish_refusal(archive_entries(self)),
    {
        match self.writer.finish() {
            Ok(cursor) => Ok(cursor.into_inner()),
            Err(error) => Err(format!("{error}")),
        }
    }
}

/// How far the packing of screenshots has come.
pub enum Packing {
    /// The entries that were written.
    Entries(Seq<(Seq<char>, Seq<u8>)>),
    /// It ended with the given message.
    Failed(Seq<char>),
}

impl Packing {
    /// The packing after one more screenshot, of which the outcome of reading is given.
    pub open spec fn after_image<H>(
        self,
        image: ImagePick<H>,
        outcome: Result<Vec<u8>, String>,
    ) -> Packing {
        match self {
            Packing::Failed(_) => self,
            Packing::Entries(entries) => if !accepts_name(entries, image.archive_name) {
                Packing::Failed("start ZIP entry: "@ + start_refusal(entries, image.archive_name))
            } else {
                match outcome {
                    Ok(bytes) => Packing::Entries(entries.push((image.archive_name, bytes@))),
                    Err(error) => Packing::Failed(
                        "write attachment ["@ + image.source_path + "]: "@ + error@,
                    ),
                }
            },
        }
    }

    /// The packing after the given screenshots.
    pub open spec fn after_images<H>(
        images: Seq<ImagePick<H>>,
        outcomes: Seq<Result<Vec<u8>, String>>,
    ) -> Packing
        decreases images.len(),
    {
        if images.len() == 0 {
            Packing::Entries(seq![])
        } else {
            Packing::after_images(images.drop_last(), outcomes.drop_last()).after_image(
                images.last(),
                outcomes.last(),
            )
        }
    }

    /// One more screenshot with the given name is read.
    pub open spec fn goes_on(self, name: Seq<char>) -> bool {
        self matches Packing::Entries(entries) && accepts_name(entries, name)
    }
}

/// How far an archive has come, or with what message its packing ended.
pub open spec fn packing_of(packed: Result<Archive, String>) -> Packing {
    match packed {
        Ok(archive) => Packing::Entries(archive_entries(archive)),
        Err(message) => Packing::Failed(message@),
    }
}

/// `outcomes` are what `read` gave for the screenshots that were read.
pub open spec fn are_image_reads<H, R: Fn(&H, u64) -> Result<Vec<u8>, String>>(
    read: R,
    images: Seq<ImagePick<H>>,
    outcomes: Seq<Result<Vec<u8>, String>>,
) -> bool {
    &&& outcomes.len() == images.len()
    &&& forall|i: int|
        0 <= i < images.len() && Packing::after_images(images.take(i), outcomes.take(i)).goes_on(
            images[i].archive_name,
        ) ==> #[trigger] image_read_gave(read, images[i], outcomes[i])
}

/// `read` was asked for the bytes of `image`, and gave `outcome`.
pub open spec fn image_read_gave<H, R: Fn(&H, u64) -> Result<Vec<u8>, String>>(
    read: R,
    image: ImagePick<H>,
    outcome: Result<Vec<u8>, String>,
) -> bool {
    call_ensures(read, (&image.source, image.len), outcome)
}

/// The sum of the lengths of the given screenshots, as far as it can be counted.
pub open spec fn selected_bytes<H>(images: Seq<ImagePick<H>>) -> u64
    decreases images.len(),
{
    if images.len() == 0 {
        0
    } else {
        let sum = selected_bytes(images.drop_last()) + images.last().len;
        if sum <= u64::MAX {
            sum as u64
        } else {
            u64::MAX
        }
    }
}

/// What the packing of screenshots comes to.
pub open spec fn is_bundle_of(
    outcome: Result<ImageBundle, ImageBundleError>,
    packing: Packing,
    image_count: nat,
    selected_raw_bytes: u64,
    run_id: Seq<char>,
    maa_task_id: i64,
) -> bool {
    match packing {
        Packing::Failed(message) => outcome matches Err(ImageBundleError::Io(text)) && text@
            == message,
        Packing::Entries(entries) => match outcome {
            Ok(bundle) => {
                &&& is_archive_of(bundle.buffer@.len(), entries)
                &&& bundle.buffer@.len() <= MAX_IMAGE_BUNDLE_BYTES
                &&& listed_entries(bundle.buffer@) == entries
                &&& bundle.filename@ == "mxu-task-failure-"@ + run_id + "-"@ + signed_decimal(
                    maa_task_id as int,
                ) + "-screenshots.zip"@
                &&& bundle.image_count == image_count
                &&& bundle.selected_raw_bytes == selected_raw_bytes
                &&& bundle.warnings@.len() == 0
            },
            Err(ImageBundleError::TooLarge { selected_raw_bytes: raw, bundle_bytes }) => {
                &&& raw == selected_raw_bytes
                &&& bundle_bytes is Some
                &&& is_archive_of(bundle_bytes->0 as nat, entries)
                &&& bundle_bytes->0 > MAX_IMAGE_BUNDLE_BYTES
            },
            Err(ImageBundleError::Io(text)) => !is_small(entries) && text@
                == "finish screenshot ZIP: "@ + finish_refusal(entries),
            Err(ImageBundleError::NoEvidence) => false,
        },
    }
}

proof fn lemma_selected_bytes<H>(images: Seq<ImagePick<H>>, index: int)
    requires
        0 <= index < images.len(),
    ensures
        images[index].len <= selected_bytes(images),
    decreases images.len(),
{
    if index < images.len() - 1 {
        lemma_selected_bytes(images.drop_last(), index);
    }
}

/// The name of the ZIP file of a task.
fn bundle_name(run_id: &str, maa_task_id: i64) -> (name: String)
    ensures
        name@ == "mxu-task-failure-"@ + run_id@ + "-"@ + signed_decimal(maa_task_id as int)
            + "-screenshots.zip"@,
{
    let name = concat("mxu-task-failure-", run_id);
    let name = concat(name.as_str(), "-");
    let name = concat(name.as_str(), format_i64(maa_task_id).as_str());
    concat(name.as_str(), "-screenshots.zip")
}

/// `outcome` is what the packing of the given screenshots comes to, where `read` reads them.
pub open spec fn is_bundling<H, R: Fn(&H, u64) -> Result<Vec<u8>, String>>(
    outcome: Result<ImageBundle, ImageBundleError>,
    images: Seq<ImagePick<H>>,
    run_id: Seq<char>,
    maa_task_id: i64,
    read: R,
) -> bool {
    if images.len() == 0 {
        outcome matches Err(error) && error is NoEvidence
    } else if selected_bytes(images) > MAX_IMAGE_RAW_BYTES {
        outcome matches Err(error) && error == (ImageBundleError::TooLarge {
            selected_raw_bytes: selected_bytes(images),
            bundle_bytes: None,
        })
    } else {
        exists|outcomes: Seq<Result<Vec<u8>, String>>|
            {
                &&& #[trigger] are_image_reads(read, images, outcomes)
                &&& is_bundle_of(
                    outcome,
                    Packing::after_images(images, outcomes),
                    images.len(),
                    selected_bytes(images),
                    run_id,
                    maa_task_id,
                )
            }
    }
}

/// Packs the screenshots of a selection into a ZIP file.
///
/// `read` reads a number of bytes from the start of an open file, or fewer where it ends before.
pub fn build_image_bundle<H, R: Fn(&H, u64) -> Result<Vec<u8>, String>>(
    selection: TaskEvidenceSelection<H>,
    run_id: &str,
    maa_task_id: i64,
    read: R,
) -> (outcome: Result<ImageBundle, ImageBundleError>)
    requires
        forall|source: &H, len: u64| call_requires(read, (source, len)),
        forall|source: &H, len: u64, bytes: Vec<u8>|
            call_ensures(read, (source, len), Ok(bytes)) ==> bytes@.len() <= len,
    ensures
        is_bundling(outcome, selection@.images, run_id@, maa_task_id, read),
{
    let images = selection.images;
    let ghost all = image_views(images@);
    if images.len() == 0 {
        return Err(ImageBundleError::NoEvidence);
    }
    let mut selected_raw_bytes: u64 = 0;
    let mut index: usize = 0;
    assert(all.take(0) =~= seq![]);
    while index < images.len()
        invariant
            index <= images@.len(),
            all == image_views(images@),
            selected_raw_bytes == selected_bytes(all.take(index as int)),
        decreases images@.len() - index,
    {
        assert(all.take(index + 1).drop_last() =~= all.take(index as int));
        assert(all[index as int] == images@[index as int]@);
        selected_raw_bytes = selected_raw_bytes.saturating_add(images[index].len);
        index += 1;
    }
    assert(all.take(index as int) =~= all);
    if selected_raw_bytes > MAX_IMAGE_RAW_BYTES {
        return Err(ImageBundleError::TooLarge { selected_raw_bytes, bundle_bytes: None });
    }
    let ghost mut outcomes: Seq<Result<Vec<u8>, String>> = seq![];
    let mut packed: Result<Archive, String> = Ok(Archive::new());
    index = 0;
    while index < images.len()
        invariant
            index <= images@.len(),
            all == image_views(images@),
            selected_bytes(all) <= MAX_IMAGE_RAW_BYTES,
            outcomes.len() == index,
            packing_of(packed) == Packing::after_images(all.take(index as int), outcomes),
            forall|source: &H, len: u64| call_requires(read, (source, len)),
            forall|source: &H, len: u64, bytes: Vec<u8>|
                call_ensures(read, (source, len), Ok(bytes)) ==> bytes@.len() <= len,
            forall|i: int|
                0 <= i < index && Packing::after_images(all.take(i), outcomes.take(i)).goes_on(
                    all[i].archive_name,
                ) ==> #[trigger] image_read_gave(read, all[i], outcomes[i]),
        decreases images@.len() - index,
    {
        let ghost before = packing_of(packed);
        let ghost earlier = outcomes;
        let ghost mut answer: Result<Vec<u8>, String> = Err(arbitrary());
        let image = &images[index];
        assert(all[index as int] == image@);
        packed = match packed {
            Err(message) => Err(message),
            Ok(archive) => match archive.start_file(image.archive_name.as_str()) {
                Err(error) => Err(concat("start ZIP entry: ", error.as_str())),
                Ok(started) => {
                    let outcome = read(&image.source, image.len);
                    proof {
                        answer = outcome;
                        assert(image_read_gave(read, all[index as int], outcome));
                        lemma_selected_bytes(all, index as int);
                    }
                    match outcome {
                        Ok(bytes) => {
                            let mut started = started;
                            let ghost entries = archive_entries(archive);
                            started.write_all(bytes.as_slice());
                            assert(archive_entries(started) =~= entries.push(
                                (image.archive_name@, bytes@),
                            )) by {
                                assert(seq![] + bytes@ =~= bytes@);
                            }
                            Ok(started)
                        },
                        Err(error) => {
                            let text = concat("write attachment [", image.source_path.as_str());
                            let text = concat(text.as_str(), "]: ");
                            Err(concat(text.as_str(), error.as_str()))
                        },
                    }
                },
            },
        };
        proof {
            outcomes = outcomes.push(answer);
            assert(all.take(index + 1).drop_last() =~= all.take(index as int));
            assert(outcomes.drop_last() =~= earlier);
            assert(Packing::after_images(all.take(index + 1), outcomes) == before.after_image(
                all[index as int],
                answer,
            ));
            assert forall|i: int|
                0 <= i < index + 1 && Packing::after_images(all.take(i), outcomes.take(i)).goes_on(
                    all[i].archive_name,
                ) implies #[trigger] image_read_gave(read, all[i], outcomes[i]) by {
                assert(outcomes.take(i) =~= earlier.take(i));
                if i < index {
                    assert(image_read_gave(read, all[i], earlier[i]));
                } else {
                    assert(earlier.take(i) =~= earlier);
                }
            }
        }
        index += 1;
    }
    assert(all.take(index as int) =~= all);
    assert(are_image_reads(read, all, outcomes));
    let archive = match packed {
        Err(message) => {
            return Err(ImageBundleError::Io(message));
        },
        Ok(archive) => archive,
    };
    match archive.finish() {
        Err(error) => Err(
            ImageBundleError::Io(concat("finish screenshot ZIP: ", error.as_str())),
        ),
        Ok(buffer) => {
            if buffer.len() > MAX_IMAGE_BUNDLE_BYTES {
                return Err(
                    ImageBundleError::TooLarge {
                        selected_raw_bytes,
                        bundle_bytes: Some(buffer.len()),
                    },
                );
            }
            Ok(
                ImageBundle {
                    buffer,
                    filename: bundle_name(run_id, maa_task_id),
                    image_count: images.len(),
                    selected_raw_bytes,
                    warnings: Vec::new(),
                },
            )
        },
    }
}

/// Every screenshot was read, and they have names that one archive accepts.
pub open spec fn is_packable<H>(
    images: Seq<ImagePick<H>>,
    outcomes: Seq<Result<Vec<u8>, String>>,
) -> bool {
    &&& forall|i: int| 0 <= i < outcomes.len() ==> (#[trigger] outcomes[i]) is Ok
    &&& forall|i: int|
        0 <= i < images.len() ==> 30 + encode_utf8((#[trigger] images[i]).archive_name).len()
            < 65535
    &&& forall|i: int, j: int|
        0 <= i < j < images.len() ==> (#[trigger] images[i]).archive_name != (
        #[trigger] images[j]).archive_name
}

/// The packing succeeds if and only if every screenshot was read and their names are distinct and
/// short enough, and then the ZIP file holds each under its name, byte for byte and in order.
pub proof fn lemma_packing<H>(images: Seq<ImagePick<H>>, outcomes: Seq<Result<Vec<u8>, String>>)
    requires
        outcomes.len() == images.len(),
    ensures
        Packing::after_images(images, outcomes) is Entries <==> is_packable(images, outcomes),
        Packing::after_images(images, outcomes) matches Packing::Entries(entries) ==> {
            &&& entries.len() == images.len()
            &&& forall|i: int|
                0 <= i < images.len() ==> (#[trigger] entries[i]) == (
                    images[i].archive_name,
                    outcomes[i]->Ok_0@,
                )
        },
    decreases images.len(),
{
    if images.len() > 0 {
        let front = images.drop_last();
        let outcomes_front = outcomes.drop_last();
        let last = images.len() - 1;
        lemma_packing(front, outcomes_front);
        assert(forall|i: int| 0 <= i < front.len() ==> #[trigger] front[i] == images[i]);
        assert(forall|i: int|
            0 <= i < front.len() ==> #[trigger] outcomes_front[i] == outcomes[i]);
        if is_packable(images, outcomes) {
            assert(is_packable(front, outcomes_front)) by {
                assert forall|i: int| 0 <= i < outcomes_front.len() implies (
                #[trigger] outcomes_front[i]) is Ok by {
                    assert(outcomes[i] is Ok);
                }
            }
        }
        match Packing::after_images(front, outcomes_front) {
            Packing::Failed(_) => {},
            Packing::Entries(entries) => {
                let name = images[last].archive_name;
                if is_packable(images, outcomes) {
                    assert(!has_entry(entries, name)) by {
                        if has_entry(entries, name) {
                            let i = choose|i: int|
                                0 <= i < entries.len() && (#[trigger] entries[i]).0 == name;
                            assert(images[i].archive_name != images[last].archive_name);
                        }
                    }
                    assert(outcomes[last] is Ok);
                }
                if accepts_name(entries, name) && outcomes[last] is Ok {
                    assert forall|i: int| 0 <= i < outcomes.len() implies (
                    #[trigger] outcomes[i]) is Ok by {
                        if i < last {
                            assert(outcomes_front[i] is Ok);
                        }
                    }
                    assert forall|i: int| 0 <= i < images.len() implies 30 + encode_utf8(
                        (#[trigger] images[i]).archive_name,
                    ).len() < 65535 by {
                        if i < last {
                            assert(30 + encode_utf8(front[i].archive_name).len() < 65535);
                        }
                    }
                    assert forall|i: int, j: int| 0 <= i < j < images.len() implies (
                    #[trigger] images[i]).archive_name != (#[trigger] images[j]).archive_name by {
                        if j < last {
                            assert(front[i].archive_name != front[j].archive_name);
                        } else {
                            assert(entries[i].0 == images[i].archive_name);
                        }
                    }
                }
            },
        }
    }
}

} // verus!
