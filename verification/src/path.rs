//! File paths as lists of components, and what their names say about a file.

use vstd::prelude::*;
use vstd::slice::slice_subrange;
use crate::text::{
    contains, ends_with, from_chars, has_part, has_prefix, has_suffix, joined, join, lower_chars,
    lowered, same_ignoring_ascii_case, same_text, starts_with, to_chars, views,
};

verus! {

/// A file name as the operating system gives it.
#[derive(Debug)]
pub enum OsName {
    /// A name that is valid Unicode.
    Text(String),
    /// Any other name: its raw bytes, and its text with what cannot be decoded replaced.
    Opaque { encoded: Vec<u8>, lossy: String },
}

/// The content of a file name.
pub enum OsNameView {
    Text(Seq<char>),
    Opaque(Seq<u8>, Seq<char>),
}

impl OsNameView {
    /// The name as text, with what is not Unicode replaced.
    pub open spec fn lossy(self) -> Seq<char> {
        match self {
            OsNameView::Text(text) => text,
            OsNameView::Opaque(_, lossy) => lossy,
        }
    }
}

impl View for OsName {
    type V = OsNameView;

    open spec fn view(&self) -> OsNameView {
        match self {
            OsName::Text(text) => OsNameView::Text(text@),
            OsName::Opaque { encoded, lossy } => OsNameView::Opaque(encoded@, lossy@),
        }
    }
}

impl OsName {
    fn lossy(&self) -> (text: String)
        ensures
            text@ == self@.lossy(),
    {
        match self {
            OsName::Text(text) => text.clone(),
            OsName::Opaque { lossy, .. } => lossy.clone(),
        }
    }

    fn same(&self, other: &OsName) -> (same: bool)
        ensures
            same == (self@ == other@),
    {
        match (self, other) {
            (OsName::Text(left), OsName::Text(right)) => same_text(left.as_str(), right.as_str()),
            (
                OsName::Opaque { encoded: left, lossy: left_lossy },
                OsName::Opaque { encoded: right, lossy: right_lossy },
            ) => same_bytes(left, right) && same_text(left_lossy.as_str(), right_lossy.as_str()),
            _ => false,
        }
    }
}

impl Clone for OsName {
    fn clone(&self) -> (copy: Self)
        ensures
            copy@ == self@,
    {
        match self {
            OsName::Text(text) => OsName::Text(text.clone()),
            OsName::Opaque { encoded, lossy } => {
                let copied: Vec<u8> = encoded.clone();
                assert(copied@ =~= encoded@);
                OsName::Opaque { encoded: copied, lossy: lossy.clone() }
            },
        }
    }
}

fn same_bytes(left: &Vec<u8>, right: &Vec<u8>) -> (same: bool)
    ensures
        same == (left@ == right@),
{
    if left.len() != right.len() {
        return false;
    }
    let mut index: usize = 0;
    while index < left.len()
        invariant
            index <= left@.len(),
            left@.len() == right@.len(),
            forall|i: int| 0 <= i < index ==> left@[i] == right@[i],
        decreases left@.len() - index,
    {
        if left[index] != right[index] {
            return false;
        }
        index += 1;
    }
    assert(left@ =~= right@);
    true
}

/// One component of a path.
#[derive(Debug)]
pub enum PathComponent {
    Prefix(OsName),
    RootDir,
    CurDir,
    ParentDir,
    Normal(OsName),
}

/// The content of a path component.
pub enum ComponentView {
    Prefix(OsNameView),
    RootDir,
    CurDir,
    ParentDir,
    Normal(OsNameView),
}

impl View for PathComponent {
    type V = ComponentView;

    open spec fn view(&self) -> ComponentView {
        match self {
            PathComponent::Prefix(name) => ComponentView::Prefix(name@),
            PathComponent::RootDir => ComponentView::RootDir,
            PathComponent::CurDir => ComponentView::CurDir,
            PathComponent::ParentDir => ComponentView::ParentDir,
            PathComponent::Normal(name) => ComponentView::Normal(name@),
        }
    }
}

impl PathComponent {
    fn same(&self, other: &PathComponent) -> (same: bool)
        ensures
            same == (self@ == other@),
    {
        match (self, other) {
            (PathComponent::Prefix(left), PathComponent::Prefix(right)) => left.same(right),
            (PathComponent::RootDir, PathComponent::RootDir) => true,
            (PathComponent::CurDir, PathComponent::CurDir) => true,
            (PathComponent::ParentDir, PathComponent::ParentDir) => true,
            (PathComponent::Normal(left), PathComponent::Normal(right)) => left.same(right),
            _ => false,
        }
    }
}

impl Clone for PathComponent {
    fn clone(&self) -> (copy: Self)
        ensures
            copy@ == self@,
    {
        match self {
            PathComponent::Prefix(name) => PathComponent::Prefix(name.clone()),
            PathComponent::RootDir => PathComponent::RootDir,
            PathComponent::CurDir => PathComponent::CurDir,
            PathComponent::ParentDir => PathComponent::ParentDir,
            PathComponent::Normal(name) => PathComponent::Normal(name.clone()),
        }
    }
}

/// The content of a path.
pub open spec fn path_view(path: Seq<PathComponent>) -> Seq<ComponentView> {
    Seq::new(path.len(), |i: int| path[i]@)
}

/// Every component of the path is an ordinary name.
pub open spec fn all_normal(path: Seq<ComponentView>) -> bool {
    forall|i: int| 0 <= i < path.len() ==> #[trigger] path[i] is Normal
}

/// A copy of `path`.
pub fn copy_path(path: &[PathComponent]) -> (copy: Vec<PathComponent>)
    ensures
        path_view(copy@) == path_view(path@),
{
    let mut copy: Vec<PathComponent> = Vec::new();
    let mut index: usize = 0;
    while index < path.len()
        invariant
            index <= path@.len(),
            copy@.len() == index,
            forall|i: int| 0 <= i < index ==> (#[trigger] copy@[i])@ == path@[i]@,
        decreases path@.len() - index,
    {
        copy.push(path[index].clone());
        index += 1;
    }
    assert(path_view(copy@) =~= path_view(path@));
    copy
}

/// Whether two paths are the same.
pub fn same_path(left: &[PathComponent], right: &[PathComponent]) -> (same: bool)
    ensures
        same == (path_view(left@) == path_view(right@)),
{
    if left.len() != right.len() {
        assert(path_view(left@).len() != path_view(right@).len());
        return false;
    }
    assert(path_view(right@).take(left@.len() as int) =~= path_view(right@));
    same_start(left, right)
}

/// Whether `path` begins with the components of `start`.
fn same_start(start: &[PathComponent], path: &[PathComponent]) -> (same: bool)
    requires
        start@.len() <= path@.len(),
    ensures
        same == (path_view(start@) == path_view(path@).take(start@.len() as int)),
{
    let mut index: usize = 0;
    while index < start.len()
        invariant
            index <= start@.len() <= path@.len(),
            forall|i: int| 0 <= i < index ==> (#[trigger] start@[i])@ == path@[i]@,
        decreases start@.len() - index,
    {
        if !start[index].same(&path[index]) {
            assert(path_view(start@)[index as int] != path_view(path@).take(start@.len() as int)[index as int]);
            return false;
        }
        index += 1;
    }
    assert(path_view(start@) =~= path_view(path@).take(start@.len() as int));
    true
}

/// `path` lies under `root`, and nothing but ordinary names leads from there to it.
pub open spec fn lies_under(root: Seq<ComponentView>, path: Seq<ComponentView>) -> bool {
    &&& root.len() <= path.len()
    &&& root == path.take(root.len() as int)
    &&& all_normal(path.skip(root.len() as int))
}

/// The part of `path` below `root`, if nothing but ordinary names leads there.
pub fn safe_relative_path<'a>(root: &[PathComponent], path: &'a [PathComponent]) -> (relative: Option<
    &'a [PathComponent],
>)
    ensures
        match relative {
            Some(rest) => {
                &&& lies_under(path_view(root@), path_view(path@))
                &&& path_view(rest@) == path_view(path@).skip(root@.len() as int)
            },
            None => !lies_under(path_view(root@), path_view(path@)),
        },
{
    if root.len() > path.len() || !same_start(root, path) {
        return None;
    }
    let rest = slice_subrange(path, root.len(), path.len());
    let ghost below = path_view(path@).skip(root@.len() as int);
    assert(path_view(rest@) =~= below);
    let mut index: usize = 0;
    while index < rest.len()
        invariant
            index <= rest@.len(),
            path_view(rest@) == below,
            below == path_view(path@).skip(root@.len() as int),
            forall|i: int| 0 <= i < index ==> #[trigger] below[i] is Normal,
        decreases rest@.len() - index,
    {
        if !matches!(rest[index], PathComponent::Normal(_)) {
            assert(below[index as int] == rest@[index as int]@);
            return None;
        }
        assert(below[index as int] == rest@[index as int]@);
        index += 1;
    }
    Some(rest)
}

/// The names along `path`.
pub open spec fn name_texts(path: Seq<ComponentView>) -> Seq<Seq<char>> {
    Seq::new(path.len(), |i: int| path[i]->Normal_0.lossy())
}

/// The name of a file inside an archive: the names along its path, with `/` between them.
pub open spec fn archive_path(path: Seq<ComponentView>) -> Option<Seq<char>> {
    let text = joined(name_texts(path), seq!['/']);
    if all_normal(path) && text.len() > 0 {
        Some(text)
    } else {
        None
    }
}

/// The characters of a text that may be missing.
pub open spec fn option_view(text: Option<String>) -> Option<Seq<char>> {
    match text {
        Some(text) => Some(text@),
        None => None,
    }
}

/// The name of a file inside an archive; `None` for a path that has none.
pub fn normalize_archive_path(path: &[PathComponent]) -> (name: Option<String>)
    ensures
        option_view(name) == archive_path(path_view(path@)),
{
    let mut names: Vec<String> = Vec::new();
    let mut index: usize = 0;
    while index < path.len()
        invariant
            index <= path@.len(),
            names@.len() == index,
            forall|i: int| 0 <= i < index ==> #[trigger] path_view(path@)[i] is Normal,
            forall|i: int| 0 <= i < index ==> (#[trigger] names@[i])@ == path_view(path@)[i]->Normal_0.lossy(),
        decreases path@.len() - index,
    {
        assert(path_view(path@)[index as int] == path@[index as int]@);
        match &path[index] {
            PathComponent::Normal(name) => names.push(name.lossy()),
            _ => {
                return None;
            },
        }
        index += 1;
    }
    assert(views(names@) =~= name_texts(path_view(path@)));
    proof {
        reveal_strlit("/");
        assert("/"@ =~= seq!['/']);
    }
    let value = join(&names, "/");
    if value.as_str().is_empty() {
        None
    } else {
        Some(value)
    }
}

/// The text of an ordinary component that is valid Unicode.
pub open spec fn component_text(component: ComponentView) -> Option<Seq<char>> {
    match component {
        ComponentView::Normal(OsNameView::Text(text)) => Some(text),
        _ => None,
    }
}

/// The first component of `path` is the name `expected`, in any case of its ASCII letters.
pub open spec fn first_is(path: Seq<ComponentView>, expected: Seq<char>) -> bool {
    &&& path.len() > 0
    &&& component_text(path.first()) is Some
    &&& lowered(component_text(path.first()).unwrap()) == lowered(expected)
}

/// Whether `path` begins with the name `expected`, in any case of its ASCII letters.
pub fn first_component_is(path: &[PathComponent], expected: &str) -> (found: bool)
    ensures
        found == first_is(path_view(path@), expected@),
{
    if path.len() == 0 {
        return false;
    }
    match &path[0] {
        PathComponent::Normal(OsName::Text(text)) => same_ignoring_ascii_case(
            text.as_str(),
            expected,
        ),
        _ => false,
    }
}

/// A log file: named `*.log` or `*.log.*`, and outside the screenshot directories.
pub open spec fn is_log_path(path: Seq<ComponentView>) -> bool {
    &&& !first_is(path, "on_error"@)
    &&& !first_is(path, "vision"@)
    &&& path.len() > 0
    &&& component_text(path.last()) matches Some(name)
    &&& ends_with(lowered(name), ".log"@) || contains(lowered(name), ".log."@)
}

/// Whether `relative` names a log file.
pub fn is_log_file(relative: &[PathComponent]) -> (found: bool)
    ensures
        found == is_log_path(path_view(relative@)),
{
    if first_component_is(relative, "on_error") || first_component_is(relative, "vision") {
        return false;
    }
    if relative.len() == 0 {
        return false;
    }
    match &relative[relative.len() - 1] {
        PathComponent::Normal(OsName::Text(name)) => {
            let lower = lower_chars(name.as_str());
            has_suffix(&lower, ".log") || has_part(&lower, ".log.")
        },
        _ => false,
    }
}

/// The lower-case form of an ASCII letter; any other byte unchanged.
pub open spec fn byte_lower(byte: u8) -> u8 {
    if 0x41 <= byte <= 0x5a {
        (byte + 32) as u8
    } else {
        byte
    }
}

/// The bytes end with those of `suffix`, in any case of their ASCII letters.
pub open spec fn bytes_end_with(bytes: Seq<u8>, suffix: Seq<char>) -> bool {
    &&& suffix.len() <= bytes.len()
    &&& forall|i: int| 0 <= i < suffix.len() ==> byte_lower(bytes[bytes.len() - suffix.len() + i]) as char == #[trigger] suffix[i]
}

fn has_byte_suffix(bytes: &Vec<u8>, suffix: &str) -> (found: bool)
    ensures
        found == bytes_end_with(bytes@, suffix@),
{
    let pattern = to_chars(suffix);
    if pattern.len() > bytes.len() {
        return false;
    }
    let base: usize = bytes.len() - pattern.len();
    let mut index: usize = 0;
    while index < pattern.len()
        invariant
            index <= pattern@.len(),
            base + pattern@.len() == bytes@.len(),
            bytes@.len() <= usize::MAX,
            pattern@ == suffix@,
            forall|i: int| 0 <= i < index ==> byte_lower(bytes@[bytes@.len() - suffix@.len() + i]) as char == #[trigger] suffix@[i],
        decreases pattern@.len() - index,
    {
        let byte: u8 = bytes[base + index];
        let lower: u8 = if 0x41 <= byte && byte <= 0x5a {
            byte + 32
        } else {
            byte
        };
        if lower as char != pattern[index] {
            assert(byte_lower(bytes@[bytes@.len() - suffix@.len() + index]) as char != suffix@[index as int]);
            return false;
        }
        index += 1;
    }
    true
}

/// A name that goes on with a dot and `extension` behind something else.
pub open spec fn has_extension(name: OsNameView, dotted: Seq<char>) -> bool {
    match name {
        OsNameView::Text(text) => text.len() > dotted.len() && ends_with(lowered(text), dotted),
        OsNameView::Opaque(bytes, _) => bytes.len() > dotted.len() && bytes_end_with(bytes, dotted),
    }
}

fn name_has_extension(name: &OsName, dotted: &str) -> (found: bool)
    ensures
        found == has_extension(name@, dotted@),
{
    let wanted: usize = to_chars(dotted).len();
    match name {
        OsName::Text(text) => {
            let lower = lower_chars(text.as_str());
            lower.len() > wanted && has_suffix(&lower, dotted)
        },
        OsName::Opaque { encoded, .. } => encoded.len() > wanted && has_byte_suffix(encoded, dotted),
    }
}

/// A screenshot: a PNG or JPEG file under `on_error`.
pub open spec fn is_image_path(path: Seq<ComponentView>) -> bool {
    &&& first_is(path, "on_error"@)
    &&& path.last() matches ComponentView::Normal(name)
    &&& has_extension(name, ".png"@) || has_extension(name, ".jpg"@) || has_extension(
        name,
        ".jpeg"@,
    )
}

/// Whether `relative` names a screenshot of a failure.
pub fn is_on_error_image(relative: &[PathComponent]) -> (found: bool)
    ensures
        found == is_image_path(path_view(relative@)),
{
    if !first_component_is(relative, "on_error") {
        return false;
    }
    match &relative[relative.len() - 1] {
        PathComponent::Normal(name) => name_has_extension(name, ".png") || name_has_extension(
            name,
            ".jpg",
        ) || name_has_extension(name, ".jpeg"),
        _ => false,
    }
}

/// The position behind the last `/` of `path`, or 0.
pub open spec fn segment_start(path: Seq<char>) -> int
    decreases path.len(),
{
    if path.len() == 0 || path.last() == '/' {
        path.len() as int
    } else {
        segment_start(path.drop_last())
    }
}

/// The last segment of `path` that is neither empty nor `.`; empty if there is none or it is `..`.
pub open spec fn final_segment(path: Seq<char>) -> Seq<char>
    decreases path.len(),
{
    proof {
        lemma_segment_start(path);
    }
    let start = segment_start(path);
    let segment = path.skip(start);
    if segment == seq!['.', '.'] {
        seq![]
    } else if segment.len() > 0 && segment != seq!['.'] {
        segment
    } else if start == 0 {
        seq![]
    } else {
        final_segment(path.take(start - 1))
    }
}

/// The last segment begins inside the path.
pub proof fn lemma_segment_start(path: Seq<char>)
    ensures
        0 <= segment_start(path) <= path.len(),
    decreases path.len(),
{
    if path.len() > 0 && path.last() != '/' {
        lemma_segment_start(path.drop_last());
    }
}

/// The last name of a path that is written with `/`, in lower case.
fn lower_file_name(path: &str) -> (name: Vec<char>)
    ensures
        name@ == lowered(final_segment(path@)),
{
    let chars = to_chars(path);
    let mut end: usize = chars.len();
    assert(chars@.take(end as int) =~= path@);
    loop
        invariant
            end <= chars@.len(),
            final_segment(path@) == final_segment(chars@.take(end as int)),
        decreases end,
    {
        let ghost part = chars@.take(end as int);
        proof {
            lemma_segment_start(part);
        }
        let mut start: usize = end;
        assert(part.take(start as int) =~= part);
        while start > 0 && chars[start - 1] != '/'
            invariant
                start <= end <= chars@.len(),
                part == chars@.take(end as int),
                segment_start(part) == segment_start(part.take(start as int)),
            decreases start,
        {
            assert(part.take(start as int).drop_last() =~= part.take(start - 1));
            start -= 1;
        }
        assert(segment_start(part) == start);
        let segment = from_chars(&chars, start, end);
        assert(segment@ =~= part.skip(start as int));
        proof {
            reveal_strlit("..");
            reveal_strlit(".");
            assert(".."@ =~= seq!['.', '.']);
            assert("."@ =~= seq!['.']);
        }
        if same_text(segment.as_str(), "..") {
            assert(lowered(final_segment(path@)) =~= seq![]);
            return Vec::new();
        }
        if start < end && !same_text(segment.as_str(), ".") {
            return lower_chars(segment.as_str());
        }
        if start == 0 {
            assert(lowered(final_segment(path@)) =~= seq![]);
            return Vec::new();
        }
        assert(part.take(start - 1) =~= chars@.take(start - 1));
        assert(final_segment(part) == final_segment(part.take(start - 1)));
        end = start - 1;
    }
}

/// How early a log is read: the framework's own logs first.
pub open spec fn priority_of(path: Seq<char>) -> u8 {
    let name = lowered(final_segment(path));
    if starts_with(name, "maafw.log"@) {
        0
    } else if starts_with(name, "maa.log"@) {
        1
    } else if starts_with(name, "mxu"@) || starts_with(name, "log-"@) {
        2
    } else {
        3
    }
}

/// The place of a log in reading order; a lower number is read earlier.
pub fn log_priority(path: &str) -> (priority: u8)
    ensures
        priority == priority_of(path@),
{
    let name = lower_file_name(path);
    if has_prefix(&name, "maafw.log") {
        0
    } else if has_prefix(&name, "maa.log") {
        1
    } else if has_prefix(&name, "mxu") || has_prefix(&name, "log-") {
        2
    } else {
        3
    }
}

/// The kind of log that a file name stands for.
pub open spec fn kind_of(path: Seq<char>) -> Seq<char> {
    match priority_of(path) {
        0 => "maafw"@,
        1 => "maa"@,
        2 => "mxu"@,
        _ => "other"@,
    }
}

/// The kind of log that `path` holds.
pub fn log_kind(path: &str) -> (kind: &'static str)
    ensures
        kind@ == kind_of(path@),
{
    match log_priority(path) {
        0 => "maafw",
        1 => "maa",
        2 => "mxu",
        _ => "other",
    }
}

} // verus!
