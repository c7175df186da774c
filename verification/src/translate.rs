//! The translation of change notifications: which step a notification asks
//! for, how the table changes with it, and what a read delivers.

use vstd::prelude::*;
use notify::DebouncedEvent;
use crate::config::{occurs_in, Selector};
use crate::lines::{all_text, select_lines, selected, split, split_lines, texts};
use crate::table::{HandleTable, HandleView};

verus! {

/// The kind of change that a notification reports.
#[derive(Clone, Copy, Debug, PartialEq, Eq, Structural)]
pub enum ChangeKind {
    /// A first write was seen, before the debounce interval is over.
    NoticeWrite,
    /// A removal was seen, before the debounce interval is over.
    NoticeRemove,
    /// A file appeared.
    Create,
    /// A file was written to.
    Write,
    /// A file disappeared.
    Remove,
    /// A file's attributes changed.
    Chmod,
    /// A file was moved within the watched directory.
    Rename,
    /// The watcher asks for a new scan of the directory.
    Rescan,
    /// The watcher reports an error.
    Error,
}

/// The event that a debounced watcher of `notify` delivers.
#[verifier::external_type_specification]
#[verifier::external_body]
pub struct ExDebouncedEvent(notify::DebouncedEvent);

/// A change notification: the kind of change, the path it happened at and
/// the base name of that path, where it has one.
pub struct Notification {
    pub kind: ChangeKind,
    pub name: Option<String>,
    pub path: String,
}

/// A regular file found under the watched directory.
pub struct FileEntry {
    pub name: String,
    pub path: String,
    /// The file's length when it was found.
    pub len: u64,
}

/// What the caller does for a notification.
pub enum Step {
    /// Nothing.
    Ignore,
    /// The file is no longer followed: release what was open for it.
    Removed { name: String },
    /// Read the file at `path` from `offset` to its end and hand the bytes
    /// to `collect`. With `reopen` the file was not followed and is opened
    /// first.
    Read { name: String, path: String, offset: u64, reopen: bool },
}

/// Why a read delivered nothing.
#[derive(Clone, Copy, Debug, PartialEq, Eq, Structural)]
pub enum ReadError {
    /// The bytes handed over are not the bytes between the offset and the
    /// observed end of the file.
    LengthMismatch,
    /// A line is not valid UTF-8.
    InvalidData,
    /// The file could not be opened or read.
    Unreadable,
}

/// The text of a string that may be absent.
pub open spec fn text_of(text: Option<String>) -> Option<Seq<char>> {
    match text {
        Some(text) => Some(text@),
        None => None,
    }
}

/// The last component of the path `path`, by the path rules of the
/// platform the library is built for, where the path has one.
pub uninterp spec fn file_name_seen(path: Seq<char>) -> Option<Seq<char>>;

/// The kind of change that a watcher's event reports.
pub uninterp spec fn kind_seen(event: DebouncedEvent) -> ChangeKind;

/// The path that a watcher's event carries, as text, where it carries
/// exactly one and that one is valid Unicode.
pub uninterp spec fn path_seen(event: DebouncedEvent) -> Option<Seq<char>>;

/// `name` can be the last component of `path`: it is not empty and occurs
/// in the path as a contiguous run.
pub open spec fn names_path(name: Seq<char>, path: Seq<char>) -> bool {
    name.len() > 0 && occurs_in(name, path)
}

/// `Path::file_name`: the last component of `path` as text, which is
/// `file_name_seen` of the path. A name that is there is not empty and
/// occurs in the path as a contiguous run; the empty path has none.
#[verifier::external_body]
fn file_name_of(path: &str) -> (name: Option<String>)
    ensures
        text_of(name) == file_name_seen(path@),
        name matches Some(text) ==> names_path(text@, path@),
        path@.len() == 0 ==> name is None,
{
    std::path::Path::new(path).file_name().and_then(|name| name.to_str()).map(|name| name.to_string())
}

/// Tells the variants of a `notify::DebouncedEvent` apart: the kind of
/// the same name, which is `kind_seen` of the event.
#[verifier::external_body]
fn kind_of(event: &DebouncedEvent) -> (kind: ChangeKind)
    ensures
        kind == kind_seen(*event),
{
    match event {
        DebouncedEvent::NoticeWrite(..) => ChangeKind::NoticeWrite,
        DebouncedEvent::NoticeRemove(..) => ChangeKind::NoticeRemove,
        DebouncedEvent::Create(..) => ChangeKind::Create,
        DebouncedEvent::Write(..) => ChangeKind::Write,
        DebouncedEvent::Chmod(..) => ChangeKind::Chmod,
        DebouncedEvent::Remove(..) => ChangeKind::Remove,
        DebouncedEvent::Rename(..) => ChangeKind::Rename,
        DebouncedEvent::Rescan => ChangeKind::Rescan,
        DebouncedEvent::Error(..) => ChangeKind::Error,
    }
}

/// The path of a `notify::DebouncedEvent` as text, which is `path_seen`
/// of the event: the one path of a variant that carries exactly one,
/// where it is valid Unicode.
#[verifier::external_body]
fn path_of(event: &DebouncedEvent) -> (path: Option<String>)
    ensures
        text_of(path) == path_seen(*event),
{
    let path = match event {
        DebouncedEvent::NoticeWrite(path) => Some(path),
        DebouncedEvent::NoticeRemove(path) => Some(path),
        DebouncedEvent::Create(path) => Some(path),
        DebouncedEvent::Write(path) => Some(path),
        DebouncedEvent::Chmod(path) => Some(path),
        DebouncedEvent::Remove(path) => Some(path),
        DebouncedEvent::Rename(..) => None,
        DebouncedEvent::Rescan => None,
        DebouncedEvent::Error(..) => None,
    };
    path.and_then(|path| path.to_str()).map(|text| text.to_string())
}

/// Every key of the table is the last component of its handle's path.
pub open spec fn keyed_by_name(table: Map<Seq<char>, HandleView>) -> bool {
    forall|key: Seq<char>| #[trigger]
        table.contains_key(key) ==> file_name_seen(table[key].path) == Some(key)
}

impl FileEntry {
    /// The entry of the file found at `path` with length `len`, under the
    /// name that the path gives. A path without a name gives no entry.
    pub fn new(path: String, len: u64) -> (entry: Option<Self>)
        ensures
            entry is Some <==> file_name_seen(path@) is Some,
            entry matches Some(file) ==> file.path == path && file.len == len && Some(file.name@)
                == file_name_seen(path@) && names_path(file.name@, path@),
    {
        match file_name_of(path.as_str()) {
            Some(name) => Some(FileEntry { name, path, len }),
            None => None,
        }
    }
}

/// `seen` is the notification that the watcher's event stands for: it has
/// the event's kind and path and the name that the path gives; without a
/// path it has no name.
pub open spec fn stands_for(seen: &Notification, event: DebouncedEvent) -> bool {
    &&& seen.kind == kind_seen(event)
    &&& match path_seen(event) {
        Some(path) => seen.path@ == path && text_of(seen.name) == file_name_seen(path),
        None => seen.path@ == Seq::<char>::empty() && seen.name is None,
    }
}

impl Notification {
    /// The notification that a watcher's event stands for.
    pub fn from_event(event: &DebouncedEvent) -> (seen: Self)
        ensures
            stands_for(&seen, *event),
            seen.name matches Some(name) ==> names_path(name@, seen.path@),
    {
        let kind = kind_of(event);
        match path_of(event) {
            Some(path) => Notification::new(kind, path),
            None => Notification { kind, name: None, path: String::new() },
        }
    }

    /// The notification of a change of kind `kind` at `path`. Its name is
    /// the last component of the path, as the platform's path rules give it.
    pub fn new(kind: ChangeKind, path: String) -> (event: Self)
        ensures
            event.kind == kind,
            event.path == path,
            text_of(event.name) == file_name_seen(path@),
            event.name matches Some(name) ==> names_path(name@, path@),
            path@.len() == 0 ==> event.name is None,
    {
        let name = file_name_of(path.as_str());
        Notification { kind, name, path }
    }
}

/// The notification reports that a named file disappeared.
pub open spec fn is_removal(event: &Notification) -> bool {
    &&& event.kind == ChangeKind::NoticeRemove || event.kind == ChangeKind::Remove
    &&& event.name is Some
}

/// The notification reports new content in a named file that `filter` selects.
pub open spec fn is_read<F: Selector>(event: &Notification, filter: &F) -> bool {
    &&& event.kind == ChangeKind::Create || event.kind == ChangeKind::NoticeWrite || event.kind
        == ChangeKind::Write
    &&& event.name is Some
    &&& filter.selects(event.name.unwrap()@)
}

/// The table after a notification. A removal drops the file's handle. New
/// content in a selected file that is not followed gives the file a fresh
/// handle at offset 0. Nothing else changes the table.
pub open spec fn table_after_event<F: Selector>(
    table: Map<Seq<char>, HandleView>,
    event: &Notification,
    filter: &F,
) -> Map<Seq<char>, HandleView> {
    if is_removal(event) {
        table.remove(event.name.unwrap()@)
    } else if is_read(event, filter) && !table.contains_key(event.name.unwrap()@) {
        table.insert(event.name.unwrap()@, HandleView { path: event.path@, offset: 0 })
    } else {
        table
    }
}

/// `step` is the step that the notification asks for, given the table
/// before it.
pub open spec fn step_fits<F: Selector>(
    step: Step,
    table: Map<Seq<char>, HandleView>,
    event: &Notification,
    filter: &F,
) -> bool {
    match step {
        Step::Ignore => !is_removal(event) && !is_read(event, filter),
        Step::Removed { name } => is_removal(event) && name@ == event.name.unwrap()@,
        Step::Read { name, path, offset, reopen } => {
            &&& is_read(event, filter)
            &&& name@ == event.name.unwrap()@
            &&& reopen == !table.contains_key(name@)
            &&& if reopen {
                path@ == event.path@ && offset == 0
            } else {
                path@ == table[name@].path && offset == table[name@].offset
            }
        },
    }
}

/// Why a read from `offset` fails, if it does, where the file was seen to
/// end at `end` and `data` was read. A file that shrank below the offset
/// is no failure.
pub open spec fn read_failure(offset: u64, end: u64, data: Seq<u8>) -> Option<ReadError> {
    if end < offset {
        None
    } else if data.len() != end - offset {
        Some(ReadError::LengthMismatch)
    } else if !all_text(split(data)) {
        Some(ReadError::InvalidData)
    } else {
        None
    }
}

/// The offset after a read that does not fail. A file that shrank below
/// the offset starts again at 0; any other read moves the offset to the
/// end that was seen.
pub open spec fn offset_after(offset: u64, end: u64) -> u64 {
    if end < offset {
        0
    } else {
        end
    }
}

/// The lines that a read delivers when it does not fail: none for a file
/// that shrank below the offset, else the selected lines of `data`.
pub open spec fn lines_after<L: Selector>(offset: u64, end: u64, data: Seq<u8>, filter: &L) -> Seq<
    Seq<char>,
> {
    if end < offset {
        Seq::empty()
    } else {
        selected(split(data), filter)
    }
}

/// The table after a read of the file `name`: a read that fails drops the
/// file's handle, any other read changes the file's offset, and nothing
/// else changes.
pub open spec fn table_after_read(
    table: Map<Seq<char>, HandleView>,
    name: Seq<char>,
    end: u64,
    data: Seq<u8>,
) -> Map<Seq<char>, HandleView> {
    if !table.contains_key(name) {
        table
    } else if read_failure(table[name].offset, end, data) is Some {
        table.remove(name)
    } else {
        table.insert(
            name,
            HandleView { path: table[name].path, offset: offset_after(table[name].offset, end) },
        )
    }
}

/// The table that registering `files` in order gives: each file whose name
/// `filter` selects is followed from its end; of two files with one name
/// the later one stays.
pub open spec fn registered<F: Selector>(files: Seq<FileEntry>, filter: &F) -> Map<
    Seq<char>,
    HandleView,
>
    decreases files.len(),
{
    if files.len() == 0 {
        Map::empty()
    } else {
        let before = registered(files.drop_last(), filter);
        let file = files.last();
        if filter.selects(file.name@) {
            before.insert(file.name@, HandleView { path: file.path@, offset: file.len })
        } else {
            before
        }
    }
}

/// Follows the file `name`, opened at `path` with length `len`: from its
/// end with `at_tail`, else from its start.
pub fn insert_handle(table: &mut HandleTable, name: &str, path: &str, len: u64, at_tail: bool)
    requires
        old(table).wf(),
    ensures
        final(table).wf(),
        final(table)@ == old(table)@.insert(
            name@,
            HandleView { path: path@, offset: if at_tail { len } else { 0 } },
        ),
{
    let offset: u64 = if at_tail { len } else { 0 };
    table.insert(name.to_owned(), path.to_owned(), offset);
}

/// Stops following the file `name`. Where it was not followed, nothing changes.
pub fn remove_handle(table: &mut HandleTable, name: &str)
    requires
        old(table).wf(),
    ensures
        final(table).wf(),
        final(table)@ == old(table)@.remove(name@),
{
    let _ = table.remove(name);
}

/// The table for the files found under the watched directory.
pub fn register_dir<F: Selector>(files: &Vec<FileEntry>, filter: &F) -> (table: HandleTable)
    ensures
        table.wf(),
        table@ == registered(files@, filter),
{
    let mut table = HandleTable::new();
    let mut i: usize = 0;
    assert(files@.take(0) =~= Seq::<FileEntry>::empty());
    while i < files.len()
        invariant
            i <= files.len(),
            table.wf(),
            table@ == registered(files@.take(i as int), filter),
        decreases files.len() - i,
    {
        assert(files@.take(i + 1).drop_last() =~= files@.take(i as int));
        let file = &files[i];
        if filter.evaluate(file.name.as_str()) {
            insert_handle(&mut table, file.name.as_str(), file.path.as_str(), file.len, true);
        }
        i += 1;
    }
    assert(files@.take(i as int) =~= files@);
    table
}

/// Translates a notification into the step it asks for and brings the
/// table up to date with it.
pub fn translate<F: Selector>(event: &Notification, table: &mut HandleTable, file_filter: &F) -> (step:
    Step)
    requires
        old(table).wf(),
    ensures
        final(table).wf(),
        final(table)@ == table_after_event(old(table)@, event, file_filter),
        step_fits(step, old(table)@, event, file_filter),
{
    let name = match &event.name {
        Some(name) => name,
        None => {
            return Step::Ignore;
        },
    };
    match event.kind {
        ChangeKind::Create | ChangeKind::NoticeWrite | ChangeKind::Write => {
            if !file_filter.evaluate(name.as_str()) {
                return Step::Ignore;
            }
            match table.get(name.as_str()) {
                Some(handle) => Step::Read {
                    name: name.clone(),
                    path: handle.path.clone(),
                    offset: handle.offset,
                    reopen: false,
                },
                None => {
                    insert_handle(table, name.as_str(), event.path.as_str(), 0, false);
                    Step::Read { name: name.clone(), path: event.path.clone(), offset: 0, reopen: true }
                },
            }
        },
        ChangeKind::NoticeRemove | ChangeKind::Remove => {
            remove_handle(table, name.as_str());
            Step::Removed { name: name.clone() }
        },
        ChangeKind::Chmod | ChangeKind::Rename | ChangeKind::Rescan | ChangeKind::Error => {
            Step::Ignore
        },
    }
}

/// Translates a watcher's event: the step and the table are those of
/// `translate` for the notification that this event stands for. Where
/// every key of the table was the last component of its handle's path,
/// every key still is.
pub fn collect_logs<F: Selector>(
    event: &DebouncedEvent,
    table: &mut HandleTable,
    file_filter: &F,
) -> (step: Step)
    requires
        old(table).wf(),
    ensures
        final(table).wf(),
        exists|seen: Notification|
            stands_for(&seen, *event) && final(table)@ == #[trigger] table_after_event(
                old(table)@,
                &seen,
                file_filter,
            ) && step_fits(step, old(table)@, &seen, file_filter),
        keyed_by_name(old(table)@) ==> keyed_by_name(final(table)@),
{
    let seen = Notification::from_event(event);
    let ghost before = table@;
    let step = translate(&seen, table, file_filter);
    proof {
        assert(table@ == table_after_event(before, &seen, file_filter));
        if keyed_by_name(before) {
            assert forall|key: Seq<char>| #[trigger] table@.contains_key(key) implies file_name_seen(
                table@[key].path,
            ) == Some(key) by {
                if before.contains_key(key) {
                }
            }
        }
    }
    step
}

/// Takes in what was read for the file `name`: `end` is the length the
/// file was seen to have and `data` the bytes from the handle's offset up
/// to there. Gives the file's name with the selected lines, in file order,
/// and moves the offset by all the bytes of `data`, selected or not.
/// A file that is not followed gives nothing. A read that fails drops the
/// file's handle: the file is followed again, from its start, with the
/// next notification of new content in it.
pub fn collect<L: Selector>(
    table: &mut HandleTable,
    name: &str,
    end: u64,
    data: &[u8],
    line_filter: &L,
) -> (batch: Result<Option<(String, Vec<String>)>, ReadError>)
    requires
        old(table).wf(),
    ensures
        final(table).wf(),
        final(table)@ == table_after_read(old(table)@, name@, end, data@),
        match batch {
            Ok(None) => !old(table)@.contains_key(name@),
            Ok(Some((file, lines))) => {
                &&& old(table)@.contains_key(name@)
                &&& read_failure(old(table)@[name@].offset, end, data@) is None
                &&& file@ == name@
                &&& texts(lines@) == lines_after(old(table)@[name@].offset, end, data@, line_filter)
            },
            Err(error) => {
                &&& old(table)@.contains_key(name@)
                &&& read_failure(old(table)@[name@].offset, end, data@) == Some(error)
            },
        },
{
    let (path, offset) = match table.get(name) {
        Some(handle) => (handle.path.clone(), handle.offset),
        None => {
            return Ok(None);
        },
    };
    let ghost before = table@;
    assert(before =~= before.insert(name@, before[name@]));
    if end < offset {
        table.insert(name.to_owned(), path, 0);
        let lines: Vec<String> = Vec::new();
        assert(texts(lines@) =~= Seq::<Seq<char>>::empty());
        return Ok(Some((name.to_owned(), lines)));
    }
    if data.len() as u64 != end - offset {
        remove_handle(table, name);
        return Err(ReadError::LengthMismatch);
    }
    let raw = split_lines(data);
    match select_lines(&raw, line_filter) {
        None => {
            remove_handle(table, name);
            Err(ReadError::InvalidData)
        },
        Some(lines) => {
            table.insert(name.to_owned(), path, end);
            Ok(Some((name.to_owned(), lines)))
        },
    }
}

/// Takes in that the file `name` could not be opened or read: its handle
/// is dropped, and the error to report is `Unreadable`. Where the file is
/// not followed nothing changes.
pub fn read_failed(table: &mut HandleTable, name: &str) -> (error: ReadError)
    requires
        old(table).wf(),
    ensures
        final(table).wf(),
        final(table)@ == old(table)@.remove(name@),
        error == ReadError::Unreadable,
{
    remove_handle(table, name);
    ReadError::Unreadable
}

/// Whether the table follows the file that was found at `file`, and at
/// that path: of two files with one name only the one in the table is.
pub fn follows(table: &HandleTable, file: &FileEntry) -> (followed: bool)
    requires
        table.wf(),
    ensures
        followed == (table@.contains_key(file.name@) && table@[file.name@].path == file.path@),
{
    match table.get(file.name.as_str()) {
        Some(handle) => handle.path == file.path,
        None => false,
    }
}

/// Whether a batch is handed to the consumer: only one with a line in it.
pub fn should_deliver(lines: &Vec<String>) -> (deliver: bool)
    ensures
        deliver == (lines@.len() > 0),
{
    lines.len() > 0
}

} // verus!
