//! What holds of the engine as a whole, stated over the models that the
//! contracts of the other modules use.

use vstd::prelude::*;
use vstd::utf8::decode_utf8;
use crate::config::Selector;
use crate::lines::{
    all_text, closed, joined, lemma_selected_append, lemma_split_append, lemma_split_closed,
    lemma_split_joined, selected, split, NEWLINE,
};
use crate::table::HandleView;
use crate::translate::{
    file_name_seen, is_read, is_removal, keyed_by_name, lines_after, names_path, offset_after,
    read_failure, registered, step_fits, table_after_event, table_after_read, text_of, FileEntry,
    Notification, Step,
};

verus! {

/// A filter that rejects every line leaves no line.
pub proof fn lemma_selected_none<L: Selector>(lines: Seq<Seq<u8>>, filter: &L)
    requires
        forall|i: int| 0 <= i < lines.len() ==> !filter.selects(decode_utf8(#[trigger] lines[i])),
    ensures
        selected(lines, filter).len() == 0,
    decreases lines.len(),
{
    if lines.len() > 0 {
        let front = lines.drop_last();
        assert(forall|i: int| 0 <= i < front.len() ==> #[trigger] front[i] == lines[i]);
        lemma_selected_none(front, filter);
        assert(!filter.selects(decode_utf8(lines[lines.len() - 1])));
    }
}

/// A filter never adds a line: it keeps at most as many as there are.
pub proof fn lemma_selected_bounded<L: Selector>(lines: Seq<Seq<u8>>, filter: &L)
    ensures
        selected(lines, filter).len() <= lines.len(),
    decreases lines.len(),
{
    if lines.len() > 0 {
        lemma_selected_bounded(lines.drop_last(), filter);
    }
}

/// Every file that registration follows was found under the directory, has
/// a selected name, and is followed from the end it had when it was found.
pub proof fn lemma_registered_at_end<F: Selector>(
    files: Seq<FileEntry>,
    filter: &F,
    name: Seq<char>,
)
    requires
        registered(files, filter).contains_key(name),
    ensures
        filter.selects(name),
        exists|i: int|
            #![trigger files[i]]
            0 <= i < files.len() && files[i].name@ == name && registered(files, filter)[name]
                == (HandleView { path: files[i].path@, offset: files[i].len }),
    decreases files.len(),
{
    let file = files.last();
    let front = files.drop_last();
    if filter.selects(file.name@) && file.name@ == name {
        assert(files[files.len() - 1].name@ == name);
    } else {
        lemma_registered_at_end(front, filter, name);
        let i = choose|i: int|
            #![trigger front[i]]
            0 <= i < front.len() && front[i].name@ == name && registered(front, filter)[name]
                == (HandleView { path: front[i].path@, offset: front[i].len });
        assert(files[i] == front[i]);
    }
}

/// While the file does not shrink below the offset, a write notification
/// and the read that follows it never move the offset back: as long as the
/// file is followed its offset is no less than before, and a read that
/// does not fail keeps the file and moves the offset to the end seen.
pub proof fn lemma_offset_never_decreases<F: Selector>(
    table: Map<Seq<char>, HandleView>,
    event: &Notification,
    filter: &F,
    end: u64,
    data: Seq<u8>,
)
    requires
        is_read(event, filter),
        table.contains_key(event.name.unwrap()@),
        table[event.name.unwrap()@].offset <= end,
    ensures
        table_after_event(table, event, filter) == table,
        table_after_read(table, event.name.unwrap()@, end, data).contains_key(
            event.name.unwrap()@,
        ) ==> table_after_read(
            table,
            event.name.unwrap()@,
            end,
            data,
        )[event.name.unwrap()@].offset >= table[event.name.unwrap()@].offset,
        read_failure(table[event.name.unwrap()@].offset, end, data) is None ==> table_after_read(
            table,
            event.name.unwrap()@,
            end,
            data,
        ).contains_key(event.name.unwrap()@) && table_after_read(
            table,
            event.name.unwrap()@,
            end,
            data,
        )[event.name.unwrap()@].offset == end,
{
}

/// Two reads in a row deliver what one read of both parts would: where
/// the first part ends with a terminator, or is empty, and neither read
/// fails, the two batches one after the other are the selected lines of
/// the two parts together, and the offset ends at the second end seen.
/// So a run of appended writes delivers the lines of all that was
/// appended, and nothing of what lay before the first offset.
pub proof fn lemma_reads_compose<L: Selector>(
    table: Map<Seq<char>, HandleView>,
    name: Seq<char>,
    middle: u64,
    first: Seq<u8>,
    end: u64,
    second: Seq<u8>,
    filter: &L,
)
    requires
        table.contains_key(name),
        table[name].offset <= middle <= end,
        first.len() == 0 || first.last() == NEWLINE,
        read_failure(table[name].offset, middle, first) is None,
        read_failure(middle, end, second) is None,
    ensures
        table_after_read(table, name, middle, first)[name].offset == middle,
        table_after_read(table_after_read(table, name, middle, first), name, end, second)
            == table_after_read(table, name, end, first + second),
        read_failure(table[name].offset, end, first + second) is None,
        lines_after(table[name].offset, middle, first, filter) + lines_after(
            middle,
            end,
            second,
            filter,
        ) == lines_after(table[name].offset, end, first + second, filter),
{
    lemma_split_closed(first);
    lemma_split_append(first, second);
    lemma_selected_append(split(first), split(second), filter);
    assert(all_text(split(first) + split(second)));
    assert(table_after_read(table_after_read(table, name, middle, first), name, end, second)
        =~= table_after_read(table, name, end, first + second));
}

/// A read that fails drops the file from the table and leaves the handles
/// of all other files as they are.
pub proof fn lemma_failed_read_drops(
    table: Map<Seq<char>, HandleView>,
    name: Seq<char>,
    end: u64,
    data: Seq<u8>,
)
    requires
        table.contains_key(name),
        read_failure(table[name].offset, end, data) is Some,
    ensures
        table_after_read(table, name, end, data) == table.remove(name),
        !table_after_read(table, name, end, data).contains_key(name),
{
}

/// A truncated file is recovered without a removal: the read that sees
/// the file end before the offset delivers nothing and sets the offset to
/// 0, and the next read, of the whole new content, delivers the selected
/// lines of that content and moves the offset to its end.
pub proof fn lemma_truncation_recovery<L: Selector>(
    table: Map<Seq<char>, HandleView>,
    name: Seq<char>,
    seen: u64,
    data: Seq<u8>,
    end: u64,
    content: Seq<u8>,
    filter: &L,
)
    requires
        table.contains_key(name),
        seen < table[name].offset,
        content.len() == end,
        all_text(split(content)),
    ensures
        lines_after(table[name].offset, seen, data, filter).len() == 0,
        table_after_read(table, name, seen, data)[name].offset == 0,
        read_failure(0, end, content) is None,
        lines_after(0, end, content, filter) == selected(split(content), filter),
        lines_after(table[name].offset, seen, data, filter) + lines_after(0, end, content, filter)
            == selected(split(content), filter),
        table_after_read(table_after_read(table, name, seen, data), name, end, content)[name].offset
            == end,
{
}

/// The key that a notification adds to the table is a name that can be
/// the last component of the notification's path, for a notification
/// whose name is.
pub proof fn lemma_added_key_names_path<F: Selector>(
    table: Map<Seq<char>, HandleView>,
    event: &Notification,
    filter: &F,
    key: Seq<char>,
)
    requires
        event.name matches Some(name) ==> names_path(name@, event.path@),
        !table.contains_key(key),
        table_after_event(table, event, filter).contains_key(key),
    ensures
        names_path(key, table_after_event(table, event, filter)[key].path),
{
}

/// A file followed from its end replays nothing: the next write
/// notification asks for a read from that end, with no reopening, and if
/// the file still ends there the read delivers no line and leaves the
/// offset where it is.
pub proof fn lemma_no_replay<F: Selector, L: Selector>(
    table: Map<Seq<char>, HandleView>,
    event: &Notification,
    file_filter: &F,
    step: Step,
    len: u64,
    data: Seq<u8>,
    line_filter: &L,
)
    requires
        is_read(event, file_filter),
        table.contains_key(event.name.unwrap()@),
        table[event.name.unwrap()@].offset == len,
        step_fits(step, table, event, file_filter),
        read_failure(len, len, data) is None,
    ensures
        step matches Step::Read { name, path, offset, reopen } && offset == len && !reopen,
        lines_after(len, len, data, line_filter).len() == 0,
        offset_after(len, len) == len,
{
    assert(data.len() == 0);
}

/// The offset does not depend on the line filter: a read that does not
/// fail moves the offset to the end that was seen even where the filter
/// rejects every line and nothing is delivered.
pub proof fn lemma_offset_ignores_filter<L: Selector>(
    table: Map<Seq<char>, HandleView>,
    name: Seq<char>,
    end: u64,
    data: Seq<u8>,
    filter: &L,
)
    requires
        table.contains_key(name),
        table[name].offset <= end,
        read_failure(table[name].offset, end, data) is None,
        forall|i: int|
            0 <= i < split(data).len() ==> !filter.selects(decode_utf8(#[trigger] split(data)[i])),
    ensures
        lines_after(table[name].offset, end, data, filter).len() == 0,
        table_after_read(table, name, end, data)[name].offset == end,
{
    lemma_selected_none(split(data), filter);
}

/// A read that does not fail, of a file no shorter than the offset, moves
/// the offset by exactly the bytes of the lines of `data`, terminators
/// included.
pub proof fn lemma_offset_counts_bytes(offset: u64, end: u64, data: Seq<u8>)
    requires
        offset <= end,
        read_failure(offset, end, data) is None,
    ensures
        offset_after(offset, end) == offset + joined(split(data)).len(),
{
    lemma_split_joined(data);
}

/// After a removal, the next write notification for the same name starts
/// the file anew: it asks for a reopening and a read from offset 0 at the
/// notification's path, and the read of the new file's whole content
/// delivers the selected lines of that content and moves the offset to its
/// end, whatever the offset was before the removal.
pub proof fn lemma_rotation_recovery<F: Selector, L: Selector>(
    table: Map<Seq<char>, HandleView>,
    removal: &Notification,
    write: &Notification,
    file_filter: &F,
    step: Step,
    end: u64,
    content: Seq<u8>,
    line_filter: &L,
)
    requires
        is_removal(removal),
        is_read(write, file_filter),
        removal.name.unwrap()@ == write.name.unwrap()@,
        step_fits(step, table_after_event(table, removal, file_filter), write, file_filter),
        content.len() == end,
        all_text(split(content)),
    ensures
        step matches Step::Read { name, path, offset, reopen } && offset == 0 && reopen && path@
            == write.path@,
        table_after_event(
            table_after_event(table, removal, file_filter),
            write,
            file_filter,
        )[write.name.unwrap()@] == (HandleView { path: write.path@, offset: 0 }),
        read_failure(0, end, content) is None,
        lines_after(0, end, content, line_filter) == selected(split(content), line_filter),
        table_after_read(
            table_after_event(table_after_event(table, removal, file_filter), write, file_filter),
            write.name.unwrap()@,
            end,
            content,
        )[write.name.unwrap()@].offset == end,
{
}

/// A file that is seen to end before the offset was truncated: the read
/// does not fail, delivers no line and sets the offset back to 0, and the
/// path stays.
pub proof fn lemma_truncation_resets<L: Selector>(
    table: Map<Seq<char>, HandleView>,
    name: Seq<char>,
    end: u64,
    data: Seq<u8>,
    filter: &L,
)
    requires
        table.contains_key(name),
        end < table[name].offset,
    ensures
        read_failure(table[name].offset, end, data) is None,
        lines_after(table[name].offset, end, data, filter).len() == 0,
        table_after_read(table, name, end, data)[name] == (HandleView {
            path: table[name].path,
            offset: 0,
        }),
{
}

/// A removal leaves the table without the file, and a second removal of
/// the same file changes nothing more.
pub proof fn lemma_removal_idempotent<F: Selector>(
    table: Map<Seq<char>, HandleView>,
    event: &Notification,
    filter: &F,
)
    requires
        is_removal(event),
    ensures
        !table_after_event(table, event, filter).contains_key(event.name.unwrap()@),
        table_after_event(table_after_event(table, event, filter), event, filter)
            == table_after_event(table, event, filter),
{
    let once = table_after_event(table, event, filter);
    assert(once.remove(event.name.unwrap()@) =~= once);
}

/// A notification whose name is the last component of its path keeps
/// every key of the table the last component of its handle's path.
pub proof fn lemma_event_keeps_keys_names<F: Selector>(
    table: Map<Seq<char>, HandleView>,
    event: &Notification,
    filter: &F,
)
    requires
        keyed_by_name(table),
        text_of(event.name) == file_name_seen(event.path@),
    ensures
        keyed_by_name(table_after_event(table, event, filter)),
{
    let after = table_after_event(table, event, filter);
    assert forall|key: Seq<char>| #[trigger] after.contains_key(key) implies file_name_seen(
        after[key].path,
    ) == Some(key) by {
        if table.contains_key(key) {
        }
    }
}

/// A read keeps every key of the table the last component of its
/// handle's path: it changes no path.
pub proof fn lemma_read_keeps_keys_names(
    table: Map<Seq<char>, HandleView>,
    name: Seq<char>,
    end: u64,
    data: Seq<u8>,
)
    requires
        keyed_by_name(table),
    ensures
        keyed_by_name(table_after_read(table, name, end, data)),
{
    let after = table_after_read(table, name, end, data);
    assert forall|key: Seq<char>| #[trigger] after.contains_key(key) implies file_name_seen(
        after[key].path,
    ) == Some(key) by {
        assert(table.contains_key(key));
    }
}

/// Registration of files that are each named by the last component of
/// their path gives a table in which every key is the last component of
/// its handle's path.
pub proof fn lemma_registered_keys_names<F: Selector>(files: Seq<FileEntry>, filter: &F)
    requires
        forall|i: int|
            0 <= i < files.len() ==> file_name_seen((#[trigger] files[i]).path@) == Some(
                files[i].name@,
            ),
    ensures
        keyed_by_name(registered(files, filter)),
    decreases files.len(),
{
    if files.len() > 0 {
        let front = files.drop_last();
        assert(forall|i: int| 0 <= i < front.len() ==> #[trigger] front[i] == files[i]);
        lemma_registered_keys_names(front, filter);
        let before = registered(front, filter);
        let after = registered(files, filter);
        let file = files[files.len() - 1];
        assert forall|key: Seq<char>| #[trigger] after.contains_key(key) implies file_name_seen(
            after[key].path,
        ) == Some(key) by {
            if before.contains_key(key) {
            }
        }
    }
}

/// A read changes the handle of no other file.
pub proof fn lemma_read_is_local(
    table: Map<Seq<char>, HandleView>,
    name: Seq<char>,
    other: Seq<char>,
    end: u64,
    data: Seq<u8>,
)
    requires
        other != name,
    ensures
        table_after_read(table, name, end, data).contains_key(other) == table.contains_key(other),
        table.contains_key(other) ==> table_after_read(table, name, end, data)[other]
            == table[other],
{
}

} // verus!
