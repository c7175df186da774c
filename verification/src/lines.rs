//! Lines: cutting the bytes read from a file into lines, decoding them and
//! keeping those that the line predicate selects.

use vstd::prelude::*;
use vstd::utf8::{decode_utf8, valid_utf8};
use crate::config::Selector;

verus! {

/// The byte that ends a line.
pub const NEWLINE: u8 = 10;

/// The lines of a vector of byte vectors, each as a sequence of bytes.
pub open spec fn byte_lines(lines: Seq<Vec<u8>>) -> Seq<Seq<u8>> {
    lines.map_values(|line: Vec<u8>| line@)
}

/// The texts of a vector of strings, each as a sequence of characters.
pub open spec fn texts(lines: Seq<String>) -> Seq<Seq<char>> {
    lines.map_values(|line: String| line@)
}

/// The lines one after another.
pub open spec fn joined(lines: Seq<Seq<u8>>) -> Seq<u8>
    decreases lines.len(),
{
    if lines.len() == 0 {
        Seq::empty()
    } else {
        joined(lines.drop_last()) + lines.last()
    }
}

/// There is no last line, or the last line has its terminator.
pub open spec fn closed(lines: Seq<Seq<u8>>) -> bool {
    lines.len() == 0 || (lines.last().len() > 0 && lines.last().last() == NEWLINE)
}

/// A line with its terminator: not empty, a newline at its end and nowhere else.
pub open spec fn is_whole_line(line: Seq<u8>) -> bool {
    &&& line.len() > 0
    &&& line.last() == NEWLINE
    &&& forall|i: int| 0 <= i < line.len() - 1 ==> line[i] != NEWLINE
}

/// The rest of the data after the last terminator: not empty, without a newline.
pub open spec fn is_open_line(line: Seq<u8>) -> bool {
    &&& line.len() > 0
    &&& forall|i: int| 0 <= i < line.len() ==> line[i] != NEWLINE
}

/// The lines of `data`. Each byte either opens a new line, when the line
/// before it is closed, or extends the last line. A line keeps its
/// terminator; what follows the last terminator is a line of its own.
pub open spec fn split(data: Seq<u8>) -> Seq<Seq<u8>>
    decreases data.len(),
{
    if data.len() == 0 {
        Seq::empty()
    } else {
        let before = split(data.drop_last());
        if closed(before) {
            before.push(seq![data.last()])
        } else {
            before.drop_last().push(before.last().push(data.last()))
        }
    }
}

/// `lines` cut `data` at its terminators: joined they give `data`, every
/// line but the last is a whole line, and the last is a whole line or the
/// unterminated rest.
pub open spec fn is_split_of(lines: Seq<Seq<u8>>, data: Seq<u8>) -> bool {
    &&& joined(lines) == data
    &&& forall|i: int| 0 <= i < lines.len() - 1 ==> is_whole_line(#[trigger] lines[i])
    &&& lines.len() > 0 ==> is_whole_line(lines.last()) || is_open_line(lines.last())
}

/// Every line is valid UTF-8.
pub open spec fn all_text(lines: Seq<Seq<u8>>) -> bool {
    forall|i: int| 0 <= i < lines.len() ==> valid_utf8(#[trigger] lines[i])
}

/// The lines that `filter` selects, decoded, in the order of `lines`.
pub open spec fn selected<L: Selector>(lines: Seq<Seq<u8>>, filter: &L) -> Seq<Seq<char>>
    decreases lines.len(),
{
    if lines.len() == 0 {
        Seq::empty()
    } else {
        let before = selected(lines.drop_last(), filter);
        let text = decode_utf8(lines.last());
        if filter.selects(text) {
            before.push(text)
        } else {
            before
        }
    }
}

/// Joining the lines of `data` gives `data` back: no byte is lost, added or moved.
pub proof fn lemma_split_joined(data: Seq<u8>)
    ensures
        joined(split(data)) == data,
    decreases data.len(),
{
    if data.len() > 0 {
        let front = data.drop_last();
        let before = split(front);
        lemma_split_joined(front);
        if closed(before) {
            let after = before.push(seq![data.last()]);
            assert(after.drop_last() =~= before);
            assert(after.last() == seq![data.last()]);
            assert(front + seq![data.last()] =~= data);
        } else {
            let after = before.drop_last().push(before.last().push(data.last()));
            assert(after.drop_last() =~= before.drop_last());
            assert(after.last() == before.last().push(data.last()));
            assert(joined(before) == joined(before.drop_last()) + before.last());
            assert(joined(after) =~= front + seq![data.last()]);
            assert(front + seq![data.last()] =~= data);
        }
    }
}

/// The shape of the lines of `data`: every line but the last is a whole
/// line, and the last is a whole line or the unterminated rest.
pub proof fn lemma_split_shape(data: Seq<u8>)
    ensures
        forall|i: int| 0 <= i < split(data).len() - 1 ==> is_whole_line(#[trigger] split(data)[i]),
        split(data).len() > 0 ==> is_whole_line(split(data).last()) || is_open_line(
            split(data).last(),
        ),
        split(data).len() == 0 <==> data.len() == 0,
    decreases data.len(),
{
    if data.len() > 0 {
        let front = data.drop_last();
        let before = split(front);
        lemma_split_shape(front);
        if closed(before) {
            let after = before.push(seq![data.last()]);
            assert(forall|i: int| 0 <= i < after.len() - 1 ==> after[i] == before[i]);
            if before.len() > 0 {
                assert(is_whole_line(before.last()));
            }
        } else {
            let line = before.last().push(data.last());
            let after = before.drop_last().push(line);
            assert(is_open_line(before.last()));
            assert(forall|i: int| 0 <= i < after.len() - 1 ==> after[i] == before[i]);
            assert(forall|i: int| 0 <= i < line.len() - 1 ==> line[i] == before.last()[i]);
        }
    }
}

/// The lines of `data` cut `data` at its terminators.
pub proof fn lemma_split_cuts(data: Seq<u8>)
    ensures
        is_split_of(split(data), data),
{
    lemma_split_joined(data);
    lemma_split_shape(data);
}

/// Only the lines of `data` cut `data` at its terminators.
pub proof fn lemma_split_unique(lines: Seq<Seq<u8>>, data: Seq<u8>)
    requires
        is_split_of(lines, data),
    ensures
        lines == split(data),
    decreases data.len(),
{
    if lines.len() == 0 {
        assert(lines =~= split(data));
    } else {
        let last = lines.last();
        let byte = last.last();
        let front = data.drop_last();
        assert(data =~= joined(lines.drop_last()) + last);
        assert(front =~= joined(lines.drop_last()) + last.drop_last());
        if last.len() == 1 {
            let rest = lines.drop_last();
            assert(joined(rest) =~= front);
            assert(forall|i: int| 0 <= i < rest.len() ==> #[trigger] rest[i] == lines[i]);
            if rest.len() > 0 {
                assert(is_whole_line(lines[rest.len() - 1]));
            }
            lemma_split_unique(rest, front);
            assert(last =~= seq![byte]);
            assert(lines =~= rest.push(last));
        } else {
            let stem = last.drop_last();
            let rest = lines.drop_last().push(stem);
            assert(rest.drop_last() =~= lines.drop_last());
            assert(joined(rest) =~= front);
            assert(forall|i: int| 0 <= i < rest.len() - 1 ==> #[trigger] rest[i] == lines[i]);
            assert(forall|i: int| 0 <= i < stem.len() ==> stem[i] == last[i]);
            assert(is_open_line(stem));
            lemma_split_unique(rest, front);
            assert(stem.push(byte) =~= last);
            assert(lines =~= lines.drop_last().push(last));
        }
    }
}

/// The lines of data that ends with a terminator are closed, and so are
/// the lines of no data.
pub proof fn lemma_split_closed(data: Seq<u8>)
    requires
        data.len() == 0 || data.last() == NEWLINE,
    ensures
        closed(split(data)),
{
    if data.len() > 0 {
        let before = split(data.drop_last());
        if !closed(before) {
            assert(split(data).last() == before.last().push(data.last()));
        }
    }
}

/// Data that follows closed lines is cut on its own: the lines of the
/// whole are the lines of the first part and then the lines of the second.
pub proof fn lemma_split_append(first: Seq<u8>, second: Seq<u8>)
    requires
        closed(split(first)),
    ensures
        split(first + second) == split(first) + split(second),
    decreases second.len(),
{
    if second.len() == 0 {
        assert(first + second =~= first);
        assert(split(first) + split(second) =~= split(first));
    } else {
        let front = second.drop_last();
        let byte = second.last();
        assert((first + second).drop_last() =~= first + front);
        assert((first + second).last() == byte);
        lemma_split_append(first, front);
        let whole = split(first) + split(front);
        if split(front).len() == 0 {
            assert(whole =~= split(first));
            assert(split(first + second) =~= split(first) + split(second));
        } else {
            assert(whole.last() == split(front).last());
            assert(whole.drop_last() =~= split(first) + split(front).drop_last());
            assert(split(first + second) =~= split(first) + split(second));
        }
    }
}

/// Selecting from lines one after another selects from each in turn.
pub proof fn lemma_selected_append<L: Selector>(
    first: Seq<Seq<u8>>,
    second: Seq<Seq<u8>>,
    filter: &L,
)
    ensures
        selected(first + second, filter) == selected(first, filter) + selected(second, filter),
    decreases second.len(),
{
    if second.len() == 0 {
        assert(first + second =~= first);
        assert(selected(first, filter) + selected(second, filter) =~= selected(first, filter));
    } else {
        assert((first + second).drop_last() =~= first + second.drop_last());
        assert((first + second).last() == second.last());
        lemma_selected_append(first, second.drop_last(), filter);
        assert(selected(first + second, filter) =~= selected(first, filter) + selected(
            second,
            filter,
        ));
    }
}

/// Cuts `data` into its lines.
pub fn split_lines(data: &[u8]) -> (lines: Vec<Vec<u8>>)
    ensures
        byte_lines(lines@) == split(data@),
{
    let mut done: Vec<Vec<u8>> = Vec::new();
    let mut current: Vec<u8> = Vec::new();
    let mut i: usize = 0;
    assert(byte_lines(done@) =~= split(data@.take(0)));
    while i < data.len()
        invariant
            i <= data.len(),
            closed(byte_lines(done@)),
            current@.len() == 0 ==> byte_lines(done@) == split(data@.take(i as int)),
            current@.len() > 0 ==> byte_lines(done@).push(current@) == split(data@.take(i as int))
                && current@.last() != NEWLINE,
        decreases data.len() - i,
    {
        let byte = data[i];
        let ghost before = split(data@.take(i as int));
        let ghost old_done = done@;
        let ghost old_current = current@;
        current.push(byte);
        proof {
            assert(data@.take(i + 1).drop_last() =~= data@.take(i as int));
            assert(data@.take(i + 1).last() == byte);
            if old_current.len() == 0 {
                assert(current@ =~= seq![byte]);
            } else {
                assert(before.drop_last() =~= byte_lines(old_done));
                assert(before.last() == old_current);
                assert(!closed(before));
            }
            assert(byte_lines(old_done).push(current@) == split(data@.take(i + 1)));
        }
        if byte == NEWLINE {
            done.push(current);
            current = Vec::new();
            assert(byte_lines(done@) =~= byte_lines(old_done).push(done@.last()@));
        }
        i += 1;
    }
    assert(data@.take(i as int) =~= data@);
    if current.len() > 0 {
        let ghost old_done = done@;
        done.push(current);
        assert(byte_lines(done@) =~= byte_lines(old_done).push(done@.last()@));
    }
    done
}

/// `String::from_utf8`: the text that `bytes` encode, for exactly the
/// byte sequences that are valid UTF-8; nothing for the others.
#[verifier::external_body]
fn decode_line(bytes: &[u8]) -> (text: Option<String>)
    ensures
        text is Some <==> valid_utf8(bytes@),
        text matches Some(t) ==> t@ == decode_utf8(bytes@),
{
    String::from_utf8(bytes.to_vec()).ok()
}

/// Decodes the lines and keeps those that `filter` selects, in order.
/// There is a result exactly when every line is valid UTF-8.
pub fn select_lines<L: Selector>(lines: &Vec<Vec<u8>>, filter: &L) -> (kept: Option<Vec<String>>)
    ensures
        kept is Some <==> all_text(byte_lines(lines@)),
        kept matches Some(out) ==> texts(out@) == selected(byte_lines(lines@), filter),
{
    let mut out: Vec<String> = Vec::new();
    let mut i: usize = 0;
    assert(texts(out@) =~= selected(byte_lines(lines@).take(0), filter));
    while i < lines.len()
        invariant
            i <= lines.len(),
            all_text(byte_lines(lines@).take(i as int)),
            texts(out@) == selected(byte_lines(lines@).take(i as int), filter),
        decreases lines.len() - i,
    {
        let ghost all = byte_lines(lines@);
        let ghost old_out = out@;
        assert(all.take(i + 1).drop_last() =~= all.take(i as int));
        assert(all.take(i + 1).last() == lines@[i as int]@);
        match decode_line(lines[i].as_slice()) {
            None => {
                assert(!valid_utf8(all[i as int]));
                return None;
            },
            Some(text) => {
                if filter.evaluate(text.as_str()) {
                    out.push(text);
                    assert(texts(out@) =~= texts(old_out).push(text@));
                }
            },
        }
        assert(all_text(all.take(i + 1))) by {
            assert forall|j: int| 0 <= j < all.take(i + 1).len() implies valid_utf8(
                #[trigger] all.take(i + 1)[j],
            ) by {
                if j < i {
                    assert(all.take(i as int)[j] == all[j]);
                }
            }
        }
        i += 1;
    }
    assert(byte_lines(lines@).take(i as int) =~= byte_lines(lines@));
    Some(out)
}

} // verus!
