//! Configuration of a watch: the directory, the debounce interval, the kind
//! of watcher, and the two predicates that select files and lines.

use vstd::prelude::*;

verus! {

/// A predicate on text: it selects file names or lines.
pub trait Selector {
    /// Whether the predicate holds of `text`.
    spec fn selects(&self, text: Seq<char>) -> bool;

    /// Evaluates the predicate on `text`.
    fn evaluate(&self, text: &str) -> (b: bool)
        ensures
            b == self.selects(text@),
    ;
}

/// The predicate that holds of every text.
pub fn identity(_text: &str) -> (b: bool)
    ensures
        b,
{
    true
}

/// The selector that selects everything: the default for files and lines.
#[derive(Clone, Copy, Debug)]
pub struct SelectAll;

impl Selector for SelectAll {
    open spec fn selects(&self, text: Seq<char>) -> bool {
        true
    }

    fn evaluate(&self, text: &str) -> (b: bool) {
        identity(text)
    }
}

/// `str::ends_with` with a string pattern: whether `suffix` is the tail
/// of `text`, character by character.
#[verifier::external_body]
fn text_ends_with(text: &str, suffix: &str) -> (b: bool)
    ensures
        b == is_suffix_of(suffix@, text@),
{
    text.ends_with(suffix)
}

/// `str::contains` with a string pattern: whether `part` occurs somewhere
/// in `text` as a contiguous run of characters.
#[verifier::external_body]
fn text_contains(text: &str, part: &str) -> (b: bool)
    ensures
        b == occurs_in(part@, text@),
{
    text.contains(part)
}

/// `suffix` is the tail of `text`.
pub open spec fn is_suffix_of(suffix: Seq<char>, text: Seq<char>) -> bool {
    suffix.len() <= text.len() && text.subrange(text.len() - suffix.len(), text.len() as int)
        == suffix
}

/// `part` occurs in `text` as a contiguous run.
pub open spec fn occurs_in(part: Seq<char>, text: Seq<char>) -> bool {
    exists|i: int|
        0 <= i && i + part.len() <= text.len() && #[trigger] text.subrange(i, i + part.len())
            == part
}

/// Selects the texts that end with a given suffix.
pub struct EndsWith {
    pub suffix: String,
}

impl Selector for EndsWith {
    open spec fn selects(&self, text: Seq<char>) -> bool {
        is_suffix_of(self.suffix@, text)
    }

    fn evaluate(&self, text: &str) -> (b: bool) {
        text_ends_with(text, self.suffix.as_str())
    }
}

/// Selects the texts in which a given part occurs.
pub struct Contains {
    pub part: String,
}

impl Selector for Contains {
    open spec fn selects(&self, text: Seq<char>) -> bool {
        occurs_in(self.part@, text)
    }

    fn evaluate(&self, text: &str) -> (b: bool) {
        text_contains(text, self.part.as_str())
    }
}

/// `test` accepts every text, and its answer depends on the text alone.
pub open spec fn is_predicate<P: Fn(&str) -> bool>(test: P) -> bool {
    &&& forall|text: &str| call_requires(test, (text,))
    &&& forall|a: &str, b: &str, x: bool, y: bool|
        a@ == b@ && #[trigger] call_ensures(test, (a,), x) && #[trigger] call_ensures(test, (b,), y)
            ==> x == y
}

/// Selects the texts of which a function of the caller's holds.
pub struct Custom<P: Fn(&str) -> bool> {
    test: P,
}

impl<P: Fn(&str) -> bool> Custom<P> {
    #[verifier::type_invariant]
    spec fn wf(self) -> bool {
        is_predicate(self.test)
    }

    /// The function that decides.
    pub closed spec fn test(&self) -> P {
        self.test
    }

    /// The selector that asks `test`.
    pub fn new(test: P) -> (selector: Self)
        requires
            is_predicate(test),
        ensures
            selector.test() == test,
    {
        Custom { test }
    }
}

impl<P: Fn(&str) -> bool> Selector for Custom<P> {
    open spec fn selects(&self, text: Seq<char>) -> bool {
        exists|same: &str| same@ == text && #[trigger] call_ensures(self.test(), (same,), true)
    }

    fn evaluate(&self, text: &str) -> (b: bool) {
        proof {
            use_type_invariant(self);
        }
        let holds = (self.test)(text);
        proof {
            assert(call_ensures(self.test(), (text,), holds));
            if !holds {
                assert forall|same: &str| same@ == text@ implies !#[trigger] call_ensures(
                    self.test(),
                    (same,),
                    true,
                ) by {
                    if call_ensures(self.test(), (same,), true) {
                        assert(call_ensures(self.test(), (text,), false));
                    }
                }
            }
        }
        holds
    }
}

/// Which implementation watches the directory.
#[derive(Clone, Copy, Debug, PartialEq, Eq, Structural)]
pub enum WatcherType {
    /// Periodic polling.
    Poll,
    /// The event mechanism of the operating system.
    Recommend,
}

/// The configuration of one watch. It is built once and then only read.
pub struct WatchOption<F: Selector, L: Selector> {
    pub dir: String,
    pub debounce_seconds: u64,
    pub watcher_type: WatcherType,
    /// Decides whether a file is followed, by its name.
    pub file_filter: F,
    /// Decides whether a line is delivered.
    pub line_filter: L,
}

impl WatchOption<SelectAll, SelectAll> {
    /// A watch of `dir` with the given debounce interval, the recommended
    /// watcher, and predicates that select every file and every line.
    pub fn new(dir: String, seconds: u64) -> (option: Self)
        ensures
            option.dir == dir,
            option.debounce_seconds == seconds,
            option.watcher_type == WatcherType::Recommend,
            forall|text: Seq<char>| option.file_filter.selects(text),
            forall|text: Seq<char>| option.line_filter.selects(text),
    {
        WatchOption {
            dir,
            debounce_seconds: seconds,
            watcher_type: WatcherType::Recommend,
            file_filter: SelectAll,
            line_filter: SelectAll,
        }
    }
}

impl<F: Selector, L: Selector> WatchOption<F, L> {
    /// The same watch with another kind of watcher.
    pub fn watcher_type(self, watcher_type: WatcherType) -> (option: Self)
        ensures
            option.watcher_type == watcher_type,
            option.dir == self.dir,
            option.debounce_seconds == self.debounce_seconds,
            option.file_filter == self.file_filter,
            option.line_filter == self.line_filter,
    {
        WatchOption {
            dir: self.dir,
            debounce_seconds: self.debounce_seconds,
            watcher_type,
            file_filter: self.file_filter,
            line_filter: self.line_filter,
        }
    }

    /// The same watch with another predicate on file names.
    pub fn file_filter<G: Selector>(self, filter: G) -> (option: WatchOption<G, L>)
        ensures
            option.file_filter == filter,
            option.dir == self.dir,
            option.debounce_seconds == self.debounce_seconds,
            option.watcher_type == self.watcher_type,
            option.line_filter == self.line_filter,
    {
        WatchOption {
            dir: self.dir,
            debounce_seconds: self.debounce_seconds,
            watcher_type: self.watcher_type,
            file_filter: filter,
            line_filter: self.line_filter,
        }
    }

    /// The same watch with another predicate on lines.
    pub fn line_filter<M: Selector>(self, filter: M) -> (option: WatchOption<F, M>)
        ensures
            option.line_filter == filter,
            option.dir == self.dir,
            option.debounce_seconds == self.debounce_seconds,
            option.watcher_type == self.watcher_type,
            option.file_filter == self.file_filter,
    {
        WatchOption {
            dir: self.dir,
            debounce_seconds: self.debounce_seconds,
            watcher_type: self.watcher_type,
            file_filter: self.file_filter,
            line_filter: filter,
        }
    }
}

} // verus!
