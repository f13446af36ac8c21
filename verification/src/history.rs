//! A bounded history of submitted lines, with a way to browse it that keeps
//! the line under edit.

use circular_buffer::CircularBuffer;
use vstd::prelude::*;
use vstd::string::*;

use crate::stdstr::trim;
use crate::text::{lemma_trimmed_idempotent, trimmed};

verus! {

/// How many lines the history keeps.
pub const CAPACITY: usize = 16;

/// The `circular_buffer` ring, whose fields Verus does not look into.
#[verifier::external_type_specification]
#[verifier::external_body]
#[verifier::reject_recursive_types(T)]
pub struct ExCircularBuffer<const N: usize, T>(CircularBuffer<N, T>);

/// The lines that a ring holds, oldest first.
pub uninterp spec fn ring_lines(ring: CircularBuffer<16, String>) -> Seq<Seq<char>>;

/// `CircularBuffer::new`: a ring that holds nothing.
#[verifier::external_body]
fn ring_new() -> (ring: CircularBuffer<16, String>)
    ensures
        ring_lines(ring) == Seq::<Seq<char>>::empty(),
{
    CircularBuffer::new()
}

/// `CircularBuffer::len`: the number of lines held, never more than the ring
/// has room for.
#[verifier::external_body]
fn ring_len(ring: &CircularBuffer<16, String>) -> (n: usize)
    ensures
        n == ring_lines(*ring).len(),
        n <= 16,
{
    ring.len()
}

/// `CircularBuffer::is_empty`: whether the ring holds nothing.
#[verifier::external_body]
fn ring_is_empty(ring: &CircularBuffer<16, String>) -> (empty: bool)
    ensures
        empty == (ring_lines(*ring).len() == 0),
{
    ring.is_empty()
}

/// `CircularBuffer::back`: the line added last, if there is any.
#[verifier::external_body]
fn ring_back(ring: &CircularBuffer<16, String>) -> (line: Option<&String>)
    ensures
        ring_lines(*ring).len() == 0 ==> line is None,
        ring_lines(*ring).len() > 0 ==> line is Some && line->0@ == ring_lines(*ring).last(),
{
    ring.back()
}

/// `CircularBuffer::nth_back`: the line `index` places before the one added
/// last, if the ring holds that many.
#[verifier::external_body]
fn ring_nth_back(ring: &CircularBuffer<16, String>, index: usize) -> (line: Option<&String>)
    ensures
        index >= ring_lines(*ring).len() ==> line is None,
        index < ring_lines(*ring).len() ==> line is Some && line->0@ == ring_lines(
            *ring,
        )[ring_lines(*ring).len() - 1 - index],
{
    ring.nth_back(index)
}

/// `CircularBuffer::push_back`: the line is added at the back; a ring that is
/// full loses its oldest line for it.
#[verifier::external_body]
fn ring_push_back(ring: &mut CircularBuffer<16, String>, line: String)
    ensures
        ring_lines(*final(ring)) == pushed(ring_lines(*old(ring)), line@),
{
    ring.push_back(line);
}

/// `entries` with `line` added at the back, the oldest entry dropped where
/// there is no room left.
pub open spec fn pushed(entries: Seq<Seq<char>>, line: Seq<char>) -> Seq<Seq<char>> {
    if entries.len() < CAPACITY {
        entries.push(line)
    } else {
        entries.drop_first().push(line)
    }
}

/// The state of a history.
pub struct Browsing {
    /// The lines kept, oldest first.
    pub entries: Seq<Seq<char>>,
    /// While browsing, how many entries back from the most recent one the
    /// view stands.
    pub viewing: Option<int>,
    /// While browsing, the line that was under edit when browsing began.
    pub saved: Option<Seq<char>>,
}

impl Browsing {
    /// At most `CAPACITY` entries, none of them blank or with whitespace at
    /// its ends, and no entry next to an equal one; the view, if any, stands
    /// on an entry; and a line is saved exactly while browsing.
    pub open spec fn wf(self) -> bool {
        &&& self.entries.len() <= CAPACITY
        &&& forall|i: int|
            0 <= i < self.entries.len() ==> (#[trigger] self.entries[i]).len() > 0 && trimmed(
                self.entries[i],
            ) == self.entries[i]
        &&& forall|i: int|
            0 < i < self.entries.len() ==> #[trigger] self.entries[i] != self.entries[i - 1]
        &&& (self.viewing matches Some(n) ==> 0 <= n < self.entries.len())
        &&& (self.viewing is Some <==> self.saved is Some)
    }

    /// The empty history.
    pub open spec fn empty() -> Browsing {
        Browsing { entries: Seq::empty(), viewing: None, saved: None }
    }

    /// The entry `n` places back from the most recent one.
    pub open spec fn entry_back(self, n: int) -> Seq<char> {
        self.entries[self.entries.len() - 1 - n]
    }

    /// Whether adding `line` changes nothing: it is blank, or it repeats the
    /// most recent entry.
    pub open spec fn rejects(self, line: Seq<char>) -> bool {
        trimmed(line).len() == 0 || (self.entries.len() > 0 && self.entries.last() == trimmed(
            line,
        ))
    }

    /// The history after `line` is added.
    pub open spec fn add(self, line: Seq<char>) -> Browsing {
        if self.rejects(line) {
            self
        } else {
            Browsing { entries: pushed(self.entries, trimmed(line)), viewing: None, saved: None }
        }
    }

    /// The history after a step towards older entries, with `current` as the
    /// line under edit.
    pub open spec fn previous(self, current: Seq<char>) -> Browsing {
        if self.entries.len() == 0 {
            self
        } else {
            match self.viewing {
                Some(n) => if n < self.entries.len() - 1 {
                    Browsing { viewing: Some(n + 1), ..self }
                } else {
                    self
                },
                None => Browsing { viewing: Some(0), saved: Some(current), ..self },
            }
        }
    }

    /// The line that a step towards older entries shows.
    pub open spec fn previous_line(self, current: Seq<char>) -> Option<Seq<char>> {
        match self.previous(current).viewing {
            Some(n) => Some(self.entry_back(n)),
            None => None,
        }
    }

    /// The history after a step towards newer entries.
    pub open spec fn next(self) -> Browsing {
        match self.viewing {
            Some(n) => if n > 0 {
                Browsing { viewing: Some(n - 1), ..self }
            } else {
                Browsing { viewing: None, saved: None, ..self }
            },
            None => self,
        }
    }

    /// The line that a step towards newer entries shows: an entry, or the
    /// saved line when the step leaves the most recent entry.
    pub open spec fn next_line(self) -> Option<Seq<char>> {
        match self.viewing {
            Some(n) => if n > 0 {
                Some(self.entry_back(n - 1))
            } else {
                self.saved
            },
            None => None,
        }
    }

    /// The history after browsing is given up.
    pub open spec fn reset_view(self) -> Browsing {
        Browsing { viewing: None, saved: None, ..self }
    }
}

/// A history of at most sixteen lines; the oldest line leaves when a
/// seventeenth is added.
///
/// While the history is browsed it keeps the line that was under edit.
pub struct History {
    entries: CircularBuffer<16, String>,
    viewing_entry: Option<usize>,
    saved_line: Option<String>,
}

impl View for History {
    type V = Browsing;

    closed spec fn view(&self) -> Browsing {
        Browsing {
            entries: ring_lines(self.entries),
            viewing: match self.viewing_entry {
                Some(n) => Some(n as int),
                None => None,
            },
            saved: match self.saved_line {
                Some(line) => Some(line@),
                None => None,
            },
        }
    }
}

impl History {
    /// Construct an empty history.
    pub fn new() -> (history: Self)
        ensures
            history@ == Browsing::empty(),
            history@.wf(),
    {
        Self { entries: ring_new(), viewing_entry: None, saved_line: None }
    }

    /// The number of lines kept.
    pub fn len(&self) -> (n: usize)
        ensures
            n == self@.entries.len(),
    {
        ring_len(&self.entries)
    }

    /// Add `line` to the history, without the whitespace at its ends.
    ///
    /// A blank line is not added, nor one that repeats the line added last.
    /// Adding a line ends browsing.
    pub fn add(&mut self, line: &str)
        requires
            old(self)@.wf(),
        ensures
            final(self)@ == old(self)@.add(line@),
            final(self)@.wf(),
    {
        proof {
            lemma_add_keeps_wf(self@, line@);
        }
        let line = trim(line);

        if line.is_empty() {
            return ;
        }
        let line = line.to_owned();

        if let Some(last) = ring_back(&self.entries) {
            if *last == line {
                return ;
            }
        }
        ring_push_back(&mut self.entries, line);
        self.viewing_entry = None;
        self.saved_line = None;
    }

    /// Step to the previous, older entry and return it.
    ///
    /// The first step keeps `current_line`, which comes back when browsing
    /// ends. At the oldest entry the view stays where it is. Returns `None`
    /// if the history is empty.
    pub fn previous(&mut self, current_line: &str) -> (line: Option<&str>)
        requires
            old(self)@.wf(),
        ensures
            final(self)@ == old(self)@.previous(current_line@),
            final(self)@.wf(),
            line is Some == old(self)@.previous_line(current_line@) is Some,
            line matches Some(l) ==> Some(l@) == old(self)@.previous_line(current_line@),
    {
        if ring_is_empty(&self.entries) {
            return None;
        }
        let at: usize = match self.viewing_entry {
            Some(n) => {
                if n < ring_len(&self.entries) - 1 {
                    n + 1
                } else {
                    n
                }
            },
            None => {
                self.saved_line = Some(current_line.to_owned());
                0
            },
        };
        self.viewing_entry = Some(at);

        match ring_nth_back(&self.entries, at) {
            Some(entry) => Some(entry.as_str()),
            None => None,
        }
    }

    /// Step to the next, more recent entry and return it.
    ///
    /// The step from the most recent entry ends browsing and returns the
    /// line that was kept when browsing began. Returns `None` if the history
    /// is not being browsed.
    pub fn next(&mut self) -> (line: Option<String>)
        requires
            old(self)@.wf(),
        ensures
            final(self)@ == old(self)@.next(),
            final(self)@.wf(),
            line is Some == old(self)@.next_line() is Some,
            line matches Some(l) ==> Some(l@) == old(self)@.next_line(),
    {
        match self.viewing_entry {
            Some(n) => {
                if n > 0 {
                    self.viewing_entry = Some(n - 1);
                    match ring_nth_back(&self.entries, n - 1) {
                        Some(entry) => Some(entry.clone()),
                        None => None,
                    }
                } else {
                    self.viewing_entry = None;
                    self.saved_line.take()
                }
            },
            None => None,
        }
    }

    /// Give up browsing. The line that was kept when browsing began is dropped.
    pub fn reset_view(&mut self)
        ensures
            final(self)@ == old(self)@.reset_view(),
            old(self)@.wf() ==> final(self)@.wf(),
    {
        self.viewing_entry = None;
        self.saved_line = None;
    }
}

/// Adding a line keeps the history well-formed: it never grows past its
/// capacity, holds no blank entry, and no entry twice in a row.
pub proof fn lemma_add_keeps_wf(history: Browsing, line: Seq<char>)
    requires
        history.wf(),
    ensures
        history.add(line).wf(),
        history.add(line).entries.len() <= CAPACITY,
{
    if !history.rejects(line) {
        let t = trimmed(line);
        lemma_trimmed_idempotent(line);
        let before = history.entries;
        let after = history.add(line).entries;
        if before.len() < CAPACITY {
            assert forall|i: int| 0 <= i < after.len() implies (#[trigger] after[i]).len() > 0
                && trimmed(after[i]) == after[i] by {
                if i < before.len() {
                    assert(after[i] == before[i]);
                }
            }
            assert forall|i: int| 0 < i < after.len() implies #[trigger] after[i] != after[i
                - 1] by {
                if i < before.len() {
                    assert(after[i] == before[i]);
                    assert(after[i - 1] == before[i - 1]);
                }
            }
        } else {
            assert forall|i: int| 0 <= i < after.len() implies (#[trigger] after[i]).len() > 0
                && trimmed(after[i]) == after[i] by {
                if i < after.len() - 1 {
                    assert(after[i] == before[i + 1]);
                }
            }
            assert forall|i: int| 0 < i < after.len() implies #[trigger] after[i] != after[i
                - 1] by {
                assert(after[i - 1] == before[i]);
                if i < after.len() - 1 {
                    assert(after[i] == before[i + 1]);
                }
            }
        }
    }
}

/// A line that was just added is not added again.
pub proof fn lemma_add_twice(history: Browsing, line: Seq<char>)
    ensures
        history.add(line).add(line) == history.add(line),
{
}

/// A full history loses its oldest entry to a line that it accepts, and
/// keeps the others in their order.
pub proof fn lemma_add_evicts_oldest(history: Browsing, line: Seq<char>)
    requires
        history.wf(),
        history.entries.len() == CAPACITY,
        !history.rejects(line),
    ensures
        history.add(line).entries.len() == CAPACITY,
        history.add(line).entries.last() == trimmed(line),
        forall|i: int|
            0 <= i < CAPACITY - 1 ==> #[trigger] history.add(line).entries[i]
                == history.entries[i + 1],
{
}

/// Browsing keeps the history well-formed and changes no entry.
pub proof fn lemma_browsing_keeps_wf(history: Browsing, current: Seq<char>)
    requires
        history.wf(),
    ensures
        history.previous(current).wf(),
        history.next().wf(),
        history.reset_view().wf(),
        history.previous(current).entries == history.entries,
        history.next().entries == history.entries,
        history.reset_view().entries == history.entries,
{
}

/// The first step back shows the most recent entry, and the step forward
/// from there ends browsing and gives back the line that was under edit.
pub proof fn lemma_browse_and_return(history: Browsing, current: Seq<char>)
    requires
        history.wf(),
        history.viewing is None,
        history.entries.len() > 0,
    ensures
        history.previous_line(current) == Some(history.entries.last()),
        history.previous(current).next_line() == Some(current),
        history.previous(current).next() == history,
{
}

} // verus!
