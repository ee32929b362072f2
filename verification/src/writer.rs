//! When changes of the index are committed.

use tantivy::TantivyDocument;
use vstd::prelude::*;

use crate::document::document_values;
use crate::document::event_document;
use crate::document::event_values;
use crate::document::holds;
use crate::document::lemma_event_holds;
use crate::document::values_fit;
use crate::events::Event;
use crate::index::Index;
use crate::query::Term;
use crate::query::TermView;
use crate::schema::Field;

verus! {

/// The search engine requires at least 15 MB of heap per writer thread, and
/// returns an error if it gets less. There is a single writer thread with
/// 50 MB of heap.
pub const TANTIVY_WRITER_HEAP_SIZE: usize = 50_000_000;

/// How many events are added before a commit, where it was not long ago.
pub const COMMIT_RATE: usize = 500;

/// How long to wait between commits if there aren't enough events, in
/// nanoseconds.
pub const COMMIT_TIME: u128 = 5_000_000_000;

/// Decides when changes of the index are committed.
///
/// Every commit makes the search engine merge segments of the index in the
/// background. If commits come faster than that, the work piles up.
#[derive(Clone, Copy, Debug, PartialEq, Eq, Structural)]
pub struct Writer {
    /// Number of events added or deleted since the last commit.
    pub events_pending_commit: usize,
    /// Commit once this many events are pending.
    pub commit_rate: usize,
    /// Commit once this much time passed, in nanoseconds.
    pub commit_time: u128,
}

impl Index {
    /// What decides about the commits of the index.
    pub fn get_writer(&self) -> (writer: Writer)
        ensures
            writer == (Writer {
                events_pending_commit: 0,
                commit_rate: COMMIT_RATE,
                commit_time: COMMIT_TIME,
            }),
            writer.commit_rate == 500,
            writer.commit_time == 5_000_000_000,
    {
        Writer { events_pending_commit: 0, commit_rate: COMMIT_RATE, commit_time: COMMIT_TIME }
    }
}

impl Writer {
    /// Whether it is time to commit, `elapsed` nanoseconds after the last
    /// commit.
    pub open spec fn due(self, elapsed: u128) -> bool {
        &&& self.events_pending_commit > 0
        &&& self.events_pending_commit >= self.commit_rate || elapsed >= self.commit_time
    }

    /// Whether to commit now, `elapsed` nanoseconds after the last commit.
    pub fn commit(&self, elapsed: u128) -> (now: bool)
        ensures
            now == self.due(elapsed),
            now <==> self.events_pending_commit > 0 && (self.events_pending_commit
                >= self.commit_rate || elapsed >= self.commit_time),
    {
        self.commit_helper(false, elapsed)
    }

    /// Whether there is anything to commit.
    pub fn force_commit(&self) -> (now: bool)
        ensures
            now == (self.events_pending_commit > 0),
    {
        self.commit_helper(true, 0)
    }

    fn commit_helper(&self, force: bool, elapsed: u128) -> (now: bool)
        ensures
            now == (self.events_pending_commit > 0 && (force || self.due(elapsed))),
    {
        self.events_pending_commit > 0 && (force || self.events_pending_commit >= self.commit_rate
            || elapsed >= self.commit_time)
    }

    /// A commit succeeded.
    pub fn committed(&mut self)
        ensures
            *final(self) == (Writer { events_pending_commit: 0, ..*old(self) }),
    {
        self.events_pending_commit = 0;
    }

    /// Change how often to commit, instead of `COMMIT_RATE` and `COMMIT_TIME`.
    ///
    /// # Arguments
    ///
    /// * `events` - Commit once this many events are pending.
    /// * `time` - Commit once this much time passed since the last commit, in
    ///   nanoseconds.
    pub fn set_commit_rate(&mut self, events: usize, time: u128)
        ensures
            *final(self) == (Writer { commit_rate: events, commit_time: time, ..*old(self) }),
    {
        self.commit_rate = events;
        self.commit_time = time;
    }

    /// The document to add to the index for an event. Nothing is said of an
    /// event whose texts take more than four gigabytes.
    pub fn add_event(&self, event: &Event) -> (doc: TantivyDocument)
        ensures
            values_fit(event_values(*event)) ==> document_values(doc) == event_values(*event),
    {
        event_document(event)
    }

    /// The document of an event was added.
    pub fn event_added(&mut self)
        requires
            old(self).events_pending_commit < usize::MAX,
        ensures
            *final(self) == (Writer {
                events_pending_commit: (old(self).events_pending_commit + 1) as usize,
                ..*old(self)
            }),
    {
        self.events_pending_commit = self.events_pending_commit + 1;
    }

    /// The token to delete all documents of from the index, so that the event
    /// with the given event id is gone.
    pub fn delete_event(&mut self, event_id: &str) -> (term: Term)
        requires
            old(self).events_pending_commit < usize::MAX,
        ensures
            term@ == id_term(event_id@),
            term.field == Field::EventId,
            term.text@ == event_id@,
            *final(self) == (Writer {
                events_pending_commit: (old(self).events_pending_commit + 1) as usize,
                ..*old(self)
            }),
    {
        self.events_pending_commit = self.events_pending_commit + 1;
        Term { field: Field::EventId, text: event_id.to_owned() }
    }
}

/// The token that the event with an id has.
pub open spec fn id_term(event_id: Seq<char>) -> TermView {
    TermView { field: Field::EventId, text: event_id }
}

/// To delete an event deletes the events with its id, and no others.
pub proof fn law_delete_finds_the_event(event: Event, event_id: Seq<char>)
    ensures
        holds(event_values(event), id_term(event_id)) <==> event.event_id@ == event_id,
{
    lemma_event_holds(event, id_term(event_id));
}

/// Nothing is committed twice: behind a commit, none is due until another
/// event was added or deleted.
pub proof fn law_no_empty_commits(writer: Writer, elapsed: u128)
    ensures
        !(Writer { events_pending_commit: 0, ..writer }).due(elapsed),
{
}

/// A commit that is due stays due, whatever is added and however long it
/// takes.
pub proof fn law_due_commits_stay_due(
    writer: Writer,
    elapsed: u128,
    later: Writer,
    later_elapsed: u128,
)
    requires
        writer.due(elapsed),
        later.events_pending_commit >= writer.events_pending_commit,
        later.commit_rate == writer.commit_rate,
        later.commit_time == writer.commit_time,
        later_elapsed >= elapsed,
    ensures
        later.due(later_elapsed),
{
}

/// Pending events are committed once enough time passed, however few they are.
pub proof fn law_time_commits(writer: Writer, elapsed: u128)
    requires
        writer.events_pending_commit >= 1,
        elapsed >= writer.commit_time,
    ensures
        writer.due(elapsed),
{
}

/// Enough pending events are committed, however little time passed.
pub proof fn law_enough_events_commit(writer: Writer, elapsed: u128)
    requires
        writer.events_pending_commit >= 1,
        writer.events_pending_commit >= writer.commit_rate,
    ensures
        writer.due(elapsed),
{
}

/// Too few events are not committed too soon.
pub proof fn law_few_events_wait(writer: Writer, elapsed: u128)
    requires
        writer.events_pending_commit < writer.commit_rate,
        elapsed < writer.commit_time,
    ensures
        !writer.due(elapsed),
{
}

/// The writer gets 50 MB of heap, more than the 15 MB that the search engine
/// requires of its single thread.
pub proof fn law_writer_heap()
    ensures
        TANTIVY_WRITER_HEAP_SIZE == 50_000_000,
        TANTIVY_WRITER_HEAP_SIZE >= 15_000_000,
{
}

} // verus!
