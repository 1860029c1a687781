//! Keeping the queue over a restart.
//!
//! The queue goes into a file of its own beside the daemon's state. A
//! restart brings it back, but plays nothing by itself.

use vstd::prelude::*;

use crate::model::{track_views, LoopMode, Track, TrackView};
use crate::paths::{join_path, path_joined, Paths};
use crate::protocol::{Event, EventView};
use crate::queue::{drawn, Queue, QueueModel};
use crate::radio::index_shown;
use crate::text::concat2;

verus! {

/// The name of the file.
pub const QUEUE_FILE: &'static str = "queue.json";

/// What is kept: the tracks in their original order, and the place in that
/// order.
#[derive(Debug, PartialEq, Eq)]
pub struct PersistState {
    pub queue: Vec<Track>,
    pub index: Option<usize>,
    pub loop_mode: LoopMode,
    pub shuffle: bool,
}

#[verifier::ext_equal]
pub struct PersistView {
    pub queue: Seq<TrackView>,
    pub index: Option<usize>,
    pub loop_mode: LoopMode,
    pub shuffle: bool,
}

impl View for PersistState {
    type V = PersistView;

    open spec fn view(&self) -> PersistView {
        PersistView {
            queue: track_views(self.queue@),
            index: self.index,
            loop_mode: self.loop_mode,
            shuffle: self.shuffle,
        }
    }
}

/// Where the queue is kept.
pub fn queue_file(paths: &Paths) -> (r: String)
    ensures
        r@ == path_joined(paths@.state, "queue.json"@),
{
    join_path(paths.state_dir(), QUEUE_FILE)
}

/// The file that is written first and then renamed, so that a broken write
/// leaves no broken file behind.
pub fn queue_temp_file(paths: &Paths) -> (r: String)
    ensures
        r@ == path_joined(paths@.state, "queue.json"@) + ".tmp"@,
{
    concat2(queue_file(paths).as_str(), ".tmp")
}

/// What a queue leaves behind.
pub open spec fn snapshot_of(queue: QueueModel) -> PersistView {
    PersistView {
        queue: queue.tracks,
        index: index_shown(queue),
        loop_mode: queue.loop_mode,
        shuffle: queue.shuffle,
    }
}

/// What is to be kept of a queue.
pub fn snapshot(queue: &Queue) -> (r: PersistState)
    requires
        queue.wf(),
    ensures
        r@ == snapshot_of(queue@),
{
    PersistState {
        queue: crate::app::slice_tracks(queue.tracks()),
        index: queue.current_index(),
        loop_mode: queue.loop_mode(),
        shuffle: queue.shuffle(),
    }
}

/// Whether a queue is what was kept. The order under shuffling is drawn
/// anew; a place that is out of bounds is dropped.
pub open spec fn restored_from(queue: QueueModel, state: PersistView) -> bool {
    &&& queue.tracks == state.queue
    &&& queue.loop_mode == state.loop_mode
    &&& queue.shuffle == state.shuffle
    &&& state.shuffle ==> drawn(queue.order)
    &&& queue.current_index() == (match state.index {
        Some(i) => if i < state.queue.len() {
            Some(i as int)
        } else {
            None
        },
        None => None,
    })
}

/// Brings back what was kept.
pub fn restore(queue: &mut Queue, state: PersistState)
    requires
        old(queue).wf(),
    ensures
        final(queue).wf(),
        restored_from(final(queue)@, state@),
{
    queue.restore(state.queue, state.index, state.loop_mode, state.shuffle);
}

/// What was kept of a queue and brought back is kept the same again: the
/// tracks, the place and the modes survive a restart.
pub proof fn lemma_queue_survives_a_restart(before: QueueModel, after: QueueModel)
    requires
        before.valid(),
        restored_from(after, snapshot_of(before)),
    ensures
        snapshot_of(after) == snapshot_of(before),
        after.current_index() == before.current_index(),
{
    if let Some(c) = before.cursor {
        assert(before.order.contains(before.order[c]));
        assert((before.order[c] as int) < before.tracks.len());
    }
}

/// Whether the queue has changed since it was written.
pub struct Persist {
    dirty: bool,
}

impl View for Persist {
    type V = bool;

    closed spec fn view(&self) -> bool {
        self.dirty
    }
}

/// Whether an event tells of a change of what is kept.
pub open spec fn touches_queue(event: EventView) -> bool {
    event is QueueChanged || event is TrackChanged
}

impl Persist {
    pub fn new() -> (r: Self)
        ensures
            !r@,
    {
        Persist { dirty: false }
    }

    /// Takes note of an event.
    pub fn note(&mut self, event: &Event)
        ensures
            final(self)@ == (old(self)@ || touches_queue(event@)),
    {
        if matches!(event, Event::QueueChanged { .. } | Event::TrackChanged { .. }) {
            self.dirty = true;
        }
    }

    /// The tick of the clock: is the queue to be written?
    pub fn tick(&mut self) -> (r: bool)
        ensures
            r == old(self)@,
            !final(self)@,
    {
        let due: bool = self.dirty;
        self.dirty = false;
        due
    }
}

/// A restart keeps the tracks in their order, the current one and the
/// modes; a place that the list does not have is dropped, and then no track
/// is current.
pub proof fn lemma_a_restart_keeps_the_music(
    before: QueueModel,
    after: QueueModel,
    other: QueueModel,
    place: usize,
)
    requires
        before.valid(),
        restored_from(after, snapshot_of(before)),
        restored_from(other, PersistView { index: Some(place), ..snapshot_of(before) }),
    ensures
        after.tracks == before.tracks,
        after.loop_mode == before.loop_mode,
        after.shuffle == before.shuffle,
        after.current_index() == before.current_index(),
        place >= before.tracks.len() ==> other.current_index() is None,
        place < before.tracks.len() ==> other.current_index() == Some(place as int),
{
    if let Some(c) = before.cursor {
        assert((before.order[c] as int) < before.order.len());
    }
}

/// What changes the queue or the current track is written down; a position,
/// a state and what concerns others is not.
pub proof fn lemma_only_the_queue_is_written_down(event: EventView)
    ensures
        event is QueueChanged ==> touches_queue(event),
        event is TrackChanged ==> touches_queue(event),
        event is Position || event is StateChanged || event is CacheProgress || event is AuthChanged
            || event is RatingChanged || event is PlaylistsChanged ==> !touches_queue(event),
{
}

} // verus!
