//! The watcher: compares the player's state with what was seen last and
//! tells what has changed.
//!
//! It is the only place that does so: a change of track is told once, not
//! at every look.

use vstd::prelude::*;

use crate::model::{PlaybackStatus, ScopedIdView, TrackId};
use crate::protocol::{clone_opt_track, event_views, Event, EventView, PlayerState, PlayerStateView};
use crate::time::Duration;

verus! {

/// What was seen last.
pub struct Watcher {
    track: Option<TrackId>,
    status: PlaybackStatus,
    duration: Option<Duration>,
    queue_len: usize,
    queue_index: Option<usize>,
}

#[verifier::ext_equal]
pub struct WatcherView {
    pub track: Option<ScopedIdView>,
    pub status: PlaybackStatus,
    pub duration: Option<Duration>,
    pub queue_len: usize,
    pub queue_index: Option<usize>,
}

impl View for Watcher {
    type V = WatcherView;

    closed spec fn view(&self) -> WatcherView {
        WatcherView {
            track: match self.track {
                Some(id) => Some(id@),
                None => None,
            },
            status: self.status,
            duration: self.duration,
            queue_len: self.queue_len,
            queue_index: self.queue_index,
        }
    }
}

/// The id of the track in a state.
pub open spec fn state_track(state: PlayerStateView) -> Option<ScopedIdView> {
    match state.track {
        Some(t) => Some(t.id),
        None => None,
    }
}

impl WatcherView {
    /// What has been seen after a look.
    pub open spec fn seen(state: PlayerStateView) -> WatcherView {
        WatcherView {
            track: state_track(state),
            status: state.status,
            duration: state.duration,
            queue_len: state.queue_len,
            queue_index: state.queue_index,
        }
    }

    /// The events about the track and the state.
    pub open spec fn state_events(self, state: PlayerStateView) -> Seq<EventView> {
        if state_track(state) != self.track {
            seq![
                EventView::TrackChanged { track: state.track, queue_index: state.queue_index },
                EventView::StateChanged { state },
            ]
        } else if state.status != self.status || state.duration != self.duration {
            seq![EventView::StateChanged { state }]
        } else {
            Seq::empty()
        }
    }

    /// The events about the queue.
    pub open spec fn queue_events(self, state: PlayerStateView) -> Seq<EventView> {
        if state.queue_len != self.queue_len || state.queue_index != self.queue_index {
            seq![EventView::QueueChanged { len: state.queue_len, index: state.queue_index }]
        } else {
            Seq::empty()
        }
    }

    /// The event about the position: at the tick of the clock, while
    /// something plays.
    pub open spec fn position_events(state: PlayerStateView, ticked: bool) -> Seq<EventView> {
        match state.position {
            Some(position) => if ticked && state.status == PlaybackStatus::Playing {
                seq![EventView::Position { position, duration: state.duration }]
            } else {
                Seq::empty()
            },
            None => Seq::empty(),
        }
    }

    /// All events of a look.
    pub open spec fn events(self, state: PlayerStateView, ticked: bool) -> Seq<EventView> {
        self.state_events(state) + self.queue_events(state) + WatcherView::position_events(
            state,
            ticked,
        )
    }
}

fn same_span(a: Option<Duration>, b: Option<Duration>) -> (r: bool)
    ensures
        r == (a == b),
{
    match (a, b) {
        (Some(x), Some(y)) => x == y,
        (None, None) => true,
        _ => false,
    }
}

fn same_index(a: Option<usize>, b: Option<usize>) -> (r: bool)
    ensures
        r == (a == b),
{
    match (a, b) {
        (Some(x), Some(y)) => x == y,
        (None, None) => true,
        _ => false,
    }
}

impl Watcher {
    pub fn new() -> (r: Self)
        ensures
            r@ == (WatcherView {
                track: None,
                status: PlaybackStatus::Stopped,
                duration: None,
                queue_len: 0,
                queue_index: None,
            }),
    {
        Watcher {
            track: None,
            status: PlaybackStatus::Stopped,
            duration: None,
            queue_len: 0,
            queue_index: None,
        }
    }

    /// Looks at the state, at the tick of the clock (`ticked`) or because
    /// something has changed.
    pub fn look(&mut self, state: &PlayerState, ticked: bool) -> (r: Vec<Event>)
        ensures
            event_views(r@) == old(self)@.events(state@, ticked),
            final(self)@ == WatcherView::seen(state@),
    {
        let ghost before = self@;
        let mut out: Vec<Event> = Vec::new();
        let same_track: bool = match (&state.track, &self.track) {
            (Some(t), Some(id)) => t.id == *id,
            (None, None) => true,
            _ => false,
        };
        if !same_track {
            out.push(
                Event::TrackChanged {
                    track: clone_opt_track(&state.track),
                    queue_index: state.queue_index,
                },
            );
            out.push(Event::StateChanged { state: state.clone() });
        } else if state.status != self.status || !same_span(state.duration, self.duration) {
            out.push(Event::StateChanged { state: state.clone() });
        }
        assert(event_views(out@) =~= before.state_events(state@));
        if state.queue_len != self.queue_len || !same_index(state.queue_index, self.queue_index) {
            out.push(Event::QueueChanged { len: state.queue_len, index: state.queue_index });
        }
        assert(event_views(out@) =~= before.state_events(state@) + before.queue_events(state@));
        if ticked && state.status == PlaybackStatus::Playing {
            if let Some(position) = state.position {
                out.push(Event::Position { position, duration: state.duration });
            }
        }
        assert(event_views(out@) =~= before.events(state@, ticked));
        self.track = match &state.track {
            Some(t) => Some(t.id.clone()),
            None => None,
        };
        self.status = state.status;
        self.duration = state.duration;
        self.queue_len = state.queue_len;
        self.queue_index = state.queue_index;
        out
    }
}

/// A change is told once: a second look at the same state, between two
/// ticks, tells nothing, and at a tick nothing but the position.
pub proof fn lemma_changes_are_told_once(state: PlayerStateView, ticked: bool)
    ensures
        WatcherView::seen(state).events(state, ticked) == WatcherView::position_events(
            state,
            ticked,
        ),
        WatcherView::seen(state).events(state, false).len() == 0,
{
    assert(WatcherView::seen(state).events(state, ticked) =~= WatcherView::position_events(
        state,
        ticked,
    ));
}

/// A look tells of a change of track exactly when there is one, and then
/// sends the whole state along.
pub proof fn lemma_track_changes_are_told(w: WatcherView, state: PlayerStateView, ticked: bool)
    ensures
        (exists|k: int|
            0 <= k < w.events(state, ticked).len() && (#[trigger] w.events(state, ticked)[k])
                is TrackChanged) <==> state_track(state) != w.track,
        state_track(state) != w.track ==> w.events(state, ticked)[1] == (
        EventView::StateChanged { state }),
{
    if state_track(state) != w.track {
        assert(w.events(state, ticked)[0] is TrackChanged);
    }
}

/// Every change is told: of the track, of the status and the length, of the
/// queue's length and place; and the position at each tick while something
/// plays. What is told is the state as it is.
pub proof fn lemma_every_change_is_told(w: WatcherView, state: PlayerStateView, ticked: bool)
    ensures
        ({
            let told = w.events(state, ticked);
            let id = match state.track {
                Some(t) => Some(t.id),
                None => None,
            };
            let track = EventView::TrackChanged {
                track: state.track,
                queue_index: state.queue_index,
            };
            let all = EventView::StateChanged { state };
            let queue = EventView::QueueChanged { len: state.queue_len, index: state.queue_index };
            &&& told.contains(track) <==> id != w.track
            &&& told.contains(all) <==> id != w.track || state.status != w.status || state.duration
                != w.duration
            &&& told.contains(queue) <==> state.queue_len != w.queue_len || state.queue_index
                != w.queue_index
            &&& state.position matches Some(position) ==> (told.contains(
                EventView::Position { position, duration: state.duration },
            ) <==> ticked && state.status == PlaybackStatus::Playing)
            &&& WatcherView::seen(state).track == id
            &&& WatcherView::seen(state).status == state.status
            &&& WatcherView::seen(state).duration == state.duration
            &&& WatcherView::seen(state).queue_len == state.queue_len
            &&& WatcherView::seen(state).queue_index == state.queue_index
        }),
{
    let told = w.events(state, ticked);
    let first = w.state_events(state);
    let second = w.queue_events(state);
    if state_track(state) != w.track {
        assert(told[0] == first[0]);
        assert(told[1] == first[1]);
    } else if first.len() > 0 {
        assert(told[0] == first[0]);
    }
    if second.len() > 0 {
        assert(told[first.len() as int] == second[0]);
    }
    if WatcherView::position_events(state, ticked).len() > 0 {
        assert(told[(first.len() + second.len()) as int] == WatcherView::position_events(
            state,
            ticked,
        )[0]);
    }
}

} // verus!
