//! Radio: a queue that a source keeps growing with recommendations.
//!
//! A page of recommendations takes a while to come, and the listener may
//! have turned to something else by then. Every session has a number of its
//! own; an answer is taken only by the session that asked for it.

use vstd::prelude::*;

use crate::model::{track_views, ScopedIdView, Track, TrackId, TrackView};
use crate::player::{next_number, Player, PlayerView};
use crate::protocol::{Event, EventView};
use crate::provider::{ProviderError, ProviderErrorView};
use crate::queue::{lemma_first_index, Queue, QueueModel};
use crate::text::opt_text;

verus! {

/// How close to the end of the queue the next page is asked for.
pub const RADIO_REFILL_AHEAD: usize = 2;

/// A page of recommendations.
#[derive(Debug, PartialEq, Eq)]
pub struct RadioPage {
    pub tracks: Vec<Track>,
    pub next: Option<String>,
}

#[verifier::ext_equal]
pub struct RadioPageView {
    pub tracks: Seq<TrackView>,
    pub next: Option<Seq<char>>,
}

impl View for RadioPage {
    type V = RadioPageView;

    open spec fn view(&self) -> RadioPageView {
        RadioPageView { tracks: track_views(self.tracks@), next: opt_text(self.next) }
    }
}

struct RadioSession {
    seed: TrackId,
    generation: u64,
    continuation: Option<String>,
    exhausted: bool,
    refill_in_flight: bool,
}

#[verifier::ext_equal]
pub struct RadioSessionView {
    pub seed: ScopedIdView,
    pub generation: u64,
    /// Where the next page starts.
    pub continuation: Option<Seq<char>>,
    /// There is no next page, or it could not be had.
    pub exhausted: bool,
    /// A page is under way.
    pub refill_in_flight: bool,
}

/// The session, if there is one, and the number of the latest one.
pub struct Radio {
    session: Option<RadioSession>,
    generation: u64,
}

#[verifier::ext_equal]
pub struct RadioView {
    pub session: Option<RadioSessionView>,
    pub generation: u64,
}

impl View for Radio {
    type V = RadioView;

    closed spec fn view(&self) -> RadioView {
        RadioView {
            session: match self.session {
                Some(s) => Some(
                    RadioSessionView {
                        seed: s.seed@,
                        generation: s.generation,
                        continuation: opt_text(s.continuation),
                        exhausted: s.exhausted,
                        refill_in_flight: s.refill_in_flight,
                    },
                ),
                None => None,
            },
            generation: self.generation,
        }
    }
}

/// What to do with the answer about the first page.
#[derive(Debug, PartialEq, Eq)]
pub enum RadioStep {
    /// The listener has turned to something else.
    Ignore,
    /// The source has no radio: play the one track.
    PlayAlone,
    Failed(ProviderError),
    /// Remember all but the first of these, then make them the queue.
    Accept { tracks: Vec<Track>, next: Option<String> },
}

#[verifier::ext_equal]
pub enum RadioStepView {
    Ignore,
    PlayAlone,
    Failed(ProviderErrorView),
    Accept { tracks: Seq<TrackView>, next: Option<Seq<char>> },
}

impl View for RadioStep {
    type V = RadioStepView;

    open spec fn view(&self) -> RadioStepView {
        match *self {
            RadioStep::Ignore => RadioStepView::Ignore,
            RadioStep::PlayAlone => RadioStepView::PlayAlone,
            RadioStep::Failed(e) => RadioStepView::Failed(e@),
            RadioStep::Accept { tracks, next } => RadioStepView::Accept {
                tracks: track_views(tracks@),
                next: opt_text(next),
            },
        }
    }
}

/// A page to be fetched.
#[derive(Debug, PartialEq, Eq)]
pub struct RefillJob {
    pub generation: u64,
    pub seed: TrackId,
    pub cursor: String,
}

#[verifier::ext_equal]
pub struct RefillJobView {
    pub generation: u64,
    pub seed: ScopedIdView,
    pub cursor: Seq<char>,
}

impl View for RefillJob {
    type V = RefillJobView;

    open spec fn view(&self) -> RefillJobView {
        RefillJobView { generation: self.generation, seed: self.seed@, cursor: self.cursor@ }
    }
}

pub open spec fn opt_job(job: Option<RefillJob>) -> Option<RefillJobView> {
    match job {
        Some(j) => Some(j@),
        None => None,
    }
}

/// Whether a track with this id stands among `tracks`.
pub open spec fn has_track(tracks: Seq<TrackView>, id: ScopedIdView) -> bool {
    exists|k: int| 0 <= k < tracks.len() && (#[trigger] tracks[k]).id == id
}

/// The tracks that are new: not among `known`, and not named before in
/// `tracks` itself.
pub open spec fn new_tracks(known: spec_fn(ScopedIdView) -> bool, tracks: Seq<TrackView>) -> Seq<
    TrackView,
>
    decreases tracks.len(),
{
    if tracks.len() == 0 {
        Seq::empty()
    } else {
        let before = new_tracks(known, tracks.drop_last());
        if known(tracks.last().id) || has_track(before, tracks.last().id) {
            before
        } else {
            before.push(tracks.last())
        }
    }
}

/// The tracks that stand in no queue position yet.
pub open spec fn new_to(queue: Seq<TrackView>, tracks: Seq<TrackView>) -> Seq<TrackView> {
    new_tracks(|id: ScopedIdView| has_track(queue, id), tracks)
}

/// The queue of a fresh radio: the seed, then the recommendations.
pub open spec fn radio_queue(seed: TrackView, tracks: Seq<TrackView>) -> Seq<TrackView> {
    seq![seed] + new_to(seq![seed], tracks)
}

/// Whether no track stands twice.
pub open spec fn no_track_twice(tracks: Seq<TrackView>) -> bool {
    forall|i: int, j: int|
        0 <= i < j < tracks.len() ==> (#[trigger] tracks[i]).id != (#[trigger] tracks[j]).id
}

pub fn has_id(tracks: &Vec<Track>, id: &TrackId) -> (r: bool)
    ensures
        r == has_track(track_views(tracks@), id@),
{
    let mut i: usize = 0;
    while i < tracks.len()
        invariant
            i <= tracks@.len(),
            forall|k: int| 0 <= k < i ==> (#[trigger] track_views(tracks@)[k]).id != id@,
        decreases tracks@.len() - i,
    {
        assert(track_views(tracks@)[i as int] == tracks@[i as int]@);
        if tracks[i].id == *id {
            return true;
        }
        i += 1;
    }
    false
}

impl RadioView {
    /// Whether an answer with this number is for the present session.
    pub open spec fn owns(self, generation: u64) -> bool {
        self.session matches Some(s) && s.generation == generation
    }

    pub open spec fn cancelled(self) -> RadioView {
        RadioView { session: None, ..self }
    }

    /// The session of a new seed, with its first page under way.
    pub open spec fn started(self, seed: ScopedIdView) -> RadioView {
        let generation = next_number(self.generation);
        RadioView {
            session: Some(
                RadioSessionView {
                    seed,
                    generation,
                    continuation: None,
                    exhausted: false,
                    refill_in_flight: true,
                },
            ),
            generation,
        }
    }

    /// The session without hope of another page.
    pub open spec fn spent(self, generation: u64) -> RadioView {
        if self.owns(generation) {
            RadioView {
                session: Some(
                    RadioSessionView {
                        exhausted: true,
                        refill_in_flight: false,
                        ..self.session->0
                    },
                ),
                ..self
            }
        } else {
            self
        }
    }

    /// The session after a page came.
    pub open spec fn continued(self, next: Option<Seq<char>>) -> RadioView {
        RadioView {
            session: match self.session {
                Some(s) => Some(
                    RadioSessionView {
                        continuation: next,
                        exhausted: next is None,
                        refill_in_flight: false,
                        ..s
                    },
                ),
                None => None,
            },
            ..self
        }
    }

    /// The page to fetch now, with the queue standing at an index.
    pub open spec fn due(self, queue_len: usize, queue_index: Option<usize>) -> Option<
        RefillJobView,
    > {
        match (queue_index, self.session) {
            (Some(index), Some(s)) => if index + RADIO_REFILL_AHEAD >= queue_len && !s.exhausted
                && !s.refill_in_flight {
                match s.continuation {
                    Some(cursor) => Some(
                        RefillJobView { generation: s.generation, seed: s.seed, cursor },
                    ),
                    None => None,
                }
            } else {
                None
            },
            _ => None,
        }
    }

    /// The session with a page under way.
    pub open spec fn fetching(self) -> RadioView {
        RadioView {
            session: match self.session {
                Some(s) => Some(RadioSessionView { refill_in_flight: true, ..s }),
                None => None,
            },
            ..self
        }
    }

    /// What follows from the answer about the first page.
    pub open spec fn first_step(
        self,
        generation: u64,
        seed: TrackView,
        answer: Result<RadioPageView, ProviderErrorView>,
    ) -> (RadioView, RadioStepView) {
        match answer {
            Ok(page) => if self.owns(generation) {
                (
                    self,
                    RadioStepView::Accept {
                        tracks: radio_queue(seed, page.tracks),
                        next: page.next,
                    },
                )
            } else {
                (self, RadioStepView::Ignore)
            },
            Err(e) => {
                let after = if self.owns(generation) {
                    self.cancelled()
                } else {
                    self
                };
                if !(e is Unsupported) {
                    (after, RadioStepView::Failed(e))
                } else if self.owns(generation) {
                    (after, RadioStepView::PlayAlone)
                } else {
                    (after, RadioStepView::Ignore)
                }
            },
        }
    }
}

/// An answer about a page by view.
pub open spec fn page_answer(a: Result<RadioPage, ProviderError>) -> Result<
    RadioPageView,
    ProviderErrorView,
> {
    match a {
        Ok(p) => Ok(p@),
        Err(e) => Err(e@),
    }
}

/// The tracks of a page that the queue does not hold yet.
fn pick_new(queue: &Queue, tracks: Vec<Track>) -> (r: Vec<Track>)
    requires
        queue.wf(),
    ensures
        track_views(r@) == new_to(queue@.tracks, track_views(tracks@)),
        r@.len() <= tracks@.len(),
{
    let ghost whole = tracks@;
    let ghost all = track_views(whole);
    let ghost held = queue@.tracks;
    let mut out: Vec<Track> = Vec::new();
    assert(all.subrange(0, 0) =~= Seq::empty());
    assert(track_views(out@) =~= Seq::empty());
    for track in it: tracks
        invariant
            it.seq() == whole,
            all == track_views(whole),
            queue.wf(),
            held == queue@.tracks,
            out@.len() <= it.index(),
            track_views(out@) == new_to(held, all.subrange(0, it.index() as int)),
    {
        let ghost done = it.index() as int;
        let ghost view = track@;
        let ghost had = track_views(out@);
        assert(all[done] == view);
        assert(all.subrange(0, done + 1).drop_last() =~= all.subrange(0, done));
        assert(all.subrange(0, done + 1).last() == view);
        let place = queue.find_index(&track.id);
        proof {
            lemma_first_index(held, view.id, 0);
            assert(has_track(held, view.id) == (place is Some));
        }
        if place.is_none() && !has_id(&out, &track.id) {
            out.push(track);
            assert(track_views(out@) =~= had.push(view));
        }
    }
    assert(all.subrange(0, all.len() as int) =~= all);
    out
}

impl Radio {
    pub fn new() -> (r: Self)
        ensures
            r@ == (RadioView { session: None, generation: 0 }),
    {
        Radio { session: None, generation: 0 }
    }

    fn owns(&self, generation: u64) -> (r: bool)
        ensures
            r == self@.owns(generation),
    {
        match &self.session {
            Some(s) => s.generation == generation,
            None => false,
        }
    }

    /// The listener turned to something else: what is still under way must
    /// not grow into the new queue.
    pub fn cancel(&mut self)
        ensures
            final(self)@ == old(self)@.cancelled(),
    {
        self.session = None;
    }

    /// Starts a session and returns its number. It stands before the first
    /// page is asked for, so that no second one is.
    pub fn start(&mut self, seed: &TrackId) -> (r: u64)
        ensures
            final(self)@ == old(self)@.started(seed@),
            r == final(self)@.generation,
    {
        let generation: u64 = if self.generation == u64::MAX {
            0
        } else {
            self.generation + 1
        };
        self.generation = generation;
        self.session = Some(
            RadioSession {
                seed: seed.clone(),
                generation,
                continuation: None,
                exhausted: false,
                refill_in_flight: true,
            },
        );
        generation
    }

    /// Takes the answer about the first page. The queue is the seed and
    /// then what is new of the page.
    pub fn first_page(
        &mut self,
        generation: u64,
        seed: Track,
        answer: Result<RadioPage, ProviderError>,
    ) -> (r: RadioStep)
        ensures
            (final(self)@, r@) == old(self)@.first_step(generation, seed@, page_answer(answer)),
    {
        let ours: bool = self.owns(generation);
        match answer {
            Ok(page) => {
                if !ours {
                    return RadioStep::Ignore;
                }
                let ghost view = seed@;
                let ghost all = track_views(page.tracks@);
                let mut queue = Queue::new();
                queue.append(seed.clone());
                assert(queue@.tracks =~= seq![view]);
                let mut tracks: Vec<Track> = Vec::new();
                tracks.push(seed);
                let mut more = pick_new(&queue, page.tracks);
                let ghost rest = more@;
                tracks.append(&mut more);
                assert(track_views(tracks@) =~= seq![view] + track_views(rest));
                RadioStep::Accept { tracks, next: page.next }
            },
            Err(error) => {
                if ours {
                    self.session = None;
                }
                let unsupported: bool = matches!(error, ProviderError::Unsupported { .. });
                if !unsupported {
                    RadioStep::Failed(error)
                } else if ours {
                    RadioStep::PlayAlone
                } else {
                    RadioStep::Ignore
                }
            },
        }
    }

    /// The tracks of the first page are remembered (`cached`) or could not
    /// be. Only tracks that are remembered become the queue; otherwise the
    /// session ends before anything is changed.
    pub fn open_queue(
        &mut self,
        player: &mut Player,
        generation: u64,
        tracks: Vec<Track>,
        next: Option<String>,
        cached: bool,
    ) -> (r: Option<Event>)
        requires
            old(player).wf(),
            tracks@.len() > 0,
        ensures
            final(player).wf(),
            if !old(self)@.owns(generation) {
                final(self)@ == old(self)@ && final(player)@ == old(player)@ && r is None
            } else if !cached {
                final(self)@ == old(self)@.cancelled() && final(player)@ == old(player)@ && r
                    is None
            } else {
                &&& final(self)@ == old(self)@.continued(opt_text(next))
                &&& final(player)@ == (PlayerView { queue: final(player)@.queue, ..old(player)@ })
                &&& final(player)@.queue.standing_at(
                    old(player)@.queue.cleared().appended(track_views(tracks@)),
                    0,
                )
                &&& r matches Some(e) && e@ == (EventView::QueueChanged {
                    len: tracks@.len() as usize,
                    index: Some(0),
                })
            },
    {
        if !self.owns(generation) {
            return None;
        }
        if !cached {
            self.session = None;
            return None;
        }
        let len: usize = tracks.len();
        let mut queue = player.take_queue();
        queue.replace(tracks, 0);
        player.put_queue(queue);
        self.proceed(next);
        Some(Event::QueueChanged { len, index: Some(0) })
    }

    fn proceed(&mut self, next: Option<String>)
        ensures
            final(self)@ == old(self)@.continued(opt_text(next)),
    {
        match self.session.take() {
            Some(s) => {
                let exhausted: bool = next.is_none();
                self.session = Some(
                    RadioSession {
                        seed: s.seed,
                        generation: s.generation,
                        continuation: next,
                        exhausted,
                        refill_in_flight: false,
                    },
                );
            },
            None => {},
        }
    }

    fn give_up(&mut self, generation: u64)
        ensures
            final(self)@ == old(self)@.spent(generation),
    {
        match self.session.take() {
            Some(s) => {
                let mut s = s;
                if s.generation == generation {
                    s.exhausted = true;
                    s.refill_in_flight = false;
                }
                self.session = Some(s);
            },
            None => {},
        }
    }

    /// The queue has moved: is another page due? It is then under way, and
    /// no second one starts.
    pub fn maybe_refill(&mut self, queue_len: usize, queue_index: Option<usize>) -> (r: Option<
        RefillJob,
    >)
        ensures
            opt_job(r) == old(self)@.due(queue_len, queue_index),
            final(self)@ == if r is Some {
                old(self)@.fetching()
            } else {
                old(self)@
            },
    {
        let index: usize = match queue_index {
            Some(i) => i,
            None => return None,
        };
        if queue_len > RADIO_REFILL_AHEAD && index < queue_len - RADIO_REFILL_AHEAD {
            return None;
        }
        match self.session.take() {
            Some(s) => {
                let mut s = s;
                let mut job: Option<RefillJob> = None;
                if !s.exhausted && !s.refill_in_flight {
                    if let Some(cursor) = &s.continuation {
                        job = Some(
                            RefillJob {
                                generation: s.generation,
                                seed: s.seed.clone(),
                                cursor: cursor.clone(),
                            },
                        );
                    }
                }
                if job.is_some() {
                    s.refill_in_flight = true;
                }
                self.session = Some(s);
                job
            },
            None => None,
        }
    }

    /// The source went away while the page was under way.
    pub fn provider_gone(&mut self, generation: u64)
        ensures
            final(self)@ == if old(self)@.owns(generation) {
                old(self)@.cancelled()
            } else {
                old(self)@
            },
    {
        if self.owns(generation) {
            self.session = None;
        }
    }

    /// Takes the answer about a further page: the tracks that the queue
    /// does not hold. A page that failed is not asked for again.
    pub fn refill_page(
        &mut self,
        queue: &Queue,
        generation: u64,
        answer: Result<RadioPage, ProviderError>,
    ) -> (r: Option<RadioPage>)
        requires
            queue.wf(),
        ensures
            match answer {
                Ok(page) => if old(self)@.owns(generation) {
                    &&& r matches Some(p)
                    &&& p@.tracks == new_to(queue@.tracks, page@.tracks)
                    &&& p@.next == page@.next
                    &&& final(self)@ == old(self)@
                } else {
                    r is None && final(self)@ == old(self)@
                },
                Err(_) => r is None && final(self)@ == old(self)@.spent(generation),
            },
    {
        match answer {
            Ok(page) => {
                if !self.owns(generation) {
                    return None;
                }
                let tracks = pick_new(queue, page.tracks);
                Some(RadioPage { tracks, next: page.next })
            },
            Err(_) => {
                self.give_up(generation);
                None
            },
        }
    }

    /// The tracks of a further page are remembered (`cached`) or could not
    /// be. Those that the queue has not got meanwhile go to its end.
    pub fn extend_queue(
        &mut self,
        player: &mut Player,
        generation: u64,
        page: RadioPage,
        cached: bool,
    ) -> (r: Option<Event>)
        requires
            old(player).wf(),
        ensures
            final(player).wf(),
            if !old(self)@.owns(generation) {
                final(self)@ == old(self)@ && final(player)@ == old(player)@ && r is None
            } else if !cached {
                final(self)@ == old(self)@.spent(generation) && final(player)@ == old(player)@
                    && r is None
            } else {
                let queue = old(player)@.queue.appended(
                    new_to(old(player)@.queue.tracks, page@.tracks),
                );
                &&& final(self)@ == old(self)@.continued(page@.next)
                &&& final(player)@ == (PlayerView { queue, ..old(player)@ })
                &&& r matches Some(e) && e@ == (EventView::QueueChanged {
                    len: queue.tracks.len() as usize,
                    index: index_shown(queue),
                })
            },
    {
        if !self.owns(generation) {
            return None;
        }
        if !cached {
            self.give_up(generation);
            return None;
        }
        let mut queue = player.take_queue();
        let more = pick_new(&queue, page.tracks);
        queue.append_all(more);
        let len: usize = queue.len();
        let index: Option<usize> = queue.current_index();
        player.put_queue(queue);
        self.proceed(page.next);
        Some(Event::QueueChanged { len, index })
    }
}

/// The index of the current track as clients see it.
pub open spec fn index_shown(queue: QueueModel) -> Option<usize> {
    match queue.current_index() {
        Some(i) => Some(i as usize),
        None => None,
    }
}

/// A session that was replaced or cancelled takes no answer any more: what
/// comes late changes neither the radio nor the player.
pub proof fn lemma_late_answers_are_lost(r: RadioView, generation: u64, seed: ScopedIdView)
    requires
        r.owns(generation),
        r.generation == generation,
    ensures
        !r.cancelled().owns(generation),
        !r.started(seed).owns(generation),
        !r.cancelled().started(seed).owns(generation),
{
}

/// While a page is under way no second one starts, and after a failure none
/// starts any more.
pub proof fn lemma_one_page_at_a_time(r: RadioView, len: usize, index: Option<usize>)
    ensures
        r.fetching().due(len, index) is None,
        r.session matches Some(s) ==> r.spent(s.generation).due(len, index) is None,
        r.continued(None).due(len, index) is None,
{
}

/// What is new is not known, stands once, and was on the page.
pub proof fn lemma_new_tracks(known: spec_fn(ScopedIdView) -> bool, tracks: Seq<TrackView>)
    ensures
        no_track_twice(new_tracks(known, tracks)),
        forall|k: int|
            0 <= k < new_tracks(known, tracks).len() ==> !known(
                (#[trigger] new_tracks(known, tracks)[k]).id,
            ) && tracks.contains(new_tracks(known, tracks)[k]),
        forall|k: int|
            0 <= k < tracks.len() ==> known((#[trigger] tracks[k]).id) || has_track(
                new_tracks(known, tracks),
                tracks[k].id,
            ),
    decreases tracks.len(),
{
    if tracks.len() > 0 {
        let rest = tracks.drop_last();
        let before = new_tracks(known, rest);
        let last = tracks.last();
        lemma_new_tracks(known, rest);
        let all = new_tracks(known, tracks);
        assert forall|k: int| 0 <= k < all.len() implies !known((#[trigger] all[k]).id)
            && tracks.contains(all[k]) by {
            if k < before.len() {
                assert(all[k] == before[k]);
                let j = choose|j: int| 0 <= j < rest.len() && rest[j] == before[k];
                assert(tracks[j] == all[k]);
            } else {
                assert(tracks[tracks.len() - 1] == all[k]);
            }
        }
        assert forall|k: int| 0 <= k < tracks.len() implies known((#[trigger] tracks[k]).id)
            || has_track(all, tracks[k].id) by {
            if k < rest.len() {
                assert(rest[k] == tracks[k]);
                if !known(rest[k].id) {
                    let j = choose|j: int|
                        0 <= j < before.len() && (#[trigger] before[j]).id == rest[k].id;
                    assert(all[j].id == tracks[k].id);
                }
            } else if !known(last.id) {
                if has_track(before, last.id) {
                    assert(all == before);
                } else {
                    assert(all[before.len() as int].id == last.id);
                }
            }
        }
    }
}

/// A radio starts with its seed, and no track stands in it twice.
pub proof fn lemma_radio_starts_with_its_seed(seed: TrackView, tracks: Seq<TrackView>)
    ensures
        radio_queue(seed, tracks)[0] == seed,
        no_track_twice(radio_queue(seed, tracks)),
{
    let known = |id: ScopedIdView| has_track(seq![seed], id);
    lemma_new_tracks(known, tracks);
    let more = new_tracks(known, tracks);
    let all = radio_queue(seed, tracks);
    assert(all == seq![seed] + more);
    assert forall|i: int, j: int| 0 <= i < j < all.len() implies (#[trigger] all[i]).id != (
    #[trigger] all[j]).id by {
        assert(all[j] == more[j - 1]);
        assert(!known(more[j - 1].id));
        if i == 0 {
            assert(seq![seed][0].id == all[0].id);
        } else {
            assert(all[i] == more[i - 1]);
        }
    }
}

/// A further page only adds to the end, and adds nothing that stands in the
/// queue already.
pub proof fn lemma_refill_only_appends(queue: QueueModel, tracks: Seq<TrackView>)
    ensures
        queue.appended(new_to(queue.tracks, tracks)).tracks.subrange(
            0,
            queue.tracks.len() as int,
        ) == queue.tracks,
        no_track_twice(queue.tracks) ==> no_track_twice(
            queue.appended(new_to(queue.tracks, tracks)).tracks,
        ),
{
    let known = |id: ScopedIdView| has_track(queue.tracks, id);
    lemma_new_tracks(known, tracks);
    let more = new_tracks(known, tracks);
    let all = queue.appended(new_to(queue.tracks, tracks)).tracks;
    let n = queue.tracks.len() as int;
    assert(all == queue.tracks + more);
    assert(all.subrange(0, n) =~= queue.tracks);
    if no_track_twice(queue.tracks) {
        assert forall|i: int, j: int| 0 <= i < j < all.len() implies (#[trigger] all[i]).id != (
        #[trigger] all[j]).id by {
            if j < n {
                assert(all[i] == queue.tracks[i] && all[j] == queue.tracks[j]);
            } else {
                assert(all[j] == more[j - n]);
                assert(!known(more[j - n].id));
                if i < n {
                    assert(queue.tracks[i].id == all[i].id);
                } else {
                    assert(all[i] == more[i - n]);
                }
            }
        }
    }
}

/// A new session has its first page under way; once a page has come, the
/// next one is asked for with the token of that page as soon as the queue
/// stands at one of its last three tracks, and not before. Without a token
/// nothing more is asked for.
pub proof fn lemma_the_radio_goes_on_before_the_end(
    r: RadioView,
    seed: ScopedIdView,
    token: Seq<char>,
    len: usize,
    index: usize,
)
    ensures
        ({
            let fresh = r.started(seed);
            let more = fresh.continued(Some(token));
            &&& fresh.generation != r.generation
            &&& fresh.owns(fresh.generation)
            &&& fresh.due(len, Some(index)) is None
            &&& index + 2 >= len ==> (more.due(len, Some(index)) matches Some(job) && job.seed
                == seed && job.cursor == token && job.generation == fresh.generation)
            &&& index + 2 < len ==> more.due(len, Some(index)) is None
            &&& more.due(len, None) is None
            &&& more.fetching().continued(None).due(len, Some(index)) is None
            &&& more.fetching().continued(None).session->0.exhausted && !more.session->0.exhausted
            &&& more.cancelled().due(len, Some(index)) is None
            &&& more.owns(fresh.generation) && more.fetching().owns(fresh.generation)
        }),
{
}

/// What becomes of the first page: of the present session it opens the
/// queue, with the seed first and the token kept; a source that has no
/// radio leaves the track alone; any other failure is told as it is, and
/// ends the session. The answer to an older session opens nothing.
pub proof fn lemma_first_pages_open_the_queue(
    r: RadioView,
    generation: u64,
    seed: TrackView,
    page: RadioPageView,
    e: ProviderErrorView,
)
    ensures
        r.owns(generation) ==> {
            let (after, step) = r.first_step(generation, seed, Ok(page));
            &&& after == r
            &&& step matches RadioStepView::Accept { tracks, next }
            &&& tracks.len() > 0 && tracks[0] == seed
            &&& next == page.next
            &&& no_track_twice(seq![seed] + page.tracks) ==> tracks == seq![seed] + page.tracks
        },
        !r.owns(generation) ==> r.first_step(generation, seed, Ok(page)) == (
            r,
            RadioStepView::Ignore,
        ),
        r.owns(generation) ==> r.first_step(generation, seed, Err(e)).0.session is None,
        !r.owns(generation) ==> r.first_step(generation, seed, Err(e)).0 == r,
        !(e is Unsupported) ==> r.first_step(generation, seed, Err(e)).1 == RadioStepView::Failed(
            e,
        ),
        e is Unsupported && r.owns(generation) ==> r.first_step(generation, seed, Err(e)).1
            is PlayAlone,
        e is Unsupported && !r.owns(generation) ==> r.first_step(generation, seed, Err(e)).1
            is Ignore,
{
    if no_track_twice(seq![seed] + page.tracks) {
        let all = seq![seed] + page.tracks;
        assert forall|k: int| 0 <= k < page.tracks.len() implies !has_track(
            seq![seed],
            (#[trigger] page.tracks[k]).id,
        ) by {
            assert(all[0] == seed);
            assert(all[k + 1] == page.tracks[k]);
        }
        assert(no_track_twice(page.tracks)) by {
            assert forall|i: int, j: int| 0 <= i < j < page.tracks.len() implies (
            #[trigger] page.tracks[i]).id != (#[trigger] page.tracks[j]).id by {
                assert(all[i + 1] == page.tracks[i] && all[j + 1] == page.tracks[j]);
            }
        }
        lemma_all_are_new(|id: ScopedIdView| has_track(seq![seed], id), page.tracks);
    }
}

proof fn lemma_all_are_new(known: spec_fn(ScopedIdView) -> bool, tracks: Seq<TrackView>)
    requires
        no_track_twice(tracks),
        forall|k: int| 0 <= k < tracks.len() ==> !known((#[trigger] tracks[k]).id),
    ensures
        new_tracks(known, tracks) == tracks,
    decreases tracks.len(),
{
    if tracks.len() > 0 {
        let rest = tracks.drop_last();
        assert forall|k: int| 0 <= k < rest.len() implies !known((#[trigger] rest[k]).id) by {
            assert(rest[k] == tracks[k]);
        }
        assert forall|i: int, j: int| 0 <= i < j < rest.len() implies (#[trigger] rest[i]).id != (
        #[trigger] rest[j]).id by {
            assert(rest[i] == tracks[i] && rest[j] == tracks[j]);
        }
        lemma_all_are_new(known, rest);
        assert(!has_track(rest, tracks.last().id)) by {
            assert forall|k: int| 0 <= k < rest.len() implies (#[trigger] rest[k]).id
                != tracks.last().id by {
                assert(tracks[k] == rest[k] && tracks[tracks.len() - 1] == tracks.last());
            }
        }
        assert(new_tracks(known, tracks) =~= tracks);
    }
}

/// A page of tracks that are all new to the queue is taken whole and in its
/// order; what is known already is left out; and what a longer page brings
/// comes after what a shorter one does.
pub proof fn lemma_pages_are_taken_in_order(
    queue: Seq<TrackView>,
    page: Seq<TrackView>,
    more: Seq<TrackView>,
)
    ensures
        no_track_twice(queue + page) ==> new_to(queue, page) == page,
        (forall|k: int| 0 <= k < page.len() ==> has_track(queue, (#[trigger] page[k]).id))
            ==> new_to(queue, page).len() == 0,
        new_to(queue, page).is_prefix_of(new_to(queue, page + more)),
    decreases more.len(),
{
    let known = |id: ScopedIdView| has_track(queue, id);
    let n = queue.len() as int;
    let all = queue + page;
    if no_track_twice(all) {
        assert forall|k: int| 0 <= k < page.len() implies !known((#[trigger] page[k]).id) by {
            if has_track(queue, page[k].id) {
                let j = choose|j: int|
                    0 <= j < queue.len() && (#[trigger] queue[j]).id == page[k].id;
                assert(all[j] == queue[j] && all[n + k] == page[k]);
            }
        }
        assert forall|i: int, j: int| 0 <= i < j < page.len() implies (#[trigger] page[i]).id != (
        #[trigger] page[j]).id by {
            assert(all[n + i] == page[i] && all[n + j] == page[j]);
        }
        lemma_all_are_new(known, page);
    }
    if forall|k: int| 0 <= k < page.len() ==> has_track(queue, (#[trigger] page[k]).id) {
        lemma_new_tracks(known, page);
        let found = new_to(queue, page);
        if found.len() > 0 {
            assert(!known(found[0].id));
            let j = choose|j: int| 0 <= j < page.len() && page[j] == found[0];
            assert(has_track(queue, page[j].id));
        }
    }
    if more.len() == 0 {
        assert(page + more =~= page);
    } else {
        lemma_pages_are_taken_in_order(queue, page, more.drop_last());
        assert((page + more).drop_last() =~= page + more.drop_last());
    }
}

} // verus!
