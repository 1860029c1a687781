//! The player: the queue, what plays, and which command of several counts.
//!
//! Resolving a track takes seconds, so several commands can be under way at
//! once. Each takes a number; only the one with the latest number may load
//! anything or touch the state.

use vstd::prelude::*;

use crate::double::Double;
use crate::eq::{preset_table, row_gains, EqState, EqStateView};
use crate::model::{
    LoopMode, PlaybackStatus, ScopedIdView, StreamSource, StreamSourceView, Track, TrackId,
};
use crate::mpv::{mpv_message, MpvError, MpvEvent};
use crate::protocol::{PlayerState, PlayerStateView};
use crate::provider::{provider_message, ProviderError};
use crate::queue::{first_index, lemma_first_index, Queue, QueueModel};
use crate::text::{clone_opt, opt_text};
use crate::time::{Duration, SystemTime};

verus! {

/// Why a track does not play: its source or the player's process.
#[derive(Debug, PartialEq, Eq)]
pub enum PlayerError {
    Provider(ProviderError),
    Mpv(MpvError),
}

impl From<ProviderError> for PlayerError {
    fn from(e: ProviderError) -> (r: Self) {
        PlayerError::Provider(e)
    }
}

impl vstd::std_specs::convert::FromSpecImpl<ProviderError> for PlayerError {
    open spec fn obeys_from_spec() -> bool {
        true
    }

    open spec fn from_spec(e: ProviderError) -> Self {
        PlayerError::Provider(e)
    }
}

impl From<MpvError> for PlayerError {
    fn from(e: MpvError) -> (r: Self) {
        PlayerError::Mpv(e)
    }
}

impl vstd::std_specs::convert::FromSpecImpl<MpvError> for PlayerError {
    open spec fn obeys_from_spec() -> bool {
        true
    }

    open spec fn from_spec(e: MpvError) -> Self {
        PlayerError::Mpv(e)
    }
}

/// The error as it is shown to people: as its cause says it.
pub open spec fn player_message(e: PlayerError) -> Seq<char> {
    match e {
        PlayerError::Provider(e) => provider_message(e@),
        PlayerError::Mpv(e) => mpv_message(e),
    }
}

impl PlayerError {
    /// The error as it is shown to people.
    pub fn to_string(&self) -> (r: String)
        ensures
            r@ == player_message(*self),
    {
        match self {
            PlayerError::Provider(e) => e.to_string(),
            PlayerError::Mpv(e) => e.to_string(),
        }
    }
}

/// A track together with where it is played from.
pub struct Current {
    pub track_id: TrackId,
    pub source: StreamSource,
}

/// An optional track and source by view.
pub open spec fn opt_current(c: Option<Current>) -> Option<(ScopedIdView, StreamSourceView)> {
    match c {
        Some(c) => Some((c.track_id@, c.source@)),
        None => None,
    }
}

/// The player's state.
pub struct Player {
    queue: Queue,
    current: Option<Current>,
    position: Option<Duration>,
    duration: Option<Duration>,
    paused: bool,
    volume: Double,
    status: PlaybackStatus,
    /// The next track, resolved ahead. It is kept until it is played, and
    /// never outlives a change of the current track.
    preloaded: Option<Current>,
    /// The number of the latest command to play.
    play_gen: u64,
    /// The number of the latest skip or command to play.
    skip_gen: u64,
    /// Between two tracks: the player is idle then, and that is no stop.
    advancing: bool,
    equalizer: EqState,
    last_error: Option<String>,
}

#[verifier::ext_equal]
pub struct PlayerView {
    pub queue: QueueModel,
    pub current: Option<(ScopedIdView, StreamSourceView)>,
    pub position: Option<Duration>,
    pub duration: Option<Duration>,
    pub paused: bool,
    pub volume: Double,
    pub status: PlaybackStatus,
    pub preloaded: Option<(ScopedIdView, StreamSourceView)>,
    pub play_gen: u64,
    /// The number of the latest skip or command to play.
    pub skip_gen: u64,
    pub advancing: bool,
    pub equalizer: EqStateView,
    pub last_error: Option<Seq<char>>,
}

impl View for Player {
    type V = PlayerView;

    closed spec fn view(&self) -> PlayerView {
        PlayerView {
            queue: self.queue@,
            current: opt_current(self.current),
            position: self.position,
            duration: self.duration,
            paused: self.paused,
            volume: self.volume,
            status: self.status,
            preloaded: opt_current(self.preloaded),
            play_gen: self.play_gen,
            skip_gen: self.skip_gen,
            advancing: self.advancing,
            equalizer: self.equalizer@,
            last_error: opt_text(self.last_error),
        }
    }
}

/// What a command to play does next.
#[derive(Debug, PartialEq, Eq)]
pub enum PlayStep {
    /// The source is at hand.
    Load { generation: u64, source: StreamSource },
    /// The source is to be found out first.
    Resolve { generation: u64 },
}

pub enum PlayStepView {
    Load { generation: u64, source: StreamSourceView },
    Resolve { generation: u64 },
}

impl View for PlayStep {
    type V = PlayStepView;

    open spec fn view(&self) -> PlayStepView {
        match *self {
            PlayStep::Load { generation, source } => PlayStepView::Load {
                generation,
                source: source@,
            },
            PlayStep::Resolve { generation } => PlayStepView::Resolve { generation },
        }
    }
}

/// What follows from an event of the player process.
#[derive(Debug, PartialEq, Eq)]
pub enum PlayerAction {
    Nothing,
    /// Tell those who watch the state.
    Notify,
    /// Play this track.
    Play(TrackId),
    /// Stop the process's playback and tell those who watch.
    StopAndNotify,
}

pub enum PlayerActionView {
    Nothing,
    Notify,
    Play(ScopedIdView),
    StopAndNotify,
}

impl View for PlayerAction {
    type V = PlayerActionView;

    open spec fn view(&self) -> PlayerActionView {
        match *self {
            PlayerAction::Nothing => PlayerActionView::Nothing,
            PlayerAction::Notify => PlayerActionView::Notify,
            PlayerAction::Play(id) => PlayerActionView::Play(id@),
            PlayerAction::StopAndNotify => PlayerActionView::StopAndNotify,
        }
    }
}

/// The number after `n`, going round.
pub open spec fn next_number(n: u64) -> u64 {
    if n == u64::MAX {
        0
    } else {
        (n + 1) as u64
    }
}

fn number_after(n: u64) -> (r: u64)
    ensures
        r == next_number(n),
{
    if n == u64::MAX {
        0
    } else {
        n + 1
    }
}

impl PlayerView {
    pub open spec fn valid(self) -> bool {
        self.queue.valid()
    }

    /// What was resolved ahead for a track.
    pub open spec fn ready_source(self, id: ScopedIdView) -> Option<StreamSourceView> {
        match self.preloaded {
            Some((ready, source)) => if ready == id {
                Some(source)
            } else {
                None
            },
            None => None,
        }
    }

    /// The player after a new command to play: the latest numbers are its
    /// own, and what was resolved ahead for its track is used up.
    pub open spec fn commanded(self, id: ScopedIdView) -> PlayerView {
        PlayerView {
            play_gen: next_number(self.play_gen),
            skip_gen: next_number(self.skip_gen),
            preloaded: if self.ready_source(id) is Some {
                None
            } else {
                self.preloaded
            },
            ..self
        }
    }

    /// The player after a manual skip: the queue has moved, and the latest
    /// number is the skip's own.
    pub open spec fn skipped(self, forward: bool) -> PlayerView {
        PlayerView {
            queue: self.queue.after_move(forward, false),
            skip_gen: next_number(self.skip_gen),
            ..self
        }
    }

    /// The player after a series of skips.
    pub open spec fn skipped_all(self, series: Seq<bool>) -> PlayerView
        decreases series.len(),
    {
        if series.len() == 0 {
            self
        } else {
            self.skipped_all(series.drop_last()).skipped(series.last())
        }
    }

    /// What a new command to play does: a source that was resolved ahead is
    /// used unless it has died since.
    pub open spec fn first_step(self, id: ScopedIdView, now: SystemTime) -> PlayStepView {
        let generation = next_number(self.play_gen);
        match self.ready_source(id) {
            Some(source) => if source.expired(now) {
                PlayStepView::Resolve { generation }
            } else {
                PlayStepView::Load { generation, source }
            },
            None => PlayStepView::Resolve { generation },
        }
    }

    /// The player about to load.
    pub open spec fn loading(self) -> PlayerView {
        PlayerView {
            status: PlaybackStatus::Playing,
            paused: false,
            position: None,
            duration: None,
            ..self
        }
    }

    /// The player with a track loaded.
    pub open spec fn playing(self, id: ScopedIdView, source: StreamSourceView) -> PlayerView {
        PlayerView {
            current: Some((id, source)),
            preloaded: None,
            advancing: false,
            last_error: None,
            ..self
        }
    }

    /// The player after playback broke off.
    pub open spec fn failed(self, reason: Seq<char>) -> PlayerView {
        PlayerView { last_error: Some(reason), ..self }
    }

    /// The index of the current track in the queue.
    pub open spec fn current_place(self) -> Option<int> {
        match self.current {
            Some((id, _)) => first_index(self.queue.tracks, id, 0),
            None => None,
        }
    }

    /// The state that clients see.
    pub open spec fn shown(self) -> PlayerStateView {
        PlayerStateView {
            status: self.status,
            track: match self.current_place() {
                Some(i) => Some(self.queue.tracks[i]),
                None => None,
            },
            position: self.position,
            duration: self.duration,
            volume: self.volume,
            loop_mode: self.queue.loop_mode,
            shuffle: self.queue.shuffle,
            queue_index: match self.current_place() {
                Some(i) => Some(i as usize),
                None => None,
            },
            queue_len: self.queue.tracks.len() as usize,
            offline: self.current matches Some((_, source)) && source is Local,
            equalizer: self.equalizer,
            last_error: self.last_error,
        }
    }

    /// The player after a track ended by itself.
    pub open spec fn ended(self) -> (PlayerView, PlayerActionView) {
        match self.queue.moved(true, true) {
            Some(place) => (
                PlayerView {
                    queue: self.queue.after_move(true, true),
                    position: None,
                    advancing: true,
                    ..self
                },
                PlayerActionView::Play(self.queue.visited(place).id),
            ),
            None => (
                PlayerView {
                    position: None,
                    status: PlaybackStatus::Stopped,
                    current: None,
                    preloaded: None,
                    ..self
                },
                PlayerActionView::StopAndNotify,
            ),
        }
    }

    /// The player after an event of its process. `idle_now` tells whether
    /// the process has nothing loaded at this moment.
    pub open spec fn after_event(self, event: MpvEvent, idle_now: bool) -> (
        PlayerView,
        PlayerActionView,
    ) {
        match event {
            MpvEvent::Position { position } => (
                PlayerView { position: Some(position), ..self },
                PlayerActionView::Nothing,
            ),
            MpvEvent::Duration(d) => (
                PlayerView { duration: Some(d), ..self },
                PlayerActionView::Notify,
            ),
            MpvEvent::Paused(paused) => (
                PlayerView {
                    paused,
                    status: if paused {
                        PlaybackStatus::Paused
                    } else if self.current is Some {
                        PlaybackStatus::Playing
                    } else {
                        PlaybackStatus::Stopped
                    },
                    ..self
                },
                PlayerActionView::Notify,
            ),
            MpvEvent::EndOfFile => self.ended(),
            MpvEvent::Idle => if !self.advancing && idle_now {
                (
                    PlayerView { status: PlaybackStatus::Stopped, ..self },
                    PlayerActionView::Notify,
                )
            } else {
                (self, PlayerActionView::Nothing)
            },
            MpvEvent::Restarted | MpvEvent::GaveUp { .. } => (
                PlayerView {
                    status: PlaybackStatus::Stopped,
                    position: None,
                    advancing: false,
                    ..self
                },
                PlayerActionView::Notify,
            ),
        }
    }
}

impl Player {
    pub open spec fn wf(&self) -> bool {
        &&& self@.valid()
        &&& self.sound()
    }

    pub closed spec fn sound(&self) -> bool {
        self.queue.sound()
    }

    pub fn new(volume: Double) -> (r: Self)
        ensures
            r.wf(),
            r@ == (PlayerView {
                queue: QueueModel::fresh(),
                current: None,
                position: None,
                duration: None,
                paused: false,
                volume,
                status: PlaybackStatus::Stopped,
                preloaded: None,
                play_gen: 0,
                skip_gen: 0,
                advancing: false,
                equalizer: EqStateView {
                    enabled: false,
                    preset: "Flat"@,
                    bands: row_gains(preset_table()[0].1),
                },
                last_error: None,
            }),
    {
        Player {
            queue: Queue::new(),
            current: None,
            position: None,
            duration: None,
            paused: false,
            volume,
            status: PlaybackStatus::Stopped,
            preloaded: None,
            play_gen: 0,
            skip_gen: 0,
            advancing: false,
            equalizer: EqState::default(),
            last_error: None,
        }
    }

    pub fn queue(&self) -> (r: &Queue)
        requires
            self.wf(),
        ensures
            r.wf(),
            r@ == self@.queue,
    {
        &self.queue
    }

    /// Hands the queue out for changing.
    pub fn take_queue(&mut self) -> (r: Queue)
        requires
            old(self).wf(),
        ensures
            r.wf(),
            r@ == old(self)@.queue,
            final(self).wf(),
            final(self)@ == (PlayerView { queue: QueueModel::fresh(), ..old(self)@ }),
    {
        let mut queue = Queue::new();
        std::mem::swap(&mut queue, &mut self.queue);
        queue
    }

    /// Takes the queue back.
    pub fn put_queue(&mut self, queue: Queue)
        requires
            old(self).wf(),
            queue.wf(),
        ensures
            final(self).wf(),
            final(self)@ == (PlayerView { queue: queue@, ..old(self)@ }),
    {
        self.queue = queue;
    }

    pub fn equalizer(&self) -> (r: &EqState)
        ensures
            r@ == self@.equalizer,
    {
        &self.equalizer
    }

    pub fn set_equalizer(&mut self, eq: EqState)
        requires
            old(self).wf(),
        ensures
            final(self).wf(),
            final(self)@ == (PlayerView { equalizer: eq@, ..old(self)@ }),
    {
        self.equalizer = eq;
    }

    /// Takes note of the volume that the process was set to.
    pub fn set_volume(&mut self, volume: Double)
        requires
            old(self).wf(),
        ensures
            final(self).wf(),
            final(self)@ == (PlayerView { volume, ..old(self)@ }),
    {
        self.volume = volume;
    }

    pub fn status(&self) -> (r: PlaybackStatus)
        ensures
            r == self@.status,
    {
        self.status
    }

    /// A new command to play a track. What was resolved ahead is used for
    /// its own track alone, once, and not after its link has died.
    pub fn resolve_and_play(&mut self, id: &TrackId, now: SystemTime) -> (r: PlayStep)
        requires
            old(self).wf(),
        ensures
            final(self).wf(),
            final(self)@ == old(self)@.commanded(id@),
            r@ == old(self)@.first_step(id@, now),
    {
        let generation: u64 = number_after(self.play_gen);
        self.play_gen = generation;
        self.skip_gen = number_after(self.skip_gen);
        if let Some(ready) = self.preloaded.take() {
            if ready.track_id == *id {
                if !ready.source.is_expired(now) {
                    return PlayStep::Load { generation, source: ready.source };
                }
            } else {
                self.preloaded = Some(ready);
            }
        }
        PlayStep::Resolve { generation }
    }

    /// Whether a command still counts. One that was overtaken must not
    /// resolve, load or store anything.
    pub fn is_latest(&self, generation: u64) -> (r: bool)
        ensures
            r == (generation == self@.play_gen),
    {
        generation == self.play_gen
    }

    /// The last check before loading. Only the latest command passes it,
    /// and only then does the state change.
    pub fn start_loading(&mut self, generation: u64) -> (r: bool)
        requires
            old(self).wf(),
        ensures
            final(self).wf(),
            r == (generation == old(self)@.play_gen),
            final(self)@ == if r {
                old(self)@.loading()
            } else {
                old(self)@
            },
    {
        if generation != self.play_gen {
            return false;
        }
        self.status = PlaybackStatus::Playing;
        self.paused = false;
        self.position = None;
        self.duration = None;
        true
    }

    /// The source is loaded. Tells which track to resolve ahead.
    pub fn loaded(&mut self, id: &TrackId, source: StreamSource) -> (r: Option<TrackId>)
        requires
            old(self).wf(),
        ensures
            final(self).wf(),
            final(self)@ == old(self)@.playing(id@, source@),
            match r {
                Some(next) => old(self)@.queue.cursor matches Some(c) && (old(self)@.queue.step(
                    c,
                    true,
                    true,
                ) matches Some(p) && next@ == old(self)@.queue.visited(p).id),
                None => old(self)@.queue.cursor matches Some(c) ==> old(self)@.queue.step(
                    c,
                    true,
                    true,
                ) is None,
            },
    {
        self.current = Some(Current { track_id: id.clone(), source });
        self.preloaded = None;
        self.advancing = false;
        self.last_error = None;
        match self.queue.peek_next() {
            Some(track) => Some(track.id.clone()),
            None => None,
        }
    }

    /// Keeps what was resolved ahead, unless a newer command has come.
    pub fn store_preload(&mut self, generation: u64, id: TrackId, source: StreamSource) -> (r: bool)
        requires
            old(self).wf(),
        ensures
            final(self).wf(),
            r == (generation == old(self)@.play_gen),
            final(self)@ == if r {
                PlayerView { preloaded: Some((id@, source@)), ..old(self)@ }
            } else {
                old(self)@
            },
    {
        if generation != self.play_gen {
            return false;
        }
        self.preloaded = Some(Current { track_id: id, source });
        true
    }

    /// The track after the one that ended could not be played.
    pub fn advance_failed(&mut self)
        requires
            old(self).wf(),
        ensures
            final(self).wf(),
            final(self)@ == (PlayerView {
                advancing: false,
                status: PlaybackStatus::Stopped,
                ..old(self)@
            }),
    {
        self.advancing = false;
        self.status = PlaybackStatus::Stopped;
    }

    /// A manual skip: moves the queue at once and tells what to play, if
    /// there is anything. It is played after a short rest, unless another
    /// skip or command has come by then.
    pub fn skip(&mut self, forward: bool) -> (r: Option<TrackId>)
        requires
            old(self).wf(),
        ensures
            final(self).wf(),
            final(self)@ == old(self)@.skipped(forward),
            match r {
                Some(id) => old(self)@.queue.moved(forward, false) matches Some(p) && id@
                    == old(self)@.queue.visited(p).id,
                None => old(self)@.queue.moved(forward, false) is None,
            },
    {
        self.skip_gen = number_after(self.skip_gen);
        let track = if forward {
            self.queue.next()
        } else {
            self.queue.prev()
        };
        match track {
            Some(t) => Some(t.id.clone()),
            None => None,
        }
    }

    /// The number of the latest skip or command to play.
    pub fn skip_number(&self) -> (r: u64)
        ensures
            r == self@.skip_gen,
    {
        self.skip_gen
    }

    /// Whether a skip still counts once it has rested. Of a series only the
    /// last one does.
    pub fn is_latest_skip(&self, number: u64) -> (r: bool)
        ensures
            r == (number == self@.skip_gen),
    {
        number == self.skip_gen
    }

    /// The state that clients see.
    pub fn state(&self) -> (r: PlayerState)
        requires
            self.wf(),
        ensures
            r@ == self@.shown(),
    {
        let index: Option<usize> = match &self.current {
            Some(c) => self.queue.find_index(&c.track_id),
            None => None,
        };
        let track: Option<Track> = match index {
            Some(i) => match self.queue.track_at(i) {
                Some(t) => Some(t.clone()),
                None => None,
            },
            None => None,
        };
        let offline: bool = match &self.current {
            Some(c) => c.source.is_local(),
            None => false,
        };
        PlayerState {
            status: self.status,
            track,
            position: self.position,
            duration: self.duration,
            volume: self.volume,
            loop_mode: self.queue.loop_mode(),
            shuffle: self.queue.shuffle(),
            queue_index: index,
            queue_len: self.queue.len(),
            offline,
            equalizer: self.equalizer.clone(),
            last_error: clone_opt(&self.last_error),
        }
    }

    /// Playback broke off: the reason is shown until a track is loaded.
    pub fn playback_failed(&mut self, reason: String)
        requires
            old(self).wf(),
        ensures
            final(self).wf(),
            final(self)@ == old(self)@.failed(reason@),
    {
        self.last_error = Some(reason);
    }

    /// A track ended by itself: the queue advances naturally.
    fn on_track_end(&mut self) -> (r: PlayerAction)
        requires
            old(self).wf(),
        ensures
            final(self).wf(),
            (final(self)@, r@) == old(self)@.ended(),
    {
        let next: Option<TrackId> = match self.queue.next_natural() {
            Some(t) => Some(t.id.clone()),
            None => None,
        };
        self.position = None;
        match next {
            Some(id) => {
                self.advancing = true;
                PlayerAction::Play(id)
            },
            None => {
                self.status = PlaybackStatus::Stopped;
                self.current = None;
                self.preloaded = None;
                PlayerAction::StopAndNotify
            },
        }
    }

    /// Takes note of an event of the player process.
    ///
    /// The process is idle between two tracks as well, and its events are
    /// handled later than they happened: idleness is a stop only outside of
    /// a change of tracks and while there really is nothing loaded.
    pub fn on_event(&mut self, event: MpvEvent, idle_now: bool) -> (r: PlayerAction)
        requires
            old(self).wf(),
        ensures
            final(self).wf(),
            (final(self)@, r@) == old(self)@.after_event(event, idle_now),
    {
        match event {
            MpvEvent::Position { position } => {
                self.position = Some(position);
                PlayerAction::Nothing
            },
            MpvEvent::Duration(d) => {
                self.duration = Some(d);
                PlayerAction::Notify
            },
            MpvEvent::Paused(paused) => {
                self.paused = paused;
                self.status = if paused {
                    PlaybackStatus::Paused
                } else if self.current.is_some() {
                    PlaybackStatus::Playing
                } else {
                    PlaybackStatus::Stopped
                };
                PlayerAction::Notify
            },
            MpvEvent::EndOfFile => self.on_track_end(),
            MpvEvent::Idle => if !self.advancing && idle_now {
                self.status = PlaybackStatus::Stopped;
                PlayerAction::Notify
            } else {
                PlayerAction::Nothing
            },
            MpvEvent::Restarted | MpvEvent::GaveUp { .. } => {
                self.status = PlaybackStatus::Stopped;
                self.position = None;
                self.advancing = false;
                PlayerAction::Notify
            },
        }
    }
}

/// A command that was overtaken changes nothing: once a newer command has
/// come, the older number is not the latest any more.
pub proof fn lemma_overtaken_command_is_stale(p: PlayerView, newer: ScopedIdView)
    ensures
        p.commanded(newer).play_gen != p.play_gen,
{
}

/// What was resolved ahead is played at most once: after a command for its
/// track it is gone. A command for another track leaves it where it is.
pub proof fn lemma_preload_is_used_once(p: PlayerView, id: ScopedIdView, other: ScopedIdView)
    ensures
        p.commanded(id).ready_source(id) is None,
        id != other ==> p.commanded(id).ready_source(other) == p.ready_source(other),
{
}

/// How the numbers of a series run on.
proof fn lemma_series_numbers(p: PlayerView, series: Seq<bool>)
    ensures
        p.skipped_all(series).skip_gen == (p.skip_gen + series.len()) % 0x1_0000_0000_0000_0000,
    decreases series.len(),
{
    if series.len() > 0 {
        lemma_series_numbers(p, series.drop_last());
    }
}

/// Of a series of skips only the last one starts its track: the number that
/// an earlier one got is not the latest any more when the series is over. A
/// command to play calls off every skip that has not started yet, and a skip
/// leaves alone which command is the latest. `count` is how many skips of
/// the series had been made when a number was given out.
pub proof fn lemma_only_the_last_skip_starts(
    p: PlayerView,
    series: Seq<bool>,
    count: int,
    id: ScopedIdView,
)
    requires
        0 < count <= series.len() <= u64::MAX,
    ensures
        p.skipped_all(series.take(count)).skip_gen == p.skipped_all(series).skip_gen <==> count
            == series.len(),
        p.skipped_all(series).commanded(id).skip_gen != p.skipped_all(series).skip_gen,
        p.skipped_all(series).play_gen == p.play_gen,
{
    lemma_series_numbers(p, series);
    lemma_series_numbers(p, series.take(count));
    assert(series.take(series.len() as int) =~= series);
    lemma_skips_keep_the_command(p, series);
}

proof fn lemma_skips_keep_the_command(p: PlayerView, series: Seq<bool>)
    ensures
        p.skipped_all(series).play_gen == p.play_gen,
    decreases series.len(),
{
    if series.len() > 0 {
        lemma_skips_keep_the_command(p, series.drop_last());
    }
}

/// What was resolved ahead never outlives a change of the current track,
/// whether another one is loaded or the queue has come to its end.
pub proof fn lemma_preload_goes_with_the_current_track(
    p: PlayerView,
    id: ScopedIdView,
    source: StreamSourceView,
    event: MpvEvent,
    idle_now: bool,
)
    ensures
        p.playing(id, source).preloaded is None,
        p.after_event(event, idle_now).0.current != p.current ==> p.after_event(
            event,
            idle_now,
        ).0.preloaded is None,
        p.loading().current == p.current,
        p.commanded(id).current == p.current,
{
}

/// A link that has died is never loaded from what was resolved ahead.
pub proof fn lemma_dead_links_are_not_loaded(p: PlayerView, id: ScopedIdView, now: SystemTime)
    ensures
        p.first_step(id, now) matches PlayStepView::Load { source, .. } ==> !source.expired(now),
{
}

/// The reason of a failure stays in sight through every event and command
/// until a track is loaded, and is gone then.
pub proof fn lemma_failure_is_shown_until_a_track_loads(
    p: PlayerView,
    reason: Seq<char>,
    event: MpvEvent,
    idle_now: bool,
    id: ScopedIdView,
    source: StreamSourceView,
)
    ensures
        p.failed(reason).shown().last_error == Some(reason),
        p.after_event(event, idle_now).0.last_error == p.last_error,
        p.commanded(id).last_error == p.last_error,
        p.loading().last_error == p.last_error,
        p.playing(id, source).shown().last_error is None,
{
}

/// A command to play means to play: whatever was paused before, loading
/// makes the state `Playing` and takes the pause off.
pub proof fn lemma_loading_lifts_the_pause(p: PlayerView)
    ensures
        p.loading().status == PlaybackStatus::Playing,
        !p.loading().paused,
{
}

/// Idleness in the middle of a change of tracks shows as nothing.
pub proof fn lemma_no_stop_between_tracks(p: PlayerView, idle_now: bool)
    requires
        p.queue.moved(true, true) is Some,
    ensures
        p.ended().0.after_event(MpvEvent::Idle, idle_now) == (
            p.ended().0,
            PlayerActionView::Nothing,
        ),
{
}

/// Each event of the process changes what it tells of and nothing besides:
/// a position and a duration are shown as they were told, the latter at
/// once; a process that died or was restarted plays nothing any more, and
/// the track stays where it is, so that it can be started again.
pub proof fn lemma_events_are_shown_as_told(p: PlayerView, event: MpvEvent, idle_now: bool)
    ensures
        ({
            let (after, action) = p.after_event(event, idle_now);
            let was = p.shown();
            let now = after.shown();
            &&& event matches MpvEvent::Position { position } ==> now == (PlayerStateView {
                position: Some(position),
                ..was
            }) && action is Nothing
            &&& event matches MpvEvent::Duration(d) ==> now == (PlayerStateView {
                duration: Some(d),
                ..was
            }) && action is Notify
            &&& event matches MpvEvent::Paused(paused) ==> {
                &&& now == (PlayerStateView { status: now.status, ..was })
                &&& action is Notify
                &&& now.status == PlaybackStatus::Paused <==> paused
                &&& !paused ==> (now.status == PlaybackStatus::Playing <==> p.current is Some)
            }
            &&& event is Restarted || event is GaveUp ==> now == (PlayerStateView {
                status: PlaybackStatus::Stopped,
                position: None,
                ..was
            }) && action is Notify && !after.advancing
            &&& event is Idle && idle_now && !p.advancing ==> now == (PlayerStateView {
                status: PlaybackStatus::Stopped,
                ..was
            }) && action is Notify
            &&& event is Idle && !(idle_now && !p.advancing) ==> after == p && action is Nothing
        }),
{
}

/// A track that ended leads on to the one after it. Under the repeat of a
/// track it plays again; behind the last one a looped queue goes on with the
/// first, and an unlooped one stops with nothing shown as playing.
pub proof fn lemma_a_track_that_ended_leads_on(p: PlayerView, idle_now: bool, i: int)
    requires
        p.valid(),
        !p.queue.shuffle,
        p.queue.current_index() == Some(i),
    ensures
        ({
            let (after, action) = p.after_event(MpvEvent::EndOfFile, idle_now);
            let tracks = p.queue.tracks;
            let last = i + 1 == tracks.len();
            let next = if p.queue.loop_mode == LoopMode::Track {
                i
            } else if last {
                0
            } else {
                i + 1
            };
            &&& 0 <= i < tracks.len()
            &&& after.queue.tracks == tracks
            &&& after.position is None
            &&& !last || p.queue.loop_mode != LoopMode::Off ==> {
                &&& action == PlayerActionView::Play(tracks[next].id)
                &&& after.queue.current_index() == Some(next)
                &&& after.advancing
            }
            &&& last && p.queue.loop_mode == LoopMode::Off ==> {
                &&& action is StopAndNotify
                &&& after.shown().status == PlaybackStatus::Stopped
                &&& after.shown().track is None
                &&& after.queue.current_index() == Some(i)
            }
        }),
{
    let q = p.queue;
    let c = q.cursor->0;
    assert(q.order[c] == c as usize);
    if let Some(d) = q.moved(true, true) {
        assert(q.order[d] == d as usize);
    }
}

/// Clients see what is there: the track that is loaded, where it stands in
/// the queue first, with the queue's length and modes, and whether it comes
/// from a file.
pub proof fn lemma_clients_see_what_is_there(
    p: PlayerView,
    id: ScopedIdView,
    source: StreamSourceView,
    k: int,
)
    requires
        p.valid(),
        0 <= k < p.queue.tracks.len(),
    ensures
        ({
            let now = p.playing(id, source).shown();
            let tracks = p.queue.tracks;
            &&& now.status == p.status
            &&& now.volume == p.volume
            &&& now.equalizer == p.equalizer
            &&& now.position == p.position
            &&& now.duration == p.duration
            &&& now.loop_mode == p.queue.loop_mode
            &&& now.shuffle == p.queue.shuffle
            &&& now.queue_len == tracks.len()
            &&& now.offline <==> source is Local
            &&& tracks[k].id == id ==> {
                &&& now.track matches Some(t) && t.id == id
                &&& now.queue_index matches Some(i) && i <= k && Some(tracks[i as int]) == now.track
            }
            &&& now.track is None ==> tracks[k].id != id
            &&& now.track is Some <==> now.queue_index is Some
            &&& p.current is None ==> p.shown().track is None && !p.shown().offline
        }),
{
    lemma_first_index(p.queue.tracks, id, 0);
}

/// What was resolved ahead for a track is loaded at once, as long as it
/// lives; anything else is resolved first. Either carries the number of the
/// command, which is a new one.
pub proof fn lemma_what_was_resolved_ahead_is_loaded(
    p: PlayerView,
    id: ScopedIdView,
    source: StreamSourceView,
    now: SystemTime,
)
    ensures
        ({
            let number = p.commanded(id).play_gen;
            let ready = PlayerView { preloaded: Some((id, source)), ..p };
            &&& number != p.play_gen
            &&& p.commanded(id).skip_gen != p.skip_gen
            &&& !source.expired(now) ==> ready.first_step(id, now) == (PlayStepView::Load {
                generation: number,
                source,
            })
            &&& source.expired(now) ==> ready.first_step(id, now) == (PlayStepView::Resolve {
                generation: number,
            })
            &&& p.preloaded is None ==> p.first_step(id, now) == (PlayStepView::Resolve {
                generation: number,
            })
            &&& p.preloaded matches Some((other, _)) ==> other != id ==> p.first_step(id, now) == (
            PlayStepView::Resolve { generation: number })
        }),
{
}

/// A track that is loaded is what plays: it is current, from the source
/// that was found, and nothing of the change of tracks is left. Loading
/// starts at no position yet.
pub proof fn lemma_what_is_loaded_is_current(
    p: PlayerView,
    id: ScopedIdView,
    source: StreamSourceView,
)
    ensures
        p.playing(id, source).current == Some((id, source)),
        !p.playing(id, source).advancing,
        p.playing(id, source).queue == p.queue,
        p.loading().queue == p.queue,
        p.loading().shown().position is None,
        p.loading().shown().duration is None,
        p.commanded(id).queue == p.queue,
{
}

} // verus!
