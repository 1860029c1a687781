//! The control protocol: what clients ask of the daemon, what it answers,
//! and the events that it sends out.
//!
//! A frame is one line. A request carries a number and the answer repeats
//! it; an event carries none.

use vstd::prelude::*;

use crate::double::Double;
use crate::eq::{EqState, EqStateView};
use crate::model::{
    AuthStatus, AuthStatusView, CatalogShelf, LoopMode, PlaybackStatus, Playlist, PlaylistId,
    Rating, ScopedIdView, SearchKind, SearchResult, Track, TrackId, TrackView,
};
use crate::text::{clone_opt, opt_text};
use crate::time::Duration;

verus! {

/// The number of a subscription: after it the connection only carries
/// events.
pub const SUBSCRIBE_ID: u64 = 0;

/// A client's request.
#[derive(Debug, PartialEq, Eq)]
pub struct Request {
    pub id: u64,
    pub cmd: Cmd,
}

/// The daemon's answer.
#[derive(Debug, PartialEq, Eq)]
pub enum Response {
    Answer { id: u64, ok: Payload },
    Failure { id: u64, err: String },
}

/// Which source the catalogue commands go to; `None` stands for all.
#[derive(Debug, PartialEq, Eq)]
pub struct CatalogSource {
    pub provider: Option<String>,
}

impl View for CatalogSource {
    type V = Option<Seq<char>>;

    open spec fn view(&self) -> Option<Seq<char>> {
        opt_text(self.provider)
    }
}

impl Default for CatalogSource {
    fn default() -> (r: Self)
        ensures
            r@ is None,
    {
        CatalogSource { provider: None }
    }
}

impl Clone for CatalogSource {
    fn clone(&self) -> (r: Self)
        ensures
            r@ == self@,
    {
        CatalogSource { provider: clone_opt(&self.provider) }
    }
}

/// A command.
#[allow(inconsistent_fields)]
#[derive(Debug, PartialEq, Eq)]
pub enum Cmd {
    /// Turns the connection into a stream of events.
    Subscribe,
    PlayTrack { track: TrackId },
    /// Queues a whole playlist and starts with the chosen track.
    PlayPlaylist { playlist: PlaylistId, track: Option<TrackId> },
    /// Replaces the queue by a list that the client owns and starts at an
    /// index of it.
    PlayContext { tracks: Vec<TrackId>, start: usize },
    Toggle,
    Play,
    Pause,
    Stop,
    Next,
    Prev,
    /// An absolute position in the track.
    Seek { position: Duration },
    /// A shift in seconds, backwards where it is negative.
    SeekBy { delta: Double },
    SetVolume { volume: Double },
    /// A partial change: what is `None` stays.
    Equalizer { enabled: Option<bool>, preset: Option<String>, bands: Option<Vec<Double>> },
    SetLoop { mode: LoopMode },
    SetShuffle { shuffle: bool },
    Queue,
    QueueAppend { tracks: Vec<TrackId> },
    QueueClear,
    QueueGoto { index: usize },
    State,
    /// Reads the credentials again and checks the sessions; `None`: of all
    /// sources.
    RefreshAuth { provider: Option<String> },
    Providers,
    Search { query: String, kind: SearchKind, provider: Option<String> },
    Library { provider: Option<String> },
    LibraryTracks { playlist: PlaylistId },
    /// The next page of a playlist.
    LibraryTracksPage { playlist: PlaylistId },
    Liked { provider: Option<String> },
    Home { provider: Option<String> },
    Rate { track: TrackId, rating: Rating },
    Ratings,
    GetCatalogSource,
    SetCatalogSource { source: CatalogSource },
    CacheStats,
    CachePin { tracks: Vec<TrackId> },
    CacheUnpin { tracks: Vec<TrackId> },
    CacheGc,
    /// Fetches tracks into the offline cache in the background.
    CacheWarm { tracks: Vec<TrackId> },
    PlaylistCreate { title: String, provider: Option<String> },
    PlaylistAdd { playlist: PlaylistId, track: TrackId },
    PlaylistRemove { playlist: PlaylistId, track: TrackId },
    PlaylistDelete { playlist: PlaylistId },
    Shutdown,
}

/// What an answer carries.
#[derive(Debug, PartialEq, Eq)]
pub enum Payload {
    Ack(Ack),
    State(PlayerState),
    Queue(QueueView),
    Results(Vec<SearchResult>),
    Ratings(Vec<(TrackId, Rating)>),
    Tracks(Vec<Track>),
    TracksPage { tracks: Vec<Track>, next: Option<String> },
    Playlists(Vec<Playlist>),
    Home(Vec<CatalogShelf>),
    PlaylistCreated { playlist: PlaylistId },
    Providers(Vec<ProviderView>),
    Cache(CacheStats),
    Catalog(CatalogSource),
}

/// The answer to a command without data, told apart from a missing field.
#[derive(Clone, Copy, Debug, PartialEq, Eq, Structural)]
pub struct Ack {
    pub done: bool,
}

impl Default for Ack {
    fn default() -> (r: Self)
        ensures
            r.done,
    {
        Ack { done: true }
    }
}

/// The player's state as clients see it.
#[derive(Debug, PartialEq, Eq)]
pub struct PlayerState {
    pub status: PlaybackStatus,
    pub track: Option<Track>,
    pub position: Option<Duration>,
    pub duration: Option<Duration>,
    pub volume: Double,
    pub loop_mode: LoopMode,
    pub shuffle: bool,
    pub queue_index: Option<usize>,
    pub queue_len: usize,
    /// Playing from the offline cache.
    pub offline: bool,
    pub equalizer: EqState,
    /// Why playback failed last, until a track loads.
    pub last_error: Option<String>,
}

#[verifier::ext_equal]
pub struct PlayerStateView {
    pub status: PlaybackStatus,
    pub track: Option<TrackView>,
    pub position: Option<Duration>,
    pub duration: Option<Duration>,
    pub volume: Double,
    pub loop_mode: LoopMode,
    pub shuffle: bool,
    pub queue_index: Option<usize>,
    pub queue_len: usize,
    pub offline: bool,
    pub equalizer: EqStateView,
    pub last_error: Option<Seq<char>>,
}

/// What is known of an optional track.
pub open spec fn opt_track(t: Option<Track>) -> Option<TrackView> {
    match t {
        Some(t) => Some(t@),
        None => None,
    }
}

impl View for PlayerState {
    type V = PlayerStateView;

    open spec fn view(&self) -> PlayerStateView {
        PlayerStateView {
            status: self.status,
            track: opt_track(self.track),
            position: self.position,
            duration: self.duration,
            volume: self.volume,
            loop_mode: self.loop_mode,
            shuffle: self.shuffle,
            queue_index: self.queue_index,
            queue_len: self.queue_len,
            offline: self.offline,
            equalizer: self.equalizer@,
            last_error: opt_text(self.last_error),
        }
    }
}

/// A copy of an optional track.
pub fn clone_opt_track(t: &Option<Track>) -> (r: Option<Track>)
    ensures
        opt_track(r) == opt_track(*t),
{
    match t {
        Some(t) => Some(t.clone()),
        None => None,
    }
}

impl Clone for PlayerState {
    fn clone(&self) -> (r: Self)
        ensures
            r@ == self@,
    {
        PlayerState {
            status: self.status,
            track: clone_opt_track(&self.track),
            position: self.position,
            duration: self.duration,
            volume: self.volume,
            loop_mode: self.loop_mode,
            shuffle: self.shuffle,
            queue_index: self.queue_index,
            queue_len: self.queue_len,
            offline: self.offline,
            equalizer: self.equalizer.clone(),
            last_error: clone_opt(&self.last_error),
        }
    }
}

/// The queue as clients see it.
#[derive(Debug, PartialEq, Eq)]
pub struct QueueView {
    pub tracks: Vec<Track>,
    pub index: Option<usize>,
}

/// A source as clients see it.
#[derive(Debug, PartialEq, Eq)]
pub struct ProviderView {
    pub id: String,
    pub name: String,
    pub auth: AuthStatus,
    pub glyph: String,
    pub color: String,
}

/// The state of the offline cache.
#[derive(Clone, Copy, Debug, PartialEq, Eq, Structural)]
pub struct CacheStats {
    pub tracks: u64,
    pub bytes: u64,
    pub limit_bytes: u64,
    pub pinned_tracks: u64,
    pub pinned_bytes: u64,
}

impl Default for CacheStats {
    fn default() -> (r: Self)
        ensures
            r == (CacheStats {
                tracks: 0,
                bytes: 0,
                limit_bytes: 0,
                pinned_tracks: 0,
                pinned_bytes: 0,
            }),
    {
        CacheStats { tracks: 0, bytes: 0, limit_bytes: 0, pinned_tracks: 0, pinned_bytes: 0 }
    }
}

/// An event of the stream.
#[allow(inconsistent_fields)]
#[derive(Debug, PartialEq, Eq)]
pub enum Event {
    TrackChanged { track: Option<Track>, queue_index: Option<usize> },
    Position { position: Duration, duration: Option<Duration> },
    StateChanged { state: PlayerState },
    QueueChanged { len: usize, index: Option<usize> },
    CacheProgress { track: TrackId, bytes: u64, total: Option<u64> },
    AuthChanged { provider: String, auth: AuthStatus },
    RatingChanged { track: TrackId, rating: Rating },
    /// Playlists came, went or changed; the receiver reads them again.
    PlaylistsChanged,
}

#[verifier::ext_equal]
#[allow(inconsistent_fields)]
pub enum EventView {
    TrackChanged { track: Option<TrackView>, queue_index: Option<usize> },
    Position { position: Duration, duration: Option<Duration> },
    StateChanged { state: PlayerStateView },
    QueueChanged { len: usize, index: Option<usize> },
    CacheProgress { track: ScopedIdView, bytes: u64, total: Option<u64> },
    AuthChanged { provider: Seq<char>, auth: AuthStatusView },
    RatingChanged { track: ScopedIdView, rating: Rating },
    PlaylistsChanged,
}

impl View for Event {
    type V = EventView;

    open spec fn view(&self) -> EventView {
        match *self {
            Event::TrackChanged { track, queue_index } => EventView::TrackChanged {
                track: opt_track(track),
                queue_index,
            },
            Event::Position { position, duration } => EventView::Position { position, duration },
            Event::StateChanged { state } => EventView::StateChanged { state: state@ },
            Event::QueueChanged { len, index } => EventView::QueueChanged { len, index },
            Event::CacheProgress { track, bytes, total } => EventView::CacheProgress {
                track: track@,
                bytes,
                total,
            },
            Event::AuthChanged { provider, auth } => EventView::AuthChanged {
                provider: provider@,
                auth: auth@,
            },
            Event::RatingChanged { track, rating } => EventView::RatingChanged {
                track: track@,
                rating,
            },
            Event::PlaylistsChanged => EventView::PlaylistsChanged,
        }
    }
}

pub open spec fn event_views(v: Seq<Event>) -> Seq<EventView> {
    v.map_values(|e: Event| e@)
}

/// A frame from the daemon: an answer, or an event without a number.
#[derive(Debug, PartialEq, Eq)]
pub enum Frame {
    Response(Response),
    Event(Event),
}

} // verus!
