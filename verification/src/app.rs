//! The daemon's core: the one place where commands are handled.
//!
//! Handling a command decides what is to happen; the caller carries it out,
//! act after act, and stops at the first that fails. Everyone who wants
//! something of the player comes through here, so that all of them see the
//! same state.

use vstd::prelude::*;

use crate::catalog::{
    create_address, create_target, id_views, library_plan, library_plan_for, names_of,
    not_connected, not_connected_text, playlist_address, playlist_create, playlist_plan,
    playlist_plan_for, target_names, targets, LibraryPlan, LibraryPlanView, PlaylistPlan,
    PlaylistPlanView,
};
use crate::double::{clamp_volume, volume_bounded, Double};
use crate::eq::{merge_equalizer, merged, opt_gains, EqState, EqStateView};
use crate::home::opt_str;
use crate::model::{
    scoped_text, track_views, LoopMode, PlaybackStatus, PlaylistId, Rating, ScopedIdView,
    SearchKind, Track, TrackId, TrackView,
};
use crate::mpv::MpvEvent;
use crate::player::{lemma_only_the_last_skip_starts, Player, PlayerView};
use crate::protocol::{CatalogSource, Cmd, Event, EventView, QueueView};
use crate::provider::{ProviderError, ProviderErrorView, Registry};
use crate::queue::{drawn, first_index, identity, lemma_first_index, Queue, QueueModel};
use crate::radio::{index_shown, Radio, RadioView};
use crate::text::{concat2, concat3, decimal, decimal_text, opt_text, texts};
use crate::textmap::{lemma_found_is_what_is_there, lookup};
use crate::time::Duration;

verus! {

/// Something that is to be done.
#[allow(inconsistent_fields)]
#[derive(Debug, PartialEq, Eq)]
pub enum Act {
    Pause(bool),
    StopPlayback,
    SeekTo(Duration),
    SeekBy(Double),
    SetVolume(Double),
    SetEqualizer(EqState),
    /// Resolve the track and play it.
    Start(TrackId),
    /// The same after a short rest, unless the number is not the latest any
    /// more by then, so that a series of skips starts one track only.
    StartSoon { track: TrackId, number: u64 },
    /// Move on in the queue.
    Skip { forward: bool },
    Emit(Event),
    /// Send out the whole state.
    EmitState,
    SetRating { track: TrackId, rating: Rating },
    /// The stored tracks of this playlist are stale.
    ForgetPlaylist(PlaylistId),
    /// Tell the source about a rating.
    Mirror { provider: String, track: TrackId, rating: Rating },
    Pin { tracks: Vec<TrackId>, pinned: bool },
    Gc,
    SaveSource(CatalogSource),
    UseSource(CatalogSource),
    /// Fetch tracks into the offline cache, in the background.
    Warm(Vec<TrackId>),
    /// Read the credentials of these sources again.
    Refresh(Vec<String>),
}

#[verifier::ext_equal]
#[allow(inconsistent_fields)]
pub enum ActView {
    Pause(bool),
    StopPlayback,
    SeekTo(Duration),
    SeekBy(Double),
    SetVolume(Double),
    SetEqualizer(EqStateView),
    Start(ScopedIdView),
    StartSoon { track: ScopedIdView, number: u64 },
    Skip { forward: bool },
    Emit(EventView),
    EmitState,
    SetRating { track: ScopedIdView, rating: Rating },
    ForgetPlaylist(ScopedIdView),
    Mirror { provider: Seq<char>, track: ScopedIdView, rating: Rating },
    Pin { tracks: Seq<ScopedIdView>, pinned: bool },
    Gc,
    SaveSource(Option<Seq<char>>),
    UseSource(Option<Seq<char>>),
    Warm(Seq<ScopedIdView>),
    Refresh(Seq<Seq<char>>),
}

impl View for Act {
    type V = ActView;

    open spec fn view(&self) -> ActView {
        match *self {
            Act::Pause(paused) => ActView::Pause(paused),
            Act::StopPlayback => ActView::StopPlayback,
            Act::SeekTo(position) => ActView::SeekTo(position),
            Act::SeekBy(delta) => ActView::SeekBy(delta),
            Act::SetVolume(volume) => ActView::SetVolume(volume),
            Act::SetEqualizer(eq) => ActView::SetEqualizer(eq@),
            Act::Start(id) => ActView::Start(id@),
            Act::StartSoon { track, number } => ActView::StartSoon { track: track@, number },
            Act::Skip { forward } => ActView::Skip { forward },
            Act::Emit(event) => ActView::Emit(event@),
            Act::EmitState => ActView::EmitState,
            Act::SetRating { track, rating } => ActView::SetRating { track: track@, rating },
            Act::ForgetPlaylist(id) => ActView::ForgetPlaylist(id@),
            Act::Mirror { provider, track, rating } => ActView::Mirror {
                provider: provider@,
                track: track@,
                rating,
            },
            Act::Pin { tracks, pinned } => ActView::Pin { tracks: id_views(tracks@), pinned },
            Act::Gc => ActView::Gc,
            Act::SaveSource(source) => ActView::SaveSource(source@),
            Act::UseSource(source) => ActView::UseSource(source@),
            Act::Warm(tracks) => ActView::Warm(id_views(tracks@)),
            Act::Refresh(names) => ActView::Refresh(texts(names@)),
        }
    }
}

pub open spec fn act_views(v: Seq<Act>) -> Seq<ActView> {
    v.map_values(|a: Act| a@)
}

/// What the answer to a command is made of, once its acts are done.
#[allow(inconsistent_fields)]
#[derive(Debug, PartialEq, Eq)]
pub enum Reply {
    Ack,
    /// The player's state as it then is.
    State,
    Queue(QueueView),
    Providers,
    Ratings,
    /// The source that catalogue commands go to.
    Catalog,
    CacheStats,
    Search { query: String, kind: SearchKind, targets: Vec<String> },
    Library { provider: Option<String>, plan: LibraryPlan },
    Tracks { playlist: PlaylistId, plan: PlaylistPlan },
    NextPage { playlist: PlaylistId },
    /// What is liked: of one source, or of all together with what is marked
    /// here.
    Liked { aggregate: bool, targets: Vec<String> },
    Home { provider: Option<String> },
    CreatePlaylist { title: String, plan: PlaylistPlan },
    AddToPlaylist { playlist: PlaylistId, track: TrackId, plan: PlaylistPlan },
    RemoveFromPlaylist { playlist: PlaylistId, track: TrackId, plan: PlaylistPlan },
    DeletePlaylist { playlist: PlaylistId, plan: PlaylistPlan },
}

#[verifier::ext_equal]
#[allow(inconsistent_fields)]
pub enum ReplyView {
    Ack,
    State,
    Queue { tracks: Seq<TrackView>, index: Option<usize> },
    Providers,
    Ratings,
    Catalog,
    CacheStats,
    Search { query: Seq<char>, kind: SearchKind, targets: Seq<Seq<char>> },
    Library { provider: Option<Seq<char>>, plan: LibraryPlanView },
    Tracks { playlist: ScopedIdView, plan: PlaylistPlanView },
    NextPage { playlist: ScopedIdView },
    Liked { aggregate: bool, targets: Seq<Seq<char>> },
    Home { provider: Option<Seq<char>> },
    CreatePlaylist { title: Seq<char>, plan: PlaylistPlanView },
    AddToPlaylist { playlist: ScopedIdView, track: ScopedIdView, plan: PlaylistPlanView },
    RemoveFromPlaylist { playlist: ScopedIdView, track: ScopedIdView, plan: PlaylistPlanView },
    DeletePlaylist { playlist: ScopedIdView, plan: PlaylistPlanView },
}

impl View for Reply {
    type V = ReplyView;

    open spec fn view(&self) -> ReplyView {
        match *self {
            Reply::Ack => ReplyView::Ack,
            Reply::State => ReplyView::State,
            Reply::Queue(view) => ReplyView::Queue {
                tracks: track_views(view.tracks@),
                index: view.index,
            },
            Reply::Providers => ReplyView::Providers,
            Reply::Ratings => ReplyView::Ratings,
            Reply::Catalog => ReplyView::Catalog,
            Reply::CacheStats => ReplyView::CacheStats,
            Reply::Search { query, kind, targets } => ReplyView::Search {
                query: query@,
                kind,
                targets: texts(targets@),
            },
            Reply::Library { provider, plan } => ReplyView::Library {
                provider: opt_text(provider),
                plan: plan@,
            },
            Reply::Tracks { playlist, plan } => ReplyView::Tracks {
                playlist: playlist@,
                plan: plan@,
            },
            Reply::NextPage { playlist } => ReplyView::NextPage { playlist: playlist@ },
            Reply::Liked { aggregate, targets } => ReplyView::Liked {
                aggregate,
                targets: texts(targets@),
            },
            Reply::Home { provider } => ReplyView::Home { provider: opt_text(provider) },
            Reply::CreatePlaylist { title, plan } => ReplyView::CreatePlaylist {
                title: title@,
                plan: plan@,
            },
            Reply::AddToPlaylist { playlist, track, plan } => ReplyView::AddToPlaylist {
                playlist: playlist@,
                track: track@,
                plan: plan@,
            },
            Reply::RemoveFromPlaylist { playlist, track, plan } => ReplyView::RemoveFromPlaylist {
                playlist: playlist@,
                track: track@,
                plan: plan@,
            },
            Reply::DeletePlaylist { playlist, plan } => ReplyView::DeletePlaylist {
                playlist: playlist@,
                plan: plan@,
            },
        }
    }
}

/// What a command comes to.
#[derive(Debug, PartialEq, Eq)]
pub struct Script {
    pub acts: Vec<Act>,
    pub reply: Reply,
}

#[verifier::ext_equal]
pub struct ScriptView {
    pub acts: Seq<ActView>,
    pub reply: ReplyView,
}

impl View for Script {
    type V = ScriptView;

    open spec fn view(&self) -> ScriptView {
        ScriptView { acts: act_views(self.acts@), reply: self.reply@ }
    }
}

/// A script or a refusal, by view.
pub open spec fn script_result(r: Result<Script, String>) -> Result<ScriptView, Seq<char>> {
    match r {
        Ok(script) => Ok(script@),
        Err(e) => Err(e@),
    }
}

/// A script.
pub open spec fn script(acts: Seq<ActView>, reply: ReplyView) -> Result<ScriptView, Seq<char>> {
    Ok(ScriptView { acts, reply })
}

/// What has to be read before a command is handled.
#[derive(Debug, PartialEq, Eq)]
pub enum Need {
    Nothing,
    /// The known metadata of these tracks.
    Metadata(Vec<TrackId>),
    /// The tracks of this playlist.
    Tracks(PlaylistId),
}

#[verifier::ext_equal]
pub enum NeedView {
    Nothing,
    Metadata(Seq<ScopedIdView>),
    Tracks(ScopedIdView),
}

impl View for Need {
    type V = NeedView;

    open spec fn view(&self) -> NeedView {
        match *self {
            Need::Nothing => NeedView::Nothing,
            Need::Metadata(ids) => NeedView::Metadata(id_views(ids@)),
            Need::Tracks(id) => NeedView::Tracks(id@),
        }
    }
}

/// What was read.
#[derive(Debug, PartialEq, Eq)]
pub enum Input {
    Nothing,
    /// For each track what is known of it.
    Metadata(Vec<Option<Track>>),
    Tracks(Vec<Track>),
}

/// A track of which only the id is known. Its metadata comes when it plays.
pub open spec fn stub(id: ScopedIdView) -> TrackView {
    TrackView {
        id,
        title: id.id,
        artists: Seq::empty(),
        album: None,
        duration: None,
        art_url: None,
        page_url: None,
    }
}

/// The tracks with these ids: what is known of each, or the bare id.
pub open spec fn hydrated(ids: Seq<ScopedIdView>, known: Seq<Option<Track>>) -> Seq<TrackView> {
    Seq::new(
        ids.len(),
        |i: int|
            match known[i] {
                Some(t) => t@,
                None => stub(ids[i]),
            },
    )
}

/// The tracks with these ids.
pub fn hydrate(ids: &Vec<TrackId>, known: Vec<Option<Track>>) -> (r: Vec<Track>)
    requires
        known@.len() == ids@.len(),
    ensures
        track_views(r@) == hydrated(id_views(ids@), known@),
{
    let ghost whole = known@;
    let ghost all = hydrated(id_views(ids@), whole);
    let mut out: Vec<Track> = Vec::new();
    for track in it: known
        invariant
            it.seq() == whole,
            whole.len() == ids@.len(),
            all == hydrated(id_views(ids@), whole),
            out@.len() == it.index(),
            track_views(out@) == all.subrange(0, it.index() as int),
    {
        let ghost done = it.index() as int;
        let ghost had = track_views(out@);
        let i: usize = out.len();
        assert(id_views(ids@)[done] == ids@[done]@);
        match track {
            Some(t) => out.push(t),
            None => {
                let bare = Track {
                    id: ids[i].clone(),
                    title: ids[i].id.clone(),
                    artists: Vec::new(),
                    album: None,
                    duration: None,
                    art_url: None,
                    page_url: None,
                };
                assert(bare@.artists =~= Seq::empty());
                out.push(bare);
            },
        }
        assert(track_views(out@) =~= had.push(all[done]));
        assert(track_views(out@) =~= all.subrange(0, done + 1));
    }
    assert(all.subrange(0, all.len() as int) =~= all);
    out
}

/// The daemon's state.
pub struct App {
    player: Player,
    registry: Registry<()>,
    source: CatalogSource,
    radio: Radio,
}

#[verifier::ext_equal]
pub struct AppView {
    pub player: PlayerView,
    /// The connected sources, in the order of their names.
    pub registry: Seq<(Seq<char>, ())>,
    /// The source that catalogue commands go to; `None` stands for all.
    pub source: Option<Seq<char>>,
    pub radio: RadioView,
}

impl View for App {
    type V = AppView;

    closed spec fn view(&self) -> AppView {
        AppView {
            player: self.player@,
            registry: self.registry@,
            source: self.source@,
            radio: self.radio@,
        }
    }
}

pub open spec fn empty_playlist(id: ScopedIdView) -> Seq<char> {
    "плейлист "@ + scoped_text(id) + " пуст"@
}

pub open spec fn no_such_place(index: usize) -> Seq<char> {
    "в очереди нет позиции "@ + decimal_text(index as nat)
}

impl AppView {
    /// The daemon with another queue.
    pub open spec fn with_queue(self, queue: QueueModel) -> AppView {
        AppView { player: PlayerView { queue, ..self.player }, ..self }
    }

    /// The daemon after the listener turned to something else.
    pub open spec fn without_radio(self) -> AppView {
        AppView { radio: self.radio.cancelled(), ..self }
    }

    /// What has to be read before a command is handled.
    pub open spec fn need(self, cmd: Cmd) -> NeedView {
        match cmd {
            Cmd::PlayTrack { track } => if first_index(self.player.queue.tracks, track@, 0)
                is Some {
                NeedView::Nothing
            } else {
                NeedView::Metadata(seq![track@])
            },
            Cmd::QueueAppend { tracks } => NeedView::Metadata(id_views(tracks@)),
            Cmd::PlayContext { tracks, .. } => NeedView::Metadata(id_views(tracks@)),
            Cmd::PlayPlaylist { playlist, .. } => NeedView::Tracks(playlist@),
            _ => NeedView::Nothing,
        }
    }

    /// The place of the track that clients are shown.
    pub open spec fn shown_id(self) -> Option<ScopedIdView> {
        match self.player.shown().track {
            Some(t) => Some(t.id),
            None => None,
        }
    }

    /// The acts of one step in the queue.
    pub open spec fn step_acts(self, forward: bool) -> Seq<ActView> {
        match self.player.queue.moved(forward, false) {
            Some(place) => seq![
                ActView::StartSoon {
                    track: self.player.queue.visited(place).id,
                    number: self.player.skipped(forward).skip_gen,
                },
            ],
            None => seq![ActView::StopPlayback, ActView::EmitState],
        }
    }

    /// The daemon after one step in the queue.
    pub open spec fn stepped(self, forward: bool) -> AppView {
        AppView { player: self.player.skipped(forward), ..self }
    }

    /// The acts of a rating. It is kept and told here first; the source
    /// only mirrors it. What plays and is disliked is left at once.
    pub open spec fn rating_acts(self, track: ScopedIdView, rating: Rating) -> Seq<ActView> {
        let kept = seq![
            ActView::SetRating { track, rating },
            ActView::Emit(EventView::RatingChanged { track, rating }),
        ];
        let left = if rating == Rating::Disliked && self.shown_id() == Some(track) {
            kept.push(ActView::Skip { forward: true })
        } else {
            kept
        };
        let marked = if rating == Rating::Liked {
            left.push(
                ActView::ForgetPlaylist(ScopedIdView { provider: track.provider, id: "LM"@ }),
            )
        } else {
            left
        };
        if lookup(self.registry, track.provider) is Some {
            marked.push(ActView::Mirror { provider: track.provider, track, rating })
        } else {
            marked
        }
    }
}

/// Whether what was read is what was needed.
pub open spec fn meets(input: Input, need: NeedView) -> bool {
    match need {
        NeedView::Nothing => true,
        NeedView::Metadata(ids) => input matches Input::Metadata(known) && known@.len()
            == ids.len(),
        NeedView::Tracks(_) => input is Tracks,
    }
}

/// The place of an id among tracks, or the first.
pub open spec fn start_place(tracks: Seq<TrackView>, id: Option<ScopedIdView>) -> int {
    match id {
        Some(id) => match first_index(tracks, id, 0) {
            Some(i) => i,
            None => 0,
        },
        None => 0,
    }
}

/// The index nearest to a wish.
pub open spec fn nearest(start: usize, len: nat) -> int {
    if start < len {
        start as int
    } else {
        len - 1
    }
}

/// The queue was replaced by tracks and stands at one of them, which is to
/// be played.
pub open spec fn replaced(
    before: AppView,
    after: AppView,
    tracks: Seq<TrackView>,
    start: int,
    r: Result<ScriptView, Seq<char>>,
) -> bool {
    &&& after == before.without_radio().with_queue(after.player.queue)
    &&& after.player.queue.standing_at(before.player.queue.cleared().appended(tracks), start)
    &&& r == script(
        seq![
            ActView::Emit(
                EventView::QueueChanged { len: tracks.len() as usize, index: Some(start as usize) },
            ),
            ActView::Start(tracks[start].id),
        ],
        ReplyView::Ack,
    )
}

/// Where a playlist's commands go, with the answer that they lead to.
pub open spec fn planned(
    plan: Result<PlaylistPlanView, Seq<char>>,
    reply: spec_fn(PlaylistPlanView) -> ReplyView,
) -> Result<ScriptView, Seq<char>> {
    match plan {
        Ok(plan) => script(Seq::empty(), reply(plan)),
        Err(e) => Err(e),
    }
}

pub open spec fn opt_id(o: Option<TrackId>) -> Option<ScopedIdView> {
    match o {
        Some(id) => Some(id@),
        None => None,
    }
}

/// A single track was asked for: it is current now and to be played.
pub open spec fn played(
    before: AppView,
    id: ScopedIdView,
    input: Input,
    after: AppView,
    r: Result<ScriptView, Seq<char>>,
) -> bool {
    let queue = before.player.queue;
    &&& after == before.without_radio().with_queue(after.player.queue)
    &&& match first_index(queue.tracks, id, 0) {
        Some(i) => after.player.queue.standing_at(queue, i),
        None => after.player.queue.standing_at(
            queue.appended(hydrated(seq![id], input->Metadata_0@)),
            queue.tracks.len() as int,
        ),
    }
    &&& r == script(seq![ActView::Start(id)], ReplyView::Ack)
}

/// The one key for everything: it pauses what plays, goes on with what is
/// paused, and starts what was stopped.
pub open spec fn toggled(
    before: AppView,
    after: AppView,
    r: Result<ScriptView, Seq<char>>,
) -> bool {
    let queue = before.player.queue;
    match (before.player.status, before.player.current_place()) {
        (PlaybackStatus::Playing, _) => after == before && r == script(
            seq![ActView::Pause(true), ActView::EmitState],
            ReplyView::Ack,
        ),
        (PlaybackStatus::Paused, _) => after == before && r == script(
            seq![ActView::Pause(false), ActView::EmitState],
            ReplyView::Ack,
        ),
        (PlaybackStatus::Stopped, Some(i)) => {
            &&& after == before.with_queue(after.player.queue)
            &&& after.player.queue.standing_at(queue, i)
            &&& r == script(
                seq![ActView::Start(queue.tracks[i].id), ActView::EmitState],
                ReplyView::Ack,
            )
        },
        (PlaybackStatus::Stopped, None) => after == before && r == script(
            Seq::empty(),
            ReplyView::Ack,
        ),
    }
}

/// Shuffling was switched. The current track stays current.
pub open spec fn shuffled(
    before: AppView,
    after: AppView,
    shuffle: bool,
    r: Result<ScriptView, Seq<char>>,
) -> bool {
    let queue = before.player.queue;
    let now = after.player.queue;
    &&& after == before.with_queue(now)
    &&& now.shuffle == shuffle
    &&& now.tracks == queue.tracks
    &&& now.loop_mode == queue.loop_mode
    &&& now.current_index() == queue.current_index()
    &&& !shuffle ==> now.order == identity(queue.tracks.len())
    &&& shuffle && !queue.shuffle ==> drawn(now.order)
    &&& shuffle == queue.shuffle ==> now == queue
    &&& r == script(seq![ActView::EmitState], ReplyView::Ack)
}

/// Tracks were put at the end of the queue.
pub open spec fn grown(
    before: AppView,
    after: AppView,
    tracks: Seq<TrackView>,
    r: Result<ScriptView, Seq<char>>,
) -> bool {
    let now = before.player.queue.appended(tracks);
    &&& after == before.with_queue(now)
    &&& r == script(
        seq![
            ActView::Emit(
                EventView::QueueChanged {
                    len: now.tracks.len() as usize,
                    index: index_shown(now),
                },
            ),
        ],
        ReplyView::Ack,
    )
}

/// A place of the queue was asked for.
pub open spec fn went(
    before: AppView,
    after: AppView,
    index: usize,
    r: Result<ScriptView, Seq<char>>,
) -> bool {
    let queue = before.player.queue;
    if index < queue.tracks.len() {
        &&& after == before.with_queue(after.player.queue)
        &&& after.player.queue.standing_at(queue, index as int)
        &&& r == script(seq![ActView::Start(queue.tracks[index as int].id)], ReplyView::Ack)
    } else {
        after == before && r == Err::<ScriptView, Seq<char>>(no_such_place(index))
    }
}

/// What a command comes to, and how it changes the daemon.
pub open spec fn handled(
    before: AppView,
    cmd: Cmd,
    input: Input,
    after: AppView,
    r: Result<ScriptView, Seq<char>>,
) -> bool {
    let queue = before.player.queue;
    match cmd {
        Cmd::Subscribe | Cmd::Shutdown => after == before && r == script(
            Seq::empty(),
            ReplyView::Ack,
        ),
        Cmd::PlayTrack { track } => played(before, track@, input, after, r),
        Cmd::PlayPlaylist { playlist, track } => {
            let tracks = track_views(input->Tracks_0@);
            if tracks.len() == 0 {
                after == before && r == Err::<ScriptView, Seq<char>>(empty_playlist(playlist@))
            } else {
                replaced(before, after, tracks, start_place(tracks, opt_id(track)), r)
            }
        },
        Cmd::PlayContext { tracks, start } => {
            let all = hydrated(id_views(tracks@), input->Metadata_0@);
            if all.len() == 0 {
                after == before && r == Err::<ScriptView, Seq<char>>("список треков пуст"@)
            } else {
                replaced(before, after, all, nearest(start, all.len()), r)
            }
        },
        Cmd::Toggle => toggled(before, after, r),
        Cmd::Play => after == before && r == script(
            seq![ActView::Pause(false), ActView::EmitState],
            ReplyView::Ack,
        ),
        Cmd::Pause => after == before && r == script(
            seq![ActView::Pause(true), ActView::EmitState],
            ReplyView::Ack,
        ),
        Cmd::Stop => after == before && r == script(
            seq![ActView::StopPlayback, ActView::EmitState],
            ReplyView::Ack,
        ),
        Cmd::Next => after == before.stepped(true) && r == script(
            before.step_acts(true),
            ReplyView::Ack,
        ),
        Cmd::Prev => after == before.stepped(false) && r == script(
            before.step_acts(false),
            ReplyView::Ack,
        ),
        Cmd::Seek { position } => after == before && r == script(
            seq![ActView::SeekTo(position)],
            ReplyView::Ack,
        ),
        Cmd::SeekBy { delta } => after == before && r == script(
            seq![ActView::SeekBy(delta)],
            ReplyView::Ack,
        ),
        Cmd::SetVolume { volume } => after == before && r == script(
            seq![ActView::SetVolume(volume_bounded(volume)), ActView::EmitState],
            ReplyView::Ack,
        ),
        Cmd::Equalizer { enabled, preset, bands } => after == before && r == (match merged(
            before.player.equalizer,
            enabled,
            opt_text(preset),
            opt_gains(bands),
        ) {
            Ok(eq) => script(
                seq![ActView::SetEqualizer(eq), ActView::EmitState],
                ReplyView::Ack,
            ),
            Err(e) => Err(e),
        }),
        Cmd::SetLoop { mode } => after == before.with_queue(
            QueueModel { loop_mode: mode, ..queue },
        ) && r == script(seq![ActView::EmitState], ReplyView::Ack),
        Cmd::SetShuffle { shuffle } => shuffled(before, after, shuffle, r),
        Cmd::Queue => after == before && r == script(
            Seq::empty(),
            ReplyView::Queue { tracks: queue.tracks, index: index_shown(queue) },
        ),
        Cmd::QueueAppend { tracks } => grown(
            before,
            after,
            hydrated(id_views(tracks@), input->Metadata_0@),
            r,
        ),
        Cmd::QueueClear => after == before.without_radio().with_queue(queue.cleared()) && r
            == script(
            seq![ActView::Emit(EventView::QueueChanged { len: 0, index: None })],
            ReplyView::Ack,
        ),
        Cmd::QueueGoto { index } => went(before, after, index, r),
        Cmd::State => after == before && r == script(Seq::empty(), ReplyView::State),
        Cmd::RefreshAuth { provider } => after == before && r == (match target_names(
            before.registry,
            opt_text(provider),
        ) {
            Ok(names) => script(seq![ActView::Refresh(names)], ReplyView::Ack),
            Err(e) => Err(e),
        }),
        Cmd::Providers => after == before && r == script(Seq::empty(), ReplyView::Providers),
        Cmd::Search { query, kind, provider } => after == before && r == (match target_names(
            before.registry,
            opt_text(provider),
        ) {
            Ok(targets) => script(
                Seq::empty(),
                ReplyView::Search { query: query@, kind, targets },
            ),
            Err(e) => Err(e),
        }),
        Cmd::Library { provider } => after == before && r == (match library_plan_for(
            before.registry,
            opt_text(provider),
        ) {
            Ok(plan) => script(
                Seq::empty(),
                ReplyView::Library { provider: opt_text(provider), plan },
            ),
            Err(e) => Err(e),
        }),
        Cmd::LibraryTracks { playlist } => after == before && r == planned(
            playlist_plan_for(before.registry, playlist@),
            |plan: PlaylistPlanView| ReplyView::Tracks { playlist: playlist@, plan },
        ),
        Cmd::LibraryTracksPage { playlist } => after == before && r == script(
            Seq::empty(),
            ReplyView::NextPage { playlist: playlist@ },
        ),
        Cmd::Liked { provider } => after == before && r == (match target_names(
            before.registry,
            opt_text(provider),
        ) {
            Ok(targets) => script(
                Seq::empty(),
                ReplyView::Liked { aggregate: provider is None, targets },
            ),
            Err(e) => Err(e),
        }),
        Cmd::Home { provider } => after == before && r == script(
            Seq::empty(),
            ReplyView::Home { provider: opt_text(provider) },
        ),
        Cmd::Rate { track, rating } => after == before && r == script(
            before.rating_acts(track@, rating),
            ReplyView::Ack,
        ),
        Cmd::Ratings => after == before && r == script(Seq::empty(), ReplyView::Ratings),
        Cmd::GetCatalogSource => after == before && r == script(
            Seq::empty(),
            ReplyView::Catalog,
        ),
        Cmd::SetCatalogSource { source } => after == before && r == (match source@ {
            Some(name) => if lookup(before.registry, name) is None {
                Err(not_connected(name))
            } else {
                script(
                    seq![ActView::SaveSource(source@), ActView::UseSource(source@)],
                    ReplyView::Catalog,
                )
            },
            None => script(
                seq![ActView::SaveSource(source@), ActView::UseSource(source@)],
                ReplyView::Catalog,
            ),
        }),
        Cmd::CacheStats => after == before && r == script(Seq::empty(), ReplyView::CacheStats),
        Cmd::CachePin { tracks } => after == before && r == script(
            seq![ActView::Pin { tracks: id_views(tracks@), pinned: true }],
            ReplyView::CacheStats,
        ),
        Cmd::CacheUnpin { tracks } => after == before && r == script(
            seq![ActView::Pin { tracks: id_views(tracks@), pinned: false }],
            ReplyView::CacheStats,
        ),
        Cmd::CacheGc => after == before && r == script(
            seq![ActView::Gc],
            ReplyView::CacheStats,
        ),
        Cmd::CacheWarm { tracks } => after == before && r == script(
            seq![ActView::Warm(id_views(tracks@))],
            ReplyView::Ack,
        ),
        Cmd::PlaylistCreate { title, provider } => after == before && r == planned(
            create_target(
                before.registry,
                create_address(before.registry, before.source, opt_text(provider)),
            ),
            |plan: PlaylistPlanView| ReplyView::CreatePlaylist { title: title@, plan },
        ),
        Cmd::PlaylistAdd { playlist, track } => after == before && r == planned(
            playlist_plan_for(before.registry, playlist@),
            |plan: PlaylistPlanView|
                ReplyView::AddToPlaylist { playlist: playlist@, track: track@, plan },
        ),
        Cmd::PlaylistRemove { playlist, track } => after == before && r == planned(
            playlist_plan_for(before.registry, playlist@),
            |plan: PlaylistPlanView|
                ReplyView::RemoveFromPlaylist { playlist: playlist@, track: track@, plan },
        ),
        Cmd::PlaylistDelete { playlist } => after == before && r == planned(
            playlist_plan_for(before.registry, playlist@),
            |plan: PlaylistPlanView| ReplyView::DeletePlaylist { playlist: playlist@, plan },
        ),
    }
}

fn answer(acts: Vec<Act>, reply: Reply) -> (r: Result<Script, String>)
    ensures
        script_result(r) == script(act_views(acts@), reply@),
{
    Ok(Script { acts, reply })
}

fn no_acts(reply: Reply) -> (r: Result<Script, String>)
    ensures
        script_result(r) == script(Seq::empty(), reply@),
{
    let acts: Vec<Act> = Vec::new();
    assert(act_views(acts@) =~= Seq::empty());
    answer(acts, reply)
}

fn one_act(act: Act, reply: Reply) -> (r: Result<Script, String>)
    ensures
        script_result(r) == script(seq![act@], reply@),
{
    let mut acts: Vec<Act> = Vec::new();
    let ghost view = act@;
    acts.push(act);
    assert(act_views(acts@) =~= seq![view]);
    answer(acts, reply)
}

fn two_acts(first: Act, second: Act, reply: Reply) -> (r: Result<Script, String>)
    ensures
        script_result(r) == script(seq![first@, second@], reply@),
{
    let mut acts: Vec<Act> = Vec::new();
    let ghost a = first@;
    let ghost b = second@;
    acts.push(first);
    acts.push(second);
    assert(act_views(acts@) =~= seq![a, b]);
    answer(acts, reply)
}

fn str_of(o: &Option<String>) -> (r: Option<&str>)
    ensures
        opt_str(r) == opt_text(*o),
{
    match o {
        Some(s) => Some(s.as_str()),
        None => None,
    }
}

fn clone_ids(v: &Vec<TrackId>) -> (r: Vec<TrackId>)
    ensures
        id_views(r@) == id_views(v@),
{
    let mut out: Vec<TrackId> = Vec::new();
    let mut i: usize = 0;
    while i < v.len()
        invariant
            i <= v@.len(),
            id_views(out@) == id_views(v@).subrange(0, i as int),
        decreases v@.len() - i,
    {
        let ghost had = id_views(out@);
        out.push(v[i].clone());
        i += 1;
        assert(id_views(out@) =~= had.push(v@[i - 1]@));
        assert(id_views(out@) =~= id_views(v@).subrange(0, i as int));
    }
    assert(id_views(v@).subrange(0, i as int) =~= id_views(v@));
    out
}

impl App {
    pub open spec fn wf(&self) -> bool {
        &&& self@.player.valid()
        &&& self.sound()
    }

    pub closed spec fn sound(&self) -> bool {
        self.player.wf() && self.registry.wf()
    }

    /// The daemon with its player, the connected sources, and the source
    /// that catalogue commands go to.
    pub fn new(player: Player, registry: Registry<()>, source: CatalogSource) -> (r: Self)
        requires
            player.wf(),
            registry.wf(),
        ensures
            r.wf(),
            r@ == (AppView {
                player: player@,
                registry: registry@,
                source: source@,
                radio: RadioView { session: None, generation: 0 },
            }),
    {
        App { player, registry, source, radio: Radio::new() }
    }

    pub fn player(&self) -> (r: &Player)
        requires
            self.wf(),
        ensures
            r.wf(),
            r@ == self@.player,
    {
        &self.player
    }

    pub fn registry(&self) -> (r: &Registry<()>)
        requires
            self.wf(),
        ensures
            r.wf(),
            r@ == self@.registry,
    {
        &self.registry
    }

    pub fn catalog_source(&self) -> (r: &CatalogSource)
        ensures
            r@ == self@.source,
    {
        &self.source
    }

    /// Takes over the source that was saved.
    pub fn use_source(&mut self, source: CatalogSource)
        requires
            old(self).wf(),
        ensures
            final(self).wf(),
            final(self)@ == (AppView { source: source@, ..old(self)@ }),
    {
        self.source = source;
    }

    /// Hands the player out for changing.
    pub fn player_mut(&mut self) -> (r: &mut Player)
        requires
            old(self).wf(),
        ensures
            r.wf(),
            r@ == old(self)@.player,
            final(r).wf() ==> final(self).wf(),
            final(self)@ == (AppView { player: final(r)@, ..old(self)@ }),
    {
        &mut self.player
    }

    /// Hands the player and the radio out for changing.
    pub fn player_and_radio(&mut self) -> (r: (&mut Player, &mut Radio))
        requires
            old(self).wf(),
        ensures
            r.0.wf(),
            r.0@ == old(self)@.player,
            r.1@ == old(self)@.radio,
            final(r.0).wf() ==> final(self).wf(),
            final(self)@ == (AppView {
                player: final(r.0)@,
                radio: final(r.1)@,
                ..old(self)@
            }),
    {
        (&mut self.player, &mut self.radio)
    }

    /// What has to be read before a command is handled.
    pub fn need(&self, cmd: &Cmd) -> (r: Need)
        requires
            self.wf(),
        ensures
            r@ == self@.need(*cmd),
    {
        match cmd {
            Cmd::PlayTrack { track } => {
                if self.player.queue().find_index(track).is_some() {
                    Need::Nothing
                } else {
                    let mut ids: Vec<TrackId> = Vec::new();
                    ids.push(track.clone());
                    assert(id_views(ids@) =~= seq![track@]);
                    Need::Metadata(ids)
                }
            },
            Cmd::QueueAppend { tracks } => Need::Metadata(clone_ids(tracks)),
            Cmd::PlayContext { tracks, .. } => Need::Metadata(clone_ids(tracks)),
            Cmd::PlayPlaylist { playlist, .. } => Need::Tracks(playlist.clone()),
            _ => Need::Nothing,
        }
    }

    /// One step in the queue, wherever the wish for it came from. Where
    /// there is nowhere to go, playback stops.
    pub fn step(&mut self, forward: bool) -> (r: Vec<Act>)
        requires
            old(self).wf(),
        ensures
            final(self).wf(),
            final(self)@ == old(self)@.stepped(forward),
            act_views(r@) == old(self)@.step_acts(forward),
    {
        let ghost before = self@;
        let mut acts: Vec<Act> = Vec::new();
        match self.player.skip(forward) {
            Some(id) => {
                let ghost view = id@;
                let number: u64 = self.player.skip_number();
                acts.push(Act::StartSoon { track: id, number });
                assert(act_views(acts@) =~= seq![ActView::StartSoon { track: view, number }]);
            },
            None => {
                acts.push(Act::StopPlayback);
                acts.push(Act::EmitState);
                assert(act_views(acts@) =~= seq![ActView::StopPlayback, ActView::EmitState]);
            },
        }
        acts
    }

    /// Makes a track current, putting it into the queue where it is not in
    /// it yet.
    fn choose_track(&mut self, id: &TrackId, input: Input)
        requires
            old(self).wf(),
            first_index(old(self)@.player.queue.tracks, id@, 0) is None ==> (
            input matches Input::Metadata(known) && known@.len() == 1),
        ensures
            final(self).wf(),
            final(self)@ == old(self)@.with_queue(final(self)@.player.queue),
            match first_index(old(self)@.player.queue.tracks, id@, 0) {
                Some(i) => final(self)@.player.queue.standing_at(old(self)@.player.queue, i),
                None => final(self)@.player.queue.standing_at(
                    old(self)@.player.queue.appended(
                        hydrated(seq![id@], input->Metadata_0@),
                    ),
                    old(self)@.player.queue.tracks.len() as int,
                ),
            },
    {
        let mut queue = self.player.take_queue();
        let ghost before = queue@;
        match queue.find_index(id) {
            Some(index) => {
                queue.goto(index);
            },
            None => {
                let index: usize = queue.len();
                if let Input::Metadata(known) = input {
                    let mut ids: Vec<TrackId> = Vec::new();
                    ids.push(id.clone());
                    assert(id_views(ids@) =~= seq![id@]);
                    let tracks = hydrate(&ids, known);
                    queue.append_all(tracks);
                    queue.goto(index);
                }
            },
        }
        self.player.put_queue(queue);
    }

    /// Replaces the queue and plays one of the new tracks.
    fn play_list(&mut self, tracks: Vec<Track>, start: usize) -> (r: Result<Script, String>)
        requires
            old(self).wf(),
            start < tracks@.len(),
        ensures
            final(self).wf(),
            replaced(
                old(self)@,
                final(self)@,
                track_views(tracks@),
                start as int,
                script_result(r),
            ),
    {
        let len: usize = tracks.len();
        let first = tracks[start].id.clone();
        assert(track_views(tracks@)[start as int] == tracks@[start as int]@);
        let mut queue = self.player.take_queue();
        queue.replace(tracks, start);
        self.player.put_queue(queue);
        self.radio.cancel();
        two_acts(
            Act::Emit(Event::QueueChanged { len, index: Some(start) }),
            Act::Start(first),
            Reply::Ack,
        )
    }

    fn rate(&self, track: TrackId, rating: Rating) -> (r: Result<Script, String>)
        requires
            self.wf(),
        ensures
            script_result(r) == script(self@.rating_acts(track@, rating), ReplyView::Ack),
    {
        let ghost id = track@;
        let mut acts: Vec<Act> = Vec::new();
        acts.push(Act::SetRating { track: track.clone(), rating });
        acts.push(Act::Emit(Event::RatingChanged { track: track.clone(), rating }));
        let ghost kept = seq![
            ActView::SetRating { track: id, rating },
            ActView::Emit(EventView::RatingChanged { track: id, rating }),
        ];
        assert(act_views(acts@) =~= kept);
        let current: bool = match self.player.state().track {
            Some(t) => t.id == track,
            None => false,
        };
        if rating == Rating::Disliked && current {
            acts.push(Act::Skip { forward: true });
            assert(act_views(acts@) =~= kept.push(ActView::Skip { forward: true }));
        }
        let ghost left = act_views(acts@);
        if rating == Rating::Liked {
            let liked = PlaylistId::new(track.provider, "LM");
            let ghost view = liked@;
            acts.push(Act::ForgetPlaylist(liked));
            assert(act_views(acts@) =~= left.push(ActView::ForgetPlaylist(view)));
        }
        let ghost marked = act_views(acts@);
        if self.registry.get(track.provider).is_some() {
            let provider = track.provider.as_str().to_owned();
            let ghost name = provider@;
            acts.push(Act::Mirror { provider, track, rating });
            assert(act_views(acts@) =~= marked.push(
                ActView::Mirror { provider: name, track: id, rating },
            ));
        }
        answer(acts, Reply::Ack)
    }

    fn play_track(&mut self, id: TrackId, input: Input) -> (r: Result<Script, String>)
        requires
            old(self).wf(),
            first_index(old(self)@.player.queue.tracks, id@, 0) is None ==> (
            input matches Input::Metadata(known) && known@.len() == 1),
        ensures
            final(self).wf(),
            played(old(self)@, id@, input, final(self)@, script_result(r)),
    {
        self.choose_track(&id, input);
        self.radio.cancel();
        one_act(Act::Start(id), Reply::Ack)
    }

    fn toggle(&mut self) -> (r: Result<Script, String>)
        requires
            old(self).wf(),
        ensures
            final(self).wf(),
            toggled(old(self)@, final(self)@, script_result(r)),
    {
        let status = self.player.status();
        match status {
            PlaybackStatus::Playing => two_acts(
                Act::Pause(true),
                Act::EmitState,
                Reply::Ack,
            ),
            PlaybackStatus::Paused => two_acts(
                Act::Pause(false),
                Act::EmitState,
                Reply::Ack,
            ),
            PlaybackStatus::Stopped => {
                let state = self.player.state();
                let held: usize = self.player.queue().len();
                assert(self@.player.queue.tracks.len() == held);
                proof {
                    if let Some((id, _)) = self@.player.current {
                        lemma_first_index(self@.player.queue.tracks, id, 0);
                    }
                }
                match (state.track, state.queue_index) {
                    (Some(track), Some(index)) => {
                        let mut queue = self.player.take_queue();
                        queue.goto(index);
                        self.player.put_queue(queue);
                        two_acts(Act::Start(track.id), Act::EmitState, Reply::Ack)
                    },
                    _ => no_acts(Reply::Ack),
                }
            },
        }
    }

    fn set_shuffle(&mut self, shuffle: bool) -> (r: Result<Script, String>)
        requires
            old(self).wf(),
        ensures
            final(self).wf(),
            shuffled(old(self)@, final(self)@, shuffle, script_result(r)),
    {
        let mut queue = self.player.take_queue();
        queue.set_shuffle(shuffle);
        self.player.put_queue(queue);
        one_act(Act::EmitState, Reply::Ack)
    }

    fn queue_append(&mut self, tracks: Vec<Track>) -> (r: Result<Script, String>)
        requires
            old(self).wf(),
        ensures
            final(self).wf(),
            grown(old(self)@, final(self)@, track_views(tracks@), script_result(r)),
    {
        let mut queue = self.player.take_queue();
        queue.append_all(tracks);
        let len: usize = queue.len();
        let index: Option<usize> = queue.current_index();
        self.player.put_queue(queue);
        one_act(Act::Emit(Event::QueueChanged { len, index }), Reply::Ack)
    }

    fn queue_goto(&mut self, index: usize) -> (r: Result<Script, String>)
        requires
            old(self).wf(),
        ensures
            final(self).wf(),
            went(old(self)@, final(self)@, index, script_result(r)),
    {
        let id: Option<TrackId> = match self.player.queue().track_at(index) {
            Some(t) => Some(t.id.clone()),
            None => None,
        };
        match id {
            Some(id) => {
                let mut queue = self.player.take_queue();
                queue.goto(index);
                self.player.put_queue(queue);
                one_act(Act::Start(id), Reply::Ack)
            },
            None => Err(concat2("в очереди нет позиции ", decimal(index as u64).as_str())),
        }
    }

    /// Handles a command: decides what is to happen. A command that is
    /// refused changes nothing.
    #[verifier::rlimit(60)]
    pub fn handle(&mut self, cmd: Cmd, input: Input) -> (r: Result<Script, String>)
        requires
            old(self).wf(),
            meets(input, old(self)@.need(cmd)),
        ensures
            final(self).wf(),
            handled(old(self)@, cmd, input, final(self)@, script_result(r)),
    {
        match cmd {
            Cmd::Subscribe | Cmd::Shutdown => no_acts(Reply::Ack),
            Cmd::PlayTrack { track } => self.play_track(track, input),
            Cmd::PlayPlaylist { playlist, track } => {
                let tracks: Vec<Track> = match input {
                    Input::Tracks(tracks) => tracks,
                    _ => Vec::new(),
                };
                if tracks.len() == 0 {
                    return Err(
                        concat3("плейлист ", playlist.to_string().as_str(), " пуст"),
                    );
                }
                let start: usize = match &track {
                    Some(id) => place_among(&tracks, id),
                    None => 0,
                };
                self.play_list(tracks, start)
            },
            Cmd::PlayContext { tracks, start } => {
                let known: Vec<Option<Track>> = match input {
                    Input::Metadata(known) => known,
                    _ => Vec::new(),
                };
                let all = hydrate(&tracks, known);
                if all.len() == 0 {
                    return Err("список треков пуст".to_owned());
                }
                let at: usize = if start < all.len() {
                    start
                } else {
                    all.len() - 1
                };
                self.play_list(all, at)
            },
            Cmd::Toggle => self.toggle(),
            Cmd::Play => two_acts(Act::Pause(false), Act::EmitState, Reply::Ack),
            Cmd::Pause => two_acts(Act::Pause(true), Act::EmitState, Reply::Ack),
            Cmd::Stop => two_acts(Act::StopPlayback, Act::EmitState, Reply::Ack),
            Cmd::Next => {
                let acts = self.step(true);
                answer(acts, Reply::Ack)
            },
            Cmd::Prev => {
                let acts = self.step(false);
                answer(acts, Reply::Ack)
            },
            Cmd::Seek { position } => one_act(Act::SeekTo(position), Reply::Ack),
            Cmd::SeekBy { delta } => one_act(Act::SeekBy(delta), Reply::Ack),
            Cmd::SetVolume { volume } => two_acts(
                Act::SetVolume(clamp_volume(volume)),
                Act::EmitState,
                Reply::Ack,
            ),
            Cmd::Equalizer { enabled, preset, bands } => match merge_equalizer(
                self.player.equalizer(),
                enabled,
                preset,
                bands,
            ) {
                Ok(eq) => two_acts(Act::SetEqualizer(eq), Act::EmitState, Reply::Ack),
                Err(e) => Err(e),
            },
            Cmd::SetLoop { mode } => {
                let mut queue = self.player.take_queue();
                queue.set_loop_mode(mode);
                self.player.put_queue(queue);
                one_act(Act::EmitState, Reply::Ack)
            },
            Cmd::SetShuffle { shuffle } => self.set_shuffle(shuffle),
            Cmd::Queue => {
                let queue = self.player.queue();
                let tracks = slice_tracks(queue.tracks());
                let index: Option<usize> = queue.current_index();
                no_acts(Reply::Queue(QueueView { tracks, index }))
            },
            Cmd::QueueAppend { tracks } => {
                let known: Vec<Option<Track>> = match input {
                    Input::Metadata(known) => known,
                    _ => Vec::new(),
                };
                let all = hydrate(&tracks, known);
                assert(track_views(all@).len() == tracks@.len());
                self.queue_append(all)
            },
            Cmd::QueueClear => {
                let mut queue = self.player.take_queue();
                queue.clear();
                self.player.put_queue(queue);
                self.radio.cancel();
                one_act(Act::Emit(Event::QueueChanged { len: 0, index: None }), Reply::Ack)
            },
            Cmd::QueueGoto { index } => self.queue_goto(index),
            Cmd::State => no_acts(Reply::State),
            Cmd::RefreshAuth { provider } => match targets(&self.registry, str_of(&provider)) {
                Ok(names) => one_act(Act::Refresh(names), Reply::Ack),
                Err(e) => Err(e),
            },
            Cmd::Providers => no_acts(Reply::Providers),
            Cmd::Search { query, kind, provider } => match targets(
                &self.registry,
                str_of(&provider),
            ) {
                Ok(targets) => no_acts(Reply::Search { query, kind, targets }),
                Err(e) => Err(e),
            },
            Cmd::Library { provider } => match library_plan(&self.registry, str_of(&provider)) {
                Ok(plan) => no_acts(Reply::Library { provider, plan }),
                Err(e) => Err(e),
            },
            Cmd::LibraryTracks { playlist } => match playlist_plan(&self.registry, &playlist) {
                Ok(plan) => no_acts(Reply::Tracks { playlist, plan }),
                Err(e) => Err(e),
            },
            Cmd::LibraryTracksPage { playlist } => no_acts(Reply::NextPage { playlist }),
            Cmd::Liked { provider } => match targets(&self.registry, str_of(&provider)) {
                Ok(targets) => no_acts(Reply::Liked { aggregate: provider.is_none(), targets }),
                Err(e) => Err(e),
            },
            Cmd::Home { provider } => no_acts(Reply::Home { provider }),
            Cmd::Rate { track, rating } => self.rate(track, rating),
            Cmd::Ratings => no_acts(Reply::Ratings),
            Cmd::GetCatalogSource => no_acts(Reply::Catalog),
            Cmd::SetCatalogSource { source } => {
                if let Some(name) = &source.provider {
                    if self.registry.get_by_str(name.as_str()).is_none() {
                        return Err(not_connected_text(name.as_str()));
                    }
                }
                let kept = source.clone();
                two_acts(Act::SaveSource(source), Act::UseSource(kept), Reply::Catalog)
            },
            Cmd::CacheStats => no_acts(Reply::CacheStats),
            Cmd::CachePin { tracks } => one_act(
                Act::Pin { tracks, pinned: true },
                Reply::CacheStats,
            ),
            Cmd::CacheUnpin { tracks } => one_act(
                Act::Pin { tracks, pinned: false },
                Reply::CacheStats,
            ),
            Cmd::CacheGc => one_act(Act::Gc, Reply::CacheStats),
            Cmd::CacheWarm { tracks } => one_act(Act::Warm(tracks), Reply::Ack),
            Cmd::PlaylistCreate { title, provider } => {
                let address = playlist_address(&self.registry, &self.source, provider);
                match playlist_create(&self.registry, str_of(&address)) {
                    Ok(plan) => no_acts(Reply::CreatePlaylist { title, plan }),
                    Err(e) => Err(e),
                }
            },
            Cmd::PlaylistAdd { playlist, track } => match playlist_plan(
                &self.registry,
                &playlist,
            ) {
                Ok(plan) => no_acts(Reply::AddToPlaylist { playlist, track, plan }),
                Err(e) => Err(e),
            },
            Cmd::PlaylistRemove { playlist, track } => match playlist_plan(
                &self.registry,
                &playlist,
            ) {
                Ok(plan) => no_acts(Reply::RemoveFromPlaylist { playlist, track, plan }),
                Err(e) => Err(e),
            },
            Cmd::PlaylistDelete { playlist } => match playlist_plan(&self.registry, &playlist) {
                Ok(plan) => no_acts(Reply::DeletePlaylist { playlist, plan }),
                Err(e) => Err(e),
            },
        }
    }
}

/// What follows once a playlist was changed: everyone is told, and of a
/// source's playlist the stored tracks are stale.
pub open spec fn change_acts(plan: PlaylistPlanView, playlist: ScopedIdView) -> Seq<ActView> {
    let told = ActView::Emit(EventView::PlaylistsChanged);
    match plan {
        PlaylistPlanView::Local => seq![told],
        PlaylistPlanView::Source(_) => seq![ActView::ForgetPlaylist(playlist), told],
    }
}

/// What follows from the answer to a change of a playlist: a refusal leads
/// to nothing but the error.
pub open spec fn change_outcome(
    plan: PlaylistPlanView,
    playlist: ScopedIdView,
    answer: Result<(), ProviderErrorView>,
) -> Result<Seq<ActView>, ProviderErrorView> {
    match answer {
        Ok(_) => Ok(change_acts(plan, playlist)),
        Err(e) => Err(e),
    }
}

/// What follows from the answer to the making of a playlist. There is
/// nothing stored of it yet.
pub open spec fn create_outcome(answer: Result<ScopedIdView, ProviderErrorView>) -> Result<
    (ScopedIdView, Seq<ActView>),
    ProviderErrorView,
> {
    match answer {
        Ok(id) => Ok((id, seq![ActView::Emit(EventView::PlaylistsChanged)])),
        Err(e) => Err(e),
    }
}

/// Takes the answer to a change of a playlist: tracks that came or went, or
/// its removal.
pub fn playlist_changed(
    plan: &PlaylistPlan,
    playlist: &PlaylistId,
    answer: Result<(), ProviderError>,
) -> (r: Result<Vec<Act>, ProviderError>)
    ensures
        (match r {
            Ok(acts) => Ok(act_views(acts@)),
            Err(e) => Err(e@),
        }) == change_outcome(
            plan@,
            playlist@,
            match answer {
                Ok(done) => Ok(done),
                Err(e) => Err(e@),
            },
        ),
{
    if let Err(e) = answer {
        return Err(e);
    }
    let mut acts: Vec<Act> = Vec::new();
    if let PlaylistPlan::Source(_) = plan {
        acts.push(Act::ForgetPlaylist(playlist.clone()));
    }
    acts.push(Act::Emit(Event::PlaylistsChanged));
    assert(act_views(acts@) =~= change_acts(plan@, playlist@));
    Ok(acts)
}

/// Takes the answer to the making of a playlist, whoever made it.
pub fn playlist_created(answer: Result<PlaylistId, ProviderError>) -> (r: Result<
    (PlaylistId, Vec<Act>),
    ProviderError,
>)
    ensures
        (match r {
            Ok((id, acts)) => Ok((id@, act_views(acts@))),
            Err(e) => Err(e@),
        }) == create_outcome(
            match answer {
                Ok(id) => Ok(id@),
                Err(e) => Err(e@),
            },
        ),
{
    match answer {
        Ok(id) => {
            let mut acts: Vec<Act> = Vec::new();
            acts.push(Act::Emit(Event::PlaylistsChanged));
            assert(act_views(acts@) =~= seq![ActView::Emit(EventView::PlaylistsChanged)]);
            Ok((id, acts))
        },
        Err(e) => Err(e),
    }
}

/// The events among acts, in order.
pub open spec fn events_of(acts: Seq<ActView>) -> Seq<EventView>
    decreases acts.len(),
{
    if acts.len() == 0 {
        Seq::empty()
    } else {
        let before = events_of(acts.drop_last());
        match acts.last() {
            ActView::Emit(event) => before.push(event),
            _ => before,
        }
    }
}

/// A change of a playlist reaches its source as it was asked for, and is
/// told exactly once, when the source has accepted it. A change that was
/// refused is not told at all.
pub proof fn lemma_playlist_changes_are_told_once(
    before: AppView,
    cmd: Cmd,
    input: Input,
    after: AppView,
    r: Result<ScriptView, Seq<char>>,
    answer: Result<(), ProviderErrorView>,
)
    requires
        handled(before, cmd, input, after, r),
    ensures
        cmd matches Cmd::PlaylistAdd { playlist, track } ==> r == planned(
            playlist_plan_for(before.registry, playlist@),
            |plan: PlaylistPlanView|
                ReplyView::AddToPlaylist { playlist: playlist@, track: track@, plan },
        ),
        cmd matches Cmd::PlaylistRemove { playlist, track } ==> r == planned(
            playlist_plan_for(before.registry, playlist@),
            |plan: PlaylistPlanView|
                ReplyView::RemoveFromPlaylist { playlist: playlist@, track: track@, plan },
        ),
        cmd matches Cmd::PlaylistDelete { playlist } ==> r == planned(
            playlist_plan_for(before.registry, playlist@),
            |plan: PlaylistPlanView| ReplyView::DeletePlaylist { playlist: playlist@, plan },
        ),
        r matches Ok(script) ==> (match script.reply {
            ReplyView::AddToPlaylist { playlist, plan, .. } => told_once(
                script.acts,
                change_outcome(plan, playlist, answer),
                answer,
            ),
            ReplyView::RemoveFromPlaylist { playlist, plan, .. } => told_once(
                script.acts,
                change_outcome(plan, playlist, answer),
                answer,
            ),
            ReplyView::DeletePlaylist { playlist, plan } => told_once(
                script.acts,
                change_outcome(plan, playlist, answer),
                answer,
            ),
            _ => true,
        }),
{
    reveal_with_fuel(events_of, 3);
    if let Ok(script) = r {
        let told = ActView::Emit(EventView::PlaylistsChanged);
        assert forall|playlist: ScopedIdView, plan: PlaylistPlanView| #[trigger]
            events_of(change_acts(plan, playlist)) == seq![EventView::PlaylistsChanged] by {
            let acts = change_acts(plan, playlist);
            if plan is Source {
                assert(acts.drop_last() =~= seq![ActView::ForgetPlaylist(playlist)]);
                assert(acts.drop_last().drop_last() =~= Seq::empty());
            } else {
                assert(acts.drop_last() =~= Seq::empty());
            }
            assert(acts.last() == told);
            assert(events_of(acts) =~= seq![EventView::PlaylistsChanged]);
        }
    }
}

/// A new playlist is told exactly once, when it has been made; a refusal is
/// not told at all.
pub proof fn lemma_new_playlists_are_told_once(
    before: AppView,
    title: String,
    provider: Option<String>,
    input: Input,
    after: AppView,
    r: Result<ScriptView, Seq<char>>,
    answer: Result<ScopedIdView, ProviderErrorView>,
)
    requires
        handled(before, Cmd::PlaylistCreate { title, provider }, input, after, r),
    ensures
        r matches Ok(script) ==> script.acts.len() == 0 && (script.reply
            matches ReplyView::CreatePlaylist { title: asked, .. } && asked == title@),
        match create_outcome(answer) {
            Ok((id, acts)) => answer == Ok::<ScopedIdView, ProviderErrorView>(id) && events_of(acts)
                == seq![EventView::PlaylistsChanged],
            Err(e) => answer == Err::<ScopedIdView, ProviderErrorView>(e),
        },
{
    reveal_with_fuel(events_of, 2);
    let acts = seq![ActView::Emit(EventView::PlaylistsChanged)];
    assert(acts.drop_last() =~= Seq::empty());
    assert(events_of(acts) =~= seq![EventView::PlaylistsChanged]);
}

/// Nothing is told before the answer; an accepted change is told once, a
/// refused one not at all.
pub open spec fn told_once(
    acts: Seq<ActView>,
    outcome: Result<Seq<ActView>, ProviderErrorView>,
    answer: Result<(), ProviderErrorView>,
) -> bool {
    &&& acts.len() == 0
    &&& match outcome {
        Ok(more) => answer is Ok && events_of(more) == seq![EventView::PlaylistsChanged],
        Err(e) => answer == Err::<(), ProviderErrorView>(e),
    }
}

pub fn slice_tracks(v: &[Track]) -> (r: Vec<Track>)
    ensures
        track_views(r@) == track_views(v@),
{
    let mut out: Vec<Track> = Vec::new();
    let mut i: usize = 0;
    while i < v.len()
        invariant
            i <= v@.len(),
            track_views(out@) == track_views(v@).subrange(0, i as int),
        decreases v@.len() - i,
    {
        let ghost had = track_views(out@);
        out.push(v[i].clone());
        i += 1;
        assert(track_views(out@) =~= had.push(v@[i - 1]@));
        assert(track_views(out@) =~= track_views(v@).subrange(0, i as int));
    }
    assert(track_views(v@).subrange(0, i as int) =~= track_views(v@));
    out
}

/// The first place of an id among tracks, or the first place of all.
fn place_among(tracks: &Vec<Track>, id: &TrackId) -> (r: usize)
    requires
        tracks@.len() > 0,
    ensures
        r == start_place(track_views(tracks@), Some(id@)),
        r < tracks@.len(),
{
    let ghost all = track_views(tracks@);
    let mut i: usize = 0;
    while i < tracks.len()
        invariant
            i <= tracks@.len(),
            all == track_views(tracks@),
            first_index(all, id@, 0) == first_index(all, id@, i as int),
        decreases tracks@.len() - i,
    {
        assert(all[i as int] == tracks@[i as int]@);
        if tracks[i].id == *id {
            return i;
        }
        i += 1;
    }
    0
}

/// A command that is refused changes nothing.
pub proof fn lemma_refused_command_changes_nothing(
    before: AppView,
    cmd: Cmd,
    input: Input,
    after: AppView,
    r: Result<ScriptView, Seq<char>>,
)
    requires
        handled(before, cmd, input, after, r),
        r is Err,
    ensures
        after == before,
{
}

/// Whether a command only asks.
pub open spec fn only_asks(cmd: Cmd) -> bool {
    ||| cmd is Subscribe
    ||| cmd is Queue
    ||| cmd is State
    ||| cmd is Providers
    ||| cmd is Search
    ||| cmd is Library
    ||| cmd is LibraryTracks
    ||| cmd is Liked
    ||| cmd is Home
    ||| cmd is Ratings
    ||| cmd is GetCatalogSource
    ||| cmd is CacheStats
}

/// A command that only asks does nothing besides: it changes nothing and
/// leads to no act.
pub proof fn lemma_questions_do_nothing(
    before: AppView,
    cmd: Cmd,
    input: Input,
    after: AppView,
    r: Result<ScriptView, Seq<char>>,
)
    requires
        handled(before, cmd, input, after, r),
        only_asks(cmd),
    ensures
        after == before,
        r matches Ok(s) ==> s.acts.len() == 0,
{
}

/// A track that is asked for by itself is played and stands in the queue as
/// the current one, so that everyone sees what plays.
pub proof fn lemma_played_track_is_current(
    before: AppView,
    track: TrackId,
    input: Input,
    after: AppView,
    r: Result<ScriptView, Seq<char>>,
)
    requires
        before.player.valid(),
        handled(before, Cmd::PlayTrack { track }, input, after, r),
        input matches Input::Metadata(known) ==> known@.len() == 1 && (known@[0] matches Some(
            t,
        ) ==> t@.id == track@),
        meets(input, before.need(Cmd::PlayTrack { track })),
    ensures
        after.player.queue.cursor matches Some(c) && after.player.queue.visited(c).id == track@,
        r == script(seq![ActView::Start(track@)], ReplyView::Ack),
{
    lemma_first_index(before.player.queue.tracks, track@, 0);
    match first_index(before.player.queue.tracks, track@, 0) {
        Some(i) => {
            assert(after.player.queue.tracks[i].id == track@);
        },
        None => {
            let more = hydrated(seq![track@], input->Metadata_0@);
            assert(more[0].id == track@);
            assert(after.player.queue.tracks[before.player.queue.tracks.len() as int] == more[0]);
        },
    }
}

/// A series of steps starts one track only. `count` is which step of the
/// series is looked at: the number that its track is to start with is the
/// latest when the series is over exactly if it was the last one.
pub proof fn lemma_a_series_of_steps_starts_one_track(
    before: AppView,
    series: Seq<bool>,
    count: int,
)
    requires
        0 < count <= series.len() <= u64::MAX,
    ensures
        ({
            let then = AppView {
                player: before.player.skipped_all(series.take(count - 1)),
                ..before
            };
            let over = before.player.skipped_all(series);
            then.step_acts(series[count - 1])[0] matches ActView::StartSoon { number, .. } ==> (
            number == over.skip_gen <==> count == series.len())
        }),
{
    let id = ScopedIdView { provider: Seq::empty(), id: Seq::empty() };
    lemma_only_the_last_skip_starts(before.player, series, count, id);
    assert(series.take(count).drop_last() =~= series.take(count - 1));
    assert(series.take(count).last() == series[count - 1]);
}

/// A dislike of the track that plays leads on to the next one before the
/// source is told; a rating is kept and told here before either.
pub proof fn lemma_own_rating_comes_first(before: AppView, track: ScopedIdView, rating: Rating)
    ensures
        ({
            let acts = before.rating_acts(track, rating);
            &&& acts[0] == ActView::SetRating { track, rating }
            &&& acts[1] == ActView::Emit(EventView::RatingChanged { track, rating })
            &&& rating == Rating::Disliked && before.shown_id() == Some(track) ==> acts[2]
                == ActView::Skip { forward: true }
            &&& forall|k: int|
                0 <= k < acts.len() && (#[trigger] acts[k]) is Mirror ==> k == acts.len() - 1
        }),
{
}

/// How the player process's pause stands once acts are done, where it stood
/// at `was` before.
pub open spec fn pause_after(acts: Seq<ActView>, was: bool) -> bool
    decreases acts.len(),
{
    if acts.len() == 0 {
        was
    } else {
        match acts.last() {
            ActView::Pause(paused) => paused,
            _ => pause_after(acts.drop_last(), was),
        }
    }
}

/// `Pause` pauses and `Play` plays: the acts of the one leave the process
/// paused and those of the other leave it playing, however it stood before.
/// Once the process has told of it, that is the status that everyone sees.
pub proof fn lemma_pause_pauses_and_play_plays(
    before: AppView,
    input: Input,
    paused: AppView,
    p: Result<ScriptView, Seq<char>>,
    playing: AppView,
    q: Result<ScriptView, Seq<char>>,
    was: bool,
    idle_now: bool,
)
    requires
        handled(before, Cmd::Pause, input, paused, p),
        handled(before, Cmd::Play, input, playing, q),
    ensures
        p matches Ok(s) && pause_after(s.acts, was) && paused.player.after_event(
            MpvEvent::Paused(pause_after(s.acts, was)),
            idle_now,
        ).0.shown().status == PlaybackStatus::Paused,
        q matches Ok(s) && !pause_after(s.acts, was) && (before.player.current is Some
            ==> playing.player.after_event(
            MpvEvent::Paused(pause_after(s.acts, was)),
            idle_now,
        ).0.shown().status == PlaybackStatus::Playing),
        paused == before,
        playing == before,
{
    reveal_with_fuel(pause_after, 3);
    let on = seq![ActView::Pause(true), ActView::EmitState];
    let off = seq![ActView::Pause(false), ActView::EmitState];
    assert(on.drop_last() =~= seq![ActView::Pause(true)]);
    assert(off.drop_last() =~= seq![ActView::Pause(false)]);
}

/// The one key does what the state asks for: it is `Pause` for what plays
/// and `Play` for what is paused. What was stopped it starts again, with
/// the track that is shown; where none is, it does nothing.
pub proof fn lemma_toggle_does_what_is_left_to_do(
    before: AppView,
    input: Input,
    after: AppView,
    r: Result<ScriptView, Seq<char>>,
    paused: AppView,
    p: Result<ScriptView, Seq<char>>,
    playing: AppView,
    q: Result<ScriptView, Seq<char>>,
)
    requires
        before.player.valid(),
        handled(before, Cmd::Toggle, input, after, r),
        handled(before, Cmd::Pause, input, paused, p),
        handled(before, Cmd::Play, input, playing, q),
    ensures
        before.player.status == PlaybackStatus::Playing ==> r == p && after == paused,
        before.player.status == PlaybackStatus::Paused ==> r == q && after == playing,
        before.player.status == PlaybackStatus::Stopped ==> match before.player.shown().track {
            Some(track) => {
                &&& r matches Ok(s) && s.acts[0] == ActView::Start(track.id) && s.reply
                    == ReplyView::Ack
                &&& after.player.queue.tracks == before.player.queue.tracks
                &&& after.player.queue.current_index() matches Some(i) && 0 <= i
                    < before.player.queue.tracks.len() && before.player.queue.tracks[i] == track
            },
            None => r matches Ok(s) && s.acts.len() == 0 && after == before,
        },
{
    if let Some((id, _)) = before.player.current {
        lemma_first_index(before.player.queue.tracks, id, 0);
    }
}

/// Stopping stops and starts nothing; a seek goes where it is told, forwards
/// and backwards; a volume within the scale is set as it is, and one beyond
/// it to the nearer end. None of them touches the queue.
pub proof fn lemma_playback_is_steered_as_asked(
    before: AppView,
    cmd: Cmd,
    input: Input,
    after: AppView,
    r: Result<ScriptView, Seq<char>>,
)
    requires
        handled(before, cmd, input, after, r),
        cmd is Stop || cmd is Seek || cmd is SeekBy || cmd is SetVolume,
    ensures
        after == before,
        r matches Ok(s) && s.reply == ReplyView::Ack && s.acts.len() >= 1 && (forall|k: int|
            1 <= k < s.acts.len() ==> s.acts[k] == ActView::EmitState),
        cmd is Stop ==> r->Ok_0.acts[0] == ActView::StopPlayback,
        cmd matches Cmd::Seek { position } ==> r->Ok_0.acts[0] == ActView::SeekTo(position),
        cmd matches Cmd::SeekBy { delta } ==> r->Ok_0.acts[0] == ActView::SeekBy(delta),
        cmd matches Cmd::SetVolume { volume } ==> {
            let low = Double { bits: 0 };
            let high = Double { bits: 0x4059_0000_0000_0000 };
            let set = r->Ok_0.acts[0];
            &&& volume.less(low) ==> set == ActView::SetVolume(low)
            &&& high.less(volume) ==> set == ActView::SetVolume(high)
            &&& !volume.less(low) && !high.less(volume) ==> set == ActView::SetVolume(volume)
        },
        cmd is Stop || cmd is SetVolume ==> r->Ok_0.acts.last() == ActView::EmitState,
{
}

/// `Next` leads to the track after the current one and `Prev` to the one
/// before it. At either end of the list an unlooped queue stops there and a
/// looped one goes on at the other end. What is to start is what the queue
/// then stands at.
pub proof fn lemma_steps_lead_to_the_neighbours(
    before: AppView,
    cmd: Cmd,
    input: Input,
    after: AppView,
    r: Result<ScriptView, Seq<char>>,
    i: int,
)
    requires
        before.player.valid(),
        !before.player.queue.shuffle,
        before.player.queue.current_index() == Some(i),
        cmd is Next || cmd is Prev,
        handled(before, cmd, input, after, r),
    ensures
        ({
            let tracks = before.player.queue.tracks;
            let len = tracks.len() as int;
            let looped = before.player.queue.loop_mode != LoopMode::Off;
            let wish = if cmd is Next {
                i + 1
            } else {
                i - 1
            };
            let place = if wish < 0 {
                len - 1
            } else if wish >= len {
                0
            } else {
                wish
            };
            &&& r matches Ok(s) && s.reply == ReplyView::Ack
            &&& after.player.queue.tracks == tracks
            &&& 0 <= wish < len || looped ==> {
                &&& after.player.queue.current_index() == Some(place)
                &&& r->Ok_0.acts == seq![
                    ActView::StartSoon { track: tracks[place].id, number: after.player.skip_gen },
                ]
            }
            &&& !(0 <= wish < len) && !looped ==> {
                &&& after.player.queue.current_index() == Some(i)
                &&& r->Ok_0.acts == seq![ActView::StopPlayback, ActView::EmitState]
            }
        }),
{
    let q = before.player.queue;
    let c = q.cursor->0;
    assert(q.order[c] == c as usize);
    if let Some(d) = q.moved(cmd is Next, false) {
        assert(q.order[d] == d as usize);
    }
}

/// In every order, shuffled or not, the track that a step is to start is
/// the one that the queue then stands at, and the step has the latest
/// number.
pub proof fn lemma_steps_start_what_is_current(
    before: AppView,
    cmd: Cmd,
    input: Input,
    after: AppView,
    r: Result<ScriptView, Seq<char>>,
    k: int,
)
    requires
        before.player.valid(),
        cmd is Next || cmd is Prev,
        handled(before, cmd, input, after, r),
        r is Ok,
        0 <= k < r->Ok_0.acts.len(),
    ensures
        r->Ok_0.acts[k] matches ActView::StartSoon { track, number } ==> {
            &&& after.player.queue.current_index() matches Some(i)
            &&& 0 <= i < before.player.queue.tracks.len()
            &&& before.player.queue.tracks[i].id == track
            &&& number == after.player.skip_gen
            &&& number != before.player.skip_gen
        },
        r->Ok_0.acts[k] is StopPlayback ==> after.player.queue == before.player.queue,
{
    let q = before.player.queue;
    if let Some(d) = q.moved(cmd is Next, false) {
        assert((q.order[d] as int) < q.order.len());
    }
}

/// The commands on the queue do what they say. Clearing leaves no track and
/// keeps the modes, and ends the radio; a mode is the one that was asked
/// for, what plays stays, and a mode that holds already changes nothing; a
/// place that there is becomes current and
/// starts, and one that there is not is refused; what is appended stands
/// after what was there, in its order. The answer to a question shows the
/// tracks and where the queue stands.
pub proof fn lemma_the_queue_obeys(
    before: AppView,
    cmd: Cmd,
    input: Input,
    after: AppView,
    r: Result<ScriptView, Seq<char>>,
)
    requires
        before.player.valid(),
        handled(before, cmd, input, after, r),
        meets(input, before.need(cmd)),
    ensures
        ({
            let was = before.player.queue;
            let now = after.player.queue;
            &&& cmd is QueueClear ==> {
                &&& r is Ok
                &&& now.tracks.len() == 0
                &&& now.cursor is None
                &&& now.loop_mode == was.loop_mode
                &&& now.shuffle == was.shuffle
                &&& after.radio.session is None
                &&& r->Ok_0.acts == seq![
                    ActView::Emit(EventView::QueueChanged { len: 0, index: None }),
                ]
            }
            &&& cmd matches Cmd::SetLoop { mode } ==> {
                &&& r is Ok
                &&& now.loop_mode == mode
                &&& now.tracks == was.tracks
                &&& now.shuffle == was.shuffle
                &&& now.current_index() == was.current_index()
                &&& r->Ok_0.acts == seq![ActView::EmitState]
            }
            &&& cmd matches Cmd::SetShuffle { shuffle } ==> {
                &&& r is Ok
                &&& now.shuffle == shuffle
                &&& now.tracks == was.tracks
                &&& now.loop_mode == was.loop_mode
                &&& now.current_index() == was.current_index()
                &&& shuffle && !was.shuffle ==> drawn(now.order)
                &&& shuffle == was.shuffle ==> now == was
                &&& !shuffle ==> forall|k: int|
                    0 <= k < was.tracks.len() ==> #[trigger] now.order[k] == k
                &&& r->Ok_0.acts == seq![ActView::EmitState]
            }
            &&& cmd matches Cmd::QueueGoto { index } ==> {
                &&& r is Ok <==> index < was.tracks.len()
                &&& now.tracks == was.tracks
                &&& index < was.tracks.len() ==> {
                    &&& now.current_index() == Some(index as int)
                    &&& r->Ok_0.acts == seq![ActView::Start(was.tracks[index as int].id)]
                }
            }
            &&& cmd matches Cmd::QueueAppend { tracks } ==> {
                &&& r is Ok
                &&& now.tracks.len() == was.tracks.len() + tracks@.len()
                &&& now.tracks.take(was.tracks.len() as int) == was.tracks
                &&& now.current_index() == was.current_index()
                &&& r->Ok_0.acts == seq![
                    ActView::Emit(
                        EventView::QueueChanged {
                            len: now.tracks.len() as usize,
                            index: match was.current_index() {
                                Some(i) => Some(i as usize),
                                None => None,
                            },
                        },
                    ),
                ]
                &&& forall|k: int|
                    0 <= k < tracks@.len() ==> is_track_of(
                        now.tracks[was.tracks.len() + k],
                        #[trigger] tracks@[k]@,
                        input->Metadata_0@[k],
                    )
            }
            &&& cmd is Queue ==> {
                &&& r matches Ok(s)
                &&& s.reply matches ReplyView::Queue { tracks, index }
                &&& tracks == was.tracks
                &&& (index is Some <==> was.cursor is Some)
                &&& index matches Some(i) ==> was.tracks[i as int] == was.visited(was.cursor->0)
            }
        }),
{
    let was = before.player.queue;
    if let Some(c) = was.cursor {
        assert((was.order[c] as int) < was.order.len());
    }
    if let Cmd::QueueAppend { tracks } = cmd {
        let more = hydrated(id_views(tracks@), input->Metadata_0@);
        let now = after.player.queue;
        assert(now.tracks.take(was.tracks.len() as int) =~= was.tracks);
        if let Some(c) = was.cursor {
            assert(now.order[c] == was.order[c]);
        }
        assert forall|k: int| 0 <= k < tracks@.len() implies is_track_of(
            now.tracks[was.tracks.len() + k],
            #[trigger] tracks@[k]@,
            input->Metadata_0@[k],
        ) by {
            assert(now.tracks[was.tracks.len() + k] == more[k]);
        }
    }
}

/// Whether a track is what is known of an id; where nothing is, the bare id
/// stands for it and for its title.
pub open spec fn is_track_of(t: TrackView, id: ScopedIdView, known: Option<Track>) -> bool {
    match known {
        Some(k) => t == k@,
        None => t.id == id && t.title == id.id && t.artists.len() == 0 && t.album is None
            && t.duration is None && t.art_url is None && t.page_url is None,
    }
}

/// A list that is to be played takes the place of the queue, whole and in
/// its order, and starts where it was asked to: at the index, or the last
/// one for an index beyond the end. A list without tracks is refused.
pub proof fn lemma_a_list_is_played_from_its_start(
    before: AppView,
    tracks: Vec<TrackId>,
    start: usize,
    input: Input,
    after: AppView,
    r: Result<ScriptView, Seq<char>>,
)
    requires
        before.player.valid(),
        handled(before, Cmd::PlayContext { tracks, start }, input, after, r),
        meets(input, before.need(Cmd::PlayContext { tracks, start })),
    ensures
        r is Ok <==> tracks@.len() > 0,
        r is Ok ==> {
            let now = after.player.queue;
            let place = if start < tracks@.len() {
                start as int
            } else {
                tracks@.len() - 1
            };
            &&& now.tracks.len() == tracks@.len()
            &&& forall|k: int|
                0 <= k < tracks@.len() ==> is_track_of(
                    now.tracks[k],
                    #[trigger] tracks@[k]@,
                    input->Metadata_0@[k],
                )
            &&& now.current_index() == Some(place)
            &&& now.loop_mode == before.player.queue.loop_mode
            &&& now.shuffle == before.player.queue.shuffle
            &&& after.radio.session is None
            &&& r->Ok_0.acts.len() == 2
            &&& r->Ok_0.acts[0] == ActView::Emit(
                EventView::QueueChanged {
                    len: tracks@.len() as usize,
                    index: Some(place as usize),
                },
            )
            &&& r->Ok_0.acts[1] == ActView::Start(now.tracks[place].id)
        },
{
    let all = hydrated(id_views(tracks@), input->Metadata_0@);
    if all.len() > 0 {
        let now = after.player.queue;
        assert(now.tracks =~= all);
        assert forall|k: int| 0 <= k < tracks@.len() implies is_track_of(
            now.tracks[k],
            #[trigger] tracks@[k]@,
            input->Metadata_0@[k],
        ) by {
            assert(now.tracks[k] == all[k]);
        }
    }
}

/// A playlist takes the place of the queue, whole and in its order, and
/// starts with the chosen track where it first stands; with none chosen, or
/// one that is not in it, with the first. An empty one is refused.
pub proof fn lemma_a_playlist_is_played_from_the_chosen_track(
    before: AppView,
    playlist: PlaylistId,
    track: Option<TrackId>,
    read: Vec<Track>,
    after: AppView,
    r: Result<ScriptView, Seq<char>>,
)
    requires
        before.player.valid(),
        handled(before, Cmd::PlayPlaylist { playlist, track }, Input::Tracks(read), after, r),
    ensures
        before.need(Cmd::PlayPlaylist { playlist, track }) == NeedView::Tracks(playlist@),
        r is Ok <==> read@.len() > 0,
        r is Ok ==> {
            let now = after.player.queue;
            &&& now.tracks == track_views(read@)
            &&& now.current_index() matches Some(i)
            &&& 0 <= i < read@.len()
            &&& r->Ok_0.acts.contains(ActView::Start(read@[i].id@))
            &&& r->Ok_0.acts.contains(
                ActView::Emit(
                    EventView::QueueChanged { len: read@.len() as usize, index: Some(i as usize) },
                ),
            )
            &&& track is None ==> i == 0
            &&& track matches Some(wished) ==> {
                &&& forall|k: int| 0 <= k < i ==> (#[trigger] read@[k]).id@ != wished@
                &&& read@[i].id@ == wished@ || i == 0 && (forall|k: int|
                    0 <= k < read@.len() ==> (#[trigger] read@[k]).id@ != wished@)
            }
            &&& after.radio.session is None
        },
{
    let all = track_views(read@);
    if all.len() > 0 {
        let now = after.player.queue;
        assert(now.tracks =~= all);
        let i = start_place(all, opt_id(track));
        if let Some(wished) = track {
            lemma_first_index(all, wished@, 0);
            assert forall|k: int| 0 <= k < all.len() implies (#[trigger] read@[k]).id@
                == all[k].id by {}
        }
        assert(0 <= i < all.len());
        let s = r->Ok_0;
        assert(s.acts[1] == ActView::Start(read@[i].id@));
        assert(s.acts[0] is Emit);
    }
}

/// A track that the queue holds needs nothing to be read before it plays;
/// of any other its metadata is.
pub proof fn lemma_only_the_unknown_is_read(before: AppView, track: TrackId, k: int)
    ensures
        0 <= k < before.player.queue.tracks.len() && before.player.queue.tracks[k].id == track@
            ==> before.need(Cmd::PlayTrack { track }) == NeedView::Nothing,
        !before.player.queue.tracks.map_values(|t: TrackView| t.id).contains(track@)
            ==> before.need(Cmd::PlayTrack { track }) == NeedView::Metadata(seq![track@]),
{
    let tracks = before.player.queue.tracks;
    lemma_first_index(tracks, track@, 0);
    if let Some(i) = first_index(tracks, track@, 0) {
        let ids = tracks.map_values(|t: TrackView| t.id);
        assert(ids[i] == track@);
        assert(ids.contains(track@));
    }
}

/// The names of the connected sources.
pub open spec fn connected(registry: Seq<(Seq<char>, ())>) -> Seq<Seq<char>> {
    registry.map_values(|e: (Seq<char>, ())| e.0)
}

/// A rating is kept and told as it was given. Only a dislike of the track
/// that is shown leads on to the next one; only a like makes the source's
/// list of likes stale; and the source itself is told exactly where it is
/// connected.
pub proof fn lemma_ratings_have_their_effects(
    before: AppView,
    track: TrackId,
    rating: Rating,
    input: Input,
    after: AppView,
    r: Result<ScriptView, Seq<char>>,
)
    requires
        handled(before, Cmd::Rate { track, rating }, input, after, r),
    ensures
        after == before,
        r is Ok,
        ({
            let acts = r->Ok_0.acts;
            let likes = ScopedIdView { provider: track@.provider, id: "LM"@ };
            let told = ActView::Mirror { provider: track@.provider, track: track@, rating };
            &&& acts.contains(ActView::SetRating { track: track@, rating })
            &&& acts.contains(ActView::Emit(EventView::RatingChanged { track: track@, rating }))
            &&& acts.contains(ActView::Skip { forward: true }) <==> rating == Rating::Disliked && (
            before.player.shown().track matches Some(t) && t.id == track@)
            &&& acts.contains(ActView::ForgetPlaylist(likes)) <==> rating == Rating::Liked
            &&& acts.contains(told) <==> connected(before.registry).contains(track@.provider)
            &&& forall|j: int|
                0 <= j < acts.len() ==> match #[trigger] acts[j] {
                    ActView::SetRating { track: t, rating: v } => t == track@ && v == rating,
                    ActView::Emit(e) => e == (EventView::RatingChanged { track: track@, rating }),
                    ActView::Skip { forward } => forward,
                    ActView::ForgetPlaylist(p) => p == likes,
                    ActView::Mirror { .. } => acts[j] == told,
                    _ => false,
                }
        }),
{
    let acts = r->Ok_0.acts;
    let likes = ScopedIdView { provider: track@.provider, id: "LM"@ };
    let told = ActView::Mirror { provider: track@.provider, track: track@, rating };
    assert(acts[0] == ActView::SetRating { track: track@, rating });
    assert(acts[1] == ActView::Emit(EventView::RatingChanged { track: track@, rating }));
    lemma_found_is_what_is_there(before.registry, track@.provider);
    if connected(before.registry).contains(track@.provider) {
        assert(acts.last() == told);
        assert(acts[acts.len() - 1] == told);
    }
    let left = rating == Rating::Disliked && before.shown_id() == Some(track@);
    if left {
        assert(acts[2] == ActView::Skip { forward: true });
    }
    if rating == Rating::Liked {
        assert(acts[2] == ActView::ForgetPlaylist(likes));
    }
}

/// What is pinned stays pinned and what is unpinned does not: each of the
/// two commands goes to the tracks that it names and answers with how the
/// cache then stands. Warming fetches the tracks named; cleaning cleans.
pub proof fn lemma_the_cache_is_kept_as_asked(
    before: AppView,
    cmd: Cmd,
    input: Input,
    after: AppView,
    r: Result<ScriptView, Seq<char>>,
)
    requires
        handled(before, cmd, input, after, r),
    ensures
        cmd matches Cmd::CachePin { tracks } ==> after == before && r == script(
            seq![ActView::Pin { tracks: tracks@.map_values(|t: TrackId| t@), pinned: true }],
            ReplyView::CacheStats,
        ),
        cmd matches Cmd::CacheUnpin { tracks } ==> after == before && r == script(
            seq![ActView::Pin { tracks: tracks@.map_values(|t: TrackId| t@), pinned: false }],
            ReplyView::CacheStats,
        ),
        cmd matches Cmd::CacheWarm { tracks } ==> after == before && r == script(
            seq![ActView::Warm(tracks@.map_values(|t: TrackId| t@))],
            ReplyView::Ack,
        ),
        cmd is CacheGc ==> after == before && r == script(seq![ActView::Gc], ReplyView::CacheStats),
        cmd is CacheStats ==> after == before && r == script(Seq::empty(), ReplyView::CacheStats),
{
}

/// A question goes to the source that it names, and to every connected one
/// where it names none; a source that is not connected is refused. The same
/// holds of reading credentials again and of choosing where catalogue
/// commands go: the choice is saved and used, both as it was made.
pub proof fn lemma_requests_reach_their_sources(
    before: AppView,
    cmd: Cmd,
    input: Input,
    after: AppView,
    r: Result<ScriptView, Seq<char>>,
)
    requires
        handled(before, cmd, input, after, r),
    ensures
        cmd matches Cmd::Search { query, kind, provider } ==> asked(
            before.registry,
            opt_text(provider),
            r,
            |targets: Seq<Seq<char>>| ReplyView::Search { query: query@, kind, targets },
        ),
        cmd matches Cmd::Liked { provider } ==> asked(
            before.registry,
            opt_text(provider),
            r,
            |targets: Seq<Seq<char>>| ReplyView::Liked { aggregate: provider is None, targets },
        ),
        cmd matches Cmd::Library { provider } ==> (opt_text(provider) == Some("local"@) ==> r
            == script(
            Seq::empty(),
            ReplyView::Library { provider: opt_text(provider), plan: LibraryPlanView::Local },
        )) && (opt_text(provider) != Some("local"@) ==> asked(
            before.registry,
            opt_text(provider),
            r,
            |targets: Seq<Seq<char>>|
                ReplyView::Library {
                    provider: opt_text(provider),
                    plan: LibraryPlanView::Remote { with_local: provider is None, targets },
                },
        )),
        cmd matches Cmd::RefreshAuth { provider } ==> match opt_text(provider) {
            None => r == script(
                seq![ActView::Refresh(connected(before.registry))],
                ReplyView::Ack,
            ),
            Some(n) => if connected(before.registry).contains(n) {
                r == script(seq![ActView::Refresh(seq![n])], ReplyView::Ack)
            } else {
                r is Err
            },
        },
        cmd matches Cmd::SetCatalogSource { source } ==> {
            let chosen = script(
                seq![ActView::SaveSource(source@), ActView::UseSource(source@)],
                ReplyView::Catalog,
            );
            &&& source@ is None ==> r == chosen
            &&& source@ matches Some(n) ==> if connected(before.registry).contains(n) {
                r == chosen
            } else {
                r is Err
            }
        },
        cmd is GetCatalogSource ==> r == script(Seq::empty(), ReplyView::Catalog),
        cmd is State ==> r == script(Seq::empty(), ReplyView::State),
        cmd is Providers ==> r == script(Seq::empty(), ReplyView::Providers),
        cmd is Ratings ==> r == script(Seq::empty(), ReplyView::Ratings),
        cmd matches Cmd::Home { provider } ==> r == script(
            Seq::empty(),
            ReplyView::Home { provider: opt_text(provider) },
        ),
        cmd matches Cmd::LibraryTracksPage { playlist } ==> r == script(
            Seq::empty(),
            ReplyView::NextPage { playlist: playlist@ },
        ),
{
    assert forall|name: Seq<char>| #[trigger]
        lookup(before.registry, name) is Some <==> connected(before.registry).contains(name) by {
        lemma_found_is_what_is_there(before.registry, name);
    }
    assert(names_of(before.registry) =~= connected(before.registry));
}

/// Whether a question to a named source goes to it alone, and one to nobody
/// in particular to all.
pub open spec fn asked(
    registry: Seq<(Seq<char>, ())>,
    provider: Option<Seq<char>>,
    r: Result<ScriptView, Seq<char>>,
    reply: spec_fn(Seq<Seq<char>>) -> ReplyView,
) -> bool {
    match provider {
        None => r == script(Seq::empty(), reply(connected(registry))),
        Some(name) => if connected(registry).contains(name) {
            r == script(Seq::empty(), reply(seq![name]))
        } else {
            r is Err
        },
    }
}

/// A playlist's tracks and changes go to where the playlist lives: the
/// daemon's own to the daemon, another one to the source of its id, as long
/// as that is connected. A new playlist goes to whom it names; else to the
/// chosen source; else to the first connected one; else to the daemon.
pub proof fn lemma_playlists_live_at_their_source(
    before: AppView,
    cmd: Cmd,
    input: Input,
    after: AppView,
    r: Result<ScriptView, Seq<char>>,
)
    requires
        handled(before, cmd, input, after, r),
    ensures
        cmd matches Cmd::LibraryTracks { playlist } ==> lives(
            before.registry,
            Some(playlist@.provider),
            r,
            |plan: PlaylistPlanView| ReplyView::Tracks { playlist: playlist@, plan },
        ),
        cmd matches Cmd::PlaylistAdd { playlist, track } ==> lives(
            before.registry,
            Some(playlist@.provider),
            r,
            |plan: PlaylistPlanView|
                ReplyView::AddToPlaylist { playlist: playlist@, track: track@, plan },
        ),
        cmd matches Cmd::PlaylistRemove { playlist, track } ==> lives(
            before.registry,
            Some(playlist@.provider),
            r,
            |plan: PlaylistPlanView|
                ReplyView::RemoveFromPlaylist { playlist: playlist@, track: track@, plan },
        ),
        cmd matches Cmd::PlaylistDelete { playlist } ==> lives(
            before.registry,
            Some(playlist@.provider),
            r,
            |plan: PlaylistPlanView| ReplyView::DeletePlaylist { playlist: playlist@, plan },
        ),
        cmd matches Cmd::PlaylistCreate { title, provider } ==> lives(
            before.registry,
            if provider is Some {
                opt_text(provider)
            } else if before.source is Some {
                before.source
            } else if before.registry.len() > 0 {
                Some(before.registry[0].0)
            } else {
                None
            },
            r,
            |plan: PlaylistPlanView| ReplyView::CreatePlaylist { title: title@, plan },
        ),
{
    assert forall|name: Seq<char>| #[trigger]
        lookup(before.registry, name) is Some <==> connected(before.registry).contains(name) by {
        lemma_found_is_what_is_there(before.registry, name);
    }
}

/// Whether a request for a playlist of a source goes there.
pub open spec fn lives(
    registry: Seq<(Seq<char>, ())>,
    provider: Option<Seq<char>>,
    r: Result<ScriptView, Seq<char>>,
    reply: spec_fn(PlaylistPlanView) -> ReplyView,
) -> bool {
    let own = script(Seq::empty(), reply(PlaylistPlanView::Local));
    match provider {
        None => r == own,
        Some(name) => if name == "local"@ {
            r == own
        } else if connected(registry).contains(name) {
            r == script(Seq::empty(), reply(PlaylistPlanView::Source(name)))
        } else {
            r is Err
        },
    }
}

/// What is seen of an act is the act that is carried out.
pub proof fn lemma_acts_are_seen_as_they_are(
    paused: bool,
    forward: bool,
    id: TrackId,
    number: u64,
    rating: Rating,
    volume: Double,
    position: Duration,
)
    ensures
        Act::Pause(paused)@ == ActView::Pause(paused),
        Act::StopPlayback@ == ActView::StopPlayback,
        Act::SeekTo(position)@ == ActView::SeekTo(position),
        Act::SeekBy(volume)@ == ActView::SeekBy(volume),
        Act::SetVolume(volume)@ == ActView::SetVolume(volume),
        Act::Start(id)@ == ActView::Start(id@),
        (Act::StartSoon { track: id, number })@ == (ActView::StartSoon { track: id@, number }),
        (Act::Skip { forward })@ == (ActView::Skip { forward }),
        (Act::SetRating { track: id, rating })@ == (ActView::SetRating { track: id@, rating }),
        Act::EmitState@ == ActView::EmitState,
{
}

/// A command changes the queue, the radio or the number of the latest step,
/// and nothing else: the sources, the chosen one, and what plays are changed
/// by carrying out its acts. What is not about the queue leaves it alone.
pub proof fn lemma_commands_leave_the_rest_alone(
    before: AppView,
    cmd: Cmd,
    input: Input,
    after: AppView,
    r: Result<ScriptView, Seq<char>>,
)
    requires
        handled(before, cmd, input, after, r),
    ensures
        after.registry == before.registry,
        after.source == before.source,
        after.player == (PlayerView {
            queue: after.player.queue,
            skip_gen: after.player.skip_gen,
            ..before.player
        }),
        after.radio == before.radio || after.radio == (RadioView { session: None, ..before.radio }),
        cmd is PlayTrack || cmd is PlayPlaylist || cmd is PlayContext || cmd is QueueClear ==> r
            is Ok ==> after.radio.session is None,
        cmd is Next || cmd is Prev || cmd is Toggle || cmd is QueueAppend || cmd is QueueGoto
            || cmd is SetLoop || cmd is SetShuffle ==> after.radio == before.radio,
        !(cmd is Next || cmd is Prev) ==> after.player.skip_gen == before.player.skip_gen,
        !(cmd is PlayTrack || cmd is PlayPlaylist || cmd is PlayContext || cmd is QueueClear || cmd
            is Next || cmd is Prev || cmd is Toggle || cmd is QueueAppend || cmd is QueueGoto || cmd
            is SetLoop || cmd is SetShuffle) ==> after == before,
{
}

/// A track that is asked for by itself leaves the others of the queue where
/// they are; one that the queue does not hold comes behind them.
pub proof fn lemma_a_single_track_joins_the_queue(
    before: AppView,
    track: TrackId,
    input: Input,
    after: AppView,
    r: Result<ScriptView, Seq<char>>,
)
    requires
        before.player.valid(),
        handled(before, Cmd::PlayTrack { track }, input, after, r),
        meets(input, before.need(Cmd::PlayTrack { track })),
    ensures
        ({
            let was = before.player.queue;
            let now = after.player.queue;
            let held = was.tracks.map_values(|t: TrackView| t.id).contains(track@);
            &&& held ==> now.tracks == was.tracks
            &&& !held ==> now.tracks.len() == was.tracks.len() + 1 && now.tracks.drop_last()
                == was.tracks && is_track_of(
                now.tracks.last(),
                track@,
                input->Metadata_0@[0],
            )
            &&& now.loop_mode == was.loop_mode && now.shuffle == was.shuffle
        }),
{
    let was = before.player.queue;
    let now = after.player.queue;
    let ids = was.tracks.map_values(|t: TrackView| t.id);
    lemma_first_index(was.tracks, track@, 0);
    match first_index(was.tracks, track@, 0) {
        Some(i) => {
            assert(ids[i] == track@);
        },
        None => {
            if ids.contains(track@) {
                let k = choose|k: int| 0 <= k < ids.len() && ids[k] == track@;
                assert(was.tracks[k].id == track@);
            }
            let more = hydrated(seq![track@], input->Metadata_0@);
            assert(now.tracks == was.tracks + more);
            assert(now.tracks.drop_last() =~= was.tracks);
            assert(now.tracks.last() == more[0]);
        },
    }
}

/// A command that cannot be carried out is refused with what is wrong: the
/// source that is not connected, the playlist that is empty, the place that
/// the queue does not have.
pub proof fn lemma_refusals_say_what_is_wrong(
    before: AppView,
    cmd: Cmd,
    input: Input,
    after: AppView,
    e: Seq<char>,
)
    requires
        handled(before, cmd, input, after, Err(e)),
    ensures
        cmd matches Cmd::PlayPlaylist { playlist, .. } ==> e == "плейлист "@ + playlist@.provider
            + ":"@ + playlist@.id + " пуст"@,
        cmd is PlayContext ==> e == "список треков пуст"@,
        cmd matches Cmd::QueueGoto { index } ==> e == "в очереди нет позиции "@ + decimal_text(
            index as nat,
        ),
        cmd matches Cmd::Search { provider: Some(name), .. } ==> e == "провайдер "@ + name@
            + " не подключён"@,
        cmd matches Cmd::Library { provider: Some(name) } ==> e == "провайдер "@ + name@
            + " не подключён"@,
        cmd matches Cmd::Liked { provider: Some(name) } ==> e == "провайдер "@ + name@
            + " не подключён"@,
        cmd matches Cmd::RefreshAuth { provider: Some(name) } ==> e == "провайдер "@ + name@
            + " не подключён"@,
        cmd matches Cmd::LibraryTracks { playlist } ==> e == "провайдер "@ + playlist@.provider
            + " не подключён"@,
        cmd matches Cmd::SetCatalogSource { source } ==> (source@ matches Some(name) ==> e
            == "провайдер "@ + name + " не подключён"@),
{
    if let Cmd::PlayPlaylist { playlist, .. } = cmd {
        assert(empty_playlist(playlist@) =~= "плейлист "@ + playlist@.provider + ":"@ + playlist@.id
            + " пуст"@);
    }
}

} // verus!
