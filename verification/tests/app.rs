use tmus::app::{
    hydrate, playlist_changed, playlist_created, Act, App, Input, Need, Reply,
};
use tmus::catalog::PlaylistPlan;
use tmus::double::Double;
use tmus::model::{
    LoopMode, PlaybackStatus, PlaylistId, ProviderId, Rating, SearchKind, StreamSource, Track,
    TrackId,
};
use tmus::mpv::MpvEvent;
use tmus::player::Player;
use tmus::protocol::{CatalogSource, Cmd, Event, QueueView};
use tmus::provider::{ProviderError, Registry};
use tmus::radio::RadioPage;
use tmus::time::Duration;

fn id(s: &str) -> TrackId {
    TrackId::new(ProviderId::ytmusic(), s)
}

fn track(s: &str) -> Track {
    Track {
        id: id(s),
        title: s.to_owned(),
        artists: vec!["Артист".to_owned()],
        album: None,
        duration: None,
        art_url: None,
        page_url: None,
    }
}

fn app(queue: &[&str]) -> App {
    let mut registry = Registry::new();
    registry.insert(ProviderId::ytmusic(), ());
    let mut app = App::new(
        Player::new(Double { bits: 70.0_f64.to_bits() }),
        registry,
        CatalogSource { provider: None },
    );
    let player = app.player_mut();
    let mut q = player.take_queue();
    q.append_all(queue.iter().map(|s| track(s)).collect());
    player.put_queue(q);
    app
}

fn playing(queue: &[&str], at: usize) -> App {
    let mut app = app(queue);
    let player = app.player_mut();
    let mut q = player.take_queue();
    q.goto(at);
    player.put_queue(q);
    player.start_loading(0);
    player.loaded(&id(queue[at]), StreamSource::Local("/a".to_owned()));
    app
}

fn acts(app: &mut App, cmd: Cmd, input: Input) -> Vec<Act> {
    let script = app.handle(cmd, input).expect("команда принята");
    assert_eq!(script.reply, Reply::Ack);
    script.acts
}

#[test]
fn a_known_track_is_played_where_it_stands() {
    let mut app = app(&["a", "b"]);
    assert_eq!(app.need(&Cmd::PlayTrack { track: id("b") }), Need::Nothing);
    let done = acts(&mut app, Cmd::PlayTrack { track: id("b") }, Input::Nothing);
    assert_eq!(done, vec![Act::Start(id("b"))]);
    assert_eq!(app.player().queue().current_index(), Some(1));
}

#[test]
fn an_unknown_track_joins_the_queue() {
    let mut app = app(&["a"]);
    assert_eq!(
        app.need(&Cmd::PlayTrack { track: id("z") }),
        Need::Metadata(vec![id("z")])
    );
    acts(&mut app, Cmd::PlayTrack { track: id("z") }, Input::Metadata(vec![None]));
    assert_eq!(app.player().queue().len(), 2);
    assert_eq!(app.player().queue().current().map(|t| t.title.clone()), Some("z".to_owned()));
    let known = hydrate(&vec![id("a"), id("b")], vec![Some(track("a")), None]);
    assert_eq!(known[0], track("a"));
    assert_eq!(known[1].artists, Vec::<String>::new());
}

#[test]
fn a_playlist_starts_at_the_chosen_track() {
    let list = PlaylistId::new(ProviderId::ytmusic(), "PL");
    let mut app = app(&["x"]);
    let cmd = |chosen: Option<&str>| Cmd::PlayPlaylist {
        playlist: PlaylistId::new(ProviderId::ytmusic(), "PL"),
        track: chosen.map(id),
    };
    assert_eq!(app.need(&cmd(None)), Need::Tracks(list));
    let err = app.handle(cmd(None), Input::Tracks(Vec::new())).expect_err("пусто");
    assert_eq!(err, "плейлист ytmusic:PL пуст");
    assert_eq!(app.player().queue().len(), 1);
    let done = acts(&mut app, cmd(Some("b")), Input::Tracks(vec![track("a"), track("b")]));
    assert_eq!(
        done,
        vec![
            Act::Emit(Event::QueueChanged { len: 2, index: Some(1) }),
            Act::Start(id("b")),
        ]
    );
    let done = acts(&mut app, cmd(Some("nope")), Input::Tracks(vec![track("a")]));
    assert_eq!(done[1], Act::Start(id("a")));
}

#[test]
fn a_context_replaces_the_queue() {
    let mut app = app(&["x"]);
    let cmd = |start: usize| Cmd::PlayContext { tracks: vec![id("a"), id("b")], start };
    let known = || Input::Metadata(vec![Some(track("a")), None]);
    let done = acts(&mut app, cmd(1), known());
    assert_eq!(done[1], Act::Start(id("b")));
    let done = acts(&mut app, cmd(9), known());
    assert_eq!(done[1], Act::Start(id("b")));
    let empty = Cmd::PlayContext { tracks: Vec::new(), start: 0 };
    assert_eq!(
        app.handle(empty, Input::Metadata(Vec::new())),
        Err("список треков пуст".to_owned())
    );
    assert_eq!(app.player().queue().len(), 2);
}

#[test]
fn toggling_follows_the_status() {
    let mut app = playing(&["a", "b"], 1);
    let done = acts(&mut app, Cmd::Toggle, Input::Nothing);
    assert_eq!(done, vec![Act::Pause(true), Act::EmitState]);
    app.player_mut().on_event(MpvEvent::Paused(true), false);
    let done = acts(&mut app, Cmd::Toggle, Input::Nothing);
    assert_eq!(done, vec![Act::Pause(false), Act::EmitState]);
    app.player_mut().on_event(MpvEvent::Idle, true);
    assert_eq!(app.player().status(), PlaybackStatus::Stopped);
    let done = acts(&mut app, Cmd::Toggle, Input::Nothing);
    assert_eq!(done, vec![Act::Start(id("b")), Act::EmitState]);
}

#[test]
fn steps_end_with_the_queue() {
    let mut app = app(&["a", "b"]);
    assert_eq!(
        acts(&mut app, Cmd::Next, Input::Nothing),
        vec![Act::StartSoon { track: id("a"), number: 1 }]
    );
    assert_eq!(
        acts(&mut app, Cmd::Next, Input::Nothing),
        vec![Act::StartSoon { track: id("b"), number: 2 }]
    );
    assert!(!app.player().is_latest_skip(1));
    assert!(app.player().is_latest_skip(2));
    assert_eq!(
        acts(&mut app, Cmd::Next, Input::Nothing),
        vec![Act::StopPlayback, Act::EmitState]
    );
    assert!(!app.player().is_latest_skip(2));
    assert_eq!(
        acts(&mut app, Cmd::Prev, Input::Nothing),
        vec![Act::StartSoon { track: id("a"), number: 4 }]
    );
    assert_eq!(app.step(true), vec![Act::StartSoon { track: id("b"), number: 5 }]);
}

#[test]
fn the_queue_is_edited() {
    let mut app = app(&["a"]);
    let done = acts(
        &mut app,
        Cmd::QueueAppend { tracks: vec![id("b")] },
        Input::Metadata(vec![Some(track("b"))]),
    );
    assert_eq!(done, vec![Act::Emit(Event::QueueChanged { len: 2, index: None })]);
    assert_eq!(
        acts(&mut app, Cmd::QueueGoto { index: 1 }, Input::Nothing),
        vec![Act::Start(id("b"))]
    );
    assert_eq!(
        app.handle(Cmd::QueueGoto { index: 7 }, Input::Nothing),
        Err("в очереди нет позиции 7".to_owned())
    );
    let script = app.handle(Cmd::Queue, Input::Nothing).expect("очередь");
    assert_eq!(
        script.reply,
        Reply::Queue(QueueView { tracks: vec![track("a"), track("b")], index: Some(1) })
    );
    assert_eq!(
        acts(&mut app, Cmd::SetLoop { mode: LoopMode::Queue }, Input::Nothing),
        vec![Act::EmitState]
    );
    assert_eq!(app.player().queue().loop_mode(), LoopMode::Queue);
    acts(&mut app, Cmd::SetShuffle { shuffle: true }, Input::Nothing);
    assert!(app.player().queue().shuffle());
    assert_eq!(app.player().queue().current_index(), Some(1));
    assert_eq!(
        acts(&mut app, Cmd::QueueClear, Input::Nothing),
        vec![Act::Emit(Event::QueueChanged { len: 0, index: None })]
    );
    assert!(app.player().queue().is_empty());
}

#[test]
fn a_new_context_ends_the_radio() {
    let mut app = app(&["a"]);
    let generation = {
        let (player, radio) = app.player_and_radio();
        let generation = radio.start(&id("a"));
        radio.open_queue(player, generation, vec![track("a")], Some("c".to_owned()), true);
        generation
    };
    acts(&mut app, Cmd::QueueClear, Input::Nothing);
    let (player, radio) = app.player_and_radio();
    let page = RadioPage { tracks: vec![track("b")], next: None };
    assert_eq!(radio.refill_page(player.queue(), generation, Ok(page)), None);
}

#[test]
fn liked_rating_comes_first_and_is_mirrored() {
    let mut app = app(&[]);
    let done = acts(
        &mut app,
        Cmd::Rate { track: id("vid-1"), rating: Rating::Liked },
        Input::Nothing,
    );
    assert_eq!(
        done,
        vec![
            Act::SetRating { track: id("vid-1"), rating: Rating::Liked },
            Act::Emit(Event::RatingChanged { track: id("vid-1"), rating: Rating::Liked }),
            Act::ForgetPlaylist(PlaylistId::new(ProviderId::ytmusic(), "LM")),
            Act::Mirror {
                provider: "ytmusic".to_owned(),
                track: id("vid-1"),
                rating: Rating::Liked
            },
        ]
    );
}

#[test]
fn a_disliked_playing_track_is_left() {
    let mut app = playing(&["a", "b"], 0);
    let rate = |s: &str| Cmd::Rate { track: id(s), rating: Rating::Disliked };
    assert!(acts(&mut app, rate("a"), Input::Nothing).contains(&Act::Skip { forward: true }));
    assert!(!acts(&mut app, rate("b"), Input::Nothing).contains(&Act::Skip { forward: true }));
    let foreign = Cmd::Rate {
        track: TrackId::new(ProviderId::local(), "x"),
        rating: Rating::Unrated,
    };
    assert_eq!(acts(&mut app, foreign, Input::Nothing).len(), 2);
}

#[test]
fn the_sound_is_set() {
    let mut app = app(&[]);
    let d = |v: f64| Double { bits: v.to_bits() };
    assert_eq!(
        acts(&mut app, Cmd::SetVolume { volume: d(250.0) }, Input::Nothing),
        vec![Act::SetVolume(d(100.0)), Act::EmitState]
    );
    assert_eq!(
        acts(&mut app, Cmd::Seek { position: Duration::from_secs(4) }, Input::Nothing),
        vec![Act::SeekTo(Duration::from_secs(4))]
    );
    assert_eq!(
        acts(&mut app, Cmd::SeekBy { delta: d(-5.0) }, Input::Nothing),
        vec![Act::SeekBy(d(-5.0))]
    );
    let bad = Cmd::Equalizer { enabled: None, preset: Some("Nope".to_owned()), bands: None };
    assert!(app.handle(bad, Input::Nothing).is_err());
    let on = Cmd::Equalizer { enabled: Some(true), preset: None, bands: None };
    match &acts(&mut app, on, Input::Nothing)[0] {
        Act::SetEqualizer(eq) => assert!(eq.enabled),
        other => panic!("{other:?}"),
    }
}

#[test]
fn the_source_of_the_catalogue_is_chosen() {
    let mut app = app(&[]);
    let choose = |name: Option<&str>| Cmd::SetCatalogSource {
        source: CatalogSource { provider: name.map(str::to_owned) },
    };
    assert_eq!(
        app.handle(choose(Some("spotify")), Input::Nothing),
        Err("провайдер spotify не подключён".to_owned())
    );
    let script = app.handle(choose(Some("ytmusic")), Input::Nothing).expect("есть такой");
    let source = || CatalogSource { provider: Some("ytmusic".to_owned()) };
    assert_eq!(script.acts, vec![Act::SaveSource(source()), Act::UseSource(source())]);
    assert_eq!(script.reply, Reply::Catalog);
    app.use_source(source());
    assert_eq!(app.catalog_source(), &source());
    assert_eq!(app.registry().len(), 1);
}

#[test]
fn playlists_go_to_their_owner() {
    let mut app = app(&[]);
    let list = || PlaylistId::new(ProviderId::ytmusic(), "PL1");
    let add = Cmd::PlaylistAdd { playlist: list(), track: id("vid-1") };
    assert_eq!(
        app.handle(add, Input::Nothing).expect("add").reply,
        Reply::AddToPlaylist {
            playlist: list(),
            track: id("vid-1"),
            plan: PlaylistPlan::Source("ytmusic".to_owned())
        }
    );
    let create = Cmd::PlaylistCreate { title: "Chill".to_owned(), provider: None };
    assert_eq!(
        app.handle(create, Input::Nothing).expect("create").reply,
        Reply::CreatePlaylist {
            title: "Chill".to_owned(),
            plan: PlaylistPlan::Source("ytmusic".to_owned())
        }
    );
    let own = Cmd::PlaylistCreate {
        title: "Chill".to_owned(),
        provider: Some("local".to_owned()),
    };
    assert_eq!(
        app.handle(own, Input::Nothing).expect("create").reply,
        Reply::CreatePlaylist { title: "Chill".to_owned(), plan: PlaylistPlan::Local }
    );
    let delete = Cmd::PlaylistDelete { playlist: PlaylistId::new(ProviderId::soundcloud(), "x") };
    assert!(app.handle(delete, Input::Nothing).is_err());
}

#[test]
fn searches_name_their_sources() {
    let mut app = app(&[]);
    let search = |provider: Option<&str>| Cmd::Search {
        query: "q".to_owned(),
        kind: SearchKind::Tracks,
        provider: provider.map(str::to_owned),
    };
    assert_eq!(
        app.handle(search(None), Input::Nothing).expect("поиск").reply,
        Reply::Search {
            query: "q".to_owned(),
            kind: SearchKind::Tracks,
            targets: vec!["ytmusic".to_owned()]
        }
    );
    assert!(app.handle(search(Some("spotify")), Input::Nothing).is_err());
    let warm = Cmd::CacheWarm { tracks: vec![id("a")] };
    assert_eq!(acts(&mut app, warm, Input::Nothing), vec![Act::Warm(vec![id("a")])]);
    let pin = Cmd::CachePin { tracks: vec![id("a")] };
    let script = app.handle(pin, Input::Nothing).expect("pin");
    assert_eq!(script.acts, vec![Act::Pin { tracks: vec![id("a")], pinned: true }]);
    assert_eq!(script.reply, Reply::CacheStats);
}

/// A source of playlists that notes its calls, or refuses them all.
struct Source {
    calls: Vec<String>,
    broken: bool,
}

impl Source {
    fn new(broken: bool) -> Source {
        Source { calls: Vec::new(), broken }
    }

    fn call(&mut self, call: String) -> Result<(), ProviderError> {
        if self.broken {
            return Err(ProviderError::Network("нет сети".to_owned()));
        }
        self.calls.push(call);
        Ok(())
    }

    /// Handles a command against this source; the events go to `bus`.
    fn run(
        &mut self,
        app: &mut App,
        cmd: Cmd,
        bus: &mut Vec<Event>,
    ) -> Result<Option<PlaylistId>, ProviderError> {
        let script = app.handle(cmd, Input::Nothing).expect("команда принята");
        let mut acts = script.acts;
        let mut made = None;
        match script.reply {
            Reply::CreatePlaylist { title, .. } => {
                let answer = self
                    .call(format!("create:{title}"))
                    .map(|()| PlaylistId::new(ProviderId::ytmusic(), "PLnew"));
                let (id, more) = playlist_created(answer)?;
                made = Some(id);
                acts.extend(more);
            }
            Reply::AddToPlaylist { playlist, track, plan } => {
                let call = format!("add:{}:{}", playlist.to_string(), track.to_string());
                acts.extend(playlist_changed(&plan, &playlist, self.call(call))?);
            }
            Reply::RemoveFromPlaylist { playlist, track, plan } => {
                let call = format!("remove:{}:{}", playlist.to_string(), track.to_string());
                acts.extend(playlist_changed(&plan, &playlist, self.call(call))?);
            }
            Reply::DeletePlaylist { playlist, plan } => {
                let call = format!("delete:{}", playlist.to_string());
                acts.extend(playlist_changed(&plan, &playlist, self.call(call))?);
            }
            other => panic!("неожиданный ответ: {other:?}"),
        }
        for act in acts {
            if let Act::Emit(event) = act {
                bus.push(event);
            }
        }
        Ok(made)
    }
}

#[test]
fn playlist_create_returns_id_and_broadcasts() {
    let (mut app, mut source, mut bus) = (app(&[]), Source::new(false), Vec::new());
    let create = Cmd::PlaylistCreate { title: "Chill".to_owned(), provider: None };
    assert_eq!(
        source.run(&mut app, create, &mut bus),
        Ok(Some(PlaylistId::new(ProviderId::ytmusic(), "PLnew")))
    );
    assert_eq!(source.calls, vec!["create:Chill".to_owned()]);
    assert_eq!(bus, vec![Event::PlaylistsChanged]);
}

#[test]
fn playlist_mutations_reach_provider_and_broadcast() {
    let (mut app, mut source, mut bus) = (app(&[]), Source::new(false), Vec::new());
    let playlist = PlaylistId::new(ProviderId::ytmusic(), "PL1");
    let track = id("vid-1");
    for cmd in [
        Cmd::PlaylistAdd { playlist: playlist.clone(), track: track.clone() },
        Cmd::PlaylistRemove { playlist: playlist.clone(), track: track.clone() },
        Cmd::PlaylistDelete { playlist: playlist.clone() },
    ] {
        assert_eq!(source.run(&mut app, cmd, &mut bus), Ok(None));
    }
    assert_eq!(
        source.calls,
        vec![
            "add:ytmusic:PL1:ytmusic:vid-1".to_owned(),
            "remove:ytmusic:PL1:ytmusic:vid-1".to_owned(),
            "delete:ytmusic:PL1".to_owned(),
        ]
    );
    assert_eq!(
        bus,
        vec![Event::PlaylistsChanged, Event::PlaylistsChanged, Event::PlaylistsChanged]
    );
}

#[test]
fn playlist_provider_error_yields_err_without_event() {
    let (mut app, mut source, mut bus) = (app(&[]), Source::new(true), Vec::new());
    let playlist = PlaylistId::new(ProviderId::ytmusic(), "PL1");
    for cmd in [
        Cmd::PlaylistCreate { title: "Chill".to_owned(), provider: None },
        Cmd::PlaylistAdd { playlist: playlist.clone(), track: id("vid-1") },
        Cmd::PlaylistDelete { playlist: playlist.clone() },
    ] {
        assert!(source.run(&mut app, cmd, &mut bus).is_err());
    }
    assert!(source.calls.is_empty());
    assert!(bus.is_empty());
}

#[test]
fn only_a_source_leaves_stale_tracks() {
    let playlist = PlaylistId::new(ProviderId::ytmusic(), "PL1");
    assert_eq!(
        playlist_changed(&PlaylistPlan::Source("ytmusic".to_owned()), &playlist, Ok(())),
        Ok(vec![
            Act::ForgetPlaylist(playlist.clone()),
            Act::Emit(Event::PlaylistsChanged)
        ])
    );
    assert_eq!(
        playlist_changed(&PlaylistPlan::Local, &playlist, Ok(())),
        Ok(vec![Act::Emit(Event::PlaylistsChanged)])
    );
}
