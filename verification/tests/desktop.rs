use tmus::double::Double;
use tmus::eq::EqState;
use tmus::model::{LoopMode, PlaybackStatus, ProviderId, Track, TrackId};
use tmus::mpris::{
    build_metadata, can_go_next, can_go_previous, length_micros, note_event, sanitize_component,
    set_position, track_object_path, MetaValue, Notice,
};
use tmus::protocol::{Event, PlayerState};
use tmus::rpc::{presence_for, Backoff, Op, UpdateGate, MIN_UPDATE_INTERVAL};
use tmus::time::Duration;
use tmus::tray::{icon_for, refreshes_icon, title_for, tooltip_body_for, SniState};

const SEC: u128 = 1_000_000_000;

fn track(id: &str, artists: Vec<String>) -> Track {
    Track {
        id: TrackId {
            provider: ProviderId::from_name("ytmusic").unwrap(),
            id: id.to_owned(),
        },
        title: "Test".to_owned(),
        artists,
        album: None,
        duration: None,
        art_url: None,
        page_url: None,
    }
}

fn sample_track() -> Track {
    Track {
        id: TrackId::new(ProviderId::ytmusic(), "abc"),
        title: "Song".to_owned(),
        artists: vec!["Artist".to_owned()],
        album: Some("Album".to_owned()),
        duration: Some(Duration::from_secs(90)),
        art_url: Some("https://example/art".to_owned()),
        page_url: None,
    }
}

fn state(track: Option<Track>, status: PlaybackStatus) -> PlayerState {
    PlayerState {
        status,
        track,
        position: Some(Duration::from_secs(30)),
        duration: Some(Duration::from_secs(90)),
        volume: Double { bits: 0 },
        loop_mode: LoopMode::Off,
        shuffle: false,
        queue_index: Some(0),
        queue_len: 2,
        offline: false,
        equalizer: EqState::default(),
        last_error: None,
    }
}

fn value<'a>(md: &'a [(String, MetaValue)], key: &str) -> Option<&'a MetaValue> {
    md.iter().find(|(k, _)| k == key).map(|(_, v)| v)
}

#[test]
fn track_id_with_dashes_and_dots_becomes_valid_object_path() {
    let t = track("abc-DEF_12.3/x", vec!["A".to_owned()]);
    let raw = track_object_path(Some(&t));
    assert_eq!(raw, "/tmus/track/ytmusic/abc_DEF_12_3_x");
    zbus::zvariant::ObjectPath::try_from(raw.as_str()).unwrap();
    assert_eq!(sanitize_component("a.b"), "a_b");
}

#[test]
fn no_track_gives_notrack_path() {
    assert_eq!(
        track_object_path(None),
        "/org/mpris/MediaPlayer2/TrackList/NoTrack"
    );
}

#[test]
fn length_is_micros() {
    assert_eq!(length_micros(Duration::from_millis(3_500)), 3_500_000);
    assert_eq!(length_micros(Duration::from_millis(250)), 250_000);
    assert_eq!(length_micros(Duration::from_secs(u64::MAX)), i64::MAX);
}

#[test]
fn metadata_artist_is_array_and_absent_when_none() {
    let one = build_metadata(&track("t", vec!["Abba".to_owned()]));
    assert_eq!(
        value(&one, "xesam:artist"),
        Some(&MetaValue::List(vec!["Abba".to_owned()]))
    );

    let none = build_metadata(&track("t", vec![]));
    assert_eq!(value(&none, "xesam:artist"), None);
    assert!(value(&none, "mpris:trackid").is_some());
    assert!(value(&none, "xesam:title").is_some());
}

#[test]
fn metadata_optional_fields_appear_only_when_present() {
    let mut t = track("t", vec![]);
    t.duration = Some(Duration::from_secs(200));
    let md = build_metadata(&t);
    assert_eq!(
        value(&md, "mpris:length"),
        Some(&MetaValue::Number(200_000_000)),
        "длительность обязана быть в микросекундах"
    );
    assert_eq!(value(&md, "xesam:album"), None);
    assert_eq!(value(&md, "xesam:url"), None);
    assert_eq!(value(&md, "mpris:artUrl"), None);
}

#[test]
fn loop_mode_roundtrips_through_mpris_names() {
    for mode in [LoopMode::Off, LoopMode::Track, LoopMode::Queue] {
        assert_eq!(LoopMode::from_mpris(mode.as_mpris()), Some(mode));
    }
    assert_eq!(LoopMode::Queue.as_mpris(), "Playlist");
    assert_eq!(LoopMode::from_mpris("One"), None);
}

#[test]
fn artist_array_elements_are_strings() {
    let md = build_metadata(&track("t", vec!["A".to_owned(), "B".to_owned()]));
    match value(&md, "xesam:artist") {
        Some(MetaValue::List(a)) => {
            assert_eq!(a.len(), 2);
            assert_eq!(a[0], "A");
            assert_eq!(a[1], "B");
        }
        other => panic!("xesam:artist не массив: {other:?}"),
    }
}

#[test]
fn the_queue_tells_where_one_can_go() {
    let mut s = state(None, PlaybackStatus::Playing);
    assert!(can_go_next(&s));
    assert!(!can_go_previous(&s));
    s.queue_index = Some(1);
    assert!(!can_go_next(&s));
    assert!(can_go_previous(&s));
    s.queue_index = None;
    assert!(!can_go_next(&s));
}

#[test]
fn a_position_is_for_the_track_that_it_names() {
    let s = state(Some(sample_track()), PlaybackStatus::Playing);
    let path = track_object_path(s.track.as_ref());
    assert_eq!(set_position(&s, &path, 2_000_000), Some(Duration::from_secs(2)));
    assert_eq!(set_position(&s, &path, -5), Some(Duration::from_secs(0)));
    assert_eq!(set_position(&s, "/tmus/track/ytmusic/other", 2_000_000), None);
}

#[test]
fn shells_are_told_of_changes() {
    let mut known = state(None, PlaybackStatus::Stopped);
    let fresh = state(Some(sample_track()), PlaybackStatus::Playing);
    let changed = Event::TrackChanged { track: Some(sample_track()), queue_index: Some(0) };
    assert_eq!(
        note_event(&mut known, &changed, fresh.clone()),
        Notice::Seeked { position: 30_000_000 }
    );
    assert_eq!(known, fresh);
    let moved = Event::Position { position: Duration::from_secs(31), duration: None };
    assert_eq!(note_event(&mut known, &moved, fresh.clone()), Notice::Nothing);
    assert_eq!(known.position, Some(Duration::from_secs(31)));
    assert_eq!(known.duration, Some(Duration::from_secs(90)));
    let paused = Event::StateChanged {
        state: state(Some(sample_track()), PlaybackStatus::Paused),
    };
    assert_eq!(note_event(&mut known, &paused, fresh), Notice::Properties);
    assert_eq!(known.status, PlaybackStatus::Paused);
}

#[test]
fn timestamps_span_the_track() {
    let p = presence_for(
        &sample_track(),
        Duration::from_secs(30),
        Some(Duration::from_secs(90)),
        1_000_000,
    );
    let start = p.start_ms.expect("start");
    let end = p.end_ms.expect("end");
    assert_eq!(start, 1_000_000 - 30_000);
    assert_eq!(end - start, 90_000);
}

#[test]
fn without_duration_end_is_absent() {
    let mut track = sample_track();
    track.duration = None;
    let p = presence_for(&track, Duration::from_secs(10), None, 1_000_000);
    assert!(p.end_ms.is_none());
    assert!(p.start_ms.is_some());
}

#[test]
fn empty_artists_leave_state_absent() {
    let mut track = sample_track();
    track.artists.clear();
    let p = presence_for(&track, Duration::from_secs(0), None, 0);
    assert!(p.state.is_none());
    assert_eq!(p.details, "Song");
}

#[test]
fn gate_drops_rapid_updates_but_allows_track_change() {
    let mut gate = UpdateGate::default();
    let id_a = TrackId::new(ProviderId::ytmusic(), "a");
    let id_b = TrackId::new(ProviderId::soundcloud(), "b");
    let t0: u128 = 100 * SEC;
    assert!(gate.allows(Some(&id_a), t0));
    assert!(!gate.allows(Some(&id_a), t0 + SEC));
    assert!(gate.allows(Some(&id_b), t0 + 2 * SEC));
    assert!(gate.allows(Some(&id_b), t0 + 2 * SEC + MIN_UPDATE_INTERVAL));
}

#[test]
fn only_what_plays_is_shown() {
    let mut gate = UpdateGate::default();
    let playing = state(Some(sample_track()), PlaybackStatus::Playing);
    let paused = state(Some(sample_track()), PlaybackStatus::Paused);
    let event = Event::StateChanged { state: playing.clone() };
    let tick = Event::Position { position: Duration::from_secs(1), duration: None };
    assert_eq!(gate.presence_step(&tick, &playing, SEC, 1_000_000), None);
    match gate.presence_step(&event, &playing, SEC, 1_000_000) {
        Some(Op::Show(p)) => assert_eq!(p.start_ms, Some(970_000)),
        other => panic!("{other:?}"),
    }
    assert_eq!(gate.presence_step(&event, &playing, 2 * SEC, 1_001_000), None);
    assert_eq!(gate.presence_step(&event, &paused, 3 * SEC, 1_002_000), Some(Op::Clear));
    // A pause opens the way for the same track.
    assert!(matches!(
        gate.presence_step(&event, &playing, 4 * SEC, 1_003_000),
        Some(Op::Show(_))
    ));
    gate.reset();
    assert_eq!(
        gate.presence_step(&event, &state(None, PlaybackStatus::Playing), 5 * SEC, 0),
        Some(Op::Clear)
    );
}

#[test]
fn pauses_between_connections_double_up_to_a_minute() {
    let mut backoff = Backoff::new();
    let pauses: Vec<u64> = (0..6).map(|_| backoff.failed()).collect();
    assert_eq!(pauses, vec![5, 10, 20, 40, 60, 60]);
    backoff.connected();
    assert_eq!(backoff.failed(), 5);
}

#[test]
fn icon_matches_all_statuses() {
    assert_eq!(icon_for(PlaybackStatus::Playing), "media-playback-start");
    assert_eq!(icon_for(PlaybackStatus::Paused), "media-playback-pause");
    assert_eq!(icon_for(PlaybackStatus::Stopped), "multimedia-player");
}

#[test]
fn tooltip_body_combines_artist_and_album() {
    let mut track = Track {
        id: TrackId::new(ProviderId::ytmusic(), "abc"),
        title: "Song".to_owned(),
        artists: vec!["A".to_owned()],
        album: Some("Album".to_owned()),
        duration: None,
        art_url: None,
        page_url: None,
    };
    assert_eq!(tooltip_body_for(Some(&track)), "A — Album");
    track.album = None;
    assert_eq!(tooltip_body_for(Some(&track)), "A");
    track.artists.clear();
    track.album = Some("Album".to_owned());
    assert_eq!(tooltip_body_for(Some(&track)), "Album");
    assert_eq!(tooltip_body_for(None), "");
}

#[test]
fn title_falls_back_to_daemon_name() {
    assert_eq!(title_for(None), "tmus");
}

#[test]
fn the_icon_shows_the_track() {
    let shown = SniState::from_track(Some(&sample_track()), PlaybackStatus::Paused);
    assert_eq!(shown.title, "Song");
    assert_eq!(shown.icon, "media-playback-pause");
    assert_eq!(shown.tip_title, "Song");
    assert_eq!(shown.tip_body, "Artist — Album");
    assert!(refreshes_icon(&Event::TrackChanged { track: None, queue_index: None }));
    assert!(!refreshes_icon(&Event::PlaylistsChanged));
}
