use tmus::double::Double;
use tmus::eq::{eq_frequencies_hz, eq_presets, merge_equalizer, EqState};
use tmus::error::CoreError;
use tmus::model::{
    AuthStatus, LoopMode, PlaybackStatus, PlaylistId, ProviderId, Rating, StreamSource, Track,
    TrackId,
};
use tmus::paths::{BaseDirs, Paths};
use tmus::time::{Duration, SystemTime};

fn d(value: f64) -> Double {
    Double { bits: value.to_bits() }
}

fn gains(values: [f64; 10]) -> Vec<Double> {
    values.iter().map(|v| d(*v)).collect()
}

#[test]
fn mpris_loop_names_round_trip() {
    for mode in [LoopMode::Off, LoopMode::Track, LoopMode::Queue] {
        assert_eq!(LoopMode::from_mpris(mode.as_mpris()), Some(mode));
    }
    assert_eq!(LoopMode::from_mpris("Nonsense"), None);
}

#[test]
fn mpris_names_are_the_ones_of_the_bus() {
    assert_eq!(LoopMode::Off.as_mpris(), "None");
    assert_eq!(LoopMode::Track.as_mpris(), "Track");
    assert_eq!(LoopMode::Queue.as_mpris(), "Playlist");
    assert_eq!(PlaybackStatus::Playing.as_mpris(), "Playing");
    assert_eq!(PlaybackStatus::Paused.as_mpris(), "Paused");
    assert_eq!(PlaybackStatus::Stopped.as_mpris(), "Stopped");
}

#[test]
fn local_stream_never_expires() {
    let local = StreamSource::Local("/tmp/a.webm".to_owned());
    assert!(!local.is_expired(SystemTime::from_unix_secs(0)));
    assert!(local.is_local());
}

#[test]
fn remote_stream_expires_at_deadline() {
    let remote = StreamSource::Remote {
        url: "https://example/v".to_owned(),
        user_agent: None,
        expires_at: Some(SystemTime::from_unix_secs(100)),
    };
    assert!(!remote.is_expired(SystemTime::from_unix_secs(99)));
    assert!(remote.is_expired(SystemTime::from_unix_secs(100)));
    assert!(!remote.is_local());
}

#[test]
fn eq_presets_are_well_formed() {
    let presets = eq_presets();
    assert_eq!(
        eq_frequencies_hz(),
        vec![32, 64, 125, 250, 500, 1000, 2000, 4000, 8000, 16000]
    );
    assert!(presets.iter().any(|p| p.name == "Flat"), "Flat обязан существовать");

    for preset in presets.iter() {
        assert_eq!(preset.bands.len(), 10, "{}: полос не 10", preset.name);
        for gain in preset.bands.iter() {
            let gain = f64::from_bits(gain.bits);
            assert!((-15.0..=15.0).contains(&gain), "{}: {gain}", preset.name);
        }
    }

    let flat = presets.iter().find(|p| p.name == "Flat").expect("Flat");
    assert!(flat.bands.iter().all(|gain| f64::from_bits(gain.bits) == 0.0), "Flat — нули");
}

#[test]
fn a_preset_holds_its_gains() {
    let presets = eq_presets();
    let podcast = presets.iter().find(|p| p.name == "Podcast").expect("Podcast");
    assert_eq!(
        podcast.bands,
        gains([-3.0, -2.0, 0.0, 2.0, 4.0, 5.0, 4.0, 2.0, 0.0, -2.0])
    );
}

#[test]
fn eq_state_default_is_flat_and_disabled() {
    let state = EqState::default();
    assert!(!state.enabled);
    assert_eq!(state.preset, "Flat");
    assert_eq!(state.bands, gains([0.0; 10]));
}

#[test]
fn equalizer_change_is_partial() {
    let state = EqState::default();
    let on = merge_equalizer(&state, Some(true), None, None).expect("enabled");
    assert!(on.enabled);
    assert_eq!(on.preset, "Flat");
    let preset = merge_equalizer(&on, None, Some("Podcast".to_owned()), None).expect("preset");
    assert!(preset.enabled);
    assert_eq!(preset.preset, "Podcast");
    assert_eq!(f64::from_bits(preset.bands[5].bits), 5.0);
    let custom = merge_equalizer(&preset, None, None, Some(gains([1.5; 10]))).expect("bands");
    assert_eq!(custom.preset, "Custom");
    assert_eq!(custom.bands, gains([1.5; 10]));
    let again = merge_equalizer(&preset, None, None, Some(gains([0.0; 10]))).expect("bands");
    assert_eq!(again.preset, "Flat");
}

#[test]
fn equalizer_refuses_what_it_cannot_apply() {
    let state = EqState::default();
    assert!(merge_equalizer(&state, None, Some("Nope".to_owned()), None).is_err());
    assert!(merge_equalizer(&state, None, None, Some(vec![d(0.0)])).is_err());
    assert!(merge_equalizer(&state, None, None, Some(gains([15.5; 10]))).is_err());
    assert!(merge_equalizer(&state, None, None, Some(gains([f64::NAN; 10]))).is_err());
    assert!(merge_equalizer(&state, None, None, Some(gains([-15.0; 10]))).is_ok());
}

#[test]
fn an_unknown_preset_is_quoted() {
    let err = merge_equalizer(&EqState::default(), None, Some("a\"b".to_owned()), None)
        .expect_err("нет такого пресета");
    assert!(err.contains("a\\\"b"), "{err}");
}

#[test]
fn rating_is_unrated_by_default() {
    assert_eq!(Rating::default(), Rating::Unrated);
}

#[test]
fn track_ids_are_namespaced_by_provider() {
    let a = TrackId::new(ProviderId::ytmusic(), "abc");
    let b = TrackId::new(ProviderId::soundcloud(), "abc");
    assert_ne!(a, b);
    assert_eq!(a.to_string(), "ytmusic:abc");
}

#[test]
fn provider_names_are_known() {
    assert_eq!(ProviderId::from_name("local"), Some(ProviderId::local()));
    assert_eq!(ProviderId::from_name("ytmusic"), Some(ProviderId::ytmusic()));
    assert_eq!(ProviderId::from_name("soundcloud"), Some(ProviderId::soundcloud()));
    assert_eq!(ProviderId::from_name("deezer"), None);
    assert_eq!(
        PlaylistId::new(ProviderId::local(), "7").to_string(),
        "local:7"
    );
}

#[test]
fn artists_make_one_line() {
    let track = Track {
        id: TrackId::new(ProviderId::local(), "1"),
        title: "t".to_owned(),
        artists: vec!["A".to_owned(), "B".to_owned()],
        album: None,
        duration: None,
        art_url: None,
        page_url: None,
    };
    assert_eq!(track.artist_line(), "A, B");
}

#[test]
fn only_a_ready_session_is_usable() {
    assert!(AuthStatus::Ready.is_usable());
    assert!(!AuthStatus::Missing { hint: "h".to_owned() }.is_usable());
    assert!(!AuthStatus::Expired { hint: "h".to_owned() }.is_usable());
}

#[test]
fn lengths_convert() {
    assert_eq!(Duration::from_millis(225_123).as_secs(), 225);
    assert_eq!(Duration::from_millis(225_123).as_millis(), 225_123);
    assert_eq!(Duration::from_secs(2).as_micros(), 2_000_000);
    assert_eq!(Duration::from_nanos(1_500).map(|d| d.as_micros()), Some(1));
    assert_eq!(Duration::from_nanos(u128::MAX), None);
}

#[test]
fn layout_is_stable_under_a_root() {
    let paths = Paths::under("/stand");
    assert_eq!(paths.config_file(), "/stand/config/config.toml");
    assert_eq!(paths.database(), "/stand/cache/cache.sqlite");
    assert_eq!(paths.audio_dir_for("ytmusic"), "/stand/cache/audio/ytmusic");
    assert_eq!(paths.control_socket(), "/stand/run/tmus.sock");
    assert_eq!(paths.mpv_socket(), "/stand/run/tmus-mpv.sock");
    assert_eq!(paths.lock_file(), "/stand/run/tmus.lock");
}

#[test]
fn control_and_mpv_sockets_never_collide() {
    let paths = Paths::under("/stand");
    assert_ne!(paths.control_socket(), paths.mpv_socket());
}

#[test]
fn the_config_directory_is_not_created() {
    let paths = Paths::under("/stand");
    let dirs = paths.dirs_to_create();
    assert!(dirs.contains(&"/stand/cache/audio".to_owned()));
    assert!(dirs.contains(&paths.state_dir().to_owned()));
    assert!(dirs.contains(&paths.runtime_dir().to_owned()));
    assert!(!dirs.contains(&paths.config_dir().to_owned()));
}

#[test]
fn without_a_home_there_are_no_paths() {
    assert_eq!(Paths::resolve(None, None, None), Err(CoreError::NoHome));
}

#[test]
fn a_missing_runtime_directory_is_replaced_per_user() {
    let base = |state: Option<String>, runtime: Option<String>| BaseDirs {
        config: "/home/q/.config".to_owned(),
        cache: "/home/q/.cache".to_owned(),
        state,
        data_local: "/home/q/.local/share".to_owned(),
        runtime,
    };
    let with = Paths::resolve(
        Some(base(Some("/home/q/.local/state".to_owned()), Some("/run/user/1000".to_owned()))),
        None,
        None,
    )
    .expect("каталоги есть");
    assert_eq!(with.control_socket(), "/run/user/1000/tmus.sock");
    assert_eq!(with.config_file(), "/home/q/.config/tmus/config.toml");
    assert_eq!(with.state_file(), "/home/q/.local/state/tmus/state.json");
    let user = Paths::resolve(Some(base(None, None)), Some("q".to_owned()), Some("w".to_owned()))
        .expect("каталоги есть");
    assert_eq!(user.control_socket(), "/tmp/tmus-q/tmus.sock");
    assert_eq!(user.state_dir(), "/home/q/.local/share/tmus");
    let logname =
        Paths::resolve(Some(base(None, None)), None, Some("w".to_owned())).expect("каталоги есть");
    assert_eq!(logname.runtime_dir(), "/tmp/tmus-w");
    let nobody = Paths::resolve(Some(base(None, None)), None, None).expect("каталоги есть");
    assert_eq!(nobody.runtime_dir(), "/tmp/tmus-nobody");
}
