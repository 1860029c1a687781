use tmus::double::Double;
use tmus::eq::EqState;
use tmus::json::{Json, Number};
use tmus::model::{LoopMode, PlaybackStatus, ProviderId, StreamSource, Track, TrackId};
use tmus::mpv::{
    frame_from, header_option, load_commands, map_event, mpv_args, observe_commands, parse_frame,
    pause_command, playback_failure, request_line, response_result, secs_to_duration, set_property, Arg, IpcFrame,
    MpvError, MpvEvent, Pending, Supervision, Supervisor,
};
use tmus::player::{PlayStep, Player, PlayerAction, PlayerError};
use tmus::provider::ProviderError;
use tmus::soundcloud::api::read_body;
use tmus::time::{Duration, SystemTime};

fn json(text: &str) -> Json {
    read_body("200 OK", text.as_bytes()).expect("JSON")
}

fn remote(ua: Option<&str>) -> StreamSource {
    StreamSource::Remote {
        url: "https://example.invalid/stream".to_owned(),
        user_agent: ua.map(str::to_owned),
        expires_at: Some(SystemTime::from_unix_secs(3600)),
    }
}

fn track(id: &str) -> Track {
    Track {
        id: TrackId::new(ProviderId::ytmusic(), id),
        title: id.to_owned(),
        artists: Vec::new(),
        album: None,
        duration: None,
        art_url: None,
        page_url: None,
    }
}

fn player(ids: &[&str], at: usize) -> Player {
    let mut player = Player::new(Double { bits: 70.0_f64.to_bits() });
    let mut queue = player.take_queue();
    queue.replace(ids.iter().map(|id| track(id)).collect(), at);
    player.put_queue(queue);
    player
}

#[test]
fn args_contain_no_ytdl_and_socket() {
    let args = mpv_args("/run/user/1000/tmus-mpv.sock", &format!("{}", 80.0_f64));
    assert!(args.iter().any(|a| a == "--no-ytdl"), "аргументы: {args:?}");
    assert!(args
        .iter()
        .any(|a| a == "--input-ipc-server=/run/user/1000/tmus-mpv.sock"));
    assert!(args.iter().any(|a| a == "--volume=80"));
}

#[test]
fn local_source_gets_no_headers() {
    let source = StreamSource::Local("/tmp/a.opus".to_owned());
    assert_eq!(header_option(&source), None);
}

#[test]
fn remote_source_gets_exactly_one_user_agent() {
    let headers = header_option(&remote(Some("Mozilla/5.0"))).expect("заголовки должны быть");
    assert_eq!(headers.len(), 1);
    assert_eq!(headers[0], "User-Agent: Mozilla/5.0");
}

#[test]
fn remote_without_ua_gets_no_headers() {
    assert_eq!(header_option(&remote(None)), None);
}

#[test]
fn frame_with_request_id_is_response() {
    let frame = parse_frame(r#"{"error":"success","data":1,"request_id":7}"#)
        .expect("кадр должен разбираться");
    match frame {
        IpcFrame::Response { request_id, error, data } => {
            assert_eq!(request_id, 7);
            assert_eq!(error, "success");
            assert_eq!(data.and_then(|d| d.as_u64()), Some(1));
        }
        IpcFrame::Event { .. } => panic!("ответ распознан как событие"),
    }
}

#[test]
fn frame_without_request_id_is_event() {
    let frame = parse_frame(r#"{"event":"idle"}"#).expect("кадр должен разбираться");
    match frame {
        IpcFrame::Event { name, .. } => assert_eq!(name, "idle"),
        IpcFrame::Response { .. } => panic!("событие распознано как ответ"),
    }
}

#[test]
fn a_line_that_is_no_frame_is_skipped() {
    assert_eq!(parse_frame("not json"), None);
    assert_eq!(parse_frame(r#"{"request_id":7}"#), None);
    assert_eq!(frame_from(json("[]")), None);
}

#[test]
fn property_change_maps_to_events() {
    let pos = map_event(
        "property-change",
        &json(r#"{"event":"property-change","id":1,"name":"time-pos","data":12.5}"#),
    );
    assert_eq!(pos, Some(MpvEvent::Position { position: Duration::from_millis(12500) }));

    assert_eq!(
        map_event(
            "property-change",
            &json(r#"{"event":"property-change","id":4,"name":"eof-reached","data":false}"#)
        ),
        None
    );
    assert_eq!(
        map_event(
            "property-change",
            &json(r#"{"event":"property-change","id":4,"name":"eof-reached","data":true}"#)
        ),
        None
    );
    assert_eq!(
        map_event(
            "property-change",
            &json(r#"{"event":"property-change","id":2,"name":"duration"}"#)
        ),
        None
    );
    assert_eq!(map_event("exit", &json(r#"{"event":"exit"}"#)), None);
    assert_eq!(
        map_event(
            "property-change",
            &json(r#"{"event":"property-change","id":2,"name":"duration","data":215}"#)
        ),
        Some(MpvEvent::Duration(Duration::from_secs(215)))
    );
    assert_eq!(
        map_event(
            "property-change",
            &json(r#"{"event":"property-change","id":3,"name":"pause","data":true}"#)
        ),
        Some(MpvEvent::Paused(true))
    );
}

#[test]
fn end_file_reason_eof_maps_to_end_of_file() {
    let eof = map_event(
        "end-file",
        &json(r#"{"event":"end-file","reason":"eof","playlist_entry_id":1}"#),
    );
    assert_eq!(eof, Some(MpvEvent::EndOfFile));
}

#[test]
fn end_file_other_reasons_do_not_advance() {
    for reason in ["stop", "quit", "error", "redirect", "unknown"] {
        let event = map_event(
            "end-file",
            &json(&format!(
                r#"{{"event":"end-file","reason":"{reason}","playlist_entry_id":1}}"#
            )),
        );
        assert_eq!(event, None, "reason={reason} не должен давать EndOfFile");
    }
    assert_eq!(
        map_event("end-file", &json(r#"{"event":"end-file","playlist_entry_id":1}"#)),
        None,
        "отсутствие reason не должен давать EndOfFile"
    );
}

#[test]
fn negative_time_pos_is_ignored() {
    assert_eq!(secs_to_duration(&json("-0.5")), None);
    let nan = Json::Number(Number {
        unsigned: None,
        signed: None,
        double: Some(f64::NAN.to_bits()),
        span: None,
    });
    assert_eq!(secs_to_duration(&nan), None);
    assert_eq!(secs_to_duration(&json("0.0")), Some(Duration::from_secs(0)));
}

#[test]
fn requests_are_single_lines() {
    assert_eq!(
        request_line(&pause_command(true), 3),
        r#"{"command":["set_property","pause",true],"request_id":3}"#
    );
    let line = request_line(&set_property("x", Arg::Text("a\n\"b".to_owned())), 4);
    assert_eq!(line, r#"{"command":["set_property","x","a\n\"b"],"request_id":4}"#);
    assert_eq!(
        request_line(&set_property("volume", Arg::Literal("70.5".to_owned())), 5),
        r#"{"command":["set_property","volume",70.5],"request_id":5}"#
    );
    let observe: Vec<String> =
        observe_commands().iter().map(|args| request_line(args, 9)).collect();
    assert_eq!(
        observe[0],
        r#"{"command":["observe_property",1,"time-pos"],"request_id":9}"#
    );
}

#[test]
fn headers_go_before_the_file() {
    let commands = load_commands(&remote(Some("ua")));
    assert_eq!(commands.len(), 2);
    assert_eq!(
        request_line(&commands[0], 1),
        r#"{"command":["set_property","http-header-fields",["User-Agent: ua"]],"request_id":1}"#
    );
    assert_eq!(
        request_line(&commands[1], 2),
        r#"{"command":["loadfile","https://example.invalid/stream","replace"],"request_id":2}"#
    );
    assert_eq!(load_commands(&StreamSource::Local("/a".to_owned())).len(), 1);
}

#[test]
fn answers_find_their_command() {
    let mut pending = Pending::new();
    let first = pending.alloc_id();
    let second = pending.alloc_id();
    assert_eq!((first, second), (2, 3));
    assert!(pending.answered(first));
    assert!(!pending.answered(first));
    assert_eq!(pending.fail_pending(), vec![second]);
    assert!(!pending.answered(second));
    assert_eq!(response_result("success".to_owned(), None), Ok(None));
    assert_eq!(
        response_result("property not found".to_owned(), None),
        Err(MpvError::Command("property not found".to_owned()))
    );
}

#[test]
fn the_process_is_restarted_a_few_times() {
    let mut supervisor = Supervisor::new();
    assert_eq!(supervisor.ended(true, 0), Supervision::Stop);
    assert_eq!(
        supervisor.ended(false, 500_000_000),
        Supervision::Restart { after: 1_500_000_000 }
    );
    assert_eq!(supervisor.ended(false, 3_000_000_000), Supervision::Restart { after: 0 });
    for _ in 0..5 {
        assert_eq!(supervisor.started(false), None);
    }
    assert_eq!(supervisor.ended(false, 0), Supervision::GiveUp { attempts: 5 });
    let mut fresh = Supervisor::new();
    fresh.started(false);
    assert_eq!(fresh.started(true), Some(MpvEvent::Restarted));
    assert_eq!(fresh.ended(false, 2_000_000_000), Supervision::Restart { after: 0 });
}

#[test]
fn an_overtaken_command_does_not_load() {
    let now = SystemTime::from_unix_secs(0);
    let mut p = player(&["a", "b"], 0);
    let first = match p.resolve_and_play(&track("a").id, now) {
        PlayStep::Resolve { generation } => generation,
        PlayStep::Load { .. } => panic!("нечего играть заранее"),
    };
    let second = match p.resolve_and_play(&track("b").id, now) {
        PlayStep::Resolve { generation } => generation,
        PlayStep::Load { .. } => panic!("нечего играть заранее"),
    };
    assert!(!p.is_latest(first));
    assert!(!p.start_loading(first));
    assert_eq!(p.status(), PlaybackStatus::Stopped);
    assert!(p.start_loading(second));
    assert_eq!(p.status(), PlaybackStatus::Playing);
    assert!(!p.store_preload(first, track("b").id, remote(None)));
}

#[test]
fn a_preload_serves_once_and_while_it_lives() {
    let live = SystemTime::from_unix_secs(0);
    let dead = SystemTime::from_unix_secs(3600);
    let id = track("b").id;
    let mut p = player(&["a", "b"], 0);
    assert_eq!(p.loaded(&track("a").id, StreamSource::Local("/a".to_owned())), Some(id.clone()));
    assert!(p.store_preload(0, id.clone(), remote(None)));
    assert_eq!(
        p.resolve_and_play(&id, live),
        PlayStep::Load { generation: 1, source: remote(None) }
    );
    assert_eq!(p.resolve_and_play(&id, live), PlayStep::Resolve { generation: 2 });
    assert!(p.store_preload(2, id.clone(), remote(None)));
    assert_eq!(p.resolve_and_play(&id, dead), PlayStep::Resolve { generation: 3 });
}

#[test]
fn a_preload_does_not_outlive_the_current_track() {
    let now = SystemTime::from_unix_secs(0);
    let next = track("b").id;
    let mut p = player(&["a", "b", "c"], 0);
    p.loaded(&track("a").id, StreamSource::Local("/a".to_owned()));
    assert!(p.store_preload(0, next.clone(), remote(None)));
    assert_eq!(p.resolve_and_play(&track("c").id, now), PlayStep::Resolve { generation: 1 });
    assert!(p.start_loading(1));
    p.loaded(&track("c").id, StreamSource::Local("/c".to_owned()));
    assert_eq!(p.resolve_and_play(&next, now), PlayStep::Resolve { generation: 2 });

    let mut p = player(&["a"], 0);
    p.loaded(&track("a").id, StreamSource::Local("/a".to_owned()));
    assert!(p.store_preload(0, next.clone(), remote(None)));
    assert_eq!(p.on_event(MpvEvent::EndOfFile, false), PlayerAction::StopAndNotify);
    assert_eq!(p.resolve_and_play(&next, now), PlayStep::Resolve { generation: 1 });
}

#[test]
fn a_preload_is_kept_through_a_command_for_another_track() {
    let now = SystemTime::from_unix_secs(0);
    let next = track("b").id;
    let mut p = player(&["a", "b", "c"], 0);
    p.loaded(&track("a").id, StreamSource::Local("/a".to_owned()));
    assert!(p.store_preload(0, next.clone(), remote(None)));
    assert_eq!(p.resolve_and_play(&track("c").id, now), PlayStep::Resolve { generation: 1 });
    assert_eq!(
        p.resolve_and_play(&next, now),
        PlayStep::Load { generation: 2, source: remote(None) }
    );
}

#[test]
fn of_a_series_only_the_last_skip_counts() {
    let now = SystemTime::from_unix_secs(0);
    let mut p = player(&["a", "b", "c"], 0);
    assert_eq!(p.skip(true), Some(track("b").id));
    let first = p.skip_number();
    assert!(p.is_latest_skip(first));
    assert_eq!(p.skip(true), Some(track("c").id));
    let second = p.skip_number();
    assert!(!p.is_latest_skip(first));
    assert!(p.is_latest_skip(second));
    p.resolve_and_play(&track("a").id, now);
    assert!(!p.is_latest_skip(second));
}

#[test]
fn the_state_shows_what_plays() {
    let mut p = player(&["a", "b"], 1);
    assert_eq!(p.state().track, None);
    p.start_loading(0);
    p.loaded(&track("b").id, StreamSource::Local("/b".to_owned()));
    p.on_event(MpvEvent::Position { position: Duration::from_secs(3) }, false);
    assert_eq!(
        p.on_event(MpvEvent::Duration(Duration::from_secs(9)), false),
        PlayerAction::Notify
    );
    let state = p.state();
    assert_eq!(state.status, PlaybackStatus::Playing);
    assert_eq!(state.track, Some(track("b")));
    assert_eq!(state.queue_index, Some(1));
    assert_eq!(state.queue_len, 2);
    assert_eq!(state.position, Some(Duration::from_secs(3)));
    assert_eq!(state.duration, Some(Duration::from_secs(9)));
    assert!(state.offline);
    assert_eq!(state.equalizer, EqState::default());
    assert_eq!(state.loop_mode, LoopMode::Off);
    assert_eq!(f64::from_bits(state.volume.bits), 70.0);
}

#[test]
fn the_end_of_a_track_brings_the_next() {
    let mut p = player(&["a", "b"], 0);
    p.start_loading(0);
    p.loaded(&track("a").id, remote(None));
    assert_eq!(
        p.on_event(MpvEvent::EndOfFile, true),
        PlayerAction::Play(track("b").id)
    );
    // Between two tracks the process is idle, and that is no stop.
    assert_eq!(p.on_event(MpvEvent::Idle, true), PlayerAction::Nothing);
    p.loaded(&track("b").id, remote(None));
    assert_eq!(p.on_event(MpvEvent::Idle, false), PlayerAction::Nothing);
    assert_eq!(p.on_event(MpvEvent::EndOfFile, true), PlayerAction::StopAndNotify);
    assert_eq!(p.state().status, PlaybackStatus::Stopped);
    assert_eq!(p.state().track, None);
}

#[test]
fn idleness_outside_of_a_change_is_a_stop() {
    let mut p = player(&["a"], 0);
    p.start_loading(0);
    p.loaded(&track("a").id, remote(None));
    assert_eq!(p.on_event(MpvEvent::Idle, true), PlayerAction::Notify);
    assert_eq!(p.status(), PlaybackStatus::Stopped);
    assert_eq!(p.on_event(MpvEvent::Paused(true), false), PlayerAction::Notify);
    assert_eq!(p.status(), PlaybackStatus::Paused);
    p.on_event(MpvEvent::Paused(false), false);
    assert_eq!(p.status(), PlaybackStatus::Playing);
    p.on_event(MpvEvent::Restarted, false);
    assert_eq!(p.status(), PlaybackStatus::Stopped);
    p.on_event(MpvEvent::Paused(true), false);
    p.advance_failed();
    assert_eq!(p.status(), PlaybackStatus::Stopped);
}

#[test]
fn a_skip_moves_the_queue_at_once() {
    let mut p = player(&["a", "b"], 0);
    assert_eq!(p.skip(true), Some(track("b").id));
    assert_eq!(p.queue().current_index(), Some(1));
    assert_eq!(p.skip(true), None);
    assert_eq!(p.skip(false), Some(track("a").id));
    let eq = EqState { enabled: true, ..EqState::default() };
    p.set_equalizer(eq);
    assert!(p.equalizer().enabled);
    p.set_volume(Double { bits: 10.0_f64.to_bits() });
    assert_eq!(f64::from_bits(p.state().volume.bits), 10.0);
}

#[test]
fn a_broken_file_is_a_failure_and_its_end_is_none() {
    let failure = |line: &str| playback_failure("end-file", &json(line));
    for reason in ["eof", "stop", "quit"] {
        let line = format!(r#"{{"event":"end-file","reason":"{reason}"}}"#);
        assert_eq!(failure(&line), None, "{reason}");
    }
    assert_eq!(
        failure(r#"{"event":"end-file","reason":"error","file_error":"loading failed"}"#),
        Some("loading failed".to_owned())
    );
    assert_eq!(failure(r#"{"event":"end-file","reason":"unknown"}"#), Some("unknown".to_owned()));
    assert_eq!(failure(r#"{"event":"end-file"}"#), None);
    let idle = json(r#"{"event":"idle","reason":"error"}"#);
    assert_eq!(playback_failure("idle", &idle), None);
}

#[test]
fn a_failure_is_shown_until_the_next_track_loads() {
    let mut p = player(&["a", "b"], 0);
    assert_eq!(p.state().last_error, None);
    p.playback_failed("HTTP 403".to_owned());
    p.on_event(MpvEvent::Idle, true);
    assert_eq!(p.state().last_error.as_deref(), Some("HTTP 403"));
    let id = TrackId::new(ProviderId::ytmusic(), "b");
    p.loaded(&id, StreamSource::Local("/b".to_owned()));
    assert_eq!(p.state().last_error, None);
}

#[test]
fn errors_of_the_player_speak_for_themselves() {
    let cases = [
        (MpvError::Ipc("нет сокета".to_owned()), "mpv IPC: нет сокета"),
        (MpvError::SpawnTimeout(Duration::from_secs(5)), "сокет mpv не появился за 5s"),
        (MpvError::SpawnTimeout(Duration::from_millis(1500)), "сокет mpv не появился за 1.5s"),
        (MpvError::Closed, "соединение с mpv закрыто"),
        (MpvError::Command("property".to_owned()), "mpv ответил ошибкой: property"),
    ];
    for (error, text) in cases {
        assert_eq!(error.to_string(), text);
        assert_eq!(PlayerError::from(error).to_string(), text);
    }
    let network = PlayerError::from(ProviderError::Network("обрыв".to_owned()));
    assert_eq!(network, PlayerError::Provider(ProviderError::Network("обрыв".to_owned())));
    assert_eq!(network.to_string(), "сеть: обрыв");
}
