use tmus::control::{
    answer, socket_plan, BusItem, BusStep, Connection, LineStep, SocketPlan,
};
use tmus::double::Double;
use tmus::eq::EqState;
use tmus::model::{LoopMode, PlaybackStatus, ProviderId, Track, TrackId};
use tmus::orphan_sweep::{is_tmus_mpv_orphan, orphans, parse_pid, ProcessEntry};
use tmus::protocol::{Ack, Cmd, Event, Frame, Payload, PlayerState, Request, Response};
use tmus::singleton::{acquire_step, LockAttempt, LockStep};
use tmus::time::Duration;
use tmus::watcher::Watcher;

const OWN_SOCKET: &str = "--input-ipc-server=/run/user/1000/tmus-mpv.sock";
const OTHER_SOCKET: &str = "--input-ipc-server=/tmp/tmus-stand/run/tmus-mpv.sock";

fn cmdline(arg: Option<&str>) -> Vec<u8> {
    let mut parts: Vec<&str> = vec!["mpv", "--no-video"];
    if let Some(arg) = arg {
        parts.push(arg);
    }
    parts.join("\u{0}").into_bytes()
}

fn track(id: &str) -> Track {
    Track {
        id: TrackId::new(ProviderId::ytmusic(), id),
        title: id.to_owned(),
        artists: Vec::new(),
        album: None,
        duration: None,
        art_url: None,
        page_url: None,
    }
}

fn state(track: Option<Track>, status: PlaybackStatus) -> PlayerState {
    PlayerState {
        status,
        track,
        position: Some(Duration::from_secs(1)),
        duration: None,
        volume: Double { bits: 0 },
        loop_mode: LoopMode::Off,
        shuffle: false,
        queue_index: Some(0),
        queue_len: 2,
        offline: false,
        equalizer: EqState::default(),
        last_error: None,
    }
}

#[test]
fn a_stranger_with_our_socket_is_an_orphan() {
    assert!(is_tmus_mpv_orphan(
        &cmdline(Some(OWN_SOCKET)),
        "0::/user.slice/user-1000.slice/old.scope",
        "0::/user.slice/user-1000.slice/user@1000.service/app.slice/tmusd.service",
        OWN_SOCKET
    ));
}

#[test]
fn our_own_group_is_left_alone() {
    let own = "0::/user.slice/user-1000.slice/tmusd.service";
    assert!(!is_tmus_mpv_orphan(&cmdline(Some(OWN_SOCKET)), own, own, OWN_SOCKET));
}

#[test]
fn a_process_without_the_mark_is_not_ours() {
    assert!(!is_tmus_mpv_orphan(
        b"mpv\0--no-video\0",
        "0::/другой/cgroup",
        "0::/наш/cgroup",
        OWN_SOCKET
    ));
}

#[test]
fn another_runtime_is_not_swept() {
    assert!(!is_tmus_mpv_orphan(
        &cmdline(Some(OTHER_SOCKET)),
        "0::/user.slice/user-1000.slice/session.scope",
        "0::/user.slice/user-1000.slice/user@1000.service/app.slice/tmusd.service",
        OWN_SOCKET
    ));
    assert!(is_tmus_mpv_orphan(
        &cmdline(Some(OTHER_SOCKET)),
        "0::/user.slice/user-1000.slice/session.scope",
        "0::/user.slice/user-1000.slice/user@1000.service/app.slice/tmusd.service",
        OTHER_SOCKET
    ));
}

#[test]
fn the_name_of_the_socket_alone_is_no_mark() {
    assert!(!is_tmus_mpv_orphan(
        &cmdline(Some("--extra=tmus-mpv.sock")),
        "0::/a",
        "0::/b",
        OWN_SOCKET
    ));
}

#[test]
fn a_longer_argument_is_not_ours() {
    for arg in [
        "--input-ipc-server=/run/user/1000/tmus-mpv.sock.old",
        "--input-ipc-server=/run/user/1000/tmus-mpv.sock2",
        "x--input-ipc-server=/run/user/1000/tmus-mpv.sock",
    ] {
        assert!(!is_tmus_mpv_orphan(&cmdline(Some(arg)), "0::/a", "0::/b", OWN_SOCKET));
    }
}

#[test]
fn our_argument_inside_another_is_no_mark() {
    let shell = format!("sh\0-c\0mpv {OWN_SOCKET} --no-video\0");
    assert!(!is_tmus_mpv_orphan(shell.as_bytes(), "0::/a", "0::/b", OWN_SOCKET));
}

#[test]
fn our_argument_counts_wherever_it_stands() {
    for line in [
        format!("{OWN_SOCKET}\0mpv\0"),
        format!("mpv\0{OWN_SOCKET}\0--no-video\0"),
        format!("mpv\0{OWN_SOCKET}"),
        OWN_SOCKET.to_owned(),
    ] {
        assert!(is_tmus_mpv_orphan(line.as_bytes(), "0::/a", "0::/b", OWN_SOCKET));
    }
    let two = format!("mpv\0{OWN_SOCKET}");
    assert!(!is_tmus_mpv_orphan(two.as_bytes(), "0::/a", "0::/b", &two));
}

#[test]
fn orphans_are_listed_in_order() {
    let entry = |pid: u32, arg: &str, cgroup: &str| ProcessEntry {
        pid,
        cmdline: cmdline(Some(arg)),
        cgroup: cgroup.to_owned(),
    };
    let processes = vec![
        entry(1, OWN_SOCKET, "0::/own\n"),
        entry(2, OWN_SOCKET, "0::/old\n"),
        entry(3, OTHER_SOCKET, "0::/old\n"),
        entry(4, OWN_SOCKET, "0::/older\n"),
    ];
    assert_eq!(
        orphans(&processes, "0::/own", "/run/user/1000/tmus-mpv.sock"),
        vec![2, 4]
    );
    assert_eq!(parse_pid("123"), Some(123));
    assert_eq!(parse_pid("self"), None);
    assert_eq!(parse_pid("4294967296"), None);
}

#[test]
fn changes_are_told_once() {
    let mut watcher = Watcher::new();
    let first = state(Some(track("a")), PlaybackStatus::Playing);
    assert_eq!(
        watcher.look(&first, false),
        vec![
            Event::TrackChanged { track: Some(track("a")), queue_index: Some(0) },
            Event::StateChanged { state: first.clone() },
            Event::QueueChanged { len: 2, index: Some(0) },
        ]
    );
    assert_eq!(watcher.look(&first, false), Vec::new());
    assert_eq!(
        watcher.look(&first, true),
        vec![Event::Position { position: Duration::from_secs(1), duration: None }]
    );
    let paused = state(Some(track("a")), PlaybackStatus::Paused);
    assert_eq!(
        watcher.look(&paused, true),
        vec![Event::StateChanged { state: paused.clone() }]
    );
}

#[test]
fn a_connection_subscribes_once() {
    let mut connection = Connection::new();
    assert_eq!(connection.bus(BusItem::Lagged), BusStep::Ignore);
    assert_eq!(
        connection.line(Err("oops".to_owned())),
        LineStep::Answer(Response::Failure {
            id: 0,
            err: "неразобранный кадр: oops".to_owned()
        })
    );
    assert_eq!(
        connection.line(Ok(Request { id: 7, cmd: Cmd::Next })),
        LineStep::Handle { id: 7, cmd: Cmd::Next, shutdown: false }
    );
    assert_eq!(
        connection.line(Ok(Request { id: 0, cmd: Cmd::Subscribe })),
        LineStep::Subscribe(Response::Answer { id: 0, ok: Payload::Ack(Ack { done: true }) })
    );
    assert_eq!(
        connection.line(Ok(Request { id: 8, cmd: Cmd::Next })),
        LineStep::Ignore
    );
    assert_eq!(
        connection.bus(BusItem::Event(Event::PlaylistsChanged)),
        BusStep::Send(Frame::Event(Event::PlaylistsChanged))
    );
    assert_eq!(connection.bus(BusItem::Lagged), BusStep::SendState);
    assert_eq!(connection.bus(BusItem::Closed), BusStep::End);
}

#[test]
fn only_shutdown_ends_the_daemon() {
    let ok = || Payload::Ack(Ack { done: true });
    assert_eq!(answer(1, Ok(ok()), true), (Response::Answer { id: 1, ok: ok() }, true));
    assert_eq!(answer(1, Ok(ok()), false), (Response::Answer { id: 1, ok: ok() }, false));
    assert_eq!(
        answer(2, Err("no".to_owned()), true),
        (Response::Failure { id: 2, err: "no".to_owned() }, false)
    );
}

#[test]
fn a_dead_socket_is_replaced() {
    assert_eq!(socket_plan(false, false), SocketPlan::Bind);
    assert_eq!(socket_plan(true, false), SocketPlan::Replace);
    assert_eq!(socket_plan(true, true), SocketPlan::Refuse);
}

#[test]
fn the_lock_is_waited_for_until_the_deadline() {
    assert_eq!(acquire_step(LockAttempt::Taken, 9, 0), LockStep::Hold);
    assert_eq!(acquire_step(LockAttempt::Busy, 1, 2), LockStep::Wait);
    assert_eq!(acquire_step(LockAttempt::Busy, 2, 2), LockStep::Leave);
    assert_eq!(acquire_step(LockAttempt::Failed, 0, 2), LockStep::Fail);
}
