use tmus::double::Double;
use tmus::filler::{
    clen_from_url, clen_of, fetch_plan, next_delay, plain_answer, range_answer, range_header,
    relevance_snapshot, should_emit, still_wanted, wanted_tracks, warm_list, Download, FetchOutcome,
    FetchPlan, Filler, NextBody, Opening, RetryState, Warming, PROGRESS_INTERVAL, RANGE_CHUNK,
    RELEVANCE_INTERVAL,
};
use tmus::model::{ProviderId, StreamSource, Track, TrackId};
use tmus::paths::Paths;
use tmus::player::Player;
use tmus::protocol::Event;
use tmus::time::{Duration, SystemTime};

const SEC: u128 = 1_000_000_000;

fn id(s: &str) -> TrackId {
    TrackId::new(ProviderId::ytmusic(), s)
}

fn track(s: &str) -> Track {
    Track {
        id: id(s),
        title: s.to_owned(),
        artists: Vec::new(),
        album: None,
        duration: None,
        art_url: None,
        page_url: None,
    }
}

fn remote(deadline: u64) -> StreamSource {
    StreamSource::Remote {
        url: "https://x/v".to_owned(),
        user_agent: Some("ua".to_owned()),
        expires_at: Some(SystemTime::from_unix_secs(deadline)),
    }
}

#[test]
fn interval_boundary_and_final_frame() {
    let t0: u128 = 10 * SEC;
    assert!(!should_emit(t0, t0 + PROGRESS_INTERVAL - 1_000_000, false));
    assert!(should_emit(t0, t0 + PROGRESS_INTERVAL, false));
    assert!(should_emit(t0, t0, true));
}

#[test]
fn current_track_is_wanted() {
    let cur = id("cur");
    assert!(still_wanted(&cur, Some(&cur), &[]));
}

#[test]
fn track_two_ahead_is_wanted() {
    let ahead = vec![id("next"), id("next2"), id("next3")];
    let target = id("next2");
    assert!(still_wanted(&target, Some(&id("cur")), &ahead));
}

#[test]
fn unrelated_track_is_not_wanted() {
    let ahead = vec![id("next"), id("next2")];
    let stranger = id("stranger");
    assert!(!still_wanted(&stranger, Some(&id("cur")), &ahead));
}

#[test]
fn empty_player_is_not_wanted() {
    let target = id("cur");
    assert!(!still_wanted(&target, None, &[]));
}

#[test]
fn what_is_fetched_is_wanted() {
    let mut player = Player::new(Double { bits: 0 });
    let mut queue = player.take_queue();
    queue.replace(["a", "b", "c", "d", "e"].iter().map(|s| track(s)).collect(), 0);
    player.put_queue(queue);
    player.loaded(&id("a"), remote(100));
    let wanted = wanted_tracks(&player);
    assert_eq!(wanted, vec![id("a"), id("b"), id("c"), id("d")]);
    let (current, ahead) = relevance_snapshot(&player);
    for w in wanted.iter() {
        assert!(still_wanted(w, current.as_ref(), &ahead));
    }
    assert!(!still_wanted(&id("e"), current.as_ref(), &ahead));
}

#[test]
fn delay_ladder_matches_recorded_scale() {
    assert_eq!(next_delay(0), Duration::from_secs(0));
    assert_eq!(next_delay(1), Duration::from_secs(60));
    assert_eq!(next_delay(2), Duration::from_secs(5 * 60));
    assert_eq!(next_delay(3), Duration::from_secs(15 * 60));
    assert_eq!(next_delay(4), Duration::from_secs(60 * 60));
    assert_eq!(next_delay(10), Duration::from_secs(60 * 60));
}

#[test]
fn cooldown_blocks_until_retry_after() {
    let now: u128 = 10 * SEC;
    let mut state = RetryState::default();
    assert!(!state.in_cooldown(now), "без неудач кулдауна нет");
    state.record_failure(now);
    assert!(state.in_cooldown(now + SEC));
    assert!(
        !state.in_cooldown(now + next_delay(1).as_nanos()),
        "после retry_after кулдаун истёк"
    );
}

#[test]
fn success_resets_series() {
    let now: u128 = 10 * SEC;
    let mut state = RetryState::default();
    state.record_failure(now);
    state.record_failure(now);
    assert!(state.in_cooldown(now));
    state.record_success();
    assert!(!state.in_cooldown(now), "успех снимает кулдаун");
    state.record_failure(now);
    assert_eq!(next_delay(state.failures), Duration::from_secs(60));
}

#[test]
fn escalation_flags_only_level_changes() {
    let now: u128 = 10 * SEC;
    let mut state = RetryState::default();
    for attempt in 1..=6 {
        let escalated = state.record_failure(now);
        assert_eq!(escalated, (1..=4).contains(&attempt), "attempt={attempt}");
    }
}

#[test]
fn clen_is_parsed_from_query() {
    assert_eq!(
        clen_from_url(
            "https://rr1---sn.example.googlevideo.com/videoplayback?id=x&clen=1234567&expire=42"
        ),
        Some(1_234_567)
    );
    assert_eq!(clen_from_url("https://example.com/videoplayback?id=x"), None, "clen нет");
    assert_eq!(
        clen_from_url("https://example.com/videoplayback?clen=garbage"),
        None,
        "clen-мусор"
    );
    assert_eq!(clen_from_url("не url вовсе"), None);
    assert_eq!(clen_from_url("https://example.com/v?c%6cen=7"), Some(7));
    let pairs = vec![
        ("clen".to_owned(), "x".to_owned()),
        ("clen".to_owned(), "5".to_owned()),
    ];
    assert_eq!(clen_of(&pairs), None);
}

#[test]
fn failures_are_kept_per_track() {
    let mut filler = Filler::new();
    let (a, b) = (id("a"), id("b"));
    assert!(filler.wants(&a, Some(false), SEC));
    assert!(!filler.wants(&a, Some(true), SEC));
    assert!(!filler.wants(&a, None, SEC));
    assert!(filler.record(&a, FetchOutcome::Failed, SEC));
    assert!(!filler.wants(&a, Some(false), 2 * SEC));
    assert!(filler.wants(&b, Some(false), 2 * SEC));
    assert!(filler.wants(&a, Some(false), 61 * SEC));
    filler.record(&a, FetchOutcome::Done, 61 * SEC);
    assert_eq!(filler.state_of(&a).failures, 0);
    filler.record(&a, FetchOutcome::Unplayable, 61 * SEC);
    assert!(!filler.wants(&a, Some(false), 9_999_999 * SEC));
}

#[test]
fn every_twelfth_turn_cuts_the_log() {
    let mut filler = Filler::new();
    let cut: Vec<usize> = (1..=24).filter(|_| filler.turn()).collect();
    assert_eq!(cut, vec![12, 24]);
}

#[test]
fn a_download_is_planned_beside_its_target() {
    let paths = Paths::under("/stand");
    let now = SystemTime::from_unix_secs(50);
    assert_eq!(
        fetch_plan(&paths, &id("a"), StreamSource::Local("/x".to_owned()), now),
        FetchPlan::AtHand
    );
    assert_eq!(fetch_plan(&paths, &id("a"), remote(50), now), FetchPlan::Expired);
    assert_eq!(
        fetch_plan(&paths, &id("a"), remote(51), now),
        FetchPlan::Download {
            url: "https://x/v".to_owned(),
            user_agent: Some("ua".to_owned()),
            target: "/stand/cache/audio/ytmusic/a.webm".to_owned(),
            partial: "/stand/cache/audio/ytmusic/a.webm.part".to_owned(),
        }
    );
}

#[test]
fn answers_open_a_download() {
    assert_eq!(plain_answer(403, None, Some(1)), Opening::TryRange);
    assert_eq!(plain_answer(500, None, None), Opening::Refused);
    assert_eq!(plain_answer(200, Some(7), Some(8)), Opening::Whole { expected: Some(7) });
    assert_eq!(plain_answer(200, None, Some(8)), Opening::Whole { expected: Some(8) });
    assert_eq!(range_answer(206, Some(7), Some(8)), Opening::Ranged { expected: Some(7) });
    assert_eq!(range_answer(206, None, Some(8)), Opening::Ranged { expected: None });
    assert_eq!(range_answer(200, None, Some(8)), Opening::Whole { expected: Some(8) });
    assert_eq!(range_answer(403, None, None), Opening::Refused);
    assert_eq!(range_header(0, RANGE_CHUNK - 1), "bytes=0-1048575");
}

#[test]
fn ranges_reach_the_size() {
    let total = RANGE_CHUNK + 10;
    let mut d = Download::new(&id("a"), Some(total), true, false, 0);
    assert!(d.chunk(RANGE_CHUNK, 1).report.is_some());
    assert_eq!(
        d.body_ended(),
        NextBody::Range { start: RANGE_CHUNK, end: total - 1 }
    );
    assert!(d.chunk(10, 2).report.is_none());
    assert_eq!(d.body_ended(), NextBody::Finished);
    assert_eq!(d.written(), total);
    assert_eq!(
        d.finish(),
        Ok(Event::CacheProgress { track: id("a"), bytes: total, total: Some(total) })
    );
}

#[test]
fn a_short_range_of_unknown_size_is_the_last() {
    let mut d = Download::new(&id("a"), None, true, false, 0);
    d.chunk(RANGE_CHUNK, 1);
    assert_eq!(
        d.body_ended(),
        NextBody::Range { start: RANGE_CHUNK, end: 2 * RANGE_CHUNK - 1 }
    );
    d.chunk(5, 2);
    assert_eq!(d.body_ended(), NextBody::Finished);
    assert!(d.finish().is_ok());
}

#[test]
fn a_file_of_the_wrong_size_does_not_count() {
    let mut d = Download::new(&id("a"), Some(10), false, false, 0);
    let step = d.chunk(4, RELEVANCE_INTERVAL);
    assert!(step.check);
    assert!(!d.chunk(0, RELEVANCE_INTERVAL + 1).check);
    assert_eq!(d.body_ended(), NextBody::Finished);
    assert_eq!(d.finish(), Err("размер не совпал: скачано 4 из 10".to_owned()));
}

#[test]
fn a_track_that_was_asked_for_is_not_given_up() {
    let mut d = Download::new(&id("a"), Some(10), false, true, 0);
    assert!(!d.chunk(4, RELEVANCE_INTERVAL).check);
    assert!(!d.chunk(6, 10 * RELEVANCE_INTERVAL).check);
    assert!(d.finish().is_ok());
}

#[test]
fn reports_keep_their_distance() {
    let mut d = Download::new(&id("a"), None, false, false, 0);
    assert!(d.chunk(1, 0).report.is_some());
    assert!(d.chunk(1, PROGRESS_INTERVAL - 1).report.is_none());
    assert!(d.chunk(1, PROGRESS_INTERVAL).report.is_some());
}

#[test]
fn warming_takes_each_track_once() {
    let list = vec![id("a"), id("b"), id("a"), id("c"), id("b")];
    assert_eq!(warm_list(&list), vec![id("a"), id("b"), id("c")]);
}

#[test]
fn warming_goes_on_after_a_failure() {
    let list = vec![id("a"), id("b"), id("a"), id("c"), id("d")];
    let mut warming = Warming::new(&list);
    assert_eq!(warming.total(), 4);
    assert_eq!(warming.current(), Some(&id("a")));
    assert!(!warming.look(Some(true)));
    assert_eq!(warming.current(), Some(&id("b")));
    assert!(warming.look(Some(false)));
    assert_eq!(warming.current(), Some(&id("b")));
    warming.fetched(false);
    assert_eq!(warming.current(), Some(&id("c")));
    assert!(!warming.look(None));
    assert_eq!(warming.current(), Some(&id("d")));
    assert!(warming.look(Some(false)));
    warming.fetched(true);
    assert_eq!(warming.current(), None);
    assert_eq!(warming.done(), 1);
}
