use tmus::model::{LoopMode, ProviderId, Track, TrackId};
use tmus::persist::{queue_file, queue_temp_file, restore, snapshot, Persist};
use tmus::paths::Paths;
use tmus::protocol::Event;
use tmus::queue::{Queue, XorShift};

fn track(id: &str) -> Track {
    let (provider, rest) = id.split_once(':').expect("id в формате provider:track");
    let provider = match provider {
        "ytmusic" => ProviderId::ytmusic(),
        "soundcloud" => ProviderId::soundcloud(),
        _ => ProviderId::ytmusic(),
    };
    Track {
        id: TrackId::new(provider, rest),
        title: id.to_owned(),
        artists: Vec::new(),
        album: None,
        duration: None,
        art_url: None,
        page_url: None,
    }
}

fn queue(ids: &[&str]) -> Queue {
    let mut q = Queue::new();
    for id in ids {
        q.append(track(id));
    }
    q
}

fn assert_next(q: &mut Queue, expected: &str) {
    let got = q.next().expect("трек ожидался");
    assert_eq!(got.id.id, expected);
}

fn assert_next_natural(q: &mut Queue, expected: &str) {
    let got = q.next_natural().expect("трек ожидался");
    assert_eq!(got.id.id, expected);
}

#[test]
fn next_without_loop_stops_at_end() {
    let mut q = queue(&["ytmusic:a", "ytmusic:b", "soundcloud:c"]);
    q.goto(0);
    assert_next(&mut q, "b");
    assert_next(&mut q, "c");
    assert!(q.next().is_none());
    assert_eq!(q.current_index(), Some(2));
}

#[test]
fn next_with_queue_loop_wraps_around() {
    let mut q = queue(&["ytmusic:a", "soundcloud:b"]);
    q.set_loop_mode(LoopMode::Queue);
    q.goto(1);
    assert_next(&mut q, "a");
    assert_next(&mut q, "b");
}

#[test]
fn next_with_track_loop_stays_put() {
    let mut q = queue(&["ytmusic:a", "ytmusic:b"]);
    q.set_loop_mode(LoopMode::Track);
    q.goto(1);
    assert_next_natural(&mut q, "b");
    assert_next_natural(&mut q, "b");
    assert_eq!(q.current_index(), Some(1));
}

#[test]
fn natural_advance_mid_queue_with_track_loop_repeats_current() {
    let mut q = queue(&["ytmusic:a", "ytmusic:b", "ytmusic:c"]);
    q.set_loop_mode(LoopMode::Track);
    q.goto(1);
    assert_next_natural(&mut q, "b");
    assert_eq!(q.current_index(), Some(1));
}

#[test]
fn manual_next_mid_queue_with_track_loop_advances() {
    let mut q = queue(&["ytmusic:a", "ytmusic:b", "ytmusic:c"]);
    q.set_loop_mode(LoopMode::Track);
    q.goto(0);
    assert_next(&mut q, "b");
    assert_eq!(q.current_index(), Some(1));
}

#[test]
fn manual_next_on_last_track_with_track_loop_wraps() {
    let mut q = queue(&["ytmusic:a", "ytmusic:b"]);
    q.set_loop_mode(LoopMode::Track);
    q.goto(1);
    assert_next(&mut q, "a");
    assert_eq!(q.current_index(), Some(0));
}

#[test]
fn manual_prev_on_first_track_with_track_loop_wraps_to_last() {
    let mut q = queue(&["ytmusic:a", "ytmusic:b"]);
    q.set_loop_mode(LoopMode::Track);
    q.goto(0);
    let got = q.prev().expect("трек ожидался");
    assert_eq!(got.id.id, "b");
    assert_eq!(q.current_index(), Some(1));
}

#[test]
fn peek_next_mid_queue_with_track_loop_returns_current() {
    let mut q = queue(&["ytmusic:a", "ytmusic:b", "ytmusic:c"]);
    q.set_loop_mode(LoopMode::Track);
    q.goto(1);
    assert_eq!(q.peek_next().expect("трек ожидался").id.id, "b");
}

#[test]
fn prev_moves_back() {
    let mut q = queue(&["ytmusic:a", "ytmusic:b"]);
    q.goto(1);
    let got = q.prev().expect("трек ожидался");
    assert_eq!(got.id.id, "a");
}

#[test]
fn disabling_shuffle_restores_original_order() {
    let mut q = queue(&["ytmusic:a", "ytmusic:b", "ytmusic:c", "ytmusic:d", "ytmusic:e"]);

    q.set_shuffle(true);
    // Nothing is current yet: the first step stands at the start of the order.
    let mut shuffled: Vec<String> = vec![q.next().expect("текущий").id.id.clone()];
    while let Some(t) = q.next() {
        shuffled.push(t.id.id.clone());
    }
    assert_eq!(shuffled.len(), 5, "shuffle обязан обойти все треки");
    let mut seen = shuffled.clone();
    seen.sort();
    assert_eq!(
        seen,
        ["a", "b", "c", "d", "e"],
        "обход обязан быть перестановкой, без потерь и повторов"
    );

    q.set_shuffle(false);
    q.goto(0);
    let mut restored: Vec<String> = vec![q.current().expect("текущий").id.id.clone()];
    while let Some(t) = q.next() {
        restored.push(t.id.id.clone());
    }
    assert_eq!(restored, ["a", "b", "c", "d", "e"]);
}

#[test]
fn shuffle_order_with_fixed_seed() {
    let order = XorShift::new(0x1234_5678_9ABC_DEF0).shuffle_order(5);
    let mut sorted = order.clone();
    sorted.sort();
    assert_eq!(sorted, [0, 1, 2, 3, 4], "перестановка обязана быть без потерь и повторов");
    assert_ne!(order, [0, 1, 2, 3, 4], "на этом сиде порядок обязан отличаться от исходного");
}

#[test]
fn the_generator_follows_its_shifts() {
    let mut x: u64 = 0x1234_5678_9ABC_DEF1;
    let mut rng = XorShift::new(0x1234_5678_9ABC_DEF0);
    x ^= x << 13;
    x ^= x >> 7;
    x ^= x << 17;
    assert_eq!(rng.next_u64(), x);
}

#[test]
fn shuffling_from_the_clock_keeps_every_track() {
    let mut order = XorShift::from_time().shuffle_order(6);
    order.sort();
    assert_eq!(order, [0, 1, 2, 3, 4, 5]);
}

#[test]
fn shuffle_keeps_current_track() {
    let mut q = queue(&["ytmusic:a", "ytmusic:b", "ytmusic:c", "ytmusic:d"]);
    q.goto(2);
    q.set_shuffle(true);
    assert_eq!(q.current().expect("текущий трек").id.id, "c");
    q.set_shuffle(false);
    assert_eq!(q.current().expect("текущий трек").id.id, "c");
}

#[test]
fn mixed_queue_traversal_is_provider_blind() {
    let mut q = queue(&["ytmusic:one", "soundcloud:two", "ytmusic:three"]);
    q.goto(0);
    assert_next(&mut q, "two");
    assert_next(&mut q, "three");
    assert!(q.next().is_none());

    q.set_loop_mode(LoopMode::Queue);
    assert_next(&mut q, "one");
}

#[test]
fn goto_out_of_bounds_is_noop() {
    let mut q = queue(&["ytmusic:a"]);
    assert!(!q.goto(5));
    assert!(!q.goto(usize::MAX));
    assert!(q.current().is_none(), "курсор не должен был сдвинуться");
    assert!(q.goto(0));
    assert_eq!(q.current().expect("трек").id.id, "a");
}

#[test]
fn goto_within_bounds_moves_cursor() {
    let mut q = queue(&["ytmusic:a", "ytmusic:b"]);
    assert!(q.goto(1));
    assert_eq!(q.current().expect("трек").id.id, "b");
}

#[test]
fn next_on_empty_queue_is_none() {
    let mut q = Queue::new();
    assert!(q.next().is_none());
    assert!(q.prev().is_none());
    assert_eq!(q.len(), 0);
    assert!(q.is_empty());
}

#[test]
fn shuffle_with_queue_loop_repeats_same_cycle_order() {
    let mut q = queue(&["ytmusic:a", "ytmusic:b", "ytmusic:c", "ytmusic:d", "ytmusic:e"]);
    q.set_loop_mode(LoopMode::Queue);
    q.set_shuffle(true);

    let mut first_cycle: Vec<String> = vec![q.next().expect("текущий").id.id.clone()];
    for _ in 1..q.len() {
        first_cycle.push(q.next().expect("трек").id.id.clone());
    }
    assert_eq!(first_cycle.len(), 5);
    let mut second_cycle: Vec<String> = Vec::new();
    for _ in 0..q.len() {
        second_cycle.push(q.next().expect("трек").id.id.clone());
    }
    assert_eq!(second_cycle, first_cycle, "второй цикл обязан повторить порядок первого");
}

#[test]
fn restore_without_shuffle_keeps_index_and_modes() {
    let tracks = vec![
        track("ytmusic:a"),
        track("ytmusic:b"),
        track("ytmusic:c"),
        track("ytmusic:d"),
        track("ytmusic:e"),
    ];
    let mut q = Queue::new();
    q.restore(tracks.clone(), Some(2), LoopMode::Queue, false);
    assert_eq!(q.current_index(), Some(2));
    assert_eq!(q.current().expect("текущий трек").id.id, "c");
    assert_eq!(q.loop_mode(), LoopMode::Queue);
    assert_eq!(q.len(), 5);
    assert_eq!(q.tracks(), tracks.as_slice());
    assert!(!q.shuffle());
}

#[test]
fn restore_with_shuffle_keeps_current_track() {
    let tracks = vec![
        track("ytmusic:a"),
        track("ytmusic:b"),
        track("ytmusic:c"),
        track("ytmusic:d"),
        track("ytmusic:e"),
    ];
    let mut q = Queue::new();
    q.restore(tracks, Some(2), LoopMode::Off, true);
    assert!(q.shuffle());
    assert_eq!(q.current_index(), Some(2));
    assert_eq!(q.current().expect("текущий трек").id.id, "c");
}

#[test]
fn a_restored_shuffle_is_drawn_from_its_generator() {
    let tracks = vec![
        track("ytmusic:a"),
        track("ytmusic:b"),
        track("ytmusic:c"),
        track("ytmusic:d"),
        track("ytmusic:e"),
    ];
    let order = XorShift::new(7).shuffle_order(5);
    let mut q = Queue::new();
    q.restore_with(tracks, Some(order[0]), LoopMode::Off, true, &mut XorShift::new(7));
    let mut seen = vec![q.current_index().expect("index")];
    while q.next().is_some() {
        seen.push(q.current_index().expect("index"));
    }
    assert_eq!(seen, order);
}

#[test]
fn append_after_shuffle_enabled_extends_traversal() {
    let mut q = queue(&["ytmusic:a", "ytmusic:b"]);
    q.set_shuffle(true);
    q.append(track("ytmusic:c"));
    let mut count = 0;
    while q.next().is_some() {
        count += 1;
        if count > 10 {
            panic!("обход зациклился или не покрыл очередь");
        }
    }
    assert_eq!(count, 3, "ожидались все 3 трека");
}

#[test]
fn a_skip_and_a_step_back_cancel_out() {
    let mut q = queue(&["ytmusic:a", "ytmusic:b", "ytmusic:c"]);
    q.set_loop_mode(LoopMode::Queue);
    q.goto(2);
    q.next();
    q.prev();
    assert_eq!(q.current_index(), Some(2));
}

#[test]
fn what_lies_ahead_is_what_comes() {
    let mut q = queue(&["ytmusic:a", "ytmusic:b", "ytmusic:c"]);
    q.goto(0);
    let ahead: Vec<String> = q.peek_ahead(5).iter().map(|t| t.id.id.clone()).collect();
    assert_eq!(ahead, ["b", "c"]);
    let peeked = q.peek_next().map(|t| t.id.clone());
    assert_eq!(q.next_natural().map(|t| t.id.clone()), peeked);
}

#[test]
fn tracks_are_found_by_id() {
    let q = queue(&["ytmusic:a", "soundcloud:a", "ytmusic:b"]);
    assert_eq!(q.find_index(&TrackId::new(ProviderId::soundcloud(), "a")), Some(1));
    assert_eq!(q.find_index(&TrackId::new(ProviderId::local(), "a")), None);
    assert_eq!(q.track_at(2).map(|t| t.id.id.as_str()), Some("b"));
    assert_eq!(q.track_at(3), None);
}

#[test]
fn a_new_list_replaces_the_old_one() {
    let mut q = queue(&["ytmusic:a"]);
    q.replace(vec![track("ytmusic:x"), track("ytmusic:y")], 1);
    assert_eq!(q.current().map(|t| t.id.id.as_str()), Some("y"));
    q.append_all(vec![track("ytmusic:z")]);
    assert_eq!(q.len(), 3);
    q.clear();
    assert!(q.is_empty());
    assert_eq!(q.current_index(), None);
}

#[test]
fn the_queue_survives_a_restart() {
    let mut q = queue(&["ytmusic:a", "ytmusic:b", "ytmusic:c"]);
    q.set_loop_mode(LoopMode::Track);
    q.set_shuffle(true);
    q.goto(1);
    let saved = snapshot(&q);
    let mut back = Queue::new();
    restore(&mut back, saved);
    assert_eq!(back.tracks(), q.tracks());
    assert_eq!(back.current_index(), Some(1));
    assert_eq!(back.loop_mode(), LoopMode::Track);
    assert!(back.shuffle());
}

#[test]
fn the_queue_is_written_after_changes_only() {
    let paths = Paths::under("/stand");
    assert_eq!(queue_file(&paths), "/stand/state/queue.json");
    assert_ne!(queue_temp_file(&paths), queue_file(&paths));
    let mut persist = Persist::new();
    assert!(!persist.tick());
    persist.note(&Event::QueueChanged { len: 1, index: None });
    assert!(persist.tick());
    assert!(!persist.tick());
}
