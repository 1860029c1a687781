use tmus::cache::{
    audio_path, duration_from_ms, duration_to_ms, playlist_from_row, playlist_to_row,
    playlist_track_rows, read_playlists, sanitize, to_u64, track_from_parts, track_from_row, track_to_row,
    AudioRow, AudioTable, Gc, PlaylistRow, Removal, RowError,
};
use tmus::cache_layer::cached_source;
use tmus::error::CoreError;
use tmus::model::{Playlist, PlaylistId, ProviderId, StreamSource, Track, TrackId};
use tmus::paths::Paths;
use tmus::time::Duration;

fn track(provider: ProviderId, id: &str, title: &str) -> Track {
    Track {
        id: TrackId::new(provider, id),
        title: title.to_owned(),
        artists: vec!["Артист".to_owned()],
        album: None,
        duration: None,
        art_url: None,
        page_url: None,
    }
}

fn put_audio(table: &mut AudioTable, id: &TrackId, bytes: u64, at: i64) -> String {
    let path = audio_path(&Paths::under("/stand"), id, "opus");
    table.register(id, &path, bytes, "opus", at);
    path
}

/// Evicts everything that has to go; the files are as large as on record.
fn gc(table: &mut AudioTable, limit: u64) -> (u64, Vec<String>) {
    let mut run = Gc::start(table, limit, "db").expect("gc");
    let mut gone = Vec::new();
    while let Some(row) = run.victim() {
        let row = row.clone();
        gone.push(row.id.clone());
        run.removed(table, Removal::Removed { bytes: to_u64(row.bytes) }).expect("removed");
    }
    (run.freed(), gone)
}

#[test]
fn track_survives_the_round_trip_with_all_artists() {
    let stored = Track {
        id: TrackId::new(ProviderId::ytmusic(), "vid-1"),
        title: "Название".to_owned(),
        artists: vec!["Первый".to_owned(), "Второй".to_owned(), "Третий".to_owned()],
        album: Some("Альбом".to_owned()),
        duration: Some(Duration::from_millis(225_123)),
        art_url: Some("https://art/1".to_owned()),
        page_url: Some("https://page/1".to_owned()),
    };

    let row = track_to_row(&stored);
    assert_eq!(row.artists, "[\"Первый\",\"Второй\",\"Третий\"]");
    assert_eq!(track_from_row(&row), Ok(stored));
}

#[test]
fn one_id_under_two_providers_stays_two_records() {
    let from_yt = track(ProviderId::ytmusic(), "x", "от YouTube Music");
    let from_sc = track(ProviderId::soundcloud(), "x", "от SoundCloud");
    let yt = track_to_row(&from_yt);
    let sc = track_to_row(&from_sc);
    assert_ne!((&yt.provider, &yt.id), (&sc.provider, &sc.id));
    assert_eq!(track_from_row(&yt), Ok(from_yt));
    assert_eq!(track_from_row(&sc), Ok(from_sc));
}

#[test]
fn playlist_keeps_its_order() {
    let tracks: Vec<Track> = (0..5)
        .map(|i| track(ProviderId::ytmusic(), &format!("t{i}"), &format!("Трек {i}")))
        .collect();
    let rows = playlist_track_rows(&tracks);
    let ids: Vec<&str> = rows.iter().map(|r| r.track_id.as_str()).collect();
    assert_eq!(ids, vec!["t0", "t1", "t2", "t3", "t4"]);
    let positions: Vec<i64> = rows.iter().map(|r| r.position).collect();
    assert_eq!(positions, vec![0, 1, 2, 3, 4]);

    let shorter = tracks[..2].to_vec();
    assert_eq!(playlist_track_rows(&shorter).len(), 2);
}

#[test]
fn playlists_can_be_filtered_by_provider() {
    let from_yt = Playlist {
        id: PlaylistId::new(ProviderId::ytmusic(), "LM"),
        title: "Лайки".to_owned(),
        subtitle: None,
        art_url: None,
        track_count: Some(42),
    };
    let from_sc = Playlist {
        id: PlaylistId::new(ProviderId::soundcloud(), "LM"),
        title: "Лайки".to_owned(),
        subtitle: None,
        art_url: None,
        track_count: None,
    };
    let rows = vec![playlist_to_row(&from_yt), playlist_to_row(&from_sc)];
    assert_eq!(read_playlists(&rows, None), Ok(vec![from_yt.clone(), from_sc]));
    assert_eq!(read_playlists(&rows, Some("ytmusic")), Ok(vec![from_yt]));
}

#[test]
fn a_row_of_an_unknown_source_is_an_error_where_it_is_asked_for() {
    let playlist = Playlist {
        id: PlaylistId::new(ProviderId::ytmusic(), "LM"),
        title: "Лайки".to_owned(),
        subtitle: None,
        art_url: None,
        track_count: None,
    };
    let strange = PlaylistRow { provider: "napster".to_owned(), ..playlist_to_row(&playlist) };
    let rows = vec![strange, playlist_to_row(&playlist)];
    assert!(matches!(read_playlists(&rows, None), Err(RowError::Provider(_))));
    assert_eq!(read_playlists(&rows, Some("ytmusic")), Ok(vec![playlist]));
    assert_eq!(read_playlists(&rows, Some("soundcloud")), Ok(Vec::new()));
}

#[test]
fn lookup_forgets_an_audio_file_that_disappeared() {
    let mut table = AudioTable::new();
    let id = TrackId::new(ProviderId::ytmusic(), "gone");
    let path = put_audio(&mut table, &id, 16, 100);
    assert_eq!(table.lookup_audio(&id, true, 200), Some(path));

    assert_eq!(table.lookup_audio(&id, false, 300), None);

    let stats = table.stats(u64::MAX, "db").expect("stats");
    assert_eq!(stats.tracks, 0);
    assert_eq!(stats.bytes, 0);
}

#[test]
fn lookup_makes_an_audio_file_the_freshest() {
    let mut table = AudioTable::new();
    let old = TrackId::new(ProviderId::ytmusic(), "old");
    let fresh = TrackId::new(ProviderId::ytmusic(), "fresh");
    put_audio(&mut table, &old, 6, 100);
    put_audio(&mut table, &fresh, 6, 200);

    assert!(table.lookup_audio(&old, true, 300).is_some());
    let (freed, gone) = gc(&mut table, 6);
    assert_eq!(freed, 6);
    assert_eq!(gone, vec!["fresh".to_owned()]);
    assert!(table.path_of(&old).is_some());
    assert!(table.path_of(&fresh).is_none());
}

#[test]
fn gc_evicts_the_oldest_unpinned_and_never_a_pinned() {
    let mut table = AudioTable::new();
    let pinned = TrackId::new(ProviderId::ytmusic(), "pinned");
    let middle = TrackId::new(ProviderId::ytmusic(), "middle");
    let newest = TrackId::new(ProviderId::ytmusic(), "newest");
    put_audio(&mut table, &pinned, 6, 100);
    put_audio(&mut table, &middle, 6, 200);
    put_audio(&mut table, &newest, 6, 300);
    table.set_pinned(&pinned, true);

    let (freed, gone) = gc(&mut table, 6);
    assert_eq!(freed, 6);
    assert_eq!(gone, vec!["middle".to_owned()]);
    assert!(table.path_of(&newest).is_some());
    assert!(table.path_of(&pinned).is_some(), "закреплённое не вытесняется никогда");

    assert_eq!(gc(&mut table, 6).0, 0);
    assert!(table.path_of(&pinned).is_some());
    assert!(table.path_of(&newest).is_some());

    let stats = table.stats(6, "db").expect("stats");
    assert_eq!(stats.tracks, 2);
    assert_eq!(stats.bytes, 12);
    assert_eq!(stats.limit_bytes, 6);
    assert_eq!(stats.pinned_tracks, 1);
    assert_eq!(stats.pinned_bytes, 6);
}

#[test]
fn gc_stops_at_a_file_that_cannot_be_removed() {
    let mut table = AudioTable::new();
    let id = TrackId::new(ProviderId::ytmusic(), "stuck");
    let path = put_audio(&mut table, &id, 6, 100);
    let mut run = Gc::start(&table, 0, "db").expect("gc");
    assert_eq!(
        run.removed(&mut table, Removal::Failed { error: "denied".to_owned() }),
        Err(CoreError::Cache { path, source: "denied".to_owned() })
    );
    assert_eq!(run.victim().map(|row| row.id.clone()), Some("stuck".to_owned()));
    run.removed(&mut table, Removal::Missing).expect("no file");
    assert_eq!(run.victim(), None);
    assert_eq!(run.freed(), 0);
}

#[test]
fn gc_breaks_ties_by_key() {
    let mut table = AudioTable::new();
    for id in ["c", "a", "b"] {
        put_audio(&mut table, &TrackId::new(ProviderId::ytmusic(), id), 1, 100);
    }
    let (freed, gone) = gc(&mut table, 1);
    assert_eq!(freed, 2);
    assert_eq!(gone, vec!["a".to_owned(), "b".to_owned()]);
}

#[test]
fn registering_again_keeps_the_pin() {
    let mut table = AudioTable::new();
    let id = TrackId::new(ProviderId::ytmusic(), "x");
    put_audio(&mut table, &id, 6, 100);
    table.set_pinned(&id, true);
    table.register(&id, "/new", 7, "m4a", 200);
    assert_eq!(table.rows().len(), 1);
    assert_eq!(
        table.rows()[0],
        AudioRow {
            provider: "ytmusic".to_owned(),
            id: "x".to_owned(),
            path: "/new".to_owned(),
            bytes: 7,
            ext: Some("m4a".to_owned()),
            pinned: true,
            accessed_at: 200,
        }
    );
    let copy = table.rows()[0].clone();
    table.load(copy);
    assert_eq!(table.rows().len(), 1);
}

#[test]
fn sizes_that_overflow_are_an_error() {
    let mut table = AudioTable::new();
    for id in ["a", "b"] {
        table.register(&TrackId::new(ProviderId::ytmusic(), id), id, u64::MAX, "opus", 1);
    }
    assert_eq!(table.rows()[0].bytes, i64::MAX);
    assert!(table.stats(1, "db").is_err());
    assert!(Gc::start(&table, 1, "db").is_err());
}

#[test]
fn audio_path_cannot_escape_the_cache_dir() {
    let paths = Paths::under("/stand");
    let provider_dir = paths.audio_dir_for("ytmusic");

    for hostile in ["../../etc/passwd", "/etc/passwd", "a/../../b", "..", "трек/../../x"] {
        let id = TrackId::new(ProviderId::ytmusic(), hostile);
        let path = audio_path(&paths, &id, "opus");
        let prefix = format!("{provider_dir}/");
        assert!(path.starts_with(&prefix), "{path} ушёл из {provider_dir}");
        let name = &path[prefix.len()..];
        assert!(!name.contains('/'), "{path}");
        assert_ne!(name, "..");
        assert_ne!(name, ".");
    }

    let sneaky = audio_path(&paths, &TrackId::new(ProviderId::ytmusic(), "ok"), "../../x");
    assert!(sneaky.starts_with(&format!("{provider_dir}/")), "{sneaky}");
    assert!(!sneaky[provider_dir.len() + 1..].contains('/'));
}

#[test]
fn unsafe_characters_become_underscores() {
    assert_eq!(sanitize("a/../b-c_9"), "a____b-c_9");
}

#[test]
fn a_broken_row_is_an_error() {
    let mut row = track_to_row(&track(ProviderId::ytmusic(), "x", "t"));
    row.artists = "{".to_owned();
    assert!(matches!(track_from_row(&row), Err(RowError::Artists(_))));
    assert_eq!(
        track_from_parts(&row, Ok(vec!["A".to_owned()])).map(|t| t.artists),
        Ok(vec!["A".to_owned()])
    );
    row.provider = "deezer".to_owned();
    assert_eq!(
        track_from_parts(&row, Ok(Vec::new())),
        Err(RowError::Provider(
            "провайдер deezer не объявлен в ядре (ProviderId)".to_owned()
        ))
    );
    let playlist = PlaylistRow {
        provider: "deezer".to_owned(),
        id: "1".to_owned(),
        title: "t".to_owned(),
        subtitle: None,
        art_url: None,
        track_count: Some(-1),
    };
    assert!(matches!(playlist_from_row(&playlist), Err(RowError::Provider(_))));
    let known = PlaylistRow { provider: "local".to_owned(), ..playlist };
    assert_eq!(playlist_from_row(&known).map(|p| p.track_count), Ok(None));
}

#[test]
fn lengths_are_kept_in_whole_milliseconds() {
    assert_eq!(duration_to_ms(Duration::from_secs(3)), 3_000);
    assert_eq!(duration_to_ms(Duration::from_secs(u64::MAX)), i64::MAX);
    assert_eq!(duration_from_ms(1_500), Some(Duration::from_millis(1_500)));
    assert_eq!(duration_from_ms(-1), None);
    assert_eq!(to_u64(-5), 0);
}

#[test]
fn a_file_on_record_is_played_from_the_disk() {
    assert_eq!(
        cached_source(Ok(Some("/a.opus".to_owned()))),
        Some(StreamSource::Local("/a.opus".to_owned()))
    );
    assert_eq!(cached_source(Ok(None)), None);
    assert_eq!(
        cached_source(Err(CoreError::Cache { path: "db".to_owned(), source: "x".to_owned() })),
        None
    );
}
