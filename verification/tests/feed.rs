use tmus::catalog::{
    gather, library_plan, liked_missing, liked_order, local_add, local_remove_position,
    merge_library, merge_liked, mirror_outcome, needs_known_playlists, not_connected_text,
    page_plan, playlist_create, playlist_is_fresh, playlist_plan, playlist_remove_at,
    playlist_rename, refreshed, report_auth, resolve_catalog_source, stored_after, targets,
    tracks_of, AuthRetries, LibraryPlan, PagePlan, PageReader, PlaylistPlan, TracksPage,
};
use tmus::double::Double;
use tmus::home::{
    cards_of, collect_home, merge_home_pages, more_answer, search_result_key, HomeFeed, HomePage,
};
use tmus::model::{
    AuthStatus, CatalogShelf, Playlist, PlaylistId, ProviderId, SearchResult, Track, TrackId,
};
use tmus::player::Player;
use tmus::protocol::{CatalogSource, Event};
use tmus::provider::{ProviderError, Registry};
use tmus::radio::{has_id, Radio, RadioPage, RadioStep, RefillJob};

const SEC: u128 = 1_000_000_000;

fn id(s: &str) -> TrackId {
    TrackId::new(ProviderId::ytmusic(), s)
}

fn track(s: &str) -> Track {
    Track {
        id: id(s),
        title: s.to_owned(),
        artists: Vec::new(),
        album: None,
        duration: None,
        art_url: None,
        page_url: None,
    }
}

fn tracks(ids: &[&str]) -> Vec<Track> {
    ids.iter().map(|s| track(s)).collect()
}

fn ids(tracks: &[Track]) -> Vec<&str> {
    tracks.iter().map(|t| t.id.id.as_str()).collect()
}

fn playlist(provider: ProviderId, s: &str) -> Playlist {
    Playlist {
        id: PlaylistId::new(provider, s),
        title: s.to_owned(),
        subtitle: None,
        art_url: None,
        track_count: None,
    }
}

fn registry() -> Registry<()> {
    let mut r = Registry::new();
    r.insert(ProviderId::ytmusic(), ());
    r.insert(ProviderId::soundcloud(), ());
    r
}

fn shelf(title: &str, items: &[&str]) -> CatalogShelf {
    CatalogShelf {
        title: title.to_owned(),
        subtitle: None,
        items: items.iter().map(|s| SearchResult::Track(track(s))).collect(),
    }
}

fn home(shelves: Vec<CatalogShelf>, next: Option<&str>) -> HomePage {
    HomePage { shelves, next: next.map(str::to_owned) }
}

fn network() -> ProviderError {
    ProviderError::Network("x".to_owned())
}

fn unsupported() -> ProviderError {
    ProviderError::Unsupported { provider: ProviderId::soundcloud(), what: "лента" }
}

#[test]
fn saved_provider_is_kept() {
    let saved = CatalogSource { provider: Some("soundcloud".to_owned()) };
    assert_eq!(
        resolve_catalog_source(
            Some(&saved),
            vec!["ytmusic".to_owned(), "soundcloud".to_owned()]
        ),
        saved
    );
}

#[test]
fn invalid_saved_provider_falls_back_to_all() {
    let saved = CatalogSource { provider: Some("spotify".to_owned()) };
    assert_eq!(
        resolve_catalog_source(
            Some(&saved),
            vec!["ytmusic".to_owned(), "soundcloud".to_owned()]
        ),
        CatalogSource { provider: None }
    );
}

#[test]
fn saved_all_is_kept() {
    let saved = CatalogSource { provider: None };
    assert_eq!(
        resolve_catalog_source(Some(&saved), vec!["ytmusic".to_owned()]),
        CatalogSource { provider: None }
    );
}

#[test]
fn no_saved_source_is_all() {
    assert_eq!(
        resolve_catalog_source(None, Vec::new()),
        CatalogSource { provider: None }
    );
    assert_eq!(
        resolve_catalog_source(None, vec!["soundcloud".to_owned()]),
        CatalogSource { provider: None }
    );
}

#[test]
fn commands_go_to_connected_sources() {
    let r = registry();
    assert_eq!(targets(&r, None), Ok(vec!["soundcloud".to_owned(), "ytmusic".to_owned()]));
    assert_eq!(targets(&r, Some("ytmusic")), Ok(vec!["ytmusic".to_owned()]));
    assert_eq!(targets(&r, Some("spotify")), Err(not_connected_text("spotify")));
    assert_eq!(not_connected_text("spotify"), "провайдер spotify не подключён");
}

#[test]
fn a_failing_source_does_not_spoil_the_others() {
    let (all, failed) = gather(vec![
        ("a".to_owned(), Ok(vec![1, 2])),
        ("b".to_owned(), Err(network())),
        ("c".to_owned(), Ok(vec![3])),
    ]);
    assert_eq!(all, vec![1, 2, 3]);
    assert_eq!(failed, vec![("b".to_owned(), network())]);
    let found = vec![
        SearchResult::Track(track("a")),
        SearchResult::Playlist(playlist(ProviderId::local(), "p")),
    ];
    assert_eq!(tracks_of(&found), tracks(&["a"]));
}

#[test]
fn the_library_holds_local_playlists_first() {
    let r = registry();
    assert_eq!(library_plan(&r, Some("local")), Ok(LibraryPlan::Local));
    assert_eq!(
        library_plan(&r, None),
        Ok(LibraryPlan::Remote {
            with_local: true,
            targets: vec!["soundcloud".to_owned(), "ytmusic".to_owned()]
        })
    );
    assert_eq!(
        library_plan(&r, Some("ytmusic")),
        Ok(LibraryPlan::Remote { with_local: false, targets: vec!["ytmusic".to_owned()] })
    );
    assert!(library_plan(&r, Some("spotify")).is_err());
    let local = playlist(ProviderId::local(), "1");
    let remote = playlist(ProviderId::ytmusic(), "2");
    let cached = playlist(ProviderId::ytmusic(), "3");
    assert!(needs_known_playlists(&Vec::new()));
    assert_eq!(
        merge_library(vec![local.clone()], vec![remote.clone()], vec![cached.clone()]),
        vec![local.clone(), remote]
    );
    assert_eq!(
        merge_library(vec![local.clone()], Vec::new(), vec![cached.clone()]),
        vec![local, cached]
    );
}

#[test]
fn playlists_lead_to_their_source() {
    let r = registry();
    assert_eq!(
        playlist_plan(&r, &PlaylistId::new(ProviderId::local(), "1")),
        Ok(PlaylistPlan::Local)
    );
    assert_eq!(
        playlist_plan(&r, &PlaylistId::new(ProviderId::ytmusic(), "1")),
        Ok(PlaylistPlan::Source("ytmusic".to_owned()))
    );
    let mut empty: Registry<()> = Registry::new();
    assert!(playlist_plan(&empty, &PlaylistId::new(ProviderId::ytmusic(), "1")).is_err());
    assert_eq!(playlist_create(&empty, None), Ok(PlaylistPlan::Local));
    assert_eq!(playlist_create(&empty, Some("local")), Ok(PlaylistPlan::Local));
    assert!(playlist_create(&empty, Some("ytmusic")).is_err());
    empty.insert(ProviderId::ytmusic(), ());
    assert_eq!(
        playlist_create(&empty, Some("ytmusic")),
        Ok(PlaylistPlan::Source("ytmusic".to_owned()))
    );
    assert_eq!(playlist_rename(&PlaylistId::new(ProviderId::local(), "1")), Ok(()));
    assert!(playlist_rename(&PlaylistId::new(ProviderId::ytmusic(), "1")).is_err());
    assert_eq!(playlist_remove_at(&PlaylistId::new(ProviderId::local(), "1")), Ok(()));
    assert!(playlist_remove_at(&PlaylistId::new(ProviderId::ytmusic(), "1")).is_err());
}

#[test]
fn a_local_playlist_takes_known_tracks() {
    assert_eq!(local_add(&id("a"), true), Ok(()));
    assert!(local_add(&id("a"), false).is_err());
    let list = PlaylistId::new(ProviderId::local(), "1");
    let held = tracks(&["a", "b", "a"]);
    assert_eq!(local_remove_position(&list, &held, &id("b")), Ok(1));
    assert!(local_remove_position(&list, &held, &id("z")).is_err());
}

#[test]
fn stored_tracks_are_fresh_for_ten_minutes() {
    assert!(playlist_is_fresh(Some(1_000), 1_599));
    assert!(!playlist_is_fresh(Some(1_000), 1_600));
    assert!(!playlist_is_fresh(None, 0));
}

#[test]
fn pages_are_read_up_to_a_limit() {
    let mut reader = PageReader::new();
    let mut asked = 0;
    while reader.wants_more() {
        assert_eq!(reader.cursor(), if asked == 0 { None } else { Some("c") });
        reader.take(Ok(TracksPage {
            tracks: tracks(&[&format!("{asked}")]),
            next: Some("c".to_owned()),
        }));
        asked += 1;
    }
    assert_eq!(asked, 10);
    let page = reader.finish().expect("страницы");
    assert_eq!(page.tracks.len(), 10);
    assert_eq!(page.next.as_deref(), Some("c"));
    assert_eq!(stored_after(5, &page), 15);
}

#[test]
fn the_next_page_needs_a_cursor() {
    let r = registry();
    let list = PlaylistId::new(ProviderId::ytmusic(), "1");
    assert_eq!(page_plan(&r, &list, None), Ok(PagePlan::Done));
    assert_eq!(
        page_plan(&r, &list, Some("c".to_owned())),
        Ok(PagePlan::Fetch { provider: "ytmusic".to_owned(), cursor: "c".to_owned() })
    );
    let empty: Registry<()> = Registry::new();
    assert!(page_plan(&empty, &list, Some("c".to_owned())).is_err());
}

#[test]
fn what_is_liked_comes_once() {
    let local = tracks(&["a", "b"]);
    let found = tracks(&["c", "a", "c"]);
    let order = liked_order(&found);
    assert_eq!(order, vec![id("c"), id("a")]);
    let missing = liked_missing(&local, &order);
    assert_eq!(missing, vec![id("c")]);
    let all = merge_liked(local, vec![Some(track("c"))]);
    assert_eq!(ids(&all), vec!["a", "b", "c"]);
}

#[test]
fn a_source_without_ratings_is_no_failure() {
    assert_eq!(mirror_outcome(Ok(())), Ok(()));
    assert_eq!(mirror_outcome(Err(unsupported())), Ok(()));
    assert_eq!(mirror_outcome(Err(network())), Err(network()));
}

#[test]
fn sessions_are_retried_every_five_minutes() {
    let mut retries = AuthRetries::new();
    assert!(retries.try_reauth("ytmusic", SEC));
    assert!(!retries.try_reauth("ytmusic", 300 * SEC));
    assert!(retries.try_reauth("soundcloud", 300 * SEC));
    assert!(retries.try_reauth("ytmusic", 301 * SEC));
}

#[test]
fn merged_shelves_repeat_nothing() {
    let page = merge_home_pages(vec![
        home(vec![shelf("A", &["1", "2"])], Some("n")),
        home(vec![shelf("B", &["2", "3"]), shelf("A", &["4"])], None),
    ]);
    let mut keys: Vec<String> = cards_of(&page).iter().map(search_result_key).collect();
    let count = keys.len();
    keys.sort();
    keys.dedup();
    assert_eq!(keys.len(), count);
    assert_eq!(count, 4);
}

#[test]
fn one_failing_feed_spoils_the_whole() {
    let ok = || ("a".to_owned(), Ok(home(vec![shelf("A", &["1"])], Some("raw"))));
    let draft = collect_home(vec![ok(), ("b".to_owned(), Err(unsupported()))]).expect("лента");
    assert_eq!(draft.continuation, Some(("a".to_owned(), "raw".to_owned())));
    let failure = collect_home(vec![ok(), ("b".to_owned(), Err(network()))])
        .expect_err("честная ошибка");
    assert_eq!(failure.provider, "b");
    assert_eq!(failure.error, network());
}

#[test]
fn the_feed_is_remembered_for_ten_minutes() {
    let mut feed = HomeFeed::new();
    assert_eq!(feed.lookup(None, 0), None);
    let draft = collect_home(vec![(
        "ytmusic".to_owned(),
        Ok(home(vec![shelf("A", &["1"])], Some("raw"))),
    )])
    .expect("лента");
    let shown = feed.store(None, draft, 0);
    assert_eq!(shown.next.as_deref(), Some("h0"));
    assert_eq!(feed.lookup(None, 599 * SEC), Some(shown));
    assert_eq!(feed.lookup(None, 600 * SEC), None);
    assert_eq!(feed.lookup(Some("ytmusic"), 0), None);
    assert_eq!(
        feed.more_target(None, "h0"),
        Ok(("ytmusic".to_owned(), "raw".to_owned()))
    );
    assert!(feed.more_target(Some("soundcloud"), "h0").is_err());
    assert!(feed.more_target(None, "h1").is_err());

    let more = feed
        .accept_more("ytmusic", home(vec![shelf("B", &["2"])], Some("raw2")))
        .expect("лента есть");
    assert!(feed.more_target(None, "h0").is_err(), "курсор одноразовый");
    let longer = feed.store_more(more);
    assert_eq!(longer.next.as_deref(), Some("h1"));
    assert_eq!(cards_of(&longer).len(), 2);
    assert_eq!(
        feed.more_target(Some("ytmusic"), "h1"),
        Ok(("ytmusic".to_owned(), "raw2".to_owned()))
    );
}

#[test]
fn the_end_of_a_feed_is_an_empty_page() {
    assert_eq!(more_answer(Err(unsupported())), Ok(home(Vec::new(), None)));
    assert_eq!(more_answer(Err(network())), Err(network()));
    let mut feed = HomeFeed::new();
    assert_eq!(feed.accept_more("x", home(Vec::new(), None)), None);
}

#[test]
fn a_radio_starts_with_its_seed() {
    let mut radio = Radio::new();
    let mut player = Player::new(Double { bits: 0 });
    let generation = radio.start(&id("s"));
    let page = RadioPage { tracks: tracks(&["s", "a", "a", "b"]), next: Some("c".to_owned()) };
    let (list, next) = match radio.first_page(generation, track("s"), Ok(page)) {
        RadioStep::Accept { tracks, next } => (tracks, next),
        other => panic!("{other:?}"),
    };
    assert_eq!(ids(&list), vec!["s", "a", "b"]);
    assert!(has_id(&list, &id("a")));
    assert_eq!(
        radio.open_queue(&mut player, generation, list, next, true),
        Some(Event::QueueChanged { len: 3, index: Some(0) })
    );
    assert_eq!(radio.maybe_refill(3, Some(0)), None);
    assert_eq!(
        radio.maybe_refill(3, Some(1)),
        Some(RefillJob { generation, seed: id("s"), cursor: "c".to_owned() })
    );
    assert_eq!(radio.maybe_refill(3, Some(2)), None, "страница уже в пути");
    let page = RadioPage { tracks: tracks(&["b", "d"]), next: None };
    let fresh = radio.refill_page(player.queue(), generation, Ok(page)).expect("своя страница");
    assert_eq!(ids(&fresh.tracks), vec!["d"]);
    assert_eq!(
        radio.extend_queue(&mut player, generation, fresh, true),
        Some(Event::QueueChanged { len: 4, index: Some(0) })
    );
    assert_eq!(radio.maybe_refill(4, Some(3)), None, "страниц больше нет");
}

#[test]
fn a_late_radio_answer_is_lost() {
    let mut radio = Radio::new();
    let old = radio.start(&id("s"));
    radio.cancel();
    let page = || RadioPage { tracks: tracks(&["a"]), next: None };
    assert_eq!(radio.first_page(old, track("s"), Ok(page())), RadioStep::Ignore);
    let mut player = Player::new(Double { bits: 0 });
    assert_eq!(radio.open_queue(&mut player, old, tracks(&["a"]), None, true), None);
    assert!(player.queue().is_empty());

    let generation = radio.start(&id("s"));
    assert_eq!(
        radio.first_page(generation, track("s"), Err(unsupported())),
        RadioStep::PlayAlone
    );
    let generation = radio.start(&id("s"));
    assert_eq!(
        radio.first_page(generation, track("s"), Err(network())),
        RadioStep::Failed(network())
    );
    let generation = radio.start(&id("s"));
    radio.provider_gone(generation);
    assert_eq!(radio.refill_page(player.queue(), generation, Ok(page())), None);
}

#[test]
fn a_failure_of_the_session_is_told_and_leads_to_an_attempt() {
    let auth = ProviderError::Auth { provider: ProviderId::ytmusic(), reason: "x".to_owned() };
    let other = ProviderError::Network("x".to_owned());
    let expired = AuthStatus::Expired { hint: "h".to_owned() };
    assert_eq!(
        report_auth("ytmusic", &auth, expired.clone()),
        Some(Event::AuthChanged { provider: "ytmusic".to_owned(), auth: expired.clone() })
    );
    assert_eq!(report_auth("ytmusic", &other, expired.clone()), None);

    let mut retries = AuthRetries::new();
    assert!(!retries.after_failure("ytmusic", &other, SEC));
    assert!(retries.after_failure("ytmusic", &auth, SEC));
    assert!(!retries.after_failure("ytmusic", &auth, 2 * SEC));
    assert!(retries.after_failure("soundcloud", &auth, 2 * SEC));

    assert_eq!(
        refreshed("ytmusic", Ok(AuthStatus::Ready), expired.clone()),
        Event::AuthChanged { provider: "ytmusic".to_owned(), auth: AuthStatus::Ready }
    );
    assert_eq!(
        refreshed("ytmusic", Err(other), expired.clone()),
        Event::AuthChanged { provider: "ytmusic".to_owned(), auth: expired }
    );
}
