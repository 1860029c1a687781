use tmus::catalog::TracksPage;
use tmus::cookies::{parse_netscape, CookieJar, CookieSource};
use tmus::json::Json;
use tmus::model::{
    AuthStatus, Playlist, PlaylistId, ProviderId, Rating, SearchKind, SearchResult, Track, TrackId,
};
use tmus::provider::ProviderError;
use tmus::soundcloud::api::{
    asset_urls, client_id_in, like_path, may_ask, playlist_path, read_body, refresh_outcome,
    request_step, search_path, snippet, user_path, verify_session, AnswerStep, Api, IdSearch,
    FALLBACK_CLIENT_ID, SNIPPET_CHARS,
};
use tmus::soundcloud::auth::{status_of, token_of, ScAuth, EXPIRED_HINT, MISSING_HINT};
use tmus::soundcloud::parse::{
    artist, collection_page, liked_of, playlist, playlist_tracks, playlists, search_results,
    stream_shelves, suggestions_of, track,
};
use tmus::soundcloud::{
    filter_kind, matches_kind, own_playlist, playlist_add, playlist_page, playlist_remove, rate,
    resolve_request, LikedReader, PageAsk, PlaylistReader, RateCall,
};
use tmus::time::Duration;

fn json(text: &str) -> Json {
    read_body("200 OK", text.as_bytes()).expect("JSON")
}

fn sample_track(id: u64) -> String {
    format!(
        r#"{{
            "id": {id},
            "title": "Song",
            "duration": 215000,
            "permalink_url": "https://soundcloud.com/artist/song",
            "artwork_url": "https://i1.sndcdn.com/artwork.jpg",
            "user": {{
                "id": 7,
                "username": "Artist",
                "avatar_url": "https://i1.sndcdn.com/avatar.jpg"
            }}
        }}"#
    )
}

fn jar(value: &str) -> CookieJar {
    parse_netscape(
        &format!(".soundcloud.com\tTRUE\t/\tFALSE\t0\toauth_token\t{value}"),
        "soundcloud.com",
    )
}

fn page(ids: &[&str], next: Option<&str>) -> TracksPage {
    TracksPage {
        tracks: ids
            .iter()
            .map(|id| Track {
                id: TrackId::new(ProviderId::soundcloud(), id),
                title: "t".to_owned(),
                artists: Vec::new(),
                album: None,
                duration: None,
                art_url: None,
                page_url: None,
            })
            .collect(),
        next: next.map(str::to_owned),
    }
}

#[test]
fn assets_are_collected_from_html() {
    let page = r#"<html><script src="https://a-v2.sndcdn.com/assets/0-abc123.js">
        <script src="https://a-v2.sndcdn.com/assets/1-def456.js">
        <script src="https://google.com/analytics.js">"#;
    let urls = asset_urls(page);
    assert_eq!(urls.len(), 2);
    assert!(urls[0].starts_with("https://a-v2.sndcdn.com/assets/"));
    assert!(urls[0].ends_with(".js"));
}

#[test]
fn client_id_is_read_from_asset_code() {
    let id = "Pb72ranhoyt6gw7hM7TkzUItXlMWSNSo";
    let code = format!(r#"var t = {{client_id: "{id}", other: 1}}"#);
    assert_eq!(client_id_in(&code).as_deref(), Some(id));
}

#[test]
fn the_first_script_with_a_client_id_counts() {
    let page = r#"<script src="https://a-v2.sndcdn.com/assets/a.js"></script>
        <script src="https://a-v2.sndcdn.com/assets/b.js"></script>
        <script src="https://a-v2.sndcdn.com/assets/c.js"></script>
        <script src="https://a-v2.sndcdn.com/assets/d.js"></script>"#;
    let id = "Pb72ranhoyt6gw7hM7TkzUItXlMWSNSo";
    let code = format!(r#"client_id: "{id}""#);
    let mut search = IdSearch::new(page);
    assert_eq!(search.wanted(), Some("https://a-v2.sndcdn.com/assets/a.js"));
    search.take(None);
    assert_eq!(search.wanted(), Some("https://a-v2.sndcdn.com/assets/b.js"));
    search.take(Some("var x = 1"));
    assert_eq!(search.wanted(), Some("https://a-v2.sndcdn.com/assets/c.js"));
    search.take(Some(&code));
    assert_eq!(search.wanted(), None);
    assert_eq!(search.finish().as_deref(), Some(id));
    let empty = IdSearch::new("");
    assert_eq!(empty.wanted(), None);
    assert_eq!(empty.finish(), None);
}

#[test]
fn wrong_length_or_not_quoted_is_rejected() {
    assert_eq!(client_id_in("client_id: \"short\""), None);
    assert_eq!(client_id_in("client_id_x: \"Pb72ranhoyt6gw7hM7TkzUItXlMWSNSo\""), None);
}

#[test]
fn snippet_cuts_by_chars_not_bytes() {
    let long = "ё".repeat(400);
    let cut = snippet(&long);
    assert_eq!(cut.chars().count(), SNIPPET_CHARS + 1);
    assert_eq!(snippet("ё"), "ё");
}

#[test]
fn token_on_place_is_ready() {
    let token = Some("abc".to_owned());
    assert_eq!(status_of(&token), AuthStatus::Ready);
}

#[test]
fn no_token_is_missing() {
    assert_eq!(
        status_of(&None),
        AuthStatus::Missing { hint: MISSING_HINT.to_owned() }
    );
}

#[test]
fn empty_token_is_not_a_session() {
    let auth = ScAuth::load(jar(""));
    assert!(matches!(auth.cached(), AuthStatus::Missing { .. }));
    assert!(auth.token().is_none());
}

#[test]
fn token_from_netscape_file_is_ready() {
    let auth = ScAuth::load(jar("3-123456-abcdef"));
    assert_eq!(auth.cached(), AuthStatus::Ready);
    assert_eq!(auth.token().as_deref(), Some("3-123456-abcdef"));
    assert_eq!(auth.cookie_header().as_deref(), Some("oauth_token=3-123456-abcdef"));
    assert_eq!(token_of(&jar("x")).as_deref(), Some("x"));
}

#[test]
fn mark_expired_without_token_keeps_status() {
    let mut auth = ScAuth::load(CookieJar::default());
    auth.mark_expired();
    assert!(matches!(auth.cached(), AuthStatus::Missing { .. }));
    assert_eq!(auth.cookie_header(), None);
}

#[test]
fn a_refused_session_expires_and_comes_back() {
    let mut auth = ScAuth::load(jar("tok"));
    auth.mark_expired();
    assert_eq!(auth.cached(), AuthStatus::Expired { hint: EXPIRED_HINT.to_owned() });
    auth.mark_ready();
    assert_eq!(auth.cached(), AuthStatus::Ready);
    assert!(matches!(auth.reload(CookieJar::default()), AuthStatus::Missing { .. }));
    assert_eq!(auth.token(), None);
}

#[test]
fn a_session_is_verified() {
    let mut auth = ScAuth::load(jar("tok"));
    assert_eq!(verify_session(&mut auth, 200), Ok(AuthStatus::Ready));
    assert!(matches!(verify_session(&mut auth, 401), Ok(AuthStatus::Expired { .. })));
    let doubt = verify_session(&mut auth, 500);
    assert!(matches!(&doubt, Err(ProviderError::Auth { .. })));
    assert!(matches!(refresh_outcome(&mut auth, doubt), Ok(AuthStatus::Expired { .. })));
    assert_eq!(
        refresh_outcome(&mut auth, Err(ProviderError::Network("x".to_owned()))),
        Err(ProviderError::Network("x".to_owned()))
    );
    assert_eq!(refresh_outcome(&mut auth, Ok(AuthStatus::Ready)), Ok(AuthStatus::Ready));
    assert_eq!(auth.cached(), AuthStatus::Ready);
}

#[test]
fn answers_lead_to_steps() {
    let mut api = Api::new(Some("CID".to_owned()));
    let mut auth = ScAuth::load(jar("tok"));
    assert_eq!(
        request_step(&mut api, &mut auth, 200, "200 OK", "", true, true),
        AnswerStep::Body
    );
    assert_eq!(request_step(&mut api, &mut auth, 204, "204", "", true, true), AnswerStep::Empty);
    assert_eq!(api.client_id(), "CID");
    assert_eq!(
        request_step(&mut api, &mut auth, 401, "401", "", false, true),
        AnswerStep::Retry
    );
    assert_eq!(api.client_id(), "");
    api.set_client_id(Some("NEW".to_owned()));
    assert!(matches!(
        request_step(&mut api, &mut auth, 403, "403 Forbidden", "why", false, false),
        AnswerStep::Failed(ProviderError::Auth { reason, .. })
            if reason == "HTTP 403 Forbidden; тело: why"
    ));
    assert!(matches!(
        request_step(&mut api, &mut auth, 500, "500 Internal Server Error", "why", false, false),
        AnswerStep::Failed(ProviderError::Format { reason, .. })
            if reason == "HTTP 500 Internal Server Error; тело: why"
    ));
    assert_eq!(auth.cached(), AuthStatus::Ready);
    assert!(matches!(
        request_step(&mut api, &mut auth, 403, "403", "", true, true),
        AnswerStep::SessionRefused(ProviderError::Auth { .. })
    ));
    assert!(matches!(auth.cached(), AuthStatus::Expired { .. }));
    assert_eq!(api.client_id(), "NEW");
}

#[test]
fn some_requests_need_a_session() {
    let with = ScAuth::load(jar("tok"));
    assert_eq!(may_ask(&with, true), Ok(Some("OAuth tok".to_owned())));
    let without = ScAuth::load(CookieJar::default());
    assert_eq!(may_ask(&without, false), Ok(None));
    assert!(matches!(may_ask(&without, true), Err(ProviderError::Auth { .. })));
}

#[test]
fn addresses_carry_the_client_id() {
    let mut api = Api::new(None);
    assert_eq!(api.client_id(), FALLBACK_CLIENT_ID);
    api.set_client_id(Some("CID".to_owned()));
    assert_eq!(api.build_url("me"), "https://api-v2.soundcloud.com/me?client_id=CID");
    assert_eq!(
        api.build_url("search?q=x"),
        "https://api-v2.soundcloud.com/search?q=x&client_id=CID"
    );
    assert_eq!(api.build_url("https://x/y"), "https://x/y");
    assert_eq!(
        api.session_url(),
        "https://api-auth.soundcloud.com/connect/session?client_id=CID"
    );
    api.set_client_id(None);
    assert_eq!(api.client_id(), FALLBACK_CLIENT_ID);
    assert_eq!(Api::new(Some("OWN".to_owned())).client_id(), "OWN");
}

#[test]
fn the_account_number_is_remembered() {
    let mut api = Api::new(None);
    assert_eq!(api.uid(), None);
    assert!(api.take_uid(&json("{}")).is_err());
    assert_eq!(api.take_uid(&json(r#"{"id": 42}"#)), Ok("42".to_owned()));
    assert_eq!(api.uid().as_deref(), Some("42"));
    assert!(user_path("42", "playlists").contains("42"));
    assert!(like_path("42", "7").contains('7'));
    assert_ne!(playlist_path("9", true), playlist_path("9", false));
    assert_ne!(search_path(SearchKind::Tracks), search_path(SearchKind::Playlists));
}

#[test]
fn a_body_that_is_no_json_is_a_format_error() {
    assert!(matches!(
        read_body("200 OK", b"<html>"),
        Err(ProviderError::Format { reason, .. }) if reason.starts_with("тело 200 OK")
    ));
    assert!(matches!(read_body("200 OK", b"\"\xff\""), Err(ProviderError::Format { .. })));
}

#[test]
fn kind_filter_matches_catalog_types() {
    let track = SearchResult::Track(Track {
        id: TrackId::new(ProviderId::soundcloud(), "1"),
        title: "t".to_owned(),
        artists: vec![],
        album: None,
        duration: None,
        art_url: None,
        page_url: None,
    });
    let pl = SearchResult::Playlist(Playlist {
        id: PlaylistId::new(ProviderId::soundcloud(), "2"),
        title: "p".to_owned(),
        subtitle: None,
        art_url: None,
        track_count: None,
    });
    let artist = SearchResult::Artist {
        provider: ProviderId::soundcloud(),
        id: "3".to_owned(),
        name: "a".to_owned(),
    };

    assert!(matches_kind(&track, SearchKind::Tracks));
    assert!(!matches_kind(&pl, SearchKind::Tracks));
    assert!(matches_kind(&pl, SearchKind::Albums));
    assert!(matches_kind(&pl, SearchKind::Playlists));
    assert!(matches_kind(&artist, SearchKind::Artists));
    assert!(!matches_kind(&artist, SearchKind::Tracks));

    let kept = filter_kind(vec![track.clone(), pl.clone(), artist], SearchKind::Albums);
    assert_eq!(kept, vec![pl]);
}

#[test]
fn resolve_rejects_foreign_track() {
    let cookies = || CookieSource::File { path: "/c".to_owned() };
    let foreign = TrackId::new(ProviderId::ytmusic(), "1");
    let error = resolve_request(&foreign, cookies()).expect_err("чужой трек отвергается без yt-dlp");
    assert!(matches!(error, ProviderError::NoSuchTrack(_)));
    let own = resolve_request(&TrackId::new(ProviderId::soundcloud(), "1"), cookies())
        .expect("свой трек");
    assert_eq!(own.page_url, "https://api.soundcloud.com/tracks/1");
    assert_eq!(own.format, "bestaudio[protocol*=http]/bestaudio");
}

#[test]
fn track_is_parsed_with_ms_duration() {
    let t = track(&json(&sample_track(42))).expect("трек разбирается");
    assert_eq!(t.id, TrackId::new(ProviderId::soundcloud(), "42"));
    assert_eq!(t.title, "Song");
    assert_eq!(t.artists, vec!["Artist"]);
    assert_eq!(t.duration, Some(Duration::from_millis(215_000)));
    assert_eq!(t.art_url.as_deref(), Some("https://i1.sndcdn.com/artwork.jpg"));
    assert_eq!(t.page_url.as_deref(), Some("https://soundcloud.com/artist/song"));
}

#[test]
fn track_falls_back_to_avatar_art() {
    let v = sample_track(1).replace("artwork_url", "other");
    let t = track(&json(&v)).expect("трек разбирается");
    assert_eq!(t.art_url.as_deref(), Some("https://i1.sndcdn.com/avatar.jpg"));
}

#[test]
fn playlist_is_parsed() {
    let v = json(
        r#"{"id": 9, "title": "Mix", "track_count": 12, "user": {"username": "Artist"}}"#,
    );
    let p = playlist(&v).expect("плейлист разбирается");
    assert_eq!(p.id, PlaylistId::new(ProviderId::soundcloud(), "9"));
    assert_eq!(p.title, "Mix");
    assert_eq!(p.subtitle.as_deref(), Some("Artist"));
    assert_eq!(p.track_count, Some(12));
}

#[test]
fn search_results_handle_wrapped_and_bare_users() {
    let value = json(&format!(
        r#"{{"collection": [
            {{"kind": "track", "track": {}}},
            {{"kind": "playlist", "playlist": {{"id": 2, "title": "P", "user": {{"username": "U"}}}}}},
            {{"kind": "user", "user": {{"id": 3, "username": "Bare User"}}}}
        ]}}"#,
        sample_track(1)
    ));
    let results = search_results(&value);
    assert_eq!(results.len(), 3);
    assert!(matches!(&results[0], SearchResult::Track(_)));
    assert!(matches!(&results[1], SearchResult::Playlist(_)));
    assert!(matches!(&results[2], SearchResult::Artist { name, .. } if name == "Bare User"));
}

#[test]
fn liked_handles_both_item_shapes() {
    let value = json(&format!(
        r#"{{"collection": [{{"track": {}}}, {}],
            "next_href": "https://api-v2.soundcloud.com/e1/me/track_likes?cursor=abc"}}"#,
        sample_track(1),
        sample_track(2)
    ));
    let got = liked_of(&value);
    assert_eq!(got.tracks.len(), 2);
    assert_eq!(got.tracks[1].id.id, "2");
    assert!(got.next.is_some());
}

#[test]
fn playlist_tracks_reads_nested_collection() {
    let value = json(&format!(
        r#"{{"tracks": {{"collection": [{}, {}],
            "next_href": "https://api-v2.soundcloud.com/playlists/9?offset=2"}}}}"#,
        sample_track(1),
        sample_track(2)
    ));
    let got = playlist_tracks(&value);
    assert_eq!(got.tracks.len(), 2);
    assert_eq!(
        got.next.as_deref(),
        Some("https://api-v2.soundcloud.com/playlists/9?offset=2")
    );
}

#[test]
fn stream_shelves_split_tracks_and_playlists_and_skip_empty() {
    let value = json(&format!(
        r#"{{"collection": [
            {{"type": "track", "track": {}}},
            {{"type": "playlist-repost", "playlist": {{"id": 5, "title": "P", "user": {{"username": "U"}}}}}}
        ]}}"#,
        sample_track(1)
    ));
    let shelves = stream_shelves(&value);
    assert_eq!(shelves.len(), 2);
    assert_eq!(shelves[0].title, "Tracks");
    assert_eq!(shelves[0].items.len(), 1);
    assert_eq!(shelves[1].title, "Playlists");

    let empty = stream_shelves(&json(r#"{"collection": []}"#));
    assert!(empty.is_empty());
}

#[test]
fn suggestions_read_query_field() {
    let value = json(r#"{"collection": [{"query": "lofi"}, {"query": "lofi beats"}]}"#);
    assert_eq!(suggestions_of(&value), vec!["lofi", "lofi beats"]);
}

#[test]
fn a_bad_record_costs_itself_alone() {
    let value = json(&format!(
        r#"{{"collection": [{}, {{"id": "x"}}, {}]}}"#,
        sample_track(1),
        sample_track(2)
    ));
    assert_eq!(collection_page(&value).tracks.len(), 2);
    assert_eq!(collection_page(&value).next, None);
    let lists = json(
        r#"{"collection": [{"title": "no id"}, {"id": 2, "title": "P", "user": {"username": "U"}}]}"#,
    );
    assert_eq!(playlists(&lists).len(), 1);
    assert_eq!(artist(&json("{}")), None);
}

#[test]
fn liked_pages_are_read_up_to_a_limit() {
    let mut reader = LikedReader::start(page(&["0"], Some("n")));
    let mut pages = 1;
    while let Some(url) = reader.wanted() {
        assert_eq!(url, "n");
        reader.take(page(&["x"], Some("n")));
        pages += 1;
    }
    assert_eq!(pages, 10);
    assert_eq!(reader.finish().len(), 10);
    assert_eq!(LikedReader::start(page(&["0"], None)).wanted(), None);
}

#[test]
fn a_playlist_is_read_to_its_end() {
    let mut reader = PlaylistReader::new();
    let mut asked: Vec<Option<String>> = Vec::new();
    while reader.wants_more() {
        asked.push(reader.cursor().map(str::to_owned));
        let number = asked.len();
        let next = if number < 25 { Some("n") } else { None };
        reader.take(page(&[&number.to_string(), "x"], next));
    }
    assert_eq!(asked.len(), 25);
    assert_eq!(asked[0], None);
    assert!(asked[1..].iter().all(|cursor| cursor.as_deref() == Some("n")));
    let read = reader.finish();
    assert_eq!(read.len(), 50);
    assert_eq!(read[0].id.id, "1");
    assert_eq!(read[48].id.id, "25");
}

#[test]
fn a_page_is_asked_for_where_it_is() {
    let own = PlaylistId::new(ProviderId::soundcloud(), "7");
    let first = playlist_page(&own, None).expect("own");
    assert_eq!(
        first,
        PageAsk::First { path: "playlists/7?linked_partitioning=1".to_owned() }
    );
    assert_eq!(first.address(), "playlists/7?linked_partitioning=1");
    let whole = json(&format!(
        r#"{{"tracks": {{"collection": [{}], "next_href": "https://n"}}}}"#,
        sample_track(1)
    ));
    assert_eq!(first.read(&whole).tracks.len(), 1);
    assert_eq!(first.read(&whole).next.as_deref(), Some("https://n"));
    let further = playlist_page(&own, Some("https://n")).expect("own");
    assert_eq!(further.address(), "https://n");
    assert_eq!(further.read(&whole).tracks.len(), 0);
    let flat = json(&format!(r#"{{"collection": [{}]}}"#, sample_track(2)));
    assert_eq!(further.read(&flat).tracks.len(), 1);
    assert_eq!(further.read(&flat).next, None);
    let foreign = PlaylistId::new(ProviderId::ytmusic(), "7");
    assert_eq!(
        playlist_page(&foreign, None),
        Err(ProviderError::NoSuchPlaylist(foreign.clone()))
    );
}

#[test]
fn ratings_and_changes_stay_within_the_source() {
    let own = TrackId::new(ProviderId::soundcloud(), "1");
    let foreign = TrackId::new(ProviderId::ytmusic(), "1");
    assert_eq!(rate(&own, Rating::Liked), Ok(RateCall::Like));
    assert_eq!(rate(&own, Rating::Unrated), Ok(RateCall::Unlike));
    assert_eq!(rate(&own, Rating::Disliked), Ok(RateCall::Nothing));
    assert!(matches!(rate(&foreign, Rating::Liked), Err(ProviderError::NoSuchTrack(_))));
    let list = PlaylistId::new(ProviderId::soundcloud(), "9");
    let other = PlaylistId::new(ProviderId::local(), "9");
    assert_eq!(own_playlist(&list), Ok(()));
    assert!(matches!(own_playlist(&other), Err(ProviderError::NoSuchPlaylist(_))));
    assert!(matches!(playlist_add(&list, &own), ProviderError::Unsupported { .. }));
    assert!(matches!(playlist_add(&other, &own), ProviderError::NoSuchPlaylist(_)));
    assert!(matches!(playlist_remove(&list, &foreign), ProviderError::NoSuchTrack(_)));
}
