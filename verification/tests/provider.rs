use tmus::cookies::CookieSource;
use tmus::model::{PlaylistId, ProviderId, StreamSource, TrackId};
use tmus::provider::{ProviderError, Registry};
use tmus::soundcloud::api::read_body;
use tmus::time::{Duration, SystemTime};
use tmus::ytdlp::{
    parse_expire, parse_media, stderr_error, RunOutcome, YtDlp, YtDlpMedia, YtDlpRequest,
};

const MEDIA_JSON: &str = r#"{
    "requested_downloads": [{
        "url": "https://rr3---sn.googlevideo.com/videoplayback?id=abc&expire=1893456000&itag=774",
        "ext": "webm",
        "abr": 251.12,
        "acodec": "opus",
        "http_headers": {
            "User-Agent": "com.google.android.youtube/19.09.37",
            "Accept": "text/html,application/xhtml+xml,application/xml;q=0.9,*/*;q=0.8"
        }
    }]
}"#;

fn media() -> YtDlpMedia {
    let value = read_body("200 OK", MEDIA_JSON.as_bytes()).expect("JSON");
    parse_media(ProviderId::ytmusic(), &value).expect("поток")
}

#[test]
fn registry_routes_by_track_provider() {
    let mut registry = Registry::new();
    registry.insert(ProviderId::ytmusic(), "yt");
    registry.insert(ProviderId::soundcloud(), "sc");

    let ytm = TrackId::new(ProviderId::ytmusic(), "a");
    assert_eq!(registry.resolver_for(&ytm), Ok(&"yt"));

    let unknown = TrackId::new(ProviderId("spotify"), "a");
    assert!(matches!(
        registry.resolver_for(&unknown),
        Err(ProviderError::NoSuchTrack(_))
    ));
}

#[test]
fn registry_iteration_order_is_deterministic() {
    let mut first = Registry::new();
    first.insert(ProviderId::soundcloud(), ());
    first.insert(ProviderId::ytmusic(), ());

    let mut second = Registry::new();
    second.insert(ProviderId::ytmusic(), ());
    second.insert(ProviderId::soundcloud(), ());

    let order = |registry: &Registry<()>| {
        registry.iter().iter().map(|p| p.0.clone()).collect::<Vec<_>>()
    };
    assert_eq!(order(&first), order(&second));
    assert_eq!(order(&first), vec!["soundcloud".to_owned(), "ytmusic".to_owned()]);
}

#[test]
fn reinserting_a_provider_replaces_it() {
    let mut registry = Registry::new();
    assert!(registry.is_empty());
    assert!(registry.insert(ProviderId::ytmusic(), 1).is_none());
    assert!(registry.insert(ProviderId::ytmusic(), 2).is_some());
    assert_eq!(registry.len(), 1);
    assert_eq!(registry.get(ProviderId::ytmusic()), Some(&2));
}

#[test]
fn lookup_by_string_matches_the_protocol_spelling() {
    let mut registry = Registry::new();
    registry.insert(ProviderId::ytmusic(), ());
    assert!(registry.get_by_str("ytmusic").is_some());
    assert!(registry.get_by_str("YTMusic").is_none());
}

#[test]
fn errors_are_shown_to_people() {
    let yt = ProviderId::ytmusic();
    let shown = |e: ProviderError| e.to_string();
    let auth = ProviderError::Auth { provider: yt, reason: "r".to_owned() };
    assert!(auth.is_auth());
    assert_eq!(shown(auth), "авторизация ytmusic: r");
    assert_eq!(shown(ProviderError::Network("r".to_owned())), "сеть: r");
    assert_eq!(
        shown(ProviderError::Format { provider: yt, reason: "r".to_owned() }),
        "ytmusic ответил неожиданным форматом: r"
    );
    assert_eq!(
        shown(ProviderError::NoSuchTrack(TrackId::new(yt, "a"))),
        "нет такого трека: ytmusic:a"
    );
    assert_eq!(
        shown(ProviderError::NoSuchPlaylist(PlaylistId::new(yt, "a"))),
        "нет такого плейлиста: ytmusic:a"
    );
    assert_eq!(
        shown(ProviderError::Unsupported { provider: yt, what: "оценки" }),
        "ytmusic не поддерживает оценки"
    );
    assert_eq!(
        shown(ProviderError::Tool { tool: "yt-dlp", reason: "r".to_owned() }),
        "внешний инструмент yt-dlp: r"
    );
}

#[test]
fn media_parses_selected_format() {
    let m = media();
    assert!(m.url.contains("videoplayback"));
    assert_eq!(m.ext, "webm");
    assert_eq!(m.abr.map(|d| f64::from_bits(d.bits)), Some(251.12));
    assert_eq!(m.acodec.as_deref(), Some("opus"));
}

#[test]
fn only_user_agent_is_taken() {
    assert_eq!(
        media().user_agent.as_deref(),
        Some("com.google.android.youtube/19.09.37")
    );
}

#[test]
fn output_that_is_no_description_is_a_format_error() {
    let yt = ProviderId::ytmusic();
    assert!(matches!(YtDlp::media(yt, "oops"), Err(ProviderError::Format { .. })));
    assert!(matches!(YtDlp::media(yt, "{}"), Err(ProviderError::Format { .. })));
    assert_eq!(YtDlp::media(yt, MEDIA_JSON), Ok(media()));
}

#[test]
fn expire_param_becomes_expires_at() {
    let url = "https://x/videoplayback?expire=1893456000&itag=774";
    let at = parse_expire(url).unwrap();
    assert_eq!(at, SystemTime::from_unix_secs(1_893_456_000));
}

#[test]
fn url_without_expire_is_not_expiring() {
    assert_eq!(parse_expire("https://x/videoplayback?itag=774"), None);
}

#[test]
fn to_stream_source_yields_remote_and_expiry() {
    let media = YtDlpMedia {
        url: "https://x/videoplayback?expire=1893456000".to_owned(),
        user_agent: Some("ua".to_owned()),
        expires_at: parse_expire("https://x/?expire=1893456000"),
        ext: "webm".to_owned(),
        abr: None,
        acodec: None,
    };
    let src = YtDlp::to_stream_source(media);
    let StreamSource::Remote { url, user_agent, expires_at } = &src else {
        panic!("ожидался Remote");
    };
    assert_eq!(url, "https://x/videoplayback?expire=1893456000");
    assert_eq!(user_agent.as_deref(), Some("ua"));
    let now = SystemTime::from_unix_secs(1_700_000_000);
    assert!(!src.is_expired(now));
    let expired = StreamSource::Remote {
        url: "https://x/".to_owned(),
        user_agent: None,
        expires_at: Some(SystemTime::from_unix_secs(0)),
    };
    assert!(expired.is_expired(now));
    let _ = expires_at;
}

#[test]
fn extractor_and_cookie_args_are_passed() {
    let req = YtDlpRequest {
        provider: ProviderId::ytmusic(),
        page_url: "https://www.youtube.com/watch?v=abc".to_owned(),
        format: "bestaudio[acodec=opus]/bestaudio".to_owned(),
        extractor_args: vec!["youtube:player_client=web_embedded".to_owned()],
        cookies: Some(CookieSource::Browser {
            spec: "chromium:/home/user/.config/ytm/profile".to_owned(),
        }),
    };

    let args = YtDlp::media_args(&req);

    assert!(args.windows(2).any(|w| w[0] == "--extractor-args"
        && w[1] == "youtube:player_client=web_embedded"));
    assert!(args
        .windows(2)
        .any(|w| w[0] == "--cookies-from-browser" && w[1].starts_with("chromium:")));
    assert_eq!(args.last().map(String::as_str), Some("https://www.youtube.com/watch?v=abc"));
}

#[test]
fn bot_gate_maps_to_auth() {
    let err = stderr_error(
        ProviderId::ytmusic(),
        "ERROR: [youtube] abc: Sign in to confirm you're not a bot.\n",
    );
    assert!(matches!(err, ProviderError::Auth { provider, .. } if provider == ProviderId::ytmusic()));
}

#[test]
fn plain_failure_maps_to_tool_with_last_stderr_line() {
    let err = stderr_error(
        ProviderId::ytmusic(),
        "WARNING: something\nERROR: unable to download video data: HTTP Error 403\n",
    );
    match err {
        ProviderError::Tool { tool, reason } => {
            assert_eq!(tool, "yt-dlp");
            assert_eq!(reason, "ERROR: unable to download video data: HTTP Error 403");
        }
        other => panic!("ожидался Tool, получен {other:?}"),
    }
}

#[test]
fn each_end_of_a_run_has_its_outcome() {
    let dlp = YtDlp::new("/bin/sleep").timeout(Duration::from_millis(2_500));
    assert_eq!(dlp.binary(), "/bin/sleep");
    assert_eq!(dlp.time_limit(), Duration::from_millis(2_500));
    let yt = ProviderId::ytmusic();
    let tool = |reason: &str| {
        Err(ProviderError::Tool { tool: "yt-dlp", reason: reason.to_owned() })
    };
    assert_eq!(dlp.outcome(yt, RunOutcome::TimedOut), tool("yt-dlp не ответил за 2с"));
    assert_eq!(
        dlp.outcome(yt, RunOutcome::NotStarted { error: "нет".to_owned() }),
        tool("не удалось запустить /bin/sleep: нет")
    );
    assert_eq!(
        dlp.outcome(yt, RunOutcome::WaitFailed { error: "io".to_owned() }),
        tool("сбой ввода-вывода: io")
    );
    assert_eq!(
        dlp.outcome(
            yt,
            RunOutcome::Exited { success: true, stdout: b"ok\xff".to_vec(), stderr: Vec::new() }
        ),
        Ok("ok\u{fffd}".to_owned())
    );
    assert_eq!(
        dlp.outcome(
            yt,
            RunOutcome::Exited { success: false, stdout: Vec::new(), stderr: Vec::new() }
        ),
        tool("нет объяснения в stderr")
    );
}
