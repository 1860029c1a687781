use tmus::chromium::{cbc_decrypt, decrypt_chromium, finish, unpad_pkcs7};
use tmus::config::{BrowserConfig, Config, ProviderConfig};
use tmus::cookies::{
    autodetect, chromium_base, chromium_candidates, chromium_db, chromium_source,
    collect_chromium, collect_firefox, cookie_plan, firefox_base, firefox_source, host_matches,
    host_pattern, meta_version, parse_netscape, profile_db, source_from_config, ChromiumRow,
    CookieJar, CookiePlan, CookieSource, FoundProfiles, ProfileDir,
};
use tmus::double::{clamp_volume, Double};
use tmus::error::CoreError;

/// A value encrypted by openssl: AES-128-CBC with the key
/// PBKDF2-SHA1("peanuts", "saltysalt", 1), sixteen spaces as the initial
/// vector and PKCS7 over 32 bytes of a hash and `abc123XYZ`.
fn openssl_ciphertext() -> Vec<u8> {
    hex::decode(
        "0b9cf0a6eee9cf1aaac601b85ca37cf9c99903ddda1456a74e2f66567254c243b1e0c60428c8c73f0a730785db20db67",
    )
    .expect("hex")
}

fn v10_blob() -> Vec<u8> {
    let mut blob = b"v10".to_vec();
    blob.extend_from_slice(&openssl_ciphertext());
    blob
}

fn row(name: &str, plain: Option<&str>, blob: Vec<u8>) -> Result<ChromiumRow, String> {
    Ok(ChromiumRow { name: name.to_owned(), plain: plain.map(str::to_owned), blob })
}

#[test]
fn ytdlp_args_name_the_source() {
    let browser = CookieSource::Browser { spec: "chromium:/профиль с пробелами".to_owned() };
    assert_eq!(
        browser.as_ytdlp_args(),
        vec![
            "--cookies-from-browser".to_owned(),
            "chromium:/профиль с пробелами".to_owned()
        ]
    );

    let file = CookieSource::File { path: "/tmp/cookies.txt".to_owned() };
    assert_eq!(
        file.as_ytdlp_args(),
        vec!["--cookies".to_owned(), "/tmp/cookies.txt".to_owned()]
    );
}

#[test]
fn configured_profile_is_used_as_is() {
    let spec = "chromium:/home/q/.config/YouTube Music Desktop App/Partitions/ytmview";
    let cfg = Config {
        browser: BrowserConfig { profile: Some(spec.to_owned()) },
        ..Config::default()
    };

    let source = source_from_config(&cfg, None).expect("профиль задан явно");

    assert_eq!(source, CookieSource::Browser { spec: spec.to_owned() });
}

#[test]
fn without_a_profile_the_found_one_is_used() {
    let found = CookieSource::File { path: "/c".to_owned() };
    assert_eq!(
        source_from_config(&Config::default(), Some(found)),
        Ok(CookieSource::File { path: "/c".to_owned() })
    );
    assert_eq!(
        source_from_config(&Config::default(), None),
        Err(CoreError::NoBrowserProfile)
    );
}

#[test]
fn header_is_sorted_regardless_of_insertion_order() {
    let mut first = CookieJar::default();
    first.push("SID".to_owned(), "b".to_owned());
    first.push("APISID".to_owned(), "a".to_owned());
    first.push("HSID".to_owned(), "c".to_owned());

    let mut second = CookieJar::default();
    second.push("HSID".to_owned(), "c".to_owned());
    second.push("SID".to_owned(), "b".to_owned());
    second.push("APISID".to_owned(), "a".to_owned());

    assert_eq!(first.header(), "APISID=a; HSID=c; SID=b");
    assert_eq!(first.header(), second.header());
}

#[test]
fn a_cookie_pushed_again_takes_the_last_value() {
    let mut jar = CookieJar::new();
    assert!(jar.is_empty());
    assert_eq!(jar.header(), "");
    jar.push("A".to_owned(), "1".to_owned());
    jar.push("A".to_owned(), "2".to_owned());
    assert_eq!(jar.get("A"), Some("2"));
    assert_eq!(jar.header(), "A=2");
}

#[test]
fn netscape_file_skips_noise_and_keeps_full_values() {
    let text = "# Netscape HTTP Cookie File\n\
         \n\
         #HttpOnly_.youtube.com\tTRUE\t/\tTRUE\t0\tSID\tdb=equal=signs\n\
         .youtube.com\tTRUE\t/\tTRUE\t0\tHSID\tкороткое\n\
         evilyoutube.com\tTRUE\t/\tTRUE\t0\tFAKE\tнет\n\
         .example.com\tTRUE\t/\tTRUE\t0\tOTHER\tнет\n\
         .youtube.com\tTRUE\t/\tTRUE\t0\tSSID\n";

    let jar = parse_netscape(text, "youtube.com");

    assert_eq!(jar.get("SID"), Some("db=equal=signs"));
    assert_eq!(jar.get("HSID"), Some("короткое"));
    assert_eq!(jar.get("FAKE"), None);
    assert_eq!(jar.get("OTHER"), None);
    assert_eq!(jar.get("SSID"), None);
}

#[test]
fn chromium_cookies_are_decrypted_with_the_browser_key() {
    let rows = vec![row("SAPISID", Some(""), v10_blob())];
    let got = collect_chromium("Cookies", &rows, 24).expect("профиль читается");
    assert_eq!(got.jar.get("SAPISID"), Some("abc123XYZ"));
    assert_eq!(got.failed, 0);
}

#[test]
fn the_pieces_of_a_decryption() {
    assert_eq!(decrypt_chromium(&v10_blob(), 24), Ok("abc123XYZ".to_owned()));
    // PBKDF2-SHA1("peanuts", "saltysalt", 1), sixteen bytes.
    let key = hex::decode("fd621fe5a2b402539dfa147ca9272778").expect("hex");
    let padded = cbc_decrypt(&key, &vec![b' '; 16], &openssl_ciphertext()).expect("blocks");
    assert_eq!(padded.len(), 48);
    let plain = unpad_pkcs7(padded).expect("padding");
    assert_eq!(plain.len(), 41);
    assert_eq!(finish(&plain, 24), Some("abc123XYZ".to_owned()));
    assert_eq!(cbc_decrypt(&key, &vec![b' '; 16], &vec![1, 2, 3]), None);
    assert_eq!(cbc_decrypt(&vec![1, 2, 3], &vec![b' '; 16], &openssl_ciphertext()), None);
    assert_eq!(unpad_pkcs7(vec![1, 2, 3]), None);
    assert_eq!(unpad_pkcs7(vec![7, 2, 2]), Some(vec![7]));
    assert_eq!(finish(&b"text".to_vec(), 23), Some("text".to_owned()));
    assert_eq!(finish(&b"text".to_vec(), 24), None);
}

#[test]
fn a_broken_value_is_not_decrypted() {
    let mut blob = v10_blob();
    let last = blob.len() - 1;
    blob[last] ^= 0xff;
    assert!(decrypt_chromium(&blob, 24).is_err());
}

#[test]
fn v11_without_keyring_is_reported_not_silently_empty() {
    let rows = vec![row("SAPISID", Some(""), b"v11\x00\x01\x02binary".to_vec())];
    let err = collect_chromium("Cookies", &rows, 24).err().expect("расшифровать нечем");
    assert!(
        matches!(&err, CoreError::Cookies { reason, .. } if reason.contains("keyring")),
        "ожидалась причина про keyring, получено {err:?}"
    );
}

#[test]
fn a_value_out_of_reach_does_not_cost_the_session() {
    let rows = vec![
        row("BAD", None, b"v11xxxxxxxx".to_vec()),
        row("PLAIN", Some("open"), b"v11xxxxxxxx".to_vec()),
        row("EMPTY", None, Vec::new()),
    ];
    let got = collect_chromium("Cookies", &rows, 24).expect("один читается");
    assert_eq!(got.failed, 1);
    assert_eq!(got.jar.header(), "PLAIN=open");

    let broken = vec![row("PLAIN", Some("open"), Vec::new()), Err("io".to_owned())];
    let err = collect_chromium("Cookies", &broken, 24).err().expect("строка не читается");
    assert_eq!(
        err,
        CoreError::Cookies {
            path: "Cookies".to_owned(),
            reason: "строка cookies не прочиталась: io".to_owned()
        }
    );
}

#[test]
fn firefox_rows_are_taken_as_they_are() {
    let rows = vec![Ok(("A".to_owned(), "1".to_owned())), Ok(("B".to_owned(), "2".to_owned()))];
    assert_eq!(collect_firefox("db", &rows).map(|jar| jar.header()), Ok("A=1; B=2".to_owned()));
    let rows = vec![Err("io".to_owned())];
    assert!(collect_firefox("db", &rows).is_err());
}

#[test]
fn domain_without_cookies_is_empty_jar_not_an_error() {
    let jar = parse_netscape(".youtube.com\tTRUE\t/\tTRUE\t0\tSID\tзначение\n", "soundcloud.com");
    assert!(jar.is_empty());
}

#[test]
fn hosts_match_by_whole_labels() {
    assert!(host_matches("youtube.com", "youtube.com"));
    assert!(host_matches(".music.youtube.com", "youtube.com"));
    assert!(!host_matches("evilyoutube.com", "youtube.com"));
    assert_eq!(host_pattern("youtube.com"), "%youtube.com");
}

#[test]
fn the_plan_follows_the_browser() {
    let plan = |spec: &str| cookie_plan(&CookieSource::Browser { spec: spec.to_owned() });
    assert_eq!(plan("brave:/p"), Ok(CookiePlan::Chromium("/p".to_owned())));
    assert_eq!(plan("zen:/p:q"), Ok(CookiePlan::Firefox("/p:q".to_owned())));
    assert!(matches!(plan("safari:/p"), Err(CoreError::Cookies { .. })));
    assert!(matches!(plan("chromium"), Err(CoreError::Cookies { .. })));
    assert_eq!(
        cookie_plan(&CookieSource::File { path: "/f".to_owned() }),
        Ok(CookiePlan::Netscape("/f".to_owned()))
    );
}

#[test]
fn the_base_is_found_in_the_profile() {
    let candidates = chromium_candidates("/p");
    assert_eq!(candidates[1], "/p/Network/Cookies");
    assert_eq!(
        chromium_db(&candidates, &vec![false, true, true, false]),
        Some("/p/Network/Cookies".to_owned())
    );
    assert_eq!(chromium_db(&candidates, &vec![false; 4]), None);
    assert_eq!(chromium_base("/p", true, None), Ok("/p".to_owned()));
    assert!(chromium_base("/p", false, None).is_err());
    assert_eq!(firefox_base("/p", false), "/p/cookies.sqlite");
    assert_eq!(meta_version(Some("24".to_owned())), 24);
    assert_eq!(meta_version(Some("x".to_owned())), 0);
    assert_eq!(meta_version(None), 0);
}

#[test]
fn a_base_leads_back_to_its_profile() {
    assert_eq!(
        chromium_source("/p/Network/Cookies"),
        CookieSource::Browser { spec: "chromium:/p".to_owned() }
    );
    assert_eq!(
        chromium_source("/p/Cookies"),
        CookieSource::Browser { spec: "chromium:/p".to_owned() }
    );
    assert_eq!(
        firefox_source("/f/x.default-release/cookies.sqlite"),
        CookieSource::Browser { spec: "firefox:/f/x.default-release".to_owned() }
    );
}

#[test]
fn the_first_profile_by_name_is_chosen() {
    let dir = |name: &str, has_db: bool| ProfileDir {
        path: format!("/f/{name}"),
        name: name.to_owned(),
        has_db,
    };
    let dirs = vec![
        dir("b.default-release", true),
        dir("a.default", true),
        dir("a.default-release", false),
    ];
    assert_eq!(
        profile_db(&dirs, true),
        Some("/f/b.default-release/cookies.sqlite".to_owned())
    );
    assert_eq!(profile_db(&dirs, false), Some("/f/a.default/cookies.sqlite".to_owned()));
    assert_eq!(profile_db(&Vec::new(), false), None);
}

#[test]
fn the_likeliest_session_is_preferred() {
    let found = FoundProfiles {
        ytm: None,
        zen: None,
        firefox: Some("/f/p/cookies.sqlite".to_owned()),
        chromium: Some("/c/Cookies".to_owned()),
    };
    assert_eq!(
        autodetect(&found),
        Some(CookieSource::Browser { spec: "firefox:/f/p".to_owned() })
    );
    let none = FoundProfiles { ytm: None, zen: None, firefox: None, chromium: None };
    assert_eq!(autodetect(&none), None);
}

#[test]
fn defaults_are_the_documented_ones() {
    let config = Config::default();
    assert_eq!(config.mpv, "mpv");
    assert_eq!(config.yt_dlp, "yt-dlp");
    assert_eq!(f64::from_bits(config.volume_clamped().bits), 70.0);
    assert_eq!(config.audio_format, "bestaudio[acodec=opus]/bestaudio");
    assert!(config.discord_rpc);
    assert_eq!(config.cache.limit_bytes, 8 * 1024 * 1024 * 1024);
    assert!(config.cache.prefetch_next);
    assert!(config.browser.profile.is_none());
    assert!(config.providers.is_empty());
    assert!(config.provider("ytmusic").enabled);
}

#[test]
fn provider_profile_wins_over_general() {
    let mut config = Config {
        browser: BrowserConfig { profile: Some("chromium:/tmp/общий".to_owned()) },
        ..Config::default()
    };
    config.providers.insert(
        "ytmusic".to_owned(),
        ProviderConfig {
            enabled: true,
            browser_profile: Some("firefox:/tmp/свой".to_owned()),
            ..ProviderConfig::default()
        },
    );

    assert_eq!(config.browser_profile_for("ytmusic"), Some("firefox:/tmp/свой"));
    assert_eq!(
        config.browser_profile_for("soundcloud"),
        Some("chromium:/tmp/общий"),
        "у провайдера без своего профиля берётся общий"
    );
}

#[test]
fn a_section_keeps_its_client_id() {
    let mut config = Config::default();
    config.providers.insert(
        "soundcloud".to_owned(),
        ProviderConfig {
            enabled: false,
            client_id: Some("abc".to_owned()),
            ..ProviderConfig::default()
        },
    );
    let section = config.provider("soundcloud");
    assert!(!section.enabled);
    assert_eq!(section.client_id.as_deref(), Some("abc"));
    assert_eq!(config.provider("ytmusic").client_id, None);
}

#[test]
fn discord_app_of_the_settings_comes_first() {
    let mut config = Config::default();
    assert_eq!(config.discord_app(Some("env".to_owned())), Ok("env".to_owned()));
    let missing = config.discord_app(None).unwrap_err();
    assert!(missing.starts_with("переменная TMUS_DISCORD_APP_ID не задана"));
    config.discord_app_id = Some("own".to_owned());
    assert_eq!(config.discord_app(Some("env".to_owned())), Ok("own".to_owned()));
    assert_eq!(config.discord_app(None), Ok("own".to_owned()));
}

#[test]
fn volume_is_clamped_and_nan_is_replaced() {
    let clamp = |volume: f64| {
        let config = Config { volume: Double { bits: volume.to_bits() }, ..Config::default() };
        f64::from_bits(config.volume_clamped().bits)
    };

    assert_eq!(clamp(-20.0), 0.0);
    assert_eq!(clamp(1000.0), 100.0);
    assert_eq!(clamp(35.5), 35.5);
    assert_eq!(clamp(f64::NAN), 70.0, "NaN для mpv — мусор");
    assert_eq!(clamp(f64::NEG_INFINITY), 0.0);
    assert_eq!(clamp(-0.0), 0.0);
}

#[test]
fn numbers_compare_as_doubles_do() {
    let values = [-1.0e300, -2.5, -1.0, -0.0, 0.0, 1.0e-300, 2.5, f64::INFINITY, f64::NAN];
    for a in values {
        for b in values {
            let (x, y) = (Double { bits: a.to_bits() }, Double { bits: b.to_bits() });
            assert_eq!(x.lt(&y), a < b, "{a} {b}");
            assert_eq!(x.num_eq(&y), a == b, "{a} {b}");
        }
    }
    assert_eq!(f64::from_bits(clamp_volume(Double { bits: 50.0_f64.to_bits() }).bits), 50.0);
}
