//! The application's settings. No field is mandatory: without a file the
//! defaults hold.

use vstd::prelude::*;

use crate::double::{volume_bounded, clamp_volume, Double, SEVENTY_BITS};
use crate::text::{clone_opt, opt_text};
use crate::textmap::{lookup, TextMap};

verus! {

/// The default limit of the offline cache: 8 GiB.
pub const DEFAULT_CACHE_LIMIT_BYTES: u64 = 8_589_934_592;

/// Why nothing is shown in Discord when no application is named.
pub const NO_DISCORD_APP: &'static str =
    "переменная TMUS_DISCORD_APP_ID не задана: создайте приложение в Discord Developer Portal и укажите его Application ID — вымышленный ID показывал бы в профиле чужое приложение";

/// All settings.
pub struct Config {
    /// The path of `mpv`: some have it outside the service's `PATH`.
    pub mpv: String,
    /// The path of `yt-dlp`.
    pub yt_dlp: String,
    /// The volume in percent, as written; see `volume_clamped`.
    pub volume: Double,
    /// The stream format that is asked for.
    pub audio_format: String,
    /// Whether to show the current track in Discord.
    pub discord_rpc: bool,
    /// The Discord application to show it under; see `discord_app`.
    pub discord_app_id: Option<String>,
    pub cache: CacheConfig,
    pub browser: BrowserConfig,
    /// One section per source.
    pub providers: TextMap<ProviderConfig>,
}

/// The offline audio cache.
#[derive(Clone, Copy, Debug, PartialEq, Eq, Structural)]
pub struct CacheConfig {
    /// The space it may take. On overflow the oldest leaves.
    pub limit_bytes: u64,
    /// Whether to fetch the queue's next track ahead.
    pub prefetch_next: bool,
}

/// The browser that cookies are taken from.
#[derive(Debug, PartialEq, Eq)]
pub struct BrowserConfig {
    /// A profile in the form `chromium:/path` or `firefox:/path`. `None`:
    /// look for one.
    pub profile: Option<String>,
}

/// The settings of one source.
#[derive(Debug, PartialEq, Eq)]
pub struct ProviderConfig {
    /// A source that is switched off is not registered; its settings stay.
    pub enabled: bool,
    /// A profile for this source. `None`: the general one.
    pub browser_profile: Option<String>,
    /// The key that requests to this source carry. `None`: the source's
    /// site is asked for one.
    pub client_id: Option<String>,
}

impl Default for CacheConfig {
    fn default() -> (r: Self)
        ensures
            r.limit_bytes == DEFAULT_CACHE_LIMIT_BYTES,
            r.prefetch_next,
    {
        CacheConfig { limit_bytes: DEFAULT_CACHE_LIMIT_BYTES, prefetch_next: true }
    }
}

impl Default for BrowserConfig {
    fn default() -> (r: Self)
        ensures
            r.profile is None,
    {
        BrowserConfig { profile: None }
    }
}

impl Default for ProviderConfig {
    fn default() -> (r: Self)
        ensures
            r.enabled,
            r.browser_profile is None,
            r.client_id is None,
    {
        ProviderConfig { enabled: true, browser_profile: None, client_id: None }
    }
}

impl Clone for ProviderConfig {
    fn clone(&self) -> (r: Self)
        ensures
            r.enabled == self.enabled,
            opt_text(r.browser_profile) == opt_text(self.browser_profile),
            opt_text(r.client_id) == opt_text(self.client_id),
    {
        ProviderConfig {
            enabled: self.enabled,
            browser_profile: clone_opt(&self.browser_profile),
            client_id: clone_opt(&self.client_id),
        }
    }
}

impl Default for Config {
    fn default() -> (r: Self)
        ensures
            r.mpv@ == "mpv"@,
            r.yt_dlp@ == "yt-dlp"@,
            r.volume.bits == SEVENTY_BITS,
            r.audio_format@ == "bestaudio[acodec=opus]/bestaudio"@,
            r.discord_rpc,
            r.discord_app_id is None,
            r.cache.limit_bytes == DEFAULT_CACHE_LIMIT_BYTES,
            r.cache.prefetch_next,
            r.browser.profile is None,
            r.providers.wf(),
            r.providers@.len() == 0,
    {
        Config {
            mpv: "mpv".to_owned(),
            yt_dlp: "yt-dlp".to_owned(),
            volume: Double { bits: SEVENTY_BITS },
            audio_format: "bestaudio[acodec=opus]/bestaudio".to_owned(),
            discord_rpc: true,
            discord_app_id: None,
            cache: CacheConfig::default(),
            browser: BrowserConfig::default(),
            providers: TextMap::new(),
        }
    }
}

impl Config {
    /// The settings of a source. Without a section the defaults hold: a
    /// source is on unless it is switched off.
    pub fn provider(&self, id: &str) -> (r: ProviderConfig)
        requires
            self.providers.wf(),
        ensures
            match lookup(self.providers@, id@) {
                Some(section) => r.enabled == section.enabled && opt_text(r.browser_profile)
                    == opt_text(section.browser_profile) && opt_text(r.client_id) == opt_text(
                    section.client_id,
                ),
                None => r.enabled && r.browser_profile is None && r.client_id is None,
            },
    {
        match self.providers.get(id) {
            Some(section) => section.clone(),
            None => ProviderConfig::default(),
        }
    }

    /// The browser profile of a source: its own if it has one, else the
    /// general one.
    pub fn browser_profile_for(&self, provider: &str) -> (r: Option<&str>)
        requires
            self.providers.wf(),
        ensures
            (match r {
                Some(s) => Some(s@),
                None => None,
            }) == match lookup(self.providers@, provider@) {
                Some(section) => match section.browser_profile {
                    Some(own) => Some(own@),
                    None => opt_text(self.browser.profile),
                },
                None => opt_text(self.browser.profile),
            },
    {
        if let Some(section) = self.providers.get(provider) {
            if let Some(own) = &section.browser_profile {
                return Some(own.as_str());
            }
        }
        match &self.browser.profile {
            Some(general) => Some(general.as_str()),
            None => None,
        }
    }

    /// The Discord application to show tracks under: the one of the
    /// settings, else the one of the environment. Without either there is
    /// none: a made-up one would show a stranger's application.
    pub fn discord_app(&self, environment: Option<String>) -> (r: Result<String, &'static str>)
        ensures
            match (self.discord_app_id, environment) {
                (Some(own), _) => r matches Ok(id) && id@ == own@,
                (None, Some(id)) => r == Ok::<String, &'static str>(id),
                (None, None) => r matches Err(e) && e@ == NO_DISCORD_APP@,
            },
    {
        match (&self.discord_app_id, environment) {
            (Some(own), _) => Ok(own.clone()),
            (None, Some(id)) => Ok(id),
            (None, None) => Err(NO_DISCORD_APP),
        }
    }

    /// The volume as the player can take it: between 0 and 100. What is
    /// not a number becomes the default.
    pub fn volume_clamped(&self) -> (r: Double)
        ensures
            r == if self.volume.nan() {
                (Double { bits: SEVENTY_BITS })
            } else {
                volume_bounded(self.volume)
            },
    {
        if self.volume.is_nan() {
            Double { bits: SEVENTY_BITS }
        } else {
            clamp_volume(self.volume)
        }
    }
}

} // verus!
