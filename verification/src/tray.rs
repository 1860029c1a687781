//! The icon in the tray: what it shows.

use vstd::prelude::*;

use crate::model::{PlaybackStatus, Track, TrackView};
use crate::protocol::{Event, EventView};
use crate::text::{concat3, joined};

verus! {

/// The icon of a status.
pub open spec fn icon_name(status: PlaybackStatus) -> Seq<char> {
    match status {
        PlaybackStatus::Playing => "media-playback-start"@,
        PlaybackStatus::Paused => "media-playback-pause"@,
        PlaybackStatus::Stopped => "multimedia-player"@,
    }
}

pub fn icon_for(status: PlaybackStatus) -> (r: &'static str)
    ensures
        r@ == icon_name(status),
{
    match status {
        PlaybackStatus::Playing => "media-playback-start",
        PlaybackStatus::Paused => "media-playback-pause",
        PlaybackStatus::Stopped => "multimedia-player",
    }
}

/// An optional track by view.
pub open spec fn track_ref(t: Option<&Track>) -> Option<TrackView> {
    match t {
        Some(t) => Some(t@),
        None => None,
    }
}

/// The title of a track, or the daemon's name.
pub open spec fn shown_title(track: Option<TrackView>) -> Seq<char> {
    match track {
        Some(t) => t.title,
        None => "tmus"@,
    }
}

pub fn title_for(track: Option<&Track>) -> (r: String)
    ensures
        r@ == shown_title(track_ref(track)),
{
    match track {
        Some(t) => t.title.clone(),
        None => "tmus".to_owned(),
    }
}

/// The artists and the album, as far as there are any.
pub open spec fn tooltip_text(track: Option<TrackView>) -> Seq<char> {
    match track {
        Some(t) => {
            let artist = joined(t.artists, ", "@);
            let album = match t.album {
                Some(a) => a,
                None => Seq::empty(),
            };
            if album.len() == 0 {
                artist
            } else if artist.len() == 0 {
                album
            } else {
                artist + " — "@ + album
            }
        },
        None => Seq::empty(),
    }
}

fn is_empty(s: &str) -> (r: bool)
    ensures
        r == (s@.len() == 0),
{
    proof {
        reveal_strlit("");
    }
    let r: bool = s.eq("");
    assert(s@.len() == 0 ==> s@ =~= ""@);
    r
}

pub fn tooltip_body_for(track: Option<&Track>) -> (r: String)
    ensures
        r@ == tooltip_text(track_ref(track)),
{
    let t: &Track = match track {
        Some(t) => t,
        None => {
            let none = String::new();
            assert(none@ =~= Seq::empty());
            return none;
        },
    };
    let artist = t.artist_line();
    let album: String = match &t.album {
        Some(a) => a.clone(),
        None => String::new(),
    };
    assert(t.album is None ==> album@ =~= Seq::empty());
    if is_empty(album.as_str()) {
        artist
    } else if is_empty(artist.as_str()) {
        album
    } else {
        concat3(artist.as_str(), " — ", album.as_str())
    }
}

/// What the icon shows.
#[derive(Debug, PartialEq, Eq)]
pub struct SniState {
    pub title: String,
    pub icon: &'static str,
    pub tip_title: String,
    pub tip_body: String,
}

impl SniState {
    pub fn from_track(track: Option<&Track>, status: PlaybackStatus) -> (r: Self)
        ensures
            r.title@ == shown_title(track_ref(track)),
            r.icon@ == icon_name(status),
            r.tip_title@ == shown_title(track_ref(track)),
            r.tip_body@ == tooltip_text(track_ref(track)),
    {
        SniState {
            title: title_for(track),
            icon: icon_for(status),
            tip_title: title_for(track),
            tip_body: tooltip_body_for(track),
        }
    }
}

/// Whether an event changes what the icon shows. The position does not: an
/// icon that blinks every second is a nuisance.
pub open spec fn shows_on_icon(event: EventView) -> bool {
    event is TrackChanged || event is StateChanged
}

pub fn refreshes_icon(event: &Event) -> (r: bool)
    ensures
        r == shows_on_icon(event@),
{
    matches!(event, Event::TrackChanged { .. } | Event::StateChanged { .. })
}

/// The icon shows whether music plays, is paused or is stopped, and each by
/// an icon of its own; the title is the track's, and the tip holds the
/// artists and the album, with a dash between them where there are both.
pub proof fn lemma_the_icon_shows_the_music(t: TrackView, album: Seq<char>)
    ensures
        icon_name(PlaybackStatus::Playing) == "media-playback-start"@,
        icon_name(PlaybackStatus::Paused) == "media-playback-pause"@,
        icon_name(PlaybackStatus::Stopped) == "multimedia-player"@,
        shown_title(Some(t)) == t.title,
        shown_title(None) == "tmus"@,
        tooltip_text(None).len() == 0,
        t.album is None ==> tooltip_text(Some(t)) == joined(t.artists, ", "@),
        t.album == Some(album) && album.len() > 0 && joined(t.artists, ", "@).len() > 0
            ==> tooltip_text(Some(t)) == joined(t.artists, ", "@) + " — "@ + album,
        t.album == Some(album) && t.artists.len() == 0 ==> tooltip_text(Some(t)) == album,
{
    if t.album == Some(album) && t.artists.len() == 0 && album.len() == 0 {
        assert(tooltip_text(Some(t)) =~= album);
    }
}

/// A change of track or state shows on the icon; the position and what
/// happens to the queue, the cache, sessions, ratings and playlists do not.
pub proof fn lemma_only_the_music_moves_the_icon(event: EventView)
    ensures
        event is TrackChanged ==> shows_on_icon(event),
        event is StateChanged ==> shows_on_icon(event),
        event is Position || event is QueueChanged || event is CacheProgress || event is AuthChanged
            || event is RatingChanged || event is PlaylistsChanged ==> !shows_on_icon(event),
{
}

} // verus!
