//! The source SoundCloud: its catalogue, its session, and how its tracks
//! are resolved.

pub mod api;
pub mod auth;
pub mod parse;

use vstd::prelude::*;

use crate::catalog::{TracksPage, TracksPageView};
use crate::cookies::CookieSource;
use crate::home::opt_str;
use crate::json::{Json, JsonView};
use crate::model::{
    result_views, track_views, PlaylistId, ProviderId, Rating, ScopedIdView, SearchKind,
    SearchResult, SearchResultView, Track, TrackId, TrackView,
};
use crate::provider::{ProviderError, ProviderErrorView};
use crate::soundcloud::api::playlist_path;
use crate::soundcloud::parse::{collection_page, page_of, playlist_tracks};
use crate::text::{concat2, opt_text};
use crate::ytdlp::YtDlpRequest;

verus! {

/// The name that people are shown.
pub const DISPLAY_NAME: &'static str = "SoundCloud";

/// The formats to pick from: a file that can be kept, and a stream of
/// pieces only where there is none.
pub const SC_FORMAT: &'static str = "bestaudio[protocol*=http]/bestaudio";

/// How many pages of what is liked are read.
pub const MAX_PAGES: usize = 10;

/// Whether a result is of the kind that was asked for. Albums are
/// playlists here.
pub open spec fn of_kind(result: SearchResultView, kind: SearchKind) -> bool {
    match kind {
        SearchKind::Tracks => result is Track,
        SearchKind::Artists => result is Artist,
        SearchKind::Albums | SearchKind::Playlists => result is Playlist,
    }
}

pub fn matches_kind(result: &SearchResult, kind: SearchKind) -> (r: bool)
    ensures
        r == of_kind(result@, kind),
{
    match (kind, result) {
        (SearchKind::Tracks, SearchResult::Track(_)) => true,
        (SearchKind::Artists, SearchResult::Artist { .. }) => true,
        (SearchKind::Albums, SearchResult::Playlist(_)) => true,
        (SearchKind::Playlists, SearchResult::Playlist(_)) => true,
        _ => false,
    }
}

/// The results of a kind.
pub open spec fn kept_results(results: Seq<SearchResultView>, kind: SearchKind) -> Seq<
    SearchResultView,
> {
    results.filter(|r: SearchResultView| of_kind(r, kind))
}

/// Keeps the results of the kind that was asked for.
pub fn filter_kind(results: Vec<SearchResult>, kind: SearchKind) -> (r: Vec<SearchResult>)
    ensures
        result_views(r@) == kept_results(result_views(results@), kind),
{
    let ghost whole = results@;
    let ghost all = result_views(whole);
    let ghost pred = |r: SearchResultView| of_kind(r, kind);
    let mut out: Vec<SearchResult> = Vec::new();
    proof {
        reveal(Seq::filter);
        assert(all.subrange(0, 0).filter(pred) =~= Seq::empty());
    }
    for result in it: results
        invariant
            it.seq() == whole,
            all == result_views(whole),
            pred == (|r: SearchResultView| of_kind(r, kind)),
            result_views(out@) == all.subrange(0, it.index() as int).filter(pred),
    {
        let ghost done = it.index() as int;
        let ghost had = result_views(out@);
        let ghost view = result@;
        proof {
            reveal(Seq::filter);
            assert(all.subrange(0, done + 1).drop_last() =~= all.subrange(0, done));
            assert(all.subrange(0, done + 1).last() == view);
        }
        if matches_kind(&result, kind) {
            out.push(result);
            assert(result_views(out@) =~= had.push(view));
        }
    }
    assert(all.subrange(0, all.len() as int) =~= all);
    out
}

/// How what is liked is read, page by page.
pub struct LikedReader {
    tracks: Vec<Track>,
    next: Option<String>,
    pages: usize,
}

#[verifier::ext_equal]
pub struct LikedReaderView {
    pub tracks: Seq<TrackView>,
    /// Where the next page is.
    pub next: Option<Seq<char>>,
    pub pages: nat,
}

impl View for LikedReader {
    type V = LikedReaderView;

    closed spec fn view(&self) -> LikedReaderView {
        LikedReaderView {
            tracks: track_views(self.tracks@),
            next: opt_text(self.next),
            pages: self.pages as nat,
        }
    }
}

impl LikedReaderView {
    /// The next page to be read, unless there are too many.
    pub open spec fn wanted(self) -> Option<Seq<char>> {
        if self.pages < MAX_PAGES {
            self.next
        } else {
            None
        }
    }

    /// The reading after a page.
    pub open spec fn after(self, page: TracksPageView) -> LikedReaderView {
        LikedReaderView {
            tracks: self.tracks + page.tracks,
            next: page.next,
            pages: self.pages + 1,
        }
    }
}

impl LikedReader {
    /// A reading that has got its first page.
    pub fn start(first: TracksPage) -> (r: Self)
        ensures
            r@ == (LikedReaderView { tracks: first@.tracks, next: first@.next, pages: 1 }),
    {
        LikedReader { tracks: first.tracks, next: first.next, pages: 1 }
    }

    /// The next page to be read.
    pub fn wanted(&self) -> (r: Option<&str>)
        ensures
            opt_str(r) == self@.wanted(),
    {
        if self.pages >= MAX_PAGES {
            return None;
        }
        match &self.next {
            Some(url) => Some(url.as_str()),
            None => None,
        }
    }

    /// Takes the page that was asked for.
    pub fn take(&mut self, page: TracksPage)
        requires
            old(self)@.wanted() is Some,
        ensures
            final(self)@ == old(self)@.after(page@),
    {
        let TracksPage { tracks, next } = page;
        let mut more = tracks;
        let ghost had = track_views(self.tracks@);
        let ghost new = track_views(more@);
        self.tracks.append(&mut more);
        self.next = next;
        self.pages = self.pages + 1;
        assert(track_views(self.tracks@) =~= had + new);
    }

    /// All that was read.
    pub fn finish(self) -> (r: Vec<Track>)
        ensures
            track_views(r@) == self@.tracks,
    {
        self.tracks
    }
}

/// A reading ends: after ten pages nothing more is asked for, and a page
/// only adds to what was read.
pub proof fn lemma_liked_reading_is_bounded(r: LikedReaderView, page: TracksPageView)
    ensures
        r.pages >= MAX_PAGES ==> r.wanted() is None,
        r.after(page).tracks.subrange(0, r.tracks.len() as int) == r.tracks,
{
    assert(r.after(page).tracks.subrange(0, r.tracks.len() as int) =~= r.tracks);
}

/// A page of a playlist that is to be asked for.
#[derive(Debug, PartialEq, Eq)]
pub enum PageAsk {
    /// The first page, at the playlist's own path.
    First { path: String },
    /// A further page, at the address that the page before named.
    Further { url: String },
}

#[verifier::ext_equal]
pub enum PageAskView {
    First { path: Seq<char> },
    Further { url: Seq<char> },
}

impl View for PageAsk {
    type V = PageAskView;

    open spec fn view(&self) -> PageAskView {
        match *self {
            PageAsk::First { path } => PageAskView::First { path: path@ },
            PageAsk::Further { url } => PageAskView::Further { url: url@ },
        }
    }
}

impl PageAskView {
    pub open spec fn address(self) -> Seq<char> {
        match self {
            PageAskView::First { path } => path,
            PageAskView::Further { url } => url,
        }
    }

    /// The page in an answer: at first the tracks stand inside of the
    /// playlist, later by themselves.
    pub open spec fn page(self, answer: JsonView) -> TracksPageView {
        match self {
            PageAskView::First { .. } => page_of(answer.field("tracks"@), false),
            PageAskView::Further { .. } => page_of(Some(answer), false),
        }
    }
}

impl PageAsk {
    /// Where the page is asked for.
    pub fn address(&self) -> (r: &str)
        ensures
            r@ == self@.address(),
    {
        match self {
            PageAsk::First { path } => path.as_str(),
            PageAsk::Further { url } => url.as_str(),
        }
    }

    /// Reads the page out of the answer.
    pub fn read(&self, answer: &Json) -> (r: TracksPage)
        ensures
            r@ == self@.page(answer@),
    {
        match self {
            PageAsk::First { .. } => playlist_tracks(answer),
            PageAsk::Further { .. } => collection_page(answer),
        }
    }
}

/// Where a page of a playlist is to be asked for: the first one, or the one
/// at a cursor.
pub open spec fn page_ask(playlist: ScopedIdView, cursor: Option<Seq<char>>) -> Result<
    PageAskView,
    ProviderErrorView,
> {
    if playlist.provider != "soundcloud"@ {
        Err(ProviderErrorView::NoSuchPlaylist(playlist))
    } else {
        Ok(
            match cursor {
                Some(url) => PageAskView::Further { url },
                None => PageAskView::First {
                    path: "playlists/"@ + playlist.id + "?linked_partitioning=1"@,
                },
            },
        )
    }
}

/// Where a page of a playlist is to be asked for. A playlist of another
/// source is none here.
pub fn playlist_page(playlist: &PlaylistId, cursor: Option<&str>) -> (r: Result<
    PageAsk,
    ProviderError,
>)
    ensures
        (match r {
            Ok(ask) => Ok(ask@),
            Err(e) => Err(e@),
        }) == page_ask(playlist@, opt_str(cursor)),
{
    match own_playlist(playlist) {
        Err(e) => Err(e),
        Ok(_) => Ok(
            match cursor {
                Some(url) => PageAsk::Further { url: url.to_owned() },
                None => PageAsk::First { path: playlist_path(playlist.id.as_str(), true) },
            },
        ),
    }
}

/// How a whole playlist is read, page by page.
pub struct PlaylistReader {
    tracks: Vec<Track>,
    next: Option<String>,
    begun: bool,
}

#[verifier::ext_equal]
pub struct PlaylistReaderView {
    pub tracks: Seq<TrackView>,
    /// Where the next page is; `None` stands for the first one.
    pub next: Option<Seq<char>>,
    /// Whether there was a page already.
    pub begun: bool,
}

impl View for PlaylistReader {
    type V = PlaylistReaderView;

    closed spec fn view(&self) -> PlaylistReaderView {
        PlaylistReaderView {
            tracks: track_views(self.tracks@),
            next: opt_text(self.next),
            begun: self.begun,
        }
    }
}

impl PlaylistReaderView {
    pub open spec fn fresh() -> PlaylistReaderView {
        PlaylistReaderView { tracks: Seq::empty(), next: None, begun: false }
    }

    /// Whether another page is to be asked for.
    pub open spec fn wants_more(self) -> bool {
        !self.begun || self.next is Some
    }

    /// The reading after a page.
    pub open spec fn after(self, page: TracksPageView) -> PlaylistReaderView {
        PlaylistReaderView { tracks: self.tracks + page.tracks, next: page.next, begun: true }
    }

    /// The reading after some pages.
    pub open spec fn after_all(self, pages: Seq<TracksPageView>) -> PlaylistReaderView
        decreases pages.len(),
    {
        if pages.len() == 0 {
            self
        } else {
            self.after_all(pages.drop_last()).after(pages.last())
        }
    }
}

impl PlaylistReader {
    /// A reading that begins.
    pub fn new() -> (r: Self)
        ensures
            r@ == PlaylistReaderView::fresh(),
    {
        let r = PlaylistReader { tracks: Vec::new(), next: None, begun: false };
        assert(r@ =~= PlaylistReaderView::fresh());
        r
    }

    /// Whether another page is to be asked for.
    pub fn wants_more(&self) -> (r: bool)
        ensures
            r == self@.wants_more(),
    {
        !self.begun || self.next.is_some()
    }

    /// Where the next page is; `None` stands for the first one.
    pub fn cursor(&self) -> (r: Option<&str>)
        ensures
            opt_str(r) == self@.next,
    {
        match &self.next {
            Some(url) => Some(url.as_str()),
            None => None,
        }
    }

    /// Takes the page that was asked for.
    pub fn take(&mut self, page: TracksPage)
        requires
            old(self)@.wants_more(),
        ensures
            final(self)@ == old(self)@.after(page@),
    {
        let TracksPage { tracks, next } = page;
        let mut more = tracks;
        let ghost had = track_views(self.tracks@);
        let ghost new = track_views(more@);
        self.tracks.append(&mut more);
        self.next = next;
        self.begun = true;
        assert(track_views(self.tracks@) =~= had + new);
    }

    /// All that was read.
    pub fn finish(self) -> (r: Vec<Track>)
        ensures
            track_views(r@) == self@.tracks,
    {
        self.tracks
    }
}

/// The tracks of pages, one page behind the other.
pub open spec fn pages_tracks(pages: Seq<TracksPageView>) -> Seq<TrackView>
    decreases pages.len(),
{
    if pages.len() == 0 {
        Seq::empty()
    } else {
        pages_tracks(pages.drop_last()) + pages.last().tracks
    }
}

/// A playlist is read whole: the first page is always asked for, then the
/// one that the last page named, until a page names none, however many there
/// are. What was read is the tracks of all pages in their order.
pub proof fn lemma_playlist_is_read_whole(pages: Seq<TracksPageView>)
    ensures
        PlaylistReaderView::fresh().after_all(pages).tracks == pages_tracks(pages),
        PlaylistReaderView::fresh().after_all(pages).wants_more() <==> (pages.len() == 0
            || pages.last().next is Some),
        PlaylistReaderView::fresh().after_all(pages).next == if pages.len() == 0 {
            None
        } else {
            pages.last().next
        },
    decreases pages.len(),
{
    if pages.len() > 0 {
        lemma_playlist_is_read_whole(pages.drop_last());
    }
}

/// What a rating means for the source.
#[derive(Clone, Copy, Debug, PartialEq, Eq, Structural)]
pub enum RateCall {
    Like,
    Unlike,
    /// There is no dislike here: the rating lives with the daemon alone.
    Nothing,
}

/// Checks that a track belongs to this source.
fn own_track(track: &TrackId) -> (r: Result<(), ProviderError>)
    ensures
        match r {
            Ok(_) => track@.provider == "soundcloud"@,
            Err(e) => track@.provider != "soundcloud"@ && e@ == ProviderErrorView::NoSuchTrack(
                track@,
            ),
        },
{
    if track.provider.as_str().eq("soundcloud") {
        Ok(())
    } else {
        Err(ProviderError::NoSuchTrack(track.clone()))
    }
}

/// Checks that a playlist belongs to this source.
pub fn own_playlist(playlist: &PlaylistId) -> (r: Result<(), ProviderError>)
    ensures
        match r {
            Ok(_) => playlist@.provider == "soundcloud"@,
            Err(e) => playlist@.provider != "soundcloud"@ && e@
                == ProviderErrorView::NoSuchPlaylist(playlist@),
        },
{
    if playlist.provider.as_str().eq("soundcloud") {
        Ok(())
    } else {
        Err(ProviderError::NoSuchPlaylist(playlist.clone()))
    }
}

/// What a rating of a track means for the source.
pub fn rate(id: &TrackId, rating: Rating) -> (r: Result<RateCall, ProviderError>)
    ensures
        match r {
            Ok(call) => id@.provider == "soundcloud"@ && call == (match rating {
                Rating::Liked => RateCall::Like,
                Rating::Unrated => RateCall::Unlike,
                Rating::Disliked => RateCall::Nothing,
            }),
            Err(e) => id@.provider != "soundcloud"@ && e@ == ProviderErrorView::NoSuchTrack(id@),
        },
{
    match own_track(id) {
        Err(e) => Err(e),
        Ok(_) => Ok(
            match rating {
                Rating::Liked => RateCall::Like,
                Rating::Unrated => RateCall::Unlike,
                Rating::Disliked => RateCall::Nothing,
            },
        ),
    }
}

/// Why the tracks of a playlist cannot be changed: one of the two is not of
/// this source, or the source does not offer it.
pub open spec fn change_refused(
    playlist: ScopedIdView,
    track: ScopedIdView,
    what: Seq<char>,
) -> ProviderErrorView {
    if playlist.provider != "soundcloud"@ {
        ProviderErrorView::NoSuchPlaylist(playlist)
    } else if track.provider != "soundcloud"@ {
        ProviderErrorView::NoSuchTrack(track)
    } else {
        ProviderErrorView::Unsupported { provider: "soundcloud"@, what }
    }
}

fn refuse_change(playlist: &PlaylistId, track: &TrackId, what: &'static str) -> (r: ProviderError)
    ensures
        r@ == change_refused(playlist@, track@, what@),
{
    match own_playlist(playlist) {
        Err(e) => e,
        Ok(_) => match own_track(track) {
            Err(e) => e,
            Ok(_) => ProviderError::Unsupported { provider: ProviderId::soundcloud(), what },
        },
    }
}

/// Adding to a playlist: the source does not offer it.
pub fn playlist_add(playlist: &PlaylistId, track: &TrackId) -> (r: ProviderError)
    ensures
        r@ == change_refused(playlist@, track@, "добавление в плейлист"@),
{
    refuse_change(playlist, track, "добавление в плейлист")
}

/// Taking out of a playlist: the source does not offer it.
pub fn playlist_remove(playlist: &PlaylistId, track: &TrackId) -> (r: ProviderError)
    ensures
        r@ == change_refused(playlist@, track@, "удаление из плейлиста"@),
{
    refuse_change(playlist, track, "удаление из плейлиста")
}

/// What is asked of the resolving program for a track.
pub fn resolve_request(track: &TrackId, cookies: CookieSource) -> (r: Result<
    YtDlpRequest,
    ProviderError,
>)
    ensures
        match r {
            Ok(req) => {
                &&& track@.provider == "soundcloud"@
                &&& req.provider@ == "soundcloud"@
                &&& req.page_url@ == "https://api.soundcloud.com/tracks/"@ + track@.id
                &&& req.format@ == "bestaudio[protocol*=http]/bestaudio"@
                &&& req.extractor_args@.len() == 0
                &&& req.cookies matches Some(c) && c@ == cookies@
            },
            Err(e) => track@.provider != "soundcloud"@ && e@ == ProviderErrorView::NoSuchTrack(
                track@,
            ),
        },
{
    match own_track(track) {
        Err(e) => Err(e),
        Ok(_) => Ok(
            YtDlpRequest {
                provider: ProviderId::soundcloud(),
                page_url: concat2("https://api.soundcloud.com/tracks/", track.id.as_str()),
                format: SC_FORMAT.to_owned(),
                extractor_args: Vec::new(),
                cookies: Some(cookies),
            },
        ),
    }
}

/// A search for tracks gives tracks, one for artists artists, and one for
/// albums or playlists playlists; they keep their order and none is lost.
pub proof fn lemma_a_search_gives_what_was_asked_for(
    results: Seq<SearchResultView>,
    kind: SearchKind,
    r: SearchResultView,
)
    ensures
        of_kind(r, SearchKind::Tracks) <==> r is Track,
        of_kind(r, SearchKind::Artists) <==> r is Artist,
        of_kind(r, SearchKind::Albums) <==> r is Playlist,
        of_kind(r, SearchKind::Playlists) <==> r is Playlist,
        kind == SearchKind::Tracks ==> kept_results(results, kind) == results.filter(
            |r: SearchResultView| r is Track,
        ),
        kind == SearchKind::Artists ==> kept_results(results, kind) == results.filter(
            |r: SearchResultView| r is Artist,
        ),
        kind == SearchKind::Albums || kind == SearchKind::Playlists ==> kept_results(results, kind)
            == results.filter(|r: SearchResultView| r is Playlist),
    decreases results.len(),
{
    reveal(Seq::filter);
    if results.len() > 0 {
        lemma_a_search_gives_what_was_asked_for(results.drop_last(), kind, r);
    }
}

/// What is liked is read page by page, ten at most: the next page is the
/// one that the last one named, and its tracks come behind those before.
pub proof fn lemma_likes_are_read_page_by_page(
    r: LikedReaderView,
    page: TracksPageView,
    pages: Seq<TracksPageView>,
)
    ensures
        r.pages < 10 ==> r.wanted() == r.next,
        r.pages >= 10 ==> r.wanted() is None,
        r.after(page).tracks == r.tracks + page.tracks,
        r.after(page).next == page.next,
        r.after(page).pages == r.pages + 1,
        pages_tracks(pages) == pages.map_values(|p: TracksPageView| p.tracks).flatten_alt(),
    decreases pages.len(),
{
    if pages.len() > 0 {
        let lists = pages.map_values(|p: TracksPageView| p.tracks);
        let rest = pages.drop_last();
        lemma_likes_are_read_page_by_page(r, page, rest);
        assert(lists.drop_last() =~= rest.map_values(|p: TracksPageView| p.tracks));
        assert(pages_tracks(pages) =~= lists.flatten_alt());
    }
}

/// A playlist's first page is asked for by its id, and each further one at
/// the address that was named; the tracks of the first stand inside of the
/// playlist and are read like those of any other. A playlist of another
/// source is none here, and neither are changes that the source does not
/// offer.
pub proof fn lemma_pages_are_asked_for_one_by_one(
    playlist: ScopedIdView,
    track: ScopedIdView,
    url: Seq<char>,
    answer: JsonView,
    list: JsonView,
    what: Seq<char>,
)
    ensures
        playlist.provider == "soundcloud"@ ==> {
            &&& page_ask(playlist, Some(url)) matches Ok(further)
            &&& further.address() == url
            &&& page_ask(playlist, None) matches Ok(first)
            &&& first.address() == "playlists/"@ + playlist.id + "?linked_partitioning=1"@
            &&& answer.field("tracks"@) == Some(list) ==> first.page(answer) == further.page(list)
        },
        playlist.provider != "soundcloud"@ ==> page_ask(playlist, None) == Err::<
            PageAskView,
            ProviderErrorView,
        >(ProviderErrorView::NoSuchPlaylist(playlist)) && page_ask(playlist, Some(url)) is Err,
        playlist.provider == "soundcloud"@ && track.provider == "soundcloud"@ ==> change_refused(
            playlist,
            track,
            what,
        ) == (ProviderErrorView::Unsupported { provider: "soundcloud"@, what }),
        playlist.provider != "soundcloud"@ ==> change_refused(playlist, track, what)
            == ProviderErrorView::NoSuchPlaylist(playlist),
        playlist.provider == "soundcloud"@ && track.provider != "soundcloud"@ ==> change_refused(
            playlist,
            track,
            what,
        ) == ProviderErrorView::NoSuchTrack(track),
{
}

} // verus!
