//! Reading the answers of the service.
//!
//! The answers have no fixed shape: a field may be missing or renamed at
//! any time. A record that cannot be read costs that record, not the whole
//! answer.

use vstd::prelude::*;

use crate::catalog::{TracksPage, TracksPageView};
use crate::json::{json_views, Json, JsonView};
use crate::model::{
    playlist_views, result_views, shelf_views, track_views, CatalogShelf, CatalogShelfView,
    Playlist, PlaylistId, PlaylistView, ProviderId, ScopedIdView, SearchResult, SearchResultView,
    Track, TrackId, TrackView,
};
use crate::text::{contains, contains_text, decimal, decimal_text, opt_text, texts};
use crate::time::{Duration, NANOS_PER_MILLI};

verus! {

/// The values that a reading gives for items, in order; those that cannot
/// be read are left out.
pub open spec fn readable<T>(items: Seq<JsonView>, read: spec_fn(JsonView) -> Option<T>) -> Seq<T>
    decreases items.len(),
{
    if items.len() == 0 {
        Seq::empty()
    } else {
        let before = readable(items.drop_last(), read);
        match read(items.last()) {
            Some(t) => before.push(t),
            None => before,
        }
    }
}

/// The picture of a record: its own, or its author's.
pub open spec fn picture_of(v: JsonView, user: JsonView) -> Option<Seq<char>> {
    match v.text_field("artwork_url"@) {
        Some(url) => Some(url),
        None => user.text_field("avatar_url"@),
    }
}

fn picture(v: &Json, user: &Json) -> (r: Option<String>)
    ensures
        opt_text(r) == picture_of(v@, user@),
{
    match v.owned_text_field("artwork_url") {
        Some(url) => Some(url),
        None => user.owned_text_field("avatar_url"),
    }
}

/// An id at this source. The service gives numbers.
pub open spec fn scoped(id: u64) -> ScopedIdView {
    ScopedIdView { provider: "soundcloud"@, id: decimal_text(id as nat) }
}

/// The track that a record describes.
pub open spec fn track_of(v: JsonView) -> Option<TrackView> {
    match (v.unsigned_field("id"@), v.text_field("title"@), v.field("user"@)) {
        (Some(id), Some(title), Some(user)) => match user.text_field("username"@) {
            Some(artist) => Some(
                TrackView {
                    id: scoped(id),
                    title,
                    artists: seq![artist],
                    album: None,
                    duration: match v.unsigned_field("duration"@) {
                        Some(ms) => Some(Duration::spanning((ms * NANOS_PER_MILLI) as nat)),
                        None => None,
                    },
                    art_url: picture_of(v, user),
                    page_url: v.text_field("permalink_url"@),
                },
            ),
            None => None,
        },
        _ => None,
    }
}

pub open spec fn opt_track_view(t: Option<Track>) -> Option<TrackView> {
    match t {
        Some(t) => Some(t@),
        None => None,
    }
}

/// The track that a record describes.
pub fn track(v: &Json) -> (r: Option<Track>)
    ensures
        opt_track_view(r) == track_of(v@),
{
    let id: u64 = match v.unsigned_field("id") {
        Some(id) => id,
        None => return None,
    };
    let title = match v.owned_text_field("title") {
        Some(t) => t,
        None => return None,
    };
    let user = match v.field("user") {
        Some(u) => u,
        None => return None,
    };
    let artist = match user.owned_text_field("username") {
        Some(a) => a,
        None => return None,
    };
    let ghost name = artist@;
    let mut artists: Vec<String> = Vec::new();
    artists.push(artist);
    assert(texts(artists@) =~= seq![name]);
    let duration: Option<Duration> = match v.unsigned_field("duration") {
        Some(ms) => Some(Duration::from_millis(ms)),
        None => None,
    };
    Some(
        Track {
            id: TrackId::new(ProviderId::soundcloud(), decimal(id).as_str()),
            title,
            artists,
            album: None,
            duration,
            art_url: picture(v, user),
            page_url: v.owned_text_field("permalink_url"),
        },
    )
}

/// The playlist that a record describes.
pub open spec fn playlist_of(v: JsonView) -> Option<PlaylistView> {
    match (v.unsigned_field("id"@), v.text_field("title"@), v.field("user"@)) {
        (Some(id), Some(title), Some(user)) => Some(
            PlaylistView {
                id: scoped(id),
                title,
                subtitle: user.text_field("username"@),
                art_url: picture_of(v, user),
                track_count: match v.unsigned_field("track_count"@) {
                    Some(n) => Some((n % 0x1_0000_0000) as u32),
                    None => None,
                },
            },
        ),
        _ => None,
    }
}

pub open spec fn opt_playlist_view(p: Option<Playlist>) -> Option<PlaylistView> {
    match p {
        Some(p) => Some(p@),
        None => None,
    }
}

/// The playlist that a record describes.
pub fn playlist(v: &Json) -> (r: Option<Playlist>)
    ensures
        opt_playlist_view(r) == playlist_of(v@),
{
    let id: u64 = match v.unsigned_field("id") {
        Some(id) => id,
        None => return None,
    };
    let title = match v.owned_text_field("title") {
        Some(t) => t,
        None => return None,
    };
    let user = match v.field("user") {
        Some(u) => u,
        None => return None,
    };
    let track_count: Option<u32> = match v.unsigned_field("track_count") {
        Some(n) => Some((n % 0x1_0000_0000) as u32),
        None => None,
    };
    Some(
        Playlist {
            id: PlaylistId::new(ProviderId::soundcloud(), decimal(id).as_str()),
            title,
            subtitle: user.owned_text_field("username"),
            art_url: picture(v, user),
            track_count,
        },
    )
}

/// The artist that a record describes.
pub open spec fn artist_of(v: JsonView) -> Option<SearchResultView> {
    match (v.unsigned_field("id"@), v.text_field("username"@)) {
        (Some(id), Some(name)) => Some(
            SearchResultView::Artist {
                provider: "soundcloud"@,
                id: decimal_text(id as nat),
                name,
            },
        ),
        _ => None,
    }
}

pub open spec fn opt_result_view(p: Option<SearchResult>) -> Option<SearchResultView> {
    match p {
        Some(p) => Some(p@),
        None => None,
    }
}

/// The artist that a record describes.
pub fn artist(v: &Json) -> (r: Option<SearchResult>)
    ensures
        opt_result_view(r) == artist_of(v@),
{
    match v.unsigned_field("id") {
        Some(id) => match v.owned_text_field("username") {
            Some(name) => Some(
                SearchResult::Artist { provider: ProviderId::soundcloud(), id: decimal(id), name },
            ),
            None => None,
        },
        None => None,
    }
}

/// What an item wraps under `key`, or the item itself where it is bare.
pub open spec fn unwrapped(item: JsonView, key: Seq<char>) -> JsonView {
    match item.field(key) {
        Some(inner) => inner,
        None => item,
    }
}

fn unwrap_item<'a>(item: &'a Json, key: &str) -> (r: &'a Json)
    ensures
        r@ == unwrapped(item@, key@),
{
    match item.field(key) {
        Some(inner) => inner,
        None => item,
    }
}

/// The result that an item of a search describes.
pub open spec fn result_of(item: JsonView) -> Option<SearchResultView> {
    let kind = item.text_field("kind"@);
    if kind == Some("track"@) {
        match track_of(unwrapped(item, "track"@)) {
            Some(t) => Some(SearchResultView::Track(t)),
            None => None,
        }
    } else if kind == Some("playlist"@) || kind == Some("album"@) {
        match playlist_of(unwrapped(item, "playlist"@)) {
            Some(p) => Some(SearchResultView::Playlist(p)),
            None => None,
        }
    } else {
        artist_of(unwrapped(item, "user"@))
    }
}

fn search_result(item: &Json) -> (r: Option<SearchResult>)
    ensures
        opt_result_view(r) == result_of(item@),
{
    let kind: &str = match item.text_field("kind") {
        Some(k) => k,
        None => return artist(unwrap_item(item, "user")),
    };
    if kind.eq("track") {
        match track(unwrap_item(item, "track")) {
            Some(t) => Some(SearchResult::Track(t)),
            None => None,
        }
    } else if kind.eq("playlist") || kind.eq("album") {
        match playlist(unwrap_item(item, "playlist")) {
            Some(p) => Some(SearchResult::Playlist(p)),
            None => None,
        }
    } else {
        artist(unwrap_item(item, "user"))
    }
}

/// The items of an answer.
pub open spec fn items_of(v: Option<JsonView>) -> Seq<JsonView> {
    match v {
        Some(v) => match v.list_field("collection"@) {
            Some(items) => items,
            None => Seq::empty(),
        },
        None => Seq::empty(),
    }
}

/// The results of a search.
pub open spec fn results_of(value: JsonView) -> Seq<SearchResultView> {
    readable(items_of(Some(value)), |item: JsonView| result_of(item))
}

/// The results of a search.
pub fn search_results(value: &Json) -> (r: Vec<SearchResult>)
    ensures
        result_views(r@) == results_of(value@),
{
    let ghost read = |item: JsonView| result_of(item);
    let ghost all = items_of(Some(value@));
    let mut out: Vec<SearchResult> = Vec::new();
    assert(result_views(out@) =~= Seq::empty());
    if let Some(items) = value.list_field("collection") {
        let mut i: usize = 0;
        assert(all.subrange(0, 0) =~= Seq::empty());
        while i < items.len()
            invariant
                i <= items@.len(),
                all == json_views(items@),
                read == (|item: JsonView| result_of(item)),
                result_views(out@) == readable(all.subrange(0, i as int), read),
            decreases items@.len() - i,
        {
            let ghost had = result_views(out@);
            assert(all[i as int] == items@[i as int]@);
            assert(all.subrange(0, i + 1).drop_last() =~= all.subrange(0, i as int));
            if let Some(found) = search_result(&items[i]) {
                let ghost view = found@;
                out.push(found);
                assert(result_views(out@) =~= had.push(view));
            }
            i += 1;
        }
        assert(all.subrange(0, i as int) =~= all);
    }
    out
}

/// The playlists of an answer.
pub open spec fn playlists_of(value: JsonView) -> Seq<PlaylistView> {
    readable(items_of(Some(value)), |item: JsonView| playlist_of(item))
}

/// The playlists of an answer.
pub fn playlists(value: &Json) -> (r: Vec<Playlist>)
    ensures
        playlist_views(r@) == playlists_of(value@),
{
    let ghost read = |item: JsonView| playlist_of(item);
    let ghost all = items_of(Some(value@));
    let mut out: Vec<Playlist> = Vec::new();
    assert(playlist_views(out@) =~= Seq::empty());
    if let Some(items) = value.list_field("collection") {
        let mut i: usize = 0;
        assert(all.subrange(0, 0) =~= Seq::empty());
        while i < items.len()
            invariant
                i <= items@.len(),
                all == json_views(items@),
                read == (|item: JsonView| playlist_of(item)),
                playlist_views(out@) == readable(all.subrange(0, i as int), read),
            decreases items@.len() - i,
        {
            let ghost had = playlist_views(out@);
            assert(all[i as int] == items@[i as int]@);
            assert(all.subrange(0, i + 1).drop_last() =~= all.subrange(0, i as int));
            if let Some(found) = playlist(&items[i]) {
                let ghost view = found@;
                out.push(found);
                assert(playlist_views(out@) =~= had.push(view));
            }
            i += 1;
        }
        assert(all.subrange(0, i as int) =~= all);
    }
    out
}

/// The track of an item; where items may wrap it (`wrapped`), from inside.
pub open spec fn item_track(item: JsonView, wrapped: bool) -> Option<TrackView> {
    track_of(
        if wrapped {
            unwrapped(item, "track"@)
        } else {
            item
        },
    )
}

/// A page of tracks: the tracks of its collection, and where the next page
/// is.
pub open spec fn page_of(value: Option<JsonView>, wrapped: bool) -> TracksPageView {
    TracksPageView {
        tracks: readable(items_of(value), |item: JsonView| item_track(item, wrapped)),
        next: match value {
            Some(v) => v.text_field("next_href"@),
            None => None,
        },
    }
}

pub open spec fn opt_json(v: Option<&Json>) -> Option<JsonView> {
    match v {
        Some(v) => Some(v@),
        None => None,
    }
}

fn tracks_page(value: Option<&Json>, wrapped: bool) -> (r: TracksPage)
    ensures
        r@ == page_of(opt_json(value), wrapped),
{
    let ghost read = |item: JsonView| item_track(item, wrapped);
    let ghost all = items_of(opt_json(value));
    let mut tracks: Vec<Track> = Vec::new();
    assert(track_views(tracks@) =~= Seq::empty());
    let v: &Json = match value {
        Some(v) => v,
        None => return TracksPage { tracks, next: None },
    };
    if let Some(items) = v.list_field("collection") {
        let mut i: usize = 0;
        assert(all.subrange(0, 0) =~= Seq::empty());
        while i < items.len()
            invariant
                i <= items@.len(),
                all == json_views(items@),
                read == (|item: JsonView| item_track(item, wrapped)),
                track_views(tracks@) == readable(all.subrange(0, i as int), read),
            decreases items@.len() - i,
        {
            let ghost had = track_views(tracks@);
            assert(all[i as int] == items@[i as int]@);
            assert(all.subrange(0, i + 1).drop_last() =~= all.subrange(0, i as int));
            let item: &Json = if wrapped {
                unwrap_item(&items[i], "track")
            } else {
                &items[i]
            };
            if let Some(found) = track(item) {
                let ghost view = found@;
                tracks.push(found);
                assert(track_views(tracks@) =~= had.push(view));
            }
            i += 1;
        }
        assert(all.subrange(0, i as int) =~= all);
    }
    TracksPage { tracks, next: v.owned_text_field("next_href") }
}

/// The first page of a playlist's tracks: they stand under `tracks`.
pub fn playlist_tracks(value: &Json) -> (r: TracksPage)
    ensures
        r@ == page_of(value@.field("tracks"@), false),
{
    tracks_page(value.field("tracks"), false)
}

/// A further page of tracks.
pub fn collection_page(value: &Json) -> (r: TracksPage)
    ensures
        r@ == page_of(Some(value@), false),
{
    tracks_page(Some(value), false)
}

/// A page of what is liked: each item is a track, or wraps one.
pub fn liked_of(value: &Json) -> (r: TracksPage)
    ensures
        r@ == page_of(Some(value@), true),
{
    tracks_page(Some(value), true)
}

/// The kind of an item of the feed.
pub open spec fn feed_kind(item: JsonView) -> Seq<char> {
    match item.text_field("type"@) {
        Some(kind) => kind,
        None => ""@,
    }
}

/// The track that an item of the feed is about.
pub open spec fn feed_track(item: JsonView) -> Option<SearchResultView> {
    if contains_text(feed_kind(item), "track"@) {
        match track_of(unwrapped(item, "track"@)) {
            Some(t) => Some(SearchResultView::Track(t)),
            None => None,
        }
    } else {
        None
    }
}

/// The playlist that an item of the feed is about.
pub open spec fn feed_playlist(item: JsonView) -> Option<SearchResultView> {
    if !contains_text(feed_kind(item), "track"@) && contains_text(
        feed_kind(item),
        "playlist"@,
    ) {
        match playlist_of(unwrapped(item, "playlist"@)) {
            Some(p) => Some(SearchResultView::Playlist(p)),
            None => None,
        }
    } else {
        None
    }
}

/// One shelf; none where it would be empty.
pub open spec fn shelf_of(title: Seq<char>, items: Seq<SearchResultView>) -> Seq<
    CatalogShelfView,
> {
    if items.len() == 0 {
        Seq::empty()
    } else {
        seq![CatalogShelfView { title, subtitle: None, items }]
    }
}

/// The shelves of the feed: tracks, then playlists.
pub open spec fn shelves_of(value: JsonView) -> Seq<CatalogShelfView> {
    let items = items_of(Some(value));
    shelf_of("Tracks"@, readable(items, |item: JsonView| feed_track(item))) + shelf_of(
        "Playlists"@,
        readable(items, |item: JsonView| feed_playlist(item)),
    )
}

/// The shelves of the feed.
pub fn stream_shelves(value: &Json) -> (r: Vec<CatalogShelf>)
    ensures
        shelf_views(r@) == shelves_of(value@),
{
    let ghost read_track = |item: JsonView| feed_track(item);
    let ghost read_list = |item: JsonView| feed_playlist(item);
    let ghost all = items_of(Some(value@));
    let mut tracks: Vec<SearchResult> = Vec::new();
    let mut lists: Vec<SearchResult> = Vec::new();
    assert(result_views(tracks@) =~= Seq::empty());
    assert(result_views(lists@) =~= Seq::empty());
    if let Some(items) = value.list_field("collection") {
        let mut i: usize = 0;
        assert(all.subrange(0, 0) =~= Seq::empty());
        while i < items.len()
            invariant
                i <= items@.len(),
                all == json_views(items@),
                read_track == (|item: JsonView| feed_track(item)),
                read_list == (|item: JsonView| feed_playlist(item)),
                result_views(tracks@) == readable(all.subrange(0, i as int), read_track),
                result_views(lists@) == readable(all.subrange(0, i as int), read_list),
            decreases items@.len() - i,
        {
            let ghost had_tracks = result_views(tracks@);
            let ghost had_lists = result_views(lists@);
            assert(all[i as int] == items@[i as int]@);
            assert(all.subrange(0, i + 1).drop_last() =~= all.subrange(0, i as int));
            let kind: &str = match items[i].text_field("type") {
                Some(k) => k,
                None => "",
            };
            if contains(kind, "track") {
                if let Some(t) = track(unwrap_item(&items[i], "track")) {
                    let ghost view = t@;
                    tracks.push(SearchResult::Track(t));
                    assert(result_views(tracks@) =~= had_tracks.push(
                        SearchResultView::Track(view),
                    ));
                }
            } else if contains(kind, "playlist") {
                if let Some(p) = playlist(unwrap_item(&items[i], "playlist")) {
                    let ghost view = p@;
                    lists.push(SearchResult::Playlist(p));
                    assert(result_views(lists@) =~= had_lists.push(
                        SearchResultView::Playlist(view),
                    ));
                }
            }
            i += 1;
        }
        assert(all.subrange(0, i as int) =~= all);
    }
    let ghost tv = result_views(tracks@);
    let ghost lv = result_views(lists@);
    let mut shelves: Vec<CatalogShelf> = Vec::new();
    if tracks.len() > 0 {
        shelves.push(CatalogShelf { title: "Tracks".to_owned(), subtitle: None, items: tracks });
    }
    assert(shelf_views(shelves@) =~= shelf_of("Tracks"@, tv));
    if lists.len() > 0 {
        shelves.push(
            CatalogShelf { title: "Playlists".to_owned(), subtitle: None, items: lists },
        );
    }
    assert(shelf_views(shelves@) =~= shelf_of("Tracks"@, tv) + shelf_of("Playlists"@, lv));
    shelves
}

/// The suggestions of an answer.
pub open spec fn queries_of(value: JsonView) -> Seq<Seq<char>> {
    readable(items_of(Some(value)), |item: JsonView| item.text_field("query"@))
}

/// The suggestions of an answer.
pub fn suggestions_of(value: &Json) -> (r: Vec<String>)
    ensures
        texts(r@) == queries_of(value@),
{
    let ghost read = |item: JsonView| item.text_field("query"@);
    let ghost all = items_of(Some(value@));
    let mut out: Vec<String> = Vec::new();
    assert(texts(out@) =~= Seq::empty());
    if let Some(items) = value.list_field("collection") {
        let mut i: usize = 0;
        assert(all.subrange(0, 0) =~= Seq::empty());
        while i < items.len()
            invariant
                i <= items@.len(),
                all == json_views(items@),
                read == (|item: JsonView| item.text_field("query"@)),
                texts(out@) == readable(all.subrange(0, i as int), read),
            decreases items@.len() - i,
        {
            let ghost had = texts(out@);
            assert(all[i as int] == items@[i as int]@);
            assert(all.subrange(0, i + 1).drop_last() =~= all.subrange(0, i as int));
            if let Some(query) = items[i].owned_text_field("query") {
                let ghost view = query@;
                out.push(query);
                assert(texts(out@) =~= had.push(view));
            }
            i += 1;
        }
        assert(all.subrange(0, i as int) =~= all);
    }
    out
}

/// A record that cannot be read costs that record alone: the others come
/// out as if it were not there.
pub proof fn lemma_bad_records_cost_themselves<T>(
    before: Seq<JsonView>,
    bad: JsonView,
    after: Seq<JsonView>,
    read: spec_fn(JsonView) -> Option<T>,
)
    requires
        read(bad) is None,
    ensures
        readable(before.push(bad) + after, read) == readable(before + after, read),
    decreases after.len(),
{
    if after.len() == 0 {
        assert(before.push(bad) + after =~= before.push(bad));
        assert(before + after =~= before);
        assert(before.push(bad).drop_last() =~= before);
    } else {
        let rest = after.drop_last();
        lemma_bad_records_cost_themselves(before, bad, rest, read);
        assert((before.push(bad) + after).drop_last() =~= before.push(bad) + rest);
        assert((before + after).drop_last() =~= before + rest);
    }
}

/// A record as the service writes it: a numeric id, a title, and a user.
pub open spec fn titled_record(v: JsonView, id: u64, title: Seq<char>, user: JsonView) -> bool {
    &&& v.field("id"@) matches Some(JsonView::Number(n)) && n.unsigned == Some(id)
    &&& v.field("title"@) == Some(JsonView::Text(title))
    &&& v.field("user"@) == Some(user)
}

/// A record of a track, as the service writes it: a numeric id, a title, and
/// a user with a name.
pub open spec fn record_of(
    v: JsonView,
    id: u64,
    title: Seq<char>,
    user: JsonView,
    name: Seq<char>,
) -> bool {
    &&& v.field("id"@) matches Some(JsonView::Number(n)) && n.unsigned == Some(id)
    &&& v.field("title"@) == Some(JsonView::Text(title))
    &&& v.field("user"@) == Some(user)
    &&& user.field("username"@) == Some(JsonView::Text(name))
}

/// A track is read from every record with an id, a title and a user's name,
/// as the service means it; length, picture and page come along where they
/// are there. A record without one of the former is no track.
pub proof fn lemma_track_is_what_the_record_says(
    v: JsonView,
    id: u64,
    title: Seq<char>,
    user: JsonView,
    name: Seq<char>,
)
    ensures
        record_of(v, id, title, user, name) ==> {
            &&& track_of(v) matches Some(t)
            &&& t.id.provider == "soundcloud"@
            &&& t.id.id == decimal_text(id as nat)
            &&& t.title == title
            &&& t.artists == seq![name]
            &&& t.album is None
            &&& match v.field("duration"@) {
                Some(JsonView::Number(n)) => match n.unsigned {
                    Some(ms) => t.duration matches Some(d) && d@ == ms * 1_000_000,
                    None => t.duration is None,
                },
                _ => t.duration is None,
            }
            &&& t.page_url == (match v.field("permalink_url"@) {
                Some(JsonView::Text(url)) => Some(url),
                _ => None,
            })
            &&& t.art_url == (match (v.field("artwork_url"@), user.field("avatar_url"@)) {
                (Some(JsonView::Text(url)), _) => Some(url),
                (_, Some(JsonView::Text(url))) => Some(url),
                _ => None,
            })
        },
        track_of(v) is Some ==> {
            &&& v.field("id"@) matches Some(JsonView::Number(n)) && n.unsigned is Some
            &&& v.field("title"@) matches Some(JsonView::Text(_))
            &&& v.field("user"@) matches Some(u) && u.field("username"@) matches Some(
                JsonView::Text(_),
            )
        },
{
    if let Some(ms) = v.unsigned_field("duration"@) {
        Duration::lemma_spanning((ms * NANOS_PER_MILLI) as nat);
    }
}

/// A playlist is read from every record with an id, a title and a user.
pub proof fn lemma_playlist_is_what_the_record_says(
    v: JsonView,
    id: u64,
    title: Seq<char>,
    user: JsonView,
)
    ensures
        titled_record(v, id, title, user) ==> {
            &&& playlist_of(v) matches Some(p)
            &&& p.id.provider == "soundcloud"@
            &&& p.id.id == decimal_text(id as nat)
            &&& p.title == title
            &&& p.subtitle == (match user.field("username"@) {
                Some(JsonView::Text(name)) => Some(name),
                _ => None,
            })
            &&& p.art_url == (match (v.field("artwork_url"@), user.field("avatar_url"@)) {
                (Some(JsonView::Text(url)), _) => Some(url),
                (_, Some(JsonView::Text(url))) => Some(url),
                _ => None,
            })
            &&& match v.field("track_count"@) {
                Some(JsonView::Number(n)) => match n.unsigned {
                    Some(count) => count <= u32::MAX ==> p.track_count == Some(count as u32),
                    None => p.track_count is None,
                },
                _ => p.track_count is None,
            }
        },
        playlist_of(v) is Some ==> {
            &&& v.field("id"@) matches Some(JsonView::Number(n)) && n.unsigned is Some
            &&& v.field("title"@) matches Some(JsonView::Text(_))
            &&& v.field("user"@) is Some
        },
{
}

/// The record inside an item: what it wraps, or the item itself.
proof fn lemma_unwrapped(item: JsonView, key: Seq<char>)
    ensures
        item.field(key) matches Some(inner) ==> unwrapped(item, key) == inner,
        item.field(key) is None ==> unwrapped(item, key) == item,
{
}

/// A search finds what an item describes, wrapped or bare: an item of the
/// kind `track` is a track, one of the kind `playlist` or `album` a
/// playlist, and every other one a user.
pub proof fn lemma_search_takes_items_wrapped_and_bare(item: JsonView, inner: JsonView)
    requires
        ({
            let key = match item.field("kind"@) {
                Some(JsonView::Text(kind)) => if kind == "track"@ {
                    "track"@
                } else if kind == "playlist"@ || kind == "album"@ {
                    "playlist"@
                } else {
                    "user"@
                },
                _ => "user"@,
            };
            item.field(key) == Some(inner) || (item.field(key) is None && inner == item)
        }),
    ensures
        item.field("kind"@) == Some(JsonView::Text("track"@)) ==> result_of(item) == (
        match track_of(inner) {
            Some(t) => Some(SearchResultView::Track(t)),
            None => None,
        }),
        item.field("kind"@) == Some(JsonView::Text("playlist"@)) || item.field("kind"@) == Some(
            JsonView::Text("album"@),
        ) ==> result_of(item) == (match playlist_of(inner) {
            Some(p) => Some(SearchResultView::Playlist(p)),
            None => None,
        }),
        !(item.field("kind"@) matches Some(JsonView::Text(kind)) && (kind == "track"@ || kind
            == "playlist"@ || kind == "album"@)) ==> match (
            inner.field("id"@),
            inner.field("username"@),
        ) {
            (Some(JsonView::Number(n)), Some(JsonView::Text(name))) => match n.unsigned {
                Some(id) => result_of(item) == Some(
                    SearchResultView::Artist {
                        provider: "soundcloud"@,
                        id: decimal_text(id as nat),
                        name,
                    },
                ),
                None => result_of(item) is None,
            },
            _ => result_of(item) is None,
        },
{
    reveal_strlit("track");
    reveal_strlit("playlist");
    reveal_strlit("album");
    assert("track"@ != "playlist"@) by {
        assert("track"@.len() != "playlist"@.len());
    }
    assert("track"@ != "album"@) by {
        assert("track"@[0] != "album"@[0]);
    }
    lemma_unwrapped(item, "track"@);
    lemma_unwrapped(item, "playlist"@);
    lemma_unwrapped(item, "user"@);
}

/// A record without a kind of its own.
pub open spec fn plain_record(entries: Seq<(Seq<char>, JsonView)>) -> bool {
    forall|i: int|
        0 <= i < entries.len() ==> (#[trigger] entries[i]).0 != "kind"@ && entries[i].0 != "track"@
}

/// Whether an answer wraps a track or gives it bare makes no difference:
/// the record under `track` and the same record with its kind in it are one
/// result.
pub proof fn lemma_wrapped_and_bare_tracks_are_one(entries: Seq<(Seq<char>, JsonView)>)
    requires
        plain_record(entries),
    ensures
        ({
            let kind = ("kind"@, JsonView::Text("track"@));
            let wrapped = JsonView::Object(seq![kind, ("track"@, JsonView::Object(entries))]);
            let bare = JsonView::Object(entries.push(kind));
            &&& result_of(wrapped) == result_of(bare)
            &&& track_of(JsonView::Object(entries)) matches Some(t) ==> result_of(bare) == Some(
                SearchResultView::Track(t),
            )
        }),
{
    let record = JsonView::Object(entries);
    let kind = ("kind"@, JsonView::Text("track"@));
    let list = seq![kind, ("track"@, record)];
    let wrapped = JsonView::Object(list);
    let more = entries.push(kind);
    let bare = JsonView::Object(more);
    reveal_strlit("kind");
    reveal_strlit("track");
    reveal_strlit("id");
    reveal_strlit("title");
    reveal_strlit("user");
    reveal_strlit("duration");
    reveal_strlit("artwork_url");
    reveal_strlit("permalink_url");
    assert("kind"@.len() == 4);
    assert("track"@.len() == 5);
    reveal_with_fuel(JsonView::entry_from, 3);
    assert(wrapped.field("kind"@) == Some(kind.1));
    assert(wrapped.field("track"@) == Some(record)) by {
        assert("kind"@ != "track"@);
    }
    lemma_entry_behind(entries, kind, "kind"@, 0);
    lemma_entry_behind(entries, kind, "track"@, 0);
    lemma_absent(entries, "kind"@, 0);
    lemma_absent(entries, "track"@, 0);
    lemma_search_takes_items_wrapped_and_bare(wrapped, record);
    lemma_search_takes_items_wrapped_and_bare(bare, bare);
    assert("kind"@ != "id"@);
    assert("kind"@ != "title"@);
    assert("kind"@ != "user"@) by {
        assert("kind"@[0] != "user"@[0]);
    }
    assert("kind"@ != "duration"@);
    assert("kind"@ != "artwork_url"@);
    assert("kind"@ != "permalink_url"@);
    lemma_entry_behind(entries, kind, "id"@, 0);
    lemma_entry_behind(entries, kind, "title"@, 0);
    lemma_entry_behind(entries, kind, "user"@, 0);
    lemma_entry_behind(entries, kind, "duration"@, 0);
    lemma_entry_behind(entries, kind, "artwork_url"@, 0);
    lemma_entry_behind(entries, kind, "permalink_url"@, 0);
    assert(track_of(bare) == track_of(record));
}

proof fn lemma_absent(entries: Seq<(Seq<char>, JsonView)>, key: Seq<char>, from: int)
    requires
        0 <= from,
        forall|i: int| 0 <= i < entries.len() ==> (#[trigger] entries[i]).0 != key,
    ensures
        JsonView::entry_from(entries, key, from) is None,
    decreases entries.len() - from,
{
    if from < entries.len() {
        lemma_absent(entries, key, from + 1);
    }
}

proof fn lemma_entry_behind(
    entries: Seq<(Seq<char>, JsonView)>,
    more: (Seq<char>, JsonView),
    key: Seq<char>,
    from: int,
)
    requires
        0 <= from <= entries.len(),
    ensures
        JsonView::entry_from(entries.push(more), key, from) == match JsonView::entry_from(
            entries,
            key,
            from,
        ) {
            Some(v) => Some(v),
            None => if more.0 == key {
                Some(more.1)
            } else {
                None
            },
        },
    decreases entries.len() - from,
{
    reveal_with_fuel(JsonView::entry_from, 2);
    if from < entries.len() {
        lemma_entry_behind(entries, more, key, from + 1);
    }
}

proof fn lemma_readable_is_filter_map<T>(
    items: Seq<JsonView>,
    read: spec_fn(JsonView) -> Option<T>,
)
    ensures
        readable(items, read) == items.filter_map(read),
    decreases items.len(),
{
    if items.len() > 0 {
        lemma_readable_is_filter_map(items.drop_last(), read);
        assert(readable(items, read) =~= items.filter_map(read));
    }
}

/// The items of an answer are what its `collection` lists.
pub open spec fn listed(value: JsonView, items: Seq<JsonView>) -> bool {
    value.field("collection"@) == Some(JsonView::List(items))
}

/// An answer is read whole and in order: what each item of its collection
/// describes, and nothing else. An answer without a collection is empty.
pub proof fn lemma_answers_are_read_whole(value: JsonView, items: Seq<JsonView>)
    ensures
        listed(value, items) ==> {
            &&& results_of(value) == items.filter_map(|item: JsonView| result_of(item))
            &&& playlists_of(value) == items.filter_map(|item: JsonView| playlist_of(item))
            &&& queries_of(value) == items.filter_map(
                |item: JsonView| item.text_field("query"@),
            )
            &&& page_of(Some(value), false).tracks == items.filter_map(
                |item: JsonView| item_track(item, false),
            )
            &&& page_of(Some(value), true).tracks == items.filter_map(
                |item: JsonView| item_track(item, true),
            )
        },
        !(value.field("collection"@) matches Some(JsonView::List(_))) ==> {
            &&& results_of(value).len() == 0
            &&& playlists_of(value).len() == 0
            &&& queries_of(value).len() == 0
            &&& shelves_of(value).len() == 0
            &&& page_of(Some(value), false).tracks.len() == 0
            &&& page_of(Some(value), true).tracks.len() == 0
        },
        page_of(Some(value), false).next == (match value.field("next_href"@) {
            Some(JsonView::Text(url)) => Some(url),
            _ => None,
        }),
        page_of(Some(value), true).next == page_of(Some(value), false).next,
        page_of(None, false).tracks.len() == 0,
        page_of(None, false).next is None,
{
    lemma_readable_is_filter_map(items, |item: JsonView| result_of(item));
    lemma_readable_is_filter_map(items, |item: JsonView| playlist_of(item));
    lemma_readable_is_filter_map(items, |item: JsonView| item.text_field("query"@));
    lemma_readable_is_filter_map(items, |item: JsonView| item_track(item, false));
    lemma_readable_is_filter_map(items, |item: JsonView| item_track(item, true));
}

/// What is liked is a track by itself or wraps one; a playlist's page gives
/// tracks by themselves.
pub proof fn lemma_page_items_are_tracks(item: JsonView, inner: JsonView)
    ensures
        item_track(item, false) == track_of(item),
        item.field("track"@) == Some(inner) ==> item_track(item, true) == track_of(inner),
        item.field("track"@) is None ==> item_track(item, true) == track_of(item),
{
}

/// The feed shows its tracks first and its playlists then, each on a shelf
/// of its own that is never empty: an item whose type speaks of a track is
/// one, wrapped or bare, one that speaks of a playlist alone is a playlist,
/// and the others are left out.
pub proof fn lemma_feed_has_two_shelves(value: JsonView, items: Seq<JsonView>)
    requires
        listed(value, items),
    ensures
        ({
            let tracks = items.filter_map(|item: JsonView| feed_track(item));
            let lists = items.filter_map(|item: JsonView| feed_playlist(item));
            let shelves = shelves_of(value);
            &&& forall|i: int|
                0 <= i < shelves.len() ==> (#[trigger] shelves[i]).items.len() > 0
                    && shelves[i].subtitle is None
            &&& tracks.len() > 0 ==> shelves.len() > 0 && shelves[0].title == "Tracks"@
                && shelves[0].items == tracks
            &&& lists.len() > 0 ==> shelves.len() > 0 && shelves.last().title == "Playlists"@
                && shelves.last().items == lists
            &&& shelves.len() == (if tracks.len() > 0 {
                1int
            } else {
                0
            }) + (if lists.len() > 0 {
                1int
            } else {
                0
            })
        }),
{
    lemma_readable_is_filter_map(items, |item: JsonView| feed_track(item));
    lemma_readable_is_filter_map(items, |item: JsonView| feed_playlist(item));
}

/// What an item of the feed is about.
pub proof fn lemma_feed_items_go_by_their_type(item: JsonView, kind: Seq<char>, inner: JsonView)
    requires
        item.field("type"@) == Some(JsonView::Text(kind)),
    ensures
        contains_text(kind, "track"@) ==> feed_playlist(item) is None && (item.field("track"@)
            == Some(inner) || (item.field("track"@) is None && inner == item) ==> feed_track(item)
            == (match track_of(inner) {
            Some(t) => Some(SearchResultView::Track(t)),
            None => None,
        })),
        !contains_text(kind, "track"@) ==> feed_track(item) is None,
        !contains_text(kind, "track"@) && contains_text(kind, "playlist"@) ==> (item.field(
            "playlist"@,
        ) == Some(inner) || (item.field("playlist"@) is None && inner == item) ==> feed_playlist(
            item,
        ) == (match playlist_of(inner) {
            Some(p) => Some(SearchResultView::Playlist(p)),
            None => None,
        })),
        !contains_text(kind, "track"@) && !contains_text(kind, "playlist"@) ==> feed_playlist(item)
            is None,
{
}

} // verus!
