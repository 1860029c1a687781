//! The catalogue: what is asked of which source, and how their answers come
//! together.
//!
//! The sources are asked by the caller; here stand the rules. Answers come
//! in the order of the registry, so that the same answers give the same
//! list every time.

use vstd::prelude::*;

use crate::home::opt_str;
use crate::model::{
    result_views, track_views, AuthStatus, AuthStatusView, Playlist, PlaylistId, ScopedIdView,
    SearchResult, SearchResultView, Track, TrackId, TrackView,
};
use crate::protocol::{CatalogSource, Event, EventView};
use crate::provider::{ProviderError, ProviderErrorView, Registry};
use crate::radio::{has_track, no_track_twice};
use crate::text::{clone_opt, concat3, opt_text, texts};
use crate::textmap::{entry_views, lookup};

verus! {

/// How long the tracks of a playlist count as fresh, in seconds.
pub const PLAYLIST_TTL_SECS: i64 = 600;

/// How many pages a whole reading of a playlist takes at most. What is left
/// then is reached page by page.
pub const PLAYLIST_BATCH_PAGES: usize = 10;

/// A source that is not connected.
pub open spec fn not_connected(name: Seq<char>) -> Seq<char> {
    "провайдер "@ + name + " не подключён"@
}

pub fn not_connected_text(name: &str) -> (r: String)
    ensures
        r@ == not_connected(name@),
{
    concat3("провайдер ", name, " не подключён")
}

/// The names of the connected sources, in the order of the registry.
pub open spec fn names_of<P>(registry: Seq<(Seq<char>, P)>) -> Seq<Seq<char>> {
    registry.map_values(|e: (Seq<char>, P)| e.0)
}

/// The sources that a request goes to: the one that it names, or all.
pub open spec fn target_names<P>(
    registry: Seq<(Seq<char>, P)>,
    provider: Option<Seq<char>>,
) -> Result<Seq<Seq<char>>, Seq<char>> {
    match provider {
        Some(name) => if lookup(registry, name) is Some {
            Ok(seq![name])
        } else {
            Err(not_connected(name))
        },
        None => Ok(names_of(registry)),
    }
}

/// A list of names, or an error, by view.
pub open spec fn names_result(r: Result<Vec<String>, String>) -> Result<
    Seq<Seq<char>>,
    Seq<char>,
> {
    match r {
        Ok(names) => Ok(texts(names@)),
        Err(e) => Err(e@),
    }
}

/// The sources that a request goes to: the one that it names, or all.
pub fn targets<P>(registry: &Registry<P>, provider: Option<&str>) -> (r: Result<
    Vec<String>,
    String,
>)
    requires
        registry.wf(),
    ensures
        names_result(r) == target_names(registry@, opt_str(provider)),
{
    match provider {
        Some(name) => {
            if registry.get_by_str(name).is_none() {
                return Err(not_connected_text(name));
            }
            let mut out: Vec<String> = Vec::new();
            out.push(name.to_owned());
            assert(texts(out@) =~= seq![name@]);
            Ok(out)
        },
        None => {
            let entries = registry.iter();
            let mut out: Vec<String> = Vec::new();
            let mut i: usize = 0;
            while i < entries.len()
                invariant
                    i <= entries@.len(),
                    entry_views(entries@) == registry@,
                    texts(out@) == names_of(registry@).subrange(0, i as int),
                decreases entries@.len() - i,
            {
                let ghost had = texts(out@);
                assert(registry@[i as int] == (entries@[i as int].0@, entries@[i as int].1));
                out.push(entries[i].0.clone());
                i += 1;
                assert(texts(out@) =~= had.push(registry@[i - 1].0));
                assert(texts(out@) =~= names_of(registry@).subrange(0, i as int));
            }
            assert(names_of(registry@).subrange(0, i as int) =~= names_of(registry@));
            Ok(out)
        },
    }
}

/// What one source answered to a question for a list.
pub type Answer<T> = (String, Result<Vec<T>, ProviderError>);

/// All that was found, source after source. One that failed takes nothing
/// away from the others.
pub open spec fn found_items<T>(answers: Seq<Answer<T>>) -> Seq<T>
    decreases answers.len(),
{
    if answers.len() == 0 {
        Seq::empty()
    } else {
        let before = found_items(answers.drop_last());
        match answers.last().1 {
            Ok(found) => before + found@,
            Err(_) => before,
        }
    }
}

/// The sources that failed, with their errors.
pub open spec fn failed_sources<T>(answers: Seq<Answer<T>>) -> Seq<(String, ProviderError)>
    decreases answers.len(),
{
    if answers.len() == 0 {
        Seq::empty()
    } else {
        let before = failed_sources(answers.drop_last());
        match answers.last().1 {
            Ok(_) => before,
            Err(e) => before.push((answers.last().0, e)),
        }
    }
}

/// Brings the answers of several sources together.
pub fn gather<T>(answers: Vec<Answer<T>>) -> (r: (Vec<T>, Vec<(String, ProviderError)>))
    ensures
        r.0@ == found_items(answers@),
        r.1@ == failed_sources(answers@),
{
    let ghost whole = answers@;
    let mut out: Vec<T> = Vec::new();
    let mut failed: Vec<(String, ProviderError)> = Vec::new();
    assert(whole.subrange(0, 0) =~= Seq::empty());
    for answer in it: answers
        invariant
            it.seq() == whole,
            out@ == found_items(whole.subrange(0, it.index() as int)),
            failed@ == failed_sources(whole.subrange(0, it.index() as int)),
    {
        let ghost done = it.index() as int;
        assert(whole.subrange(0, done + 1).drop_last() =~= whole.subrange(0, done));
        assert(whole.subrange(0, done + 1).last() == answer);
        let (name, result) = answer;
        match result {
            Ok(found) => {
                let mut found = found;
                out.append(&mut found);
            },
            Err(error) => {
                failed.push((name, error));
            },
        }
    }
    assert(whole.subrange(0, whole.len() as int) =~= whole);
    (out, failed)
}

/// The tracks among results.
pub open spec fn tracks_among(results: Seq<SearchResultView>) -> Seq<TrackView>
    decreases results.len(),
{
    if results.len() == 0 {
        Seq::empty()
    } else {
        let before = tracks_among(results.drop_last());
        match results.last() {
            SearchResultView::Track(t) => before.push(t),
            _ => before,
        }
    }
}

/// The tracks among results: what the metadata cache keeps of them.
pub fn tracks_of(results: &Vec<SearchResult>) -> (r: Vec<Track>)
    ensures
        track_views(r@) == tracks_among(result_views(results@)),
{
    let ghost all = result_views(results@);
    let mut out: Vec<Track> = Vec::new();
    let mut i: usize = 0;
    assert(all.subrange(0, 0) =~= Seq::empty());
    assert(track_views(out@) =~= Seq::empty());
    while i < results.len()
        invariant
            i <= results@.len(),
            all == result_views(results@),
            track_views(out@) == tracks_among(all.subrange(0, i as int)),
        decreases results@.len() - i,
    {
        let ghost had = track_views(out@);
        assert(all[i as int] == results@[i as int]@);
        assert(all.subrange(0, i + 1).drop_last() =~= all.subrange(0, i as int));
        if let SearchResult::Track(track) = &results[i] {
            out.push(track.clone());
            assert(track_views(out@) =~= had.push(track@));
        }
        i += 1;
    }
    assert(all.subrange(0, i as int) =~= all);
    out
}

/// How the playlists of the library are read.
#[derive(Debug, PartialEq, Eq)]
pub enum LibraryPlan {
    /// The daemon's own playlists; no source is asked.
    Local,
    /// The playlists of these sources, after the daemon's own (`with_local`).
    Remote { with_local: bool, targets: Vec<String> },
}

#[verifier::ext_equal]
pub enum LibraryPlanView {
    Local,
    Remote { with_local: bool, targets: Seq<Seq<char>> },
}

impl View for LibraryPlan {
    type V = LibraryPlanView;

    open spec fn view(&self) -> LibraryPlanView {
        match *self {
            LibraryPlan::Local => LibraryPlanView::Local,
            LibraryPlan::Remote { with_local, targets } => LibraryPlanView::Remote {
                with_local,
                targets: texts(targets@),
            },
        }
    }
}

pub open spec fn library_plan_for<P>(
    registry: Seq<(Seq<char>, P)>,
    provider: Option<Seq<char>>,
) -> Result<LibraryPlanView, Seq<char>> {
    if provider == Some("local"@) {
        Ok(LibraryPlanView::Local)
    } else {
        match target_names(registry, provider) {
            Ok(targets) => Ok(
                LibraryPlanView::Remote { with_local: provider is None, targets },
            ),
            Err(e) => Err(e),
        }
    }
}

/// Plans the reading of the library.
pub fn library_plan<P>(registry: &Registry<P>, provider: Option<&str>) -> (r: Result<
    LibraryPlan,
    String,
>)
    requires
        registry.wf(),
    ensures
        (match r {
            Ok(plan) => Ok(plan@),
            Err(e) => Err(e@),
        }) == library_plan_for(registry@, opt_str(provider)),
{
    if let Some(name) = provider {
        if name.eq("local") {
            return Ok(LibraryPlan::Local);
        }
    }
    match targets(registry, provider) {
        Ok(targets) => Ok(LibraryPlan::Remote { with_local: provider.is_none(), targets }),
        Err(e) => Err(e),
    }
}

/// The playlists to show: the daemon's own first, then those that the
/// sources answered. Where they answered nothing, what was known before
/// (`cached`) stands in.
pub open spec fn library_shown(
    locals: Seq<Playlist>,
    remote: Seq<Playlist>,
    cached: Seq<Playlist>,
) -> Seq<Playlist> {
    locals + if remote.len() == 0 {
        cached
    } else {
        remote
    }
}

/// Whether the sources answered nothing, so that the playlists known before
/// are to be read; otherwise what they answered is to be remembered.
pub fn needs_known_playlists(remote: &Vec<Playlist>) -> (r: bool)
    ensures
        r == (remote@.len() == 0),
{
    remote.len() == 0
}

/// The playlists to show.
pub fn merge_library(locals: Vec<Playlist>, remote: Vec<Playlist>, cached: Vec<Playlist>) -> (r:
    Vec<Playlist>)
    ensures
        r@ == library_shown(locals@, remote@, cached@),
{
    let mut out = locals;
    let mut rest = if remote.len() == 0 {
        cached
    } else {
        remote
    };
    out.append(&mut rest);
    out
}

/// Where the tracks of a playlist come from.
#[derive(Debug, PartialEq, Eq)]
pub enum PlaylistPlan {
    /// The daemon's own playlist.
    Local,
    /// The source with this name.
    Source(String),
}

#[verifier::ext_equal]
pub enum PlaylistPlanView {
    Local,
    Source(Seq<char>),
}

impl View for PlaylistPlan {
    type V = PlaylistPlanView;

    open spec fn view(&self) -> PlaylistPlanView {
        match *self {
            PlaylistPlan::Local => PlaylistPlanView::Local,
            PlaylistPlan::Source(name) => PlaylistPlanView::Source(name@),
        }
    }
}

pub open spec fn playlist_plan_for<P>(registry: Seq<(Seq<char>, P)>, id: ScopedIdView) -> Result<
    PlaylistPlanView,
    Seq<char>,
> {
    if id.provider == "local"@ {
        Ok(PlaylistPlanView::Local)
    } else if lookup(registry, id.provider) is Some {
        Ok(PlaylistPlanView::Source(id.provider))
    } else {
        Err(not_connected(id.provider))
    }
}

/// A plan for a playlist, or an error, by view.
pub open spec fn plan_result(r: Result<PlaylistPlan, String>) -> Result<
    PlaylistPlanView,
    Seq<char>,
> {
    match r {
        Ok(plan) => Ok(plan@),
        Err(e) => Err(e@),
    }
}

/// Where the tracks of a playlist come from, and where changes of it go.
pub fn playlist_plan<P>(registry: &Registry<P>, id: &PlaylistId) -> (r: Result<
    PlaylistPlan,
    String,
>)
    requires
        registry.wf(),
    ensures
        plan_result(r) == playlist_plan_for(registry@, id@),
{
    let name: &str = id.provider.as_str();
    if name.eq("local") {
        Ok(PlaylistPlan::Local)
    } else if registry.get_by_str(name).is_some() {
        Ok(PlaylistPlan::Source(name.to_owned()))
    } else {
        Err(not_connected_text(name))
    }
}

/// Whether tracks that were read at a moment are still fresh, in seconds of
/// the wall clock. A moment that lies ahead is fresh.
pub open spec fn still_fresh(synced_at: Option<i64>, now: i64) -> bool {
    synced_at matches Some(at) && now - at < PLAYLIST_TTL_SECS
}

/// Whether the tracks of a playlist are shown without asking its source.
pub fn playlist_is_fresh(synced_at: Option<i64>, now: i64) -> (r: bool)
    ensures
        r == still_fresh(synced_at, now),
{
    match synced_at {
        Some(at) => (now as i128) - (at as i128) < (PLAYLIST_TTL_SECS as i128),
        None => false,
    }
}

/// A page of a playlist.
#[derive(Debug, PartialEq, Eq)]
pub struct TracksPage {
    pub tracks: Vec<Track>,
    pub next: Option<String>,
}

#[verifier::ext_equal]
pub struct TracksPageView {
    pub tracks: Seq<TrackView>,
    pub next: Option<Seq<char>>,
}

impl View for TracksPage {
    type V = TracksPageView;

    open spec fn view(&self) -> TracksPageView {
        TracksPageView { tracks: track_views(self.tracks@), next: opt_text(self.next) }
    }
}

/// A reading of a whole playlist, page by page.
pub struct PageReader {
    tracks: Vec<Track>,
    cursor: Option<String>,
    pages: usize,
    failure: Option<ProviderError>,
}

#[verifier::ext_equal]
pub struct PageReaderView {
    pub tracks: Seq<TrackView>,
    /// Where the next page starts.
    pub cursor: Option<Seq<char>>,
    pub pages: nat,
    pub failure: Option<ProviderErrorView>,
}

impl View for PageReader {
    type V = PageReaderView;

    closed spec fn view(&self) -> PageReaderView {
        PageReaderView {
            tracks: track_views(self.tracks@),
            cursor: opt_text(self.cursor),
            pages: self.pages as nat,
            failure: match self.failure {
                Some(e) => Some(e@),
                None => None,
            },
        }
    }
}

/// What a source answered about a page, by view.
pub open spec fn page_result(a: Result<TracksPage, ProviderError>) -> Result<
    TracksPageView,
    ProviderErrorView,
> {
    match a {
        Ok(p) => Ok(p@),
        Err(e) => Err(e@),
    }
}

impl PageReaderView {
    pub open spec fn fresh() -> PageReaderView {
        PageReaderView { tracks: Seq::empty(), cursor: None, pages: 0, failure: None }
    }

    /// Whether another page is to be asked for.
    pub open spec fn wants_more(self) -> bool {
        &&& self.failure is None
        &&& self.pages < PLAYLIST_BATCH_PAGES
        &&& self.pages == 0 || self.cursor is Some
    }

    /// The reading after an answer.
    pub open spec fn after(
        self,
        answer: Result<TracksPageView, ProviderErrorView>,
    ) -> PageReaderView {
        match answer {
            Ok(page) => PageReaderView {
                tracks: self.tracks + page.tracks,
                cursor: page.next,
                pages: self.pages + 1,
                ..self
            },
            Err(e) => PageReaderView { failure: Some(e), ..self },
        }
    }

    /// What was read: all tracks, and where the rest starts.
    pub open spec fn outcome(self) -> Result<TracksPageView, ProviderErrorView> {
        match self.failure {
            Some(e) => Err(e),
            None => Ok(TracksPageView { tracks: self.tracks, next: self.cursor }),
        }
    }

    /// The reading of a list of pages, for as long as more is wanted.
    pub open spec fn reading(self, pages: Seq<TracksPageView>) -> PageReaderView
        decreases pages.len(),
    {
        if pages.len() == 0 || !self.wants_more() {
            self
        } else {
            self.after(Ok(pages[0])).reading(pages.subrange(1, pages.len() as int))
        }
    }
}

impl PageReader {
    pub fn new() -> (r: Self)
        ensures
            r@ == PageReaderView::fresh(),
    {
        let r = PageReader { tracks: Vec::new(), cursor: None, pages: 0, failure: None };
        assert(r@.tracks =~= Seq::empty());
        r
    }

    /// Whether another page is to be asked for.
    pub fn wants_more(&self) -> (r: bool)
        ensures
            r == self@.wants_more(),
    {
        self.failure.is_none() && self.pages < PLAYLIST_BATCH_PAGES && (self.pages == 0
            || self.cursor.is_some())
    }

    /// Where the next page starts.
    pub fn cursor(&self) -> (r: Option<&str>)
        ensures
            opt_str(r) == self@.cursor,
    {
        match &self.cursor {
            Some(c) => Some(c.as_str()),
            None => None,
        }
    }

    /// Takes the answer about the page that was asked for.
    pub fn take(&mut self, answer: Result<TracksPage, ProviderError>)
        requires
            old(self)@.wants_more(),
        ensures
            final(self)@ == old(self)@.after(page_result(answer)),
    {
        let ghost had = track_views(self.tracks@);
        match answer {
            Ok(page) => {
                let TracksPage { tracks, next } = page;
                let mut more = tracks;
                let ghost new = track_views(more@);
                self.tracks.append(&mut more);
                self.cursor = next;
                self.pages = self.pages + 1;
                assert(track_views(self.tracks@) =~= had + new);
            },
            Err(e) => {
                self.failure = Some(e);
            },
        }
    }

    /// What was read. A reading that failed gives the error alone: then the
    /// tracks known before are shown.
    pub fn finish(self) -> (r: Result<TracksPage, ProviderError>)
        ensures
            page_result(r) == self@.outcome(),
    {
        match self.failure {
            Some(e) => Err(e),
            None => Ok(TracksPage { tracks: self.tracks, next: self.cursor }),
        }
    }
}

/// All tracks of pages, in order.
pub open spec fn all_tracks(pages: Seq<TracksPageView>) -> Seq<TrackView>
    decreases pages.len(),
{
    if pages.len() == 0 {
        Seq::empty()
    } else {
        pages[0].tracks + all_tracks(pages.subrange(1, pages.len() as int))
    }
}

/// Whether every page but the last names the next one.
pub open spec fn chained(pages: Seq<TracksPageView>) -> bool {
    forall|k: int| 0 <= k < pages.len() - 1 ==> (#[trigger] pages[k]).next is Some
}

proof fn lemma_reading(start: PageReaderView, pages: Seq<TracksPageView>)
    requires
        start.failure is None,
        start.pages + pages.len() <= PLAYLIST_BATCH_PAGES,
        start.pages > 0 ==> start.cursor is Some,
        pages.len() > 0,
        chained(pages),
    ensures
        start.reading(pages).outcome() == Ok::<TracksPageView, ProviderErrorView>(
            TracksPageView {
                tracks: start.tracks + all_tracks(pages),
                next: pages.last().next,
            },
        ),
    decreases pages.len(),
{
    let after = start.after(Ok(pages[0]));
    let rest = pages.subrange(1, pages.len() as int);
    if pages.len() == 1 {
        assert(rest =~= Seq::empty());
        assert(start.reading(pages) == after.reading(rest));
        assert(all_tracks(rest) =~= Seq::empty());
        assert(all_tracks(pages) =~= pages[0].tracks);
        assert(after.reading(rest) == after);
    } else {
        assert(pages[0].next is Some);
        assert forall|k: int| 0 <= k < rest.len() - 1 implies (#[trigger] rest[k]).next
            is Some by {
            assert(pages[k + 1].next is Some);
        }
        lemma_reading(after, rest);
        assert(rest.last() == pages.last());
        assert((start.tracks + pages[0].tracks) + all_tracks(rest) =~= start.tracks + all_tracks(
            pages,
        ));
    }
}

/// A whole reading loses nothing: of up to ten pages it gives all tracks in
/// their order, and the token of the last page, which is where the rest of
/// a longer playlist starts.
pub proof fn lemma_reading_keeps_all_tracks(pages: Seq<TracksPageView>)
    requires
        0 < pages.len() <= PLAYLIST_BATCH_PAGES,
        chained(pages),
    ensures
        PageReaderView::fresh().reading(pages).outcome() == Ok::<
            TracksPageView,
            ProviderErrorView,
        >(TracksPageView { tracks: all_tracks(pages), next: pages.last().next }),
{
    lemma_reading(PageReaderView::fresh(), pages);
    assert(Seq::<TrackView>::empty() + all_tracks(pages) =~= all_tracks(pages));
}

/// A whole reading ends: after ten pages nothing more is asked for.
pub proof fn lemma_reading_is_bounded(r: PageReaderView)
    requires
        r.pages >= PLAYLIST_BATCH_PAGES,
    ensures
        !r.wants_more(),
{
}

/// What to do about the next page of a playlist.
#[derive(Debug, PartialEq, Eq)]
pub enum PagePlan {
    /// There is nothing more: an empty page.
    Done,
    /// Ask this source for the page that starts here.
    Fetch { provider: String, cursor: String },
}

#[verifier::ext_equal]
pub enum PagePlanView {
    Done,
    Fetch { provider: Seq<char>, cursor: Seq<char> },
}

impl View for PagePlan {
    type V = PagePlanView;

    open spec fn view(&self) -> PagePlanView {
        match *self {
            PagePlan::Done => PagePlanView::Done,
            PagePlan::Fetch { provider, cursor } => PagePlanView::Fetch {
                provider: provider@,
                cursor: cursor@,
            },
        }
    }
}

/// Plans the next page of a playlist from the stored place (`cursor`). The
/// daemon's own playlists are always read whole.
pub fn page_plan<P>(registry: &Registry<P>, id: &PlaylistId, cursor: Option<String>) -> (r: Result<
    PagePlan,
    String,
>)
    requires
        registry.wf(),
    ensures
        match playlist_plan_for(registry@, id@) {
            Err(e) => r matches Err(text) && text@ == e,
            Ok(PlaylistPlanView::Local) => r matches Ok(plan) && plan@ == PagePlanView::Done,
            Ok(PlaylistPlanView::Source(name)) => r matches Ok(plan) && plan@ == (match cursor {
                Some(c) => PagePlanView::Fetch { provider: name, cursor: c@ },
                None => PagePlanView::Done,
            }),
        },
{
    match playlist_plan(registry, id) {
        Err(e) => Err(e),
        Ok(PlaylistPlan::Local) => Ok(PagePlan::Done),
        Ok(PlaylistPlan::Source(provider)) => match cursor {
            Some(cursor) => Ok(PagePlan::Fetch { provider, cursor }),
            None => Ok(PagePlan::Done),
        },
    }
}

/// The number of tracks that are stored once a page was added.
pub fn stored_after(stored: usize, page: &TracksPage) -> (r: usize)
    requires
        stored + page@.tracks.len() <= usize::MAX,
    ensures
        r == stored + page@.tracks.len(),
{
    stored + page.tracks.len()
}

/// The ids of a list of ids.
pub open spec fn id_views(v: Seq<TrackId>) -> Seq<ScopedIdView> {
    v.map_values(|t: TrackId| t@)
}

/// The ids of tracks, each once, where it stands first.
pub open spec fn distinct_ids(tracks: Seq<TrackView>) -> Seq<ScopedIdView>
    decreases tracks.len(),
{
    if tracks.len() == 0 {
        Seq::empty()
    } else {
        let before = distinct_ids(tracks.drop_last());
        if before.contains(tracks.last().id) {
            before
        } else {
            before.push(tracks.last().id)
        }
    }
}

fn ids_contain(ids: &Vec<TrackId>, id: &TrackId) -> (r: bool)
    ensures
        r == id_views(ids@).contains(id@),
{
    let mut i: usize = 0;
    while i < ids.len()
        invariant
            i <= ids@.len(),
            forall|k: int| 0 <= k < i ==> #[trigger] id_views(ids@)[k] != id@,
        decreases ids@.len() - i,
    {
        assert(id_views(ids@)[i as int] == ids@[i as int]@);
        if ids[i] == *id {
            assert(id_views(ids@)[i as int] == id@);
            return true;
        }
        i += 1;
    }
    false
}

/// The ids of the liked tracks that the sources answered, each once.
pub fn liked_order(found: &Vec<Track>) -> (r: Vec<TrackId>)
    ensures
        id_views(r@) == distinct_ids(track_views(found@)),
{
    let ghost all = track_views(found@);
    let mut out: Vec<TrackId> = Vec::new();
    let mut i: usize = 0;
    assert(all.subrange(0, 0) =~= Seq::empty());
    assert(id_views(out@) =~= Seq::empty());
    while i < found.len()
        invariant
            i <= found@.len(),
            all == track_views(found@),
            id_views(out@) == distinct_ids(all.subrange(0, i as int)),
        decreases found@.len() - i,
    {
        let ghost had = id_views(out@);
        assert(all[i as int] == found@[i as int]@);
        assert(all.subrange(0, i + 1).drop_last() =~= all.subrange(0, i as int));
        if !ids_contain(&out, &found[i].id) {
            out.push(found[i].id.clone());
            assert(id_views(out@) =~= had.push(all[i as int].id));
        }
        i += 1;
    }
    assert(all.subrange(0, i as int) =~= all);
    out
}

/// Those of `ids` that no track of `tracks` has.
pub open spec fn ids_beyond(tracks: Seq<TrackView>, ids: Seq<ScopedIdView>) -> Seq<ScopedIdView>
    decreases ids.len(),
{
    if ids.len() == 0 {
        Seq::empty()
    } else {
        let before = ids_beyond(tracks, ids.drop_last());
        if has_track(tracks, ids.last()) {
            before
        } else {
            before.push(ids.last())
        }
    }
}

/// The liked tracks that are not marked here: their metadata is to be read
/// from the cache, where the sources' answers were just put.
pub fn liked_missing(local: &Vec<Track>, order: &Vec<TrackId>) -> (r: Vec<TrackId>)
    ensures
        id_views(r@) == ids_beyond(track_views(local@), id_views(order@)),
{
    let ghost all = id_views(order@);
    let ghost held = track_views(local@);
    let mut out: Vec<TrackId> = Vec::new();
    let mut i: usize = 0;
    assert(all.subrange(0, 0) =~= Seq::empty());
    assert(id_views(out@) =~= Seq::empty());
    while i < order.len()
        invariant
            i <= order@.len(),
            all == id_views(order@),
            held == track_views(local@),
            id_views(out@) == ids_beyond(held, all.subrange(0, i as int)),
        decreases order@.len() - i,
    {
        let ghost had = id_views(out@);
        assert(all[i as int] == order@[i as int]@);
        assert(all.subrange(0, i + 1).drop_last() =~= all.subrange(0, i as int));
        if !crate::radio::has_id(local, &order[i]) {
            out.push(order[i].clone());
            assert(id_views(out@) =~= had.push(all[i as int]));
        }
        i += 1;
    }
    assert(all.subrange(0, i as int) =~= all);
    out
}

/// The tracks that are there.
pub open spec fn present(tracks: Seq<Option<Track>>) -> Seq<TrackView>
    decreases tracks.len(),
{
    if tracks.len() == 0 {
        Seq::empty()
    } else {
        let before = present(tracks.drop_last());
        match tracks.last() {
            Some(t) => before.push(t@),
            None => before,
        }
    }
}

/// The liked tracks of all: those that are marked here first, then those
/// of the sources whose metadata is known.
pub fn merge_liked(local: Vec<Track>, cached: Vec<Option<Track>>) -> (r: Vec<Track>)
    ensures
        track_views(r@) == track_views(local@) + present(cached@),
{
    let ghost whole = cached@;
    let ghost base = track_views(local@);
    let mut out = local;
    assert(whole.subrange(0, 0) =~= Seq::empty());
    assert(track_views(out@) =~= base + present(Seq::empty()));
    for track in it: cached
        invariant
            it.seq() == whole,
            track_views(out@) == base + present(whole.subrange(0, it.index() as int)),
    {
        let ghost done = it.index() as int;
        let ghost had = track_views(out@);
        assert(whole.subrange(0, done + 1).drop_last() =~= whole.subrange(0, done));
        assert(whole.subrange(0, done + 1).last() == track);
        if let Some(t) = track {
            let ghost view = t@;
            out.push(t);
            assert(track_views(out@) =~= had.push(view));
            assert(had.push(view) =~= base + present(whole.subrange(0, done + 1)));
        }
    }
    assert(whole.subrange(0, whole.len() as int) =~= whole);
    out
}

/// Whether what the cache gave for ids are tracks with these ids.
pub open spec fn answers_ids(cached: Seq<Option<Track>>, ids: Seq<ScopedIdView>) -> bool {
    &&& cached.len() == ids.len()
    &&& forall|k: int|
        0 <= k < ids.len() ==> ((#[trigger] cached[k]) matches Some(t) ==> t@.id == ids[k])
}

proof fn lemma_distinct_ids(tracks: Seq<TrackView>)
    ensures
        distinct_ids(tracks).no_duplicates(),
    decreases tracks.len(),
{
    if tracks.len() > 0 {
        lemma_distinct_ids(tracks.drop_last());
    }
}

proof fn lemma_ids_beyond(tracks: Seq<TrackView>, ids: Seq<ScopedIdView>)
    requires
        ids.no_duplicates(),
    ensures
        ids_beyond(tracks, ids).no_duplicates(),
        forall|k: int|
            0 <= k < ids_beyond(tracks, ids).len() ==> !has_track(
                tracks,
                #[trigger] ids_beyond(tracks, ids)[k],
            ) && ids.contains(ids_beyond(tracks, ids)[k]),
    decreases ids.len(),
{
    if ids.len() > 0 {
        let rest = ids.drop_last();
        lemma_ids_beyond(tracks, rest);
        let before = ids_beyond(tracks, rest);
        let all = ids_beyond(tracks, ids);
        assert forall|k: int| 0 <= k < all.len() implies !has_track(tracks, #[trigger] all[k])
            && ids.contains(all[k]) by {
            if k < before.len() {
                assert(all[k] == before[k]);
                let j = choose|j: int| 0 <= j < rest.len() && rest[j] == before[k];
                assert(ids[j] == all[k]);
            } else {
                assert(ids[ids.len() - 1] == all[k]);
            }
        }
        assert forall|i: int, j: int| 0 <= i < j < all.len() implies all[i] != all[j] by {
            if j == before.len() {
                let m = choose|m: int| 0 <= m < rest.len() && rest[m] == before[i];
                assert(ids[m] == all[i]);
                assert(ids[ids.len() - 1] == all[j]);
            } else {
                assert(before[i] != before[j]);
            }
        }
    }
}

proof fn lemma_present(cached: Seq<Option<Track>>, ids: Seq<ScopedIdView>)
    requires
        answers_ids(cached, ids),
        ids.no_duplicates(),
    ensures
        no_track_twice(present(cached)),
        forall|k: int|
            0 <= k < present(cached).len() ==> ids.contains((#[trigger] present(cached)[k]).id),
    decreases cached.len(),
{
    if cached.len() > 0 {
        let rest = cached.drop_last();
        let some = ids.drop_last();
        assert(answers_ids(rest, some)) by {
            assert forall|k: int| 0 <= k < some.len() implies ((#[trigger] rest[k]) matches Some(
                t,
            ) ==> t@.id == some[k]) by {
                assert(cached[k] == rest[k]);
            }
        }
        lemma_present(rest, some);
        let before = present(rest);
        let all = present(cached);
        let last = cached[cached.len() - 1];
        assert forall|k: int| 0 <= k < all.len() implies ids.contains((#[trigger] all[k]).id) by {
            if k < before.len() {
                assert(all[k] == before[k]);
                let j = choose|j: int| 0 <= j < some.len() && some[j] == before[k].id;
                assert(ids[j] == all[k].id);
            } else {
                assert(ids[ids.len() - 1] == all[k].id);
            }
        }
        assert forall|i: int, j: int| 0 <= i < j < all.len() implies (#[trigger] all[i]).id != (
        #[trigger] all[j]).id by {
            if j == before.len() {
                assert(all[i] == before[i]);
                let m = choose|m: int| 0 <= m < some.len() && some[m] == before[i].id;
                assert(ids[m] == all[i].id);
                assert(last is Some);
                assert(ids[ids.len() - 1] == all[j].id);
            } else {
                assert(all[i] == before[i] && all[j] == before[j]);
            }
        }
    }
}

/// The liked tracks of all hold no track twice, whatever the sources
/// answered: a track that is marked here and liked there is shown once.
pub proof fn lemma_liked_once(
    local: Seq<TrackView>,
    found: Seq<TrackView>,
    cached: Seq<Option<Track>>,
)
    requires
        no_track_twice(local),
        answers_ids(cached, ids_beyond(local, distinct_ids(found))),
    ensures
        no_track_twice(local + present(cached)),
{
    lemma_distinct_ids(found);
    lemma_ids_beyond(local, distinct_ids(found));
    let ids = ids_beyond(local, distinct_ids(found));
    lemma_present(cached, ids);
    let more = present(cached);
    let all = local + more;
    let n = local.len() as int;
    assert forall|i: int, j: int| 0 <= i < j < all.len() implies (#[trigger] all[i]).id != (
    #[trigger] all[j]).id by {
        if j < n {
            assert(all[i] == local[i] && all[j] == local[j]);
        } else {
            assert(all[j] == more[j - n]);
            if i < n {
                let k = choose|k: int| 0 <= k < ids.len() && ids[k] == more[j - n].id;
                assert(!has_track(local, ids[k]));
                assert(local[i] == all[i]);
            } else {
                assert(all[i] == more[i - n]);
            }
        }
    }
}

/// Where a new playlist goes: `None` is the daemon's own.
pub open spec fn create_target<P>(
    registry: Seq<(Seq<char>, P)>,
    provider: Option<Seq<char>>,
) -> Result<PlaylistPlanView, Seq<char>> {
    match provider {
        None => Ok(PlaylistPlanView::Local),
        Some(name) => if name == "local"@ {
            Ok(PlaylistPlanView::Local)
        } else if lookup(registry, name) is Some {
            Ok(PlaylistPlanView::Source(name))
        } else {
            Err(not_connected(name))
        },
    }
}

/// Where a new playlist goes. The daemon's own playlists hold tracks of all
/// sources and need none of them; a source has to be named.
pub fn playlist_create<P>(registry: &Registry<P>, provider: Option<&str>) -> (r: Result<
    PlaylistPlan,
    String,
>)
    requires
        registry.wf(),
    ensures
        plan_result(r) == create_target(registry@, opt_str(provider)),
{
    match provider {
        None => Ok(PlaylistPlan::Local),
        Some(name) => if name.eq("local") {
            Ok(PlaylistPlan::Local)
        } else if registry.get_by_str(name).is_some() {
            Ok(PlaylistPlan::Source(name.to_owned()))
        } else {
            Err(not_connected_text(name))
        },
    }
}

/// Whom a new playlist is addressed to where the command names nobody: the
/// source that the catalogue commands go to, else the first connected one.
pub open spec fn create_address<P>(
    registry: Seq<(Seq<char>, P)>,
    chosen: Option<Seq<char>>,
    provider: Option<Seq<char>>,
) -> Option<Seq<char>> {
    match (provider, chosen) {
        (Some(name), _) => Some(name),
        (None, Some(name)) => Some(name),
        (None, None) => if registry.len() > 0 {
            Some(registry[0].0)
        } else {
            None
        },
    }
}

/// Whom a new playlist is addressed to.
pub fn playlist_address<P>(
    registry: &Registry<P>,
    chosen: &CatalogSource,
    provider: Option<String>,
) -> (r: Option<String>)
    ensures
        opt_text(r) == create_address(registry@, chosen@, opt_text(provider)),
{
    match (provider, &chosen.provider) {
        (Some(name), _) => Some(name),
        (None, Some(name)) => Some(name.clone()),
        (None, None) => {
            let connected = registry.iter();
            if connected.len() > 0 {
                Some(connected[0].0.clone())
            } else {
                None
            }
        },
    }
}

pub open spec fn no_rename(provider: Seq<char>) -> Seq<char> {
    "переименование нативного плейлиста "@ + provider + " не поддерживается"@
}

/// Whether a playlist can be renamed: only the daemon's own can.
pub fn playlist_rename(id: &PlaylistId) -> (r: Result<(), String>)
    ensures
        match r {
            Ok(_) => id@.provider == "local"@,
            Err(e) => id@.provider != "local"@ && e@ == no_rename(id@.provider),
        },
{
    if id.provider.as_str().eq("local") {
        Ok(())
    } else {
        Err(
            concat3(
                "переименование нативного плейлиста ",
                id.provider.as_str(),
                " не поддерживается",
            ),
        )
    }
}

pub open spec fn unknown_metadata(track: ScopedIdView) -> Seq<char> {
    "метаданных "@ + crate::model::scoped_text(track)
        + " нет в кэше — сначала найдите или проиграйте трек"@
}

/// Whether a track may join one of the daemon's own playlists: its metadata
/// has to be known, for it is shown from there.
pub fn local_add(track: &TrackId, known: bool) -> (r: Result<(), String>)
    ensures
        match r {
            Ok(_) => known,
            Err(e) => !known && e@ == unknown_metadata(track@),
        },
{
    if known {
        Ok(())
    } else {
        Err(
            concat3(
                "метаданных ",
                track.to_string().as_str(),
                " нет в кэше — сначала найдите или проиграйте трек",
            ),
        )
    }
}

pub open spec fn not_in_playlist(track: ScopedIdView, playlist: ScopedIdView) -> Seq<char> {
    "трека "@ + crate::model::scoped_text(track) + " нет в плейлисте "@
        + crate::model::scoped_text(playlist)
}

/// Which entry leaves when a track is taken out of one of the daemon's own
/// playlists: the first with this id. Others with the same id stay.
pub fn local_remove_position(playlist: &PlaylistId, tracks: &Vec<Track>, track: &TrackId) -> (r:
    Result<usize, String>)
    ensures
        match r {
            Ok(p) => crate::queue::first_index(track_views(tracks@), track@, 0) == Some(p as int),
            Err(e) => !has_track(track_views(tracks@), track@) && e@ == not_in_playlist(
                track@,
                playlist@,
            ),
        },
{
    let ghost all = track_views(tracks@);
    let mut i: usize = 0;
    while i < tracks.len()
        invariant
            i <= tracks@.len(),
            all == track_views(tracks@),
            crate::queue::first_index(all, track@, 0) == crate::queue::first_index(
                all,
                track@,
                i as int,
            ),
        decreases tracks@.len() - i,
    {
        assert(all[i as int] == tracks@[i as int]@);
        if tracks[i].id == *track {
            return Ok(i);
        }
        i += 1;
    }
    proof {
        crate::queue::lemma_first_index(all, track@, 0);
    }
    let head = concat3("трека ", track.to_string().as_str(), " нет в плейлисте ");
    Err(crate::text::concat2(head.as_str(), playlist.to_string().as_str()))
}

/// Whether an entry can be taken out by its position: only of the daemon's
/// own playlists.
pub fn playlist_remove_at(id: &PlaylistId) -> (r: Result<(), String>)
    ensures
        match r {
            Ok(_) => id@.provider == "local"@,
            Err(e) => id@.provider != "local"@ && e@
                == "позиционное удаление доступно только локальным плейлистам"@,
        },
{
    if id.provider.as_str().eq("local") {
        Ok(())
    } else {
        Err("позиционное удаление доступно только локальным плейлистам".to_owned())
    }
}

/// What a source's answer to a rating means. One that keeps no ratings has
/// not failed: the rating lives here alone.
pub fn mirror_outcome(answer: Result<(), ProviderError>) -> (r: Result<(), ProviderError>)
    ensures
        match answer {
            Ok(_) => r is Ok,
            Err(e) => if e@ is Unsupported {
                r is Ok
            } else {
                r matches Err(same) && same@ == e@
            },
        },
{
    match answer {
        Ok(_) => Ok(()),
        Err(e) => {
            let unsupported: bool = matches!(e, ProviderError::Unsupported { .. });
            if unsupported {
                Ok(())
            } else {
                Err(e)
            }
        },
    }
}

/// How long after an attempt no other is made, in nanoseconds.
pub const REAUTH_COOLDOWN_NANOS: u128 = 300_000_000_000;

/// When each source's credentials were read again last.
pub struct AuthRetries {
    at: crate::textmap::TextMap<u128>,
}

impl View for AuthRetries {
    type V = Seq<(Seq<char>, u128)>;

    closed spec fn view(&self) -> Seq<(Seq<char>, u128)> {
        self.at@
    }
}

/// Whether a new attempt may be made now.
pub open spec fn retry_due(retries: Seq<(Seq<char>, u128)>, provider: Seq<char>, now: u128) -> bool {
    match lookup(retries, provider) {
        Some(at) => now - at >= REAUTH_COOLDOWN_NANOS,
        None => true,
    }
}

impl AuthRetries {
    pub open spec fn wf(&self) -> bool {
        crate::textmap::ascending(self@)
    }

    pub fn new() -> (r: Self)
        ensures
            r.wf(),
            r@.len() == 0,
    {
        AuthRetries { at: crate::textmap::TextMap::new() }
    }

    /// Asks for an attempt, in nanoseconds of the steady clock. A shower of
    /// errors must not become a shower of attempts.
    pub fn try_reauth(&mut self, provider: &str, now: u128) -> (r: bool)
        requires
            old(self).wf(),
        ensures
            final(self).wf(),
            r == retry_due(old(self)@, provider@, now),
            !r ==> final(self)@ == old(self)@,
            r ==> lookup(final(self)@, provider@) == Some(now),
            forall|other: Seq<char>|
                other != provider@ ==> #[trigger] lookup(final(self)@, other) == lookup(
                    old(self)@,
                    other,
                ),
    {
        let due: bool = match self.at.get(provider) {
            Some(at) => now >= *at && now - *at >= REAUTH_COOLDOWN_NANOS,
            None => true,
        };
        if due {
            self.at.insert(provider.to_owned(), now);
        }
        due
    }

    /// Whether a source's failure is a reason to read its credentials again
    /// now: one of the session is, once in a while.
    pub fn after_failure(&mut self, provider: &str, error: &ProviderError, now: u128) -> (r: bool)
        requires
            old(self).wf(),
        ensures
            final(self).wf(),
            r == (error@ is Auth && retry_due(old(self)@, provider@, now)),
            !r ==> final(self)@ == old(self)@,
            r ==> lookup(final(self)@, provider@) == Some(now),
            forall|other: Seq<char>|
                other != provider@ ==> #[trigger] lookup(final(self)@, other) == lookup(
                    old(self)@,
                    other,
                ),
    {
        error.is_auth() && self.try_reauth(provider, now)
    }
}

/// What everyone is told of a source's failure: one of the session, with the
/// state that the session is now known to be in.
pub open spec fn failure_event(
    name: Seq<char>,
    error: ProviderErrorView,
    auth: AuthStatusView,
) -> Option<EventView> {
    if error is Auth {
        Some(EventView::AuthChanged { provider: name, auth })
    } else {
        None
    }
}

pub open spec fn opt_event(e: Option<Event>) -> Option<EventView> {
    match e {
        Some(e) => Some(e@),
        None => None,
    }
}

/// Tells everyone of a session that failed, at once, and not only when
/// something is to be played.
pub fn report_auth(name: &str, error: &ProviderError, auth: AuthStatus) -> (r: Option<Event>)
    ensures
        opt_event(r) == failure_event(name@, error@, auth@),
{
    if error.is_auth() {
        Some(Event::AuthChanged { provider: name.to_owned(), auth })
    } else {
        None
    }
}

/// What everyone is told once the credentials were read again by a wish:
/// what came of it, or what was known before.
pub fn refreshed(
    name: &str,
    answer: Result<AuthStatus, ProviderError>,
    known: AuthStatus,
) -> (r: Event)
    ensures
        r@ == (EventView::AuthChanged {
            provider: name@,
            auth: match answer {
                Ok(auth) => auth@,
                Err(_) => known@,
            },
        }),
{
    let auth = match answer {
        Ok(auth) => auth,
        Err(_) => known,
    };
    Event::AuthChanged { provider: name.to_owned(), auth }
}

/// Within the pause after an attempt no second one is made for the same
/// source, and another source waits for nothing.
pub proof fn lemma_attempts_keep_their_distance(
    before: Seq<(Seq<char>, u128)>,
    after: Seq<(Seq<char>, u128)>,
    provider: Seq<char>,
    other: Seq<char>,
    at: u128,
    now: u128,
)
    requires
        lookup(after, provider) == Some(at),
        other != provider,
        lookup(after, other) == lookup(before, other),
        now - at < REAUTH_COOLDOWN_NANOS,
    ensures
        !retry_due(after, provider, now),
        retry_due(after, other, now) == retry_due(before, other, now),
{
}

/// The source that catalogue commands go to when the daemon starts.
pub open spec fn source_at_start(
    saved: Option<Option<Seq<char>>>,
    connected: Seq<Seq<char>>,
) -> Option<Seq<char>> {
    match saved {
        Some(Some(name)) => if connected.contains(name) {
            Some(name)
        } else {
            None
        },
        _ => None,
    }
}

/// What is saved counts as long as its source is connected; otherwise the
/// commands go to all.
#[verifier::loop_isolation(false)]
pub fn resolve_catalog_source(saved: Option<&CatalogSource>, connected: Vec<String>) -> (r:
    CatalogSource)
    ensures
        r@ == source_at_start(
            match saved {
                Some(s) => Some(s@),
                None => None,
            },
            texts(connected@),
        ),
{
    if let Some(source) = saved {
        if let Some(name) = &source.provider {
            let mut i: usize = 0;
            while i < connected.len()
                invariant
                    i <= connected@.len(),
                    forall|k: int| 0 <= k < i ==> #[trigger] texts(connected@)[k] != name@,
                decreases connected@.len() - i,
            {
                assert(texts(connected@)[i as int] == connected@[i as int]@);
                if connected[i].as_str().eq(name.as_str()) {
                    assert(texts(connected@).contains(name@));
                    return CatalogSource { provider: clone_opt(&source.provider) };
                }
                i += 1;
            }
        }
    }
    CatalogSource { provider: None }
}

/// Answers are gathered source after source: what each found stands in its
/// order and none of it is lost, whatever other sources answered; and every
/// source that failed is told of once, with its error.
pub proof fn lemma_answers_are_gathered_in_order<T>(answers: Seq<Answer<T>>)
    ensures
        found_items(answers) == answers.map_values(
            |a: Answer<T>|
                match a.1 {
                    Ok(found) => found@,
                    Err(_) => Seq::empty(),
                },
        ).flatten_alt(),
        failed_sources(answers) == answers.filter_map(
            |a: Answer<T>|
                match a.1 {
                    Ok(_) => None,
                    Err(e) => Some((a.0, e)),
                },
        ),
    decreases answers.len(),
{
    if answers.len() > 0 {
        let parts = answers.map_values(
            |a: Answer<T>|
                match a.1 {
                    Ok(found) => found@,
                    Err(_) => Seq::empty(),
                },
        );
        let rest = answers.drop_last();
        lemma_answers_are_gathered_in_order(rest);
        assert(parts.drop_last() =~= rest.map_values(
            |a: Answer<T>|
                match a.1 {
                    Ok(found) => found@,
                    Err(_) => Seq::empty(),
                },
        ));
        assert(found_items(answers) =~= parts.flatten_alt());
        let told = |a: Answer<T>|
            match a.1 {
                Ok(_) => None,
                Err(e) => Some((a.0, e)),
            };
        assert(failed_sources(answers) =~= answers.filter_map(told));
    }
}

/// The tracks among results are those results that are tracks, in order.
pub proof fn lemma_tracks_are_picked_in_order(results: Seq<SearchResultView>)
    ensures
        tracks_among(results) == results.filter_map(
            |r: SearchResultView|
                match r {
                    SearchResultView::Track(t) => Some(t),
                    _ => None,
                },
        ),
    decreases results.len(),
{
    if results.len() > 0 {
        lemma_tracks_are_picked_in_order(results.drop_last());
        let pick = |r: SearchResultView|
            match r {
                SearchResultView::Track(t) => Some(t),
                _ => None,
            };
        assert(tracks_among(results) =~= results.filter_map(pick));
    }
}

/// The ids of the liked tracks are those that the sources named, each once,
/// in the order in which they were named first.
pub proof fn lemma_likes_keep_their_order(tracks: Seq<TrackView>, more: Seq<TrackView>)
    ensures
        distinct_ids(tracks).no_duplicates(),
        forall|id: ScopedIdView|
            #[trigger] distinct_ids(tracks).contains(id) <==> tracks.map_values(
                |t: TrackView| t.id,
            ).contains(id),
        no_track_twice(tracks) ==> distinct_ids(tracks) == tracks.map_values(|t: TrackView| t.id),
        distinct_ids(tracks).is_prefix_of(distinct_ids(tracks + more)),
    decreases tracks.len() + more.len(),
{
    lemma_distinct_ids(tracks);
    let ids = tracks.map_values(|t: TrackView| t.id);
    if tracks.len() > 0 {
        let rest = tracks.drop_last();
        let some = rest.map_values(|t: TrackView| t.id);
        lemma_likes_keep_their_order(rest, Seq::empty());
        assert(ids =~= some.push(tracks.last().id));
        let found = distinct_ids(tracks);
        let before = distinct_ids(rest);
        assert forall|id: ScopedIdView| #[trigger] found.contains(id) <==> ids.contains(id) by {
            assert(before.contains(id) <==> some.contains(id));
            if ids.contains(id) {
                let k = choose|k: int| 0 <= k < ids.len() && ids[k] == id;
                if k < some.len() {
                    assert(some[k] == id);
                    let j = choose|j: int| 0 <= j < before.len() && before[j] == id;
                    assert(found[j] == id);
                } else if before.contains(id) {
                    let j = choose|j: int| 0 <= j < before.len() && before[j] == id;
                    assert(found[j] == id);
                } else {
                    assert(found[before.len() as int] == id);
                }
            }
            if found.contains(id) {
                let j = choose|j: int| 0 <= j < found.len() && found[j] == id;
                if j < before.len() {
                    assert(before[j] == id);
                    let k = choose|k: int| 0 <= k < some.len() && some[k] == id;
                    assert(ids[k] == id);
                } else {
                    assert(ids[ids.len() - 1] == id);
                }
            }
        }
        if no_track_twice(tracks) {
            assert forall|i: int, j: int| 0 <= i < j < rest.len() implies (#[trigger] rest[i]).id
                != (#[trigger] rest[j]).id by {
                assert(rest[i] == tracks[i] && rest[j] == tracks[j]);
            }
            assert(!before.contains(tracks.last().id)) by {
                if before.contains(tracks.last().id) {
                    let k = choose|k: int| 0 <= k < some.len() && some[k] == tracks.last().id;
                    assert(tracks[k] == rest[k] && tracks[tracks.len() - 1] == tracks.last());
                }
            }
            assert(found =~= ids);
        }
    } else {
        assert(distinct_ids(tracks) =~= ids);
    }
    if more.len() == 0 {
        assert(tracks + more =~= tracks);
    } else {
        lemma_likes_keep_their_order(tracks, more.drop_last());
        assert((tracks + more).drop_last() =~= tracks + more.drop_last());
    }
}

/// Of the sources' likes those are read that are not marked here, in their
/// order; and of what is read everything that is known is shown, in order.
pub proof fn lemma_missing_likes_are_read_and_shown(
    tracks: Seq<TrackView>,
    ids: Seq<ScopedIdView>,
    cached: Seq<Option<Track>>,
)
    ensures
        ids_beyond(tracks, ids) == ids.filter(
            |id: ScopedIdView| !tracks.map_values(|t: TrackView| t.id).contains(id),
        ),
        present(cached) == cached.filter_map(
            |t: Option<Track>|
                match t {
                    Some(t) => Some(t@),
                    None => None,
                },
        ),
    decreases ids.len() + cached.len(),
{
    reveal(Seq::filter);
    if ids.len() > 0 {
        lemma_missing_likes_are_read_and_shown(tracks, ids.drop_last(), Seq::empty());
        let id = ids.last();
        let held = tracks.map_values(|t: TrackView| t.id);
        assert(has_track(tracks, id) <==> held.contains(id)) by {
            if has_track(tracks, id) {
                let k = choose|k: int| 0 <= k < tracks.len() && (#[trigger] tracks[k]).id == id;
                assert(held[k] == id);
            }
            if held.contains(id) {
                let k = choose|k: int| 0 <= k < held.len() && held[k] == id;
                assert(tracks[k].id == id);
            }
        }
    }
    if cached.len() > 0 {
        lemma_missing_likes_are_read_and_shown(tracks, Seq::empty(), cached.drop_last());
        let pick = |t: Option<Track>|
            match t {
                Some(t) => Some(t@),
                None => None,
            };
        assert(present(cached) =~= cached.filter_map(pick));
    }
}

/// The daemon's own playlists always come first; what the sources answered
/// follows, and what was known before only where they answered nothing.
pub proof fn lemma_own_playlists_come_first(
    locals: Seq<Playlist>,
    remote: Seq<Playlist>,
    cached: Seq<Playlist>,
)
    ensures
        locals.is_prefix_of(library_shown(locals, remote, cached)),
        remote.len() > 0 ==> library_shown(locals, remote, cached).skip(locals.len() as int)
            == remote,
        remote.len() == 0 ==> library_shown(locals, remote, cached).skip(locals.len() as int)
            == cached,
{
    let all = library_shown(locals, remote, cached);
    assert(all.take(locals.len() as int) =~= locals);
    if remote.len() > 0 {
        assert(all.skip(locals.len() as int) =~= remote);
    } else {
        assert(all.skip(locals.len() as int) =~= cached);
    }
}

/// Tracks of a playlist count as fresh for ten minutes after they were
/// read, and never without having been read.
pub proof fn lemma_tracks_are_fresh_for_ten_minutes(at: i64, now: i64)
    ensures
        still_fresh(Some(at), now) <==> now < at + 10 * 60,
        !still_fresh(None, now),
{
}

/// A reading starts with a page and goes on as long as pages name the next
/// one, ten at most; a failure ends it and is all that comes of it.
pub proof fn lemma_a_failed_page_ends_the_reading(
    r: PageReaderView,
    page: TracksPageView,
    e: ProviderErrorView,
)
    requires
        r.wants_more(),
    ensures
        PageReaderView::fresh().wants_more(),
        !r.after(Err(e)).wants_more(),
        r.after(Err(e)).outcome() == Err::<TracksPageView, ProviderErrorView>(e),
        r.after(Ok(page)).wants_more() <==> page.next is Some && r.pages + 1 < 10,
        r.after(Ok(page)).cursor == page.next,
        r.after(Ok(page)).tracks == r.tracks + page.tracks,
{
}

/// A source that was chosen stays chosen over a restart exactly while it is
/// connected; otherwise the commands go to all.
pub proof fn lemma_a_choice_lasts_while_it_is_connected(
    name: Seq<char>,
    connected: Seq<Seq<char>>,
)
    ensures
        connected.contains(name) ==> source_at_start(Some(Some(name)), connected) == Some(name),
        !connected.contains(name) ==> source_at_start(Some(Some(name)), connected) is None,
        source_at_start(Some(None), connected) is None,
        source_at_start(None, connected) is None,
{
}

/// Credentials are read again for a failure at most once in five minutes,
/// and at once the first time. Only a failure of the session is told, and
/// with the session's state.
pub proof fn lemma_credentials_are_tried_again_after_five_minutes(
    retries: Seq<(Seq<char>, u128)>,
    provider: Seq<char>,
    at: u128,
    now: u128,
    e: ProviderErrorView,
    auth: AuthStatusView,
)
    ensures
        lookup(retries, provider) is None ==> retry_due(retries, provider, now),
        lookup(retries, provider) == Some(at) ==> (retry_due(retries, provider, now) <==> now >= at
            + 5 * 60 * 1_000_000_000),
        e is Auth ==> failure_event(provider, e, auth) == Some(
            EventView::AuthChanged { provider, auth },
        ),
        !(e is Auth) ==> failure_event(provider, e, auth) is None,
{
}

/// What cannot be done to a playlist is refused with the reason and with
/// what it is about.
pub proof fn lemma_refusals_name_what_they_are_about(
    provider: Seq<char>,
    track: ScopedIdView,
    playlist: ScopedIdView,
)
    ensures
        no_rename(provider) == "переименование нативного плейлиста "@ + provider
            + " не поддерживается"@,
        unknown_metadata(track) == "метаданных "@ + (track.provider + ":"@ + track.id)
            + " нет в кэше — сначала найдите или проиграйте трек"@,
        not_in_playlist(track, playlist) == "трека "@ + (track.provider + ":"@ + track.id)
            + " нет в плейлисте "@ + (playlist.provider + ":"@ + playlist.id),
        not_connected(provider) == "провайдер "@ + provider + " не подключён"@,
{
}

} // verus!
