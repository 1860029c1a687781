//! Source-independent types: what the player, the bus interfaces and the
//! clients know of tracks, playlists and streams.

use vstd::prelude::*;

use crate::text::{clone_opt, clone_strings, concat3, join, joined, opt_text, texts};
use crate::time::{Duration, SystemTime};

verus! {

/// The name of a source of music: `"ytmusic"`, `"soundcloud"`, or
/// `"local"` for the application's own collections.
///
/// A string rather than an enum: the player, the daemon and the clients
/// have no list of sources to match on.
#[derive(Clone, Copy, Eq, Debug, PartialOrd, Ord, Hash)]
pub struct ProviderId(pub &'static str);

impl View for ProviderId {
    type V = Seq<char>;

    open spec fn view(&self) -> Seq<char> {
        self.0@
    }
}

impl PartialEq for ProviderId {
    fn eq(&self, other: &Self) -> (r: bool) {
        self.0.eq(other.0)
    }
}

impl vstd::std_specs::cmp::PartialEqSpecImpl for ProviderId {
    open spec fn obeys_eq_spec() -> bool {
        true
    }

    open spec fn eq_spec(&self, other: &Self) -> bool {
        self@ == other@
    }
}

/// The names of all known sources.
pub open spec fn known_providers() -> Seq<Seq<char>> {
    seq!["local"@, "ytmusic"@, "soundcloud"@]
}

impl ProviderId {
    pub fn local() -> (r: ProviderId)
        ensures
            r@ == "local"@,
    {
        ProviderId("local")
    }

    pub fn ytmusic() -> (r: ProviderId)
        ensures
            r@ == "ytmusic"@,
    {
        ProviderId("ytmusic")
    }

    pub fn soundcloud() -> (r: ProviderId)
        ensures
            r@ == "soundcloud"@,
    {
        ProviderId("soundcloud")
    }

    pub fn as_str(self) -> (r: &'static str)
        ensures
            r@ == self@,
    {
        self.0
    }

    /// Reads a source's name. The comparison is exact: the name is also a
    /// database key and a directory name, and `"YTMusic"` is not
    /// `"ytmusic"` there.
    pub fn from_name(name: &str) -> (r: Option<ProviderId>)
        ensures
            r is Some <==> known_providers().contains(name@),
            r matches Some(p) ==> p@ == name@,
    {
        proof {
            assert(known_providers()[0] == "local"@);
            assert(known_providers()[1] == "ytmusic"@);
            assert(known_providers()[2] == "soundcloud"@);
        }
        if name.eq("local") {
            Some(ProviderId::local())
        } else if name.eq("ytmusic") {
            Some(ProviderId::ytmusic())
        } else if name.eq("soundcloud") {
            Some(ProviderId::soundcloud())
        } else {
            None
        }
    }
}

/// A track or playlist id together with the source that it belongs to.
#[verifier::ext_equal]
pub struct ScopedIdView {
    pub provider: Seq<char>,
    pub id: Seq<char>,
}

/// `provider:id`, as it is shown to people.
pub open spec fn scoped_text(v: ScopedIdView) -> Seq<char> {
    v.provider + ":"@ + v.id
}

/// A track, addressed within its source.
#[derive(Eq, Debug, PartialOrd, Ord, Hash)]
pub struct TrackId {
    pub provider: ProviderId,
    pub id: String,
}

impl View for TrackId {
    type V = ScopedIdView;

    open spec fn view(&self) -> ScopedIdView {
        ScopedIdView { provider: self.provider@, id: self.id@ }
    }
}

impl PartialEq for TrackId {
    fn eq(&self, other: &Self) -> (r: bool) {
        self.provider == other.provider && self.id.as_str().eq(other.id.as_str())
    }
}

impl vstd::std_specs::cmp::PartialEqSpecImpl for TrackId {
    open spec fn obeys_eq_spec() -> bool {
        true
    }

    open spec fn eq_spec(&self, other: &Self) -> bool {
        self@ == other@
    }
}

impl Clone for TrackId {
    fn clone(&self) -> (r: Self)
        ensures
            r@ == self@,
    {
        TrackId { provider: self.provider, id: self.id.clone() }
    }
}

impl TrackId {
    pub fn new(provider: ProviderId, id: &str) -> (r: Self)
        ensures
            r@ == (ScopedIdView { provider: provider@, id: id@ }),
    {
        TrackId { provider, id: id.to_owned() }
    }

    /// `provider:id`.
    pub fn to_string(&self) -> (r: String)
        ensures
            r@ == scoped_text(self@),
    {
        concat3(self.provider.as_str(), ":", self.id.as_str())
    }
}

/// A playlist, addressed within its source.
#[derive(Eq, Debug, PartialOrd, Ord, Hash)]
pub struct PlaylistId {
    pub provider: ProviderId,
    pub id: String,
}

impl View for PlaylistId {
    type V = ScopedIdView;

    open spec fn view(&self) -> ScopedIdView {
        ScopedIdView { provider: self.provider@, id: self.id@ }
    }
}

impl PartialEq for PlaylistId {
    fn eq(&self, other: &Self) -> (r: bool) {
        self.provider == other.provider && self.id.as_str().eq(other.id.as_str())
    }
}

impl vstd::std_specs::cmp::PartialEqSpecImpl for PlaylistId {
    open spec fn obeys_eq_spec() -> bool {
        true
    }

    open spec fn eq_spec(&self, other: &Self) -> bool {
        self@ == other@
    }
}

impl Clone for PlaylistId {
    fn clone(&self) -> (r: Self)
        ensures
            r@ == self@,
    {
        PlaylistId { provider: self.provider, id: self.id.clone() }
    }
}

impl PlaylistId {
    pub fn new(provider: ProviderId, id: &str) -> (r: Self)
        ensures
            r@ == (ScopedIdView { provider: provider@, id: id@ }),
    {
        PlaylistId { provider, id: id.to_owned() }
    }

    /// `provider:id`.
    pub fn to_string(&self) -> (r: String)
        ensures
            r@ == scoped_text(self@),
    {
        concat3(self.provider.as_str(), ":", self.id.as_str())
    }
}

/// What is known of a track.
#[derive(Debug, PartialEq, Eq)]
pub struct Track {
    pub id: TrackId,
    pub title: String,
    /// May be empty: some sources do not tell the artist from the title.
    pub artists: Vec<String>,
    pub album: Option<String>,
    pub duration: Option<Duration>,
    /// A remote URL of the cover.
    pub art_url: Option<String>,
    /// The track's page at its source.
    pub page_url: Option<String>,
}

#[verifier::ext_equal]
pub struct TrackView {
    pub id: ScopedIdView,
    pub title: Seq<char>,
    pub artists: Seq<Seq<char>>,
    pub album: Option<Seq<char>>,
    pub duration: Option<Duration>,
    pub art_url: Option<Seq<char>>,
    pub page_url: Option<Seq<char>>,
}

impl View for Track {
    type V = TrackView;

    open spec fn view(&self) -> TrackView {
        TrackView {
            id: self.id@,
            title: self.title@,
            artists: texts(self.artists@),
            album: opt_text(self.album),
            duration: self.duration,
            art_url: opt_text(self.art_url),
            page_url: opt_text(self.page_url),
        }
    }
}

impl Clone for Track {
    fn clone(&self) -> (r: Self)
        ensures
            r@ == self@,
    {
        Track {
            id: self.id.clone(),
            title: self.title.clone(),
            artists: clone_strings(&self.artists),
            album: clone_opt(&self.album),
            duration: self.duration,
            art_url: clone_opt(&self.art_url),
            page_url: clone_opt(&self.page_url),
        }
    }
}

impl Track {
    /// The artists on one line; empty when the source named none.
    pub fn artist_line(&self) -> (r: String)
        ensures
            r@ == joined(self@.artists, ", "@),
    {
        join(&self.artists, ", ")
    }
}

/// The views of a list of tracks.
pub open spec fn track_views(v: Seq<Track>) -> Seq<TrackView> {
    v.map_values(|t: Track| t@)
}

/// What is known of a playlist.
#[derive(Debug, PartialEq, Eq)]
pub struct Playlist {
    pub id: PlaylistId,
    pub title: String,
    pub subtitle: Option<String>,
    pub art_url: Option<String>,
    /// `None` when the source does not tell the size in its list.
    pub track_count: Option<u32>,
}

#[verifier::ext_equal]
pub struct PlaylistView {
    pub id: ScopedIdView,
    pub title: Seq<char>,
    pub subtitle: Option<Seq<char>>,
    pub art_url: Option<Seq<char>>,
    pub track_count: Option<u32>,
}

impl View for Playlist {
    type V = PlaylistView;

    open spec fn view(&self) -> PlaylistView {
        PlaylistView {
            id: self.id@,
            title: self.title@,
            subtitle: opt_text(self.subtitle),
            art_url: opt_text(self.art_url),
            track_count: self.track_count,
        }
    }
}

impl Clone for Playlist {
    fn clone(&self) -> (r: Self)
        ensures
            r@ == self@,
    {
        Playlist {
            id: self.id.clone(),
            title: self.title.clone(),
            subtitle: clone_opt(&self.subtitle),
            art_url: clone_opt(&self.art_url),
            track_count: self.track_count,
        }
    }
}

/// The views of a list of playlists.
pub open spec fn playlist_views(v: Seq<Playlist>) -> Seq<PlaylistView> {
    v.map_values(|p: Playlist| p@)
}

/// Where to play from. `Local` is a file of the offline cache: the source
/// is not asked at all then.
#[derive(Debug, PartialEq, Eq)]
pub enum StreamSource {
    Local(String),
    Remote {
        url: String,
        /// The only header that may be handed to the player: its header
        /// option splits values at commas.
        user_agent: Option<String>,
        /// Such links live for hours, so they are never cached.
        expires_at: Option<SystemTime>,
    },
}

#[verifier::ext_equal]
pub enum StreamSourceView {
    Local(Seq<char>),
    Remote {
        url: Seq<char>,
        user_agent: Option<Seq<char>>,
        expires_at: Option<SystemTime>,
    },
}

impl View for StreamSource {
    type V = StreamSourceView;

    open spec fn view(&self) -> StreamSourceView {
        match *self {
            StreamSource::Local(path) => StreamSourceView::Local(path@),
            StreamSource::Remote { url, user_agent, expires_at } => StreamSourceView::Remote {
                url: url@,
                user_agent: opt_text(user_agent),
                expires_at,
            },
        }
    }
}

impl Clone for StreamSource {
    fn clone(&self) -> (r: Self)
        ensures
            r@ == self@,
    {
        match self {
            StreamSource::Local(path) => StreamSource::Local(path.clone()),
            StreamSource::Remote { url, user_agent, expires_at } => StreamSource::Remote {
                url: url.clone(),
                user_agent: clone_opt(user_agent),
                expires_at: *expires_at,
            },
        }
    }
}

impl StreamSourceView {
    /// Whether the link is dead at `now`. A file never is.
    pub open spec fn expired(self, now: SystemTime) -> bool {
        match self {
            StreamSourceView::Local(_) => false,
            StreamSourceView::Remote { expires_at, .. } => match expires_at {
                Some(at) => at.unix_nanos <= now.unix_nanos,
                None => false,
            },
        }
    }
}

impl StreamSource {
    pub fn is_local(&self) -> (r: bool)
        ensures
            r == (self@ is Local),
    {
        matches!(self, StreamSource::Local(_))
    }

    /// Whether the resolved link is dead. A local file never is.
    pub fn is_expired(&self, now: SystemTime) -> (r: bool)
        ensures
            r == self@.expired(now),
    {
        match self {
            StreamSource::Local(_) => false,
            StreamSource::Remote { expires_at, .. } => match expires_at {
                Some(at) => at.unix_nanos <= now.unix_nanos,
                None => false,
            },
        }
    }
}

/// A link stays dead once its deadline has passed.
pub proof fn lemma_expiry_is_permanent(s: StreamSourceView, now: SystemTime, later: SystemTime)
    requires
        now.unix_nanos <= later.unix_nanos,
        s.expired(now),
    ensures
        s.expired(later),
        s is Remote,
{
}

/// The state of a source's session.
///
/// `Missing` and `Expired` are kept apart: they are mended differently.
#[derive(Debug, PartialEq, Eq)]
pub enum AuthStatus {
    /// There is a session and it works.
    Ready,
    /// No credentials were found.
    Missing { hint: String },
    /// Credentials were found and the source refused them.
    Expired { hint: String },
    /// The source works without a session.
    Anonymous,
}

#[verifier::ext_equal]
pub enum AuthStatusView {
    Ready,
    Missing { hint: Seq<char> },
    Expired { hint: Seq<char> },
    Anonymous,
}

impl View for AuthStatus {
    type V = AuthStatusView;

    open spec fn view(&self) -> AuthStatusView {
        match *self {
            AuthStatus::Ready => AuthStatusView::Ready,
            AuthStatus::Missing { hint } => AuthStatusView::Missing { hint: hint@ },
            AuthStatus::Expired { hint } => AuthStatusView::Expired { hint: hint@ },
            AuthStatus::Anonymous => AuthStatusView::Anonymous,
        }
    }
}

impl Clone for AuthStatus {
    fn clone(&self) -> (r: Self)
        ensures
            r@ == self@,
    {
        match self {
            AuthStatus::Ready => AuthStatus::Ready,
            AuthStatus::Missing { hint } => AuthStatus::Missing { hint: hint.clone() },
            AuthStatus::Expired { hint } => AuthStatus::Expired { hint: hint.clone() },
            AuthStatus::Anonymous => AuthStatus::Anonymous,
        }
    }
}

impl AuthStatusView {
    pub open spec fn usable(self) -> bool {
        self is Ready || self is Anonymous
    }
}

impl AuthStatus {
    pub fn is_usable(&self) -> (r: bool)
        ensures
            r == self@.usable(),
    {
        matches!(self, AuthStatus::Ready | AuthStatus::Anonymous)
    }
}

/// What to search for. A source that does not know a kind answers with
/// nothing, not with an error.
#[derive(Clone, Copy, Debug, PartialEq, Eq, Structural)]
pub enum SearchKind {
    Tracks,
    Albums,
    Artists,
    Playlists,
}

/// A listener's rating of a track.
#[derive(Clone, Copy, Debug, PartialEq, Eq, Structural)]
pub enum Rating {
    Unrated,
    Liked,
    Disliked,
}

impl Default for Rating {
    fn default() -> (r: Self)
        ensures
            r == Rating::Unrated,
    {
        Rating::Unrated
    }
}

/// One thing that a search or a recommendation shelf holds.
#[derive(Debug, PartialEq, Eq)]
pub enum SearchResult {
    Track(Track),
    Playlist(Playlist),
    Artist { provider: ProviderId, id: String, name: String },
}

#[verifier::ext_equal]
pub enum SearchResultView {
    Track(TrackView),
    Playlist(PlaylistView),
    Artist { provider: Seq<char>, id: Seq<char>, name: Seq<char> },
}

impl View for SearchResult {
    type V = SearchResultView;

    open spec fn view(&self) -> SearchResultView {
        match *self {
            SearchResult::Track(t) => SearchResultView::Track(t@),
            SearchResult::Playlist(p) => SearchResultView::Playlist(p@),
            SearchResult::Artist { provider, id, name } => SearchResultView::Artist {
                provider: provider@,
                id: id@,
                name: name@,
            },
        }
    }
}

impl Clone for SearchResult {
    fn clone(&self) -> (r: Self)
        ensures
            r@ == self@,
    {
        match self {
            SearchResult::Track(t) => SearchResult::Track(t.clone()),
            SearchResult::Playlist(p) => SearchResult::Playlist(p.clone()),
            SearchResult::Artist { provider, id, name } => SearchResult::Artist {
                provider: *provider,
                id: id.clone(),
                name: name.clone(),
            },
        }
    }
}

pub open spec fn result_views(v: Seq<SearchResult>) -> Seq<SearchResultView> {
    v.map_values(|x: SearchResult| x@)
}

/// A shelf of recommendations. Its items are those that a search gives.
#[derive(Debug, PartialEq, Eq)]
pub struct CatalogShelf {
    pub title: String,
    pub subtitle: Option<String>,
    pub items: Vec<SearchResult>,
}

#[verifier::ext_equal]
pub struct CatalogShelfView {
    pub title: Seq<char>,
    pub subtitle: Option<Seq<char>>,
    pub items: Seq<SearchResultView>,
}

impl View for CatalogShelf {
    type V = CatalogShelfView;

    open spec fn view(&self) -> CatalogShelfView {
        CatalogShelfView {
            title: self.title@,
            subtitle: opt_text(self.subtitle),
            items: result_views(self.items@),
        }
    }
}

/// A copy of a list of results.
pub fn clone_results(v: &Vec<SearchResult>) -> (r: Vec<SearchResult>)
    ensures
        result_views(r@) == result_views(v@),
{
    let mut out: Vec<SearchResult> = Vec::new();
    let mut i: usize = 0;
    while i < v.len()
        invariant
            i <= v@.len(),
            result_views(out@) == result_views(v@).subrange(0, i as int),
        decreases v@.len() - i,
    {
        let ghost before = result_views(out@);
        out.push(v[i].clone());
        i += 1;
        assert(result_views(out@) =~= before.push(v@[i - 1]@));
        assert(result_views(out@) =~= result_views(v@).subrange(0, i as int));
    }
    assert(result_views(v@).subrange(0, i as int) =~= result_views(v@));
    out
}

impl Clone for CatalogShelf {
    fn clone(&self) -> (r: Self)
        ensures
            r@ == self@,
    {
        CatalogShelf {
            title: self.title.clone(),
            subtitle: clone_opt(&self.subtitle),
            items: clone_results(&self.items),
        }
    }
}

pub open spec fn shelf_views(v: Seq<CatalogShelf>) -> Seq<CatalogShelfView> {
    v.map_values(|x: CatalogShelf| x@)
}

/// The repeat mode. One for all sources: the queue is mixed.
#[derive(Clone, Copy, Debug, PartialEq, Eq, Structural)]
pub enum LoopMode {
    Off,
    Track,
    Queue,
}

impl Default for LoopMode {
    fn default() -> (r: Self)
        ensures
            r == LoopMode::Off,
    {
        LoopMode::Off
    }
}

/// The bus name of a repeat mode: its `LoopStatus`.
pub open spec fn loop_name(mode: LoopMode) -> Seq<char> {
    match mode {
        LoopMode::Off => "None"@,
        LoopMode::Track => "Track"@,
        LoopMode::Queue => "Playlist"@,
    }
}

/// The three bus names of the repeat modes differ from each other.
pub proof fn lemma_loop_names_distinct(a: LoopMode, b: LoopMode)
    requires
        a != b,
    ensures
        loop_name(a) != loop_name(b),
{
    reveal_strlit("None");
    reveal_strlit("Track");
    reveal_strlit("Playlist");
    assert("None"@.len() == 4 && "Track"@.len() == 5 && "Playlist"@.len() == 8);
}

impl LoopMode {
    /// The value of the bus property `LoopStatus`.
    pub fn as_mpris(self) -> (r: &'static str)
        ensures
            r@ == loop_name(self),
    {
        match self {
            LoopMode::Off => "None",
            LoopMode::Track => "Track",
            LoopMode::Queue => "Playlist",
        }
    }

    /// Reads a `LoopStatus`: the one mode with that name, if there is one.
    pub fn from_mpris(value: &str) -> (r: Option<Self>)
        ensures
            match r {
                Some(mode) => loop_name(mode) == value@,
                None => forall|mode: LoopMode| loop_name(mode) != value@,
            },
            forall|mode: LoopMode| value@ == loop_name(mode) ==> r == Some(mode),
    {
        proof {
            lemma_loop_names_distinct(LoopMode::Off, LoopMode::Track);
            lemma_loop_names_distinct(LoopMode::Off, LoopMode::Queue);
            lemma_loop_names_distinct(LoopMode::Track, LoopMode::Queue);
        }
        if value.eq("None") {
            Some(LoopMode::Off)
        } else if value.eq("Track") {
            Some(LoopMode::Track)
        } else if value.eq("Playlist") {
            Some(LoopMode::Queue)
        } else {
            None
        }
    }
}

#[derive(Clone, Copy, Debug, PartialEq, Eq, Structural)]
pub enum PlaybackStatus {
    Playing,
    Paused,
    Stopped,
}

impl Default for PlaybackStatus {
    fn default() -> (r: Self)
        ensures
            r == PlaybackStatus::Stopped,
    {
        PlaybackStatus::Stopped
    }
}

/// The bus name of a playback status.
pub open spec fn status_name(status: PlaybackStatus) -> Seq<char> {
    match status {
        PlaybackStatus::Playing => "Playing"@,
        PlaybackStatus::Paused => "Paused"@,
        PlaybackStatus::Stopped => "Stopped"@,
    }
}

impl PlaybackStatus {
    /// The value of the bus property `PlaybackStatus`.
    pub fn as_mpris(self) -> (r: &'static str)
        ensures
            r@ == status_name(self),
    {
        match self {
            PlaybackStatus::Playing => "Playing",
            PlaybackStatus::Paused => "Paused",
            PlaybackStatus::Stopped => "Stopped",
        }
    }
}

/// A link lives up to its deadline and is dead from then on; one without a
/// deadline lives on, and so does a file.
pub proof fn lemma_links_live_up_to_their_deadline(
    url: Seq<char>,
    user_agent: Option<Seq<char>>,
    path: Seq<char>,
    at: SystemTime,
    now: SystemTime,
)
    ensures
        (StreamSourceView::Remote { url, user_agent, expires_at: Some(at) }).expired(now)
            <==> now.unix_nanos >= at.unix_nanos,
        !(StreamSourceView::Remote { url, user_agent, expires_at: None }).expired(now),
        !(StreamSourceView::Local(path)).expired(now),
{
}

/// A source can be used with a session that works and without any where it
/// needs none; not without credentials, nor with refused ones.
pub proof fn lemma_only_working_sessions_are_usable(hint: Seq<char>)
    ensures
        AuthStatusView::Ready.usable(),
        AuthStatusView::Anonymous.usable(),
        !(AuthStatusView::Missing { hint }).usable(),
        !(AuthStatusView::Expired { hint }).usable(),
{
}

/// The names on the bus are those of the player interface of the desktop.
pub proof fn lemma_bus_names()
    ensures
        loop_name(LoopMode::Off) == "None"@,
        loop_name(LoopMode::Track) == "Track"@,
        loop_name(LoopMode::Queue) == "Playlist"@,
        status_name(PlaybackStatus::Playing) == "Playing"@,
        status_name(PlaybackStatus::Paused) == "Paused"@,
        status_name(PlaybackStatus::Stopped) == "Stopped"@,
{
}

/// There are three sources, and the names of no two start alike, so the
/// text of an id belongs to that id alone.
pub proof fn lemma_ids_are_told_apart_by_their_texts(a: ScopedIdView, b: ScopedIdView)
    requires
        known_providers().contains(a.provider),
        known_providers().contains(b.provider),
    ensures
        known_providers().contains("local"@),
        known_providers().contains("ytmusic"@),
        known_providers().contains("soundcloud"@),
        known_providers().len() == 3,
        scoped_text(a) == scoped_text(b) <==> a == b,
        scoped_text(a).len() == a.provider.len() + 1 + a.id.len(),
        scoped_text(a)[a.provider.len() as int] == ':',
{
    let known = known_providers();
    assert(known[0] == "local"@ && known[1] == "ytmusic"@ && known[2] == "soundcloud"@);
    reveal_strlit("local");
    reveal_strlit("ytmusic");
    reveal_strlit("soundcloud");
    reveal_strlit(":");
    let i = choose|i: int| 0 <= i < known.len() && known[i] == a.provider;
    let j = choose|j: int| 0 <= j < known.len() && known[j] == b.provider;
    if scoped_text(a) == scoped_text(b) {
        assert(scoped_text(a)[0] == a.provider[0]);
        assert(scoped_text(b)[0] == b.provider[0]);
        assert("local"@[0] == 'l' && "ytmusic"@[0] == 'y' && "soundcloud"@[0] == 's');
        assert(i == j);
        let n = a.provider.len() + 1;
        assert(scoped_text(a).skip(n as int) =~= a.id);
        assert(scoped_text(b).skip(n as int) =~= b.id);
        assert(a =~= b);
    }
}

} // verus!
