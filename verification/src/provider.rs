//! Sources of music: their errors, and the registry of those that are
//! connected.

use vstd::prelude::*;

use crate::model::{scoped_text, PlaylistId, ProviderId, ScopedIdView, TrackId};
use crate::text::{concat2, concat3};
use crate::textmap::{ascending, entry_views, lemma_entries_are_canonical, lookup, TextMap};

verus! {

/// An error of a source. What the service answered stays inside: only the
/// reason comes out.
#[derive(Debug, PartialEq, Eq)]
pub enum ProviderError {
    /// There is no session, or it was refused.
    Auth { provider: ProviderId, reason: String },
    Network(String),
    /// There is an answer, but it cannot be read.
    Format { provider: ProviderId, reason: String },
    NoSuchTrack(TrackId),
    NoSuchPlaylist(PlaylistId),
    /// The source does not know this kind of request.
    Unsupported { provider: ProviderId, what: &'static str },
    Tool { tool: &'static str, reason: String },
}

#[verifier::ext_equal]
pub enum ProviderErrorView {
    Auth { provider: Seq<char>, reason: Seq<char> },
    Network(Seq<char>),
    Format { provider: Seq<char>, reason: Seq<char> },
    NoSuchTrack(ScopedIdView),
    NoSuchPlaylist(ScopedIdView),
    Unsupported { provider: Seq<char>, what: Seq<char> },
    Tool { tool: Seq<char>, reason: Seq<char> },
}

impl View for ProviderError {
    type V = ProviderErrorView;

    open spec fn view(&self) -> ProviderErrorView {
        match *self {
            ProviderError::Auth { provider, reason } => ProviderErrorView::Auth {
                provider: provider@,
                reason: reason@,
            },
            ProviderError::Network(reason) => ProviderErrorView::Network(reason@),
            ProviderError::Format { provider, reason } => ProviderErrorView::Format {
                provider: provider@,
                reason: reason@,
            },
            ProviderError::NoSuchTrack(id) => ProviderErrorView::NoSuchTrack(id@),
            ProviderError::NoSuchPlaylist(id) => ProviderErrorView::NoSuchPlaylist(id@),
            ProviderError::Unsupported { provider, what } => ProviderErrorView::Unsupported {
                provider: provider@,
                what: what@,
            },
            ProviderError::Tool { tool, reason } => ProviderErrorView::Tool {
                tool: tool@,
                reason: reason@,
            },
        }
    }
}

/// The error as it is shown to people.
pub open spec fn provider_message(e: ProviderErrorView) -> Seq<char> {
    match e {
        ProviderErrorView::Auth { provider, reason } => "авторизация "@ + provider + ": "@
            + reason,
        ProviderErrorView::Network(reason) => "сеть: "@ + reason,
        ProviderErrorView::Format { provider, reason } => provider
            + " ответил неожиданным форматом: "@ + reason,
        ProviderErrorView::NoSuchTrack(id) => "нет такого трека: "@ + scoped_text(id),
        ProviderErrorView::NoSuchPlaylist(id) => "нет такого плейлиста: "@ + scoped_text(id),
        ProviderErrorView::Unsupported { provider, what } => provider
            + " не поддерживает "@ + what,
        ProviderErrorView::Tool { tool, reason } => "внешний инструмент "@ + tool + ": "@
            + reason,
    }
}

impl ProviderError {
    /// The error as it is shown to people.
    pub fn to_string(&self) -> (r: String)
        ensures
            r@ == provider_message(self@),
    {
        match self {
            ProviderError::Auth { provider, reason } => concat2(
                concat3("авторизация ", provider.as_str(), ": ").as_str(),
                reason.as_str(),
            ),
            ProviderError::Network(reason) => concat2("сеть: ", reason.as_str()),
            ProviderError::Format { provider, reason } => concat3(
                provider.as_str(),
                " ответил неожиданным форматом: ",
                reason.as_str(),
            ),
            ProviderError::NoSuchTrack(id) => concat2(
                "нет такого трека: ",
                id.to_string().as_str(),
            ),
            ProviderError::NoSuchPlaylist(id) => concat2(
                "нет такого плейлиста: ",
                id.to_string().as_str(),
            ),
            ProviderError::Unsupported { provider, what } => concat3(
                provider.as_str(),
                " не поддерживает ",
                what,
            ),
            ProviderError::Tool { tool, reason } => concat2(
                concat3("внешний инструмент ", tool, ": ").as_str(),
                reason.as_str(),
            ),
        }
    }

    /// Whether the session is to blame, which is mended by connecting the
    /// account anew.
    pub fn is_auth(&self) -> (r: bool)
        ensures
            r == (self@ is Auth),
    {
        matches!(self, ProviderError::Auth { .. })
    }
}

/// The connected sources, each behind a handle. They are walked in the
/// order of their names, so that a search over all of them answers in the
/// same order every time.
pub struct Registry<P> {
    providers: TextMap<P>,
}

impl<P> View for Registry<P> {
    type V = Seq<(Seq<char>, P)>;

    closed spec fn view(&self) -> Seq<(Seq<char>, P)> {
        self.providers@
    }
}

impl<P> Registry<P> {
    pub open spec fn wf(&self) -> bool {
        ascending(self@)
    }

    pub fn new() -> (r: Self)
        ensures
            r.wf(),
            r@.len() == 0,
    {
        Registry { providers: TextMap::new() }
    }

    /// Connects a source. One that was there under this name is replaced
    /// and handed back.
    pub fn insert(&mut self, id: ProviderId, provider: P) -> (r: Option<P>)
        requires
            old(self).wf(),
        ensures
            final(self).wf(),
            r == lookup(old(self)@, id@),
            lookup(final(self)@, id@) == Some(provider),
            forall|other: Seq<char>|
                other != id@ ==> #[trigger] lookup(final(self)@, other) == lookup(
                    old(self)@,
                    other,
                ),
            final(self)@.len() == old(self)@.len() + if lookup(old(self)@, id@) is Some {
                0int
            } else {
                1
            },
    {
        self.providers.insert(id.as_str().to_owned(), provider)
    }

    pub fn get(&self, id: ProviderId) -> (r: Option<&P>)
        requires
            self.wf(),
        ensures
            match r {
                Some(p) => lookup(self@, id@) == Some(*p),
                None => lookup(self@, id@) is None,
            },
    {
        self.providers.get(id.as_str())
    }

    /// A source by the spelling that the protocol and the settings use.
    pub fn get_by_str(&self, id: &str) -> (r: Option<&P>)
        requires
            self.wf(),
        ensures
            match r {
                Some(p) => lookup(self@, id@) == Some(*p),
                None => lookup(self@, id@) is None,
            },
    {
        self.providers.get(id)
    }

    /// The sources with their names, in the order of the names.
    pub fn iter(&self) -> (r: &Vec<(String, P)>)
        ensures
            entry_views(r@) == self@,
    {
        self.providers.entries()
    }

    pub fn len(&self) -> (r: usize)
        ensures
            r == self@.len(),
    {
        self.providers.len()
    }

    pub fn is_empty(&self) -> (r: bool)
        ensures
            r == (self@.len() == 0),
    {
        self.providers.is_empty()
    }

    /// The source that a track is resolved by. A source that is not
    /// connected and a track that does not exist look alike to the caller
    /// and are mended alike.
    pub fn resolver_for(&self, track: &TrackId) -> (r: Result<&P, ProviderError>)
        requires
            self.wf(),
        ensures
            match lookup(self@, track@.provider) {
                Some(p) => r matches Ok(found) && *found == p,
                None => r matches Err(e) && e@ == ProviderErrorView::NoSuchTrack(track@),
            },
    {
        match self.providers.get(track.provider.as_str()) {
            Some(p) => Ok(p),
            None => Err(ProviderError::NoSuchTrack(track.clone())),
        }
    }
}

/// Two registries with the same sources are walked in the same order, in
/// whatever order the sources were connected.
pub proof fn lemma_registry_order_is_fixed<P>(a: Seq<(Seq<char>, P)>, b: Seq<(Seq<char>, P)>)
    requires
        ascending(a),
        ascending(b),
        forall|name: Seq<char>| #[trigger] lookup(a, name) == lookup(b, name),
    ensures
        a == b,
{
    lemma_entries_are_canonical(a, b);
}

/// What is shown of a source's failure names the source, the track or the
/// tool, and says why.
pub proof fn lemma_failures_name_source_and_reason(
    provider: Seq<char>,
    reason: Seq<char>,
    id: ScopedIdView,
)
    ensures
        provider_message(ProviderErrorView::Auth { provider, reason }) == "авторизация "@ + provider
            + ": "@ + reason,
        provider_message(ProviderErrorView::Network(reason)) == "сеть: "@ + reason,
        provider_message(ProviderErrorView::Format { provider, reason }) == provider
            + " ответил неожиданным форматом: "@ + reason,
        provider_message(ProviderErrorView::NoSuchTrack(id)) == "нет такого трека: "@ + id.provider
            + ":"@ + id.id,
        provider_message(ProviderErrorView::NoSuchPlaylist(id)) == "нет такого плейлиста: "@
            + id.provider + ":"@ + id.id,
        provider_message(ProviderErrorView::Unsupported { provider, what: reason }) == provider
            + " не поддерживает "@ + reason,
        provider_message(ProviderErrorView::Tool { tool: provider, reason })
            == "внешний инструмент "@ + provider + ": "@ + reason,
{
    assert("нет такого трека: "@ + scoped_text(id) =~= "нет такого трека: "@ + id.provider + ":"@
        + id.id);
    assert("нет такого плейлиста: "@ + scoped_text(id) =~= "нет такого плейлиста: "@ + id.provider
        + ":"@ + id.id);
}

} // verus!
