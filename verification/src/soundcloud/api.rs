//! Talking to the service: what is asked, and what its answers mean.

use vstd::prelude::*;
use vstd::utf8::{decode_utf8, valid_utf8};

use crate::chromium::utf8_text;
use crate::home::opt_str;
use crate::json::{json_parse, parse, Json, JsonView};
use crate::model::{AuthStatus, AuthStatusView, ProviderId, SearchKind};
use crate::provider::{ProviderError, ProviderErrorView};
use crate::soundcloud::auth::{ScAuth, ScAuthView};
use crate::text::{
    chars_of, clone_opt, concat2, concat3, contains, contains_text, decimal, decimal_text,
    ends_with, ends_with_text, find_char, find_from, first_place, is_white, lemma_first_place,
    occurs_at, opt_text, starts_with, starts_with_text, string_of, texts, trim, trimmed,
};

verus! {

pub const API_BASE: &'static str = "https://api-v2.soundcloud.com/";

pub const SESSION_URL: &'static str = "https://api-auth.soundcloud.com/connect/session";

/// The client id to start with. Another one is looked for only once this
/// one is refused.
pub const FALLBACK_CLIENT_ID: &'static str = "Pb72ranhoyt6gw7hM7TkzUItXlMWSNSo";

pub const USER_AGENT: &'static str =
    "Mozilla/5.0 (X11; Linux x86_64) AppleWebKit/537.36 (KHTML, like Gecko) Chrome/124.0.0.0 Safari/537.36";

/// How much of an answer goes into an error, in characters.
pub const SNIPPET_CHARS: usize = 240;

/// The beginning of an answer, without white space around it.
pub open spec fn snippet_of(body: Seq<char>) -> Seq<char> {
    let t = trimmed(body);
    if t.len() <= SNIPPET_CHARS {
        t
    } else {
        t.subrange(0, SNIPPET_CHARS as int) + "…"@
    }
}

pub fn snippet(body: &str) -> (r: String)
    ensures
        r@ == snippet_of(body@),
{
    let t = trim(body);
    let chars = chars_of(t.as_str());
    if chars.len() <= SNIPPET_CHARS {
        return t;
    }
    concat2(string_of(&chars, 0, SNIPPET_CHARS).as_str(), "…")
}

/// What a page's scripts are found by.
pub const ASSET_NEEDLE: &'static str = "https://a-v2.sndcdn.com/assets/";

/// The script that is named at a place of a page: up to the next quotation
/// mark, if that makes the name of a script.
pub open spec fn asset_at(page: Seq<char>, at: int) -> Option<Seq<char>> {
    let rest = page.subrange(at, page.len() as int);
    let end = first_place(rest, '"');
    let url = rest.subrange(0, end);
    if end < rest.len() && end > ASSET_NEEDLE@.len() && ends_with_text(url, ".js"@) {
        Some(url)
    } else {
        None
    }
}

/// The scripts that a page names, at or after a place.
pub open spec fn assets_from(page: Seq<char>, from: int) -> Seq<Seq<char>>
    decreases page.len() - from,
{
    if from >= page.len() {
        Seq::empty()
    } else if occurs_at(page, ASSET_NEEDLE@, from) && ASSET_NEEDLE@.len() > 0 {
        let rest = assets_from(page, from + ASSET_NEEDLE@.len());
        match asset_at(page, from) {
            Some(url) => seq![url] + rest,
            None => rest,
        }
    } else {
        assets_from(page, from + 1)
    }
}

proof fn lemma_no_asset(page: Seq<char>, from: int, to: int)
    requires
        0 <= from <= to <= page.len(),
        forall|k: int| from <= k < to ==> !occurs_at(page, ASSET_NEEDLE@, k),
    ensures
        assets_from(page, from) == assets_from(page, to),
    decreases to - from,
{
    if from < to {
        lemma_no_asset(page, from + 1, to);
    }
}

/// The scripts that a page names, in its order.
#[verifier::loop_isolation(false)]
pub fn asset_urls(page: &str) -> (r: Vec<String>)
    ensures
        texts(r@) == assets_from(page@, 0),
{
    let chars = chars_of(page);
    let needle = chars_of(ASSET_NEEDLE);
    proof {
        reveal_strlit("https://a-v2.sndcdn.com/assets/");
    }
    let total: usize = chars.len();
    let skip: usize = needle.len();
    let mut out: Vec<String> = Vec::new();
    let mut from: usize = 0;
    assert(texts(out@) =~= Seq::empty());
    assert(Seq::<Seq<char>>::empty() + assets_from(page@, 0) =~= assets_from(page@, 0));
    while from < total
        invariant
            from <= total,
            texts(out@) + assets_from(page@, from as int) == assets_from(page@, 0),
        decreases total - from,
    {
        match find_from(&chars, &needle, from) {
            Some(at) => {
                proof {
                    lemma_no_asset(page@, from as int, at as int);
                }
                let ghost had = texts(out@);
                let ghost rest = page@.subrange(at as int, page@.len() as int);
                let end: usize = find_char(&chars, '"', at);
                let ghost whole = assets_from(page@, at as int);
                let ghost tail = assets_from(page@, at + skip);
                if end < total && end - at > skip {
                    let url = string_of(&chars, at, end);
                    assert(url@ =~= rest.subrange(0, end - at));
                    if ends_with(url.as_str(), ".js") {
                        let ghost view = url@;
                        out.push(url);
                        assert(texts(out@) =~= had.push(view));
                        assert(whole == seq![view] + tail);
                        assert(had + whole =~= had.push(view) + tail);
                    } else {
                        assert(whole == tail);
                    }
                } else {
                    assert(whole == tail);
                }
                from = at + skip;
            },
            None => {
                proof {
                    lemma_no_asset(page@, from as int, total as int);
                    assert(assets_from(page@, total as int) =~= Seq::empty());
                    assert(texts(out@) + Seq::empty() =~= texts(out@));
                }
                return out;
            },
        }
    }
    assert(assets_from(page@, from as int) =~= Seq::empty());
    assert(texts(out@) + Seq::empty() =~= texts(out@));
    out
}

/// The first place at or after `from` that is not white.
pub open spec fn past_white(code: Seq<char>, from: int) -> int
    decreases code.len() - from,
{
    if 0 <= from < code.len() && is_white(code[from]) {
        past_white(code, from + 1)
    } else {
        from
    }
}

pub open spec fn is_alnum(c: char) -> bool {
    ||| 'A' <= c <= 'Z'
    ||| 'a' <= c <= 'z'
    ||| '0' <= c <= '9'
}

/// The quoted value at a place: 32 letters or digits between quotation
/// marks.
pub open spec fn quoted_id(code: Seq<char>, at: int) -> Option<Seq<char>> {
    if 0 <= at && at + 34 <= code.len() && code[at] == '"' && code[at + 33] == '"' && (forall|
        k: int,
    |
        at < k < at + 33 ==> is_alnum(#[trigger] code[k])) {
        Some(code.subrange(at + 1, at + 33))
    } else {
        None
    }
}

/// The client id behind a mention of `client_id` that ends at a place: a
/// colon and a quoted value, with white space allowed before each.
pub open spec fn id_behind(code: Seq<char>, at: int) -> Option<Seq<char>> {
    let colon = past_white(code, at);
    if 0 <= colon < code.len() && code[colon] == ':' {
        quoted_id(code, past_white(code, colon + 1))
    } else {
        None
    }
}

/// What a client id is found by.
pub const CLIENT_ID_NEEDLE: &'static str = "client_id";

/// The first client id of a script, at or after a place.
pub open spec fn client_id_from(code: Seq<char>, from: int) -> Option<Seq<char>>
    decreases code.len() - from,
{
    if from >= code.len() {
        None
    } else if occurs_at(code, CLIENT_ID_NEEDLE@, from) && CLIENT_ID_NEEDLE@.len() > 0 {
        let end = from + CLIENT_ID_NEEDLE@.len();
        match id_behind(code, end) {
            Some(id) => Some(id),
            None => client_id_from(code, end),
        }
    } else {
        client_id_from(code, from + 1)
    }
}

proof fn lemma_no_mention(code: Seq<char>, from: int, to: int)
    requires
        0 <= from <= to <= code.len(),
        forall|k: int| from <= k < to ==> !occurs_at(code, CLIENT_ID_NEEDLE@, k),
    ensures
        client_id_from(code, from) == client_id_from(code, to),
    decreases to - from,
{
    if from < to {
        lemma_no_mention(code, from + 1, to);
    }
}

fn skip_white(chars: &Vec<char>, from: usize) -> (r: usize)
    requires
        from <= chars@.len(),
    ensures
        r == past_white(chars@, from as int),
        from <= r <= chars@.len(),
{
    let mut at: usize = from;
    while at < chars.len() && chars[at].is_whitespace()
        invariant
            from <= at <= chars@.len(),
            past_white(chars@, from as int) == past_white(chars@, at as int),
        decreases chars@.len() - at,
    {
        at += 1;
    }
    at
}

fn read_quoted(chars: &Vec<char>, at: usize) -> (r: Option<String>)
    requires
        at <= chars@.len(),
    ensures
        opt_text(r) == quoted_id(chars@, at as int),
{
    let total: usize = chars.len();
    if total < 34 || at > total - 34 {
        return None;
    }
    if chars[at] != '"' || chars[at + 33] != '"' {
        return None;
    }
    let mut k: usize = at + 1;
    while k < at + 33
        invariant
            total == chars@.len(),
            at + 34 <= total,
            at < k <= at + 33,
            forall|j: int| at < j < k ==> is_alnum(#[trigger] chars@[j]),
        decreases at + 33 - k,
    {
        let c: char = chars[k];
        if !(('A' <= c && c <= 'Z') || ('a' <= c && c <= 'z') || ('0' <= c && c <= '9')) {
            assert(!is_alnum(chars@[k as int]));
            return None;
        }
        k += 1;
    }
    Some(string_of(chars, at + 1, at + 33))
}

/// The client id in a script. Mentions that are followed by anything else
/// are passed over.
#[verifier::loop_isolation(false)]
pub fn client_id_in(code: &str) -> (r: Option<String>)
    ensures
        opt_text(r) == client_id_from(code@, 0),
{
    let chars = chars_of(code);
    let needle = chars_of(CLIENT_ID_NEEDLE);
    proof {
        reveal_strlit("client_id");
    }
    let total: usize = chars.len();
    let skip: usize = needle.len();
    let mut from: usize = 0;
    while from < total
        invariant
            from <= total,
            client_id_from(code@, 0) == client_id_from(code@, from as int),
        decreases total - from,
    {
        match find_from(&chars, &needle, from) {
            Some(at) => {
                proof {
                    lemma_no_mention(code@, from as int, at as int);
                }
                let end: usize = at + skip;
                let colon: usize = skip_white(&chars, end);
                if colon < total && chars[colon] == ':' {
                    let mark: usize = skip_white(&chars, colon + 1);
                    if let Some(id) = read_quoted(&chars, mark) {
                        return Some(id);
                    }
                }
                from = end;
            },
            None => {
                proof {
                    lemma_no_mention(code@, from as int, total as int);
                }
                return None;
            },
        }
    }
    None
}

/// A client id that was found is 32 letters or digits.
pub proof fn lemma_client_ids_are_plain(code: Seq<char>, from: int)
    requires
        0 <= from,
    ensures
        client_id_from(code, from) matches Some(id) ==> id.len() == 32 && forall|k: int|
            0 <= k < 32 ==> is_alnum(#[trigger] id[k]),
    decreases code.len() - from,
{
    if from < code.len() {
        if occurs_at(code, CLIENT_ID_NEEDLE@, from) && CLIENT_ID_NEEDLE@.len() > 0 {
            let end = from + CLIENT_ID_NEEDLE@.len();
            if id_behind(code, end) is None {
                lemma_client_ids_are_plain(code, end);
            } else {
                let mark = past_white(code, past_white(code, end) + 1);
                let id = code.subrange(mark + 1, mark + 33);
                assert forall|k: int| 0 <= k < 32 implies is_alnum(#[trigger] id[k]) by {
                    assert(id[k] == code[mark + 1 + k]);
                }
            }
        } else {
            lemma_client_ids_are_plain(code, from + 1);
        }
    }
}

/// A search for the client id in the scripts of the site.
pub struct IdSearch {
    assets: Vec<String>,
    next: usize,
    found: Option<String>,
}

#[verifier::ext_equal]
pub struct IdSearchView {
    /// The scripts, in the order in which the page names them.
    pub assets: Seq<Seq<char>>,
    /// How many of them were looked into.
    pub next: nat,
    pub found: Option<Seq<char>>,
}

impl View for IdSearch {
    type V = IdSearchView;

    closed spec fn view(&self) -> IdSearchView {
        IdSearchView {
            assets: texts(self.assets@),
            next: self.next as nat,
            found: opt_text(self.found),
        }
    }
}

/// The client id of a script. One that could not be read has none.
pub open spec fn id_of(code: Option<Seq<char>>) -> Option<Seq<char>> {
    match code {
        Some(code) => client_id_from(code, 0),
        None => None,
    }
}

/// The client id of the first script that has one.
pub open spec fn first_id(codes: Seq<Option<Seq<char>>>) -> Option<Seq<char>>
    decreases codes.len(),
{
    if codes.len() == 0 {
        None
    } else {
        match first_id(codes.drop_last()) {
            Some(id) => Some(id),
            None => id_of(codes.last()),
        }
    }
}

impl IdSearchView {
    pub open spec fn fresh(page: Seq<char>) -> IdSearchView {
        IdSearchView { assets: assets_from(page, 0), next: 0, found: None }
    }

    /// The script to be read next, while there is no client id yet.
    pub open spec fn wanted(self) -> Option<Seq<char>> {
        if self.found is None && self.next < self.assets.len() {
            Some(self.assets[self.next as int])
        } else {
            None
        }
    }

    /// The search after a script.
    pub open spec fn after(self, code: Option<Seq<char>>) -> IdSearchView {
        IdSearchView {
            next: self.next + 1,
            found: if self.found is Some {
                self.found
            } else {
                id_of(code)
            },
            ..self
        }
    }

    /// The search after some scripts.
    pub open spec fn after_all(self, codes: Seq<Option<Seq<char>>>) -> IdSearchView
        decreases codes.len(),
    {
        if codes.len() == 0 {
            self
        } else {
            self.after_all(codes.drop_last()).after(codes.last())
        }
    }
}

impl IdSearch {
    /// A search that begins with the site's page.
    pub fn new(page: &str) -> (r: Self)
        ensures
            r@ == IdSearchView::fresh(page@),
    {
        IdSearch { assets: asset_urls(page), next: 0, found: None }
    }

    /// The script to be read next.
    pub fn wanted(&self) -> (r: Option<&str>)
        ensures
            opt_str(r) == self@.wanted(),
    {
        if self.found.is_none() && self.next < self.assets.len() {
            assert(texts(self.assets@)[self.next as int] == self.assets@[self.next as int]@);
            Some(self.assets[self.next].as_str())
        } else {
            None
        }
    }

    /// Looks into the script that was asked for; `None` where it could not
    /// be read.
    pub fn take(&mut self, code: Option<&str>)
        requires
            old(self)@.wanted() is Some,
        ensures
            final(self)@ == old(self)@.after(opt_str(code)),
    {
        let total: usize = self.assets.len();
        assert(self@.assets.len() == total);
        self.next = self.next + 1;
        self.found = match code {
            Some(code) => client_id_in(code),
            None => None,
        };
    }

    /// The client id, if there was any.
    pub fn finish(self) -> (r: Option<String>)
        ensures
            opt_text(r) == self@.found,
    {
        self.found
    }
}

/// The search ends with the first script that has a client id, and takes
/// that one; a script that cannot be read or has none does not stop it.
pub proof fn lemma_first_client_id_counts(page: Seq<char>, codes: Seq<Option<Seq<char>>>)
    ensures
        IdSearchView::fresh(page).after_all(codes).found == first_id(codes),
        codes.len() <= assets_from(page, 0).len() ==> IdSearchView::fresh(page).after_all(
            codes,
        ).wanted() == if first_id(codes) is None && codes.len() < assets_from(page, 0).len() {
            Some(assets_from(page, 0)[codes.len() as int])
        } else {
            None
        },
{
    lemma_search_adds_up(IdSearchView::fresh(page), codes);
}

proof fn lemma_search_adds_up(s: IdSearchView, codes: Seq<Option<Seq<char>>>)
    requires
        s.found is None,
    ensures
        s.after_all(codes).assets == s.assets,
        s.after_all(codes).next == s.next + codes.len(),
        s.after_all(codes).found == first_id(codes),
    decreases codes.len(),
{
    if codes.len() > 0 {
        lemma_search_adds_up(s, codes.drop_last());
    }
}

/// What is known of the service: the client id and the account's number.
pub struct Api {
    client_id: String,
    uid: Option<String>,
}

#[verifier::ext_equal]
pub struct ApiView {
    pub client_id: Seq<char>,
    pub uid: Option<Seq<char>>,
}

impl View for Api {
    type V = ApiView;

    closed spec fn view(&self) -> ApiView {
        ApiView { client_id: self.client_id@, uid: opt_text(self.uid) }
    }
}

impl ApiView {
    /// The same once the client id was forgotten.
    pub open spec fn without_client_id(self) -> ApiView {
        ApiView { client_id: Seq::empty(), ..self }
    }
}

/// The address of a request. An absolute one is used as it is: what the
/// service hands out has the client id in it.
pub open spec fn url_of(client_id: Seq<char>, path_or_url: Seq<char>) -> Seq<char> {
    if starts_with_text(path_or_url, "https://"@) {
        path_or_url
    } else {
        let url = API_BASE@ + path_or_url;
        url + (if contains_text(url, "?"@) {
            "&"@
        } else {
            "?"@
        }) + "client_id="@ + client_id
    }
}

/// What follows from an answer of the service.
#[derive(Debug, PartialEq, Eq)]
pub enum AnswerStep {
    /// The body is the value.
    Body,
    /// There is no body.
    Empty,
    /// The session was refused: it has expired.
    SessionRefused(ProviderError),
    /// The client id may have died and is forgotten: find another and ask
    /// once more.
    Retry,
    Failed(ProviderError),
}

#[verifier::ext_equal]
pub enum AnswerStepView {
    Body,
    Empty,
    SessionRefused(ProviderErrorView),
    Retry,
    Failed(ProviderErrorView),
}

impl View for AnswerStep {
    type V = AnswerStepView;

    open spec fn view(&self) -> AnswerStepView {
        match *self {
            AnswerStep::Body => AnswerStepView::Body,
            AnswerStep::Empty => AnswerStepView::Empty,
            AnswerStep::SessionRefused(e) => AnswerStepView::SessionRefused(e@),
            AnswerStep::Retry => AnswerStepView::Retry,
            AnswerStep::Failed(e) => AnswerStepView::Failed(e@),
        }
    }
}

pub open spec fn auth_error(reason: Seq<char>) -> ProviderErrorView {
    ProviderErrorView::Auth { provider: "soundcloud"@, reason }
}

pub open spec fn format_error(reason: Seq<char>) -> ProviderErrorView {
    ProviderErrorView::Format { provider: "soundcloud"@, reason }
}

/// A refusal in words: its status and the beginning of what came with it.
pub open spec fn refusal(status_text: Seq<char>, body: Seq<char>) -> Seq<char> {
    "HTTP "@ + status_text + "; тело: "@ + snippet_of(body)
}

/// What follows from an answer: `status_text` is its status in words,
/// `body` what came with a refusal. A second refusal with another client
/// id is a matter of the session: the service does not tell a dead client
/// id from a dead session.
pub open spec fn answer_step(
    status: u16,
    status_text: Seq<char>,
    body: Seq<char>,
    auth_required: bool,
    first: bool,
) -> AnswerStepView {
    if status == 200 || status == 201 {
        AnswerStepView::Body
    } else if status == 204 {
        AnswerStepView::Empty
    } else if (status == 401 || status == 403) && auth_required {
        AnswerStepView::SessionRefused(auth_error("сессия отвергнута"@))
    } else if (status == 401 || status == 403) && first {
        AnswerStepView::Retry
    } else if status == 401 || status == 403 {
        AnswerStepView::Failed(auth_error(refusal(status_text, body)))
    } else {
        AnswerStepView::Failed(format_error(refusal(status_text, body)))
    }
}

fn sc_auth_error(reason: &str) -> (r: ProviderError)
    ensures
        r@ == auth_error(reason@),
{
    ProviderError::Auth { provider: ProviderId::soundcloud(), reason: reason.to_owned() }
}

fn sc_format_error(reason: String) -> (r: ProviderError)
    ensures
        r@ == format_error(reason@),
{
    ProviderError::Format { provider: ProviderId::soundcloud(), reason }
}

/// The endpoint of a search.
pub open spec fn search_path_of(kind: SearchKind) -> Seq<char> {
    match kind {
        SearchKind::Tracks => "search/tracks"@,
        SearchKind::Albums => "search/albums"@,
        SearchKind::Playlists => "search/playlists"@,
        SearchKind::Artists => "search/users"@,
    }
}

/// The endpoint of a search.
pub fn search_path(kind: SearchKind) -> (r: &'static str)
    ensures
        r@ == search_path_of(kind),
{
    match kind {
        SearchKind::Tracks => "search/tracks",
        SearchKind::Albums => "search/albums",
        SearchKind::Playlists => "search/playlists",
        SearchKind::Artists => "search/users",
    }
}

/// The path of something that belongs to an account.
pub fn user_path(uid: &str, what: &str) -> (r: String)
    ensures
        r@ == "users/"@ + uid@ + "/"@ + what@,
{
    concat2(concat3("users/", uid, "/").as_str(), what)
}

/// The path of a like.
pub fn like_path(uid: &str, id: &str) -> (r: String)
    ensures
        r@ == "users/"@ + uid@ + "/"@ + ("track_likes/"@ + id@),
{
    user_path(uid, concat2("track_likes/", id).as_str())
}

/// The path of a playlist, to be read (`paged`) or to be deleted.
pub fn playlist_path(id: &str, paged: bool) -> (r: String)
    ensures
        r@ == if paged {
            "playlists/"@ + id@ + "?linked_partitioning=1"@
        } else {
            "playlists/"@ + id@
        },
{
    if paged {
        concat3("playlists/", id, "?linked_partitioning=1")
    } else {
        concat2("playlists/", id)
    }
}

/// How a check of the session ends, by view.
pub open spec fn status_result(r: Result<AuthStatus, ProviderError>) -> Result<
    AuthStatusView,
    ProviderErrorView,
> {
    match r {
        Ok(s) => Ok(s@),
        Err(e) => Err(e@),
    }
}

/// What the service's answer about a session means: it works, it was
/// refused and so has expired, or nobody knows.
pub open spec fn session_step(auth: ScAuthView, status: u16) -> (
    ScAuthView,
    Result<AuthStatusView, ProviderErrorView>,
) {
    if status == 200 {
        (auth.readied(), Ok(AuthStatusView::Ready))
    } else if status == 401 {
        (auth.refused(), Ok(auth.refused().status))
    } else {
        (
            auth,
            Err(
                auth_error("проверка сессии вернула HTTP "@ + decimal_text(status as nat)),
            ),
        )
    }
}

/// Takes the service's answer about a session.
pub fn verify_session(auth: &mut ScAuth, status: u16) -> (r: Result<AuthStatus, ProviderError>)
    requires
        old(auth).wf(),
    ensures
        final(auth).wf(),
        (final(auth)@, status_result(r)) == session_step(old(auth)@, status),
{
    if status == 200 {
        auth.mark_ready();
        Ok(AuthStatus::Ready)
    } else if status == 401 {
        auth.mark_expired();
        Ok(auth.cached())
    } else {
        Err(
            sc_auth_error(
                concat2(
                    "проверка сессии вернула HTTP ",
                    decimal(status as u64).as_str(),
                ).as_str(),
            ),
        )
    }
}

/// What a refresh ends with, after the cookies were read again and the
/// service was asked: a session that is in doubt is reported as it is
/// known, not as an error.
pub fn refresh_outcome(auth: &mut ScAuth, verified: Result<AuthStatus, ProviderError>) -> (r:
    Result<AuthStatus, ProviderError>)
    requires
        old(auth).wf(),
    ensures
        final(auth).wf(),
        final(auth)@ == (if verified matches Ok(s) && s@ is Ready {
            old(auth)@.readied()
        } else {
            old(auth)@
        }),
        status_result(r) == (match status_result(verified) {
            Ok(s) => Ok(s),
            Err(e) => if e is Auth {
                Ok(old(auth)@.status)
            } else {
                Err(e)
            },
        }),
{
    match verified {
        Ok(status) => {
            if matches!(status, AuthStatus::Ready) {
                auth.mark_ready();
            }
            Ok(status)
        },
        Err(e) => if e.is_auth() {
            Ok(auth.cached())
        } else {
            Err(e)
        },
    }
}

impl Api {
    /// The client id of the settings counts before the known one.
    pub fn new(client_id: Option<String>) -> (r: Self)
        ensures
            r@ == (ApiView {
                client_id: match client_id {
                    Some(id) => id@,
                    None => FALLBACK_CLIENT_ID@,
                },
                uid: None,
            }),
    {
        let client_id: String = match client_id {
            Some(id) => id,
            None => FALLBACK_CLIENT_ID.to_owned(),
        };
        Api { client_id, uid: None }
    }

    pub fn client_id(&self) -> (r: &str)
        ensures
            r@ == self@.client_id,
    {
        self.client_id.as_str()
    }

    /// Forgets the client id: it may have died.
    pub fn poison_client_id(&mut self)
        ensures
            final(self)@ == old(self)@.without_client_id(),
    {
        self.client_id = String::new();
        assert(self.client_id@ =~= Seq::empty());
    }

    /// Takes a client id that was found; without one the known one.
    pub fn set_client_id(&mut self, found: Option<String>)
        ensures
            final(self)@ == (ApiView {
                client_id: match found {
                    Some(id) => id@,
                    None => FALLBACK_CLIENT_ID@,
                },
                ..old(self)@
            }),
    {
        self.client_id = match found {
            Some(id) => id,
            None => FALLBACK_CLIENT_ID.to_owned(),
        };
    }

    /// The account's number, where it is known already.
    pub fn uid(&self) -> (r: Option<String>)
        ensures
            opt_text(r) == self@.uid,
    {
        clone_opt(&self.uid)
    }

    /// Takes the account's number out of the service's answer.
    pub fn take_uid(&mut self, me: &Json) -> (r: Result<String, ProviderError>)
        ensures
            match me@.unsigned_field("id"@) {
                Some(id) => {
                    &&& r matches Ok(uid) && uid@ == decimal_text(id as nat)
                    &&& final(self)@ == (ApiView {
                        uid: Some(decimal_text(id as nat)),
                        ..old(self)@
                    })
                },
                None => {
                    &&& r matches Err(e) && e@ == format_error("в ответе /me нет id"@)
                    &&& final(self)@ == old(self)@
                },
            },
    {
        match me.unsigned_field("id") {
            Some(id) => {
                let uid = decimal(id);
                self.uid = Some(uid.clone());
                Ok(uid)
            },
            None => Err(sc_format_error("в ответе /me нет id".to_owned())),
        }
    }

    /// The address of a request.
    pub fn build_url(&self, path_or_url: &str) -> (r: String)
        ensures
            r@ == url_of(self@.client_id, path_or_url@),
    {
        if starts_with(path_or_url, "https://") {
            return path_or_url.to_owned();
        }
        let url = concat2(API_BASE, path_or_url);
        let mark: &str = if contains(url.as_str(), "?") {
            "&"
        } else {
            "?"
        };
        let head = concat3(url.as_str(), mark, "client_id=");
        concat2(head.as_str(), self.client_id.as_str())
    }

    /// The address at which the session is checked.
    pub fn session_url(&self) -> (r: String)
        ensures
            r@ == SESSION_URL@ + "?client_id="@ + self@.client_id,
    {
        concat3(SESSION_URL, "?client_id=", self.client_id.as_str())
    }
}

/// Whether a request may go out: some need a session. Without one the
/// service would answer as if the address did not exist.
pub fn may_ask(auth: &ScAuth, auth_required: bool) -> (r: Result<Option<String>, ProviderError>)
    ensures
        match r {
            Ok(header) => (auth_required ==> auth@.token is Some) && opt_text(header) == (
            match auth@.token {
                Some(t) => Some("OAuth "@ + t),
                None => None,
            }),
            Err(e) => auth_required && auth@.token is None && e@ == auth_error(
                "нужна авторизация"@,
            ),
        },
{
    match auth.token() {
        Some(t) => Ok(Some(concat2("OAuth ", t.as_str()))),
        None => if auth_required {
            Err(sc_auth_error("нужна авторизация"))
        } else {
            Ok(None)
        },
    }
}

/// Takes an answer of the service. A session that was refused has expired,
/// and a client id that was refused is forgotten: until another one is
/// found there is none.
pub fn request_step(
    api: &mut Api,
    auth: &mut ScAuth,
    status: u16,
    status_text: &str,
    body: &str,
    auth_required: bool,
    first: bool,
) -> (r: AnswerStep)
    requires
        old(auth).wf(),
    ensures
        final(auth).wf(),
        r@ == answer_step(status, status_text@, body@, auth_required, first),
        final(auth)@ == (if r@ is SessionRefused {
            old(auth)@.refused()
        } else {
            old(auth)@
        }),
        final(api)@ == (if r@ is Retry {
            old(api)@.without_client_id()
        } else {
            old(api)@
        }),
{
    if status == 200 || status == 201 {
        return AnswerStep::Body;
    }
    if status == 204 {
        return AnswerStep::Empty;
    }
    if (status == 401 || status == 403) && auth_required {
        auth.mark_expired();
        return AnswerStep::SessionRefused(sc_auth_error("сессия отвергнута"));
    }
    if (status == 401 || status == 403) && first {
        api.poison_client_id();
        return AnswerStep::Retry;
    }
    let head = concat3("HTTP ", status_text, "; тело: ");
    let reason = concat2(head.as_str(), snippet(body).as_str());
    if status == 401 || status == 403 {
        return AnswerStep::Failed(sc_auth_error(reason.as_str()));
    }
    AnswerStep::Failed(sc_format_error(reason))
}

/// A request is repeated at most once, and never with a session at stake. A
/// refusal that is final is a matter of the session, whether it was at
/// stake or not.
pub proof fn lemma_requests_are_repeated_once(
    status: u16,
    status_text: Seq<char>,
    body: Seq<char>,
    auth_required: bool,
)
    ensures
        !(answer_step(status, status_text, body, auth_required, false) is Retry),
        !(answer_step(status, status_text, body, true, true) is Retry),
        status == 401 || status == 403 ==> match answer_step(
            status,
            status_text,
            body,
            auth_required,
            false,
        ) {
            AnswerStepView::SessionRefused(e) => e is Auth,
            AnswerStepView::Failed(e) => e is Auth,
            _ => false,
        },
{
}

/// The error for a body that is no JSON.
pub open spec fn bad_body(status_text: Seq<char>) -> ProviderErrorView {
    format_error(
        "тело "@ + status_text
            + " не разбирается как JSON: error decoding response body"@,
    )
}

/// The value of a body: JSON in UTF-8, or nothing.
pub open spec fn body_value(body: Seq<u8>) -> Option<JsonView> {
    if valid_utf8(body) {
        match json_parse(decode_utf8(body)) {
            Ok(v) => Some(v),
            Err(_) => None,
        }
    } else {
        None
    }
}

/// Reads a body.
pub fn read_body(status_text: &str, body: &[u8]) -> (r: Result<Json, ProviderError>)
    ensures
        match body_value(body@) {
            Some(v) => r matches Ok(value) && value@ == v,
            None => r matches Err(e) && e@ == bad_body(status_text@),
        },
{
    if let Some(text) = utf8_text(body) {
        if let Ok(value) = parse(text.as_str()) {
            return Ok(value);
        }
    }
    Err(
        sc_format_error(
            concat3(
                "тело ",
                status_text,
                " не разбирается как JSON: error decoding response body",
            ),
        ),
    )
}

/// A short answer goes into an error whole, without white space around it,
/// and of a long one the first 240 characters do.
pub proof fn lemma_snippets_are_cut(body: Seq<char>)
    ensures
        trimmed(body).len() <= 240 ==> snippet_of(body) == trimmed(body),
        trimmed(body).len() > 240 ==> snippet_of(body) == trimmed(body).take(240) + "…"@,
{
    if trimmed(body).len() > 240 {
        assert(trimmed(body).subrange(0, 240) =~= trimmed(body).take(240));
    }
}

/// A request goes to the service with the client id behind it; what the
/// service named itself is asked for as it is.
pub proof fn lemma_requests_carry_the_client_id(id: Seq<char>, path: Seq<char>)
    ensures
        starts_with_text(path, "https://"@) ==> url_of(id, path) == path,
        !starts_with_text(path, "https://"@) ==> {
            let url = "https://api-v2.soundcloud.com/"@ + path;
            url_of(id, path) == url + (if contains_text(url, "?"@) {
                "&client_id="@
            } else {
                "?client_id="@
            }) + id
        },
{
    if !starts_with_text(path, "https://"@) {
        let url = "https://api-v2.soundcloud.com/"@ + path;
        reveal_strlit("&");
        reveal_strlit("?");
        reveal_strlit("client_id=");
        reveal_strlit("&client_id=");
        reveal_strlit("?client_id=");
        assert("&"@ + "client_id="@ =~= "&client_id="@);
        assert("?"@ + "client_id="@ =~= "?client_id="@);
        if contains_text(url, "?"@) {
            assert(url + "&"@ + "client_id="@ + id =~= url + "&client_id="@ + id);
        } else {
            assert(url + "?"@ + "client_id="@ + id =~= url + "?client_id="@ + id);
        }
    }
}

/// An answer counts by its status: a good one has a body or says that there
/// is none; a refusal is the session's where one was needed, else it is
/// tried once more with another client id; anything else is an answer that
/// cannot be read.
pub proof fn lemma_answers_go_by_their_status(
    status: u16,
    text: Seq<char>,
    body: Seq<char>,
    needs: bool,
    first: bool,
)
    ensures
        ({
            let step = answer_step(status, text, body, needs, first);
            let refused = status == 401 || status == 403;
            &&& step is Body <==> status == 200 || status == 201
            &&& step is Empty <==> status == 204
            &&& step is SessionRefused <==> refused && needs
            &&& step is Retry <==> refused && !needs && first
            &&& step matches AnswerStepView::Failed(e) ==> if refused {
                e is Auth
            } else {
                e is Format
            }
            &&& step matches AnswerStepView::SessionRefused(e) ==> e is Auth
        }),
{
}

/// Each kind is searched for at a place of its own.
pub proof fn lemma_searches_go_by_kind()
    ensures
        search_path_of(SearchKind::Tracks) == "search/tracks"@,
        search_path_of(SearchKind::Albums) == "search/albums"@,
        search_path_of(SearchKind::Playlists) == "search/playlists"@,
        search_path_of(SearchKind::Artists) == "search/users"@,
{
}

/// A session that the service confirms is ready, and one that it refuses has
/// expired; any other answer leaves it as it was known.
pub proof fn lemma_sessions_are_checked_by_the_service(auth: ScAuthView, status: u16)
    ensures
        status == 200 ==> session_step(auth, status).0.status is Ready && (session_step(
            auth,
            status,
        ).1 matches Ok(s) && s is Ready),
        status == 401 && auth.token is Some ==> session_step(auth, status).0.status is Expired && (
        session_step(auth, status).1 matches Ok(s) && s is Expired),
        status != 200 && status != 401 ==> session_step(auth, status).0 == auth && (session_step(
            auth,
            status,
        ).1 matches Err(e) && e is Auth),
{
}

/// A client id is found where a script gives it a value: behind the first
/// mention, a colon and quotation marks.
pub proof fn lemma_client_ids_are_found(before: Seq<char>, id: Seq<char>, after: Seq<char>)
    requires
        id.len() == 32,
        forall|k: int|
            0 <= k < 32 ==> 'a' <= #[trigger] id[k] <= 'z' || 'A' <= id[k] <= 'Z' || '0' <= id[k]
                <= '9',
        forall|k: int|
            0 <= k < before.len() ==> !occurs_at(
                before + "client_id"@ + (seq![':', '"'] + id + seq!['"'] + after),
                "client_id"@,
                k,
            ),
    ensures
        client_id_from(
            before + "client_id"@ + (seq![':', '"'] + id + seq!['"'] + after),
            0,
        ) == Some(id),
{
    reveal_strlit("client_id");
    let needle = "client_id"@;
    let tail = seq![':', '"'] + id + seq!['"'] + after;
    let code = before + needle + tail;
    let at = before.len() as int;
    let end = at + needle.len();
    assert(needle.len() == 9);
    lemma_no_mention(code, 0, at);
    assert(code.subrange(at, end) =~= needle);
    assert(occurs_at(code, needle, at));
    assert(code[end] == tail[0]);
    assert(code[end + 1] == tail[1]);
    assert(past_white(code, end) == end);
    assert(past_white(code, end + 1) == end + 1);
    let mark = end + 1;
    assert(code[mark + 33] == tail[34]);
    assert(tail[34] == '"');
    assert forall|k: int| mark < k < mark + 33 implies is_alnum(#[trigger] code[k]) by {
        assert(code[k] == tail[k - end]);
        assert(tail[k - end] == id[k - mark - 1]);
    }
    assert(code.subrange(mark + 1, mark + 33) =~= id) by {
        assert forall|j: int| 0 <= j < 32 implies code[mark + 1 + j] == id[j] by {
            assert(code[mark + 1 + j] == tail[2 + j]);
        }
    }
    assert(quoted_id(code, mark) == Some(id));
    assert(id_behind(code, end) == Some(id));
}

/// Of several scripts the first with a client id gives it.
pub proof fn lemma_the_first_script_with_an_id_gives_it(
    codes: Seq<Option<Seq<char>>>,
    code: Seq<char>,
    more: Seq<Option<Seq<char>>>,
)
    requires
        forall|k: int|
            0 <= k < codes.len() ==> ((#[trigger] codes[k]) matches Some(c) ==> client_id_from(c, 0)
                is None),
        client_id_from(code, 0) is Some,
    ensures
        first_id(codes) is None,
        first_id(codes.push(Some(code)) + more) == client_id_from(code, 0),
    decreases codes.len() + more.len(),
{
    if codes.len() > 0 {
        let rest = codes.drop_last();
        assert forall|k: int| 0 <= k < rest.len() implies ((#[trigger] rest[k]) matches Some(c)
            ==> client_id_from(c, 0) is None) by {
            assert(rest[k] == codes[k]);
        }
        lemma_the_first_script_with_an_id_gives_it(rest, code, Seq::empty());
        assert(codes[codes.len() - 1] == codes.last());
    }
    let all = codes.push(Some(code)) + more;
    if more.len() == 0 {
        assert(all =~= codes.push(Some(code)));
        assert(all.drop_last() =~= codes);
    } else {
        lemma_the_first_script_with_an_id_gives_it(codes, code, more.drop_last());
        assert(all.drop_last() =~= codes.push(Some(code)) + more.drop_last());
    }
}

/// Every script that a page names is found: an address at the service's
/// store that ends in `.js` before the next quotation mark.
pub proof fn lemma_scripts_are_found(page: Seq<char>, from: int, at: int)
    requires
        0 <= from <= at,
        occurs_at(page, "https://a-v2.sndcdn.com/assets/"@, at),
        asset_at(page, at) is Some,
    ensures
        assets_from(page, from).contains(asset_at(page, at)->0),
        ({
            let rest = page.subrange(at, page.len() as int);
            let url = asset_at(page, at)->0;
            &&& url.is_prefix_of(rest)
            &&& !url.contains('"')
            &&& rest[url.len() as int] == '"'
            &&& starts_with_text(url, "https://a-v2.sndcdn.com/assets/"@)
            &&& ends_with_text(url, ".js"@)
        }),
    decreases page.len() - from,
{
    reveal_strlit("https://a-v2.sndcdn.com/assets/");
    let needle = "https://a-v2.sndcdn.com/assets/"@;
    let rest = page.subrange(at, page.len() as int);
    lemma_first_place(rest, '"');
    let end = first_place(rest, '"');
    let url = rest.subrange(0, end);
    assert(rest.take(end) =~= url);
    assert(url.subrange(0, needle.len() as int) =~= page.subrange(at, at + needle.len()));
    let all = assets_from(page, from);
    if from == at {
        assert(all[0] == url);
    } else if occurs_at(page, needle, from) {
        let next = from + needle.len();
        if at < next {
            assert(page.subrange(from, next)[at - from] == page[at]);
            assert(page.subrange(at, at + needle.len())[0] == page[at]);
            assert(needle[0] == 'h');
            lemma_one_h(at - from);
        }
        lemma_scripts_are_found(page, next, at);
        let tail = assets_from(page, next);
        let j = tail.index_of(url);
        match asset_at(page, from) {
            Some(first) => {
                assert(all == seq![first] + tail);
                assert(all[j + 1] == url);
            },
            None => {
                assert(all[j] == url);
            },
        }
    } else {
        lemma_scripts_are_found(page, from + 1, at);
    }
}

/// The address of the store has its first letter nowhere else.
proof fn lemma_one_h(i: int)
    requires
        0 < i < "https://a-v2.sndcdn.com/assets/"@.len(),
    ensures
        "https://a-v2.sndcdn.com/assets/"@[i] != 'h',
{
    reveal_strlit("https://a-v2.sndcdn.com/assets/");
}

/// A client id that is forgotten is gone, and the account stays known.
pub proof fn lemma_a_forgotten_client_id_is_gone(api: ApiView)
    ensures
        api.without_client_id().client_id.len() == 0,
        api.without_client_id().uid == api.uid,
{
}

/// A body is read as text and the text as a value; what is no text or no
/// value is nothing.
pub proof fn lemma_bodies_are_read_as_text(body: Seq<u8>, value: JsonView)
    ensures
        valid_utf8(body) && json_parse(decode_utf8(body)) == Ok::<JsonView, Seq<char>>(value)
            ==> body_value(body) == Some(value),
        valid_utf8(body) && json_parse(decode_utf8(body)) is Err ==> body_value(body) is None,
        !valid_utf8(body) ==> body_value(body) is None,
{
}

/// A refusal is told with its status and the beginning of what came with
/// it, and a body that cannot be read with its status.
pub proof fn lemma_refusals_are_told(status: Seq<char>, body: Seq<char>)
    ensures
        refusal(status, body) == "HTTP "@ + status + "; тело: "@ + snippet_of(body),
        bad_body(status) == (ProviderErrorView::Format {
            provider: "soundcloud"@,
            reason: "тело "@ + status
                + " не разбирается как JSON: error decoding response body"@,
        }),
        auth_error(body) == (ProviderErrorView::Auth { provider: "soundcloud"@, reason: body }),
        format_error(body) == (ProviderErrorView::Format { provider: "soundcloud"@, reason: body }),
{
}

/// White space is passed over, all of it and nothing else.
pub proof fn lemma_white_space_is_passed_over(code: Seq<char>, from: int)
    requires
        0 <= from <= code.len(),
    ensures
        from <= past_white(code, from) <= code.len(),
        forall|k: int| from <= k < past_white(code, from) ==> is_white(#[trigger] code[k]),
        past_white(code, from) < code.len() ==> !is_white(code[past_white(code, from)]),
    decreases code.len() - from,
{
    if from < code.len() && is_white(code[from]) {
        lemma_white_space_is_passed_over(code, from + 1);
    }
}

/// A mention that no colon follows gives no client id, and neither does one
/// whose value is anything but 32 letters or digits between quotation marks.
pub proof fn lemma_other_mentions_are_passed_over(code: Seq<char>, at: int)
    requires
        0 <= at <= code.len(),
    ensures
        ({
            let colon = past_white(code, at);
            let mark = past_white(code, colon + 1);
            &&& colon >= code.len() || code[colon] != ':' ==> id_behind(code, at) is None
            &&& colon < code.len() && (mark >= code.len() || code[mark] != '"') ==> id_behind(
                code,
                at,
            ) is None
            &&& mark + 34 > code.len() ==> id_behind(code, at) is None
        }),
{
    lemma_white_space_is_passed_over(code, at);
}

} // verus!
