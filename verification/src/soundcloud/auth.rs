//! The session at the service: one cookie makes it.
//!
//! A session that is missing and one that was refused are told apart: they
//! are mended differently.

use vstd::prelude::*;

use crate::cookies::{header_of, CookieJar};
use crate::model::{AuthStatus, AuthStatusView};
use crate::text::{clone_opt, opt_text};
use crate::textmap::lookup;

verus! {

/// The domain whose cookies count.
pub const DOMAIN_SUFFIX: &'static str = "soundcloud.com";

/// The cookie that makes the session.
pub const TOKEN_COOKIE: &'static str = "oauth_token";

pub const MISSING_HINT: &'static str =
    "сессия SoundCloud не найдена; залогиньтесь на soundcloud.com в браузере или укажите профиль в config.toml";

pub const EXPIRED_HINT: &'static str =
    "сессия SoundCloud отвергнута сервисом; залогиньтесь заново на soundcloud.com";

/// The token among cookies. An empty one is no session.
pub open spec fn token_in(jar: Seq<(Seq<char>, Seq<char>)>) -> Option<Seq<char>> {
    match lookup(jar, "oauth_token"@) {
        Some(t) => if t.len() == 0 {
            None
        } else {
            Some(t)
        },
        None => None,
    }
}

pub fn token_of(jar: &CookieJar) -> (r: Option<String>)
    requires
        jar.wf(),
    ensures
        opt_text(r) == token_in(jar@),
{
    match jar.get("oauth_token") {
        Some(t) => {
            proof {
                reveal_strlit("");
                assert(t@.len() == 0 ==> t@ =~= ""@);
            }
            if t.eq("") {
                None
            } else {
                Some(t.to_owned())
            }
        },
        None => None,
    }
}

/// The status that follows from a token alone.
pub open spec fn status_for(token: Option<Seq<char>>) -> AuthStatusView {
    match token {
        Some(_) => AuthStatusView::Ready,
        None => AuthStatusView::Missing { hint: MISSING_HINT@ },
    }
}

pub fn status_of(token: &Option<String>) -> (r: AuthStatus)
    ensures
        r@ == status_for(opt_text(*token)),
{
    match token {
        Some(_) => AuthStatus::Ready,
        None => AuthStatus::Missing { hint: MISSING_HINT.to_owned() },
    }
}

/// The cookies and the session that they make.
pub struct ScAuth {
    jar: CookieJar,
    token: Option<String>,
    status: AuthStatus,
}

#[verifier::ext_equal]
pub struct ScAuthView {
    pub jar: Seq<(Seq<char>, Seq<char>)>,
    pub token: Option<Seq<char>>,
    pub status: AuthStatusView,
}

impl View for ScAuth {
    type V = ScAuthView;

    closed spec fn view(&self) -> ScAuthView {
        ScAuthView { jar: self.jar@, token: opt_text(self.token), status: self.status@ }
    }
}

impl ScAuthView {
    /// The session of cookies that were just read.
    pub open spec fn fresh(jar: Seq<(Seq<char>, Seq<char>)>) -> ScAuthView {
        ScAuthView { jar, token: token_in(jar), status: status_for(token_in(jar)) }
    }

    pub open spec fn readied(self) -> ScAuthView {
        ScAuthView { status: AuthStatusView::Ready, ..self }
    }

    /// The session after the service refused it. Without a token nothing
    /// can expire.
    pub open spec fn refused(self) -> ScAuthView {
        if self.token is None {
            self
        } else {
            ScAuthView { status: AuthStatusView::Expired { hint: EXPIRED_HINT@ }, ..self }
        }
    }
}

impl ScAuth {
    pub closed spec fn wf(&self) -> bool {
        self.jar.wf()
    }

    /// The session of cookies that were read. `Ready` means that a token is
    /// there, not that the service has confirmed it.
    pub fn load(jar: CookieJar) -> (r: Self)
        requires
            jar.wf(),
        ensures
            r.wf(),
            r@ == ScAuthView::fresh(jar@),
    {
        let token = token_of(&jar);
        let status = status_of(&token);
        ScAuth { jar, token, status }
    }

    /// Takes cookies that were read again.
    pub fn reload(&mut self, jar: CookieJar) -> (r: AuthStatus)
        requires
            old(self).wf(),
            jar.wf(),
        ensures
            final(self).wf(),
            final(self)@ == ScAuthView::fresh(jar@),
            r@ == final(self)@.status,
    {
        let token = token_of(&jar);
        let status = status_of(&token);
        let shown = status.clone();
        self.jar = jar;
        self.token = token;
        self.status = status;
        shown
    }

    /// The status as it is known.
    pub fn cached(&self) -> (r: AuthStatus)
        ensures
            r@ == self@.status,
    {
        self.status.clone()
    }

    pub fn token(&self) -> (r: Option<String>)
        ensures
            opt_text(r) == self@.token,
    {
        clone_opt(&self.token)
    }

    /// The cookies as a header, where there are any.
    pub fn cookie_header(&self) -> (r: Option<String>)
        requires
            self.wf(),
        ensures
            opt_text(r) == (if header_of(self@.jar).len() == 0 {
                None
            } else {
                Some(header_of(self@.jar))
            }),
    {
        let header = self.jar.header();
        proof {
            reveal_strlit("");
            assert(header@.len() == 0 ==> header@ =~= ""@);
        }
        if header.as_str().eq("") {
            None
        } else {
            Some(header)
        }
    }

    /// The service has confirmed the session.
    pub fn mark_ready(&mut self)
        requires
            old(self).wf(),
        ensures
            final(self).wf(),
            final(self)@ == old(self)@.readied(),
    {
        self.status = AuthStatus::Ready;
    }

    /// The service has refused the session.
    pub fn mark_expired(&mut self)
        requires
            old(self).wf(),
        ensures
            final(self).wf(),
            final(self)@ == old(self)@.refused(),
    {
        if self.token.is_none() {
            return;
        }
        self.status = AuthStatus::Expired { hint: EXPIRED_HINT.to_owned() };
    }
}

/// A refusal never turns a session that was missing into one that expired.
pub proof fn lemma_missing_stays_missing(a: ScAuthView)
    requires
        a.token is None,
    ensures
        a.refused() == a,
{
}

/// The cookie `oauth_token` makes the session, unless it is empty; without
/// it the session is missing. One that the service refused has expired, and
/// one that it confirmed is ready. The cookies stay through all of it.
pub proof fn lemma_one_cookie_makes_the_session(
    jar: Seq<(Seq<char>, Seq<char>)>,
    token: Seq<char>,
    a: ScAuthView,
)
    ensures
        lookup(jar, "oauth_token"@) == Some(token) && token.len() > 0 ==> {
            let fresh = ScAuthView::fresh(jar);
            &&& fresh.token == Some(token)
            &&& fresh.status is Ready
            &&& fresh.jar == jar
            &&& fresh.refused().status is Expired
            &&& fresh.refused().readied().status is Ready
        },
        lookup(jar, "oauth_token"@) is None || lookup(jar, "oauth_token"@) == Some(
            Seq::<char>::empty(),
        ) ==> ScAuthView::fresh(jar).token is None && ScAuthView::fresh(jar).status is Missing,
        a.token is Some ==> a.refused().status is Expired,
        a.readied().status is Ready,
        a.refused().token == a.token,
        a.readied().token == a.token,
        a.refused().jar == a.jar,
        a.readied().jar == a.jar,
{
}

} // verus!
