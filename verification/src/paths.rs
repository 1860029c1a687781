//! Where the application keeps its files.

use vstd::prelude::*;

use crate::error::{CoreError, CoreErrorView};
use crate::text::{
    concat2, concat3, ends_with, ends_with_text, starts_with, starts_with_text, texts,
};

verus! {

/// The application's name in directories and sockets.
pub const APP: &'static str = "tmus";

/// A relative path put behind a base. An absolute path replaces the base.
pub open spec fn path_joined(base: Seq<char>, rel: Seq<char>) -> Seq<char> {
    if starts_with_text(rel, "/"@) || base.len() == 0 {
        rel
    } else if ends_with_text(base, "/"@) {
        base + rel
    } else {
        base + "/"@ + rel
    }
}

/// Puts a relative path behind a base.
pub fn join_path(base: &str, rel: &str) -> (r: String)
    ensures
        r@ == path_joined(base@, rel@),
{
    if starts_with(rel, "/") || base.is_empty() {
        rel.to_owned()
    } else if ends_with(base, "/") {
        concat2(base, rel)
    } else {
        concat3(base, "/", rel)
    }
}

/// The name on the session bus.
pub const MPRIS_BUS_NAME: &'static str = "org.mpris.MediaPlayer2.tmus";

/// The user's base directories, as the platform tells them.
pub struct BaseDirs {
    pub config: String,
    pub cache: String,
    pub state: Option<String>,
    pub data_local: String,
    pub runtime: Option<String>,
}

/// The application's directories.
#[derive(Debug, PartialEq, Eq)]
pub struct Paths {
    config_dir: String,
    cache_dir: String,
    state_dir: String,
    runtime_dir: String,
}

#[verifier::ext_equal]
pub struct PathsView {
    pub config: Seq<char>,
    pub cache: Seq<char>,
    pub state: Seq<char>,
    pub runtime: Seq<char>,
}

impl View for Paths {
    type V = PathsView;

    closed spec fn view(&self) -> PathsView {
        PathsView {
            config: self.config_dir@,
            cache: self.cache_dir@,
            state: self.state_dir@,
            runtime: self.runtime_dir@,
        }
    }
}

impl Clone for Paths {
    fn clone(&self) -> (r: Self)
        ensures
            r@ == self@,
    {
        Paths {
            config_dir: self.config_dir.clone(),
            cache_dir: self.cache_dir.clone(),
            state_dir: self.state_dir.clone(),
            runtime_dir: self.runtime_dir.clone(),
        }
    }
}

/// The runtime directory: the platform's own, else one under `/tmp` that
/// carries the user's name.
pub open spec fn runtime_of(
    base: BaseDirs,
    user: Option<String>,
    logname: Option<String>,
) -> Seq<char> {
    match base.runtime {
        Some(dir) => dir@,
        None => "/tmp/tmus-"@ + match user {
            Some(name) => name@,
            None => match logname {
                Some(name) => name@,
                None => "nobody"@,
            },
        },
    }
}

impl Paths {
    /// The directories of this user, `None` standing for a user without a
    /// home. `user` and `logname` are the values of `USER` and `LOGNAME`.
    pub fn resolve(base: Option<BaseDirs>, user: Option<String>, logname: Option<String>) -> (r:
        Result<Self, CoreError>)
        ensures
            match (base, r) {
                (Some(b), Ok(p)) => p@ == (PathsView {
                    config: path_joined(b.config@, "tmus"@),
                    cache: path_joined(b.cache@, "tmus"@),
                    state: path_joined(
                        match b.state {
                            Some(s) => s@,
                            None => b.data_local@,
                        },
                        "tmus"@,
                    ),
                    runtime: runtime_of(b, user, logname),
                }),
                (None, Err(e)) => e@ == CoreErrorView::NoHome,
                _ => false,
            },
    {
        let base = match base {
            Some(b) => b,
            None => return Err(CoreError::NoHome),
        };
        let runtime_dir = match &base.runtime {
            Some(dir) => dir.clone(),
            None => {
                let who: String = match &user {
                    Some(name) => name.clone(),
                    None => match &logname {
                        Some(name) => name.clone(),
                        None => "nobody".to_owned(),
                    },
                };
                concat2("/tmp/tmus-", who.as_str())
            },
        };
        let state_root = match &base.state {
            Some(dir) => dir.clone(),
            None => base.data_local.clone(),
        };
        Ok(
            Paths {
                config_dir: join_path(base.config.as_str(), "tmus"),
                cache_dir: join_path(base.cache.as_str(), "tmus"),
                state_dir: join_path(state_root.as_str(), "tmus"),
                runtime_dir,
            },
        )
    }

    /// The directories under a given root, for isolated runs.
    pub fn under(root: &str) -> (r: Self)
        ensures
            r@ == (PathsView {
                config: path_joined(root@, "config"@),
                cache: path_joined(root@, "cache"@),
                state: path_joined(root@, "state"@),
                runtime: path_joined(root@, "run"@),
            }),
    {
        Paths {
            config_dir: join_path(root, "config"),
            cache_dir: join_path(root, "cache"),
            state_dir: join_path(root, "state"),
            runtime_dir: join_path(root, "run"),
        }
    }

    pub fn config_file(&self) -> (r: String)
        ensures
            r@ == path_joined(self@.config, "config.toml"@),
    {
        join_path(self.config_dir.as_str(), "config.toml")
    }

    /// The metadata base: tracks, playlists, the accounts of the cache.
    pub fn database(&self) -> (r: String)
        ensures
            r@ == path_joined(self@.cache, "cache.sqlite"@),
    {
        join_path(self.cache_dir.as_str(), "cache.sqlite")
    }

    /// The root of the offline audio cache, laid out as
    /// `<provider>/<id>.<ext>`.
    pub fn audio_dir(&self) -> (r: String)
        ensures
            r@ == path_joined(self@.cache, "audio"@),
    {
        join_path(self.cache_dir.as_str(), "audio")
    }

    /// The audio cache of one source.
    pub fn audio_dir_for(&self, provider: &str) -> (r: String)
        ensures
            r@ == path_joined(path_joined(self@.cache, "audio"@), provider@),
    {
        join_path(self.audio_dir().as_str(), provider)
    }

    pub fn state_file(&self) -> (r: String)
        ensures
            r@ == path_joined(self@.state, "state.json"@),
    {
        join_path(self.state_dir.as_str(), "state.json")
    }

    /// The daemon's exclusive lock.
    pub fn lock_file(&self) -> (r: String)
        ensures
            r@ == path_joined(self@.runtime, "tmus.lock"@),
    {
        join_path(self.runtime_dir.as_str(), "tmus.lock")
    }

    /// The daemon's control socket.
    pub fn control_socket(&self) -> (r: String)
        ensures
            r@ == path_joined(self@.runtime, "tmus.sock"@),
    {
        join_path(self.runtime_dir.as_str(), "tmus.sock")
    }

    /// The player's own socket, between the daemon and the player only.
    pub fn mpv_socket(&self) -> (r: String)
        ensures
            r@ == path_joined(self@.runtime, "tmus-mpv.sock"@),
    {
        join_path(self.runtime_dir.as_str(), "tmus-mpv.sock")
    }

    pub fn config_dir(&self) -> (r: &str)
        ensures
            r@ == self@.config,
    {
        self.config_dir.as_str()
    }

    pub fn cache_dir(&self) -> (r: &str)
        ensures
            r@ == self@.cache,
    {
        self.cache_dir.as_str()
    }

    pub fn state_dir(&self) -> (r: &str)
        ensures
            r@ == self@.state,
    {
        self.state_dir.as_str()
    }

    pub fn runtime_dir(&self) -> (r: &str)
        ensures
            r@ == self@.runtime,
    {
        self.runtime_dir.as_str()
    }

    /// The directories that the application writes to and so creates. The
    /// configuration's is not among them: only people write there.
    pub fn dirs_to_create(&self) -> (r: Vec<String>)
        ensures
            texts(r@) == seq![
                self@.cache,
                self@.state,
                self@.runtime,
                path_joined(self@.cache, "audio"@),
            ],
    {
        let mut out: Vec<String> = Vec::new();
        out.push(self.cache_dir.clone());
        out.push(self.state_dir.clone());
        out.push(self.runtime_dir.clone());
        out.push(self.audio_dir());
        assert(texts(out@) =~= seq![
            self@.cache,
            self@.state,
            self@.runtime,
            path_joined(self@.cache, "audio"@),
        ]);
        out
    }
}

/// Different relative names behind one base give different paths.
pub proof fn lemma_joined_names_differ(base: Seq<char>, a: Seq<char>, b: Seq<char>)
    requires
        !starts_with_text(a, "/"@),
        !starts_with_text(b, "/"@),
        a != b,
    ensures
        path_joined(base, a) != path_joined(base, b),
{
    let pa = path_joined(base, a);
    let pb = path_joined(base, b);
    if pa == pb {
        let n = pa.len() - a.len();
        assert(pa.subrange(n, pa.len() as int) =~= a);
        assert(pb.subrange(pb.len() - b.len(), pb.len() as int) =~= b);
    }
}

/// The control socket, the player's socket and the lock are three
/// different files, whatever the runtime directory is.
pub proof fn lemma_runtime_files_never_collide(paths: PathsView)
    ensures
        path_joined(paths.runtime, "tmus.sock"@) != path_joined(paths.runtime, "tmus-mpv.sock"@),
        path_joined(paths.runtime, "tmus.sock"@) != path_joined(paths.runtime, "tmus.lock"@),
        path_joined(paths.runtime, "tmus-mpv.sock"@) != path_joined(paths.runtime, "tmus.lock"@),
{
    reveal_strlit("/");
    reveal_strlit("tmus.sock");
    reveal_strlit("tmus-mpv.sock");
    reveal_strlit("tmus.lock");
    assert("tmus.sock"@[5] != "tmus.lock"@[5]);
    assert("tmus-mpv.sock"@.len() == 13);
    assert("tmus.sock"@.len() == 9);
    assert("tmus.lock"@.len() == 9);
    assert("tmus.sock"@.subrange(0, 1)[0] == 't');
    assert("tmus-mpv.sock"@.subrange(0, 1)[0] == 't');
    assert("tmus.lock"@.subrange(0, 1)[0] == 't');
    assert("/"@[0] == '/');
    lemma_joined_names_differ(paths.runtime, "tmus.sock"@, "tmus-mpv.sock"@);
    lemma_joined_names_differ(paths.runtime, "tmus.sock"@, "tmus.lock"@);
    lemma_joined_names_differ(paths.runtime, "tmus-mpv.sock"@, "tmus.lock"@);
}

/// A relative path stands behind its base with one separator between them,
/// and joining goes step by step: it does not matter which of three parts
/// are put together first. An absolute path stands alone.
pub proof fn lemma_paths_are_joined_part_by_part(base: Seq<char>, mid: Seq<char>, rel: Seq<char>)
    requires
        base.len() > 0,
        mid.len() > 0,
        mid[0] != '/',
        rel.len() > 0,
    ensures
        rel[0] == '/' ==> path_joined(base, rel) == rel,
        rel[0] != '/' && base.last() != '/' ==> path_joined(base, rel) == base + seq!['/'] + rel,
        rel[0] != '/' && base.last() == '/' ==> path_joined(base, rel) == base + rel,
        path_joined(path_joined(base, mid), rel) == path_joined(base, path_joined(mid, rel)),
        path_joined(Seq::empty(), rel) == rel,
{
    reveal_strlit("/");
    assert("/"@ =~= seq!['/']);
    lemma_slash_ends(base);
    lemma_slash_ends(mid);
    lemma_slash_ends(rel);
    let both = path_joined(base, mid);
    lemma_slash_ends(both);
    assert(both.last() == mid.last());
    let tail = path_joined(mid, rel);
    lemma_slash_ends(tail);
    assert(path_joined(both, rel) =~= path_joined(base, tail));
}

proof fn lemma_slash_ends(s: Seq<char>)
    requires
        s.len() > 0,
    ensures
        starts_with_text(s, "/"@) <==> s[0] == '/',
        ends_with_text(s, "/"@) <==> s.last() == '/',
{
    reveal_strlit("/");
    assert("/"@ =~= seq!['/']);
    if s[0] == '/' {
        assert(s.subrange(0, 1) =~= "/"@);
    }
    if s.last() == '/' {
        assert(s.subrange(s.len() - 1, s.len() as int) =~= "/"@);
    }
    if starts_with_text(s, "/"@) {
        assert(s.subrange(0, 1)[0] == s[0]);
    }
    if ends_with_text(s, "/"@) {
        assert(s.subrange(s.len() - 1, s.len() as int)[0] == s.last());
    }
}

/// The sockets and the lock lie where the platform puts such files; where
/// it names no place, in one of the user's own under `/tmp`.
pub proof fn lemma_every_user_has_a_place_of_their_own(
    base: BaseDirs,
    user: Option<String>,
    logname: Option<String>,
)
    ensures
        base.runtime matches Some(dir) ==> runtime_of(base, user, logname) == dir@,
        base.runtime is None ==> (user matches Some(name) ==> runtime_of(base, user, logname)
            == "/tmp/tmus-"@ + name@),
        base.runtime is None && user is None ==> (logname matches Some(name) ==> runtime_of(
            base,
            user,
            logname,
        ) == "/tmp/tmus-"@ + name@),
        base.runtime is None && user is None && logname is None ==> runtime_of(base, user, logname)
            == "/tmp/tmus-"@ + "nobody"@,
{
}

} // verus!
