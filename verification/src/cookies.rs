//! Browser cookies: what a session at a source is made of.
//!
//! Two things can fail and are told apart: no profile is found, or the
//! profile is there and its values cannot be read.

use vstd::prelude::*;

use crate::chromium::{decrypt_chromium, decrypted};
use crate::config::Config;
use crate::error::{CoreError, CoreErrorView};
use crate::paths::{join_path, lemma_paths_are_joined_part_by_part, path_joined};
use crate::text::{
    behind, chars_of, concat2, concat3, ends_with, ends_with_text, fields, fields_text, find_char,
    first_place, is_white, joined, lemma_texts_are_found_where_they_stand, lines, lines_text,
    opt_text, parse_i64, parsed_i64, starts_with, starts_with_text, str_lt, string_of,
    strip_prefix, text_lt, texts, trim, trimmed,
};
use crate::textmap::{
    ascending, entry_views, has_key, lemma_entries_are_canonical, lemma_place_is_unique, lookup,
    place_of, TextMap,
};

verus! {

/// Where cookies come from: a browser profile or an exported file.
#[derive(Debug, PartialEq, Eq)]
pub enum CookieSource {
    /// For example `chromium:/path`.
    Browser { spec: String },
    /// A file in the Netscape format.
    File { path: String },
}

#[verifier::ext_equal]
pub enum CookieSourceView {
    Browser { spec: Seq<char> },
    File { path: Seq<char> },
}

impl View for CookieSource {
    type V = CookieSourceView;

    open spec fn view(&self) -> CookieSourceView {
        match *self {
            CookieSource::Browser { spec } => CookieSourceView::Browser { spec: spec@ },
            CookieSource::File { path } => CookieSourceView::File { path: path@ },
        }
    }
}

impl Clone for CookieSource {
    fn clone(&self) -> (r: Self)
        ensures
            r@ == self@,
    {
        match self {
            CookieSource::Browser { spec } => CookieSource::Browser { spec: spec.clone() },
            CookieSource::File { path } => CookieSource::File { path: path.clone() },
        }
    }
}

/// The arguments that hand a source of cookies to `yt-dlp`.
pub open spec fn ytdlp_args_of(src: CookieSourceView) -> Seq<Seq<char>> {
    match src {
        CookieSourceView::Browser { spec } => seq!["--cookies-from-browser"@, spec],
        CookieSourceView::File { path } => seq!["--cookies"@, path],
    }
}

impl CookieSource {
    /// The arguments that hand this source to `yt-dlp`.
    pub fn as_ytdlp_args(&self) -> (r: Vec<String>)
        ensures
            texts(r@) == ytdlp_args_of(self@),
    {
        let mut out: Vec<String> = Vec::new();
        match self {
            CookieSource::Browser { spec } => {
                out.push("--cookies-from-browser".to_owned());
                out.push(spec.clone());
            },
            CookieSource::File { path } => {
                out.push("--cookies".to_owned());
                out.push(path.clone());
            },
        }
        assert(texts(out@) =~= ytdlp_args_of(self@));
        out
    }
}

/// Cookies: names and their values, walked in the order of the names.
#[derive(Debug, PartialEq, Eq)]
pub struct CookieJar {
    values: TextMap<String>,
}

/// Names and values as texts.
pub open spec fn pair_views(v: Seq<(Seq<char>, String)>) -> Seq<(Seq<char>, Seq<char>)> {
    v.map_values(|e: (Seq<char>, String)| (e.0, e.1@))
}

impl View for CookieJar {
    type V = Seq<(Seq<char>, Seq<char>)>;

    closed spec fn view(&self) -> Seq<(Seq<char>, Seq<char>)> {
        pair_views(self.values@)
    }
}

/// Whether a cookie is kept: a name or a value that is empty makes a
/// header that servers refuse.
pub open spec fn kept(name: Seq<char>, value: Seq<char>) -> bool {
    name.len() > 0 && value.len() > 0
}

/// The last kept value that was given for `key`.
pub open spec fn last_value(pairs: Seq<(Seq<char>, Seq<char>)>, key: Seq<char>) -> Option<
    Seq<char>,
>
    decreases pairs.len(),
{
    if pairs.len() == 0 {
        None
    } else if pairs.last().0 == key && kept(pairs.last().0, pairs.last().1) {
        Some(pairs.last().1)
    } else {
        last_value(pairs.drop_last(), key)
    }
}

/// Whether a jar holds exactly what was kept of `pairs`, the last value of
/// each name winning.
pub open spec fn holds(
    jar: Seq<(Seq<char>, Seq<char>)>,
    pairs: Seq<(Seq<char>, Seq<char>)>,
) -> bool {
    &&& ascending(jar)
    &&& forall|key: Seq<char>| #[trigger] lookup(jar, key) == last_value(pairs, key)
}

/// The `Cookie` header of a jar: `k=v; k2=v2`.
pub open spec fn header_of(jar: Seq<(Seq<char>, Seq<char>)>) -> Seq<char> {
    joined(jar.map_values(|e: (Seq<char>, Seq<char>)| e.0 + "="@ + e.1), "; "@)
}

proof fn lemma_pair_lookup(v: Seq<(Seq<char>, String)>, key: Seq<char>)
    requires
        ascending(v),
    ensures
        ascending(pair_views(v)),
        lookup(pair_views(v), key) == match lookup(v, key) {
            Some(s) => Some(s@),
            None => None,
        },
{
    let pv = pair_views(v);
    assert forall|i: int, j: int| 0 <= i < j < pv.len() implies text_lt(
        (#[trigger] pv[i]).0,
        (#[trigger] pv[j]).0,
    ) by {
        assert(text_lt(v[i].0, v[j].0));
    }
    if has_key(v, key) {
        let p = place_of(v, key);
        assert(pv[p].0 == key);
        lemma_place_is_unique(pv, key, p);
        lemma_place_is_unique(v, key, p);
    } else if has_key(pv, key) {
        let p = place_of(pv, key);
        assert(v[p].0 == key);
    }
}

impl CookieJar {
    pub open spec fn wf(&self) -> bool {
        &&& ascending(self@)
        &&& self.sound()
    }

    pub closed spec fn sound(&self) -> bool {
        self.values.wf()
    }

    pub fn new() -> (r: Self)
        ensures
            r.wf(),
            r@.len() == 0,
    {
        CookieJar { values: TextMap::new() }
    }

    pub fn get(&self, name: &str) -> (r: Option<&str>)
        requires
            self.wf(),
        ensures
            match r {
                Some(v) => lookup(self@, name@) == Some(v@),
                None => lookup(self@, name@) is None,
            },
    {
        proof {
            lemma_pair_lookup(self.values@, name@);
        }
        match self.values.get(name) {
            Some(v) => Some(v.as_str()),
            None => None,
        }
    }

    /// The value of the header `Cookie`.
    pub fn header(&self) -> (r: String)
        requires
            self.wf(),
        ensures
            r@ == header_of(self@),
    {
        let entries = self.values.entries();
        let ghost parts = self@.map_values(|e: (Seq<char>, Seq<char>)| e.0 + "="@ + e.1);
        let mut pieces: Vec<String> = Vec::new();
        let mut i: usize = 0;
        while i < entries.len()
            invariant
                i <= entries@.len(),
                entry_views(entries@) == self.values@,
                parts == self@.map_values(|e: (Seq<char>, Seq<char>)| e.0 + "="@ + e.1),
                texts(pieces@) == parts.subrange(0, i as int),
            decreases entries@.len() - i,
        {
            let ghost had = texts(pieces@);
            assert(self.values@[i as int] == (entries@[i as int].0@, entries@[i as int].1));
            assert(self@[i as int] == (entries@[i as int].0@, entries@[i as int].1@));
            pieces.push(concat3(entries[i].0.as_str(), "=", entries[i].1.as_str()));
            assert(texts(pieces@) =~= had.push(parts[i as int]));
            i += 1;
            assert(texts(pieces@) =~= parts.subrange(0, i as int));
        }
        assert(parts.subrange(0, i as int) =~= parts);
        crate::text::join(&pieces, "; ")
    }

    pub fn is_empty(&self) -> (r: bool)
        ensures
            r == (self@.len() == 0),
    {
        self.values.is_empty()
    }

    /// Puts a cookie in, unless its name or its value is empty.
    pub fn push(&mut self, name: String, value: String)
        requires
            old(self).wf(),
        ensures
            final(self).wf(),
            !kept(name@, value@) ==> final(self)@ == old(self)@,
            kept(name@, value@) ==> lookup(final(self)@, name@) == Some(value@),
            forall|other: Seq<char>|
                other != name@ ==> #[trigger] lookup(final(self)@, other) == lookup(
                    old(self)@,
                    other,
                ),
            forall|pairs: Seq<(Seq<char>, Seq<char>)>|
                #![trigger holds(old(self)@, pairs)]
                holds(old(self)@, pairs) ==> holds(final(self)@, pairs.push((name@, value@))),
            final(self)@.len() >= old(self)@.len(),
            kept(name@, value@) ==> final(self)@.len() > 0,
    {
        let ghost before = self.values@;
        let ghost n = name@;
        let ghost v = value@;
        if name.as_str().is_empty() || value.as_str().is_empty() {
            proof {
                self.lemma_push_holds(self@, n, v);
            }
            return;
        }
        self.values.insert(name, value);
        proof {
            lemma_pair_lookup(self.values@, n);
            assert forall|other: Seq<char>| other != n implies #[trigger] lookup(self@, other)
                == lookup(pair_views(before), other) by {
                lemma_pair_lookup(self.values@, other);
                lemma_pair_lookup(before, other);
            }
            if self@.len() == 0 {
                assert(lookup(self@, n) is None);
            }
            self.lemma_push_holds(pair_views(before), n, v);
        }
    }

    proof fn lemma_push_holds(
        &self,
        before: Seq<(Seq<char>, Seq<char>)>,
        name: Seq<char>,
        value: Seq<char>,
    )
        requires
            self.wf(),
            !kept(name, value) ==> self@ == before,
            kept(name, value) ==> lookup(self@, name) == Some(value),
            forall|other: Seq<char>|
                other != name ==> #[trigger] lookup(self@, other) == lookup(before, other),
        ensures
            forall|pairs: Seq<(Seq<char>, Seq<char>)>|
                #![trigger holds(before, pairs)]
                holds(before, pairs) ==> holds(self@, pairs.push((name, value))),
    {
        assert forall|pairs: Seq<(Seq<char>, Seq<char>)>|
            #![trigger holds(before, pairs)]
            holds(before, pairs) implies holds(self@, pairs.push((name, value))) by {
            let more = pairs.push((name, value));
            assert(more.drop_last() =~= pairs);
            lemma_pair_lookup(self.values@, name);
            assert forall|key: Seq<char>| #[trigger] lookup(self@, key) == last_value(
                more,
                key,
            ) by {
                assert(lookup(before, key) == last_value(pairs, key));
            }
        }
    }
}

impl Default for CookieJar {
    fn default() -> (r: Self)
        ensures
            r.wf(),
            r@.len() == 0,
    {
        CookieJar::new()
    }
}

/// Two jars with the same cookies are the same jar and make the same
/// header, in whatever order the cookies came.
pub proof fn lemma_header_ignores_insertion_order(
    a: Seq<(Seq<char>, Seq<char>)>,
    b: Seq<(Seq<char>, Seq<char>)>,
    pairs_a: Seq<(Seq<char>, Seq<char>)>,
    pairs_b: Seq<(Seq<char>, Seq<char>)>,
)
    requires
        holds(a, pairs_a),
        holds(b, pairs_b),
        forall|key: Seq<char>| #[trigger] last_value(pairs_a, key) == last_value(pairs_b, key),
    ensures
        a == b,
        header_of(a) == header_of(b),
{
    assert forall|key: Seq<char>| #[trigger] lookup(a, key) == lookup(b, key) by {
        assert(last_value(pairs_a, key) == last_value(pairs_b, key));
    }
    lemma_entries_are_canonical(a, b);
}

proof fn lemma_no_pairs(jar: Seq<(Seq<char>, Seq<char>)>)
    requires
        jar.len() == 0,
    ensures
        holds(jar, Seq::empty()),
{
}

/// The configured profile, else the one that was found.
pub fn source_from_config(cfg: &Config, found: Option<CookieSource>) -> (r: Result<
    CookieSource,
    CoreError,
>)
    ensures
        match cfg.browser.profile {
            Some(spec) => r matches Ok(s) && s@ == (CookieSourceView::Browser { spec: spec@ }),
            None => match found {
                Some(f) => r matches Ok(s) && s@ == f@,
                None => r matches Err(e) && e@ == CoreErrorView::NoBrowserProfile,
            },
        },
{
    if let Some(spec) = &cfg.browser.profile {
        return Ok(CookieSource::Browser { spec: spec.clone() });
    }
    match found {
        Some(f) => Ok(f),
        None => Err(CoreError::NoBrowserProfile),
    }
}

/// The places of the cookie base in a profile of the Chromium family, or
/// in the browser's root.
pub open spec fn chromium_layouts(profile: Seq<char>) -> Seq<Seq<char>> {
    seq![
        path_joined(profile, "Cookies"@),
        path_joined(profile, "Network/Cookies"@),
        path_joined(profile, "Default/Cookies"@),
        path_joined(profile, "Default/Network/Cookies"@),
    ]
}

/// Where the cookie base may lie, in the order of trying.
pub fn chromium_candidates(profile: &str) -> (r: Vec<String>)
    ensures
        texts(r@) == chromium_layouts(profile@),
{
    let mut out: Vec<String> = Vec::new();
    out.push(join_path(profile, "Cookies"));
    out.push(join_path(profile, "Network/Cookies"));
    out.push(join_path(profile, "Default/Cookies"));
    out.push(join_path(profile, "Default/Network/Cookies"));
    assert(texts(out@) =~= chromium_layouts(profile@));
    out
}

/// The first candidate that is a file; `is_file` tells of each whether it
/// is.
pub fn chromium_db(candidates: &Vec<String>, is_file: &Vec<bool>) -> (r: Option<String>)
    requires
        candidates@.len() == is_file@.len(),
    ensures
        match r {
            Some(db) => exists|i: int|
                0 <= i < is_file@.len() && #[trigger] is_file@[i] && db@ == candidates@[i]@ && (
                forall|k: int| 0 <= k < i ==> !#[trigger] is_file@[k]),
            None => forall|k: int| 0 <= k < is_file@.len() ==> !#[trigger] is_file@[k],
        },
{
    let mut i: usize = 0;
    while i < is_file.len()
        invariant
            i <= is_file@.len(),
            candidates@.len() == is_file@.len(),
            forall|k: int| 0 <= k < i ==> !#[trigger] is_file@[k],
        decreases is_file@.len() - i,
    {
        if is_file[i] {
            assert(is_file@[i as int]);
            return Some(candidates[i].clone());
        }
        i += 1;
    }
    None
}

/// The name under which a path without its last component is known.
pub uninterp spec fn path_parent(path: Seq<char>) -> Option<Seq<char>>;

/// `Path::parent`: the same path always has the same parent, or none.
#[verifier::external_body]
fn parent_of(path: &str) -> (r: Option<String>)
    ensures
        opt_text(r) == path_parent(path@),
{
    std::path::Path::new(path).parent().map(|p| p.to_string_lossy().into_owned())
}

/// The name under which a path's last component is known.
pub uninterp spec fn path_file_name(path: Seq<char>) -> Option<Seq<char>>;

/// `Path::file_name`: the same path always has the same last component,
/// or none.
#[verifier::external_body]
fn file_name_of(path: &str) -> (r: Option<String>)
    ensures
        opt_text(r) == path_file_name(path@),
{
    std::path::Path::new(path).file_name().map(|n| n.to_string_lossy().into_owned())
}

/// The parent of a path, or the path itself where it has none.
pub open spec fn parent_or_self(path: Seq<char>, parent: Option<Seq<char>>) -> Seq<char> {
    match parent {
        Some(p) => p,
        None => path,
    }
}

/// The profile that a Chromium cookie base belongs to: its directory, or
/// the one above where that is called `Network`. `parent` is the base's
/// directory, `parent_name` that directory's name and `grandparent` the
/// directory above.
pub open spec fn chromium_profile(
    db: Seq<char>,
    parent: Option<Seq<char>>,
    parent_name: Option<Seq<char>>,
    grandparent: Option<Seq<char>>,
) -> Seq<char> {
    if parent is Some && parent_name == Some("Network"@) {
        parent_or_self(db, grandparent)
    } else {
        parent_or_self(db, parent)
    }
}

/// The profile of a Chromium cookie base, from what is known of its path.
pub fn profile_of_db(
    db: &str,
    parent: Option<String>,
    parent_name: Option<String>,
    grandparent: Option<String>,
) -> (r: CookieSource)
    ensures
        r@ == (CookieSourceView::Browser {
            spec: "chromium:"@ + chromium_profile(
                db@,
                opt_text(parent),
                opt_text(parent_name),
                opt_text(grandparent),
            ),
        }),
{
    let in_network: bool = match (&parent, &parent_name) {
        (Some(_), Some(name)) => name.as_str().eq("Network"),
        _ => false,
    };
    let dir: Option<String> = if in_network {
        grandparent
    } else {
        parent
    };
    let profile: String = match dir {
        Some(p) => p,
        None => db.to_owned(),
    };
    CookieSource::Browser { spec: concat2("chromium:", profile.as_str()) }
}

/// What is known of the path of a cookie base: its directory, that
/// directory's name, and the directory above.
pub open spec fn directory_name(parent: Option<Seq<char>>) -> Option<Seq<char>> {
    match parent {
        Some(p) => path_file_name(p),
        None => None,
    }
}

pub open spec fn directory_above(parent: Option<Seq<char>>) -> Option<Seq<char>> {
    match parent {
        Some(p) => path_parent(p),
        None => None,
    }
}

pub open spec fn chromium_source_of(db: Seq<char>) -> CookieSourceView {
    CookieSourceView::Browser {
        spec: "chromium:"@ + chromium_profile(
            db,
            path_parent(db),
            directory_name(path_parent(db)),
            directory_above(path_parent(db)),
        ),
    }
}

pub open spec fn firefox_source_of(db: Seq<char>) -> CookieSourceView {
    CookieSourceView::Browser { spec: "firefox:"@ + parent_or_self(db, path_parent(db)) }
}

/// The source that a Chromium cookie base stands for: `yt-dlp` wants the
/// profile's directory, not the base.
pub fn chromium_source(db: &str) -> (r: CookieSource)
    ensures
        r@ == chromium_source_of(db@),
{
    let parent = parent_of(db);
    let (name, above): (Option<String>, Option<String>) = match &parent {
        Some(p) => (file_name_of(p.as_str()), parent_of(p.as_str())),
        None => (None, None),
    };
    profile_of_db(db, parent, name, above)
}

/// The source that a Firefox cookie base stands for.
pub fn firefox_source(db: &str) -> (r: CookieSource)
    ensures
        r@ == firefox_source_of(db@),
{
    let profile: String = match parent_of(db) {
        Some(p) => p,
        None => db.to_owned(),
    };
    CookieSource::Browser { spec: concat2("firefox:", profile.as_str()) }
}

/// A directory under a root of Firefox profiles.
pub struct ProfileDir {
    pub path: String,
    pub name: String,
    /// Whether a cookie base lies in it.
    pub has_db: bool,
}

/// Whether a profile directory is to be considered.
pub open spec fn eligible(dir: ProfileDir, release_only: bool) -> bool {
    dir.has_db && (release_only ==> ends_with_text(dir.name@, ".default-release"@))
}

/// The cookie base of the first profile by name, so that the choice does
/// not drift between runs.
pub fn profile_db(dirs: &Vec<ProfileDir>, release_only: bool) -> (r: Option<String>)
    ensures
        match r {
            Some(db) => exists|i: int|
                0 <= i < dirs@.len() && eligible(#[trigger] dirs@[i], release_only) && db@
                    == path_joined(dirs@[i].path@, "cookies.sqlite"@) && (forall|k: int|
                    0 <= k < dirs@.len() && eligible(#[trigger] dirs@[k], release_only)
                        ==> !text_lt(dirs@[k].name@, dirs@[i].name@)),
            None => forall|k: int|
                0 <= k < dirs@.len() ==> !eligible(#[trigger] dirs@[k], release_only),
        },
{
    let mut best: Option<usize> = None;
    let mut i: usize = 0;
    while i < dirs.len()
        invariant
            i <= dirs@.len(),
            match best {
                Some(b) => b < i && eligible(dirs@[b as int], release_only) && (forall|k: int|
                    0 <= k < i && eligible(#[trigger] dirs@[k], release_only) ==> !text_lt(
                        dirs@[k].name@,
                        dirs@[b as int].name@,
                    )),
                None => forall|k: int|
                    0 <= k < i ==> !eligible(#[trigger] dirs@[k], release_only),
            },
        decreases dirs@.len() - i,
    {
        let fits: bool = dirs[i].has_db && (!release_only || ends_with(
            dirs[i].name.as_str(),
            ".default-release",
        ));
        assert(fits == eligible(dirs@[i as int], release_only));
        if fits {
            proof {
                crate::text::lemma_text_lt_irreflexive(dirs@[i as int].name@);
            }
            match best {
                Some(b) => {
                    if str_lt(dirs[i].name.as_str(), dirs[b].name.as_str()) {
                        proof {
                            assert forall|k: int|
                                0 <= k < i && eligible(
                                    #[trigger] dirs@[k],
                                    release_only,
                                ) implies !text_lt(dirs@[k].name@, dirs@[i as int].name@) by {
                                if text_lt(dirs@[k].name@, dirs@[i as int].name@) {
                                    crate::text::lemma_text_lt_transitive(
                                        dirs@[k].name@,
                                        dirs@[i as int].name@,
                                        dirs@[b as int].name@,
                                    );
                                }
                            }
                        }
                        best = Some(i);
                    }
                },
                None => {
                    best = Some(i);
                },
            }
        }
        i += 1;
    }
    match best {
        Some(b) => {
            assert(eligible(dirs@[b as int], release_only));
            Some(join_path(dirs[b].path.as_str(), "cookies.sqlite"))
        },
        None => None,
    }
}

/// The cookie bases that were found, per kind of profile.
pub struct FoundProfiles {
    /// Of the YouTube Music desktop application.
    pub ytm: Option<String>,
    pub zen: Option<String>,
    pub firefox: Option<String>,
    pub chromium: Option<String>,
}

/// The profile to use, by how likely a live session is.
pub fn autodetect(found: &FoundProfiles) -> (r: Option<CookieSource>)
    ensures
        r is None <==> found.ytm is None && found.zen is None && found.firefox is None
            && found.chromium is None,
        found.ytm matches Some(db) ==> (r matches Some(s) && s@ == chromium_source_of(db@)),
        found.ytm is None ==> (found.zen matches Some(db) ==> (r matches Some(s) && s@
            == firefox_source_of(db@))),
        found.ytm is None && found.zen is None ==> (found.firefox matches Some(db) ==> (
        r matches Some(s) && s@ == firefox_source_of(db@))),
        found.ytm is None && found.zen is None && found.firefox is None ==> (
        found.chromium matches Some(db) ==> (r matches Some(s) && s@ == chromium_source_of(
            db@,
        ))),
{
    if let Some(db) = &found.ytm {
        return Some(chromium_source(db.as_str()));
    }
    if let Some(db) = &found.zen {
        return Some(firefox_source(db.as_str()));
    }
    if let Some(db) = &found.firefox {
        return Some(firefox_source(db.as_str()));
    }
    if let Some(db) = &found.chromium {
        return Some(chromium_source(db.as_str()));
    }
    None
}

/// How a source of cookies is read.
#[derive(Debug, PartialEq, Eq)]
pub enum CookiePlan {
    /// A base, or a profile, of the Chromium family.
    Chromium(String),
    /// A base, or a profile, of the Firefox family.
    Firefox(String),
    Netscape(String),
}

#[verifier::ext_equal]
pub enum CookiePlanView {
    Chromium(Seq<char>),
    Firefox(Seq<char>),
    Netscape(Seq<char>),
}

impl View for CookiePlan {
    type V = CookiePlanView;

    open spec fn view(&self) -> CookiePlanView {
        match *self {
            CookiePlan::Chromium(p) => CookiePlanView::Chromium(p@),
            CookiePlan::Firefox(p) => CookiePlanView::Firefox(p@),
            CookiePlan::Netscape(p) => CookiePlanView::Netscape(p@),
        }
    }
}

/// The browsers that keep cookies the way Chromium does.
pub open spec fn chromium_family(kind: Seq<char>) -> bool {
    kind == "chromium"@ || kind == "chrome"@ || kind == "brave"@ || kind == "edge"@ || kind
        == "vivaldi"@
}

pub open spec fn firefox_family(kind: Seq<char>) -> bool {
    kind == "firefox"@ || kind == "zen"@
}

pub open spec fn plan_of(src: CookieSourceView) -> Result<CookiePlanView, CoreErrorView> {
    match src {
        CookieSourceView::Browser { spec } => {
            let at = first_place(spec, ':');
            let kind = spec.subrange(0, at);
            let path = spec.subrange(at + 1, spec.len() as int);
            if at >= spec.len() {
                Err(
                    CoreErrorView::Cookies {
                        path: spec,
                        reason:
                            "у профиля нет пути; ожидается «chromium:/путь» или «firefox:/путь»"@,
                    },
                )
            } else if chromium_family(kind) {
                Ok(CookiePlanView::Chromium(path))
            } else if firefox_family(kind) {
                Ok(CookiePlanView::Firefox(path))
            } else {
                Err(
                    CoreErrorView::Cookies {
                        path,
                        reason: "неизвестный браузер «"@ + kind
                            + "»; поддерживаются chromium и firefox"@,
                    },
                )
            }
        },
        CookieSourceView::File { path } => Ok(CookiePlanView::Netscape(path)),
    }
}

pub open spec fn plan_result(r: Result<CookiePlan, CoreError>) -> Result<
    CookiePlanView,
    CoreErrorView,
> {
    match r {
        Ok(p) => Ok(p@),
        Err(e) => Err(e@),
    }
}

/// How to read the cookies of a source.
pub fn cookie_plan(src: &CookieSource) -> (r: Result<CookiePlan, CoreError>)
    ensures
        plan_result(r) == plan_of(src@),
{
    match src {
        CookieSource::Browser { spec } => {
            let chars = chars_of(spec.as_str());
            let at: usize = find_char(&chars, ':', 0);
            assert(chars@.subrange(0, chars@.len() as int) =~= spec@);
            if at == chars.len() {
                return Err(
                    CoreError::Cookies {
                        path: spec.clone(),
                        reason:
                            "у профиля нет пути; ожидается «chromium:/путь» или «firefox:/путь»".to_owned(),
                    },
                );
            }
            let kind = string_of(&chars, 0, at);
            let path = string_of(&chars, at + 1, chars.len());
            let k = kind.as_str();
            if k.eq("chromium") || k.eq("chrome") || k.eq("brave") || k.eq("edge") || k.eq(
                "vivaldi",
            ) {
                Ok(CookiePlan::Chromium(path))
            } else if k.eq("firefox") || k.eq("zen") {
                Ok(CookiePlan::Firefox(path))
            } else {
                Err(
                    CoreError::Cookies {
                        path,
                        reason: concat3(
                            "неизвестный браузер «",
                            k,
                            "»; поддерживаются chromium и firefox",
                        ),
                    },
                )
            }
        },
        CookieSource::File { path } => Ok(CookiePlan::Netscape(path.clone())),
    }
}

/// The base to read for a Chromium plan: the path itself where it is a
/// file, else the one that was found in the profile.
pub fn chromium_base(path: &str, is_file: bool, found: Option<String>) -> (r: Result<
    String,
    CoreError,
>)
    ensures
        is_file ==> (r matches Ok(db) && db@ == path@),
        !is_file ==> match found {
            Some(f) => r matches Ok(db) && db@ == f@,
            None => r matches Err(e) && e@ == (CoreErrorView::Cookies {
                path: path@,
                reason: "в профиле нет базы cookies (Cookies или Network/Cookies)"@,
            }),
        },
{
    if is_file {
        return Ok(path.to_owned());
    }
    match found {
        Some(db) => Ok(db),
        None => Err(
            CoreError::Cookies {
                path: path.to_owned(),
                reason: "в профиле нет базы cookies (Cookies или Network/Cookies)".to_owned(),
            },
        ),
    }
}

/// The base to read for a Firefox plan.
pub fn firefox_base(path: &str, is_file: bool) -> (r: String)
    ensures
        r@ == if is_file {
            path@
        } else {
            path_joined(path@, "cookies.sqlite"@)
        },
{
    if is_file {
        path.to_owned()
    } else {
        join_path(path, "cookies.sqlite")
    }
}

/// The pattern that a base's hosts are compared with.
pub fn host_pattern(domain_suffix: &str) -> (r: String)
    ensures
        r@ == "%"@ + domain_suffix@,
{
    concat2("%", domain_suffix)
}

/// The schema's version, 0 where the base does not tell a number.
pub fn meta_version(text: Option<String>) -> (r: i64)
    ensures
        r == match text {
            Some(t) => match parsed_i64(t@) {
                Some(n) => n,
                None => 0,
            },
            None => 0,
        },
{
    match text {
        Some(t) => match parse_i64(t.as_str()) {
            Some(n) => n,
            None => 0,
        },
        None => 0,
    }
}

/// A row of a Chromium cookie base.
pub struct ChromiumRow {
    pub name: String,
    /// The value where it is not encrypted.
    pub plain: Option<String>,
    /// The encrypted value.
    pub blob: Vec<u8>,
}

/// The value of a row: none where the row holds none, an error where it
/// cannot be decrypted.
pub open spec fn row_value(row: ChromiumRow, meta_version: i64) -> Result<
    Option<Seq<char>>,
    Seq<char>,
> {
    if row.plain matches Some(p) && p@.len() > 0 {
        Ok(Some(row.plain->0@))
    } else if row.blob@.len() == 0 {
        Ok(None)
    } else {
        match decrypted(row.blob@, meta_version) {
            Ok(s) => Ok(Some(s)),
            Err(e) => Err(e),
        }
    }
}

/// The names and values that rows give.
pub open spec fn row_pairs(rows: Seq<Result<ChromiumRow, String>>, meta_version: i64) -> Seq<
    (Seq<char>, Seq<char>),
>
    decreases rows.len(),
{
    if rows.len() == 0 {
        Seq::empty()
    } else {
        let before = row_pairs(rows.drop_last(), meta_version);
        match rows.last() {
            Ok(row) => match row_value(row, meta_version) {
                Ok(Some(v)) => before.push((row.name@, v)),
                _ => before,
            },
            Err(_) => before,
        }
    }
}

/// Why rows could not be decrypted, one reason per such row.
pub open spec fn row_failures(rows: Seq<Result<ChromiumRow, String>>, meta_version: i64) -> Seq<
    Seq<char>,
>
    decreases rows.len(),
{
    if rows.len() == 0 {
        Seq::empty()
    } else {
        let before = row_failures(rows.drop_last(), meta_version);
        match rows.last() {
            Ok(row) => match row_value(row, meta_version) {
                Err(e) => before.push(e),
                _ => before,
            },
            Err(_) => before,
        }
    }
}

/// The cookies of a base, and how many were skipped.
pub struct Collected {
    pub jar: CookieJar,
    pub failed: usize,
}

pub open spec fn row_error(db: Seq<char>, err: Seq<char>) -> CoreErrorView {
    CoreErrorView::Cookies { path: db, reason: "строка cookies не прочиталась: "@ + err }
}

/// Gathers the cookies of a Chromium base. Values that cannot be decrypted
/// are skipped: a profile commonly holds some under a key that is out of
/// reach, and the others still make a session. Only where nothing at all
/// was gathered is the first reason an error. A row that cannot be read is
/// always one.
pub fn collect_chromium(
    db: &str,
    rows: &Vec<Result<ChromiumRow, String>>,
    meta_version: i64,
) -> (r: Result<Collected, CoreError>)
    ensures
        match r {
            Ok(c) => {
                &&& forall|k: int| 0 <= k < rows@.len() ==> (#[trigger] rows@[k]) is Ok
                &&& c.jar.wf()
                &&& holds(c.jar@, row_pairs(rows@, meta_version))
                &&& c.failed == row_failures(rows@, meta_version).len()
                &&& c.jar@.len() > 0 || c.failed == 0
            },
            Err(e) => {
                ||| exists|k: int|
                    0 <= k < rows@.len() && (#[trigger] rows@[k]) is Err && e@ == row_error(
                        db@,
                        rows@[k]->Err_0@,
                    ) && (forall|j: int| 0 <= j < k ==> (#[trigger] rows@[j]) is Ok)
                ||| {
                    &&& forall|k: int| 0 <= k < rows@.len() ==> (#[trigger] rows@[k]) is Ok
                    &&& holds(Seq::empty(), row_pairs(rows@, meta_version))
                    &&& row_failures(rows@, meta_version).len() > 0
                    &&& e@ == (CoreErrorView::Cookies {
                        path: db@,
                        reason: row_failures(rows@, meta_version)[0],
                    })
                }
            },
        },
{
    let mut jar = CookieJar::new();
    let mut failed: usize = 0;
    let mut first_reason: Option<String> = None;
    let mut i: usize = 0;
    proof {
        lemma_no_pairs(jar@);
        assert(rows@.subrange(0, 0) =~= Seq::empty());
    }
    while i < rows.len()
        invariant
            i <= rows@.len(),
            forall|k: int| 0 <= k < i ==> (#[trigger] rows@[k]) is Ok,
            jar.wf(),
            holds(jar@, row_pairs(rows@.subrange(0, i as int), meta_version)),
            failed == row_failures(rows@.subrange(0, i as int), meta_version).len(),
            failed <= i,
            match first_reason {
                Some(reason) => failed > 0 && reason@ == row_failures(
                    rows@.subrange(0, i as int),
                    meta_version,
                )[0],
                None => failed == 0,
            },
        decreases rows@.len() - i,
    {
        let ghost upto = rows@.subrange(0, i + 1);
        assert(upto.drop_last() =~= rows@.subrange(0, i as int));
        assert(upto.last() == rows@[i as int]);
        match &rows[i] {
            Err(err) => {
                assert(rows@[i as int] is Err);
                return Err(
                    CoreError::Cookies {
                        path: db.to_owned(),
                        reason: concat2("строка cookies не прочиталась: ", err.as_str()),
                    },
                );
            },
            Ok(row) => {
                let plain: Option<String> = match &row.plain {
                    Some(p) => if p.as_str().is_empty() {
                        None
                    } else {
                        Some(p.clone())
                    },
                    None => None,
                };
                let value: Option<String> = match plain {
                    Some(p) => Some(p),
                    None => if row.blob.len() == 0 {
                        None
                    } else {
                        match decrypt_chromium(&row.blob, meta_version) {
                            Ok(v) => Some(v),
                            Err(reason) => {
                                failed += 1;
                                if first_reason.is_none() {
                                    first_reason = Some(reason);
                                }
                                None
                            },
                        }
                    },
                };
                if let Some(v) = value {
                    jar.push(row.name.clone(), v);
                }
            },
        }
        i += 1;
    }
    assert(rows@.subrange(0, i as int) =~= rows@);
    if jar.is_empty() {
        if let Some(reason) = first_reason {
            assert(jar@ =~= Seq::empty());
            return Err(CoreError::Cookies { path: db.to_owned(), reason });
        }
    }
    Ok(Collected { jar, failed })
}

/// The names and values that rows of a Firefox base give.
pub open spec fn plain_pairs(rows: Seq<Result<(String, String), String>>) -> Seq<
    (Seq<char>, Seq<char>),
>
    decreases rows.len(),
{
    if rows.len() == 0 {
        Seq::empty()
    } else {
        let before = plain_pairs(rows.drop_last());
        match rows.last() {
            Ok(row) => before.push((row.0@, row.1@)),
            Err(_) => before,
        }
    }
}

/// Gathers the cookies of a Firefox base. A row that cannot be read is an
/// error.
pub fn collect_firefox(db: &str, rows: &Vec<Result<(String, String), String>>) -> (r: Result<
    CookieJar,
    CoreError,
>)
    ensures
        match r {
            Ok(jar) => {
                &&& forall|k: int| 0 <= k < rows@.len() ==> (#[trigger] rows@[k]) is Ok
                &&& jar.wf()
                &&& holds(jar@, plain_pairs(rows@))
            },
            Err(e) => exists|k: int|
                0 <= k < rows@.len() && (#[trigger] rows@[k]) is Err && e@ == row_error(
                    db@,
                    rows@[k]->Err_0@,
                ) && (forall|j: int| 0 <= j < k ==> (#[trigger] rows@[j]) is Ok),
        },
{
    let mut jar = CookieJar::new();
    let mut i: usize = 0;
    proof {
        lemma_no_pairs(jar@);
        assert(rows@.subrange(0, 0) =~= Seq::empty());
    }
    while i < rows.len()
        invariant
            i <= rows@.len(),
            forall|k: int| 0 <= k < i ==> (#[trigger] rows@[k]) is Ok,
            jar.wf(),
            holds(jar@, plain_pairs(rows@.subrange(0, i as int))),
        decreases rows@.len() - i,
    {
        assert(rows@.subrange(0, i + 1).drop_last() =~= rows@.subrange(0, i as int));
        match &rows[i] {
            Err(err) => {
                assert(rows@[i as int] is Err);
                return Err(
                    CoreError::Cookies {
                        path: db.to_owned(),
                        reason: concat2("строка cookies не прочиталась: ", err.as_str()),
                    },
                );
            },
            Ok(row) => {
                jar.push(row.0.clone(), row.1.clone());
            },
        }
        i += 1;
    }
    assert(rows@.subrange(0, i as int) =~= rows@);
    Ok(jar)
}

/// Whether a host of a cookie file belongs to a domain: it is the domain,
/// or ends in it behind a dot. One leading dot of the host is dropped.
pub open spec fn host_in(host: Seq<char>, suffix: Seq<char>) -> bool {
    let bare = match behind(host, "."@) {
        Some(rest) => rest,
        None => host,
    };
    ||| bare == suffix
    ||| {
        &&& bare.len() > suffix.len()
        &&& ends_with_text(bare, suffix)
        &&& bare[bare.len() - suffix.len() - 1] == '.'
    }
}

pub fn host_matches(host: &str, suffix: &str) -> (r: bool)
    ensures
        r == host_in(host@, suffix@),
{
    let bare: String = match strip_prefix(host, ".") {
        Some(rest) => rest,
        None => host.to_owned(),
    };
    if bare.as_str().eq(suffix) {
        return true;
    }
    let b = chars_of(bare.as_str());
    let s = chars_of(suffix);
    b.len() > s.len() && ends_with(bare.as_str(), suffix) && b[b.len() - s.len() - 1] == '.'
}

/// The cookie that a line of a Netscape file holds for a domain. A line
/// that starts with `#` is a comment, but for the mark `#HttpOnly_` before
/// a cookie: session cookies carry it.
pub open spec fn line_cookie(line: Seq<char>, domain: Seq<char>) -> Option<
    (Seq<char>, Seq<char>),
> {
    let body = match behind(line, "#HttpOnly_"@) {
        Some(rest) => Some(rest),
        None => if starts_with_text(line, "#"@) {
            None
        } else {
            Some(line)
        },
    };
    match body {
        Some(b) => {
            let f = fields_text(b, '\t', 7);
            if trimmed(b).len() == 0 || f.len() < 7 || !host_in(f[0], domain) {
                None
            } else {
                Some((f[5], f[6]))
            }
        },
        None => None,
    }
}

/// The cookies that lines hold for a domain.
pub open spec fn line_pairs(all: Seq<Seq<char>>, domain: Seq<char>) -> Seq<
    (Seq<char>, Seq<char>),
>
    decreases all.len(),
{
    if all.len() == 0 {
        Seq::empty()
    } else {
        let before = line_pairs(all.drop_last(), domain);
        match line_cookie(all.last(), domain) {
            Some(p) => before.push(p),
            None => before,
        }
    }
}

fn read_line(line: &str, domain: &str) -> (r: Option<(String, String)>)
    ensures
        match r {
            Some(p) => line_cookie(line@, domain@) == Some((p.0@, p.1@)),
            None => line_cookie(line@, domain@) is None,
        },
{
    let body: String = match strip_prefix(line, "#HttpOnly_") {
        Some(rest) => rest,
        None => if starts_with(line, "#") {
            return None;
        } else {
            line.to_owned()
        },
    };
    if trim(body.as_str()).as_str().is_empty() {
        return None;
    }
    let f = fields(body.as_str(), '\t', 7);
    assert(texts(f@).len() == f@.len());
    if f.len() < 7 {
        return None;
    }
    assert(texts(f@)[0] == f@[0]@ && texts(f@)[5] == f@[5]@ && texts(f@)[6] == f@[6]@);
    if !host_matches(f[0].as_str(), domain) {
        return None;
    }
    Some((f[5].clone(), f[6].clone()))
}

/// Reads a file in the Netscape format: seven fields separated by tabs,
/// the host first, the name and the value last.
pub fn parse_netscape(text: &str, domain_suffix: &str) -> (r: CookieJar)
    ensures
        r.wf(),
        holds(r@, line_pairs(lines_text(text@), domain_suffix@)),
{
    let all = lines(text);
    let ghost lv = texts(all@);
    let mut jar = CookieJar::new();
    let mut i: usize = 0;
    proof {
        lemma_no_pairs(jar@);
        assert(lv.subrange(0, 0) =~= Seq::empty());
    }
    while i < all.len()
        invariant
            i <= all@.len(),
            lv == texts(all@),
            jar.wf(),
            holds(jar@, line_pairs(lv.subrange(0, i as int), domain_suffix@)),
        decreases all@.len() - i,
    {
        assert(lv.subrange(0, i + 1).drop_last() =~= lv.subrange(0, i as int));
        assert(lv[i as int] == all@[i as int]@);
        if let Some((name, value)) = read_line(all[i].as_str(), domain_suffix) {
            jar.push(name, value);
        }
        i += 1;
    }
    assert(lv.subrange(0, i as int) =~= lv);
    jar
}

proof fn lemma_plan_of_spec(kind: Seq<char>, path: Seq<char>)
    requires
        forall|i: int| 0 <= i < kind.len() ==> #[trigger] kind[i] != ':',
    ensures
        first_place(kind + ":"@ + path, ':') == kind.len(),
        (kind + ":"@ + path).subrange(0, kind.len() as int) == kind,
        (kind + ":"@ + path).subrange(
            kind.len() as int + 1,
            (kind + ":"@ + path).len() as int,
        ) == path,
        (kind + ":"@ + path).len() == kind.len() + 1 + path.len(),
{
    let spec = kind + ":"@ + path;
    reveal_strlit(":");
    crate::text::lemma_first_place(spec, ':');
    assert(spec[kind.len() as int] == ':');
    let at = first_place(spec, ':');
    if at < kind.len() {
        assert(spec[at] == kind[at]);
    }
    assert(spec.subrange(0, kind.len() as int) =~= kind);
    assert(spec.subrange(kind.len() as int + 1, spec.len() as int) =~= path);
}

/// A profile is read the way of its browser, whatever its path: the
/// relatives of Chromium alike, and those of Firefox alike. Another name is
/// refused, and so is one without a path; a file is read as a file.
pub proof fn lemma_every_known_browser_can_be_read(kind: Seq<char>, path: Seq<char>)
    ensures
        plan_of(CookieSourceView::Browser { spec: "chromium:"@ + path }) == Ok::<
            CookiePlanView,
            CoreErrorView,
        >(CookiePlanView::Chromium(path)),
        plan_of(CookieSourceView::Browser { spec: "chrome:"@ + path }) == Ok::<
            CookiePlanView,
            CoreErrorView,
        >(CookiePlanView::Chromium(path)),
        plan_of(CookieSourceView::Browser { spec: "brave:"@ + path }) == Ok::<
            CookiePlanView,
            CoreErrorView,
        >(CookiePlanView::Chromium(path)),
        plan_of(CookieSourceView::Browser { spec: "edge:"@ + path }) == Ok::<
            CookiePlanView,
            CoreErrorView,
        >(CookiePlanView::Chromium(path)),
        plan_of(CookieSourceView::Browser { spec: "vivaldi:"@ + path }) == Ok::<
            CookiePlanView,
            CoreErrorView,
        >(CookiePlanView::Chromium(path)),
        plan_of(CookieSourceView::Browser { spec: "firefox:"@ + path }) == Ok::<
            CookiePlanView,
            CoreErrorView,
        >(CookiePlanView::Firefox(path)),
        plan_of(CookieSourceView::Browser { spec: "zen:"@ + path }) == Ok::<
            CookiePlanView,
            CoreErrorView,
        >(CookiePlanView::Firefox(path)),
        plan_of(CookieSourceView::File { path }) == Ok::<CookiePlanView, CoreErrorView>(
            CookiePlanView::Netscape(path),
        ),
        (forall|i: int| 0 <= i < kind.len() ==> #[trigger] kind[i] != ':') ==> {
            &&& plan_of(CookieSourceView::Browser { spec: kind }) is Err
            &&& plan_of(CookieSourceView::Browser { spec: kind + ":"@ + path }) is Ok <==> kind
                == "chromium"@ || kind == "chrome"@ || kind == "brave"@ || kind == "edge"@ || kind
                == "vivaldi"@ || kind == "firefox"@ || kind == "zen"@
        },
{
    reveal_strlit("chromium:");
    reveal_strlit("chromium");
    reveal_strlit("chrome:");
    reveal_strlit("chrome");
    reveal_strlit("brave:");
    reveal_strlit("brave");
    reveal_strlit("edge:");
    reveal_strlit("edge");
    reveal_strlit("vivaldi:");
    reveal_strlit("vivaldi");
    reveal_strlit("firefox:");
    reveal_strlit("firefox");
    reveal_strlit("zen:");
    reveal_strlit("zen");
    reveal_strlit(":");
    assert("chromium:"@ =~= "chromium"@ + ":"@);
    assert("chrome:"@ =~= "chrome"@ + ":"@);
    assert("brave:"@ =~= "brave"@ + ":"@);
    assert("edge:"@ =~= "edge"@ + ":"@);
    assert("vivaldi:"@ =~= "vivaldi"@ + ":"@);
    assert("firefox:"@ =~= "firefox"@ + ":"@);
    assert("zen:"@ =~= "zen"@ + ":"@);
    lemma_plan_of_spec("chromium"@, path);
    lemma_plan_of_spec("chrome"@, path);
    lemma_plan_of_spec("brave"@, path);
    lemma_plan_of_spec("edge"@, path);
    lemma_plan_of_spec("vivaldi"@, path);
    lemma_plan_of_spec("firefox"@, path);
    lemma_plan_of_spec("zen"@, path);
    assert("firefox"@[0] == 'f');
    assert("zen"@[0] == 'z');
    assert("chromium"@[0] == 'c' && "chrome"@[0] == 'c' && "brave"@[0] == 'b' && "edge"@[0] == 'e'
        && "vivaldi"@[0] == 'v');
    if forall|i: int| 0 <= i < kind.len() ==> #[trigger] kind[i] != ':' {
        lemma_plan_of_spec(kind, path);
        crate::text::lemma_first_place(kind, ':');
    }
}

/// Whatever profile is found can be read: the source that stands for a
/// cookie base leads to the profile that the base lies in, in the way of
/// its browser. A base of Chromium may lie one directory deeper.
pub proof fn lemma_found_profiles_can_be_read(db: Seq<char>)
    ensures
        plan_of(firefox_source_of(db)) == Ok::<CookiePlanView, CoreErrorView>(
            CookiePlanView::Firefox(
                match path_parent(db) {
                    Some(dir) => dir,
                    None => db,
                },
            ),
        ),
        plan_of(chromium_source_of(db)) == Ok::<CookiePlanView, CoreErrorView>(
            CookiePlanView::Chromium(
                match path_parent(db) {
                    Some(dir) => if path_file_name(dir) == Some("Network"@) {
                        match path_parent(dir) {
                            Some(above) => above,
                            None => db,
                        }
                    } else {
                        dir
                    },
                    None => db,
                },
            ),
        ),
{
    let firefox = match path_parent(db) {
        Some(dir) => dir,
        None => db,
    };
    let chromium = chromium_profile(
        db,
        path_parent(db),
        directory_name(path_parent(db)),
        directory_above(path_parent(db)),
    );
    lemma_every_known_browser_can_be_read(Seq::empty(), firefox);
    lemma_every_known_browser_can_be_read(Seq::empty(), chromium);
}

/// A source of cookies is handed on as it is: a profile as a profile, a file
/// as a file.
pub proof fn lemma_sources_are_handed_on(text: Seq<char>)
    ensures
        ({
            let browser = ytdlp_args_of(CookieSourceView::Browser { spec: text });
            let file = ytdlp_args_of(CookieSourceView::File { path: text });
            &&& browser.len() == 2 && browser[0] == "--cookies-from-browser"@ && browser[1] == text
            &&& file.len() == 2 && file[0] == "--cookies"@ && file[1] == text
        }),
{
}

proof fn lemma_bare_host(bare: Seq<char>, suffix: Seq<char>)
    requires
        bare.len() == 0 || bare[0] != '.',
    ensures
        host_in(bare, suffix) <==> bare == suffix || (bare.len() > suffix.len() && ends_with_text(
            bare,
            suffix,
        ) && bare[bare.len() - suffix.len() - 1] == '.'),
{
    reveal_strlit(".");
    if starts_with_text(bare, "."@) {
        assert(bare.subrange(0, 1)[0] == bare[0]);
    }
}

proof fn lemma_dotted_host(rest: Seq<char>, suffix: Seq<char>)
    ensures
        host_in("."@ + rest, suffix) <==> rest == suffix || (rest.len() > suffix.len()
            && ends_with_text(rest, suffix) && rest[rest.len() - suffix.len() - 1] == '.'),
{
    crate::text::lemma_texts_are_found_where_they_stand(Seq::empty(), "."@, rest, rest);
}

/// A host belongs to a domain if it is the domain or lies under it, with or
/// without a dot before it. A host that merely ends in the domain's letters
/// does not.
pub proof fn lemma_hosts_belong_to_their_domain(sub: Seq<char>, domain: Seq<char>)
    ensures
        domain.len() > 0 && domain[0] != '.' ==> host_in(domain, domain),
        host_in("."@ + domain, domain),
        sub.len() > 0 && sub[0] != '.' ==> host_in(sub + "."@ + domain, domain),
        host_in("."@ + (sub + "."@ + domain), domain),
        sub.len() > 0 && sub[0] != '.' && sub.last() != '.' ==> !host_in(sub + domain, domain),
{
    let deep = sub + "."@ + domain;
    assert(deep.len() > domain.len() && deep[deep.len() - domain.len() - 1] == '.'
        && ends_with_text(deep, domain)) by {
        reveal_strlit(".");
        assert(deep.subrange(deep.len() - domain.len(), deep.len() as int) =~= domain);
    }
    lemma_dotted_host(domain, domain);
    lemma_dotted_host(deep, domain);
    if domain.len() > 0 && domain[0] != '.' {
        lemma_bare_host(domain, domain);
    }
    if sub.len() > 0 && sub[0] != '.' {
        assert(deep[0] == sub[0]);
        lemma_bare_host(deep, domain);
        let glued = sub + domain;
        assert(glued[0] == sub[0]);
        assert(glued[glued.len() - domain.len() - 1] == sub.last());
        lemma_bare_host(glued, domain);
    }
}

/// A line of a cookie file gives its name and value to the domain of its
/// host, marked as one for servers alone or not. Every other line that
/// begins with the mark of a comment gives nothing.
pub proof fn lemma_lines_give_their_cookies(
    host: Seq<char>,
    flag: Seq<char>,
    path: Seq<char>,
    secure: Seq<char>,
    expiry: Seq<char>,
    name: Seq<char>,
    value: Seq<char>,
    domain: Seq<char>,
    comment: Seq<char>,
)
    requires
        no_tab(host),
        no_tab(flag),
        no_tab(path),
        no_tab(secure),
        no_tab(expiry),
        no_tab(name),
        host.len() > 0,
        host[0] != '#',
        !is_white(host[0]),
    ensures
        ({
            let line = cookie_line(host, flag, path, secure, expiry, name, value);
            let gives = if host_in(host, domain) {
                Some((name, value))
            } else {
                None
            };
            &&& line_cookie(line, domain) == gives
            &&& line_cookie("#HttpOnly_"@ + line, domain) == gives
        }),
        !starts_with_text("#"@ + comment, "#HttpOnly_"@) ==> line_cookie("#"@ + comment, domain)
            is None,
{
    reveal_strlit("#HttpOnly_");
    reveal_strlit("#");
    let line = cookie_line(host, flag, path, secure, expiry, name, value);
    let r6 = value;
    let r5 = name.push('\t') + r6;
    let r4 = expiry.push('\t') + r5;
    let r3 = secure.push('\t') + r4;
    let r2 = path.push('\t') + r3;
    let r1 = flag.push('\t') + r2;
    assert(line == host.push('\t') + r1);
    crate::text::lemma_fields_lie_between_separators(host, r1, '\t', 7);
    crate::text::lemma_fields_lie_between_separators(flag, r2, '\t', 6);
    crate::text::lemma_fields_lie_between_separators(path, r3, '\t', 5);
    crate::text::lemma_fields_lie_between_separators(secure, r4, '\t', 4);
    crate::text::lemma_fields_lie_between_separators(expiry, r5, '\t', 3);
    crate::text::lemma_fields_lie_between_separators(name, r6, '\t', 2);
    crate::text::lemma_fields_lie_between_separators(Seq::empty(), r6, '\t', 1);
    let f = fields_text(line, '\t', 7);
    assert(f =~= seq![host, flag, path, secure, expiry, name, value]);
    crate::text::lemma_trimming_cuts_white_ends(line);
    assert(line[0] == host[0]);
    assert(trimmed(line).len() > 0) by {
        if trimmed(line).len() == 0 {
            let (from, to) = choose|from: int, to: int|
                {
                    &&& 0 <= from <= to <= line.len()
                    &&& trimmed(line) == #[trigger] line.subrange(from, to)
                    &&& forall|k: int| 0 <= k < from ==> is_white(#[trigger] line[k])
                    &&& forall|k: int| to <= k < line.len() ==> is_white(#[trigger] line[k])
                };
            assert(is_white(line[0]));
        }
    }
    assert(!starts_with_text(line, "#"@)) by {
        if starts_with_text(line, "#"@) {
            assert(line.subrange(0, 1)[0] == line[0]);
        }
    }
    assert(!starts_with_text(line, "#HttpOnly_"@)) by {
        if starts_with_text(line, "#HttpOnly_"@) {
            assert(line.subrange(0, "#HttpOnly_"@.len() as int)[0] == line[0]);
        }
    }
    crate::text::lemma_texts_are_found_where_they_stand(Seq::empty(), "#HttpOnly_"@, line, line);
    crate::text::lemma_texts_are_found_where_they_stand(Seq::empty(), "#"@, comment, comment);
}

/// A field holds no tab.
pub open spec fn no_tab(s: Seq<char>) -> bool {
    forall|i: int| 0 <= i < s.len() ==> #[trigger] s[i] != '\t'
}

/// A line of a cookie file: seven fields with tabs between them.
pub open spec fn cookie_line(
    host: Seq<char>,
    flag: Seq<char>,
    path: Seq<char>,
    secure: Seq<char>,
    expiry: Seq<char>,
    name: Seq<char>,
    value: Seq<char>,
) -> Seq<char> {
    host.push('\t') + (flag.push('\t') + (path.push('\t') + (secure.push('\t') + (expiry.push(
        '\t',
    ) + (name.push('\t') + value)))))
}

/// A jar holds, of each name, the value that was given last, and never an
/// empty one. `at` stands for a place among what was given.
pub proof fn lemma_jar_keeps_the_last_value(
    jar: Seq<(Seq<char>, Seq<char>)>,
    pairs: Seq<(Seq<char>, Seq<char>)>,
    at: int,
)
    requires
        holds(jar, pairs),
        0 <= at < pairs.len(),
    ensures
        pairs[at].0.len() > 0 && pairs[at].1.len() > 0 && (forall|k: int|
            at < k < pairs.len() ==> (#[trigger] pairs[k]).0 != pairs[at].0 || pairs[k].1.len()
                == 0) ==> lookup(jar, pairs[at].0) == Some(pairs[at].1),
        (forall|k: int|
            0 <= k < pairs.len() ==> (#[trigger] pairs[k]).0 != pairs[at].0 || pairs[k].1.len()
                == 0) ==> lookup(jar, pairs[at].0) is None,
        lookup(jar, Seq::empty()) is None,
{
    assert(lookup(jar, pairs[at].0) == last_value(pairs, pairs[at].0));
    assert(lookup(jar, Seq::empty()) == last_value(pairs, Seq::empty()));
    lemma_last_value(pairs, pairs[at].0);
    lemma_last_value(pairs, Seq::empty());
}

proof fn lemma_last_value(pairs: Seq<(Seq<char>, Seq<char>)>, key: Seq<char>)
    ensures
        match last_value(pairs, key) {
            Some(v) => key.len() > 0 && v.len() > 0 && exists|k: int|
                0 <= k < pairs.len() && #[trigger] pairs[k] == (key, v) && forall|j: int|
                    k < j < pairs.len() ==> (#[trigger] pairs[j]).0 != key || pairs[j].1.len() == 0,
            None => key.len() == 0 || forall|k: int|
                0 <= k < pairs.len() ==> (#[trigger] pairs[k]).0 != key || pairs[k].1.len() == 0,
        },
    decreases pairs.len(),
{
    if pairs.len() > 0 {
        let before = pairs.drop_last();
        lemma_last_value(before, key);
        let n = pairs.len() - 1;
        if pairs.last().0 == key && kept(pairs.last().0, pairs.last().1) {
            assert(pairs[n] == (key, pairs.last().1));
        } else {
            match last_value(before, key) {
                Some(v) => {
                    let k = choose|k: int|
                        0 <= k < before.len() && #[trigger] before[k] == (key, v) && forall|j: int|
                            k < j < before.len() ==> (#[trigger] before[j]).0 != key
                                || before[j].1.len() == 0;
                    assert(pairs[k] == (key, v));
                    assert forall|j: int| k < j < pairs.len() implies (#[trigger] pairs[j]).0
                        != key || pairs[j].1.len() == 0 by {
                        if j < n {
                            assert(before[j] == pairs[j]);
                        }
                    }
                },
                None => {
                    if key.len() > 0 {
                        assert forall|j: int| 0 <= j < pairs.len() implies (
                        #[trigger] pairs[j]).0 != key || pairs[j].1.len() == 0 by {
                            if j < n {
                                assert(before[j] == pairs[j]);
                            }
                        }
                    }
                },
            }
        }
    }
}

/// The header names every cookie of a jar with its value, in their order.
pub proof fn lemma_header_names_every_cookie(
    jar: Seq<(Seq<char>, Seq<char>)>,
    name: Seq<char>,
    value: Seq<char>,
)
    ensures
        header_of(Seq::empty()) == Seq::<char>::empty(),
        header_of(seq![(name, value)]) == name + "="@ + value,
        jar.len() > 0 ==> header_of(jar.push((name, value))) == header_of(jar) + "; "@ + (name
            + "="@ + value),
{
    let f = |e: (Seq<char>, Seq<char>)| e.0 + "="@ + e.1;
    assert(seq![(name, value)].map_values(f) =~= seq![name + "="@ + value]);
    assert(jar.push((name, value)).map_values(f) =~= jar.map_values(f).push(
        name + "="@ + value,
    ));
    assert(Seq::<(Seq<char>, Seq<char>)>::empty().map_values(f) =~= Seq::empty());
    crate::text::lemma_parts_are_glued_in_order(
        jar.map_values(f),
        name + "="@ + value,
        "; "@,
    );
}

/// A file is read line by line, in its order.
pub proof fn lemma_files_are_read_line_by_line(
    lines: Seq<Seq<char>>,
    line: Seq<char>,
    domain: Seq<char>,
)
    ensures
        line_pairs(Seq::empty(), domain).len() == 0,
        line_pairs(lines.push(line), domain) == (match line_cookie(line, domain) {
            Some(pair) => line_pairs(lines, domain).push(pair),
            None => line_pairs(lines, domain),
        }),
{
    assert(lines.push(line).drop_last() =~= lines);
}

/// A value that is not encrypted counts before one that is; where there is
/// neither, the row gives nothing, and where decrypting fails, a reason.
pub proof fn lemma_rows_give_their_values(row: ChromiumRow, meta_version: i64)
    ensures
        row.plain matches Some(p) ==> p@.len() > 0 ==> row_value(row, meta_version) == Ok::<
            Option<Seq<char>>,
            Seq<char>,
        >(Some(p@)),
        !(row.plain matches Some(p) && p@.len() > 0) && row.blob@.len() == 0 ==> row_value(
            row,
            meta_version,
        ) == Ok::<Option<Seq<char>>, Seq<char>>(None),
        !(row.plain matches Some(p) && p@.len() > 0) && row.blob@.len() > 0 ==> match decrypted(
            row.blob@,
            meta_version,
        ) {
            Ok(value) => row_value(row, meta_version) == Ok::<Option<Seq<char>>, Seq<char>>(
                Some(value),
            ),
            Err(reason) => row_value(row, meta_version) == Err::<Option<Seq<char>>, Seq<char>>(
                reason,
            ),
        },
{
}

/// Every row gives its own value under its own name, and a row that cannot
/// be decrypted costs itself alone.
pub proof fn lemma_rows_are_gathered_in_order(
    rows: Seq<Result<ChromiumRow, String>>,
    row: ChromiumRow,
    plain: Seq<Result<(String, String), String>>,
    pair: (String, String),
    meta_version: i64,
)
    ensures
        row_pairs(Seq::empty(), meta_version).len() == 0,
        row_failures(Seq::empty(), meta_version).len() == 0,
        plain_pairs(Seq::empty()).len() == 0,
        match row_value(row, meta_version) {
            Ok(Some(v)) => row_pairs(rows.push(Ok(row)), meta_version) == row_pairs(
                rows,
                meta_version,
            ).push((row.name@, v)) && row_failures(rows.push(Ok(row)), meta_version)
                == row_failures(rows, meta_version),
            Ok(None) => row_pairs(rows.push(Ok(row)), meta_version) == row_pairs(
                rows,
                meta_version,
            ) && row_failures(rows.push(Ok(row)), meta_version) == row_failures(
                rows,
                meta_version,
            ),
            Err(reason) => row_pairs(rows.push(Ok(row)), meta_version) == row_pairs(
                rows,
                meta_version,
            ) && row_failures(rows.push(Ok(row)), meta_version) == row_failures(
                rows,
                meta_version,
            ).push(reason),
        },
        plain_pairs(plain.push(Ok(pair))) == plain_pairs(plain).push((pair.0@, pair.1@)),
{
    assert(rows.push(Ok(row)).drop_last() =~= rows);
    assert(plain.push(Ok(pair)).drop_last() =~= plain);
}

/// A profile is considered when a cookie base lies in it; where only the
/// release's own profile will do, its name has to say so.
pub proof fn lemma_profiles_with_a_base_are_considered(dir: ProfileDir, stem: Seq<char>)
    ensures
        !dir.has_db ==> !eligible(dir, true) && !eligible(dir, false),
        dir.has_db ==> eligible(dir, false),
        dir.has_db && dir.name@ == stem + ".default-release"@ ==> eligible(dir, true),
        eligible(dir, true) ==> ends_with_text(dir.name@, ".default-release"@),
{
    lemma_texts_are_found_where_they_stand(
        stem,
        ".default-release"@,
        Seq::empty(),
        dir.name@,
    );
}

/// A cookie base of the Chromium family is looked for in the profile, also
/// in its directory for the network, and then as if the browser's root had
/// been named, in the profile that is there by default.
pub proof fn lemma_bases_lie_in_known_places(profile: Seq<char>)
    requires
        profile.len() > 0,
    ensures
        ({
            let places = chromium_layouts(profile);
            let default = chromium_layouts(path_joined(profile, "Default"@));
            &&& places.len() == 4
            &&& places[0] == path_joined(profile, "Cookies"@)
            &&& places[1] == path_joined(path_joined(profile, "Network"@), "Cookies"@)
            &&& places[2] == default[0]
            &&& places[3] == default[1]
        }),
{
    reveal_strlit("Default");
    reveal_strlit("Cookies");
    reveal_strlit("Network");
    reveal_strlit("Network/Cookies");
    reveal_strlit("Default/Cookies");
    reveal_strlit("Default/Network/Cookies");
    lemma_paths_are_joined_part_by_part(profile, "Network"@, "Cookies"@);
    lemma_paths_are_joined_part_by_part("Network"@, "Network"@, "Cookies"@);
    assert(path_joined("Network"@, "Cookies"@) =~= "Network/Cookies"@);
    lemma_paths_are_joined_part_by_part(profile, "Default"@, "Cookies"@);
    lemma_paths_are_joined_part_by_part("Default"@, "Default"@, "Cookies"@);
    assert(path_joined("Default"@, "Cookies"@) =~= "Default/Cookies"@);
    lemma_paths_are_joined_part_by_part(profile, "Default"@, "Network/Cookies"@);
    lemma_paths_are_joined_part_by_part("Default"@, "Default"@, "Network/Cookies"@);
    assert(path_joined("Default"@, "Network/Cookies"@) =~= "Default/Network/Cookies"@);
}

/// A profile that was found is named to the resolving program by its family
/// and directory: a Firefox base by the directory that it lies in, and one
/// of the Chromium family likewise, without the part for the network.
pub proof fn lemma_found_profiles_are_named_by_family(db: Seq<char>, dir: Seq<char>)
    requires
        path_parent(db) == Some(dir),
    ensures
        ytdlp_args_of(firefox_source_of(db)) == seq![
            "--cookies-from-browser"@,
            "firefox:"@ + dir,
        ],
        path_file_name(dir) != Some("Network"@) ==> ytdlp_args_of(chromium_source_of(db)) == seq![
            "--cookies-from-browser"@,
            "chromium:"@ + dir,
        ],
        path_file_name(dir) == Some("Network"@) ==> (path_parent(dir) matches Some(above)
            ==> ytdlp_args_of(chromium_source_of(db)) == seq![
            "--cookies-from-browser"@,
            "chromium:"@ + above,
        ]),
{
}

/// A row that cannot be read is told with the base that it is in.
pub proof fn lemma_broken_rows_are_told(db: Seq<char>, err: Seq<char>)
    ensures
        row_error(db, err) == (CoreErrorView::Cookies {
            path: db,
            reason: "строка cookies не прочиталась: "@ + err,
        }),
{
}

} // verus!
