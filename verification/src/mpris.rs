//! What desktop shells see of the player, in the terms of their protocol.

use vstd::prelude::*;

use crate::model::{Track, TrackView};
use crate::protocol::{Event, EventView, PlayerState, PlayerStateView};
use crate::text::{chars_of, clone_strings, concat2, concat3, opt_text, texts};
use crate::time::{Duration, NANOS_PER_MICRO};
use crate::tray::track_ref;

verus! {

/// The path of both interfaces.
pub const MPRIS_PATH: &'static str = "/org/mpris/MediaPlayer2";

/// The path that stands for no track.
pub const NO_TRACK_PATH: &'static str = "/org/mpris/MediaPlayer2/TrackList/NoTrack";

/// Whether a character may stand in a component of an object path.
pub open spec fn is_path_char(c: char) -> bool {
    ||| 'A' <= c <= 'Z'
    ||| 'a' <= c <= 'z'
    ||| '0' <= c <= '9'
    ||| c == '_'
}

/// A text with every other character replaced by `_`.
pub open spec fn path_component(part: Seq<char>) -> Seq<char> {
    part.map_values(
        |c: char|
            if is_path_char(c) {
                c
            } else {
                '_'
            },
    )
}

pub fn sanitize_component(part: &str) -> (r: String)
    ensures
        r@ == path_component(part@),
{
    let chars = chars_of(part);
    let ghost all = path_component(part@);
    let mut out = String::new();
    let mut i: usize = 0;
    while i < chars.len()
        invariant
            i <= chars@.len(),
            chars@ == part@,
            all == path_component(part@),
            out@ == all.subrange(0, i as int),
        decreases chars@.len() - i,
    {
        let c: char = chars[i];
        if ('A' <= c && c <= 'Z') || ('a' <= c && c <= 'z') || ('0' <= c && c <= '9') || c == '_' {
            out.push(c);
        } else {
            out.push('_');
        }
        i += 1;
        assert(out@ =~= all.subrange(0, i as int));
    }
    assert(all.subrange(0, i as int) =~= all);
    out
}

/// The path that stands for a track.
pub open spec fn track_path(track: Option<TrackView>) -> Seq<char> {
    match track {
        Some(t) => "/tmus/track/"@ + path_component(t.id.provider) + "/"@ + path_component(
            t.id.id,
        ),
        None => "/org/mpris/MediaPlayer2/TrackList/NoTrack"@,
    }
}

pub fn track_object_path(track: Option<&Track>) -> (r: String)
    ensures
        r@ == track_path(track_ref(track)),
{
    match track {
        Some(t) => {
            let head = concat3(
                "/tmus/track/",
                sanitize_component(t.id.provider.as_str()).as_str(),
                "/",
            );
            concat2(head.as_str(), sanitize_component(t.id.id.as_str()).as_str())
        },
        None => "/org/mpris/MediaPlayer2/TrackList/NoTrack".to_owned(),
    }
}

/// Whether a text is an object path: components of legal characters, none
/// of them empty, each behind a slash.
pub open spec fn is_object_path(s: Seq<char>) -> bool {
    &&& s.len() >= 2
    &&& s[0] == '/'
    &&& s.last() != '/'
    &&& forall|i: int| 0 <= i < s.len() ==> #[trigger] s[i] == '/' || is_path_char(s[i])
    &&& forall|i: int| 0 <= i < s.len() - 1 && #[trigger] s[i] == '/' ==> s[i + 1] != '/'
}

/// The path of a track is an object path, whatever characters its id is
/// made of, as long as the id and the name of its source are not empty.
pub proof fn lemma_track_path_is_valid(track: TrackView)
    requires
        track.id.provider.len() > 0,
        track.id.id.len() > 0,
    ensures
        is_object_path(track_path(Some(track))),
        is_object_path(track_path(None)),
{
    reveal_strlit("/tmus/track/");
    reveal_strlit("/");
    reveal_strlit("/org/mpris/MediaPlayer2/TrackList/NoTrack");
    let head = "/tmus/track/"@;
    let a = path_component(track.id.provider);
    let b = path_component(track.id.id);
    let s = track_path(Some(track));
    let n = head.len() as int;
    let m = n + a.len();
    assert(s.len() == m + 1 + b.len());
    assert forall|i: int| 0 <= i < s.len() implies #[trigger] s[i] == '/' || is_path_char(
        s[i],
    ) by {
        if i < n {
            assert(s[i] == head[i]);
        } else if i < m {
            assert(s[i] == a[i - n]);
        } else if i > m {
            assert(s[i] == b[i - m - 1]);
        }
    }
    assert forall|i: int| 0 <= i < s.len() - 1 && #[trigger] s[i] == '/' implies s[i + 1]
        != '/' by {
        if i < n {
            assert(s[i] == head[i]);
            if i + 1 < n {
                assert(s[i + 1] == head[i + 1]);
            } else {
                assert(s[i + 1] == a[0]);
            }
        } else if i < m {
            assert(s[i] == a[i - n]);
        } else if i == m {
            assert(s[i + 1] == b[0]);
        } else {
            assert(s[i] == b[i - m - 1]);
        }
    }
    assert(s.last() == b.last());
}

/// A span in microseconds, as far as they can be held.
pub open spec fn micros_bounded(d: Duration) -> int {
    let micros = (d@ / (NANOS_PER_MICRO as nat)) as int;
    if micros <= i64::MAX {
        micros
    } else {
        i64::MAX as int
    }
}

pub fn length_micros(d: Duration) -> (r: i64)
    ensures
        r == micros_bounded(d),
{
    let micros: u128 = d.as_micros();
    if micros <= 0x7fff_ffff_ffff_ffff {
        micros as i64
    } else {
        i64::MAX
    }
}

/// A value among the metadata.
#[derive(Debug, PartialEq, Eq)]
pub enum MetaValue {
    /// An object path.
    Path(String),
    Text(String),
    List(Vec<String>),
    Number(i64),
}

#[verifier::ext_equal]
pub enum MetaValueView {
    Path(Seq<char>),
    Text(Seq<char>),
    List(Seq<Seq<char>>),
    Number(i64),
}

impl View for MetaValue {
    type V = MetaValueView;

    open spec fn view(&self) -> MetaValueView {
        match *self {
            MetaValue::Path(p) => MetaValueView::Path(p@),
            MetaValue::Text(s) => MetaValueView::Text(s@),
            MetaValue::List(v) => MetaValueView::List(texts(v@)),
            MetaValue::Number(n) => MetaValueView::Number(n),
        }
    }
}

/// A key and its value, by view.
pub open spec fn meta_views(v: Seq<(String, MetaValue)>) -> Seq<(Seq<char>, MetaValueView)> {
    v.map_values(|e: (String, MetaValue)| (e.0@, e.1@))
}

/// One entry, or none.
pub open spec fn text_entry(key: Seq<char>, value: Option<Seq<char>>) -> Seq<
    (Seq<char>, MetaValueView),
> {
    match value {
        Some(s) => seq![(key, MetaValueView::Text(s))],
        None => Seq::empty(),
    }
}

/// The metadata of a track: what is not known is not there.
pub open spec fn metadata_of(t: TrackView) -> Seq<(Seq<char>, MetaValueView)> {
    seq![
        ("mpris:trackid"@, MetaValueView::Path(track_path(Some(t)))),
        ("xesam:title"@, MetaValueView::Text(t.title)),
    ] + (if t.artists.len() > 0 {
        seq![("xesam:artist"@, MetaValueView::List(t.artists))]
    } else {
        Seq::empty()
    }) + text_entry("xesam:album"@, t.album) + text_entry("xesam:url"@, t.page_url) + (
    match t.duration {
        Some(d) => seq![("mpris:length"@, MetaValueView::Number(micros_bounded(d) as i64))],
        None => Seq::empty(),
    }) + text_entry("mpris:artUrl"@, t.art_url)
}

fn put(md: &mut Vec<(String, MetaValue)>, key: &str, value: MetaValue)
    ensures
        meta_views(final(md)@) == meta_views(old(md)@).push((key@, value@)),
{
    let ghost before = md@;
    let ghost view = value@;
    md.push((key.to_owned(), value));
    assert(meta_views(md@) =~= meta_views(before).push((key@, view)));
}

fn put_text(md: &mut Vec<(String, MetaValue)>, key: &str, value: &Option<String>)
    ensures
        meta_views(final(md)@) == meta_views(old(md)@) + text_entry(key@, opt_text(*value)),
{
    let ghost before = meta_views(md@);
    if let Some(s) = value {
        put(md, key, MetaValue::Text(s.clone()));
    }
    assert(meta_views(md@) =~= before + text_entry(key@, opt_text(*value)));
}

/// The metadata of a track.
pub fn build_metadata(track: &Track) -> (r: Vec<(String, MetaValue)>)
    ensures
        meta_views(r@) == metadata_of(track@),
{
    let ghost t = track@;
    let mut md: Vec<(String, MetaValue)> = Vec::new();
    assert(meta_views(md@) =~= Seq::empty());
    put(&mut md, "mpris:trackid", MetaValue::Path(track_object_path(Some(track))));
    put(&mut md, "xesam:title", MetaValue::Text(track.title.clone()));
    let ghost head = seq![
        ("mpris:trackid"@, MetaValueView::Path(track_path(Some(t)))),
        ("xesam:title"@, MetaValueView::Text(t.title)),
    ];
    assert(meta_views(md@) =~= head);
    if track.artists.len() > 0 {
        put(&mut md, "xesam:artist", MetaValue::List(clone_strings(&track.artists)));
    }
    let ghost artists = if t.artists.len() > 0 {
        seq![("xesam:artist"@, MetaValueView::List(t.artists))]
    } else {
        Seq::empty()
    };
    assert(meta_views(md@) =~= head + artists);
    put_text(&mut md, "xesam:album", &track.album);
    put_text(&mut md, "xesam:url", &track.page_url);
    let ghost sofar = meta_views(md@);
    if let Some(d) = track.duration {
        put(&mut md, "mpris:length", MetaValue::Number(length_micros(d)));
    }
    assert(meta_views(md@) =~= sofar + (match t.duration {
        Some(d) => seq![("mpris:length"@, MetaValueView::Number(micros_bounded(d) as i64))],
        None => Seq::empty(),
    }));
    put_text(&mut md, "mpris:artUrl", &track.art_url);
    md
}

/// Whether there is a track after the current one.
pub fn can_go_next(state: &PlayerState) -> (r: bool)
    ensures
        r == (state@.queue_index matches Some(i) && i + 1 < state@.queue_len),
{
    match state.queue_index {
        Some(i) => i < state.queue_len && state.queue_len - i > 1,
        None => false,
    }
}

/// Whether there is a track before the current one.
pub fn can_go_previous(state: &PlayerState) -> (r: bool)
    ensures
        r == (state@.queue_index matches Some(i) && i > 0),
{
    match state.queue_index {
        Some(i) => i > 0,
        None => false,
    }
}

/// Where to go in the track when a shell asks for a position. It names the
/// track that it means: for another one than plays nothing happens.
pub open spec fn asked_position(
    state: PlayerStateView,
    track: Seq<char>,
    position: i64,
) -> Option<nat> {
    if track == track_path(state.track) {
        Some(
            if position < 0 {
                0
            } else {
                position as nat * (NANOS_PER_MICRO as nat)
            },
        )
    } else {
        None
    }
}

pub fn set_position(state: &PlayerState, track: &str, position: i64) -> (r: Option<Duration>)
    ensures
        (match r {
            Some(d) => Some(d@),
            None => None,
        }) == asked_position(state@, track@, position),
{
    let current: Option<&Track> = match &state.track {
        Some(t) => Some(t),
        None => None,
    };
    if !track.eq(track_object_path(current).as_str()) {
        return None;
    }
    let micros: u128 = if position < 0 {
        0
    } else {
        position as u128
    };
    Duration::from_nanos(micros * NANOS_PER_MICRO)
}

/// What a shell is told after an event.
#[derive(Clone, Copy, Debug, PartialEq, Eq, Structural)]
pub enum Notice {
    Nothing,
    /// All that goes with the state.
    Properties,
    /// The same, and the position jumped to this many microseconds.
    Seeked { position: i64 },
}

/// The position of a state in microseconds.
pub open spec fn position_micros(state: PlayerStateView) -> int {
    match state.position {
        Some(d) => micros_bounded(d),
        None => 0,
    }
}

/// The state that shells see after an event, and what they are told.
/// `fresh` is the player's state at this moment.
pub open spec fn after_event(
    known: PlayerStateView,
    event: EventView,
    fresh: PlayerStateView,
) -> (PlayerStateView, Notice) {
    match event {
        EventView::TrackChanged { .. } => (
            fresh,
            Notice::Seeked { position: position_micros(fresh) as i64 },
        ),
        EventView::StateChanged { state } => (state, Notice::Properties),
        EventView::Position { position, duration } => (
            PlayerStateView {
                position: Some(position),
                duration: if duration is Some {
                    duration
                } else {
                    known.duration
                },
                ..known
            },
            Notice::Nothing,
        ),
        _ => (known, Notice::Nothing),
    }
}

/// Takes note of an event. The position is only kept: shells ask for it.
pub fn note_event(known: &mut PlayerState, event: &Event, fresh: PlayerState) -> (r: Notice)
    ensures
        (final(known)@, r) == after_event(old(known)@, event@, fresh@),
{
    match event {
        Event::TrackChanged { .. } => {
            let position: i64 = match fresh.position {
                Some(d) => length_micros(d),
                None => 0,
            };
            *known = fresh;
            Notice::Seeked { position }
        },
        Event::StateChanged { state } => {
            *known = state.clone();
            Notice::Properties
        },
        Event::Position { position, duration } => {
            known.position = Some(*position);
            if duration.is_some() {
                known.duration = *duration;
            }
            Notice::Nothing
        },
        _ => Notice::Nothing,
    }
}

/// Letters, digits and `_` stay in a component of a path as they are, and
/// any other character becomes `_`; so two tracks whose ids are made of
/// these alone have different paths, and no track has that of none.
pub proof fn lemma_tracks_are_told_apart_by_their_paths(a: TrackView, b: TrackView, i: int)
    ensures
        path_component(a.id.id).len() == a.id.id.len(),
        0 <= i < a.id.id.len() ==> {
            let c = a.id.id[i];
            path_component(a.id.id)[i] == if 'a' <= c <= 'z' || 'A' <= c <= 'Z' || '0' <= c <= '9'
                || c == '_' {
                c
            } else {
                '_'
            }
        },
        path_component(a.id.id) == a.id.id && path_component(a.id.provider) == a.id.provider
            && path_component(b.id.id) == b.id.id && path_component(b.id.provider)
            == b.id.provider && track_path(Some(a)) == track_path(Some(b)) ==> a.id == b.id,
        track_path(Some(a)) != track_path(None),
{
    reveal_strlit("/tmus/track/");
    reveal_strlit("/org/mpris/MediaPlayer2/TrackList/NoTrack");
    reveal_strlit("/");
    let head = "/tmus/track/"@;
    assert(track_path(Some(a))[1] == head[1]);
    assert(track_path(None)[1] == 'o');
    if path_component(a.id.id) == a.id.id && path_component(a.id.provider) == a.id.provider
        && path_component(b.id.id) == b.id.id && path_component(b.id.provider) == b.id.provider
        && track_path(Some(a)) == track_path(Some(b)) {
        let s = track_path(Some(a));
        let n = head.len() as int;
        let p = a.id.provider;
        let q = b.id.provider;
        assert(s == head + p + "/"@ + a.id.id);
        assert(s == head + q + "/"@ + b.id.id);
        if p.len() < q.len() {
            assert(s[n + p.len()] == '/');
            assert(s[n + p.len()] == q[p.len() as int]);
            assert(path_component(q)[p.len() as int] != '/');
        }
        if q.len() < p.len() {
            assert(s[n + q.len()] == '/');
            assert(s[n + q.len()] == p[q.len() as int]);
            assert(path_component(p)[q.len() as int] != '/');
        }
        assert(p =~= s.subrange(n, n + p.len()));
        assert(q =~= s.subrange(n, n + q.len()));
        assert(a.id.id =~= s.subrange(n + p.len() + 1, s.len() as int));
        assert(b.id.id =~= s.subrange(n + q.len() + 1, s.len() as int));
        assert(a.id =~= b.id);
    }
}

/// Shells are told what is known of a track, under the names of their
/// protocol, and nothing of what is not known.
pub proof fn lemma_metadata_tells_what_is_known(t: TrackView)
    ensures
        ({
            let md = metadata_of(t);
            let opt = |b: bool|
                if b {
                    1int
                } else {
                    0int
                };
            &&& md.contains(("mpris:trackid"@, MetaValueView::Path(track_path(Some(t)))))
            &&& md.contains(("xesam:title"@, MetaValueView::Text(t.title)))
            &&& t.artists.len() > 0 ==> md.contains(
                ("xesam:artist"@, MetaValueView::List(t.artists)),
            )
            &&& t.album matches Some(s) ==> md.contains(("xesam:album"@, MetaValueView::Text(s)))
            &&& t.page_url matches Some(s) ==> md.contains(("xesam:url"@, MetaValueView::Text(s)))
            &&& t.art_url matches Some(s) ==> md.contains(("mpris:artUrl"@, MetaValueView::Text(s)))
            &&& t.duration matches Some(d) ==> md.contains(
                ("mpris:length"@, MetaValueView::Number(micros_bounded(d) as i64)),
            )
            &&& md.len() == 2 + opt(t.artists.len() > 0) + opt(t.album is Some) + opt(
                t.page_url is Some,
            ) + opt(t.duration is Some) + opt(t.art_url is Some)
        }),
{
    let md = metadata_of(t);
    let a = if t.artists.len() > 0 {
        1int
    } else {
        0int
    };
    let b = a + text_entry("xesam:album"@, t.album).len();
    let c = b + text_entry("xesam:url"@, t.page_url).len();
    let d = c + if t.duration is Some {
        1int
    } else {
        0int
    };
    assert(md[0] == ("mpris:trackid"@, MetaValueView::Path(track_path(Some(t)))));
    assert(md[1] == ("xesam:title"@, MetaValueView::Text(t.title)));
    if t.artists.len() > 0 {
        assert(md[2] == ("xesam:artist"@, MetaValueView::List(t.artists)));
    }
    if let Some(s) = t.album {
        assert(md[2 + a] == ("xesam:album"@, MetaValueView::Text(s)));
    }
    if let Some(s) = t.page_url {
        assert(md[2 + b] == ("xesam:url"@, MetaValueView::Text(s)));
    }
    if let Some(x) = t.duration {
        assert(md[2 + c] == ("mpris:length"@, MetaValueView::Number(micros_bounded(x) as i64)));
    }
    if let Some(s) = t.art_url {
        assert(md[2 + d] == ("mpris:artUrl"@, MetaValueView::Text(s)));
    }
}

/// A position that a shell asks for counts in microseconds, from the start
/// where it is negative, and only for the track that is shown.
pub proof fn lemma_positions_are_for_the_shown_track(
    state: PlayerStateView,
    track: Seq<char>,
    micros: u64,
)
    requires
        micros <= i64::MAX,
    ensures
        asked_position(state, track_path(state.track), micros as i64) == Some(
            (micros * 1000) as nat,
        ),
        asked_position(state, track_path(state.track), -1i64) == Some(0nat),
        track != track_path(state.track) ==> asked_position(state, track, micros as i64) is None,
        state.position matches Some(d) ==> d@ == micros * 1000 ==> position_micros(state) == micros,
        state.position is None ==> position_micros(state) == 0,
{
    if let Some(d) = state.position {
        if d@ == micros * 1000 {
            assert(d@ / 1000 == micros) by (nonlinear_arith)
                requires
                    d@ == micros * 1000,
            ;
        }
    }
}

/// Shells follow the player: another track brings the state of this moment
/// and a jump to its position, a change of state brings that state, and a
/// position is kept without a word. Nothing else concerns them.
pub proof fn lemma_shells_follow_the_player(
    known: PlayerStateView,
    event: EventView,
    fresh: PlayerStateView,
)
    ensures
        ({
            let (after, notice) = after_event(known, event, fresh);
            &&& event is TrackChanged ==> after == fresh && (notice matches Notice::Seeked {
                position,
            } && position == position_micros(fresh) as i64)
            &&& event matches EventView::StateChanged { state } ==> after == state && notice
                == Notice::Properties
            &&& event matches EventView::Position { position, duration } ==> {
                &&& notice == Notice::Nothing
                &&& after.position == Some(position)
                &&& after.duration == (if duration is Some {
                    duration
                } else {
                    known.duration
                })
                &&& after.track == known.track && after.status == known.status && after.volume
                    == known.volume
            }
            &&& !(event is TrackChanged || event is StateChanged || event is Position) ==> after
                == known && notice == Notice::Nothing
        }),
{
}

} // verus!
