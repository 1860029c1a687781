//! What friends see of the music: the presence that is shown in a profile.
//!
//! Moments are nanoseconds of the steady clock, unless they are called
//! milliseconds of the wall clock.

use vstd::prelude::*;

use crate::model::{scoped_text, PlaybackStatus, Track, TrackId, TrackView};
use crate::protocol::{Event, PlayerState, PlayerStateView};
use crate::text::{clone_opt, joined, opt_eq, opt_text};
use crate::time::{Duration, NANOS_PER_MILLI};
use crate::tray::{refreshes_icon, shows_on_icon};

verus! {

/// How far apart two updates are at least: more frequent ones are dropped
/// by the other side.
pub const MIN_UPDATE_INTERVAL: u128 = 15_000_000_000;

/// The first pause before a new attempt to connect, in seconds.
pub const RECONNECT_MIN: u64 = 5;

/// The longest pause, in seconds.
pub const RECONNECT_MAX: u64 = 60;

/// What is shown.
#[derive(Debug, PartialEq, Eq)]
pub struct PresenceData {
    pub details: String,
    pub state: Option<String>,
    pub large_image: Option<String>,
    pub large_text: Option<String>,
    /// Milliseconds since the Unix epoch.
    pub start_ms: Option<i64>,
    pub end_ms: Option<i64>,
}

#[verifier::ext_equal]
pub struct PresenceView {
    pub details: Seq<char>,
    pub state: Option<Seq<char>>,
    pub large_image: Option<Seq<char>>,
    pub large_text: Option<Seq<char>>,
    pub start_ms: Option<i64>,
    pub end_ms: Option<i64>,
}

impl View for PresenceData {
    type V = PresenceView;

    open spec fn view(&self) -> PresenceView {
        PresenceView {
            details: self.details@,
            state: opt_text(self.state),
            large_image: opt_text(self.large_image),
            large_text: opt_text(self.large_text),
            start_ms: self.start_ms,
            end_ms: self.end_ms,
        }
    }
}

/// The lowest 64 bits of a number, with a sign.
pub open spec fn low_signed(n: nat) -> int {
    let low = (n % 0x1_0000_0000_0000_0000) as int;
    if low < 0x8000_0000_0000_0000 {
        low
    } else {
        low - 0x1_0000_0000_0000_0000
    }
}

/// A span of nanoseconds in milliseconds.
pub open spec fn signed_millis(span: nat) -> int {
    low_signed(span / (NANOS_PER_MILLI as nat))
}

/// The length of an optional span.
pub open spec fn opt_span(d: Option<Duration>) -> Option<nat> {
    match d {
        Some(d) => Some(d@),
        None => None,
    }
}

fn millis_of(d: Duration) -> (r: i64)
    ensures
        r == signed_millis(d@),
{
    let ms: u128 = d.as_millis();
    let low: u128 = ms % 0x1_0000_0000_0000_0000;
    if low < 0x8000_0000_0000_0000 {
        low as i64
    } else {
        (low as i128 - 0x1_0000_0000_0000_0000) as i64
    }
}

/// When the track began, as its position tells.
pub open spec fn started_ms(position: nat, now_ms: i64) -> int {
    now_ms - signed_millis(position)
}

/// Whether the moments of a presence can be held.
pub open spec fn moments_fit(position: nat, duration: Option<nat>, now_ms: i64) -> bool {
    &&& i64::MIN <= started_ms(position, now_ms) <= i64::MAX
    &&& duration matches Some(d) ==> i64::MIN <= started_ms(position, now_ms) + signed_millis(d)
        <= i64::MAX
}

/// The presence of a track that plays: it began as long ago as its position
/// tells and ends one length after that. A field without content is not
/// there.
pub open spec fn presence_of(
    track: TrackView,
    position: nat,
    duration: Option<nat>,
    now_ms: i64,
) -> PresenceView {
    PresenceView {
        details: track.title,
        state: if joined(track.artists, ", "@).len() == 0 {
            None
        } else {
            Some(joined(track.artists, ", "@))
        },
        large_image: track.art_url,
        large_text: track.album,
        start_ms: Some(started_ms(position, now_ms) as i64),
        end_ms: match duration {
            Some(d) => Some((started_ms(position, now_ms) + signed_millis(d)) as i64),
            None => None,
        },
    }
}

pub fn presence_for(
    track: &Track,
    position: Duration,
    duration: Option<Duration>,
    now_ms: i64,
) -> (r: PresenceData)
    requires
        moments_fit(position@, opt_span(duration), now_ms),
    ensures
        r@ == presence_of(track@, position@, opt_span(duration), now_ms),
{
    let start: i64 = now_ms - millis_of(position);
    let artists = track.artist_line();
    proof {
        reveal_strlit("");
        assert(artists@.len() == 0 ==> artists@ =~= ""@);
    }
    let state: Option<String> = if artists.as_str().eq("") {
        None
    } else {
        Some(artists)
    };
    PresenceData {
        details: track.title.clone(),
        state,
        large_image: clone_opt(&track.art_url),
        large_text: clone_opt(&track.album),
        start_ms: Some(start),
        end_ms: match duration {
            Some(d) => Some(start + millis_of(d)),
            None => None,
        },
    }
}

/// The presence spans the track: its end lies one length after its start.
pub proof fn lemma_presence_spans_the_track(
    track: TrackView,
    position: nat,
    duration: nat,
    now_ms: i64,
)
    requires
        moments_fit(position, Some(duration), now_ms),
    ensures
        ({
            let p = presence_of(track, position, Some(duration), now_ms);
            p.end_ms->0 - p.start_ms->0 == signed_millis(duration)
        }),
{
}

/// A throttle that keeps updates apart. A change of track passes at once.
pub struct UpdateGate {
    last_track: Option<String>,
    last_at: Option<u128>,
}

#[verifier::ext_equal]
pub struct UpdateGateView {
    pub last_track: Option<Seq<char>>,
    pub last_at: Option<u128>,
}

impl View for UpdateGate {
    type V = UpdateGateView;

    closed spec fn view(&self) -> UpdateGateView {
        UpdateGateView { last_track: opt_text(self.last_track), last_at: self.last_at }
    }
}

impl Default for UpdateGate {
    fn default() -> (r: Self)
        ensures
            r@ == (UpdateGateView { last_track: None, last_at: None }),
    {
        UpdateGate { last_track: None, last_at: None }
    }
}

/// The text by which a throttle knows a track.
pub open spec fn gate_key(track: Option<&TrackId>) -> Option<Seq<char>> {
    match track {
        Some(id) => Some(scoped_text(id@)),
        None => None,
    }
}

impl UpdateGateView {
    /// Whether an update passes.
    pub open spec fn passes(self, key: Option<Seq<char>>, now: u128) -> bool {
        key != self.last_track || (match self.last_at {
            Some(at) => now - at >= MIN_UPDATE_INTERVAL,
            None => true,
        })
    }

    /// The throttle after an update was tried.
    pub open spec fn after(self, key: Option<Seq<char>>, now: u128) -> UpdateGateView {
        if self.passes(key, now) {
            UpdateGateView { last_track: key, last_at: Some(now) }
        } else {
            self
        }
    }

    /// The throttle after a pause.
    pub open spec fn opened(self) -> UpdateGateView {
        UpdateGateView { last_at: None, ..self }
    }
}

impl UpdateGate {
    /// Whether an update passes now.
    pub fn allows(&mut self, track_id: Option<&TrackId>, now: u128) -> (r: bool)
        ensures
            r == old(self)@.passes(gate_key(track_id), now),
            final(self)@ == old(self)@.after(gate_key(track_id), now),
    {
        let key: Option<String> = match track_id {
            Some(id) => Some(id.to_string()),
            None => None,
        };
        let changed: bool = !opt_eq(&key, &self.last_track);
        let enough: bool = match self.last_at {
            Some(at) => now >= at && now - at >= MIN_UPDATE_INTERVAL,
            None => true,
        };
        if changed || enough {
            self.last_track = key;
            self.last_at = Some(now);
            true
        } else {
            false
        }
    }

    /// A pause opens it: going on with the same track must not wait.
    pub fn reset(&mut self)
        ensures
            final(self)@ == old(self)@.opened(),
    {
        self.last_at = None;
    }
}

/// Updates of the same track keep their distance; another track and a
/// track after a pause pass at once.
pub proof fn lemma_gate_keeps_updates_apart(
    gate: UpdateGateView,
    key: Option<Seq<char>>,
    other: Option<Seq<char>>,
    now: u128,
    later: u128,
)
    requires
        gate.passes(key, now),
        key != other,
    ensures
        gate.after(key, now).passes(key, later) == (later - now >= MIN_UPDATE_INTERVAL),
        gate.after(key, now).passes(other, later),
        gate.after(key, now).opened().passes(key, later),
{
}

/// What is to be done about the profile.
#[derive(Debug, PartialEq, Eq)]
pub enum Op {
    Show(PresenceData),
    Clear,
}

#[verifier::ext_equal]
pub enum OpView {
    Show(PresenceView),
    Clear,
}

impl View for Op {
    type V = OpView;

    open spec fn view(&self) -> OpView {
        match *self {
            Op::Show(p) => OpView::Show(p@),
            Op::Clear => OpView::Clear,
        }
    }
}

pub open spec fn opt_op(o: Option<Op>) -> Option<OpView> {
    match o {
        Some(op) => Some(op@),
        None => None,
    }
}

/// The position of a state, from the start where it is not known.
pub open spec fn position_or_start(state: PlayerStateView) -> nat {
    match state.position {
        Some(d) => d@,
        None => 0,
    }
}

impl UpdateGateView {
    /// What follows from the player's state: what does not play is not
    /// shown.
    pub open spec fn step(
        self,
        state: PlayerStateView,
        now: u128,
        now_ms: i64,
    ) -> (UpdateGateView, Option<OpView>) {
        match state.track {
            Some(track) => {
                let key = Some(scoped_text(track.id));
                if state.status != PlaybackStatus::Playing {
                    (self.opened(), Some(OpView::Clear))
                } else if self.passes(key, now) {
                    (
                        self.after(key, now),
                        Some(
                            OpView::Show(
                                presence_of(
                                    track,
                                    position_or_start(state),
                                    opt_span(state.duration),
                                    now_ms,
                                ),
                            ),
                        ),
                    )
                } else {
                    (self, None)
                }
            },
            None => (self.opened(), Some(OpView::Clear)),
        }
    }
}

fn shown_position(state: &PlayerState) -> (r: Duration)
    ensures
        r@ == position_or_start(state@),
{
    match state.position {
        Some(d) => d,
        None => Duration::from_secs(0),
    }
}

impl UpdateGate {
    /// Decides about the profile after an event.
    pub fn presence_step(
        &mut self,
        event: &Event,
        state: &PlayerState,
        now: u128,
        now_ms: i64,
    ) -> (r: Option<Op>)
        requires
            moments_fit(position_or_start(state@), opt_span(state@.duration), now_ms),
        ensures
            if shows_on_icon(event@) {
                (final(self)@, opt_op(r)) == old(self)@.step(state@, now, now_ms)
            } else {
                final(self)@ == old(self)@ && r is None
            },
    {
        if !refreshes_icon(event) {
            return None;
        }
        match &state.track {
            Some(track) => {
                if state.status != PlaybackStatus::Playing {
                    self.reset();
                    return Some(Op::Clear);
                }
                if !self.allows(Some(&track.id), now) {
                    return None;
                }
                let position = shown_position(state);
                Some(Op::Show(presence_for(track, position, state.duration, now_ms)))
            },
            None => {
                self.reset();
                Some(Op::Clear)
            },
        }
    }
}

/// The pauses between attempts to connect.
pub struct Backoff {
    secs: u64,
}

impl View for Backoff {
    type V = u64;

    /// The next pause, in seconds.
    closed spec fn view(&self) -> u64 {
        self.secs
    }
}

/// The pause after this one: twice as long, up to the longest.
pub open spec fn longer_pause(secs: u64) -> u64 {
    if secs * 2 <= RECONNECT_MAX {
        (secs * 2) as u64
    } else {
        RECONNECT_MAX
    }
}

impl Backoff {
    pub open spec fn wf(&self) -> bool {
        RECONNECT_MIN <= self@ <= RECONNECT_MAX
    }

    pub fn new() -> (r: Self)
        ensures
            r.wf(),
            r@ == RECONNECT_MIN,
    {
        Backoff { secs: RECONNECT_MIN }
    }

    /// An attempt failed: the seconds to wait.
    pub fn failed(&mut self) -> (r: u64)
        requires
            old(self).wf(),
        ensures
            final(self).wf(),
            r == old(self)@,
            final(self)@ == longer_pause(old(self)@),
    {
        let pause: u64 = self.secs;
        self.secs = if pause * 2 <= RECONNECT_MAX {
            pause * 2
        } else {
            RECONNECT_MAX
        };
        pause
    }

    /// An attempt succeeded.
    pub fn connected(&mut self)
        ensures
            final(self).wf(),
            final(self)@ == RECONNECT_MIN,
    {
        self.secs = RECONNECT_MIN;
    }
}

/// Pauses never shrink while attempts fail, and never exceed the longest.
pub proof fn lemma_pauses_are_bounded(secs: u64)
    requires
        RECONNECT_MIN <= secs <= RECONNECT_MAX,
    ensures
        secs <= longer_pause(secs) <= RECONNECT_MAX,
        longer_pause(secs) == secs <==> secs == RECONNECT_MAX,
{
}

/// Friends see the title, the artists and the album as they are, and when
/// the track began and ends: as long ago as the position tells, and one
/// length after that. Without artists, album or length there is nothing in
/// their place.
pub proof fn lemma_friends_see_what_plays(
    track: TrackView,
    position_ms: u64,
    length_ms: u64,
    now_ms: i64,
)
    requires
        position_ms <= i64::MAX,
        length_ms <= i64::MAX,
        i64::MIN <= now_ms - position_ms,
        now_ms - position_ms + length_ms <= i64::MAX,
    ensures
        ({
            let p = presence_of(
                track,
                (position_ms * 1_000_000) as nat,
                Some((length_ms * 1_000_000) as nat),
                now_ms,
            );
            let open = presence_of(track, (position_ms * 1_000_000) as nat, None, now_ms);
            &&& p.details == track.title
            &&& p.large_image == track.art_url
            &&& p.large_text == track.album
            &&& p.start_ms == Some((now_ms - position_ms) as i64)
            &&& p.end_ms == Some((now_ms - position_ms + length_ms) as i64)
            &&& open.end_ms is None
            &&& open.start_ms == p.start_ms
            &&& track.artists.len() == 0 ==> p.state is None
            &&& p.state matches Some(s) ==> s == joined(track.artists, ", "@) && s.len() > 0
            &&& p.state is None ==> joined(track.artists, ", "@).len() == 0
        }),
{
    assert((position_ms * 1_000_000) as nat / 1_000_000 == position_ms) by (nonlinear_arith);
    assert((length_ms * 1_000_000) as nat / 1_000_000 == length_ms) by (nonlinear_arith);
}

/// What plays is shown, at the first moment and then every fifteen seconds
/// at most as long as the track is the same; what does not play is taken
/// down at once, and going on with it waits for nothing.
pub proof fn lemma_the_profile_follows_the_music(
    gate: UpdateGateView,
    state: PlayerStateView,
    now: u128,
    now_ms: i64,
    later: u128,
)
    ensures
        state.track is None || state.status != PlaybackStatus::Playing ==> gate.step(
            state,
            now,
            now_ms,
        ) == (UpdateGateView { last_at: None, ..gate }, Some(OpView::Clear)),
        state.track matches Some(track) ==> state.status == PlaybackStatus::Playing ==> {
            let (after, op) = gate.step(state, now, now_ms);
            let due = gate.last_track != Some(scoped_text(track.id)) || gate.last_at is None || now
                >= gate.last_at->0 + 15 * 1_000_000_000;
            &&& due ==> op == Some(
                OpView::Show(
                    presence_of(
                        track,
                        match state.position {
                            Some(d) => d@,
                            None => 0,
                        },
                        match state.duration {
                            Some(d) => Some(d@),
                            None => None,
                        },
                        now_ms,
                    ),
                ),
            ) && after.last_track == Some(scoped_text(track.id)) && after.last_at == Some(now)
            &&& !due ==> op is None && after == gate
        },
{
}

/// The pauses between attempts double, from five seconds up to a minute.
pub proof fn lemma_pauses_double_up_to_a_minute(secs: u64)
    requires
        RECONNECT_MIN <= secs <= RECONNECT_MAX,
    ensures
        RECONNECT_MIN == 5,
        secs <= 30 ==> longer_pause(secs) == secs + secs,
        secs > 30 ==> longer_pause(secs) == 60,
{
}

} // verus!
