//! Filling the offline cache: which tracks are fetched, when a failure is
//! tried again, and how a download goes.
//!
//! Moments are nanoseconds of the steady clock.

use vstd::prelude::*;

use crate::cache::{audio_name, audio_path};
use crate::catalog::id_views;
use crate::model::{
    track_views, LoopMode, ScopedIdView, StreamSource, StreamSourceView, TrackId, TrackView,
};
use crate::paths::{path_joined, Paths};
use crate::player::{Player, PlayerView};
use crate::protocol::{Event, EventView};
use crate::queue::QueueModel;
use crate::text::{
    concat2, concat3, decimal, decimal_text, ends_with_text, lemma_decimal_round_trip, opt_text,
    parse_u64, parsed_u64,
};
use crate::time::{Duration, SystemTime, NANOS_PER_SEC};

verus! {

/// How many tracks ahead are fetched.
pub const PREFETCH_DEPTH: usize = 3;

/// How far apart two reports of progress are at least.
pub const PROGRESS_INTERVAL: u128 = 500_000_000;

/// How far apart two looks at whether a track is still wanted are at least.
pub const RELEVANCE_INTERVAL: u128 = 1_000_000_000;

/// How much is asked for at a time where a server wants ranges: larger ones
/// are refused.
pub const RANGE_CHUNK: u64 = 1_048_576;

/// Whether enough time has passed for another report. The last one always
/// goes out, so that everyone sees the end.
pub open spec fn report_due(last: u128, now: u128, done: bool) -> bool {
    done || now - last >= PROGRESS_INTERVAL
}

pub fn should_emit(last: u128, now: u128, done: bool) -> (r: bool)
    ensures
        r == report_due(last, now, done),
{
    done || (now >= last && now - last >= PROGRESS_INTERVAL)
}

/// Whether a track is worth fetching: it plays, or it comes soon.
pub open spec fn is_wanted(
    id: ScopedIdView,
    current: Option<ScopedIdView>,
    ahead: Seq<ScopedIdView>,
) -> bool {
    current == Some(id) || ahead.contains(id)
}

pub open spec fn opt_id_ref(o: Option<&TrackId>) -> Option<ScopedIdView> {
    match o {
        Some(id) => Some(id@),
        None => None,
    }
}

pub fn still_wanted(id: &TrackId, current: Option<&TrackId>, ahead: &[TrackId]) -> (r: bool)
    ensures
        r == is_wanted(id@, opt_id_ref(current), id_views(ahead@)),
{
    if let Some(c) = current {
        if *c == *id {
            return true;
        }
    }
    let mut i: usize = 0;
    while i < ahead.len()
        invariant
            i <= ahead@.len(),
            forall|k: int| 0 <= k < i ==> #[trigger] id_views(ahead@)[k] != id@,
        decreases ahead@.len() - i,
    {
        assert(id_views(ahead@)[i as int] == ahead@[i as int]@);
        if ahead[i] == *id {
            assert(id_views(ahead@).contains(id@));
            return true;
        }
        i += 1;
    }
    false
}

/// The ids of tracks.
pub open spec fn ids_of(tracks: Seq<TrackView>) -> Seq<ScopedIdView> {
    tracks.map_values(|t: TrackView| t.id)
}

/// What plays and what comes next, as far as it is fetched ahead.
pub open spec fn fetch_window(player: PlayerView) -> (Option<ScopedIdView>, Seq<ScopedIdView>) {
    (
        match player.shown().track {
            Some(t) => Some(t.id),
            None => None,
        },
        match player.queue.cursor {
            Some(c) => ids_of(player.queue.ahead(c, PREFETCH_DEPTH as nat)),
            None => Seq::empty(),
        },
    )
}

pub open spec fn opt_id_view(o: Option<TrackId>) -> Option<ScopedIdView> {
    match o {
        Some(id) => Some(id@),
        None => None,
    }
}

/// What plays and what comes next.
pub fn relevance_snapshot(player: &Player) -> (r: (Option<TrackId>, Vec<TrackId>))
    requires
        player.wf(),
    ensures
        (opt_id_view(r.0), id_views(r.1@)) == fetch_window(player@),
{
    let current: Option<TrackId> = match player.state().track {
        Some(t) => Some(t.id),
        None => None,
    };
    let tracks = player.queue().peek_ahead(PREFETCH_DEPTH);
    let ghost all = ids_of(track_views(tracks@));
    let mut ahead: Vec<TrackId> = Vec::new();
    let mut i: usize = 0;
    while i < tracks.len()
        invariant
            i <= tracks@.len(),
            all == ids_of(track_views(tracks@)),
            id_views(ahead@) == all.subrange(0, i as int),
        decreases tracks@.len() - i,
    {
        let ghost had = id_views(ahead@);
        ahead.push(tracks[i].id.clone());
        i += 1;
        assert(id_views(ahead@) =~= had.push(all[i - 1]));
        assert(id_views(ahead@) =~= all.subrange(0, i as int));
    }
    assert(all.subrange(0, i as int) =~= all);
    (current, ahead)
}

/// All tracks of a window, in order.
pub open spec fn window_ids(window: (Option<ScopedIdView>, Seq<ScopedIdView>)) -> Seq<
    ScopedIdView,
> {
    match window.0 {
        Some(id) => seq![id] + window.1,
        None => window.1,
    }
}

/// The tracks to be fetched: the one that plays, then those to come.
pub fn wanted_tracks(player: &Player) -> (r: Vec<TrackId>)
    requires
        player.wf(),
    ensures
        id_views(r@) == window_ids(fetch_window(player@)),
{
    let (current, ahead) = relevance_snapshot(player);
    let mut ahead = ahead;
    let ghost rest = id_views(ahead@);
    let mut out: Vec<TrackId> = Vec::new();
    if let Some(id) = current {
        let ghost view = id@;
        out.push(id);
        assert(id_views(out@) =~= seq![view]);
    }
    let ghost head = id_views(out@);
    assert(current is None ==> head =~= Seq::empty());
    out.append(&mut ahead);
    assert(id_views(out@) =~= head + rest);
    out
}

/// Every track that is to be fetched is still wanted as long as nothing
/// moves: a download is not given up for standing too far ahead.
pub proof fn lemma_what_is_fetched_is_wanted(
    window: (Option<ScopedIdView>, Seq<ScopedIdView>),
    k: int,
)
    requires
        0 <= k < window_ids(window).len(),
    ensures
        is_wanted(window_ids(window)[k], window.0, window.1),
{
    if let Some(id) = window.0 {
        if k > 0 {
            assert(window_ids(window)[k] == window.1[k - 1]);
        }
    }
}

/// The pause after so many failures in a row, in seconds.
pub open spec fn delay_secs(failures: u32) -> u64 {
    if failures == 0 {
        0
    } else if failures == 1 {
        60
    } else if failures == 2 {
        300
    } else if failures == 3 {
        900
    } else {
        3600
    }
}

/// The pause after so many failures in a row.
pub fn next_delay(failures: u32) -> (r: Duration)
    ensures
        r@ == delay_secs(failures) * NANOS_PER_SEC,
{
    let secs: u64 = match failures {
        0 => 0,
        1 => 60,
        2 => 300,
        3 => 900,
        _ => 3600,
    };
    Duration::from_secs(secs)
}

/// The failures of one track.
#[derive(Clone, Copy, Debug, PartialEq, Eq, Structural)]
pub struct RetryState {
    pub failures: u32,
    /// Not to be tried before this moment.
    pub retry_after: Option<u128>,
    /// It can never be played: there is no use in trying again.
    pub unplayable: bool,
}

impl Default for RetryState {
    fn default() -> (r: Self)
        ensures
            r == RetryState::fresh(),
    {
        RetryState { failures: 0, retry_after: None, unplayable: false }
    }
}

impl RetryState {
    pub open spec fn fresh() -> RetryState {
        RetryState { failures: 0, retry_after: None, unplayable: false }
    }

    pub open spec fn cooling(self, now: u128) -> bool {
        self.retry_after matches Some(t) && now < t
    }

    /// The state after one more failure.
    pub open spec fn failed(self, now: u128) -> RetryState {
        let failures = (self.failures + 1) as u32;
        RetryState {
            failures,
            retry_after: Some((now + delay_secs(failures) * NANOS_PER_SEC) as u128),
            ..self
        }
    }

    /// Whether a failure at this moment can be counted.
    pub open spec fn countable(self, now: u128) -> bool {
        self.failures < u32::MAX && now + 3600 * NANOS_PER_SEC <= u128::MAX
    }

    /// Whether the track is to be left alone for now.
    pub fn in_cooldown(&self, now: u128) -> (r: bool)
        ensures
            r == self.cooling(now),
    {
        match self.retry_after {
            Some(t) => now < t,
            None => false,
        }
    }

    /// The track can never be played.
    pub fn record_unplayable(&mut self)
        ensures
            *final(self) == (RetryState { unplayable: true, retry_after: None, ..*old(self) }),
    {
        self.unplayable = true;
        self.retry_after = None;
    }

    /// Takes note of a failure. Tells whether the pause has grown.
    pub fn record_failure(&mut self, now: u128) -> (r: bool)
        requires
            old(self).countable(now),
        ensures
            *final(self) == old(self).failed(now),
            r == (final(self).failures <= 4),
    {
        self.failures = self.failures + 1;
        self.retry_after = Some(now + next_delay(self.failures).as_nanos());
        self.failures <= 4
    }

    /// A success wipes the series out.
    pub fn record_success(&mut self)
        ensures
            *final(self) == RetryState::fresh(),
    {
        self.failures = 0;
        self.retry_after = None;
        self.unplayable = false;
    }
}

/// The pause never shrinks from failure to failure, and it is over exactly
/// when it has passed.
pub proof fn lemma_pauses_grow(s: RetryState, now: u128, later: u128)
    requires
        s.countable(now),
    ensures
        delay_secs(s.failures) <= delay_secs(s.failed(now).failures),
        s.failed(now).cooling(later) == (later < now + delay_secs(s.failed(now).failures)
            * NANOS_PER_SEC),
        !RetryState::fresh().cooling(later),
        RetryState::fresh().failed(now).failures == 1,
{
    assert(delay_secs(s.failed(now).failures) * NANOS_PER_SEC <= 3600 * NANOS_PER_SEC);
}

/// The state after failures at these moments, one after the other, and no
/// success between them.
pub open spec fn failed_at(times: Seq<u128>) -> RetryState
    decreases times.len(),
{
    if times.len() == 0 {
        RetryState::fresh()
    } else {
        failed_at(times.drop_last()).failed(times.last())
    }
}

/// The pause after a series of failures goes by their number: a minute,
/// five minutes, a quarter of an hour, then an hour each time, counted from
/// the last of them.
pub proof fn lemma_pause_goes_by_the_failures(times: Seq<u128>, later: u128)
    requires
        0 < times.len() <= u32::MAX,
        forall|k: int|
            0 <= k < times.len() ==> (#[trigger] times[k]) + 3600 * NANOS_PER_SEC <= u128::MAX,
    ensures
        failed_at(times.drop_last()).countable(times.last()),
        failed_at(times).failures == times.len(),
        failed_at(times).cooling(later) == (later < times.last() + (if times.len() == 1 {
            60int
        } else if times.len() == 2 {
            300
        } else if times.len() == 3 {
            900
        } else {
            3600
        }) * NANOS_PER_SEC),
        !failed_at(times).unplayable,
    decreases times.len(),
{
    let before = times.drop_last();
    assert(times[times.len() - 1] == times.last());
    if before.len() > 0 {
        assert forall|k: int| 0 <= k < before.len() implies (#[trigger] before[k]) + 3600
            * NANOS_PER_SEC <= u128::MAX by {
            assert(before[k] == times[k]);
        }
        lemma_pause_goes_by_the_failures(before, later);
    }
    assert(failed_at(before).failures == before.len());
    lemma_pauses_grow(failed_at(before), times.last(), later);
}

/// How a fetch ended.
#[derive(Clone, Copy, Debug, PartialEq, Eq, Structural)]
pub enum FetchOutcome {
    /// It is there, or it is not wanted any more.
    Done,
    Failed,
    /// It can never be played.
    Unplayable,
}

/// The failures of all tracks, and the turns of the filler.
pub struct Filler {
    turns: u64,
    retries: Vec<(TrackId, RetryState)>,
}

#[verifier::ext_equal]
pub struct FillerView {
    /// The turns since the log of the base was cut last.
    pub turns: u64,
    pub retries: Seq<(ScopedIdView, RetryState)>,
}

impl View for Filler {
    type V = FillerView;

    closed spec fn view(&self) -> FillerView {
        FillerView {
            turns: self.turns,
            retries: self.retries@.map_values(|e: (TrackId, RetryState)| (e.0@, e.1)),
        }
    }
}

/// The first place at or after `from` at which a track's failures stand.
pub open spec fn retry_place(
    retries: Seq<(ScopedIdView, RetryState)>,
    id: ScopedIdView,
    from: int,
) -> Option<int>
    decreases retries.len() - from,
{
    if from >= retries.len() {
        None
    } else if retries[from].0 == id {
        Some(from)
    } else {
        retry_place(retries, id, from + 1)
    }
}

/// The failures of one track.
pub open spec fn retry_of(retries: Seq<(ScopedIdView, RetryState)>, id: ScopedIdView) -> RetryState {
    match retry_place(retries, id, 0) {
        Some(i) => retries[i].1,
        None => RetryState::fresh(),
    }
}

proof fn lemma_retry_place(retries: Seq<(ScopedIdView, RetryState)>, id: ScopedIdView, from: int)
    requires
        0 <= from,
    ensures
        match retry_place(retries, id, from) {
            Some(i) => from <= i < retries.len() && retries[i].0 == id && forall|k: int|
                from <= k < i ==> (#[trigger] retries[k]).0 != id,
            None => forall|k: int| from <= k < retries.len() ==> (#[trigger] retries[k]).0 != id,
        },
    decreases retries.len() - from,
{
    if from < retries.len() && retries[from].0 != id {
        lemma_retry_place(retries, id, from + 1);
    }
}

proof fn lemma_retry_kept(
    before: Seq<(ScopedIdView, RetryState)>,
    after: Seq<(ScopedIdView, RetryState)>,
    id: ScopedIdView,
)
    requires
        before.len() <= after.len(),
        forall|k: int| 0 <= k < before.len() ==> (#[trigger] after[k]).0 == before[k].0,
        forall|k: int|
            0 <= k < after.len() && (#[trigger] after[k]).0 == id ==> k < before.len()
                && before[k].1 == after[k].1,
    ensures
        retry_of(after, id) == retry_of(before, id),
{
    lemma_retry_place(before, id, 0);
    lemma_retry_place(after, id, 0);
    match retry_place(before, id, 0) {
        Some(i) => {
            assert(after[i].0 == id);
            let j = retry_place(after, id, 0)->0;
            assert(after[j].0 == before[j].0);
            assert(j == i);
        },
        None => {
            if retry_place(after, id, 0) is Some {
                let j = retry_place(after, id, 0)->0;
                assert(after[j].0 == id);
                assert(before[j].0 == id);
            }
        },
    }
}

/// Whether a track is to be fetched now. `known` tells what the cache said:
/// whether it has the track, or nothing where it could not be asked.
pub open spec fn to_fetch(state: RetryState, known: Option<bool>, now: u128) -> bool {
    known == Some(false) && !state.cooling(now) && !state.unplayable
}

impl Filler {
    pub open spec fn wf(&self) -> bool {
        self@.turns < 12
    }

    pub fn new() -> (r: Self)
        ensures
            r.wf(),
            r@ == (FillerView { turns: 0, retries: Seq::empty() }),
    {
        let r = Filler { turns: 0, retries: Vec::new() };
        assert(r@.retries =~= Seq::empty());
        r
    }

    /// Another turn. Tells whether the log of the base is to be cut, which
    /// it is at every twelfth.
    pub fn turn(&mut self) -> (r: bool)
        requires
            old(self).wf(),
        ensures
            final(self).wf(),
            r == (old(self)@.turns == 11),
            final(self)@ == (FillerView {
                turns: if r {
                    0
                } else {
                    (old(self)@.turns + 1) as u64
                },
                ..old(self)@
            }),
    {
        if self.turns == 11 {
            self.turns = 0;
            true
        } else {
            self.turns = self.turns + 1;
            false
        }
    }

    fn find(&self, id: &TrackId) -> (r: Option<usize>)
        ensures
            match r {
                Some(i) => i < self@.retries.len() && retry_place(self@.retries, id@, 0) == Some(
                    i as int,
                ),
                None => retry_place(self@.retries, id@, 0) is None,
            },
    {
        let mut i: usize = 0;
        while i < self.retries.len()
            invariant
                i <= self.retries@.len(),
                retry_place(self@.retries, id@, 0) == retry_place(self@.retries, id@, i as int),
            decreases self.retries@.len() - i,
        {
            assert(self@.retries[i as int].0 == self.retries@[i as int].0@);
            if self.retries[i].0 == *id {
                return Some(i);
            }
            i += 1;
        }
        None
    }

    /// The failures of one track.
    pub fn state_of(&self, id: &TrackId) -> (r: RetryState)
        ensures
            r == retry_of(self@.retries, id@),
    {
        match self.find(id) {
            Some(i) => {
                assert(self@.retries[i as int].1 == self.retries@[i as int].1);
                self.retries[i].1
            },
            None => RetryState::default(),
        }
    }

    /// Whether a track is to be fetched now.
    pub fn wants(&self, id: &TrackId, known: Option<bool>, now: u128) -> (r: bool)
        ensures
            r == to_fetch(retry_of(self@.retries, id@), known, now),
    {
        let absent: bool = match known {
            Some(there) => !there,
            None => false,
        };
        let state = self.state_of(id);
        absent && !state.in_cooldown(now) && !state.unplayable
    }

    /// Takes note of how a fetch ended. Tells whether the pause has grown.
    pub fn record(&mut self, id: &TrackId, outcome: FetchOutcome, now: u128) -> (r: bool)
        requires
            old(self).wf(),
            outcome is Failed ==> retry_of(old(self)@.retries, id@).countable(now),
        ensures
            final(self).wf(),
            final(self)@.turns == old(self)@.turns,
            ({
                let before = retry_of(old(self)@.retries, id@);
                let after = retry_of(final(self)@.retries, id@);
                match outcome {
                    FetchOutcome::Done => after == RetryState::fresh() && !r,
                    FetchOutcome::Failed => after == before.failed(now) && r == (after.failures
                        <= 4),
                    FetchOutcome::Unplayable => after == (RetryState {
                        unplayable: true,
                        retry_after: None,
                        ..before
                    }) && !r,
                }
            }),
            forall|other: ScopedIdView|
                other != id@ ==> #[trigger] retry_of(final(self)@.retries, other) == retry_of(
                    old(self)@.retries,
                    other,
                ),
    {
        let ghost before = self@.retries;
        let mut state = self.state_of(id);
        let mut grown: bool = false;
        match outcome {
            FetchOutcome::Done => state.record_success(),
            FetchOutcome::Failed => {
                grown = state.record_failure(now);
            },
            FetchOutcome::Unplayable => state.record_unplayable(),
        }
        proof {
            lemma_retry_place(before, id@, 0);
        }
        match self.find(id) {
            Some(i) => {
                let mut entry: (TrackId, RetryState) = (id.clone(), state);
                std::mem::swap(&mut self.retries[i], &mut entry);
                assert(self@.retries =~= before.update(i as int, (id@, state)));
                proof {
                    lemma_retry_place(self@.retries, id@, 0);
                    assert(self@.retries[i as int].0 == id@);
                    let j = retry_place(self@.retries, id@, 0)->0;
                    if j < i {
                        assert(before[j] == self@.retries[j]);
                    }
                    assert(j == i);
                }
            },
            None => {
                self.retries.push((id.clone(), state));
                assert(self@.retries =~= before.push((id@, state)));
                proof {
                    lemma_retry_place(self@.retries, id@, 0);
                    assert(self@.retries[before.len() as int].0 == id@);
                    let j = retry_place(self@.retries, id@, 0)->0;
                    if j < before.len() {
                        assert(before[j] == self@.retries[j]);
                    }
                    assert(j == before.len());
                }
            },
        }
        proof {
            assert forall|other: ScopedIdView| other != id@ implies #[trigger] retry_of(
                self@.retries,
                other,
            ) == retry_of(before, other) by {
                lemma_retry_kept(before, self@.retries, other);
            }
        }
        grown
    }
}

/// A track that can never be played is not fetched again, however much time
/// passes.
pub proof fn lemma_unplayable_stays_out(s: RetryState, known: Option<bool>, now: u128)
    requires
        s.unplayable,
    ensures
        !to_fetch(s, known, now),
{
}

/// The name under which the query parameters of a URL are known, in order
/// and decoded; `None` where the text is no URL.
pub uninterp spec fn url_query(url: Seq<char>) -> Option<Seq<(Seq<char>, Seq<char>)>>;

/// Pairs of texts by view.
pub open spec fn pair_views(v: Seq<(String, String)>) -> Seq<(Seq<char>, Seq<char>)> {
    v.map_values(|p: (String, String)| (p.0@, p.1@))
}

pub open spec fn opt_pairs(o: Option<Vec<(String, String)>>) -> Option<
    Seq<(Seq<char>, Seq<char>)>,
> {
    match o {
        Some(v) => Some(pair_views(v@)),
        None => None,
    }
}

/// `reqwest::Url::parse` and `query_pairs`: the same text always has the
/// same parameters, or is no URL.
#[verifier::external_body]
fn query_of(url: &str) -> (r: Option<Vec<(String, String)>>)
    ensures
        opt_pairs(r) == url_query(url@),
{
    let url = reqwest::Url::parse(url).ok()?;
    Some(url.query_pairs().map(|(k, v)| (k.into_owned(), v.into_owned())).collect())
}

/// The value of the first `clen` at or after `from`.
pub open spec fn clen_from(pairs: Seq<(Seq<char>, Seq<char>)>, from: int) -> Option<u64>
    decreases pairs.len() - from,
{
    if from >= pairs.len() {
        None
    } else if pairs[from].0 == "clen"@ {
        parsed_u64(pairs[from].1)
    } else {
        clen_from(pairs, from + 1)
    }
}

/// The size of a file among the parameters of its URL. What is no number
/// counts as nothing.
pub fn clen_of(pairs: &Vec<(String, String)>) -> (r: Option<u64>)
    ensures
        r == clen_from(pair_views(pairs@), 0),
{
    let ghost all = pair_views(pairs@);
    let mut i: usize = 0;
    while i < pairs.len()
        invariant
            i <= pairs@.len(),
            all == pair_views(pairs@),
            clen_from(all, 0) == clen_from(all, i as int),
        decreases pairs@.len() - i,
    {
        assert(all[i as int] == (pairs@[i as int].0@, pairs@[i as int].1@));
        if pairs[i].0.as_str().eq("clen") {
            return parse_u64(pairs[i].1.as_str());
        }
        i += 1;
    }
    None
}

/// The size of a file as its URL tells it.
pub fn clen_from_url(url: &str) -> (r: Option<u64>)
    ensures
        r == (match url_query(url@) {
            Some(pairs) => clen_from(pairs, 0),
            None => None,
        }),
{
    match query_of(url) {
        Some(pairs) => clen_of(&pairs),
        None => None,
    }
}

/// What to do with a track that was resolved.
#[derive(Debug, PartialEq, Eq)]
pub enum FetchPlan {
    /// It is on disk already.
    AtHand,
    /// The link died before the download began.
    Expired,
    Download { url: String, user_agent: Option<String>, target: String, partial: String },
}

#[verifier::ext_equal]
pub enum FetchPlanView {
    AtHand,
    Expired,
    Download {
        url: Seq<char>,
        user_agent: Option<Seq<char>>,
        target: Seq<char>,
        partial: Seq<char>,
    },
}

impl View for FetchPlan {
    type V = FetchPlanView;

    open spec fn view(&self) -> FetchPlanView {
        match *self {
            FetchPlan::AtHand => FetchPlanView::AtHand,
            FetchPlan::Expired => FetchPlanView::Expired,
            FetchPlan::Download { url, user_agent, target, partial } => FetchPlanView::Download {
                url: url@,
                user_agent: opt_text(user_agent),
                target: target@,
                partial: partial@,
            },
        }
    }
}

/// Where a downloaded track goes.
pub open spec fn target_path(cache: Seq<char>, id: ScopedIdView) -> Seq<char> {
    path_joined(
        path_joined(path_joined(cache, "audio"@), id.provider),
        audio_name(id.id, "webm"@),
    )
}

/// Where a track goes while it is being downloaded. A name that is all
/// ending gets the ending again.
pub open spec fn partial_path(cache: Seq<char>, id: ScopedIdView) -> Seq<char> {
    target_path(cache, id) + if id.id.len() == 0 {
        ".webm.part"@
    } else {
        ".part"@
    }
}

/// What follows from a track's source.
pub open spec fn fetch_plan_for(
    cache: Seq<char>,
    id: ScopedIdView,
    source: StreamSourceView,
    now: SystemTime,
) -> FetchPlanView {
    match source {
        StreamSourceView::Local(_) => FetchPlanView::AtHand,
        StreamSourceView::Remote { url, user_agent, .. } => if source.expired(now) {
            FetchPlanView::Expired
        } else {
            FetchPlanView::Download {
                url,
                user_agent,
                target: target_path(cache, id),
                partial: partial_path(cache, id),
            }
        },
    }
}

/// Plans the download of a track. It goes into a file beside the target
/// first: a broken download must not pass for the track.
pub fn fetch_plan(paths: &Paths, id: &TrackId, source: StreamSource, now: SystemTime) -> (r:
    FetchPlan)
    ensures
        r@ == fetch_plan_for(paths@.cache, id@, source@, now),
{
    if source.is_expired(now) {
        return FetchPlan::Expired;
    }
    match source {
        StreamSource::Local(_) => FetchPlan::AtHand,
        StreamSource::Remote { url, user_agent, .. } => {
            let target = audio_path(paths, id, "webm");
            let bare: bool = id.id.as_str().eq("");
            proof {
                reveal_strlit("");
                assert(bare == (id@.id.len() == 0)) by {
                    if id@.id.len() == 0 {
                        assert(id@.id =~= ""@);
                    }
                }
            }
            let ending: &str = if bare {
                ".webm.part"
            } else {
                ".part"
            };
            let partial = concat2(target.as_str(), ending);
            FetchPlan::Download { url, user_agent, target, partial }
        },
    }
}

/// How a download is opened.
#[derive(Clone, Copy, Debug, PartialEq, Eq, Structural)]
pub enum Opening {
    /// The answer is an error.
    Refused,
    /// Ask again, for a range.
    TryRange,
    /// The answer holds the whole file.
    Whole { expected: Option<u64> },
    /// The answer holds the first range.
    Ranged { expected: Option<u64> },
}

pub open spec fn is_client_error(status: u16) -> bool {
    400 <= status < 500
}

pub open spec fn is_error(status: u16) -> bool {
    400 <= status < 600
}

/// What follows from the answer to a plain request. The size in the URL
/// counts before the one in the answer.
pub fn plain_answer(status: u16, clen: Option<u64>, length: Option<u64>) -> (r: Opening)
    ensures
        r == if is_client_error(status) {
            Opening::TryRange
        } else if is_error(status) {
            Opening::Refused
        } else {
            Opening::Whole {
                expected: if clen is Some {
                    clen
                } else {
                    length
                },
            }
        },
{
    if 400 <= status && status < 500 {
        Opening::TryRange
    } else if 500 <= status && status < 600 {
        Opening::Refused
    } else {
        Opening::Whole {
            expected: if clen.is_some() {
                clen
            } else {
                length
            },
        }
    }
}

/// What follows from the answer to the first request for a range. A server
/// that sends everything all the same is taken at its word.
pub fn range_answer(status: u16, clen: Option<u64>, length: Option<u64>) -> (r: Opening)
    ensures
        r == if status == 206 {
            Opening::Ranged { expected: clen }
        } else if is_error(status) {
            Opening::Refused
        } else {
            Opening::Whole {
                expected: if clen is Some {
                    clen
                } else {
                    length
                },
            }
        },
{
    if status == 206 {
        Opening::Ranged { expected: clen }
    } else if 400 <= status && status < 600 {
        Opening::Refused
    } else {
        Opening::Whole {
            expected: if clen.is_some() {
                clen
            } else {
                length
            },
        }
    }
}

pub open spec fn range_text(start: u64, end: u64) -> Seq<char> {
    "bytes="@ + decimal_text(start as nat) + "-"@ + decimal_text(end as nat)
}

/// The header that asks for a range, both ends included.
pub fn range_header(start: u64, end: u64) -> (r: String)
    ensures
        r@ == range_text(start, end),
{
    let head = concat3("bytes=", decimal(start).as_str(), "-");
    concat2(head.as_str(), decimal(end).as_str())
}

/// A download under way.
pub struct Download {
    id: TrackId,
    written: u64,
    served: u64,
    expected: Option<u64>,
    ranged: bool,
    wished: bool,
    last_emit: Option<u128>,
    last_relevance: u128,
}

#[verifier::ext_equal]
pub struct DownloadView {
    pub id: ScopedIdView,
    /// The bytes so far.
    pub written: u64,
    /// The bytes of the present answer.
    pub served: u64,
    pub expected: Option<u64>,
    pub ranged: bool,
    /// The listener asked for this track, whatever is being played.
    pub wished: bool,
    /// When progress was reported last.
    pub last_emit: Option<u128>,
    /// When it was asked last whether the track is still wanted.
    pub last_relevance: u128,
}

impl View for Download {
    type V = DownloadView;

    closed spec fn view(&self) -> DownloadView {
        DownloadView {
            id: self.id@,
            written: self.written,
            served: self.served,
            expected: self.expected,
            ranged: self.ranged,
            wished: self.wished,
            last_emit: self.last_emit,
            last_relevance: self.last_relevance,
        }
    }
}

/// What follows from a piece of the answer.
#[derive(Debug, PartialEq, Eq)]
pub struct ChunkStep {
    /// A report of progress.
    pub report: Option<Event>,
    /// Ask whether the track is still wanted.
    pub check: bool,
}

/// What follows from the end of an answer.
#[derive(Clone, Copy, Debug, PartialEq, Eq, Structural)]
pub enum NextBody {
    Finished,
    /// Ask for this range next, both ends included.
    Range { start: u64, end: u64 },
}

impl DownloadView {
    /// Whether a report of progress is due.
    pub open spec fn report_due(self, now: u128) -> bool {
        match self.last_emit {
            Some(last) => report_due(last, now, false),
            None => true,
        }
    }

    /// Whether it is time to ask if the track is still wanted. Of a track
    /// that was asked for, it always is.
    pub open spec fn check_due(self, now: u128) -> bool {
        !self.wished && now - self.last_relevance >= RELEVANCE_INTERVAL
    }

    /// The download after a piece of the answer.
    pub open spec fn after_chunk(self, len: u64, now: u128) -> DownloadView {
        DownloadView {
            written: (self.written + len) as u64,
            served: (self.served + len) as u64,
            last_emit: if self.report_due(now) {
                Some(now)
            } else {
                self.last_emit
            },
            last_relevance: if self.check_due(now) {
                now
            } else {
                self.last_relevance
            },
            ..self
        }
    }

    pub open spec fn progress(self) -> EventView {
        EventView::CacheProgress { track: self.id, bytes: self.written, total: self.expected }
    }

    /// Whether the file is complete at the end of an answer: a plain answer
    /// is the whole file; of ranges the last one reaches the size, is
    /// empty, or is short where the size is not known.
    pub open spec fn complete(self) -> bool {
        ||| !self.ranged
        ||| self.expected matches Some(total) && self.written >= total
        ||| self.served == 0
        ||| self.expected is None && self.served < RANGE_CHUNK
    }

    /// The last byte of the next range.
    pub open spec fn range_end(self) -> u64 {
        let full = (self.written + RANGE_CHUNK - 1) as u64;
        match self.expected {
            Some(total) => if full < total {
                full
            } else {
                (total - 1) as u64
            },
            None => full,
        }
    }

    /// What follows from the end of an answer.
    pub open spec fn next_body(self) -> NextBody {
        if self.complete() {
            NextBody::Finished
        } else {
            NextBody::Range { start: self.written, end: self.range_end() }
        }
    }
}

pub open spec fn wrong_size(written: u64, total: u64) -> Seq<char> {
    "размер не совпал: скачано "@ + decimal_text(written as nat) + " из "@ + decimal_text(
        total as nat,
    )
}

impl Download {
    /// A download that begins. The first piece is reported at once.
    pub fn new(id: &TrackId, expected: Option<u64>, ranged: bool, wished: bool, now: u128) -> (r:
        Self)
        ensures
            r@ == (DownloadView {
                id: id@,
                written: 0,
                served: 0,
                expected,
                ranged,
                wished,
                last_emit: None,
                last_relevance: now,
            }),
    {
        Download {
            id: id.clone(),
            written: 0,
            served: 0,
            expected,
            ranged,
            wished,
            last_emit: None,
            last_relevance: now,
        }
    }

    /// The bytes so far.
    pub fn written(&self) -> (r: u64)
        ensures
            r == self@.written,
    {
        self.written
    }

    /// Takes note of a piece of the answer that was written.
    pub fn chunk(&mut self, len: u64, now: u128) -> (r: ChunkStep)
        requires
            old(self)@.served <= old(self)@.written,
            old(self)@.written + len <= u64::MAX,
        ensures
            final(self)@ == old(self)@.after_chunk(len, now),
            final(self)@.served <= final(self)@.written,
            r.check == old(self)@.check_due(now),
            match r.report {
                Some(e) => old(self)@.report_due(now) && e@ == final(self)@.progress(),
                None => !old(self)@.report_due(now),
            },
    {
        self.written = self.written + len;
        self.served = self.served + len;
        let due: bool = match self.last_emit {
            Some(last) => should_emit(last, now, false),
            None => true,
        };
        let report: Option<Event> = if due {
            self.last_emit = Some(now);
            Some(
                Event::CacheProgress {
                    track: self.id.clone(),
                    bytes: self.written,
                    total: self.expected,
                },
            )
        } else {
            None
        };
        let check: bool = !self.wished && now >= self.last_relevance && now - self.last_relevance
            >= RELEVANCE_INTERVAL;
        if check {
            self.last_relevance = now;
        }
        ChunkStep { report, check }
    }

    /// The answer has ended: is there more to ask for?
    pub fn body_ended(&mut self) -> (r: NextBody)
        requires
            old(self)@.written + RANGE_CHUNK <= u64::MAX,
        ensures
            r == old(self)@.next_body(),
            final(self)@ == if r is Finished {
                old(self)@
            } else {
                DownloadView { served: 0, ..old(self)@ }
            },
    {
        if !self.ranged || self.served == 0 {
            return NextBody::Finished;
        }
        match self.expected {
            Some(total) => if self.written >= total {
                return NextBody::Finished;
            },
            None => if self.served < RANGE_CHUNK {
                return NextBody::Finished;
            },
        }
        let start: u64 = self.written;
        let full: u64 = start + RANGE_CHUNK - 1;
        let end: u64 = match self.expected {
            Some(total) => if full < total {
                full
            } else {
                total - 1
            },
            None => full,
        };
        self.served = 0;
        NextBody::Range { start, end }
    }

    /// The last check: a file counts only in its full size, where that is
    /// known. A file that counts is reported a last time.
    pub fn finish(&self) -> (r: Result<Event, String>)
        ensures
            match r {
                Ok(e) => (self@.expected matches Some(total) ==> self@.written == total) && e@
                    == self@.progress(),
                Err(text) => self@.expected matches Some(total) && (self@.written != total
                    && text@ == wrong_size(self@.written, total)),
            },
    {
        if let Some(total) = self.expected {
            if self.written != total {
                let head = concat3("размер не совпал: скачано ", decimal(self.written).as_str(), " из ");
                return Err(concat2(head.as_str(), decimal(total).as_str()));
            }
        }
        Ok(
            Event::CacheProgress {
                track: self.id.clone(),
                bytes: self.written,
                total: self.expected,
            },
        )
    }
}

/// Every range starts where the file ends so far, holds at least a byte and
/// at most what servers grant, and stays within the size.
pub proof fn lemma_ranges_fit(d: DownloadView)
    requires
        d.written + RANGE_CHUNK <= u64::MAX,
    ensures
        d.next_body() matches NextBody::Range { start, end } ==> {
            &&& start == d.written
            &&& start <= end
            &&& end - start < RANGE_CHUNK
            &&& d.expected matches Some(total) ==> end < total
        },
{
}

/// A download in ranges that are served in full ends with the exact size.
pub proof fn lemma_full_ranges_reach_the_size(d: DownloadView, total: u64, now: u128)
    requires
        d.ranged,
        d.expected == Some(total),
        d.written < total,
        d.served > 0,
        d.written + RANGE_CHUNK <= u64::MAX,
    ensures
        ({
            let end = d.next_body()->end;
            let fresh = DownloadView { served: 0, ..d };
            let after = fresh.after_chunk((end - d.written + 1) as u64, now);
            &&& d.next_body() is Range
            &&& after.written == end + 1
            &&& after.written <= total
            &&& after.complete() <==> after.written == total
        }),
{
}

/// Reports of progress keep their distance: after one the next comes no
/// sooner than the interval.
pub proof fn lemma_reports_keep_their_distance(d: DownloadView, len: u64, now: u128, later: u128)
    requires
        d.report_due(now),
        later - now < PROGRESS_INTERVAL,
    ensures
        !d.after_chunk(len, now).report_due(later),
{
}

/// It is asked no more often than the interval whether a track is still
/// wanted.
pub proof fn lemma_checks_keep_their_distance(d: DownloadView, len: u64, now: u128, later: u128)
    requires
        d.check_due(now),
        later - now < RELEVANCE_INTERVAL,
    ensures
        !d.after_chunk(len, now).check_due(later),
{
}

/// A download that the listener asked for is not given up: it is never
/// asked whether the track is wanted, at the first piece nor at any later.
pub proof fn lemma_a_wish_stands(d: DownloadView, len: u64, now: u128)
    requires
        d.wished,
    ensures
        !d.check_due(now),
        d.after_chunk(len, now).wished,
{
}

/// The tracks of a wish to fetch, each once, in their order.
pub fn warm_list(tracks: &Vec<TrackId>) -> (r: Vec<TrackId>)
    ensures
        id_views(r@) == first_of_each(id_views(tracks@)),
{
    let ghost all = id_views(tracks@);
    let mut out: Vec<TrackId> = Vec::new();
    let mut i: usize = 0;
    assert(all.subrange(0, 0) =~= Seq::empty());
    assert(id_views(out@) =~= Seq::empty());
    while i < tracks.len()
        invariant
            i <= tracks@.len(),
            all == id_views(tracks@),
            id_views(out@) == first_of_each(all.subrange(0, i as int)),
        decreases tracks@.len() - i,
    {
        let ghost had = id_views(out@);
        assert(all[i as int] == tracks@[i as int]@);
        assert(all.subrange(0, i + 1).drop_last() =~= all.subrange(0, i as int));
        if !still_wanted(&tracks[i], None, out.as_slice()) {
            out.push(tracks[i].clone());
            assert(id_views(out@) =~= had.push(all[i as int]));
        }
        i += 1;
    }
    assert(all.subrange(0, i as int) =~= all);
    out
}

/// Each id where it stands first.
pub open spec fn first_of_each(ids: Seq<ScopedIdView>) -> Seq<ScopedIdView>
    decreases ids.len(),
{
    if ids.len() == 0 {
        Seq::empty()
    } else {
        let before = first_of_each(ids.drop_last());
        if before.contains(ids.last()) {
            before
        } else {
            before.push(ids.last())
        }
    }
}

/// No track is fetched twice for one wish, and none of it is left out.
pub proof fn lemma_warming_takes_each_once(ids: Seq<ScopedIdView>)
    ensures
        first_of_each(ids).no_duplicates(),
        forall|k: int| 0 <= k < ids.len() ==> first_of_each(ids).contains(#[trigger] ids[k]),
    decreases ids.len(),
{
    if ids.len() > 0 {
        let rest = ids.drop_last();
        let before = first_of_each(rest);
        lemma_warming_takes_each_once(rest);
        assert forall|k: int| 0 <= k < ids.len() implies first_of_each(ids).contains(
            #[trigger] ids[k],
        ) by {
            if k < rest.len() {
                assert(rest[k] == ids[k]);
                let j = choose|j: int| 0 <= j < before.len() && before[j] == rest[k];
                assert(first_of_each(ids)[j] == ids[k]);
            } else if !before.contains(ids.last()) {
                assert(first_of_each(ids)[before.len() as int] == ids[k]);
            }
        }
    }
}

/// A fetching of a list of tracks under way.
pub struct Warming {
    list: Vec<TrackId>,
    next: usize,
    done: usize,
}

#[verifier::ext_equal]
pub struct WarmingView {
    pub list: Seq<ScopedIdView>,
    /// How many tracks have had their turn.
    pub next: nat,
    /// How many were fetched.
    pub done: nat,
}

impl View for Warming {
    type V = WarmingView;

    closed spec fn view(&self) -> WarmingView {
        WarmingView { list: id_views(self.list@), next: self.next as nat, done: self.done as nat }
    }
}

impl WarmingView {
    pub open spec fn valid(self) -> bool {
        self.done <= self.next <= self.list.len()
    }

    /// A fetching that begins: each track has one turn.
    pub open spec fn fresh(tracks: Seq<ScopedIdView>) -> WarmingView {
        WarmingView { list: first_of_each(tracks), next: 0, done: 0 }
    }

    /// The track whose turn it is.
    pub open spec fn current(self) -> Option<ScopedIdView> {
        if self.next < self.list.len() {
            Some(self.list[self.next as int])
        } else {
            None
        }
    }

    /// The next track's turn has come: the last one was fetched, or not.
    pub open spec fn turned(self, fetched: bool) -> WarmingView {
        WarmingView {
            next: self.next + 1,
            done: if fetched {
                self.done + 1
            } else {
                self.done
            },
            ..self
        }
    }

    /// The fetching after some turns.
    pub open spec fn turned_all(self, turns: Seq<WarmTurn>) -> WarmingView
        decreases turns.len(),
    {
        if turns.len() == 0 {
            self
        } else {
            self.turned_all(turns.drop_last()).turned(turns.last().counts())
        }
    }
}

/// What came of a track's turn.
pub struct WarmTurn {
    /// Whether the track was there already; `None` where that could not be
    /// found out.
    pub known: Option<bool>,
    /// Whether it could be fetched.
    pub fetched: bool,
}

impl WarmTurn {
    /// Whether the track was fetched: one that is there already, or of
    /// which nothing is known, is passed over.
    pub open spec fn counts(self) -> bool {
        self.known == Some(false) && self.fetched
    }
}

/// How many of the turns fetched a track.
pub open spec fn count_fetched(turns: Seq<WarmTurn>) -> nat
    decreases turns.len(),
{
    if turns.len() == 0 {
        0
    } else {
        count_fetched(turns.drop_last()) + if turns.last().counts() {
            1nat
        } else {
            0nat
        }
    }
}

impl Warming {
    pub closed spec fn wf(&self) -> bool {
        self@.valid()
    }

    /// A fetching that begins: each track of the wish has one turn.
    pub fn new(tracks: &Vec<TrackId>) -> (r: Self)
        ensures
            r.wf(),
            r@ == WarmingView::fresh(id_views(tracks@)),
    {
        Warming { list: warm_list(tracks), next: 0, done: 0 }
    }

    /// The track whose turn it is.
    pub fn current(&self) -> (r: Option<&TrackId>)
        ensures
            match r {
                Some(id) => self@.current() == Some(id@),
                None => self@.current() is None,
            },
    {
        if self.next < self.list.len() {
            assert(id_views(self.list@)[self.next as int] == self.list@[self.next as int]@);
            Some(&self.list[self.next])
        } else {
            None
        }
    }

    /// Whether the track is to be fetched, now that it was looked up:
    /// `known` tells whether it is there, `None` that nobody can tell. One
    /// that is not to be fetched has had its turn.
    pub fn look(&mut self, known: Option<bool>) -> (r: bool)
        requires
            old(self).wf(),
            old(self)@.current() is Some,
        ensures
            final(self).wf(),
            r == (known == Some(false)),
            final(self)@ == if r {
                old(self)@
            } else {
                old(self)@.turned(false)
            },
    {
        match known {
            Some(false) => true,
            _ => {
                self.fetched(false);
                false
            },
        }
    }

    /// The track has had its turn. One that could not be fetched does not
    /// stop the others.
    pub fn fetched(&mut self, success: bool)
        requires
            old(self).wf(),
            old(self)@.current() is Some,
        ensures
            final(self).wf(),
            final(self)@ == old(self)@.turned(success),
    {
        let total: usize = self.list.len();
        assert(self@.list.len() == total);
        self.next = self.next + 1;
        if success {
            self.done = self.done + 1;
        }
    }

    /// How many tracks were fetched.
    pub fn done(&self) -> (r: usize)
        ensures
            r == self@.done,
    {
        self.done
    }

    /// How many tracks the wish holds, each counted once.
    pub fn total(&self) -> (r: usize)
        ensures
            r == self@.list.len(),
    {
        self.list.len()
    }
}

/// Whatever comes of the turns before, every track of the wish has its own,
/// once and in order, and after the last one there is none left. What counts
/// as done is what was fetched.
pub proof fn lemma_warming_goes_through_the_list(tracks: Seq<ScopedIdView>, turns: Seq<WarmTurn>)
    requires
        turns.len() <= first_of_each(tracks).len(),
    ensures
        WarmingView::fresh(tracks).turned_all(turns).current() == if turns.len() < first_of_each(
            tracks,
        ).len() {
            Some(first_of_each(tracks)[turns.len() as int])
        } else {
            None
        },
        WarmingView::fresh(tracks).turned_all(turns).done == count_fetched(turns),
{
    lemma_turns_add_up(WarmingView::fresh(tracks), turns);
}

proof fn lemma_turns_add_up(w: WarmingView, turns: Seq<WarmTurn>)
    ensures
        w.turned_all(turns).list == w.list,
        w.turned_all(turns).next == w.next + turns.len(),
        w.turned_all(turns).done == w.done + count_fetched(turns),
    decreases turns.len(),
{
    if turns.len() > 0 {
        lemma_turns_add_up(w, turns.drop_last());
    }
}

/// What plays and the three tracks after it are fetched, in the order in
/// which they play; at the end of the list there are fewer.
pub proof fn lemma_what_plays_and_comes_is_fetched(p: PlayerView, i: int, k: int)
    requires
        p.valid(),
        !p.queue.shuffle,
        p.queue.loop_mode == LoopMode::Off,
        p.queue.current_index() == Some(i),
        p.shown().track == Some(p.queue.tracks[i]),
    ensures
        ({
            let ids = window_ids(fetch_window(p));
            let left = p.queue.tracks.len() - i;
            &&& ids.len() == if left < 4 {
                left
            } else {
                4
            }
            &&& 0 <= k < ids.len() ==> ids[k] == p.queue.tracks[i + k].id
        }),
{
    let q = p.queue;
    let c = q.cursor->0;
    assert(q.order[c] == c as usize);
    reveal_with_fuel(QueueModel::ahead, 4);
    let len = q.tracks.len();
    if c + 1 < len {
        assert(q.order[c + 1] == (c + 1) as usize);
    }
    if c + 2 < len {
        assert(q.order[c + 2] == (c + 2) as usize);
    }
    if c + 3 < len {
        assert(q.order[c + 3] == (c + 3) as usize);
    }
}

/// A track is wanted exactly while it plays or comes soon.
pub proof fn lemma_others_are_not_wanted(
    id: ScopedIdView,
    current: Option<ScopedIdView>,
    ahead: Seq<ScopedIdView>,
    k: int,
)
    ensures
        current == Some(id) ==> is_wanted(id, current, ahead),
        0 <= k < ahead.len() && ahead[k] == id ==> is_wanted(id, current, ahead),
        current != Some(id) && !ahead.contains(id) ==> !is_wanted(id, current, ahead),
{
}

/// A track is fetched when the cache says that it is not there and nothing
/// speaks against a try: not one that is there, nor one of which nothing is
/// known, nor one that rests after a failure. A track that never failed may
/// be tried at any time, and so may one that was fetched since.
pub proof fn lemma_only_what_is_missing_is_fetched(
    state: RetryState,
    now: u128,
    retries: Seq<(ScopedIdView, RetryState)>,
    id: ScopedIdView,
)
    ensures
        to_fetch(RetryState::fresh(), Some(false), now),
        !to_fetch(state, Some(true), now),
        !to_fetch(state, None, now),
        state.cooling(now) ==> !to_fetch(state, Some(false), now),
        !state.cooling(now) && !state.unplayable ==> to_fetch(state, Some(false), now),
        (forall|k: int| 0 <= k < retries.len() ==> (#[trigger] retries[k]).0 != id) ==> to_fetch(
            retry_of(retries, id),
            Some(false),
            now,
        ),
{
    lemma_retry_place(retries, id, 0);
}

/// The size of a file is the number in the first `clen` of its parameters.
pub proof fn lemma_the_first_size_counts(
    pairs: Seq<(Seq<char>, Seq<char>)>,
    more: Seq<(Seq<char>, Seq<char>)>,
    n: u64,
)
    requires
        forall|k: int| 0 <= k < pairs.len() ==> (#[trigger] pairs[k]).0 != "clen"@,
    ensures
        clen_from(pairs, 0) is None,
        clen_from(pairs.push(("clen"@, decimal_text(n as nat))) + more, 0) == Some(n),
{
    let all = pairs.push(("clen"@, decimal_text(n as nat))) + more;
    lemma_no_size_before(pairs, pairs.len() as int, 0);
    assert forall|k: int| 0 <= k < pairs.len() implies (#[trigger] all[k]).0 != "clen"@ by {
        assert(all[k] == pairs[k]);
    }
    lemma_no_size_before(all, pairs.len() as int, 0);
    assert(all[pairs.len() as int] == ("clen"@, decimal_text(n as nat)));
    lemma_decimal_round_trip(n);
}

proof fn lemma_no_size_before(pairs: Seq<(Seq<char>, Seq<char>)>, to: int, from: int)
    requires
        0 <= from <= to <= pairs.len(),
        forall|k: int| from <= k < to ==> (#[trigger] pairs[k]).0 != "clen"@,
    ensures
        clen_from(pairs, from) == clen_from(pairs, to),
    decreases to - from,
{
    if from < to {
        assert(pairs[from].0 != "clen"@);
        lemma_no_size_before(pairs, to, from + 1);
    }
}

/// A file on disk is not fetched and a dead link is not tried; a living one
/// is downloaded as it is, into a file beside the one that it becomes: the
/// latter's name is the beginning of the former's, so the two are never the
/// same.
pub proof fn lemma_downloads_go_beside_their_target(
    cache: Seq<char>,
    id: ScopedIdView,
    source: StreamSourceView,
    now: SystemTime,
)
    ensures
        source is Local ==> fetch_plan_for(cache, id, source, now) is AtHand,
        source is Remote && source.expired(now) ==> fetch_plan_for(cache, id, source, now)
            is Expired,
        source matches StreamSourceView::Remote { url, user_agent, .. } ==> !source.expired(now)
            ==> {
            &&& fetch_plan_for(cache, id, source, now) matches FetchPlanView::Download {
                url: asked,
                user_agent: agent,
                target,
                partial,
            }
            &&& asked == url
            &&& agent == user_agent
            &&& target != partial
            &&& target.is_prefix_of(partial)
            &&& target == path_joined(
                path_joined(path_joined(cache, "audio"@), id.provider),
                audio_name(id.id, "webm"@),
            )
            &&& ends_with_text(partial, ".part"@)
        },
{
    reveal_strlit(".part");
    reveal_strlit(".webm.part");
    let target = target_path(cache, id);
    let partial = partial_path(cache, id);
    assert(partial.take(target.len() as int) =~= target);
    assert(partial.subrange(partial.len() - 5, partial.len() as int) =~= ".part"@);
}

/// What servers answer with: a number of four hundred and some blames the
/// request, one of five hundred and some the server, and both are errors.
pub proof fn lemma_errors_go_by_their_hundreds(status: u16)
    ensures
        is_client_error(status) <==> status / 100 == 4,
        is_error(status) <==> status / 100 == 4 || status / 100 == 5,
{
}

/// A download counts what it wrote. Its progress is told at the first piece
/// and then twice a second at most, with the bytes so far; and once a second
/// it is asked whether the track is still wanted, unless it was wished for.
pub proof fn lemma_downloads_tell_their_progress(d: DownloadView, len: u64, now: u128)
    requires
        d.written + len <= u64::MAX,
        d.served <= d.written,
    ensures
        d.after_chunk(len, now).written == d.written + len,
        d.after_chunk(len, now).served == d.served + len,
        d.after_chunk(len, now).progress() == (EventView::CacheProgress {
            track: d.id,
            bytes: (d.written + len) as u64,
            total: d.expected,
        }),
        d.last_emit is None ==> d.report_due(now),
        d.last_emit matches Some(last) ==> (d.report_due(now) <==> now >= last + 500_000_000),
        d.check_due(now) <==> !d.wished && now >= d.last_relevance + 1_000_000_000,
{
}

/// A plain answer is the whole file. Of ranges the next is asked for until
/// the size is reached; without a size, until one comes short of what was
/// asked for. An empty answer always ends it.
pub proof fn lemma_ranges_go_on_until_the_end(d: DownloadView)
    requires
        d.written + 1_048_576 <= u64::MAX,
    ensures
        !d.ranged || d.served == 0 ==> d.next_body() is Finished,
        d.ranged && d.served > 0 ==> (d.expected matches Some(total) ==> (d.next_body() is Finished
            <==> d.written >= total)),
        d.ranged && d.served > 0 && d.expected is None ==> (d.next_body() is Finished <==> d.served
            < 1_048_576),
        d.next_body() matches NextBody::Range { start, end } ==> start == d.written && (end + 1
            == start + 1_048_576 || d.expected == Some((end + 1) as u64)),
{
}

/// The tracks of a wish keep their order, each where it is named first; a
/// turn counts when the track was missing and could be fetched.
pub proof fn lemma_wishes_keep_their_order(
    ids: Seq<ScopedIdView>,
    more: Seq<ScopedIdView>,
    turn: WarmTurn,
)
    ensures
        ids.no_duplicates() ==> first_of_each(ids) == ids,
        first_of_each(ids).is_prefix_of(first_of_each(ids + more)),
        forall|id: ScopedIdView| #[trigger]
            first_of_each(ids).contains(id) ==> ids.contains(id),
        turn.known == Some(true) || turn.known is None || !turn.fetched ==> !turn.counts(),
        turn.known == Some(false) && turn.fetched ==> turn.counts(),
    decreases ids.len() + more.len(),
{
    if ids.len() > 0 {
        let rest = ids.drop_last();
        lemma_wishes_keep_their_order(rest, Seq::empty(), turn);
        assert forall|id: ScopedIdView| #[trigger]
            first_of_each(ids).contains(id) implies ids.contains(id) by {
            let before = first_of_each(rest);
            let j = choose|j: int| 0 <= j < first_of_each(ids).len() && first_of_each(ids)[j] == id;
            if j < before.len() {
                assert(before[j] == id);
                assert(before.contains(id));
                let m = choose|m: int| 0 <= m < rest.len() && rest[m] == id;
                assert(ids[m] == id);
            } else {
                assert(ids[ids.len() - 1] == id);
            }
        }
        if ids.no_duplicates() {
            assert(rest.no_duplicates());
            assert(!rest.contains(ids.last())) by {
                if rest.contains(ids.last()) {
                    let m = choose|m: int| 0 <= m < rest.len() && rest[m] == ids.last();
                    assert(ids[m] == ids[ids.len() - 1]);
                }
            }
            assert(first_of_each(ids) =~= ids);
        }
    } else {
        assert(first_of_each(ids) =~= ids);
    }
    if more.len() == 0 {
        assert(ids + more =~= ids);
    } else {
        lemma_wishes_keep_their_order(ids, more.drop_last(), turn);
        assert((ids + more).drop_last() =~= ids + more.drop_last());
    }
}

/// A range is asked for from its first byte to its last, both of them
/// included.
pub proof fn lemma_ranges_name_their_ends(start: u64, end: u64)
    ensures
        range_text(start, end) == "bytes="@ + decimal_text(start as nat) + "-"@ + decimal_text(
            end as nat,
        ),
{
}

/// A file of the wrong size is refused with both sizes.
pub proof fn lemma_wrong_sizes_are_told(written: u64, total: u64)
    ensures
        wrong_size(written, total) == "размер не совпал: скачано "@ + decimal_text(written as nat)
            + " из "@ + decimal_text(total as nat),
{
}

} // verus!
