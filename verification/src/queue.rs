//! The mixed playback queue.
//!
//! Tracks of several sources lie side by side and nothing in the traversal
//! looks at a source. Shuffling permutes the order of traversal, not the
//! tracks: switching it off brings the original order back.

use vstd::prelude::*;

use crate::model::{track_views, LoopMode, ScopedIdView, Track, TrackId, TrackView};

verus! {

/// The clock's distance from the Unix epoch in nanoseconds, from
/// `SystemTime::elapsed` on the epoch; `None` where that fails, which it
/// does when the clock stands before the epoch. Nothing is claimed of the
/// value: it depends on the clock.
#[verifier::external_body]
fn nanos_since_epoch() -> (r: Option<u128>) {
    std::time::UNIX_EPOCH.elapsed().ok().map(|d| d.as_nanos())
}

/// One round of the xorshift generator.
pub open spec fn xorshift(state: u64) -> u64 {
    let a = state ^ (state << 13);
    let b = a ^ (a >> 7);
    b ^ (b << 17)
}

/// The places `i` and `j` of a sequence exchanged.
pub open spec fn swapped(s: Seq<usize>, i: int, j: int) -> Seq<usize> {
    s.update(i, s[j]).update(j, s[i])
}

/// The Fisher-Yates shuffle, from place `i` down to place 1: each place is
/// exchanged with one at or below it, picked by the generator.
pub open spec fn fisher_yates(order: Seq<usize>, i: int, state: u64) -> Seq<usize>
    decreases i,
{
    if i < 1 {
        order
    } else {
        let drawn = xorshift(state);
        fisher_yates(swapped(order, i, drawn as int % (i + 1)), i - 1, drawn)
    }
}

/// `0, 1, .., len - 1`.
pub open spec fn identity(len: nat) -> Seq<usize> {
    Seq::new(len, |i: int| i as usize)
}

/// Whether every number below the length stands in `order` exactly once.
pub open spec fn is_permutation(order: Seq<usize>) -> bool {
    &&& forall|i: int| 0 <= i < order.len() ==> (#[trigger] order[i] as int) < order.len()
    &&& forall|i: int, j: int| 0 <= i < j < order.len() ==> order[i] != order[j]
    &&& forall|v: usize| (v as int) < order.len() ==> order.contains(v)
}

proof fn lemma_identity_is_permutation(len: nat)
    requires
        len <= usize::MAX,
    ensures
        is_permutation(identity(len)),
{
    let order = identity(len);
    assert forall|v: usize| (v as int) < order.len() implies order.contains(v) by {
        assert(order[v as int] == v);
    }
}

proof fn lemma_swap_keeps_permutation(order: Seq<usize>, i: int, j: int)
    requires
        is_permutation(order),
        0 <= i < order.len(),
        0 <= j < order.len(),
    ensures
        is_permutation(swapped(order, i, j)),
{
    let next = swapped(order, i, j);
    assert forall|v: usize| (v as int) < next.len() implies next.contains(v) by {
        assert(order.contains(v));
        let k = choose|k: int| 0 <= k < order.len() && order[k] == v;
        if k == i {
            assert(next[j] == v);
        } else if k == j {
            assert(next[i] == v);
        } else {
            assert(next[k] == v);
        }
    }
}

/// Shuffling a permutation gives a permutation.
proof fn lemma_fisher_yates_keeps_permutation(order: Seq<usize>, i: int, state: u64)
    requires
        is_permutation(order),
        i < order.len(),
    ensures
        is_permutation(fisher_yates(order, i, state)),
        fisher_yates(order, i, state).len() == order.len(),
    decreases i,
{
    if i >= 1 {
        let drawn = xorshift(state);
        let j = drawn as int % (i + 1);
        lemma_swap_keeps_permutation(order, i, j);
        lemma_fisher_yates_keeps_permutation(swapped(order, i, j), i - 1, drawn);
    }
}

/// Whether an order was drawn by the generator, in some living state.
pub open spec fn drawn(order: Seq<usize>) -> bool {
    exists|state: u64|
        state != 0 && order == #[trigger] fisher_yates(
            identity(order.len()),
            order.len() - 1,
            state,
        )
}

/// A deterministic generator: shuffling a queue needs no more.
pub struct XorShift(u64);

impl XorShift {
    pub closed spec fn state(self) -> u64 {
        self.0
    }

    /// The zero state is dead: it yields zeros for ever.
    pub fn new(seed: u64) -> (r: Self)
        ensures
            r.state() == seed | 1,
            r.state() != 0,
    {
        assert(seed | 1 != 0) by (bit_vector);
        XorShift(seed | 1)
    }

    /// Seeds the generator from the clock.
    pub fn from_time() -> (r: Self)
        ensures
            r.state() != 0,
    {
        let seed: u64 = match nanos_since_epoch() {
            Some(nanos) => (nanos & 0xFFFF_FFFF_FFFF_FFFF) as u64,
            None => 0x9E37_79B9_7F4A_7C15,
        };
        XorShift::new(seed)
    }

    pub fn next_u64(&mut self) -> (r: u64)
        ensures
            r == xorshift(old(self).state()),
            final(self).state() == r,
    {
        let mut x: u64 = self.0;
        x = x ^ (x << 13);
        x = x ^ (x >> 7);
        x = x ^ (x << 17);
        self.0 = x;
        x
    }

    /// A shuffled `0..len`.
    pub fn shuffle_order(&mut self, len: usize) -> (r: Vec<usize>)
        ensures
            r@ == fisher_yates(identity(len as nat), len - 1, old(self).state()),
            is_permutation(r@),
            r@.len() == len,
    {
        let mut order: Vec<usize> = Vec::new();
        let mut k: usize = 0;
        while k < len
            invariant
                k <= len,
                order@ == identity(k as nat),
            decreases len - k,
        {
            order.push(k);
            k += 1;
            assert(order@ =~= identity(k as nat));
        }
        proof {
            lemma_identity_is_permutation(len as nat);
            lemma_fisher_yates_keeps_permutation(identity(len as nat), len - 1, self.state());
        }
        let ghost shuffled = fisher_yates(identity(len as nat), len - 1, self.state());
        let mut i: usize = len;
        while i > 1
            invariant
                i <= len,
                order@.len() == len,
                len >= 1 ==> fisher_yates(order@, i - 1, self.state()) == shuffled,
                len == 0 ==> order@ == shuffled,
                len >= 1 ==> i >= 1,
            decreases i,
        {
            i -= 1;
            let drawn: u64 = self.next_u64();
            let j: usize = (drawn % (i as u64 + 1)) as usize;
            let at_i: usize = order[i];
            let at_j: usize = order[j];
            let ghost before = order@;
            order.set(i, at_j);
            order.set(j, at_i);
            assert(order@ =~= swapped(before, i as int, j as int));
        }
        order
    }
}

/// The first index at or after `from` at which a track with this id stands.
pub open spec fn first_index(tracks: Seq<TrackView>, id: ScopedIdView, from: int) -> Option<int>
    decreases tracks.len() - from,
{
    if from >= tracks.len() {
        None
    } else if tracks[from].id == id {
        Some(from)
    } else {
        first_index(tracks, id, from + 1)
    }
}

pub proof fn lemma_first_index(tracks: Seq<TrackView>, id: ScopedIdView, from: int)
    requires
        0 <= from,
    ensures
        match first_index(tracks, id, from) {
            Some(i) => from <= i < tracks.len() && tracks[i].id == id && forall|k: int|
                from <= k < i ==> (#[trigger] tracks[k]).id != id,
            None => forall|k: int| from <= k < tracks.len() ==> (#[trigger] tracks[k]).id != id,
        },
    decreases tracks.len() - from,
{
    if from < tracks.len() && tracks[from].id != id {
        lemma_first_index(tracks, id, from + 1);
    }
}

/// What a queue holds, and where in its traversal it stands.
#[verifier::ext_equal]
pub struct QueueModel {
    pub tracks: Seq<TrackView>,
    /// The traversal: indices into `tracks`.
    pub order: Seq<usize>,
    /// The place of the current track in `order`.
    pub cursor: Option<int>,
    pub loop_mode: LoopMode,
    pub shuffle: bool,
}

impl QueueModel {
    /// The traversal visits every track once, in the original order unless
    /// shuffled; the cursor stands on one of its places.
    pub open spec fn valid(self) -> bool {
        &&& self.tracks.len() <= usize::MAX
        &&& self.order.len() == self.tracks.len()
        &&& is_permutation(self.order)
        &&& !self.shuffle ==> self.order == identity(self.tracks.len())
        &&& self.cursor matches Some(c) ==> 0 <= c < self.order.len()
    }

    /// The index of the current track.
    pub open spec fn current_index(self) -> Option<int> {
        match self.cursor {
            Some(c) => Some(self.order[c] as int),
            None => None,
        }
    }

    /// The track at a place of the traversal.
    pub open spec fn visited(self, place: int) -> TrackView {
        self.tracks[self.order[place] as int]
    }

    /// The place after (`forward`) or before `place`. At the edge a looped
    /// queue wraps round and an unlooped one has none. A natural advance
    /// under `LoopMode::Track` stays where it is; a manual skip treats
    /// that mode like `LoopMode::Queue`.
    pub open spec fn step(self, place: int, forward: bool, natural: bool) -> Option<int> {
        let len = self.order.len() as int;
        if natural && self.loop_mode == LoopMode::Track {
            Some(place)
        } else if forward && place + 1 < len {
            Some(place + 1)
        } else if !forward && place >= 1 {
            Some(place - 1)
        } else if self.loop_mode == LoopMode::Off {
            None
        } else if forward {
            Some(0)
        } else {
            Some(len - 1)
        }
    }

    /// Where a move takes the cursor. A queue that is not at any track yet
    /// starts with the first place.
    pub open spec fn moved(self, forward: bool, natural: bool) -> Option<int> {
        match self.cursor {
            Some(c) => self.step(c, forward, natural),
            None => if self.order.len() > 0 {
                Some(0)
            } else {
                None
            },
        }
    }

    /// The queue after a move: unchanged where there is nowhere to go.
    pub open spec fn after_move(self, forward: bool, natural: bool) -> QueueModel {
        match self.moved(forward, natural) {
            Some(c) => QueueModel { cursor: Some(c), ..self },
            None => self,
        }
    }

    /// The next `depth` tracks of a natural advance from `place`, as many
    /// as there are.
    pub open spec fn ahead(self, place: int, depth: nat) -> Seq<TrackView>
        decreases depth,
    {
        if depth == 0 {
            Seq::empty()
        } else {
            match self.step(place, true, true) {
                Some(next) => seq![self.visited(next)] + self.ahead(next, (depth - 1) as nat),
                None => Seq::empty(),
            }
        }
    }

    /// The place reached by `times` manual skips forward.
    pub open spec fn skipped(self, place: int, times: nat) -> Option<int>
        decreases times,
    {
        if times == 0 {
            Some(place)
        } else {
            match self.skipped(place, (times - 1) as nat) {
                Some(c) => self.step(c, true, false),
                None => None,
            }
        }
    }

    /// The queue of a new player.
    pub open spec fn fresh() -> QueueModel {
        QueueModel {
            tracks: Seq::empty(),
            order: Seq::empty(),
            cursor: None,
            loop_mode: LoopMode::Off,
            shuffle: false,
        }
    }

    /// The queue without its tracks. The modes stay.
    pub open spec fn cleared(self) -> QueueModel {
        QueueModel { tracks: Seq::empty(), order: Seq::empty(), cursor: None, ..self }
    }

    /// The queue with tracks put at the end, of the list and of the
    /// traversal.
    pub open spec fn appended(self, more: Seq<TrackView>) -> QueueModel {
        QueueModel {
            tracks: self.tracks + more,
            order: self.order + Seq::new(
                more.len(),
                |i: int| (self.tracks.len() + i) as usize,
            ),
            ..self
        }
    }

    /// Whether this is the queue `other` standing at an index.
    pub open spec fn standing_at(self, other: QueueModel, index: int) -> bool {
        self.same_but_cursor(other) && self.current_index() == Some(index)
    }

    /// The same queue with the cursor aside.
    pub open spec fn same_but_cursor(self, other: QueueModel) -> bool {
        self == (QueueModel { cursor: self.cursor, ..other })
    }
}

/// The playback queue.
pub struct Queue {
    tracks: Vec<Track>,
    /// The place of the current track in the traversal.
    cursor: Option<usize>,
    loop_mode: LoopMode,
    shuffle: bool,
    /// Empty unless `shuffle` is on.
    order: Vec<usize>,
}

impl View for Queue {
    type V = QueueModel;

    closed spec fn view(&self) -> QueueModel {
        QueueModel {
            tracks: track_views(self.tracks@),
            order: if self.shuffle {
                self.order@
            } else {
                identity(self.tracks@.len())
            },
            cursor: match self.cursor {
                Some(c) => Some(c as int),
                None => None,
            },
            loop_mode: self.loop_mode,
            shuffle: self.shuffle,
        }
    }
}

/// The position of `value` in a permutation.
fn position_of(order: &Vec<usize>, value: usize) -> (r: usize)
    requires
        is_permutation(order@),
        value < order@.len(),
    ensures
        r < order@.len(),
        order@[r as int] == value,
{
    proof {
        assert(order@.contains(value));
    }
    let ghost witness = choose|k: int| 0 <= k < order@.len() && order@[k] == value;
    let len: usize = order.len();
    let mut i: usize = 0;
    while order[i] != value
        invariant
            len == order@.len(),
            i <= witness < len,
            order@[witness] == value,
        decreases witness - i,
    {
        i += 1;
    }
    i
}

impl Queue {
    pub open spec fn wf(&self) -> bool {
        &&& self@.valid()
        &&& self.sound()
    }

    /// Only a shuffled queue stores its order.
    pub closed spec fn sound(&self) -> bool {
        !self.shuffle ==> self.order@.len() == 0
    }

    pub fn new() -> (r: Self)
        ensures
            r.wf(),
            r@ == QueueModel::fresh(),
    {
        let r = Queue {
            tracks: Vec::new(),
            cursor: None,
            loop_mode: LoopMode::Off,
            shuffle: false,
            order: Vec::new(),
        };
        proof {
            lemma_identity_is_permutation(0);
            assert(r@.order =~= Seq::empty());
            assert(r@.tracks =~= Seq::empty());
        }
        r
    }

    /// Puts a track at the end, of the list and of the traversal.
    pub fn append(&mut self, track: Track)
        requires
            old(self).wf(),
        ensures
            final(self).wf(),
            final(self)@ == (QueueModel {
                tracks: old(self)@.tracks.push(track@),
                order: old(self)@.order.push(old(self)@.tracks.len() as usize),
                ..old(self)@
            }),
    {
        let ghost before = self@;
        let index: usize = self.tracks.len();
        self.tracks.push(track);
        if self.shuffle {
            self.order.push(index);
        }
        assert(self.tracks.len() == index + 1);
        proof {
            assert(self@.tracks =~= before.tracks.push(track@));
            assert(self@.order =~= before.order.push(index));
            assert forall|v: usize| (v as int) < self@.order.len() implies self@.order.contains(
                v,
            ) by {
                if v == index {
                    assert(self@.order[index as int] == v);
                } else {
                    assert(before.order.contains(v));
                    let k = choose|k: int| 0 <= k < before.order.len() && before.order[k] == v;
                    assert(self@.order[k] == v);
                }
            }
        }
    }

    /// Puts tracks at the end, in their order.
    pub fn append_all(&mut self, tracks: Vec<Track>)
        requires
            old(self).wf(),
        ensures
            final(self).wf(),
            final(self)@ == old(self)@.appended(track_views(tracks@)),
    {
        let ghost before = self@;
        let ghost whole = tracks@;
        proof {
            assert(before.appended(Seq::empty()) =~= before);
            assert(track_views(whole).subrange(0, 0) =~= Seq::empty());
        }
        for track in it: tracks
            invariant
                it.seq() == whole,
                self.wf(),
                self@ == before.appended(track_views(whole).subrange(0, it.index() as int)),
        {
            let ghost done = it.index() as int;
            let ghost view = track@;
            self.append(track);
            proof {
                assert(track_views(whole)[done] == view);
                assert(self@ =~= before.appended(track_views(whole).subrange(0, done + 1)));
            }
        }
        proof {
            assert(track_views(whole).subrange(0, whole.len() as int) =~= track_views(whole));
        }
    }

    /// Replaces all tracks and moves to one of the new ones.
    pub fn replace(&mut self, tracks: Vec<Track>, start: usize)
        requires
            old(self).wf(),
            start < tracks@.len(),
        ensures
            final(self).wf(),
            final(self)@.standing_at(
                old(self)@.cleared().appended(track_views(tracks@)),
                start as int,
            ),
    {
        self.clear();
        self.append_all(tracks);
        self.goto(start);
    }

    /// Removes all tracks. The modes stay.
    pub fn clear(&mut self)
        requires
            old(self).wf(),
        ensures
            final(self).wf(),
            final(self)@ == old(self)@.cleared(),
    {
        self.tracks.clear();
        self.order.clear();
        self.cursor = None;
        proof {
            lemma_identity_is_permutation(0);
            assert(self@.order =~= Seq::empty());
            assert(self@.tracks =~= Seq::empty());
            assert(identity(0) =~= Seq::empty());
        }
    }

    /// Moves to the track with this index in the original order. Out of
    /// bounds nothing happens and the answer is `false`.
    pub fn goto(&mut self, index: usize) -> (r: bool)
        requires
            old(self).wf(),
        ensures
            final(self).wf(),
            r == (index < old(self)@.tracks.len()),
            !r ==> final(self)@ == old(self)@,
            r ==> final(self)@.same_but_cursor(old(self)@) && final(self)@.current_index() == Some(
                index as int,
            ),
    {
        if index >= self.tracks.len() {
            return false;
        }
        let place: usize = if self.shuffle {
            position_of(&self.order, index)
        } else {
            index
        };
        self.cursor = Some(place);
        true
    }

    pub fn current(&self) -> (r: Option<&Track>)
        requires
            self.wf(),
        ensures
            r is Some <==> self@.cursor is Some,
            r matches Some(t) ==> t@ == self@.visited(self@.cursor->0),
    {
        match self.cursor {
            Some(cursor) => Some(self.track_at_cursor(cursor)),
            None => None,
        }
    }

    pub fn len(&self) -> (r: usize)
        requires
            self.wf(),
        ensures
            r == self@.tracks.len(),
    {
        self.tracks.len()
    }

    pub fn is_empty(&self) -> (r: bool)
        requires
            self.wf(),
        ensures
            r == (self@.tracks.len() == 0),
    {
        self.tracks.len() == 0
    }

    pub fn loop_mode(&self) -> (r: LoopMode)
        ensures
            r == self@.loop_mode,
    {
        self.loop_mode
    }

    pub fn set_loop_mode(&mut self, mode: LoopMode)
        requires
            old(self).wf(),
        ensures
            final(self).wf(),
            final(self)@ == (QueueModel { loop_mode: mode, ..old(self)@ }),
    {
        self.loop_mode = mode;
    }

    pub fn shuffle(&self) -> (r: bool)
        ensures
            r == self@.shuffle,
    {
        self.shuffle
    }

    /// Switches shuffling on or off. The current track stays current.
    ///
    /// The order comes from the clock; `set_shuffle_with` says what it is
    /// for each state of the generator.
    pub fn set_shuffle(&mut self, shuffle: bool)
        requires
            old(self).wf(),
        ensures
            final(self).wf(),
            final(self)@.shuffle == shuffle,
            final(self)@.tracks == old(self)@.tracks,
            final(self)@.loop_mode == old(self)@.loop_mode,
            final(self)@.current_index() == old(self)@.current_index(),
            !shuffle ==> final(self)@.order == identity(old(self)@.tracks.len()),
            shuffle && !old(self)@.shuffle ==> drawn(final(self)@.order),
            shuffle == old(self)@.shuffle ==> final(self)@ == old(self)@,
    {
        let mut rng = XorShift::from_time();
        self.set_shuffle_with(shuffle, &mut rng);
    }

    /// Switches shuffling on or off, drawing the order from `rng`. The
    /// current track stays current.
    pub fn set_shuffle_with(&mut self, shuffle: bool, rng: &mut XorShift)
        requires
            old(self).wf(),
        ensures
            final(self).wf(),
            final(self)@.shuffle == shuffle,
            final(self)@.tracks == old(self)@.tracks,
            final(self)@.loop_mode == old(self)@.loop_mode,
            final(self)@.current_index() == old(self)@.current_index(),
            shuffle == old(self)@.shuffle ==> final(self)@ == old(self)@ && final(rng).state()
                == old(rng).state(),
            shuffle && !old(self)@.shuffle ==> final(self)@.order == fisher_yates(
                identity(old(self)@.tracks.len()),
                old(self)@.tracks.len() - 1,
                old(rng).state(),
            ),
            !shuffle ==> final(self)@.order == identity(old(self)@.tracks.len()),
    {
        if shuffle == self.shuffle {
            return;
        }
        let current: Option<usize> = self.current_index();
        self.shuffle = shuffle;
        if shuffle {
            self.order = rng.shuffle_order(self.tracks.len());
        } else {
            self.order.clear();
            proof {
                lemma_identity_is_permutation(self.tracks@.len());
            }
        }
        self.cursor = match current {
            Some(index) => if shuffle {
                Some(position_of(&self.order, index))
            } else {
                Some(index)
            },
            None => None,
        };
    }

    /// The index of the current track in the original order.
    pub fn current_index(&self) -> (r: Option<usize>)
        requires
            self.wf(),
        ensures
            r is Some <==> self@.cursor is Some,
            r matches Some(i) ==> self@.current_index() == Some(i as int) && i < self@.tracks.len(),
    {
        match self.cursor {
            Some(cursor) => if self.shuffle {
                Some(self.order[cursor])
            } else {
                Some(cursor)
            },
            None => None,
        }
    }

    /// The track that a natural advance leads to, without moving there.
    /// Under `LoopMode::Track` that is the current one.
    pub fn peek_next(&self) -> (r: Option<&Track>)
        requires
            self.wf(),
        ensures
            r is Some <==> (self@.cursor matches Some(c) && self@.step(c, true, true) is Some),
            r matches Some(t) ==> t@ == self@.visited(
                self@.step(self@.cursor->0, true, true)->0,
            ),
    {
        match self.cursor {
            Some(cursor) => match self.advance_from(cursor, true, true) {
                Some(next) => Some(self.track_at_cursor(next)),
                None => None,
            },
            None => None,
        }
    }

    /// The next `depth` tracks of a natural advance, without moving.
    pub fn peek_ahead(&self, depth: usize) -> (r: Vec<Track>)
        requires
            self.wf(),
        ensures
            track_views(r@) == match self@.cursor {
                Some(c) => self@.ahead(c, depth as nat),
                None => Seq::empty(),
            },
    {
        let mut out: Vec<Track> = Vec::new();
        assert(track_views(out@) =~= Seq::empty());
        let mut cursor: usize = match self.cursor {
            Some(cursor) => cursor,
            None => return out,
        };
        let ghost whole = self@.ahead(cursor as int, depth as nat);
        let mut left: usize = depth;
        assert(track_views(out@) + whole =~= whole);
        while left > 0
            invariant
                self.wf(),
                self@.cursor is Some,
                whole == self@.ahead(self@.cursor->0, depth as nat),
                0 <= cursor < self@.order.len(),
                track_views(out@) + self@.ahead(cursor as int, left as nat) == whole,
            decreases left,
        {
            match self.advance_from(cursor, true, true) {
                Some(next) => {
                    let ghost before = track_views(out@);
                    let ghost rest = self@.ahead(next as int, (left - 1) as nat);
                    cursor = next;
                    out.push(self.track_at_cursor(cursor).clone());
                    left -= 1;
                    assert(track_views(out@) =~= before.push(self@.visited(next as int)));
                    assert(before.push(self@.visited(next as int)) + rest =~= before + (seq![
                        self@.visited(next as int),
                    ] + rest));
                },
                None => {
                    assert(track_views(out@) + Seq::<TrackView>::empty() =~= track_views(out@));
                    return out;
                },
            }
        }
        assert(track_views(out@) + Seq::<TrackView>::empty() =~= track_views(out@));
        out
    }

    /// A manual skip: `LoopMode::Track` does not hold it back.
    pub fn next(&mut self) -> (r: Option<&Track>)
        requires
            old(self).wf(),
        ensures
            final(self).wf(),
            final(self)@ == old(self)@.after_move(true, false),
            r is Some <==> old(self)@.moved(true, false) is Some,
            r matches Some(t) ==> t@ == old(self)@.visited(old(self)@.moved(true, false)->0),
    {
        self.go(true, false)
    }

    /// The advance at the end of a track: under `LoopMode::Track` the
    /// current track comes again, wherever in the queue it stands.
    pub fn next_natural(&mut self) -> (r: Option<&Track>)
        requires
            old(self).wf(),
        ensures
            final(self).wf(),
            final(self)@ == old(self)@.after_move(true, true),
            r is Some <==> old(self)@.moved(true, true) is Some,
            r matches Some(t) ==> t@ == old(self)@.visited(old(self)@.moved(true, true)->0),
    {
        self.go(true, true)
    }

    /// A manual step back, the mirror image of `next`.
    pub fn prev(&mut self) -> (r: Option<&Track>)
        requires
            old(self).wf(),
        ensures
            final(self).wf(),
            final(self)@ == old(self)@.after_move(false, false),
            r is Some <==> old(self)@.moved(false, false) is Some,
            r matches Some(t) ==> t@ == old(self)@.visited(old(self)@.moved(false, false)->0),
    {
        self.go(false, false)
    }

    fn go(&mut self, forward: bool, natural: bool) -> (r: Option<&Track>)
        requires
            old(self).wf(),
        ensures
            final(self).wf(),
            final(self)@ == old(self)@.after_move(forward, natural),
            r is Some <==> old(self)@.moved(forward, natural) is Some,
            r matches Some(t) ==> t@ == old(self)@.visited(old(self)@.moved(forward, natural)->0),
    {
        let target: Option<usize> = match self.cursor {
            Some(cursor) => self.advance_from(cursor, forward, natural),
            None => if self.tracks.len() > 0 {
                Some(0)
            } else {
                None
            },
        };
        match target {
            Some(cursor) => {
                self.cursor = Some(cursor);
                Some(self.track_at_cursor(cursor))
            },
            None => None,
        }
    }

    fn advance_from(&self, cursor: usize, forward: bool, natural: bool) -> (r: Option<usize>)
        requires
            self.wf(),
            cursor < self@.order.len(),
        ensures
            r is Some <==> self@.step(cursor as int, forward, natural) is Some,
            r matches Some(c) ==> self@.step(cursor as int, forward, natural) == Some(c as int) && c
                < self@.order.len(),
    {
        let len: usize = self.tracks.len();
        if natural && self.loop_mode == LoopMode::Track {
            return Some(cursor);
        }
        if forward {
            if cursor + 1 < len {
                return Some(cursor + 1);
            }
        } else if cursor >= 1 {
            return Some(cursor - 1);
        }
        match self.loop_mode {
            LoopMode::Off => None,
            LoopMode::Track | LoopMode::Queue => if forward {
                Some(0)
            } else {
                Some(len - 1)
            },
        }
    }

    fn track_at_cursor(&self, cursor: usize) -> (r: &Track)
        requires
            self.wf(),
            cursor < self@.order.len(),
        ensures
            r@ == self@.visited(cursor as int),
    {
        let index: usize = if self.shuffle {
            self.order[cursor]
        } else {
            cursor
        };
        &self.tracks[index]
    }

    /// The first index at which the track with this id stands.
    pub fn find_index(&self, id: &TrackId) -> (r: Option<usize>)
        requires
            self.wf(),
        ensures
            match r {
                Some(i) => first_index(self@.tracks, id@, 0) == Some(i as int) && i
                    < self@.tracks.len(),
                None => first_index(self@.tracks, id@, 0) is None,
            },
    {
        let mut i: usize = 0;
        while i < self.tracks.len()
            invariant
                i <= self.tracks@.len(),
                self.wf(),
                first_index(self@.tracks, id@, 0) == first_index(self@.tracks, id@, i as int),
            decreases self.tracks@.len() - i,
        {
            assert(self@.tracks[i as int] == self.tracks@[i as int]@);
            if self.tracks[i].id == *id {
                return Some(i);
            }
            i += 1;
        }
        None
    }

    /// The track with this index in the original order.
    pub fn track_at(&self, index: usize) -> (r: Option<&Track>)
        requires
            self.wf(),
        ensures
            r is Some <==> index < self@.tracks.len(),
            r matches Some(t) ==> t@ == self@.tracks[index as int],
    {
        if index < self.tracks.len() {
            Some(&self.tracks[index])
        } else {
            None
        }
    }

    /// All tracks in the original order.
    pub fn tracks(&self) -> (r: &[Track])
        requires
            self.wf(),
        ensures
            track_views(r@) == self@.tracks,
    {
        self.tracks.as_slice()
    }

    /// Takes over saved tracks, position and modes. A position out of
    /// bounds is dropped. Under shuffling the order is drawn anew and the
    /// saved track stays current.
    ///
    /// The order comes from the clock; `restore_with` says what it is for
    /// each state of the generator.
    pub fn restore(
        &mut self,
        tracks: Vec<Track>,
        index: Option<usize>,
        loop_mode: LoopMode,
        shuffle: bool,
    )
        requires
            old(self).wf(),
        ensures
            final(self).wf(),
            final(self)@.tracks == track_views(tracks@),
            final(self)@.loop_mode == loop_mode,
            final(self)@.shuffle == shuffle,
            final(self)@.current_index() == (match index {
                Some(i) => if i < tracks@.len() {
                    Some(i as int)
                } else {
                    None
                },
                None => None,
            }),
            shuffle ==> drawn(final(self)@.order),
            !shuffle ==> final(self)@.order == identity(tracks@.len()),
    {
        let mut rng = XorShift::from_time();
        self.restore_with(tracks, index, loop_mode, shuffle, &mut rng);
    }

    /// Takes over saved tracks, position and modes, drawing the order of a
    /// shuffled queue from `rng`.
    pub fn restore_with(
        &mut self,
        tracks: Vec<Track>,
        index: Option<usize>,
        loop_mode: LoopMode,
        shuffle: bool,
        rng: &mut XorShift,
    )
        requires
            old(self).wf(),
        ensures
            final(self).wf(),
            final(self)@.tracks == track_views(tracks@),
            final(self)@.loop_mode == loop_mode,
            final(self)@.shuffle == shuffle,
            final(self)@.current_index() == (match index {
                Some(i) => if i < tracks@.len() {
                    Some(i as int)
                } else {
                    None
                },
                None => None,
            }),
            final(self)@.order == if shuffle {
                fisher_yates(identity(tracks@.len()), tracks@.len() - 1, old(rng).state())
            } else {
                identity(tracks@.len())
            },
    {
        let len: usize = tracks.len();
        proof {
            lemma_identity_is_permutation(len as nat);
        }
        self.tracks = tracks;
        self.order.clear();
        self.cursor = None;
        self.shuffle = false;
        self.loop_mode = loop_mode;
        self.set_shuffle_with(shuffle, rng);
        if let Some(i) = index {
            self.goto(i);
        }
    }
}

impl Default for Queue {
    fn default() -> (r: Self)
        ensures
            r.wf(),
            r@ == QueueModel::fresh(),
    {
        Queue::new()
    }
}

/// The index of the current track names one of the tracks in their original
/// order, shuffled or not. Tracks at the end, another repeat mode and a move
/// that leads nowhere leave it as it is.
pub proof fn lemma_index_stays_with_the_current_track(
    q: QueueModel,
    more: Seq<TrackView>,
    mode: LoopMode,
    forward: bool,
    natural: bool,
)
    requires
        q.valid(),
    ensures
        q.current_index() matches Some(i) ==> 0 <= i < q.tracks.len() && q.tracks[i] == q.visited(
            q.cursor->0,
        ),
        q.appended(more).current_index() == q.current_index(),
        (QueueModel { loop_mode: mode, ..q }).current_index() == q.current_index(),
        q.moved(forward, natural) is None ==> q.after_move(forward, natural).current_index()
            == q.current_index(),
        q.moved(forward, natural) is Some ==> (q.after_move(forward, natural).current_index()
            matches Some(i) && 0 <= i < q.tracks.len()),
{
    if let Some(c) = q.cursor {
        assert((q.order[c] as int) < q.order.len());
        assert(q.appended(more).order[c] == q.order[c]);
    }
    if let Some(c) = q.moved(forward, natural) {
        assert((q.order[c] as int) < q.order.len());
    }
}

/// A natural advance under `LoopMode::Track` repeats the current track at
/// every place of the queue.
pub proof fn lemma_repeat_track_stays_put(q: QueueModel)
    requires
        q.valid(),
        q.loop_mode == LoopMode::Track,
        q.cursor is Some,
    ensures
        q.after_move(true, true) == q,
        q.moved(true, true) == q.cursor,
{
}

/// In a queue of two tracks or more a manual skip never lands on the track
/// that it left, in either direction and under every repeat mode.
pub proof fn lemma_manual_skip_changes_track(q: QueueModel, forward: bool)
    requires
        q.valid(),
        q.tracks.len() >= 2,
        q.cursor is Some,
        q.moved(forward, false) is Some,
    ensures
        q.after_move(forward, false).current_index() != q.current_index(),
{
}

/// A move has somewhere to go from every place of a looped queue.
pub proof fn lemma_looped_queue_never_ends(q: QueueModel, forward: bool, natural: bool)
    requires
        q.valid(),
        q.loop_mode != LoopMode::Off,
        q.tracks.len() >= 1,
    ensures
        q.moved(forward, natural) is Some,
{
}

/// A manual skip and a step the other way lead back to the same place.
pub proof fn lemma_skip_and_back(q: QueueModel, forward: bool)
    requires
        q.valid(),
        q.cursor is Some,
        q.moved(forward, false) is Some,
    ensures
        q.after_move(forward, false).after_move(!forward, false) == q,
{
}

/// Moving keeps the queue valid and touches nothing but the cursor.
pub proof fn lemma_moves_keep_the_queue(q: QueueModel, forward: bool, natural: bool)
    requires
        q.valid(),
    ensures
        q.after_move(forward, natural).valid(),
        q.after_move(forward, natural).same_but_cursor(q),
{
}

/// Skipping through an unlooped queue from its first place visits every
/// place in turn and then ends; every track stands at exactly one place.
pub proof fn lemma_traversal_visits_every_track_once(q: QueueModel)
    requires
        q.valid(),
        q.loop_mode == LoopMode::Off,
        q.tracks.len() >= 1,
    ensures
        forall|k: nat| k < q.tracks.len() ==> #[trigger] q.skipped(0, k) == Some(k as int),
        q.skipped(0, q.tracks.len()) is None,
        forall|index: usize|
            (index as int) < q.tracks.len() ==> q.order.contains(index),
        forall|i: int, j: int|
            0 <= i < q.order.len() && 0 <= j < q.order.len() && q.order[i] == q.order[j] ==> i
                == j,
{
    assert forall|k: nat| k < q.tracks.len() implies #[trigger] q.skipped(0, k) == Some(
        k as int,
    ) by {
        lemma_unlooped_skips(q, k);
    }
    lemma_unlooped_skips(q, (q.tracks.len() - 1) as nat);
}

proof fn lemma_unlooped_skips(q: QueueModel, k: nat)
    requires
        q.valid(),
        q.loop_mode == LoopMode::Off,
        k < q.tracks.len(),
    ensures
        q.skipped(0, k) == Some(k as int),
    decreases k,
{
    if k > 0 {
        lemma_unlooped_skips(q, (k - 1) as nat);
    }
}

/// In a looped queue `k` skips lead `k` places further, counted round the
/// queue.
pub proof fn lemma_looped_skips_go_round(q: QueueModel, place: int, k: nat)
    requires
        q.valid(),
        q.loop_mode != LoopMode::Off,
        0 <= place < q.tracks.len(),
    ensures
        q.skipped(place, k) == Some((place + k) % (q.tracks.len() as int)),
    decreases k,
{
    let len = q.tracks.len() as int;
    if k == 0 {
        vstd::arithmetic::div_mod::lemma_small_mod(place as nat, len as nat);
    } else {
        lemma_looped_skips_go_round(q, place, (k - 1) as nat);
        let at = (place + k - 1) % len;
        vstd::arithmetic::div_mod::lemma_mod_bound(place + k - 1, len);
        vstd::arithmetic::div_mod::lemma_add_mod_noop(place + k - 1, 1, len);
        if at + 1 < len {
            vstd::arithmetic::div_mod::lemma_small_mod((at + 1) as nat, len as nat);
        } else {
            vstd::arithmetic::div_mod::lemma_mod_self_0(len);
        }
        if len > 1 {
            vstd::arithmetic::div_mod::lemma_small_mod(1, len as nat);
        }
    }
}

/// A looped queue repeats itself: as many skips as there are tracks lead
/// back to the start, so the second round has the order of the first.
pub proof fn lemma_rounds_repeat(q: QueueModel, place: int, k: nat)
    requires
        q.valid(),
        q.loop_mode != LoopMode::Off,
        0 <= place < q.tracks.len(),
    ensures
        q.skipped(place, q.tracks.len()) == Some(place),
        q.skipped(place, k + q.tracks.len()) == q.skipped(place, k),
{
    let len = q.tracks.len();
    lemma_looped_skips_go_round(q, place, len);
    lemma_looped_skips_go_round(q, place, k);
    lemma_looped_skips_go_round(q, place, k + len);
    vstd::arithmetic::div_mod::lemma_mod_add_multiples_vanish(place, len as int);
    vstd::arithmetic::div_mod::lemma_mod_add_multiples_vanish(place + k, len as int);
    vstd::arithmetic::div_mod::lemma_small_mod(place as nat, len);
}

/// What `peek_next` shows is what `next_natural` then plays.
pub proof fn lemma_peek_foretells_the_natural_advance(q: QueueModel)
    requires
        q.valid(),
        q.cursor is Some,
    ensures
        q.step(q.cursor->0, true, true) == q.moved(true, true),
        q.ahead(q.cursor->0, 1) == (match q.moved(true, true) {
            Some(next) => seq![q.visited(next)],
            None => Seq::empty(),
        }),
{
    reveal_with_fuel(QueueModel::ahead, 2);
}

/// Switching shuffling on and off again gives back the queue as it was.
/// `on` and `off` stand for the queue after each switch.
pub proof fn lemma_shuffle_on_and_off(q: QueueModel, on: QueueModel, off: QueueModel)
    requires
        q.valid(),
        on.valid(),
        off.valid(),
        !q.shuffle,
        on.tracks == q.tracks,
        on.loop_mode == q.loop_mode,
        on.current_index() == q.current_index(),
        !off.shuffle,
        off.tracks == on.tracks,
        off.loop_mode == on.loop_mode,
        off.current_index() == on.current_index(),
    ensures
        off == q,
{
    assert(off.order == q.order);
    match q.cursor {
        Some(c) => {
            assert(q.order[c] == c as usize);
            let d = off.cursor->0;
            assert(off.order[d] == d as usize);
        },
        None => {},
    }
}

/// A queue restored from what was saved of another one plays the same
/// track under the same modes. `back` stands for the restored queue.
pub proof fn lemma_restore_keeps_what_was_saved(q: QueueModel, back: QueueModel)
    requires
        q.valid(),
        back.valid(),
        back.tracks == q.tracks,
        back.loop_mode == q.loop_mode,
        back.shuffle == q.shuffle,
        back.current_index() == q.current_index(),
    ensures
        q.cursor is Some ==> back.cursor is Some && back.visited(back.cursor->0) == q.visited(
            q.cursor->0,
        ),
        !q.shuffle ==> back == q,
{
    if !q.shuffle {
        lemma_shuffle_on_and_off(q, q, back);
    }
}

/// The state that a round of the generator came from.
pub open spec fn state_before(drawn: u64) -> u64 {
    let b = drawn ^ (drawn << 17) ^ (drawn << 34) ^ (drawn << 51);
    let a = b ^ (b >> 7) ^ (b >> 14) ^ (b >> 21) ^ (b >> 28) ^ (b >> 35) ^ (b >> 42) ^ (b >> 49)
        ^ (b >> 56) ^ (b >> 63);
    a ^ (a << 13) ^ (a << 26) ^ (a << 39) ^ (a << 52)
}

/// The generator loses nothing: every number can be drawn, from one state
/// alone, and only the dead state draws zero.
pub proof fn lemma_every_number_can_be_drawn(drawn: u64, state: u64)
    ensures
        xorshift(state_before(drawn)) == drawn,
        state_before(xorshift(state)) == state,
        state != 0 ==> xorshift(state) != 0,
{
    assert({
        let b = drawn ^ (drawn << 17) ^ (drawn << 34) ^ (drawn << 51);
        b ^ (b << 17) == drawn
    }) by (bit_vector);
    let b = drawn ^ (drawn << 17) ^ (drawn << 34) ^ (drawn << 51);
    assert({
        let a = b ^ (b >> 7) ^ (b >> 14) ^ (b >> 21) ^ (b >> 28) ^ (b >> 35) ^ (b >> 42) ^ (b
            >> 49) ^ (b >> 56) ^ (b >> 63);
        a ^ (a >> 7) == b
    }) by (bit_vector);
    let a = b ^ (b >> 7) ^ (b >> 14) ^ (b >> 21) ^ (b >> 28) ^ (b >> 35) ^ (b >> 42) ^ (b >> 49)
        ^ (b >> 56) ^ (b >> 63);
    assert({
        let s = a ^ (a << 13) ^ (a << 26) ^ (a << 39) ^ (a << 52);
        s ^ (s << 13) == a
    }) by (bit_vector);
    let c = state ^ (state << 13);
    assert({
        let c = state ^ (state << 13);
        c ^ (c << 13) ^ (c << 26) ^ (c << 39) ^ (c << 52) == state
    }) by (bit_vector);
    let d = c ^ (c >> 7);
    assert({
        let d = c ^ (c >> 7);
        d ^ (d >> 7) ^ (d >> 14) ^ (d >> 21) ^ (d >> 28) ^ (d >> 35) ^ (d >> 42) ^ (d >> 49) ^ (d
            >> 56) ^ (d >> 63) == c
    }) by (bit_vector);
    assert({
        let e = d ^ (d << 17);
        e ^ (e << 17) ^ (e << 34) ^ (e << 51) == d
    }) by (bit_vector);
    assert(state_before(0) == 0) by {
        assert({
            let b = 0u64 ^ (0u64 << 17) ^ (0u64 << 34) ^ (0u64 << 51);
            let a = b ^ (b >> 7) ^ (b >> 14) ^ (b >> 21) ^ (b >> 28) ^ (b >> 35) ^ (b >> 42) ^ (b
                >> 49) ^ (b >> 56) ^ (b >> 63);
            a ^ (a << 13) ^ (a << 26) ^ (a << 39) ^ (a << 52) == 0u64
        }) by (bit_vector);
    }
}

proof fn lemma_shuffle_leaves_the_places_above(order: Seq<usize>, i: int, state: u64)
    requires
        i < order.len(),
    ensures
        fisher_yates(order, i, state).len() == order.len(),
        forall|k: int|
            i < k < order.len() ==> #[trigger] fisher_yates(order, i, state)[k] == order[k],
    decreases i,
{
    if i >= 1 {
        let drawn = xorshift(state);
        lemma_shuffle_leaves_the_places_above(
            swapped(order, i, drawn as int % (i + 1)),
            i - 1,
            drawn,
        );
    }
}

/// Every element at or below a place can be brought there, and each by some
/// living state of the generator: nothing is fixed beforehand.
pub proof fn lemma_every_element_can_be_picked(order: Seq<usize>, i: int, j: int)
    requires
        1 <= i < order.len() <= usize::MAX,
        0 <= j <= i,
    ensures
        exists|state: u64|
            state != 0 && #[trigger] fisher_yates(order, i, state)[i] == order[j],
{
    let drawn: u64 = if j == 0 {
        (i + 1) as u64
    } else {
        j as u64
    };
    let state = state_before(drawn);
    lemma_every_number_can_be_drawn(drawn, 0);
    assert(state != 0) by {
        assert(0u64 ^ (0u64 << 13) == 0u64) by (bit_vector);
        assert(0u64 ^ (0u64 >> 7) == 0u64) by (bit_vector);
        assert(0u64 ^ (0u64 << 17) == 0u64) by (bit_vector);
    }
    assert(drawn as int % (i + 1) == j) by {
        if j == 0 {
            vstd::arithmetic::div_mod::lemma_mod_self_0(i + 1);
        } else {
            vstd::arithmetic::div_mod::lemma_small_mod(j as nat, (i + 1) as nat);
        }
    }
    lemma_shuffle_leaves_the_places_above(swapped(order, i, j), i - 1, drawn);
    assert(fisher_yates(order, i, state)[i] == order[j]);
}

/// A shuffle mixes: whatever order one state gives, some living state gives
/// another one, and that at every place of the traversal. Every track can
/// come last.
pub proof fn lemma_shuffles_differ_at_every_place(len: nat, place: int, state: u64, v: usize)
    requires
        2 <= len <= usize::MAX,
        0 <= place < len,
        v < len,
    ensures
        exists|other: u64|
            other != 0 && #[trigger] fisher_yates(identity(len), len - 1, other)[place]
                != fisher_yates(identity(len), len - 1, state)[place],
        exists|other: u64|
            other != 0 && #[trigger] fisher_yates(identity(len), len - 1, other)[len - 1] == v,
{
    let id = identity(len);
    let last = len - 1;
    lemma_every_element_can_be_picked(id, last, v as int);
    assert(id[v as int] == v);
    lemma_identity_is_permutation(len);
    lemma_fisher_yates_keeps_permutation(id, last, state);
    let c = fisher_yates(id, last, state)[place];
    let brought: usize = if place == last {
        if c == 0 {
            1
        } else {
            0
        }
    } else {
        c
    };
    lemma_every_element_can_be_picked(id, last, brought as int);
    assert(id[brought as int] == brought);
    let other = choose|other: u64|
        other != 0 && #[trigger] fisher_yates(id, last, other)[last] == brought;
    lemma_fisher_yates_keeps_permutation(id, last, other);
    let mixed = fisher_yates(id, last, other);
    if place < last {
        assert(mixed[place] != mixed[last]);
    }
    assert(mixed[place] != c);
}

proof fn lemma_shuffle_of_a_part(
    order: Seq<usize>,
    part: Seq<usize>,
    f: spec_fn(usize) -> usize,
    i: int,
    state: u64,
)
    requires
        i < part.len() <= order.len(),
        forall|k: int| 0 <= k < part.len() ==> #[trigger] order[k] == f(part[k]),
    ensures
        fisher_yates(part, i, state).len() == part.len(),
        fisher_yates(order, i, state).len() == order.len(),
        forall|k: int|
            0 <= k < part.len() ==> #[trigger] fisher_yates(order, i, state)[k] == f(
                fisher_yates(part, i, state)[k],
            ),
    decreases i,
{
    if i >= 1 {
        let drawn = xorshift(state);
        let j = drawn as int % (i + 1);
        lemma_shuffle_of_a_part(
            swapped(order, i, j),
            swapped(part, i, j),
            f,
            i - 1,
            drawn,
        );
    }
}

/// How a shuffle goes on from one of a track less: the number that is drawn
/// first says which track comes last, and the others stand as the shuffle
/// without it, drawn from there on, would put them; the last track then has
/// the name of the one that it made room for.
pub proof fn lemma_shuffle_takes_one_track_after_another(len: nat, state: u64)
    requires
        2 <= len <= usize::MAX,
    ensures
        ({
            let whole = fisher_yates(identity(len), len - 1, state);
            let rest = fisher_yates(identity((len - 1) as nat), len - 2, xorshift(state));
            let out = xorshift(state) as int % (len as int);
            &&& whole.len() == len
            &&& rest.len() == len - 1
            &&& whole[len - 1] == out
            &&& forall|k: int|
                0 <= k < len - 1 ==> #[trigger] whole[k] == if rest[k] == out {
                    (len - 1) as usize
                } else {
                    rest[k]
                }
        }),
{
    let drawn = xorshift(state);
    let j = drawn as int % (len as int);
    let id = identity(len);
    let part = identity((len - 1) as nat);
    let f = |v: usize|
        if v == j {
            (len - 1) as usize
        } else {
            v
        };
    let order = swapped(id, len - 1, j);
    assert forall|k: int| 0 <= k < part.len() implies #[trigger] order[k] == f(part[k]) by {}
    lemma_shuffle_of_a_part(order, part, f, len - 2, drawn);
    lemma_shuffle_leaves_the_places_above(order, len - 2, drawn);
}

/// A queue that stands nowhere yet begins with its first place, whichever
/// way it is moved. One that is not shuffled goes through its tracks in
/// their order, forth and back, one at a time.
pub proof fn lemma_plain_queue_keeps_the_order(q: QueueModel, natural: bool)
    requires
        q.valid(),
        !q.shuffle,
    ensures
        q.cursor is None && q.tracks.len() > 0 ==> {
            &&& q.after_move(true, natural).current_index() == Some(0int)
            &&& q.after_move(false, natural).current_index() == Some(0int)
        },
        q.tracks.len() == 0 ==> q.moved(true, natural) is None && q.moved(false, natural) is None,
        q.current_index() matches Some(i) ==> {
            &&& i + 1 < q.tracks.len() ==> q.after_move(true, false).current_index() == Some(i + 1)
            &&& i > 0 ==> q.after_move(false, false).current_index() == Some(i - 1)
            &&& i + 1 < q.tracks.len() && q.loop_mode != LoopMode::Track ==> q.after_move(
                true,
                true,
            ).current_index() == Some(i + 1)
            &&& i + 1 == q.tracks.len() && q.loop_mode == LoopMode::Off ==> q.moved(true, natural)
                is None
            &&& i == 0 && q.loop_mode == LoopMode::Off ==> q.moved(false, false) is None
            &&& i + 1 == q.tracks.len() && q.loop_mode != LoopMode::Off ==> q.after_move(
                true,
                false,
            ).current_index() == Some(0int)
            &&& i + 1 == q.tracks.len() && q.loop_mode == LoopMode::Queue ==> q.after_move(
                true,
                true,
            ).current_index() == Some(0int)
            &&& i == 0 && q.loop_mode != LoopMode::Off ==> q.after_move(
                false,
                false,
            ).current_index() == Some(q.tracks.len() - 1)
        },
{
}

/// What is shown ahead is what then plays, track after track, as far as the
/// queue goes: a queue that ends shows what is left, a looped one goes
/// round, and a repeated track is all there is.
pub proof fn lemma_what_is_shown_ahead_plays(q: QueueModel, place: int, depth: nat, k: int)
    requires
        q.valid(),
        0 <= place < q.tracks.len(),
        0 <= k < depth,
    ensures
        q.loop_mode == LoopMode::Off ==> q.ahead(place, depth).len() == if place + depth
            < q.tracks.len() {
            depth as int
        } else {
            q.tracks.len() - 1 - place
        },
        q.loop_mode == LoopMode::Off && place + 1 + k < q.tracks.len() ==> q.ahead(
            place,
            depth,
        )[k] == q.visited(place + 1 + k),
        q.loop_mode == LoopMode::Queue ==> q.ahead(place, depth).len() == depth && q.ahead(
            place,
            depth,
        )[k] == q.visited((place + 1 + k) % (q.tracks.len() as int)),
        q.loop_mode == LoopMode::Track ==> q.ahead(place, depth).len() == depth && q.ahead(
            place,
            depth,
        )[k] == q.visited(place),
    decreases depth,
{
    let len = q.tracks.len() as int;
    match q.step(place, true, true) {
        Some(next) => {
            if depth == 1 {
                assert(q.ahead(next, 0).len() == 0);
            } else {
                let d = (depth - 1) as nat;
                lemma_what_is_shown_ahead_plays(q, next, d, if k > 0 {
                    k - 1
                } else {
                    0
                });
            }
            if q.loop_mode == LoopMode::Queue {
                if place + 1 < len {
                    vstd::arithmetic::div_mod::lemma_small_mod((place + 1) as nat, len as nat);
                } else {
                    vstd::arithmetic::div_mod::lemma_mod_self_0(len);
                    vstd::arithmetic::div_mod::lemma_mod_add_multiples_vanish(k, len);
                    assert((place + 1 + k) % len == k % len);
                }
            }
        },
        None => {},
    }
}

/// Tracks that are put at the end are played last, in their order, and move
/// nothing that was there before.
pub proof fn lemma_appended_tracks_come_last(q: QueueModel, more: Seq<TrackView>, k: int)
    requires
        q.valid(),
        q.tracks.len() + more.len() <= usize::MAX,
    ensures
        q.appended(more).tracks.len() == q.tracks.len() + more.len(),
        q.appended(more).cursor == q.cursor,
        q.appended(more).loop_mode == q.loop_mode,
        q.appended(more).shuffle == q.shuffle,
        0 <= k < q.tracks.len() ==> q.appended(more).visited(k) == q.visited(k)
            && q.appended(more).tracks[k] == q.tracks[k],
        0 <= k < more.len() ==> q.appended(more).visited(q.tracks.len() + k) == more[k]
            && q.appended(more).tracks[q.tracks.len() + k] == more[k],
        q.cleared().tracks.len() == 0,
        q.cleared().cursor is None,
        q.cleared().loop_mode == q.loop_mode,
        q.cleared().shuffle == q.shuffle,
{
    if 0 <= k < q.tracks.len() {
        assert((q.order[k] as int) < q.order.len());
    }
}

/// A new queue is empty, stands nowhere, and neither repeats nor shuffles.
pub proof fn lemma_a_new_queue_is_plain()
    ensures
        QueueModel::fresh().valid(),
        QueueModel::fresh().tracks.len() == 0,
        QueueModel::fresh().cursor is None,
        QueueModel::fresh().loop_mode == LoopMode::Off,
        !QueueModel::fresh().shuffle,
{
    lemma_identity_is_permutation(0);
    assert(QueueModel::fresh().order =~= identity(0));
}

} // verus!
