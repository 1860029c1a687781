//! The offline cache: where downloaded files go, what is known of them,
//! and which of them leave when space runs out.
//!
//! Records are kept per source and id together: the same id at two sources
//! means two different tracks.

use vstd::prelude::*;

use crate::error::{CoreError, CoreErrorView};
use crate::home::opt_str;
use crate::model::{
    known_providers, Playlist, PlaylistId, PlaylistView, ProviderId, ScopedIdView, Track, TrackId,
    TrackView,
};
use crate::paths::{join_path, path_joined, Paths};
use crate::protocol::CacheStats;
use crate::text::{
    chars_of, clone_opt, concat3, lemma_text_lt_irreflexive, lemma_text_lt_total,
    lemma_text_lt_transitive, opt_text, str_lt, text_lt, texts,
};
use crate::time::{Duration, NANOS_PER_MILLI};

verus! {

/// Whether a character may stand in a file name as it is.
pub open spec fn is_plain(c: char) -> bool {
    ||| 'A' <= c <= 'Z'
    ||| 'a' <= c <= 'z'
    ||| '0' <= c <= '9'
    ||| c == '_'
    ||| c == '-'
}

/// A name with every other character replaced by `_`.
pub open spec fn sanitized(part: Seq<char>) -> Seq<char> {
    part.map_values(
        |c: char|
            if is_plain(c) {
                c
            } else {
                '_'
            },
    )
}

/// Makes a foreign string fit for a file name. The dot is replaced too, so
/// that no `..` can come about.
pub fn sanitize(part: &str) -> (r: String)
    ensures
        r@ == sanitized(part@),
{
    let chars = chars_of(part);
    let ghost all = sanitized(part@);
    let mut out = String::new();
    let mut i: usize = 0;
    while i < chars.len()
        invariant
            i <= chars@.len(),
            chars@ == part@,
            all == sanitized(part@),
            out@ == all.subrange(0, i as int),
        decreases chars@.len() - i,
    {
        let c = chars[i];
        if (c >= 'A' && c <= 'Z') || (c >= 'a' && c <= 'z') || (c >= '0' && c <= '9') || c == '_'
            || c == '-' {
            out.push(c);
        } else {
            out.push('_');
        }
        i += 1;
        assert(out@ =~= all.subrange(0, i as int));
    }
    assert(out@ =~= all);
    out
}

/// The file name of a downloaded track.
pub open spec fn audio_name(id: Seq<char>, ext: Seq<char>) -> Seq<char> {
    sanitized(id) + "."@ + sanitized(ext)
}

/// Where a downloaded track goes.
pub fn audio_path(paths: &Paths, id: &TrackId, ext: &str) -> (r: String)
    ensures
        r@ == path_joined(
            path_joined(path_joined(paths@.cache, "audio"@), id@.provider),
            audio_name(id@.id, ext@),
        ),
{
    let name = concat3(sanitize(id.id.as_str()).as_str(), ".", sanitize(ext).as_str());
    join_path(paths.audio_dir_for(id.provider.as_str()).as_str(), name.as_str())
}

/// A file name of the cache cannot lead out of its directory: it holds no
/// separator, and neither it nor a part of it is `..`, for it has one dot
/// only.
pub proof fn lemma_audio_name_stays_in_its_directory(id: Seq<char>, ext: Seq<char>)
    ensures
        forall|i: int|
            0 <= i < audio_name(id, ext).len() ==> #[trigger] audio_name(id, ext)[i] != '/',
        forall|i: int|
            0 <= i < audio_name(id, ext).len() && i != id.len() ==> #[trigger] audio_name(
                id,
                ext,
            )[i] != '.',
        audio_name(id, ext)[id.len() as int] == '.',
        audio_name(id, ext).len() == id.len() + 1 + ext.len(),
{
    reveal_strlit(".");
    let name = audio_name(id, ext);
    assert forall|i: int| 0 <= i < name.len() && i != id.len() implies #[trigger] name[i] != '.'
        && name[i] != '/' by {
        if i < id.len() {
            assert(name[i] == sanitized(id)[i]);
        } else {
            assert(name[i] == sanitized(ext)[i - id.len() - 1]);
        }
    }
    assert(name[id.len() as int] == "."@[0]);
}

/// A downloaded file on record.
#[derive(Debug, PartialEq, Eq)]
pub struct AudioRow {
    pub provider: String,
    pub id: String,
    pub path: String,
    pub bytes: i64,
    pub ext: Option<String>,
    /// Pinned files never leave by themselves.
    pub pinned: bool,
    /// When it was last asked for, in seconds of the epoch.
    pub accessed_at: i64,
}

#[verifier::ext_equal]
pub struct AudioRowView {
    pub key: ScopedIdView,
    pub path: Seq<char>,
    pub bytes: i64,
    pub ext: Option<Seq<char>>,
    pub pinned: bool,
    pub accessed_at: i64,
}

impl View for AudioRow {
    type V = AudioRowView;

    open spec fn view(&self) -> AudioRowView {
        AudioRowView {
            key: ScopedIdView { provider: self.provider@, id: self.id@ },
            path: self.path@,
            bytes: self.bytes,
            ext: opt_text(self.ext),
            pinned: self.pinned,
            accessed_at: self.accessed_at,
        }
    }
}

impl Clone for AudioRow {
    fn clone(&self) -> (r: Self)
        ensures
            r@ == self@,
    {
        AudioRow {
            provider: self.provider.clone(),
            id: self.id.clone(),
            path: self.path.clone(),
            bytes: self.bytes,
            ext: clone_opt(&self.ext),
            pinned: self.pinned,
            accessed_at: self.accessed_at,
        }
    }
}

pub open spec fn row_views(v: Seq<AudioRow>) -> Seq<AudioRowView> {
    v.map_values(|r: AudioRow| r@)
}

/// Whether no two rows have the same key.
pub open spec fn distinct_keys(rows: Seq<AudioRowView>) -> bool {
    forall|i: int, j: int|
        0 <= i < j < rows.len() ==> (#[trigger] rows[i]).key != (#[trigger] rows[j]).key
}

/// The row of a track, if it is on record.
pub open spec fn row_of(rows: Seq<AudioRowView>, key: ScopedIdView) -> Option<AudioRowView> {
    if exists|i: int| 0 <= i < rows.len() && (#[trigger] rows[i]).key == key {
        Some(rows[choose|i: int| 0 <= i < rows.len() && (#[trigger] rows[i]).key == key])
    } else {
        None
    }
}

proof fn lemma_row_of(rows: Seq<AudioRowView>, key: ScopedIdView, at: int)
    requires
        distinct_keys(rows),
        0 <= at < rows.len(),
        rows[at].key == key,
    ensures
        row_of(rows, key) == Some(rows[at]),
{
    let p = choose|i: int| 0 <= i < rows.len() && (#[trigger] rows[i]).key == key;
    if p < at {
        assert(rows[p].key != rows[at].key);
    } else if at < p {
        assert(rows[at].key != rows[p].key);
    }
}

/// A size as the base holds it: signed, so that the largest sizes are cut.
pub open spec fn stored_size(bytes: u64) -> i64 {
    if bytes <= i64::MAX {
        bytes as i64
    } else {
        i64::MAX
    }
}

/// A number of the base as it is shown: what is negative comes of a broken
/// base and shows as 0.
pub open spec fn shown(value: int) -> u64 {
    if value < 0 {
        0
    } else {
        value as u64
    }
}

pub fn to_u64(value: i64) -> (r: u64)
    ensures
        r == shown(value as int),
{
    if value < 0 {
        0
    } else {
        value as u64
    }
}

/// The record of downloaded files.
pub struct AudioTable {
    rows: Vec<AudioRow>,
}

impl View for AudioTable {
    type V = Seq<AudioRowView>;

    closed spec fn view(&self) -> Seq<AudioRowView> {
        row_views(self.rows@)
    }
}

/// What a change of one row does to a record: the row is replaced, added
/// or gone, and the others stay.
pub open spec fn only_changed(
    before: Seq<AudioRowView>,
    after: Seq<AudioRowView>,
    key: ScopedIdView,
) -> bool {
    forall|other: ScopedIdView|
        other != key ==> #[trigger] row_of(after, other) == row_of(before, other)
}

/// A downloaded file was put on record.
pub open spec fn registered(
    before: Seq<AudioRowView>,
    after: Seq<AudioRowView>,
    id: ScopedIdView,
    path: Seq<char>,
    bytes: u64,
    ext: Seq<char>,
    now: i64,
) -> bool {
    &&& only_changed(before, after, id)
    &&& row_of(after, id) == Some(
        AudioRowView {
            key: id,
            path,
            bytes: stored_size(bytes),
            ext: Some(ext),
            pinned: match row_of(before, id) {
                Some(row) => row.pinned,
                None => false,
            },
            accessed_at: now,
        },
    )
}

/// A lookup was answered with `found`.
pub open spec fn looked_up(
    before: Seq<AudioRowView>,
    after: Seq<AudioRowView>,
    id: ScopedIdView,
    is_file: bool,
    now: i64,
    found: Option<Seq<char>>,
) -> bool {
    &&& only_changed(before, after, id)
    &&& match row_of(before, id) {
        Some(row) => if is_file {
            found == Some(row.path) && row_of(after, id) == Some(
                AudioRowView { accessed_at: now, ..row },
            )
        } else {
            found is None && row_of(after, id) is None
        },
        None => found is None && after == before,
    }
}

/// A file that was put on record is found as long as it is there; once it
/// is not, it is off the record for good.
pub proof fn lemma_registered_is_found(
    start: Seq<AudioRowView>,
    stored: Seq<AudioRowView>,
    read: Seq<AudioRowView>,
    again: Seq<AudioRowView>,
    id: ScopedIdView,
    path: Seq<char>,
    bytes: u64,
    ext: Seq<char>,
    now: i64,
    later: i64,
    is_file: bool,
    first: Option<Seq<char>>,
    second: Option<Seq<char>>,
)
    requires
        registered(start, stored, id, path, bytes, ext, now),
        looked_up(stored, read, id, is_file, later, first),
        looked_up(read, again, id, true, later, second),
    ensures
        first == (if is_file {
            Some(path)
        } else {
            None
        }),
        second == first,
{
}

/// A file that is downloaded anew keeps its pin, and a lookup does not touch
/// it either.
pub proof fn lemma_pins_are_kept(
    start: Seq<AudioRowView>,
    stored: Seq<AudioRowView>,
    read: Seq<AudioRowView>,
    id: ScopedIdView,
    path: Seq<char>,
    bytes: u64,
    ext: Seq<char>,
    now: i64,
    later: i64,
    found: Option<Seq<char>>,
)
    requires
        row_of(start, id) is Some,
        registered(start, stored, id, path, bytes, ext, now),
        looked_up(stored, read, id, true, later, found),
    ensures
        row_of(read, id) matches Some(row) && row.pinned == row_of(start, id)->0.pinned,
{
}

/// The rows without the one of a track.
pub open spec fn forgotten(rows: Seq<AudioRowView>, key: ScopedIdView) -> Seq<AudioRowView>
    decreases rows.len(),
{
    if rows.len() == 0 {
        Seq::empty()
    } else if rows.last().key == key {
        forgotten(rows.drop_last(), key)
    } else {
        forgotten(rows.drop_last(), key).push(rows.last())
    }
}

proof fn lemma_forgotten_absent(rows: Seq<AudioRowView>, key: ScopedIdView)
    requires
        forall|i: int| 0 <= i < rows.len() ==> (#[trigger] rows[i]).key != key,
    ensures
        forgotten(rows, key) == rows,
    decreases rows.len(),
{
    if rows.len() == 0 {
        assert(rows =~= Seq::empty());
    } else {
        let init = rows.drop_last();
        assert forall|i: int| 0 <= i < init.len() implies (#[trigger] init[i]).key != key by {
            assert(init[i] == rows[i]);
        }
        lemma_forgotten_absent(init, key);
        assert(init.push(rows.last()) =~= rows);
    }
}

proof fn lemma_forgotten_at(rows: Seq<AudioRowView>, key: ScopedIdView, at: int)
    requires
        distinct_keys(rows),
        0 <= at < rows.len(),
        rows[at].key == key,
    ensures
        forgotten(rows, key) == rows.remove(at),
    decreases rows.len(),
{
    let init = rows.drop_last();
    if at == rows.len() - 1 {
        assert forall|i: int| 0 <= i < init.len() implies (#[trigger] init[i]).key != key by {
            assert(rows[i].key != rows[at].key);
        }
        lemma_forgotten_absent(init, key);
        assert(rows.remove(at) =~= init);
    } else {
        assert(rows[at].key != rows.last().key);
        lemma_forgotten_at(init, key, at);
        assert(rows.remove(at) =~= init.remove(at).push(rows.last()));
    }
}

/// The sum of some sizes; `None` where a partial sum does not fit.
pub open spec fn running_sum(values: Seq<i64>) -> Option<i64>
    decreases values.len(),
{
    if values.len() == 0 {
        Some(0)
    } else {
        match running_sum(values.drop_last()) {
            Some(s) => if i64::MIN <= s + values.last() <= i64::MAX {
                Some((s + values.last()) as i64)
            } else {
                None
            },
            None => None,
        }
    }
}

/// The rows that are not pinned.
pub open spec fn loose(rows: Seq<AudioRowView>) -> Seq<AudioRowView>
    decreases rows.len(),
{
    if rows.len() == 0 {
        Seq::empty()
    } else if rows.last().pinned {
        loose(rows.drop_last())
    } else {
        loose(rows.drop_last()).push(rows.last())
    }
}

/// The pinned rows.
pub open spec fn pinned_rows(rows: Seq<AudioRowView>) -> Seq<AudioRowView>
    decreases rows.len(),
{
    if rows.len() == 0 {
        Seq::empty()
    } else if rows.last().pinned {
        pinned_rows(rows.drop_last()).push(rows.last())
    } else {
        pinned_rows(rows.drop_last())
    }
}

pub open spec fn sizes(rows: Seq<AudioRowView>) -> Seq<i64> {
    rows.map_values(|r: AudioRowView| r.bytes)
}

/// The rows' sizes together.
pub open spec fn total(rows: Seq<AudioRowView>) -> int
    decreases rows.len(),
{
    if rows.len() == 0 {
        0
    } else {
        total(rows.drop_last()) + rows.last().bytes
    }
}

/// Whether row `a` leaves before row `b`: the longest unused first, then by
/// source and id.
pub open spec fn older(a: AudioRowView, b: AudioRowView) -> bool {
    ||| a.accessed_at < b.accessed_at
    ||| a.accessed_at == b.accessed_at && text_lt(a.key.provider, b.key.provider)
    ||| a.accessed_at == b.accessed_at && a.key.provider == b.key.provider && text_lt(
        a.key.id,
        b.key.id,
    )
}

pub open spec fn oldest_first(rows: Seq<AudioRowView>) -> bool {
    forall|i: int, j: int|
        0 <= i < j < rows.len() ==> !older(#[trigger] rows[j], #[trigger] rows[i])
}

proof fn lemma_older_transitive(a: AudioRowView, b: AudioRowView, c: AudioRowView)
    requires
        !older(b, a),
        !older(c, b),
    ensures
        !older(c, a),
{
    if older(c, a) {
        lemma_text_lt_total(a.key.provider, b.key.provider);
        lemma_text_lt_total(b.key.provider, c.key.provider);
        lemma_text_lt_total(a.key.id, b.key.id);
        lemma_text_lt_total(b.key.id, c.key.id);
        lemma_text_lt_irreflexive(a.key.provider);
        lemma_text_lt_irreflexive(a.key.id);
        lemma_text_lt_irreflexive(b.key.provider);
        lemma_text_lt_irreflexive(b.key.id);
        lemma_text_lt_irreflexive(c.key.provider);
        lemma_text_lt_irreflexive(c.key.id);
        if text_lt(c.key.provider, a.key.provider) {
            if text_lt(a.key.provider, b.key.provider) {
                lemma_text_lt_transitive(c.key.provider, a.key.provider, b.key.provider);
            }
        }
        if text_lt(a.key.provider, b.key.provider) && text_lt(b.key.provider, c.key.provider) {
            lemma_text_lt_transitive(a.key.provider, b.key.provider, c.key.provider);
            if text_lt(c.key.provider, a.key.provider) {
                lemma_text_lt_transitive(c.key.provider, a.key.provider, c.key.provider);
            }
        }
        if text_lt(c.key.id, a.key.id) && text_lt(a.key.id, b.key.id) {
            lemma_text_lt_transitive(c.key.id, a.key.id, b.key.id);
        }
        if text_lt(a.key.id, b.key.id) && text_lt(b.key.id, c.key.id) {
            lemma_text_lt_transitive(a.key.id, b.key.id, c.key.id);
            if text_lt(c.key.id, a.key.id) {
                lemma_text_lt_transitive(c.key.id, a.key.id, c.key.id);
            }
        }
    }
}

fn is_older(a: &AudioRow, b: &AudioRow) -> (r: bool)
    ensures
        r == older(a@, b@),
{
    if a.accessed_at != b.accessed_at {
        return a.accessed_at < b.accessed_at;
    }
    if str_lt(a.provider.as_str(), b.provider.as_str()) {
        return true;
    }
    a.provider.as_str().eq(b.provider.as_str()) && str_lt(a.id.as_str(), b.id.as_str())
}

/// Forgetting a track forgets it among the pinned and among the loose.
proof fn lemma_forgotten_parts(rows: Seq<AudioRowView>, key: ScopedIdView)
    ensures
        loose(forgotten(rows, key)) == forgotten(loose(rows), key),
        pinned_rows(forgotten(rows, key)) == forgotten(pinned_rows(rows), key),
    decreases rows.len(),
{
    if rows.len() > 0 {
        let init = rows.drop_last();
        let last = rows.last();
        lemma_forgotten_parts(init, key);
        assert(loose(init).push(last).drop_last() =~= loose(init));
        assert(pinned_rows(init).push(last).drop_last() =~= pinned_rows(init));
        assert(forgotten(init, key).push(last).drop_last() =~= forgotten(init, key));
    }
}

/// The loose and the pinned rows are rows of the record, and no two loose
/// ones have the same key.
proof fn lemma_parts(rows: Seq<AudioRowView>)
    requires
        distinct_keys(rows),
    ensures
        distinct_keys(loose(rows)),
        forall|i: int|
            0 <= i < loose(rows).len() ==> rows.contains(#[trigger] loose(rows)[i]) && !loose(
                rows,
            )[i].pinned,
        forall|i: int|
            0 <= i < pinned_rows(rows).len() ==> rows.contains(#[trigger] pinned_rows(rows)[i])
                && pinned_rows(rows)[i].pinned,
    decreases rows.len(),
{
    if rows.len() > 0 {
        let init = rows.drop_last();
        let last = rows.last();
        lemma_parts(init);
        assert forall|r: AudioRowView| init.contains(r) implies #[trigger] rows.contains(r)
            && r.key != last.key by {
            let k = choose|k: int| 0 <= k < init.len() && init[k] == r;
            assert(rows[k] == r);
            assert(rows[k].key != rows[rows.len() - 1].key);
        }
        assert(rows.contains(last)) by {
            assert(rows[rows.len() - 1] == last);
        }
        assert forall|i: int| 0 <= i < loose(rows).len() implies rows.contains(
            #[trigger] loose(rows)[i],
        ) && !loose(rows)[i].pinned by {
            if i < loose(init).len() {
                assert(loose(rows)[i] == loose(init)[i]);
            }
        }
        assert forall|i: int| 0 <= i < pinned_rows(rows).len() implies rows.contains(
            #[trigger] pinned_rows(rows)[i],
        ) && pinned_rows(rows)[i].pinned by {
            if i < pinned_rows(init).len() {
                assert(pinned_rows(rows)[i] == pinned_rows(init)[i]);
            }
        }
        assert forall|i: int, j: int| 0 <= i < j < loose(rows).len() implies (
        #[trigger] loose(rows)[i]).key != (#[trigger] loose(rows)[j]).key by {
            assert(loose(rows)[i] == loose(init)[i]);
            if j < loose(init).len() {
                assert(loose(rows)[j] == loose(init)[j]);
            } else {
                assert(init.contains(loose(init)[i]));
            }
        }
    }
}

/// Forgetting a loose row takes it out of the loose ones and leaves the
/// pinned ones alone.
proof fn lemma_loose_row_forgotten(rows: Seq<AudioRowView>, row: AudioRowView)
    requires
        distinct_keys(rows),
        loose(rows).contains(row),
    ensures
        loose(forgotten(rows, row.key)).to_multiset() == loose(rows).to_multiset().remove(row),
        pinned_rows(forgotten(rows, row.key)) == pinned_rows(rows),
{
    let key = row.key;
    lemma_parts(rows);
    lemma_forgotten_parts(rows, key);
    let at = choose|i: int| 0 <= i < loose(rows).len() && loose(rows)[i] == row;
    lemma_forgotten_at(loose(rows), key, at);
    vstd::seq_lib::to_multiset_remove(loose(rows), at);
    assert forall|i: int| 0 <= i < pinned_rows(rows).len() implies (
    #[trigger] pinned_rows(rows)[i]).key != key by {
        let other = pinned_rows(rows)[i];
        let p = choose|k: int| 0 <= k < rows.len() && rows[k] == other;
        assert(rows.contains(loose(rows)[at]));
        let q = choose|k: int| 0 <= k < rows.len() && rows[k] == row;
        if other.key == key {
            assert(p == q) by {
                if p < q {
                    assert(rows[p].key != rows[q].key);
                } else if q < p {
                    assert(rows[q].key != rows[p].key);
                }
            }
        }
    }
    lemma_forgotten_absent(pinned_rows(rows), key);
}

/// The statistics of a record; `None` where a sum does not fit.
pub open spec fn stats_of(rows: Seq<AudioRowView>, limit: u64) -> Option<CacheStats> {
    match (running_sum(sizes(rows)), running_sum(sizes(pinned_rows(rows)))) {
        (Some(bytes), Some(pinned)) => Some(
            CacheStats {
                tracks: rows.len() as u64,
                bytes: shown(bytes as int),
                limit_bytes: limit,
                pinned_tracks: pinned_rows(rows).len() as u64,
                pinned_bytes: shown(pinned as int),
            },
        ),
        _ => None,
    }
}

pub open spec fn overflow_error(db: Seq<char>) -> CoreErrorView {
    CoreErrorView::Database { path: db, source: "integer overflow"@ }
}

impl AudioTable {
    pub open spec fn wf(&self) -> bool {
        distinct_keys(self@)
    }

    pub fn new() -> (r: Self)
        ensures
            r.wf(),
            r@.len() == 0,
    {
        AudioTable { rows: Vec::new() }
    }

    /// The rows, for storing them.
    pub fn rows(&self) -> (r: &Vec<AudioRow>)
        ensures
            row_views(r@) == self@,
    {
        &self.rows
    }

    /// The place of a track's row.
    fn place(&self, provider: &str, id: &str) -> (r: Option<usize>)
        ensures
            match r {
                Some(at) => at < self@.len() && self@[at as int].key == (ScopedIdView {
                    provider: provider@,
                    id: id@,
                }),
                None => forall|k: int|
                    0 <= k < self@.len() ==> (#[trigger] self@[k]).key != (ScopedIdView {
                        provider: provider@,
                        id: id@,
                    }),
            },
    {
        let mut i: usize = 0;
        while i < self.rows.len()
            invariant
                i <= self.rows@.len(),
                self@ == row_views(self.rows@),
                forall|k: int|
                    0 <= k < i ==> (#[trigger] self@[k]).key != (ScopedIdView {
                        provider: provider@,
                        id: id@,
                    }),
            decreases self.rows@.len() - i,
        {
            assert(self@[i as int] == self.rows@[i as int]@);
            if self.rows[i].provider.as_str().eq(provider) && self.rows[i].id.as_str().eq(id) {
                return Some(i);
            }
            i += 1;
        }
        None
    }

    /// Takes a row over from the base. One whose key is on record already
    /// is left out: keys are unique there.
    pub fn load(&mut self, row: AudioRow)
        requires
            old(self).wf(),
        ensures
            final(self).wf(),
            match row_of(old(self)@, row@.key) {
                Some(_) => final(self)@ == old(self)@,
                None => final(self)@ == old(self)@.push(row@),
            },
    {
        let ghost before = self@;
        match self.place(row.provider.as_str(), row.id.as_str()) {
            Some(at) => {
                proof {
                    lemma_row_of(before, row@.key, at as int);
                }
            },
            None => {
                self.rows.push(row);
                assert(self@ =~= before.push(row@));
            },
        }
    }

    /// Puts a downloaded file on record. One that is there already keeps
    /// its pin.
    pub fn register(&mut self, id: &TrackId, path: &str, bytes: u64, ext: &str, now: i64)
        requires
            old(self).wf(),
        ensures
            final(self).wf(),
            registered(old(self)@, final(self)@, id@, path@, bytes, ext@, now),
    {
        let ghost before = self@;
        let size: i64 = if bytes <= 0x7FFF_FFFF_FFFF_FFFF {
            bytes as i64
        } else {
            i64::MAX
        };
        match self.place(id.provider.as_str(), id.id.as_str()) {
            Some(at) => {
                let row = AudioRow {
                    provider: id.provider.as_str().to_owned(),
                    id: id.id.clone(),
                    path: path.to_owned(),
                    bytes: size,
                    ext: Some(ext.to_owned()),
                    pinned: self.rows[at].pinned,
                    accessed_at: now,
                };
                proof {
                    assert(before[at as int] == self.rows@[at as int]@);
                    lemma_row_of(before, id@, at as int);
                }
                let ghost fresh = row@;
                self.rows.set(at, row);
                proof {
                    assert(self@ =~= before.update(at as int, fresh));
                    lemma_replaced(before, self@, at as int);
                    lemma_row_of(self@, id@, at as int);
                }
            },
            None => {
                let row = AudioRow {
                    provider: id.provider.as_str().to_owned(),
                    id: id.id.clone(),
                    path: path.to_owned(),
                    bytes: size,
                    ext: Some(ext.to_owned()),
                    pinned: false,
                    accessed_at: now,
                };
                let ghost fresh = row@;
                self.rows.push(row);
                proof {
                    assert(self@ =~= before.push(fresh));
                    lemma_row_of(self@, id@, before.len() as int);
                    assert forall|other: ScopedIdView| other != id@ implies #[trigger] row_of(
                        self@,
                        other,
                    ) == row_of(before, other) by {
                        lemma_same_row(before, self@, other);
                    }
                }
            },
        }
    }

    /// The path on record for a track.
    pub fn path_of(&self, id: &TrackId) -> (r: Option<&str>)
        requires
            self.wf(),
        ensures
            match r {
                Some(p) => row_of(self@, id@) matches Some(row) && row.path == p@,
                None => row_of(self@, id@) is None,
            },
    {
        match self.place(id.provider.as_str(), id.id.as_str()) {
            Some(at) => {
                proof {
                    assert(self@[at as int] == self.rows@[at as int]@);
                    lemma_row_of(self@, id@, at as int);
                }
                Some(self.rows[at].path.as_str())
            },
            None => None,
        }
    }

    /// Answers a lookup. `is_file` tells whether the file on record is
    /// there: if it is not, the record goes too, for the cache may have
    /// been cleaned from outside; if it is, the file becomes the freshest.
    pub fn lookup_audio(&mut self, id: &TrackId, is_file: bool, now: i64) -> (r: Option<String>)
        requires
            old(self).wf(),
        ensures
            final(self).wf(),
            looked_up(old(self)@, final(self)@, id@, is_file, now, opt_text(r)),
    {
        let ghost before = self@;
        match self.place(id.provider.as_str(), id.id.as_str()) {
            Some(at) => {
                proof {
                    assert(before[at as int] == self.rows@[at as int]@);
                    lemma_row_of(before, id@, at as int);
                }
                if is_file {
                    let mut row = self.rows[at].clone();
                    row.accessed_at = now;
                    let path = row.path.clone();
                    let ghost fresh = row@;
                    self.rows.set(at, row);
                    proof {
                        assert(self@ =~= before.update(at as int, fresh));
                        lemma_replaced(before, self@, at as int);
                        lemma_row_of(self@, id@, at as int);
                    }
                    Some(path)
                } else {
                    self.rows.remove(at);
                    proof {
                        assert(self@ =~= before.remove(at as int));
                        lemma_removed(before, self@, at as int);
                    }
                    None
                }
            },
            None => None,
        }
    }

    /// Takes a track off the record.
    pub fn forget_audio(&mut self, provider: &str, id: &str)
        requires
            old(self).wf(),
        ensures
            final(self).wf(),
            final(self)@ == forgotten(
                old(self)@,
                ScopedIdView { provider: provider@, id: id@ },
            ),
            only_changed(
                old(self)@,
                final(self)@,
                ScopedIdView { provider: provider@, id: id@ },
            ),
            row_of(final(self)@, ScopedIdView { provider: provider@, id: id@ }) is None,
    {
        let ghost before = self@;
        let ghost key = ScopedIdView { provider: provider@, id: id@ };
        match self.place(provider, id) {
            Some(at) => {
                self.rows.remove(at);
                proof {
                    assert(self@ =~= before.remove(at as int));
                    lemma_removed(before, self@, at as int);
                    lemma_forgotten_at(before, key, at as int);
                }
            },
            None => {
                proof {
                    lemma_forgotten_absent(before, key);
                }
            },
        }
    }

    /// Pins or unpins one track. Only what is on record can be pinned.
    pub fn set_pinned(&mut self, id: &TrackId, pinned: bool)
        requires
            old(self).wf(),
        ensures
            final(self).wf(),
            only_changed(old(self)@, final(self)@, id@),
            row_of(final(self)@, id@) == match row_of(old(self)@, id@) {
                Some(row) => Some(AudioRowView { pinned, ..row }),
                None => None,
            },
    {
        let ghost before = self@;
        if let Some(at) = self.place(id.provider.as_str(), id.id.as_str()) {
            let mut row = self.rows[at].clone();
            row.pinned = pinned;
            let ghost fresh = row@;
            proof {
                assert(before[at as int] == self.rows@[at as int]@);
                lemma_row_of(before, id@, at as int);
            }
            self.rows.set(at, row);
            proof {
                assert(self@ =~= before.update(at as int, fresh));
                lemma_replaced(before, self@, at as int);
                lemma_row_of(self@, id@, at as int);
            }
        }
    }

    /// The statistics. `db` names the base in the error.
    pub fn stats(&self, limit_bytes: u64, db: &str) -> (r: Result<CacheStats, CoreError>)
        ensures
            match stats_of(self@, limit_bytes) {
                Some(stats) => r matches Ok(s) && s == stats,
                None => r matches Err(e) && e@ == overflow_error(db@),
            },
    {
        let mut bytes: Option<i64> = Some(0);
        let mut pinned_bytes: Option<i64> = Some(0);
        let mut pinned_tracks: u64 = 0;
        let mut i: usize = 0;
        assert(self@.subrange(0, 0) =~= Seq::empty());
        assert(sizes(Seq::empty()) =~= Seq::empty());
        while i < self.rows.len()
            invariant
                i <= self.rows@.len(),
                self@ == row_views(self.rows@),
                bytes == running_sum(sizes(self@.subrange(0, i as int))),
                pinned_bytes == running_sum(sizes(pinned_rows(self@.subrange(0, i as int)))),
                pinned_tracks == pinned_rows(self@.subrange(0, i as int)).len(),
                pinned_tracks <= i,
            decreases self.rows@.len() - i,
        {
            let ghost upto = self@.subrange(0, i + 1);
            let ghost before = self@.subrange(0, i as int);
            assert(upto.drop_last() =~= before);
            assert(upto.last() == self.rows@[i as int]@);
            assert(sizes(upto).drop_last() =~= sizes(before));
            assert(sizes(upto).last() == upto.last().bytes);
            bytes = plus(bytes, self.rows[i].bytes);
            if self.rows[i].pinned {
                assert(sizes(pinned_rows(upto)).drop_last() =~= sizes(pinned_rows(before)));
                pinned_bytes = plus(pinned_bytes, self.rows[i].bytes);
                pinned_tracks += 1;
            }
            i += 1;
        }
        assert(self@.subrange(0, i as int) =~= self@);
        match (bytes, pinned_bytes) {
            (Some(bytes), Some(pinned_bytes)) => Ok(
                CacheStats {
                    tracks: self.rows.len() as u64,
                    bytes: to_u64(bytes),
                    limit_bytes,
                    pinned_tracks,
                    pinned_bytes: to_u64(pinned_bytes),
                },
            ),
            _ => Err(
                CoreError::Database {
                    path: db.to_owned(),
                    source: "integer overflow".to_owned(),
                },
            ),
        }
    }

    /// The rows that may leave, the longest unused first.
    fn victims(&self) -> (r: Vec<AudioRow>)
        ensures
            row_views(r@).to_multiset() == loose(self@).to_multiset(),
            oldest_first(row_views(r@)),
            total(row_views(r@)) == total(loose(self@)),
            r@.len() == loose(self@).len(),
    {
        let mut out: Vec<AudioRow> = Vec::new();
        let mut i: usize = 0;
        assert(self@.subrange(0, 0) =~= Seq::empty());
        assert(row_views(out@) =~= loose(Seq::empty()));
        while i < self.rows.len()
            invariant
                i <= self.rows@.len(),
                self@ == row_views(self.rows@),
                row_views(out@).to_multiset() == loose(self@.subrange(0, i as int)).to_multiset(),
                oldest_first(row_views(out@)),
                total(row_views(out@)) == total(loose(self@.subrange(0, i as int))),
                out@.len() == loose(self@.subrange(0, i as int)).len(),
            decreases self.rows@.len() - i,
        {
            let ghost upto = self@.subrange(0, i + 1);
            let ghost before = self@.subrange(0, i as int);
            assert(upto.drop_last() =~= before);
            assert(upto.last() == self.rows@[i as int]@);
            if !self.rows[i].pinned {
                proof {
                    broadcast use vstd::seq_lib::group_to_multiset_ensures;
                    assert(loose(upto) == loose(before).push(upto.last()));
                    assert(loose(upto).to_multiset() =~= loose(before).to_multiset().insert(
                        upto.last(),
                    ));
                    assert(loose(upto).drop_last() =~= loose(before));
                }
                insert_by_age(&mut out, self.rows[i].clone());
            }
            i += 1;
        }
        assert(self@.subrange(0, i as int) =~= self@);
        out
    }
}

proof fn lemma_same_row(before: Seq<AudioRowView>, after: Seq<AudioRowView>, other: ScopedIdView)
    requires
        distinct_keys(before),
        distinct_keys(after),
        after.len() == before.len() + 1,
        forall|k: int| 0 <= k < before.len() ==> #[trigger] after[k] == before[k],
        after.last().key != other,
    ensures
        row_of(after, other) == row_of(before, other),
{
    if exists|i: int| 0 <= i < before.len() && (#[trigger] before[i]).key == other {
        let p = choose|i: int| 0 <= i < before.len() && (#[trigger] before[i]).key == other;
        assert(after[p].key == other);
        lemma_row_of(before, other, p);
        lemma_row_of(after, other, p);
    } else if exists|i: int| 0 <= i < after.len() && (#[trigger] after[i]).key == other {
        let p = choose|i: int| 0 <= i < after.len() && (#[trigger] after[i]).key == other;
        assert(before[p].key == other);
    }
}

proof fn lemma_replaced(before: Seq<AudioRowView>, after: Seq<AudioRowView>, at: int)
    requires
        distinct_keys(before),
        0 <= at < before.len(),
        after.len() == before.len(),
        after == before.update(at, after[at]),
        after[at].key == before[at].key,
    ensures
        distinct_keys(after),
        only_changed(before, after, before[at].key),
{
    assert forall|i: int, j: int| 0 <= i < j < after.len() implies (#[trigger] after[i]).key != (
    #[trigger] after[j]).key by {
        assert(before[i].key != before[j].key);
    }
    assert forall|other: ScopedIdView| other != before[at].key implies #[trigger] row_of(
        after,
        other,
    ) == row_of(before, other) by {
        if exists|i: int| 0 <= i < before.len() && (#[trigger] before[i]).key == other {
            let p = choose|i: int| 0 <= i < before.len() && (#[trigger] before[i]).key == other;
            assert(after[p].key == other);
            lemma_row_of(before, other, p);
            lemma_row_of(after, other, p);
        } else if exists|i: int| 0 <= i < after.len() && (#[trigger] after[i]).key == other {
            let p = choose|i: int| 0 <= i < after.len() && (#[trigger] after[i]).key == other;
            assert(before[p].key == other);
        }
    }
}

proof fn lemma_removed(before: Seq<AudioRowView>, after: Seq<AudioRowView>, at: int)
    requires
        distinct_keys(before),
        0 <= at < before.len(),
        after == before.remove(at),
    ensures
        distinct_keys(after),
        only_changed(before, after, before[at].key),
        row_of(after, before[at].key) is None,
{
    assert forall|i: int, j: int| 0 <= i < j < after.len() implies (#[trigger] after[i]).key != (
    #[trigger] after[j]).key by {
        let a = if i < at {
            i
        } else {
            i + 1
        };
        let b = if j < at {
            j
        } else {
            j + 1
        };
        assert(before[a].key != before[b].key);
    }
    assert forall|i: int| 0 <= i < after.len() implies (#[trigger] after[i]).key
        != before[at].key by {
        let a = if i < at {
            i
        } else {
            i + 1
        };
        if a < at {
            assert(before[a].key != before[at].key);
        } else {
            assert(before[at].key != before[a].key);
        }
    }
    assert forall|other: ScopedIdView| other != before[at].key implies #[trigger] row_of(
        after,
        other,
    ) == row_of(before, other) by {
        if exists|i: int| 0 <= i < before.len() && (#[trigger] before[i]).key == other {
            let p = choose|i: int| 0 <= i < before.len() && (#[trigger] before[i]).key == other;
            let q = if p < at {
                p
            } else {
                p - 1
            };
            assert(after[q] == before[p]);
            lemma_row_of(before, other, p);
            lemma_row_of(after, other, q);
        } else if exists|i: int| 0 <= i < after.len() && (#[trigger] after[i]).key == other {
            let p = choose|i: int| 0 <= i < after.len() && (#[trigger] after[i]).key == other;
            let q = if p < at {
                p
            } else {
                p + 1
            };
            assert(before[q].key == other);
        }
    }
}

fn plus(sum: Option<i64>, value: i64) -> (r: Option<i64>)
    ensures
        r == match sum {
            Some(s) => if i64::MIN <= s + value <= i64::MAX {
                Some((s + value) as i64)
            } else {
                None
            },
            None => None,
        },
{
    match sum {
        Some(s) => s.checked_add(value),
        None => None,
    }
}

proof fn lemma_total_insert(rows: Seq<AudioRowView>, at: int, row: AudioRowView)
    requires
        0 <= at <= rows.len(),
    ensures
        total(rows.insert(at, row)) == total(rows) + row.bytes,
    decreases rows.len() - at,
{
    let more = rows.insert(at, row);
    if at == rows.len() {
        assert(more.drop_last() =~= rows);
    } else {
        assert(more.drop_last() =~= rows.drop_last().insert(at, row));
        lemma_total_insert(rows.drop_last(), at, row);
    }
}

/// Puts a row among rows that stand the longest unused first.
fn insert_by_age(rows: &mut Vec<AudioRow>, row: AudioRow)
    requires
        oldest_first(row_views(old(rows)@)),
    ensures
        oldest_first(row_views(final(rows)@)),
        row_views(final(rows)@).to_multiset() == row_views(old(rows)@).to_multiset().insert(row@),
        total(row_views(final(rows)@)) == total(row_views(old(rows)@)) + row@.bytes,
        final(rows)@.len() == old(rows)@.len() + 1,
{
    let ghost before = row_views(rows@);
    let ghost fresh = row@;
    let mut at: usize = 0;
    while at < rows.len() && !is_older(&row, &rows[at])
        invariant
            at <= rows@.len(),
            before == row_views(rows@),
            forall|k: int| 0 <= k < at ==> !older(row@, #[trigger] before[k]),
        decreases rows@.len() - at,
    {
        assert(before[at as int] == rows@[at as int]@);
        at += 1;
    }
    proof {
        if at < before.len() {
            assert(before[at as int] == rows@[at as int]@);
        }
    }
    rows.insert(at, row);
    proof {
        let after = row_views(rows@);
        assert(after =~= before.insert(at as int, fresh));
        lemma_total_insert(before, at as int, fresh);
        broadcast use vstd::seq_lib::group_to_multiset_ensures;
        vstd::seq_lib::to_multiset_insert(before, at as int, fresh);
        assert forall|i: int, j: int| 0 <= i < j < after.len() implies !older(
            #[trigger] after[j],
            #[trigger] after[i],
        ) by {
            if j == at {
                assert(after[i] == before[i]);
            } else if i == at {
                let b = j - 1;
                assert(after[j] == before[b]);
                assert(older(fresh, before[at as int]));
                lemma_not_both(fresh, before[at as int]);
                if b > at {
                    assert(!older(before[b], before[at as int]));
                    lemma_older_transitive(fresh, before[at as int], before[b]);
                }
            } else {
                let a = if i < at {
                    i
                } else {
                    i - 1
                };
                let b = if j < at {
                    j
                } else {
                    j - 1
                };
                assert(after[i] == before[a]);
                assert(after[j] == before[b]);
                assert(!older(before[b], before[a]));
            }
        }
    }
}

proof fn lemma_not_both(a: AudioRowView, b: AudioRowView)
    requires
        older(a, b),
    ensures
        !older(b, a),
{
    if older(b, a) {
        lemma_text_lt_irreflexive(a.key.provider);
        lemma_text_lt_irreflexive(a.key.id);
        if text_lt(a.key.provider, b.key.provider) && text_lt(b.key.provider, a.key.provider) {
            lemma_text_lt_transitive(a.key.provider, b.key.provider, a.key.provider);
        }
        if text_lt(a.key.id, b.key.id) && text_lt(b.key.id, a.key.id) {
            lemma_text_lt_transitive(a.key.id, b.key.id, a.key.id);
        }
    }
}

/// What came of removing a file.
#[derive(Debug, PartialEq, Eq)]
pub enum Removal {
    /// The file of this size is gone.
    Removed { bytes: u64 },
    /// There was no file.
    Missing,
    Failed { error: String },
}

/// An eviction under way.
pub struct Gc {
    victims: Vec<AudioRow>,
    next: usize,
    remaining: i128,
    limit: i64,
    freed: u64,
}

#[verifier::ext_equal]
pub struct GcView {
    /// What may leave, in the order of leaving.
    pub victims: Seq<AudioRowView>,
    /// How many have left.
    pub done: int,
    /// What the loose files on record take.
    pub remaining: int,
    pub limit: int,
    /// What the files that left took on the disk.
    pub freed: int,
}

impl GcView {
    /// The file to remove next: none once the rest fits.
    pub open spec fn victim(self) -> Option<AudioRowView> {
        if self.remaining > self.limit && self.done < self.victims.len() {
            Some(self.victims[self.done])
        } else {
            None
        }
    }

    /// The eviction after its next victim left.
    pub open spec fn evicted(self, bytes: int) -> GcView {
        GcView {
            done: self.done + 1,
            remaining: self.remaining - self.victims[self.done].bytes,
            freed: self.freed + bytes,
            ..self
        }
    }

    /// Those that have not left.
    pub open spec fn rest(self) -> Seq<AudioRowView> {
        self.victims.subrange(self.done, self.victims.len() as int)
    }

    /// The eviction keeps step with a record: what is loose there has not
    /// left, and the other way round.
    pub open spec fn follows(self, table: Seq<AudioRowView>) -> bool {
        self.rest().to_multiset() == loose(table).to_multiset()
    }

    /// The account is right: what remains is the size of those that have
    /// not left.
    pub open spec fn balanced(self) -> bool {
        &&& 0 <= self.done <= self.victims.len()
        &&& self.remaining == total(self.rest())
        &&& oldest_first(self.victims)
        &&& forall|i: int| 0 <= i < self.victims.len() ==> !(#[trigger] self.victims[i]).pinned
        &&& self.limit >= 0
    }
}

impl View for Gc {
    type V = GcView;

    closed spec fn view(&self) -> GcView {
        GcView {
            victims: row_views(self.victims@),
            done: self.next as int,
            remaining: self.remaining as int,
            limit: self.limit as int,
            freed: self.freed as int,
        }
    }
}

proof fn lemma_running_is_total(rows: Seq<AudioRowView>)
    ensures
        running_sum(sizes(rows)) matches Some(s) ==> s == total(rows),
    decreases rows.len(),
{
    if rows.len() > 0 {
        lemma_running_is_total(rows.drop_last());
        assert(sizes(rows).drop_last() =~= sizes(rows.drop_last()));
    }
}

proof fn lemma_total_drop_first(rows: Seq<AudioRowView>)
    requires
        rows.len() > 0,
    ensures
        total(rows) == rows[0].bytes + total(rows.drop_first()),
    decreases rows.len(),
{
    if rows.len() == 1 {
        assert(rows.drop_last() =~= Seq::empty());
        assert(rows.drop_first() =~= Seq::empty());
    } else {
        lemma_total_drop_first(rows.drop_last());
        assert(rows.drop_last().drop_first() =~= rows.drop_first().drop_last());
    }
}

impl Gc {
    pub open spec fn wf(&self) -> bool {
        &&& self@.balanced()
        &&& self.sound()
    }

    pub closed spec fn sound(&self) -> bool {
        &&& self.remaining <= (self.next + 1) * 0x8000_0000_0000_0000
        &&& self.victims@.len() <= usize::MAX
    }

    /// Plans an eviction: the loose files, the longest unused first, until
    /// they fit into `limit_bytes`. `db` names the base in the error.
    pub fn start(table: &AudioTable, limit_bytes: u64, db: &str) -> (r: Result<Self, CoreError>)
        requires
            table.wf(),
        ensures
            match running_sum(sizes(loose(table@))) {
                Some(sum) => {
                    &&& r matches Ok(g)
                    &&& g.wf()
                    &&& g@.victims.to_multiset() == loose(table@).to_multiset()
                    &&& g@.follows(table@)
                    &&& g@.done == 0
                    &&& g@.remaining == sum
                    &&& g@.limit == stored_size(limit_bytes)
                    &&& g@.freed == 0
                },
                None => r matches Err(e) && e@ == overflow_error(db@),
            },
    {
        let mut sum: Option<i64> = Some(0);
        let mut i: usize = 0;
        assert(table@.subrange(0, 0) =~= Seq::empty());
        assert(sizes(loose(Seq::empty())) =~= Seq::empty());
        while i < table.rows.len()
            invariant
                i <= table.rows@.len(),
                table@ == row_views(table.rows@),
                sum == running_sum(sizes(loose(table@.subrange(0, i as int)))),
            decreases table.rows@.len() - i,
        {
            let ghost upto = table@.subrange(0, i + 1);
            let ghost before = table@.subrange(0, i as int);
            assert(upto.drop_last() =~= before);
            assert(upto.last() == table.rows@[i as int]@);
            if !table.rows[i].pinned {
                assert(sizes(loose(upto)).drop_last() =~= sizes(loose(before)));
                sum = plus(sum, table.rows[i].bytes);
            }
            i += 1;
        }
        assert(table@.subrange(0, i as int) =~= table@);
        let sum: i64 = match sum {
            Some(s) => s,
            None => {
                return Err(
                    CoreError::Database {
                        path: db.to_owned(),
                        source: "integer overflow".to_owned(),
                    },
                );
            },
        };
        let victims = table.victims();
        let count: usize = victims.len();
        let limit: i64 = if limit_bytes <= 0x7FFF_FFFF_FFFF_FFFF {
            limit_bytes as i64
        } else {
            i64::MAX
        };
        let g = Gc { victims, next: 0, remaining: sum as i128, limit, freed: 0 };
        proof {
            lemma_running_is_total(loose(table@));
            assert(g@.victims.subrange(0, g@.victims.len() as int) =~= g@.victims);
            lemma_parts(table@);
            assert forall|k: int| 0 <= k < g@.victims.len() implies !(
            #[trigger] g@.victims[k]).pinned by {
                broadcast use vstd::seq_lib::group_to_multiset_ensures;
                assert(g@.victims.contains(g@.victims[k]));
                assert(loose(table@).to_multiset().count(g@.victims[k]) > 0);
                assert(loose(table@).contains(g@.victims[k]));
            }
        }
        Ok(g)
    }

    /// The file to remove next.
    pub fn victim(&self) -> (r: Option<&AudioRow>)
        requires
            self.wf(),
        ensures
            match r {
                Some(row) => self@.victim() == Some(row@),
                None => self@.victim() is None,
            },
    {
        if self.remaining > self.limit as i128 && self.next < self.victims.len() {
            assert(self@.victims[self.next as int] == self.victims@[self.next as int]@);
            Some(&self.victims[self.next])
        } else {
            None
        }
    }

    /// Takes note of what came of removing the victim's file, and takes it
    /// off the record. A file that was not there is no error: its record
    /// goes all the same, or it would come up again and again. On a failure
    /// nothing changes.
    pub fn removed(&mut self, table: &mut AudioTable, outcome: Removal) -> (r: Result<
        (),
        CoreError,
    >)
        requires
            old(self).wf(),
            old(table).wf(),
            old(self)@.victim() is Some,
            outcome matches Removal::Removed { bytes } ==> old(self)@.freed + bytes <= u64::MAX,
        ensures
            final(self).wf(),
            final(table).wf(),
            match outcome {
                Removal::Removed { bytes } => r is Ok && final(self)@ == old(self)@.evicted(
                    bytes as int,
                ),
                Removal::Missing => r is Ok && final(self)@ == old(self)@.evicted(0),
                Removal::Failed { error } => {
                    &&& r matches Err(e) && e@ == (CoreErrorView::Cache {
                        path: old(self)@.victim()->0.path,
                        source: error@,
                    })
                    &&& final(self)@ == old(self)@
                },
            },
            final(table)@ == (if r is Ok {
                forgotten(old(table)@, old(self)@.victim()->0.key)
            } else {
                old(table)@
            }),
            old(self)@.follows(old(table)@) ==> final(self)@.follows(final(table)@) && pinned_rows(
                final(table)@,
            ) == pinned_rows(old(table)@),
    {
        let ghost before = self@;
        let ghost rows = table@;
        let bytes: u64 = match outcome {
            Removal::Removed { bytes } => bytes,
            Removal::Missing => 0,
            Removal::Failed { error } => {
                assert(before.victims[self.next as int] == self.victims@[self.next as int]@);
                return Err(
                    CoreError::Cache {
                        path: self.victims[self.next].path.clone(),
                        source: error,
                    },
                );
            },
        };
        let ghost rest = before.rest();
        proof {
            lemma_total_drop_first(rest);
            assert(rest.drop_first() =~= before.victims.subrange(
                before.done + 1,
                before.victims.len() as int,
            ));
            assert(before.victims[self.next as int] == self.victims@[self.next as int]@);
            assert(rest[0] == before.victim()->0);
            if before.follows(rows) {
                vstd::seq_lib::to_multiset_remove(rest, 0);
                assert(rest.remove(0) =~= rest.drop_first());
                assert(loose(rows).contains(rest[0])) by {
                    broadcast use vstd::seq_lib::group_to_multiset_ensures;
                    assert(rest.contains(rest[0]));
                    assert(rest.to_multiset().count(rest[0]) > 0);
                }
                lemma_loose_row_forgotten(rows, rest[0]);
            }
        }
        table.forget_audio(
            self.victims[self.next].provider.as_str(),
            self.victims[self.next].id.as_str(),
        );
        let size: i64 = self.victims[self.next].bytes;
        self.remaining = self.remaining - size as i128;
        self.freed = self.freed + bytes;
        self.next = self.next + 1;
        Ok(())
    }

    /// What the files that left took on the disk.
    pub fn freed(&self) -> (r: u64)
        ensures
            r == self@.freed,
    {
        self.freed
    }
}

/// Rows in another order have the same size together.
proof fn lemma_total_of_same_rows(a: Seq<AudioRowView>, b: Seq<AudioRowView>)
    requires
        a.to_multiset() == b.to_multiset(),
    ensures
        total(a) == total(b),
    decreases a.len(),
{
    broadcast use vstd::seq_lib::group_to_multiset_ensures;

    vstd::seq_lib::to_multiset_len(a);
    vstd::seq_lib::to_multiset_len(b);
    if a.len() > 0 {
        let row = a.last();
        assert(a.contains(row)) by {
            assert(a[a.len() - 1] == row);
        }
        assert(b.to_multiset().count(row) > 0);
        let at = choose|k: int| 0 <= k < b.len() && b[k] == row;
        let fewer = b.remove(at);
        vstd::seq_lib::to_multiset_remove(a, a.len() - 1);
        vstd::seq_lib::to_multiset_remove(b, at);
        assert(a.remove(a.len() - 1) =~= a.drop_last());
        lemma_total_of_same_rows(a.drop_last(), fewer);
        assert(fewer.insert(at, row) =~= b);
        lemma_total_insert(fewer, at, row);
    }
}

/// When an eviction has no victim any more, the loose files on record fit
/// into the limit.
pub proof fn lemma_eviction_ends_within_the_limit(g: GcView, table: Seq<AudioRowView>)
    requires
        g.balanced(),
        g.follows(table),
        g.victim() is None,
    ensures
        total(loose(table)) <= g.limit,
{
    lemma_total_of_same_rows(g.rest(), loose(table));
    if g.done == g.victims.len() {
        assert(g.rest() =~= Seq::empty());
    }
}

/// An eviction removes no more than it must: before each victim the loose
/// files did not fit, the victim is not pinned, and none that stays was
/// unused for longer.
pub proof fn lemma_eviction_takes_the_oldest(
    g: GcView,
    table: Seq<AudioRowView>,
    other: AudioRowView,
)
    requires
        g.balanced(),
        g.follows(table),
        g.victim() is Some,
        loose(table).contains(other),
    ensures
        total(loose(table)) > g.limit,
        !g.victim()->0.pinned,
        !older(other, g.victim()->0),
{
    broadcast use vstd::seq_lib::group_to_multiset_ensures;

    lemma_total_of_same_rows(g.rest(), loose(table));
    assert(loose(table).to_multiset().count(other) > 0);
    assert(g.rest().contains(other));
    let k = choose|k: int| 0 <= k < g.rest().len() && g.rest()[k] == other;
    assert(g.victims[g.done + k] == other);
    if k == 0 {
        lemma_text_lt_irreflexive(other.key.provider);
        lemma_text_lt_irreflexive(other.key.id);
    } else {
        assert(!older(g.victims[g.done + k], g.victims[g.done]));
    }
}

/// An eviction after an eviction finds nothing to do: `after` is one that
/// starts from the record that `first`, now at its end, left.
pub proof fn lemma_second_eviction_is_idle(
    first: GcView,
    table: Seq<AudioRowView>,
    after: GcView,
)
    requires
        first.balanced(),
        first.follows(table),
        first.victim() is None,
        after.limit == first.limit,
        running_sum(sizes(loose(table))) matches Some(sum) && after.remaining == sum,
    ensures
        after.victim() is None,
{
    lemma_eviction_ends_within_the_limit(first, table);
    lemma_running_is_total(loose(table));
}

/// The name under which the text form of a list of artists is known.
pub uninterp spec fn artists_text(artists: Seq<Seq<char>>) -> Seq<char>;

/// The name under which the reading of such a text is known: the list, or
/// the parser's complaint.
pub uninterp spec fn artists_read(text: Seq<char>) -> Result<Seq<Seq<char>>, Seq<char>>;

/// Whether a text reads as a list of artists.
pub open spec fn reads_as(text: Seq<char>, artists: Seq<Seq<char>>) -> bool {
    artists_read(text) matches Ok(list) && list == artists
}

/// `serde_json::to_string` of a list of strings, which never fails: the
/// same list always gives the same text, and reading the text gives the
/// list back.
#[verifier::external_body]
fn write_artists(artists: &Vec<String>) -> (r: String)
    ensures
        r@ == artists_text(texts(artists@)),
        reads_as(r@, texts(artists@)),
{
    serde_json::to_string(artists).expect("a list of strings")
}

/// A list of texts or a complaint, by view.
pub open spec fn texts_result(r: Result<Vec<String>, String>) -> Result<Seq<Seq<char>>, Seq<char>> {
    match r {
        Ok(v) => Ok(texts(v@)),
        Err(e) => Err(e@),
    }
}

/// `serde_json::from_str` into a list of strings: the same text always
/// gives the same list, or the same complaint.
#[verifier::external_body]
fn read_artists(text: &str) -> (r: Result<Vec<String>, String>)
    ensures
        texts_result(r) == artists_read(text@),
{
    serde_json::from_str::<Vec<String>>(text).map_err(|e| e.to_string())
}

/// A track as the base holds it.
#[derive(Debug, PartialEq, Eq)]
pub struct TrackRow {
    pub provider: String,
    pub id: String,
    pub title: String,
    /// A JSON list.
    pub artists: String,
    pub album: Option<String>,
    pub duration_ms: Option<i64>,
    pub art_url: Option<String>,
    pub page_url: Option<String>,
}

/// What is wrong with a row.
#[derive(Debug, PartialEq, Eq)]
pub enum RowError {
    /// The artists cannot be read: the base is broken, and losing them in
    /// silence would be worse.
    Artists(String),
    /// A source that is not known. Another one is not put in its place.
    Provider(String),
}

pub open spec fn unknown_provider(name: Seq<char>) -> Seq<char> {
    "провайдер "@ + name + " не объявлен в ядре (ProviderId)"@
}

/// A source's name from the base.
pub fn provider_from_db(name: &str) -> (r: Result<ProviderId, RowError>)
    ensures
        match r {
            Ok(p) => known_providers().contains(name@) && p@ == name@,
            Err(RowError::Provider(e)) => !known_providers().contains(name@) && e@
                == unknown_provider(name@),
            Err(RowError::Artists(_)) => false,
        },
{
    match ProviderId::from_name(name) {
        Some(p) => Ok(p),
        None => Err(
            RowError::Provider(
                concat3("провайдер ", name, " не объявлен в ядре (ProviderId)"),
            ),
        ),
    }
}

/// A length in whole milliseconds as the base holds it.
pub open spec fn stored_millis(d: Duration) -> i64 {
    if d@ / (NANOS_PER_MILLI as nat) <= i64::MAX {
        (d@ / (NANOS_PER_MILLI as nat)) as i64
    } else {
        i64::MAX
    }
}

pub fn duration_to_ms(duration: Duration) -> (r: i64)
    ensures
        r == stored_millis(duration),
{
    let ms: u128 = duration.as_millis();
    if ms <= 0x7FFF_FFFF_FFFF_FFFF {
        ms as i64
    } else {
        i64::MAX
    }
}

/// A length from the base; what is negative is none.
pub fn duration_from_ms(ms: i64) -> (r: Option<Duration>)
    ensures
        r is Some <==> ms >= 0,
        r matches Some(d) ==> d@ == ms * NANOS_PER_MILLI,
{
    if ms < 0 {
        None
    } else {
        Some(Duration::from_millis(ms as u64))
    }
}

/// The row that a track is stored as.
pub open spec fn stored_as(row: TrackRow, track: TrackView) -> bool {
    &&& row.provider@ == track.id.provider
    &&& row.id@ == track.id.id
    &&& row.title@ == track.title
    &&& row.artists@ == artists_text(track.artists)
    &&& reads_as(row.artists@, track.artists)
    &&& opt_text(row.album) == track.album
    &&& row.duration_ms == (match track.duration {
        Some(d) => Some(stored_millis(d)),
        None => None,
    })
    &&& opt_text(row.art_url) == track.art_url
    &&& opt_text(row.page_url) == track.page_url
}

/// Makes the row of a track.
pub fn track_to_row(track: &Track) -> (r: TrackRow)
    ensures
        stored_as(r, track@),
{
    TrackRow {
        provider: track.id.provider.as_str().to_owned(),
        id: track.id.id.clone(),
        title: track.title.clone(),
        artists: write_artists(&track.artists),
        album: clone_opt(&track.album),
        duration_ms: match track.duration {
            Some(d) => Some(duration_to_ms(d)),
            None => None,
        },
        art_url: clone_opt(&track.art_url),
        page_url: clone_opt(&track.page_url),
    }
}

/// What a length from the base is.
pub open spec fn read_duration(ms: Option<i64>, d: Option<Duration>) -> bool {
    match (ms, d) {
        (Some(ms), Some(d)) => ms >= 0 && d@ == ms * NANOS_PER_MILLI,
        (Some(ms), None) => ms < 0,
        (None, None) => true,
        (None, Some(_)) => false,
    }
}

/// The track that a row holds, given how its artists read.
pub fn track_from_parts(row: &TrackRow, artists: Result<Vec<String>, String>) -> (r: Result<
    Track,
    RowError,
>)
    ensures
        match r {
            Ok(t) => {
                &&& known_providers().contains(row.provider@)
                &&& artists matches Ok(list) && t@.artists == texts(list@)
                &&& t@.id == (ScopedIdView { provider: row.provider@, id: row.id@ })
                &&& t@.title == row.title@
                &&& t@.album == opt_text(row.album)
                &&& read_duration(row.duration_ms, t@.duration)
                &&& t@.art_url == opt_text(row.art_url)
                &&& t@.page_url == opt_text(row.page_url)
            },
            Err(RowError::Artists(e)) => artists matches Err(cause) && e@ == cause@,
            Err(RowError::Provider(e)) => artists is Ok && !known_providers().contains(
                row.provider@,
            ) && e@ == unknown_provider(row.provider@),
        },
{
    let artists: Vec<String> = match artists {
        Ok(list) => list,
        Err(e) => return Err(RowError::Artists(e)),
    };
    let provider = match provider_from_db(row.provider.as_str()) {
        Ok(p) => p,
        Err(e) => return Err(e),
    };
    Ok(
        Track {
            id: TrackId { provider, id: row.id.clone() },
            title: row.title.clone(),
            artists,
            album: clone_opt(&row.album),
            duration: match row.duration_ms {
                Some(ms) => duration_from_ms(ms),
                None => None,
            },
            art_url: clone_opt(&row.art_url),
            page_url: clone_opt(&row.page_url),
        },
    )
}

/// Whether a track is what a row holds.
pub open spec fn read_from(row: TrackRow, track: TrackView) -> bool {
    &&& reads_as(row.artists@, track.artists)
    &&& track.id == (ScopedIdView { provider: row.provider@, id: row.id@ })
    &&& track.title == row.title@
    &&& track.album == opt_text(row.album)
    &&& read_duration(row.duration_ms, track.duration)
    &&& track.art_url == opt_text(row.art_url)
    &&& track.page_url == opt_text(row.page_url)
}

/// What a track's row reads as: the track, or why it does not.
pub open spec fn track_answer(row: TrackRow, r: Result<Track, RowError>) -> bool {
    match r {
        Ok(t) => known_providers().contains(row.provider@) && read_from(row, t@),
        Err(RowError::Artists(e)) => artists_read(row.artists@) == Err::<
            Seq<Seq<char>>,
            Seq<char>,
        >(e@),
        Err(RowError::Provider(e)) => artists_read(row.artists@) is Ok
            && !known_providers().contains(row.provider@) && e@ == unknown_provider(row.provider@),
    }
}

/// Reads a track's row.
pub fn track_from_row(row: &TrackRow) -> (r: Result<Track, RowError>)
    ensures
        track_answer(*row, r),
{
    let artists = read_artists(row.artists.as_str());
    track_from_parts(row, artists)
}

/// Whether a length is kept to the millisecond.
pub open spec fn same_to_the_milli(a: Option<Duration>, b: Option<Duration>) -> bool {
    match (a, b) {
        (Some(d), Some(e)) => d@ / (NANOS_PER_MILLI as nat) <= i64::MAX ==> e@ == d@ / (
        NANOS_PER_MILLI as nat) * NANOS_PER_MILLI,
        (None, None) => true,
        _ => false,
    }
}

/// A track of a known source comes back from the base as it went in, its
/// length to the millisecond: `r` is what is read from the row that `track`
/// was stored as.
pub proof fn lemma_track_round_trip(track: TrackView, row: TrackRow, r: Result<Track, RowError>)
    requires
        stored_as(row, track),
        track_answer(row, r),
        known_providers().contains(track.id.provider),
    ensures
        r matches Ok(back) && back@ == (TrackView { duration: back@.duration, ..track })
            && same_to_the_milli(track.duration, back@.duration),
{
}

/// A playlist as the base holds it.
#[derive(Debug, PartialEq, Eq)]
pub struct PlaylistRow {
    pub provider: String,
    pub id: String,
    pub title: String,
    pub subtitle: Option<String>,
    pub art_url: Option<String>,
    pub track_count: Option<i64>,
}

/// A number of tracks from the base; what does not fit is none.
pub open spec fn read_count(count: Option<i64>) -> Option<u32> {
    match count {
        Some(n) => if 0 <= n <= u32::MAX {
            Some(n as u32)
        } else {
            None
        },
        None => None,
    }
}

/// Whether a row holds a playlist.
pub open spec fn playlist_stored_as(row: PlaylistRow, playlist: PlaylistView) -> bool {
    &&& row.provider@ == playlist.id.provider
    &&& row.id@ == playlist.id.id
    &&& row.title@ == playlist.title
    &&& opt_text(row.subtitle) == playlist.subtitle
    &&& opt_text(row.art_url) == playlist.art_url
    &&& row.track_count == match playlist.track_count {
        Some(n) => Some(n as i64),
        None => None,
    }
}

/// Makes the row of a playlist.
pub fn playlist_to_row(playlist: &Playlist) -> (r: PlaylistRow)
    ensures
        playlist_stored_as(r, playlist@),
{
    PlaylistRow {
        provider: playlist.id.provider.as_str().to_owned(),
        id: playlist.id.id.clone(),
        title: playlist.title.clone(),
        subtitle: clone_opt(&playlist.subtitle),
        art_url: clone_opt(&playlist.art_url),
        track_count: match playlist.track_count {
            Some(n) => Some(n as i64),
            None => None,
        },
    }
}

/// What a playlist's row reads as: the playlist, or why it does not.
pub open spec fn playlist_answer(row: PlaylistRow, r: Result<Playlist, RowError>) -> bool {
    match r {
        Ok(p) => known_providers().contains(row.provider@) && p@ == (PlaylistView {
            id: ScopedIdView { provider: row.provider@, id: row.id@ },
            title: row.title@,
            subtitle: opt_text(row.subtitle),
            art_url: opt_text(row.art_url),
            track_count: read_count(row.track_count),
        }),
        Err(RowError::Provider(e)) => !known_providers().contains(row.provider@) && e@
            == unknown_provider(row.provider@),
        Err(RowError::Artists(_)) => false,
    }
}

/// A playlist of a known source comes back from the base as it went in:
/// `r` is what is read from the row that `playlist` was stored as.
pub proof fn lemma_playlist_round_trip(
    playlist: PlaylistView,
    row: PlaylistRow,
    r: Result<Playlist, RowError>,
)
    requires
        playlist_stored_as(row, playlist),
        playlist_answer(row, r),
        known_providers().contains(playlist.id.provider),
    ensures
        r matches Ok(back) && back@ == playlist,
{
}

/// Reads a playlist's row.
pub fn playlist_from_row(row: &PlaylistRow) -> (r: Result<Playlist, RowError>)
    ensures
        playlist_answer(*row, r),
{
    let provider = match provider_from_db(row.provider.as_str()) {
        Ok(p) => p,
        Err(e) => return Err(e),
    };
    Ok(
        Playlist {
            id: PlaylistId { provider, id: row.id.clone() },
            title: row.title.clone(),
            subtitle: clone_opt(&row.subtitle),
            art_url: clone_opt(&row.art_url),
            track_count: match row.track_count {
                Some(n) => if n >= 0 && n <= 0xFFFF_FFFF {
                    Some(n as u32)
                } else {
                    None
                },
                None => None,
            },
        },
    )
}

/// Whether a row is of the source that was asked for; without one every row
/// is.
pub open spec fn row_asked_for(row: PlaylistRow, provider: Option<Seq<char>>) -> bool {
    provider matches Some(name) ==> row.provider@ == name
}

/// The rows of a source, in their order.
pub open spec fn rows_of(rows: Seq<PlaylistRow>, provider: Option<Seq<char>>) -> Seq<PlaylistRow> {
    rows.filter(|row: PlaylistRow| row_asked_for(row, provider))
}

/// Reads the rows of playlists, at wish those of one source alone. The first
/// row that cannot be read is the error.
pub fn read_playlists(rows: &Vec<PlaylistRow>, provider: Option<&str>) -> (r: Result<
    Vec<Playlist>,
    RowError,
>)
    ensures
        ({
            let asked = rows_of(rows@, opt_str(provider));
            match r {
                Ok(playlists) => {
                    &&& playlists@.len() == asked.len()
                    &&& forall|i: int|
                        0 <= i < asked.len() ==> playlist_answer(
                            #[trigger] asked[i],
                            Ok(playlists@[i]),
                        )
                },
                Err(e) => exists|i: int|
                    {
                        &&& 0 <= i < asked.len()
                        &&& playlist_answer(#[trigger] asked[i], Err(e))
                        &&& forall|k: int|
                            0 <= k < i ==> known_providers().contains(
                                (#[trigger] asked[k]).provider@,
                            )
                    },
            }
        }),
{
    let ghost name = opt_str(provider);
    let ghost pred = |row: PlaylistRow| row_asked_for(row, name);
    let ghost asked = rows_of(rows@, name);
    let mut out: Vec<Playlist> = Vec::new();
    let mut i: usize = 0;
    proof {
        reveal(Seq::filter);
        assert(rows@.subrange(0, 0).filter(pred) =~= Seq::empty());
    }
    while i < rows.len()
        invariant
            i <= rows@.len(),
            name == opt_str(provider),
            pred == (|row: PlaylistRow| row_asked_for(row, name)),
            asked == rows@.filter(pred),
            asked == rows_of(rows@, name),
            out@.len() == rows@.subrange(0, i as int).filter(pred).len(),
            forall|k: int|
                0 <= k < out@.len() ==> playlist_answer(
                    #[trigger] rows@.subrange(0, i as int).filter(pred)[k],
                    Ok(out@[k]),
                ),
        decreases rows@.len() - i,
    {
        let ghost had = rows@.subrange(0, i as int).filter(pred);
        let ghost now = rows@.subrange(0, i + 1).filter(pred);
        proof {
            reveal(Seq::filter);
            assert(rows@.subrange(0, i + 1).drop_last() =~= rows@.subrange(0, i as int));
            assert(rows@.subrange(0, i + 1).last() == rows@[i as int]);
        }
        let wanted: bool = match provider {
            Some(p) => rows[i].provider.as_str().eq(p),
            None => true,
        };
        if wanted {
            assert(now == had.push(rows@[i as int]));
            match playlist_from_row(&rows[i]) {
                Ok(playlist) => out.push(playlist),
                Err(e) => {
                    proof {
                        lemma_filter_prefix(rows@, i + 1, pred);
                        assert(now[had.len() as int] == rows@[i as int]);
                        assert(asked[had.len() as int] == rows@[i as int]);
                        assert forall|k: int| 0 <= k < had.len() implies known_providers().contains(
                            (#[trigger] asked[k]).provider@,
                        ) by {
                            assert(playlist_answer(had[k], Ok(out@[k])));
                            assert(asked[k] == now[k]);
                        }
                        assert(playlist_answer(asked[had.len() as int], Err(e)));
                    }
                    return Err(e);
                },
            }
        }
        i += 1;
    }
    assert(rows@.subrange(0, i as int) =~= rows@);
    Ok(out)
}

/// What is kept of the beginning is the beginning of what is kept.
proof fn lemma_filter_prefix(
    rows: Seq<PlaylistRow>,
    len: int,
    pred: spec_fn(PlaylistRow) -> bool,
)
    requires
        0 <= len <= rows.len(),
    ensures
        rows.subrange(0, len).filter(pred).len() <= rows.filter(pred).len(),
        forall|k: int|
            0 <= k < rows.subrange(0, len).filter(pred).len() ==> rows.filter(pred)[k]
                == #[trigger] rows.subrange(0, len).filter(pred)[k],
    decreases rows.len(),
{
    reveal(Seq::filter);
    if len == rows.len() {
        assert(rows.subrange(0, len) =~= rows);
    } else {
        lemma_filter_prefix(rows.drop_last(), len, pred);
        assert(rows.drop_last().subrange(0, len) =~= rows.subrange(0, len));
    }
}

/// A place of a playlist as the base holds it.
#[derive(Debug, PartialEq, Eq)]
pub struct PlaylistTrackRow {
    pub position: i64,
    pub track_provider: String,
    pub track_id: String,
}

/// The rows of a playlist's tracks: the position is part of the key, so
/// that the order survives.
pub fn playlist_track_rows(tracks: &Vec<Track>) -> (r: Vec<PlaylistTrackRow>)
    requires
        tracks@.len() <= i64::MAX,
    ensures
        r@.len() == tracks@.len(),
        forall|i: int|
            0 <= i < r@.len() ==> (#[trigger] r@[i]).position == i && r@[i].track_provider@
                == tracks@[i]@.id.provider && r@[i].track_id@ == tracks@[i]@.id.id,
{
    let mut out: Vec<PlaylistTrackRow> = Vec::new();
    let mut i: usize = 0;
    while i < tracks.len()
        invariant
            i <= tracks@.len() <= i64::MAX,
            out@.len() == i,
            forall|k: int|
                0 <= k < i ==> (#[trigger] out@[k]).position == k && out@[k].track_provider@
                    == tracks@[k]@.id.provider && out@[k].track_id@ == tracks@[k]@.id.id,
        decreases tracks@.len() - i,
    {
        out.push(
            PlaylistTrackRow {
                position: i as i64,
                track_provider: tracks[i].id.provider.as_str().to_owned(),
                track_id: tracks[i].id.id.clone(),
            },
        );
        i += 1;
    }
    out
}

/// A name of letters, digits, `_` and `-` is a file name as it is, and any
/// other character becomes `_`; so two such names never share a file.
pub proof fn lemma_plain_names_stay(part: Seq<char>, other: Seq<char>, i: int)
    requires
        0 <= i < part.len(),
    ensures
        sanitized(part).len() == part.len(),
        ({
            let c = part[i];
            let plain = 'a' <= c <= 'z' || 'A' <= c <= 'Z' || '0' <= c <= '9' || c == '_' || c
                == '-';
            sanitized(part)[i] == if plain {
                c
            } else {
                '_'
            }
        }),
        sanitized(part) == part && sanitized(other) == other && audio_name(part, "m4a"@)
            == audio_name(other, "m4a"@) ==> part == other,
{
    if audio_name(part, "m4a"@) == audio_name(other, "m4a"@) {
        let tail = "."@ + sanitized("m4a"@);
        let a = audio_name(part, "m4a"@);
        assert(a =~= sanitized(part) + tail);
        assert(audio_name(other, "m4a"@) =~= sanitized(other) + tail);
        assert(sanitized(part).len() == sanitized(other).len());
        assert(a.take(part.len() as int) =~= sanitized(part));
        assert(a.take(part.len() as int) =~= sanitized(other));
    }
}

/// A file that is used becomes the freshest of its record: it is found, it
/// leaves after every file that was used before, and nothing else of the
/// record changes. A file that is new on record is not pinned.
pub proof fn lemma_what_is_used_is_fresh(
    before: Seq<AudioRowView>,
    after: Seq<AudioRowView>,
    id: ScopedIdView,
    now: i64,
    found: Option<Seq<char>>,
    other: ScopedIdView,
    path: Seq<char>,
    bytes: u64,
    ext: Seq<char>,
    stored: Seq<AudioRowView>,
)
    requires
        row_of(before, id) is Some,
        looked_up(before, after, id, true, now, found),
        other != id,
        registered(before, stored, other, path, bytes, ext, now),
    ensures
        found == Some(row_of(before, id)->0.path),
        row_of(after, id) matches Some(row) && row.accessed_at == now && row.pinned == row_of(
            before,
            id,
        )->0.pinned && row.bytes == row_of(before, id)->0.bytes,
        row_of(after, other) == row_of(before, other),
        row_of(before, other) matches Some(row) ==> row.accessed_at < now ==> older(
            row,
            row_of(after, id)->0,
        ) && !older(row_of(after, id)->0, row),
        row_of(stored, other) matches Some(row) && row.path == path && row.accessed_at == now && (
        bytes <= i64::MAX ==> row.bytes == bytes) && (row_of(before, other) is None
            ==> !row.pinned),
        row_of(stored, id) == row_of(before, id),
{
}

/// The longest unused leaves first; of two that were used at the same moment
/// one leaves first all the same, and always the same one.
pub proof fn lemma_the_longest_unused_leaves_first(a: AudioRowView, b: AudioRowView)
    ensures
        a.accessed_at < b.accessed_at ==> older(a, b) && !older(b, a),
        a.accessed_at == b.accessed_at && a.key != b.key ==> older(a, b) != older(b, a),
        !older(a, a),
{
    lemma_text_lt_irreflexive(a.key.provider);
    lemma_text_lt_irreflexive(a.key.id);
    if a.accessed_at == b.accessed_at && a.key != b.key {
        if a.key.provider == b.key.provider {
            assert(a.key.id != b.key.id) by {
                if a.key.id == b.key.id {
                    assert(a.key =~= b.key);
                }
            }
        }
        if older(a, b) {
            lemma_not_both(a, b);
        }
        crate::text::lemma_text_lt_total(a.key.provider, b.key.provider);
        crate::text::lemma_text_lt_total(a.key.id, b.key.id);
    }
}

/// Forgetting a track takes its rows off and leaves the others in their
/// order; what may leave is what is not pinned; and sizes add up.
pub proof fn lemma_records_are_split_by_the_pin(
    rows: Seq<AudioRowView>,
    key: ScopedIdView,
    more: AudioRowView,
)
    ensures
        forgotten(rows, key) == rows.filter(|r: AudioRowView| r.key != key),
        loose(rows) == rows.filter(|r: AudioRowView| !r.pinned),
        pinned_rows(rows) == rows.filter(|r: AudioRowView| r.pinned),
        total(loose(rows)) + total(pinned_rows(rows)) == total(rows),
        total(Seq::<AudioRowView>::empty()) == 0,
        total(rows.push(more)) == total(rows) + more.bytes,
    decreases rows.len(),
{
    reveal(Seq::filter);
    assert(rows.push(more).drop_last() =~= rows);
    if rows.len() > 0 {
        let rest = rows.drop_last();
        lemma_records_are_split_by_the_pin(rest, key, more);
        let last = rows.last();
        assert(loose(rest).push(last).drop_last() =~= loose(rest));
        assert(pinned_rows(rest).push(last).drop_last() =~= pinned_rows(rest));
    }
}

/// The statistics count the files on record, all of them and the pinned
/// ones, with what they take.
pub proof fn lemma_statistics_count_what_is_there(rows: Seq<AudioRowView>, limit: u64)
    requires
        rows.len() <= u64::MAX,
        forall|i: int| 0 <= i < rows.len() ==> (#[trigger] rows[i]).bytes >= 0,
        total(rows) <= i64::MAX,
    ensures
        stats_of(rows, limit) matches Some(s) && s.tracks == rows.len() && s.bytes == total(rows)
            && s.limit_bytes == limit && s.pinned_tracks == rows.filter(
            |r: AudioRowView| r.pinned,
        ).len() && s.pinned_bytes == total(rows.filter(|r: AudioRowView| r.pinned)),
{
    let key = ScopedIdView { provider: Seq::empty(), id: Seq::empty() };
    if rows.len() > 0 {
        lemma_records_are_split_by_the_pin(rows, key, rows[0]);
    } else {
        reveal(Seq::filter);
        assert(pinned_rows(rows) =~= rows.filter(|r: AudioRowView| r.pinned));
    }
    lemma_sums_of_sizes(rows);
    let pinned = pinned_rows(rows);
    lemma_pinned_sizes(rows);
    lemma_sums_of_sizes(pinned);
    assert(pinned.len() <= rows.len());
}

proof fn lemma_sums_of_sizes(rows: Seq<AudioRowView>)
    requires
        forall|i: int| 0 <= i < rows.len() ==> (#[trigger] rows[i]).bytes >= 0,
        total(rows) <= i64::MAX,
    ensures
        running_sum(sizes(rows)) matches Some(s) && s == total(rows),
        total(rows) >= 0,
    decreases rows.len(),
{
    if rows.len() > 0 {
        let rest = rows.drop_last();
        assert forall|i: int| 0 <= i < rest.len() implies (#[trigger] rest[i]).bytes >= 0 by {
            assert(rest[i] == rows[i]);
        }
        assert(rows[rows.len() - 1].bytes >= 0);
        lemma_sums_of_sizes(rest);
        assert(sizes(rows).drop_last() =~= sizes(rest));
        assert(sizes(rows).last() == rows.last().bytes);
    }
}

proof fn lemma_pinned_sizes(rows: Seq<AudioRowView>)
    requires
        forall|i: int| 0 <= i < rows.len() ==> (#[trigger] rows[i]).bytes >= 0,
    ensures
        forall|i: int|
            0 <= i < pinned_rows(rows).len() ==> (#[trigger] pinned_rows(rows)[i]).bytes >= 0,
        total(pinned_rows(rows)) <= total(rows),
        pinned_rows(rows).len() <= rows.len(),
    decreases rows.len(),
{
    if rows.len() > 0 {
        let rest = rows.drop_last();
        assert forall|i: int| 0 <= i < rest.len() implies (#[trigger] rest[i]).bytes >= 0 by {
            assert(rest[i] == rows[i]);
        }
        assert(rows[rows.len() - 1].bytes >= 0);
        lemma_pinned_sizes(rest);
        let before = pinned_rows(rest);
        assert(before.push(rows.last()).drop_last() =~= before);
    }
}

/// One step of an eviction: the first of those that are left goes, the
/// others stay, and what its file took on the disk is counted as freed.
pub proof fn lemma_an_eviction_goes_step_by_step(g: GcView, bytes: int)
    requires
        g.balanced(),
        g.victim() is Some,
    ensures
        g.victim() == Some(g.rest()[0]),
        g.evicted(bytes).rest() == g.rest().drop_first(),
        g.evicted(bytes).freed == g.freed + bytes,
        g.evicted(bytes).limit == g.limit,
        g.evicted(bytes).remaining == total(g.rest().drop_first()),
{
    assert(g.evicted(bytes).rest() =~= g.rest().drop_first());
    lemma_total_drop_first(g.rest());
}

/// Sizes and lengths are kept as they are as far as the base holds them: a
/// size up to the largest signed number, a length to the millisecond.
pub proof fn lemma_the_base_keeps_sizes_and_lengths(bytes: u64, d: Duration, ms: i64)
    ensures
        bytes <= i64::MAX ==> stored_size(bytes) == bytes && shown(stored_size(bytes) as int)
            == bytes,
        bytes > i64::MAX ==> stored_size(bytes) == i64::MAX,
        ms < 0 ==> shown(ms as int) == 0,
        ms >= 0 ==> shown(ms as int) == ms,
        ms >= 0 && ms * 1_000_000 <= d@ < (ms + 1) * 1_000_000 ==> stored_millis(d) == ms,
        ms >= 0 && d@ == ms * 1_000_000 ==> read_duration(Some(stored_millis(d)), Some(d)),
{
    if ms >= 0 && ms * 1_000_000 <= d@ < (ms + 1) * 1_000_000 {
        assert(d@ / 1_000_000 == ms) by (nonlinear_arith)
            requires
                ms * 1_000_000 <= d@ < (ms + 1) * 1_000_000,
        ;
    }
}

/// A source's playlists are those rows that name it, in their order; with
/// no source asked for they are all rows.
pub proof fn lemma_playlists_are_read_by_source(rows: Seq<PlaylistRow>, name: Seq<char>)
    ensures
        rows_of(rows, Some(name)) == rows.filter(|row: PlaylistRow| row.provider@ == name),
        rows_of(rows, None) == rows,
    decreases rows.len(),
{
    reveal(Seq::filter);
    if rows.len() > 0 {
        lemma_playlists_are_read_by_source(rows.drop_last(), name);
        assert(rows.drop_last().push(rows.last()) =~= rows);
    } else {
        assert(rows_of(rows, None) =~= rows);
    }
}

/// A file that is not on record is not found, and asking for it changes
/// nothing.
pub proof fn lemma_what_is_not_on_record_is_not_found(
    before: Seq<AudioRowView>,
    after: Seq<AudioRowView>,
    id: ScopedIdView,
    is_file: bool,
    now: i64,
    found: Option<Seq<char>>,
)
    requires
        forall|k: int| 0 <= k < before.len() ==> (#[trigger] before[k]).key != id,
        looked_up(before, after, id, is_file, now, found),
    ensures
        found is None,
        after == before,
{
}

} // verus!
