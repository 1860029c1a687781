//! The offline cache in front of the sources: what is on disk is played
//! from there.

use vstd::prelude::*;

use crate::error::CoreError;
use crate::model::{StreamSource, StreamSourceView};

verus! {

/// What the cache answered about a track: where its file is, if it has one.
/// A cache that cannot be asked is no reason not to play.
pub open spec fn source_at_hand(found: Result<Option<String>, CoreError>) -> Option<
    StreamSourceView,
> {
    match found {
        Ok(Some(path)) => Some(StreamSourceView::Local(path@)),
        _ => None,
    }
}

/// The source that needs no network. With a file at hand the track's own
/// source is not asked at all; `None` means to ask it.
pub fn cached_source(found: Result<Option<String>, CoreError>) -> (r: Option<StreamSource>)
    ensures
        (match r {
            Some(s) => Some(s@),
            None => None,
        }) == source_at_hand(found),
        r matches Some(s) ==> s@ is Local,
{
    match found {
        Ok(Some(path)) => Some(StreamSource::Local(path)),
        _ => None,
    }
}

/// A file at hand is played from where it lies; without one, and where the
/// cache cannot be asked, the track's own source is asked.
pub proof fn lemma_files_at_hand_are_played(path: String, e: CoreError)
    ensures
        source_at_hand(Ok(Some(path))) == Some(StreamSourceView::Local(path@)),
        source_at_hand(Ok(None)) is None,
        source_at_hand(Err(e)) is None,
{
}

} // verus!
