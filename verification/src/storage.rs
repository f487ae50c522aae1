//! What all storage backends share: the events of a live stream, and the
//! newest file of a listing.
use crate::ltx::{FileInfo, Txid};
use vstd::prelude::*;

verus! {

/// One event from a live stream of level-0 files. Protocol evolution may add
/// events, and consumers must treat unknown events as "drop the stream and
/// resync via listings".
#[derive(Clone, Copy, Debug, PartialEq, Eq, Structural)]
#[non_exhaustive]
#[allow(inconsistent_fields)]
pub enum StreamEvent {
    /// A complete level-0 file was written to the sink.
    Ltx(FileInfo),
    /// Keepalive tick: nothing new. Server pings carry the bucket-wide last
    /// transaction, so that followers can detect divergence while idle;
    /// timeout ticks carry nothing.
    Idle { bucket_max: Option<Txid> },
    /// The requested position is no longer available at level 0 (pruned by
    /// retention); `next` is the oldest available transaction. The stream
    /// ends after this event.
    Gap { next: Txid },
    /// The bucket's last transaction is below the requested position: the
    /// bucket was wiped or reseeded. The stream ends after this event.
    Reset { bucket_max: Txid },
    /// The server ended the stream cleanly.
    Closed,
}

/// The last listed of the files with the highest last transaction.
pub open spec fn max_file(files: Seq<FileInfo>) -> Option<FileInfo>
    decreases files.len(),
{
    if files.len() == 0 {
        None
    } else {
        match max_file(files.drop_last()) {
            None => Some(files.last()),
            Some(f) => if files.last().max_txid.0 >= f.max_txid.0 {
                Some(files.last())
            } else {
                Some(f)
            },
        }
    }
}

/// The file with the highest last transaction in a level's listing, or
/// nothing if the level is empty.
pub fn max_ltx_file_info(files: &Vec<FileInfo>) -> (r: Option<FileInfo>)
    ensures
        r == max_file(files@),
{
    let mut best: Option<FileInfo> = None;
    let mut i: usize = 0;
    assert(files@.take(0) =~= Seq::<FileInfo>::empty());
    while i < files.len()
        invariant
            i <= files@.len(),
            best == max_file(files@.take(i as int)),
        decreases files@.len() - i,
    {
        let f = files[i];
        assert(files@.take(i + 1).drop_last() =~= files@.take(i as int));
        match best {
            None => {
                best = Some(f);
            },
            Some(b) => {
                if f.max_txid.0 >= b.max_txid.0 {
                    best = Some(f);
                }
            },
        }
        i += 1;
    }
    assert(files@.take(i as int) =~= files@);
    best
}

/// No file of a level ends later than the one found.
pub proof fn law_max_file_is_newest(files: Seq<FileInfo>)
    ensures
        max_file(files) is None <==> files.len() == 0,
        max_file(files) matches Some(f) ==> files.contains(f) && forall|k: int|
            0 <= k < files.len() ==> (#[trigger] files[k]).max_txid.0 <= f.max_txid.0,
    decreases files.len(),
{
    if files.len() > 0 {
        let t = files.drop_last();
        law_max_file_is_newest(t);
        let f = max_file(files)->0;
        if f == files.last() {
            assert(files[files.len() - 1] == f);
        }
        if max_file(t) is Some {
            let g = max_file(t)->0;
            let k = choose|k: int| 0 <= k < t.len() && t[k] == g;
            assert(files[k] == g);
        }
        assert forall|k: int| 0 <= k < files.len() implies (#[trigger] files[k]).max_txid.0
            <= f.max_txid.0 by {
            if k < t.len() {
                assert(files[k] == t[k]);
            }
        }
    }
}

} // verus!
