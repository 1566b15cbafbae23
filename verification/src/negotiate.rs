//! Transfer negotiator: given the current size of the requested source file
//! and the number of bytes the peer already holds, decide how many bytes are
//! left to send.
//!
//! The stat of the source file is I/O and happens outside the library; the
//! negotiator takes its result (`None` when the file was not found) and is a
//! pure function of it.  A missing file and a fully delivered file collapse
//! into the same zero-length offer: the wire protocol has a single sentinel
//! for both.

use vstd::prelude::*;

verus! {

/// The server's response to a download request: how many bytes it is about
/// to send for this request.  Zero means "no more data is available".
#[derive(PartialEq, Eq, Structural, Clone, Copy, Debug)]
pub struct TransferOffer {
    pub remaining_bytes: u64,
}

/// What the negotiator offers: the part of the source file beyond
/// `have_bytes`, or nothing when the file is missing or already covered.
pub open spec fn spec_negotiate(stat: Option<u64>, have_bytes: u64) -> u64 {
    match stat {
        Option::None => 0u64,
        Option::Some(actual_size) => if have_bytes >= actual_size {
            0u64
        } else {
            (actual_size - have_bytes) as u64
        },
    }
}

/// Computes the offer for one download request.  `stat` is the current size
/// of the requested file, or `None` when it does not exist; `have_bytes` is
/// the byte count the requesting peer claims to hold already.
///
/// The claimed `have_bytes` is checked against the actual size before
/// subtracting, so a stale or dishonest claim can never produce an offer
/// larger than the file.
pub fn negotiate(stat: Option<u64>, have_bytes: u64) -> (offer: TransferOffer)
    ensures
        offer.remaining_bytes == spec_negotiate(stat, have_bytes),
        stat is None ==> offer.remaining_bytes == 0,
        stat is Some && have_bytes >= stat->0 ==> offer.remaining_bytes == 0,
        stat is Some && have_bytes < stat->0 ==> offer.remaining_bytes == stat->0 - have_bytes,
{
    match stat {
        Option::None => TransferOffer { remaining_bytes: 0 },
        Option::Some(actual_size) => {
            if have_bytes >= actual_size {
                TransferOffer { remaining_bytes: 0 }
            } else {
                TransferOffer { remaining_bytes: actual_size - have_bytes }
            }
        },
    }
}

/// Negotiation is idempotent: two offers computed from the same stat result
/// and the same claimed byte count are equal.  Both parameters carry the
/// negotiator's exact postcondition, so any two calls of `negotiate` with the
/// same arguments and no intervening mutation of the source satisfy it.
pub proof fn lemma_negotiate_idempotent(
    stat: Option<u64>,
    have_bytes: u64,
    first: TransferOffer,
    second: TransferOffer,
)
    requires
        first.remaining_bytes == spec_negotiate(stat, have_bytes),
        second.remaining_bytes == spec_negotiate(stat, have_bytes),
    ensures
        first == second,
{
}

} // verus!
