//! Client-side resume loop: before each request the client re-reads the
//! destination file's size, claims that many bytes, and appends whatever the
//! server offers.  The only state the loop needs is that size, so a client
//! restarted after a crash resumes from wherever the previous run stopped.

use vstd::prelude::*;
use crate::chunk::size_sum;
use crate::negotiate::TransferOffer;

verus! {

/// The decision taken after one negotiation round.
#[derive(PartialEq, Eq, Structural, Clone, Copy, Debug)]
pub enum ResumeAction {
    /// A zero-length offer: the download is complete (or the file vanished);
    /// stop without any further network read.
    Finished,
    /// Receive exactly this many bytes and append them to the destination.
    Receive { length: u64 },
}

/// Decides the next step of the resume loop from the server's offer.  The
/// loop stops exactly on the zero sentinel and otherwise reads exactly the
/// offered byte count.
pub fn resume_step(offer: TransferOffer) -> (a: ResumeAction)
    ensures
        a is Finished <==> offer.remaining_bytes == 0,
        a matches ResumeAction::Receive { length } ==> length == offer.remaining_bytes,
{
    if offer.remaining_bytes == 0 {
        ResumeAction::Finished
    } else {
        ResumeAction::Receive { length: offer.remaining_bytes }
    }
}

/// The destination after one resume attempt that appends the next `n`
/// source bytes to `dest`.
pub open spec fn attempt_append(source: Seq<u8>, dest: Seq<u8>, n: nat) -> Seq<u8>
    recommends
        dest.len() + n <= source.len(),
{
    dest + source.subrange(dest.len() as int, (dest.len() + n) as int)
}

/// The destination after a whole run of resume attempts, the `k`-th of
/// which appends the next `sizes[k]` source bytes.
pub open spec fn run_attempts(source: Seq<u8>, dest: Seq<u8>, sizes: Seq<nat>) -> Seq<u8>
    decreases sizes.len(),
{
    if sizes.len() == 0 {
        dest
    } else {
        run_attempts(source, attempt_append(source, dest, sizes[0]), sizes.drop_first())
    }
}

/// Each attempt keeps the destination a prefix of the source: appending the
/// next `n` bytes to a correct prefix yields the longer correct prefix.
pub proof fn lemma_attempt_keeps_prefix(source: Seq<u8>, dest: Seq<u8>, n: nat)
    requires
        dest == source.take(dest.len() as int),
        dest.len() + n <= source.len(),
    ensures
        attempt_append(source, dest, n) == source.take((dest.len() + n) as int),
        attempt_append(source, dest, n).len() == dest.len() + n,
{
    assert(attempt_append(source, dest, n) =~= source.take((dest.len() + n) as int));
}

/// Round trip of the resume loop: starting from any correct prefix of the
/// source, a run of attempts whose sizes cover the rest of the source ends
/// with the destination byte-identical to the source — for any attempt
/// count and any split of the remainder, one attempt or one byte at a time.
pub proof fn lemma_resume_round_trip(source: Seq<u8>, dest: Seq<u8>, sizes: Seq<nat>)
    requires
        dest == source.take(dest.len() as int),
        dest.len() + size_sum(sizes) == source.len(),
    ensures
        run_attempts(source, dest, sizes) == source,
    decreases sizes.len(),
{
    if sizes.len() == 0 {
        assert(dest =~= source);
    } else {
        let n = sizes[0];
        assert(size_sum(sizes) == n + size_sum(sizes.drop_first()));
        lemma_attempt_keeps_prefix(source, dest, n);
        lemma_resume_round_trip(source, attempt_append(source, dest, n), sizes.drop_first());
    }
}

/// The whole-file case of the round trip: a download of a file of any size
/// from an empty destination, in any number of resume attempts, reproduces
/// the source exactly.
pub proof fn lemma_download_reproduces_source(source: Seq<u8>, sizes: Seq<nat>)
    requires
        size_sum(sizes) == source.len(),
    ensures
        run_attempts(source, Seq::empty(), sizes) == source,
{
    assert(Seq::<u8>::empty() =~= source.take(0));
    lemma_resume_round_trip(source, Seq::empty(), sizes);
}

} // verus!
