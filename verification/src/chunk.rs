//! Chunked stream engine: breaks a negotiated byte range into bounded-size
//! chunks on the sending side and tracks exact-length reassembly on the
//! receiving side.
//!
//! The engine itself never touches a socket or a file.  The sender and
//! receiver are step machines: the caller performs one read or write per
//! step with the length the machine dictates, then advances the machine.
//! Every contract is stated against the chunk plan `chunk_sizes`, whose sum
//! is proved equal to the negotiated length.

use vstd::prelude::*;
use crate::negotiate::spec_negotiate;

verus! {

/// Errors of one transfer attempt.  `Io` is a failed socket or file
/// operation, `Truncated` an early end of stream before the announced byte
/// count arrived, and `SizeRaceDetected` a source file that shrank between
/// negotiation and sending.
#[derive(PartialEq, Eq, Structural, Clone, Copy, Debug)]
pub enum TransferError {
    Io,
    Truncated,
    SizeRaceDetected,
}

/// The sizes of the writes that stream `len` bytes in chunks of at most
/// `max` bytes: full chunks of `max`, then one final chunk with the rest.
pub open spec fn chunk_sizes(len: nat, max: nat) -> Seq<nat>
    recommends
        max > 0,
    decreases len,
{
    if max == 0 || len == 0 {
        Seq::empty()
    } else if len <= max {
        seq![len]
    } else {
        seq![max] + chunk_sizes((len - max) as nat, max)
    }
}

/// The total number of bytes in a sequence of chunk sizes.
pub open spec fn size_sum(s: Seq<nat>) -> nat
    decreases s.len(),
{
    if s.len() == 0 {
        0
    } else {
        s[0] + size_sum(s.drop_first())
    }
}

/// The chunk plan is exact: the chunks sum to precisely `len` bytes, and
/// every chunk is non-empty and at most `max` bytes long.
pub proof fn lemma_chunk_sizes_exact(len: nat, max: nat)
    requires
        max > 0,
    ensures
        size_sum(chunk_sizes(len, max)) == len,
        forall|i: int|
            0 <= i < chunk_sizes(len, max).len() ==> 0 < #[trigger] chunk_sizes(len, max)[i]
                <= max,
    decreases len,
{
    if len == 0 {
    } else if len <= max {
        let s = chunk_sizes(len, max);
        assert(s == seq![len]);
        assert(s.drop_first() =~= Seq::<nat>::empty());
        assert(size_sum(s) == len + size_sum(s.drop_first()));
        assert(size_sum(Seq::<nat>::empty()) == 0);
    } else {
        lemma_chunk_sizes_exact((len - max) as nat, max);
        let s = chunk_sizes(len, max);
        assert(s == seq![max] + chunk_sizes((len - max) as nat, max));
        assert(s.drop_first() =~= chunk_sizes((len - max) as nat, max));
        assert(s[0] == max);
        assert(size_sum(s) == max + size_sum(s.drop_first()));
    }
}

/// After a successful negotiation the sender streams exactly the offered
/// number of bytes: the chunk plan for the offer sums to the offer, no
/// more, no less, whatever the maximum chunk size.
pub proof fn lemma_offer_fully_sent(stat: Option<u64>, have_bytes: u64, max: nat)
    requires
        max > 0,
    ensures
        size_sum(chunk_sizes(spec_negotiate(stat, have_bytes) as nat, max)) == spec_negotiate(
            stat,
            have_bytes,
        ),
{
    lemma_chunk_sizes_exact(spec_negotiate(stat, have_bytes) as nat, max);
}

/// Sending side of one transfer: walks the chunk plan for the negotiated
/// range.  `offset` is the position in the source file of the next byte to
/// send, `remaining` the byte count still owed to the peer.
pub struct ChunkSender {
    pub offset: u64,
    pub remaining: u64,
    pub max_chunk: u64,
}

impl ChunkSender {
    /// Well-formedness: a positive chunk bound, and a range that stays
    /// inside the addressable file.
    pub open spec fn wf(self) -> bool {
        self.max_chunk > 0 && self.offset + self.remaining <= u64::MAX
    }

    /// The sizes of the writes still ahead.
    pub open spec fn plan(self) -> Seq<nat> {
        chunk_sizes(self.remaining as nat, self.max_chunk as nat)
    }

    /// Starts a transfer of `length` bytes beginning at `start_offset` in
    /// the source, to be written in chunks of at most `max_chunk` bytes.
    pub fn new(start_offset: u64, length: u64, max_chunk: u64) -> (s: Self)
        requires
            max_chunk > 0,
            start_offset + length <= u64::MAX,
        ensures
            s.wf(),
            s.offset == start_offset,
            s.remaining == length,
            s.max_chunk == max_chunk,
    {
        ChunkSender { offset: start_offset, remaining: length, max_chunk }
    }

    /// True when every byte of the range has been handed out.
    pub fn done(&self) -> (b: bool)
        ensures
            b == (self.remaining == 0),
    {
        self.remaining == 0
    }

    /// Takes the next chunk of the plan: returns its length and advances
    /// the machine past it.  The caller must read exactly that many bytes
    /// at the old `offset` and write them to the connection.
    pub fn take_chunk(&mut self) -> (n: u64)
        requires
            old(self).wf(),
            old(self).remaining > 0,
        ensures
            final(self).wf(),
            n == if old(self).remaining <= old(self).max_chunk {
                old(self).remaining
            } else {
                old(self).max_chunk
            },
            0 < n <= old(self).max_chunk,
            n <= old(self).remaining,
            final(self).offset == old(self).offset + n,
            final(self).remaining == old(self).remaining - n,
            final(self).max_chunk == old(self).max_chunk,
            old(self).plan() == seq![n as nat] + final(self).plan(),
    {
        let n: u64 = if self.remaining <= self.max_chunk {
            self.remaining
        } else {
            self.max_chunk
        };
        self.offset = self.offset + n;
        self.remaining = self.remaining - n;
        proof {
            assert(old(self).plan() =~= seq![n as nat] + final(self).plan());
        }
        n
    }
}

/// Receiving side of one transfer: tracks exact-length reassembly of the
/// announced byte count, append-only.  `bytes_done` only ever grows, and
/// never beyond `bytes_total`.
pub struct ChunkReceiver {
    pub bytes_total: u64,
    pub bytes_done: u64,
}

impl ChunkReceiver {
    /// Well-formedness: progress never exceeds the announced total.
    pub open spec fn wf(self) -> bool {
        self.bytes_done <= self.bytes_total
    }

    /// Starts reassembly of `expected_length` announced bytes.
    pub fn new(expected_length: u64) -> (r: Self)
        ensures
            r.wf(),
            r.bytes_total == expected_length,
            r.bytes_done == 0,
    {
        ChunkReceiver { bytes_total: expected_length, bytes_done: 0 }
    }

    /// How many bytes are still owed by the peer.
    pub fn remaining(&self) -> (n: u64)
        requires
            self.wf(),
        ensures
            n == self.bytes_total - self.bytes_done,
    {
        self.bytes_total - self.bytes_done
    }

    /// The length of the next read: the peer picks its own chunk sizes, so
    /// the receiver only bounds a read by its own buffer and by what is
    /// still owed.
    pub fn next_read_len(&self, buffer_len: u64) -> (n: u64)
        requires
            self.wf(),
        ensures
            n == if self.bytes_total - self.bytes_done <= buffer_len {
                (self.bytes_total - self.bytes_done) as u64
            } else {
                buffer_len
            },
            n <= buffer_len,
            n <= self.bytes_total - self.bytes_done,
    {
        let rem = self.bytes_total - self.bytes_done;
        if rem <= buffer_len {
            rem
        } else {
            buffer_len
        }
    }

    /// Records `n` freshly appended bytes.  Progress is append-only: the
    /// new count is exactly the old count plus `n`.
    pub fn record(&mut self, n: u64)
        requires
            old(self).wf(),
            n <= old(self).bytes_total - old(self).bytes_done,
        ensures
            final(self).wf(),
            final(self).bytes_total == old(self).bytes_total,
            final(self).bytes_done == old(self).bytes_done + n,
    {
        self.bytes_done = self.bytes_done + n;
    }

    /// The pair reported to a progress sink after every read.
    pub fn progress(&self) -> (p: (u64, u64))
        ensures
            p.0 == self.bytes_done,
            p.1 == self.bytes_total,
    {
        (self.bytes_done, self.bytes_total)
    }

    /// True when the full announced byte count has arrived.
    pub fn is_complete(&self) -> (b: bool)
        ensures
            b == (self.bytes_done == self.bytes_total),
    {
        self.bytes_done == self.bytes_total
    }
}

/// Checks for a size race before sending: the range promised to the peer
/// must still lie inside the source file.  Returns the error exactly when
/// the file has shrunk below `start_offset + length` bytes.
pub fn check_size_race(current_size: u64, start_offset: u64, length: u64) -> (r: Result<
    (),
    TransferError,
>)
    requires
        start_offset + length <= u64::MAX,
    ensures
        r is Ok <==> start_offset + length <= current_size,
        r is Err ==> r->Err_0 == TransferError::SizeRaceDetected,
{
    if current_size >= start_offset && current_size - start_offset >= length {
        Ok(())
    } else {
        Err(TransferError::SizeRaceDetected)
    }
}

} // verus!
