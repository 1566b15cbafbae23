//! Byte-level text helpers for the wire protocol: comparing frames, trimming
//! the NUL padding that fixed-size read buffers leave around a frame, and
//! decoding frame bytes into text.

use vstd::prelude::*;
use vstd::utf8::{decode_utf8, valid_utf8};

verus! {

/// `s` without its leading NUL bytes.
pub open spec fn trim_start_nul(s: Seq<u8>) -> Seq<u8>
    decreases s.len(),
{
    if s.len() > 0 && s[0] == 0 {
        trim_start_nul(s.drop_first())
    } else {
        s
    }
}

/// `s` without its trailing NUL bytes.
pub open spec fn trim_end_nul(s: Seq<u8>) -> Seq<u8>
    decreases s.len(),
{
    if s.len() > 0 && s.last() == 0 {
        trim_end_nul(s.drop_last())
    } else {
        s
    }
}

/// `s` without NUL padding on either end.
pub open spec fn trim_nul(s: Seq<u8>) -> Seq<u8> {
    trim_end_nul(trim_start_nul(s))
}

/// Compares two byte strings for equality.
pub fn bytes_eq(a: &[u8], b: &[u8]) -> (r: bool)
    ensures
        r == (a@ == b@),
{
    if a.len() != b.len() {
        return false;
    }
    let n = a.len();
    let mut i: usize = 0;
    while i < n
        invariant
            n == a@.len() == b@.len(),
            i <= n,
            forall|j: int| 0 <= j < i ==> a@[j] == b@[j],
        decreases n - i,
    {
        if a[i] != b[i] {
            return false;
        }
        i = i + 1;
    }
    proof {
        assert(a@ =~= b@);
    }
    true
}

/// Strips the NUL padding a fixed-size read buffer leaves around one frame.
pub fn trim_nul_bytes(buf: &[u8]) -> (r: Vec<u8>)
    ensures
        r@ == trim_nul(buf@),
{
    let n = buf.len();
    let mut start: usize = 0;
    proof {
        assert(buf@.skip(0) =~= buf@);
    }
    while start < n && buf[start] == 0
        invariant
            n == buf@.len(),
            start <= n,
            trim_start_nul(buf@) == trim_start_nul(buf@.skip(start as int)),
        decreases n - start,
    {
        proof {
            assert(buf@.skip(start as int).drop_first() =~= buf@.skip(start as int + 1));
        }
        start = start + 1;
    }
    proof {
        assert(trim_start_nul(buf@.skip(start as int)) == buf@.skip(start as int));
    }
    let mut end: usize = n;
    proof {
        let u = buf@.skip(start as int);
        assert(u.take(n - start) =~= u);
    }
    while end > start && buf[end - 1] == 0
        invariant
            n == buf@.len(),
            start <= end <= n,
            trim_start_nul(buf@) == buf@.skip(start as int),
            trim_end_nul(buf@.skip(start as int)) == trim_end_nul(
                buf@.skip(start as int).take(end - start),
            ),
        decreases end,
    {
        proof {
            let u = buf@.skip(start as int);
            assert(u.take(end - start).last() == buf@[end - 1]);
            assert(u.take(end - start).drop_last() =~= u.take(end - start - 1));
        }
        end = end - 1;
    }
    proof {
        let u = buf@.skip(start as int);
        if end - start == u.len() {
            assert(u.take(end - start) =~= u);
        }
        assert(trim_end_nul(u.take(end - start)) == u.take(end - start));
    }
    let mut r: Vec<u8> = Vec::new();
    let mut i: usize = start;
    while i < end
        invariant
            start <= i <= end <= n,
            n == buf@.len(),
            r@ =~= buf@.subrange(start as int, i as int),
        decreases end - i,
    {
        r.push(buf[i]);
        i = i + 1;
    }
    proof {
        assert(r@ =~= buf@.skip(start as int).take(end - start));
    }
    r
}

/// Tests whether `a` begins with `prefix`.
pub fn starts_with(a: &[u8], prefix: &[u8]) -> (r: bool)
    ensures
        r == (a@.len() >= prefix@.len() && a@.take(prefix@.len() as int) == prefix@),
{
    let plen = prefix.len();
    if a.len() < plen {
        return false;
    }
    let mut i: usize = 0;
    while i < plen
        invariant
            plen == prefix@.len() <= a@.len(),
            i <= plen,
            forall|j: int| 0 <= j < i ==> a@[j] == prefix@[j],
        decreases plen - i,
    {
        if a[i] != prefix[i] {
            assert(a@.take(plen as int)[i as int] != prefix@[i as int]);
            return false;
        }
        i = i + 1;
    }
    proof {
        assert(a@.take(plen as int) =~= prefix@);
    }
    true
}

/// Copies the byte range `from..to` of `s` into a fresh buffer.
pub fn copy_range(s: &[u8], from: usize, to: usize) -> (v: Vec<u8>)
    requires
        from <= to <= s@.len(),
    ensures
        v@ == s@.subrange(from as int, to as int),
{
    let mut v: Vec<u8> = Vec::new();
    let mut i: usize = from;
    while i < to
        invariant
            from <= i <= to <= s@.len(),
            v@ =~= s@.subrange(from as int, i as int),
        decreases to - i,
    {
        v.push(s[i]);
        i = i + 1;
    }
    v
}

/// Relies on `String::from_utf8`: it succeeds exactly on valid UTF-8 input
/// and returns the string those bytes encode.
#[verifier::external_body]
pub(crate) fn utf8_to_string(bytes: Vec<u8>) -> (r: Option<String>)
    ensures
        r is Some <==> valid_utf8(bytes@),
        r is Some ==> r->0@ == decode_utf8(bytes@),
{
    match String::from_utf8(bytes) {
        Ok(s) => Some(s),
        Err(_) => None,
    }
}

/// Decodes one frame from a fixed-size read buffer: strips the NUL padding
/// around it and decodes the rest as UTF-8 text.  Buffers whose payload is
/// not valid UTF-8 are left out by the precondition — they have no textual
/// reading, and this library's verified functions never panic; a caller
/// with untrusted bytes checks them first and fails its session instead.
pub fn bytes_to_string(buf: &[u8]) -> (r: String)
    requires
        valid_utf8(trim_nul(buf@)),
    ensures
        r@ == decode_utf8(trim_nul(buf@)),
{
    let trimmed = trim_nul_bytes(buf);
    match utf8_to_string(trimmed) {
        Option::Some(s) => s,
        Option::None => {
            proof {
                assert(false);
            }
            String::new()
        },
    }
}

} // verus!
