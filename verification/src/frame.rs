//! Framing codec: the discriminated command frames of the wire protocol and
//! their byte encoding.
//!
//! A frame is UTF-8 text.  A `list` request is the bare word `list`.  A
//! download request is three newline-separated fields: the literal
//! `download`, the target path, and the decimal count of bytes the client
//! already holds.  Encoding and decoding are pure transforms on byte
//! strings, with decoding failures classified per frame and never allowed to
//! corrupt the parsing of the next one.

use vstd::prelude::*;
use vstd::utf8::{decode_utf8, valid_utf8};
use crate::text::{bytes_eq, copy_range, starts_with, utf8_to_string};

verus! {

/// A decoded request frame.
#[derive(Debug)]
pub enum CommandFrame {
    /// Ask for the newline-separated listing of shared paths.
    List,
    /// Ask for the bytes of `path` beyond the first `have_bytes`.
    DownloadRequest { path: String, have_bytes: u64 },
}

/// Per-frame decoding failures.  Each is local to one frame and its
/// session; none is fatal to the process.
#[derive(PartialEq, Eq, Structural, Clone, Copy, Debug)]
pub enum FramingError {
    /// A field that should be a decimal byte count, or a path, is garbled.
    Malformed,
    /// Fewer bytes than a download frame declares; the caller must keep
    /// reading.
    Incomplete,
    /// The first word is neither `list` nor `download`.
    UnknownCommand,
    /// The first frame of a session was not the protocol version token.
    VersionMismatch,
}

/// The bytes of the word `list`.
pub open spec fn list_tag() -> Seq<u8> {
    seq![108u8, 105u8, 115u8, 116u8]
}

/// The bytes of the word `download`.
pub open spec fn download_tag() -> Seq<u8> {
    seq![100u8, 111u8, 119u8, 110u8, 108u8, 111u8, 97u8, 100u8]
}

/// The opening of every download frame: the tag and its field separator.
pub open spec fn download_prefix() -> Seq<u8> {
    download_tag().push(10u8)
}

/// The bytes of the word `list`, for building and matching frames.
pub fn list_tag_bytes() -> (v: Vec<u8>)
    ensures
        v@ == list_tag(),
{
    let mut v: Vec<u8> = Vec::new();
    v.push(108);
    v.push(105);
    v.push(115);
    v.push(116);
    proof {
        assert(v@ =~= list_tag());
    }
    v
}

/// The bytes of the word `download`.
pub fn download_tag_bytes() -> (v: Vec<u8>)
    ensures
        v@ == download_tag(),
{
    let mut v: Vec<u8> = Vec::new();
    v.push(100);
    v.push(111);
    v.push(119);
    v.push(110);
    v.push(108);
    v.push(111);
    v.push(97);
    v.push(100);
    proof {
        assert(v@ =~= download_tag());
    }
    v
}

/// The index of the first newline in `s`, or `s.len()` when there is none.
pub open spec fn first_nl(s: Seq<u8>) -> int
    decreases s.len(),
{
    if s.len() == 0 {
        0
    } else if s[0] == 10 {
        0
    } else {
        1 + first_nl(s.drop_first())
    }
}

/// Pins `first_nl` to a concrete search result: a newline-free prefix of
/// length `i` followed by a newline (or the end of `s`).
pub proof fn lemma_first_nl_is(s: Seq<u8>, i: int)
    requires
        0 <= i <= s.len(),
        forall|j: int| 0 <= j < i ==> s[j] != 10,
        i < s.len() ==> s[i] == 10,
    ensures
        first_nl(s) == i,
    decreases s.len(),
{
    if i == 0 {
    } else {
        assert(s[0] != 10);
        assert forall|j: int| 0 <= j < i - 1 implies s.drop_first()[j] != 10 by {
            assert(s[j + 1] != 10);
        }
        lemma_first_nl_is(s.drop_first(), i - 1);
    }
}

/// Whether `s` holds a newline anywhere.
pub open spec fn has_nl(s: Seq<u8>) -> bool {
    first_nl(s) < s.len()
}

/// Whether `b` is an ASCII decimal digit.
pub open spec fn is_digit(b: u8) -> bool {
    48 <= b <= 57
}

/// Whether every byte of `s` is an ASCII decimal digit.
pub open spec fn all_digits(s: Seq<u8>) -> bool {
    forall|i: int| 0 <= i < s.len() ==> is_digit(#[trigger] s[i])
}

/// The value of a big-endian decimal digit string.
pub open spec fn dec_value(s: Seq<u8>) -> nat
    recommends
        all_digits(s),
    decreases s.len(),
{
    if s.len() == 0 {
        0
    } else {
        dec_value(s.drop_last()) * 10 + (s.last() - 48) as nat
    }
}

/// The shortest decimal digit string whose value is `n`.
pub open spec fn dec_digits(n: nat) -> Seq<u8>
    decreases n,
{
    if n < 10 {
        seq![(48 + n) as u8]
    } else {
        dec_digits(n / 10).push((48 + n % 10) as u8)
    }
}

/// Reading one more digit multiplies the prefix value by ten and adds it.
pub proof fn lemma_dec_value_snoc(s: Seq<u8>, i: int)
    requires
        0 <= i < s.len(),
    ensures
        dec_value(s.take(i + 1)) == dec_value(s.take(i)) * 10 + (s[i] - 48) as nat,
{
    assert(s.take(i + 1).drop_last() =~= s.take(i));
    assert(s.take(i + 1).last() == s[i]);
}

/// The value of a digit string dominates the value of each of its prefixes.
pub proof fn lemma_dec_value_mono(s: Seq<u8>, i: int)
    requires
        0 <= i <= s.len(),
        all_digits(s),
    ensures
        dec_value(s.take(i)) <= dec_value(s),
    decreases s.len() - i,
{
    if i == s.len() {
        assert(s.take(i) =~= s);
    } else {
        lemma_dec_value_snoc(s, i);
        lemma_dec_value_mono(s, i + 1);
    }
}

/// Parses a decimal byte count.  Succeeds exactly on non-empty all-digit
/// strings whose value fits in 64 bits, and then returns that value.
pub fn parse_u64_decimal(s: &[u8]) -> (r: Option<u64>)
    ensures
        r is Some <==> (s@.len() > 0 && all_digits(s@) && dec_value(s@) <= u64::MAX),
        r matches Some(v) ==> v == dec_value(s@),
{
    let n = s.len();
    if n == 0 {
        return None;
    }
    let mut acc: u64 = 0;
    let mut i: usize = 0;
    while i < n
        invariant
            n == s@.len(),
            i <= n,
            all_digits(s@.take(i as int)),
            acc == dec_value(s@.take(i as int)),
        decreases n - i,
    {
        let b = s[i];
        if b < 48 || b > 57 {
            assert(!is_digit(s@[i as int]));
            return None;
        }
        let d: u64 = (b - 48) as u64;
        proof {
            lemma_dec_value_snoc(s@, i as int);
        }
        let m = match acc.checked_mul(10) {
            Some(m) => m,
            None => {
                proof {
                    if all_digits(s@) {
                        lemma_dec_value_mono(s@, i as int + 1);
                    }
                }
                return None;
            },
        };
        acc = match m.checked_add(d) {
            Some(a) => a,
            None => {
                proof {
                    if all_digits(s@) {
                        lemma_dec_value_mono(s@, i as int + 1);
                    }
                }
                return None;
            },
        };
        i = i + 1;
        proof {
            assert forall|j: int| 0 <= j < i implies is_digit(#[trigger] s@.take(i as int)[j]) by {
                if j < i - 1 {
                    assert(is_digit(s@.take(i as int - 1)[j]));
                }
            }
        }
    }
    proof {
        assert(s@.take(n as int) =~= s@);
    }
    Some(acc)
}

/// Appends the decimal digits of `x` to `v`.
pub fn push_decimal(v: &mut Vec<u8>, x: u64)
    ensures
        final(v)@ == old(v)@ + dec_digits(x as nat),
    decreases x,
{
    if x < 10 {
        v.push(48 + x as u8);
        proof {
            assert(final(v)@ =~= old(v)@ + dec_digits(x as nat));
        }
    } else {
        push_decimal(v, x / 10);
        v.push(48 + (x % 10) as u8);
        proof {
            assert(final(v)@ =~= old(v)@ + dec_digits(x as nat));
        }
    }
}

/// The digit string of `n` really denotes `n`: it is non-empty, all
/// digits, and reads back as the same value.
pub proof fn lemma_dec_digits_value(n: nat)
    ensures
        dec_digits(n).len() >= 1,
        all_digits(dec_digits(n)),
        dec_value(dec_digits(n)) == n,
    decreases n,
{
    if n < 10 {
        let s = dec_digits(n);
        assert(s == seq![(48 + n) as u8]);
        assert(is_digit(s[0]));
        assert(s.drop_last() =~= Seq::<u8>::empty());
        assert(dec_value(Seq::<u8>::empty()) == 0);
        assert(dec_value(s) == dec_value(s.drop_last()) * 10 + (s.last() - 48) as nat);
    } else {
        lemma_dec_digits_value(n / 10);
        let p = dec_digits(n / 10);
        let s = dec_digits(n);
        assert(s == p.push((48 + n % 10) as u8));
        assert(s.drop_last() =~= p);
        assert(s.last() == (48 + n % 10) as u8);
        assert(dec_value(s) == dec_value(p) * 10 + (s.last() - 48) as nat);
        assert((n / 10) * 10 + n % 10 == n);
        assert forall|i: int| 0 <= i < s.len() implies is_digit(#[trigger] s[i]) by {
            if i < p.len() {
                assert(is_digit(p[i]));
            }
        }
    }
}

/// The byte encoding of a command frame.
pub open spec fn spec_encode_command(cmd: CommandFrame) -> Seq<u8> {
    match cmd {
        CommandFrame::List => list_tag(),
        CommandFrame::DownloadRequest { path, have_bytes } => download_prefix()
            + vstd::utf8::encode_utf8(path@) + seq![10u8] + dec_digits(have_bytes as nat),
    }
}

/// Encodes a command frame for the wire.  Pure transform: the result is
/// exactly the frame's byte encoding.
pub fn encode_command(cmd: &CommandFrame) -> (v: Vec<u8>)
    ensures
        v@ == spec_encode_command(*cmd),
{
    match cmd {
        CommandFrame::List => list_tag_bytes(),
        CommandFrame::DownloadRequest { path, have_bytes } => {
            let mut v = download_tag_bytes();
            v.push(10);
            v.extend_from_slice(path.as_str().as_bytes());
            v.push(10);
            push_decimal(&mut v, *have_bytes);
            proof {
                assert(v@ =~= spec_encode_command(*cmd));
            }
            v
        },
    }
}

/// Whether `b` opens like a download frame: the tag and its separator.
pub open spec fn download_prefixed(b: Seq<u8>) -> bool {
    b.len() >= 9 && b.take(9) == download_prefix()
}

/// The fields of a download frame after the tag.
pub open spec fn rest_of(b: Seq<u8>) -> Seq<u8> {
    b.skip(9)
}

/// The path field of a download frame: up to the second separator.
pub open spec fn path_field(b: Seq<u8>) -> Seq<u8> {
    rest_of(b).take(first_nl(rest_of(b)))
}

/// The byte-count field of a download frame: after the second separator.
pub open spec fn num_field(b: Seq<u8>) -> Seq<u8> {
    rest_of(b).skip(first_nl(rest_of(b)) + 1)
}

/// Whether a byte-count field is a decimal number that fits in 64 bits.
pub open spec fn num_ok(s: Seq<u8>) -> bool {
    s.len() > 0 && all_digits(s) && dec_value(s) <= u64::MAX
}

/// Whether `b` is a complete, well-formed download frame.
pub open spec fn is_download_frame(b: Seq<u8>) -> bool {
    download_prefixed(b) && has_nl(rest_of(b)) && valid_utf8(path_field(b)) && num_ok(
        num_field(b),
    )
}

/// Whether `b` is a download frame cut short: the tag alone, or fields
/// missing after it.  The caller must keep reading.
pub open spec fn is_incomplete_frame(b: Seq<u8>) -> bool {
    b == download_tag() || (download_prefixed(b) && !has_nl(rest_of(b)))
}

/// Whether `b` is a download frame with all fields present but one of them
/// garbled: an undecodable path or a byte count that is not a decimal
/// number in range.
pub open spec fn is_malformed_frame(b: Seq<u8>) -> bool {
    download_prefixed(b) && has_nl(rest_of(b)) && (!valid_utf8(path_field(b)) || !num_ok(
        num_field(b),
    ))
}

/// The error decoding `b` reports when `b` is not a well-formed frame.
pub open spec fn spec_decode_err(b: Seq<u8>) -> FramingError {
    if is_incomplete_frame(b) {
        FramingError::Incomplete
    } else if is_malformed_frame(b) {
        FramingError::Malformed
    } else {
        FramingError::UnknownCommand
    }
}

/// Decodes one frame.  Succeeds exactly on the `list` word and on
/// well-formed download frames, returning the decoded path and byte count;
/// everything else is classified as incomplete, malformed or unknown, per
/// frame, so one bad frame cannot corrupt the next.
pub fn decode_command(bytes: &[u8]) -> (r: Result<CommandFrame, FramingError>)
    ensures
        r is Ok <==> (bytes@ == list_tag() || is_download_frame(bytes@)),
        bytes@ == list_tag() ==> (r matches Ok(c) && c is List),
        is_download_frame(bytes@) ==> (r matches Ok(CommandFrame::DownloadRequest {
            path,
            have_bytes,
        }) && path@ == decode_utf8(path_field(bytes@)) && have_bytes == dec_value(
            num_field(bytes@),
        )),
        r matches Err(e) ==> e == spec_decode_err(bytes@),
{
    let ltag = list_tag_bytes();
    if bytes_eq(bytes, ltag.as_slice()) {
        return Ok(CommandFrame::List);
    }
    let dtag = download_tag_bytes();
    if bytes_eq(bytes, dtag.as_slice()) {
        return Err(FramingError::Incomplete);
    }
    let mut dprefix = download_tag_bytes();
    dprefix.push(10);
    proof {
        assert(dprefix@ =~= download_prefix());
    }
    if !starts_with(bytes, dprefix.as_slice()) {
        return Err(FramingError::UnknownCommand);
    }
    let n = bytes.len();
    let mut k: usize = 9;
    while k < n && bytes[k] != 10
        invariant
            9 <= k <= n,
            n == bytes@.len(),
            forall|j: int| 9 <= j < k ==> bytes@[j] != 10,
        decreases n - k,
    {
        k = k + 1;
    }
    proof {
        assert forall|j: int| 0 <= j < k - 9 implies rest_of(bytes@)[j] != 10 by {
            assert(bytes@[j + 9] != 10);
        }
        if k < n {
            assert(rest_of(bytes@)[k - 9] == bytes@[k as int]);
        }
        lemma_first_nl_is(rest_of(bytes@), k - 9);
    }
    if k == n {
        return Err(FramingError::Incomplete);
    }
    let path_vec = copy_range(bytes, 9, k);
    let digits = copy_range(bytes, k + 1, n);
    proof {
        assert(path_vec@ =~= path_field(bytes@));
        assert(digits@ =~= num_field(bytes@));
    }
    let path = match utf8_to_string(path_vec) {
        Option::Some(p) => p,
        Option::None => {
            return Err(FramingError::Malformed);
        },
    };
    match parse_u64_decimal(digits.as_slice()) {
        Option::Some(have_bytes) => Ok(CommandFrame::DownloadRequest { path, have_bytes }),
        Option::None => Err(FramingError::Malformed),
    }
}

/// The codec round-trips: the encoding of any command frame decodes back to
/// the same command.  For a download request the path may not itself hold a
/// newline — the frame's own field separator — which the precondition
/// states over its encoded bytes.  Together with `decode_command`'s
/// contract this pins `decode_command(encode_command(cmd))` to `Ok` with
/// the original fields.
pub proof fn lemma_encode_decode_round_trip(cmd: CommandFrame)
    requires
        cmd matches CommandFrame::DownloadRequest { path, have_bytes } ==> forall|i: int|
            0 <= i < vstd::utf8::encode_utf8(path@).len() ==> vstd::utf8::encode_utf8(path@)[i]
                != 10,
    ensures
        cmd is List ==> spec_encode_command(cmd) == list_tag(),
        cmd matches CommandFrame::DownloadRequest { path, have_bytes } ==> ({
            let b = spec_encode_command(cmd);
            is_download_frame(b) && decode_utf8(path_field(b)) == path@ && dec_value(num_field(b))
                == have_bytes as nat
        }),
{
    match cmd {
        CommandFrame::List => {},
        CommandFrame::DownloadRequest { path, have_bytes } => {
            let p = vstd::utf8::encode_utf8(path@);
            let d = dec_digits(have_bytes as nat);
            let b = spec_encode_command(cmd);
            lemma_dec_digits_value(have_bytes as nat);
            assert(b == download_prefix() + p + seq![10u8] + d);
            assert(b.take(9) =~= download_prefix());
            let rest = rest_of(b);
            assert(rest =~= p + seq![10u8] + d);
            assert forall|j: int| 0 <= j < p.len() implies rest[j] != 10 by {
                assert(rest[j] == p[j]);
            }
            assert(rest[p.len() as int] == 10);
            lemma_first_nl_is(rest, p.len() as int);
            assert(path_field(b) =~= p);
            assert(num_field(b) =~= d);
            vstd::utf8::encode_utf8_valid_utf8(path@);
            vstd::utf8::encode_utf8_decode_utf8(path@);
        },
    }
}

} // verus!
