//! Connection session: the per-connection state machine that enforces the
//! handshake and dispatches command frames.
//!
//! A session moves `AwaitingHandshake -> Ready -> Closed`; `Closed` is
//! terminal.  The caller owns the socket, reads one frame at a time, and
//! performs the action each step returns; every failure closes this session
//! only, never its siblings or the listener.

use vstd::prelude::*;
use vstd::utf8::decode_utf8;
use crate::frame::{
    decode_command, dec_value, is_download_frame, list_tag, num_field, path_field, spec_decode_err,
    CommandFrame, FramingError,
};
use crate::registry::{path_views, render_list, spec_render_list};
use crate::text::bytes_eq;

verus! {

/// The lifecycle of one connection, from handshake to close.
#[derive(PartialEq, Eq, Structural, Clone, Copy, Debug)]
pub enum SessionState {
    /// Connection accepted; the first frame must be the version token.
    AwaitingHandshake,
    /// Handshake done; command frames are dispatched.
    Ready,
    /// Terminal: the socket is closed or a protocol violation occurred.
    Closed,
}

/// What the caller must do after one step of the session.
#[derive(Debug)]
pub enum ServerAction {
    /// Nothing to send; read the next frame.
    AwaitNext,
    /// Write this `list` response to the connection.
    SendListing { body: Vec<u8> },
    /// Stat `path`, negotiate against `have_bytes`, send the 8-byte offer
    /// prefix, then stream the offered range.
    StatThenOffer { path: String, have_bytes: u64 },
    /// Close the connection, reporting this per-session error.
    Close { error: FramingError },
}

/// The bytes of the protocol version token `v0.0.0`, the required first
/// frame of every session.
pub open spec fn version_token() -> Seq<u8> {
    seq![118u8, 48u8, 46u8, 48u8, 46u8, 48u8]
}

/// The version token, for sending and matching the handshake frame.
pub fn version_token_bytes() -> (v: Vec<u8>)
    ensures
        v@ == version_token(),
{
    let mut v: Vec<u8> = Vec::new();
    v.push(118);
    v.push(48);
    v.push(46);
    v.push(48);
    v.push(46);
    v.push(48);
    proof {
        assert(v@ =~= version_token());
    }
    v
}

/// One step of the session state machine: consumes one frame and returns
/// the successor state with the action the caller owes.
///
/// Awaiting the handshake, only the exact version token moves the session
/// to `Ready`; anything else closes it with `VersionMismatch`.  Once ready,
/// a `list` frame answers with the rendered listing of `shared_paths`
/// (re-read by the caller before this step, so it is fresh), a download
/// frame hands back the decoded path and claimed byte count for the caller
/// to stat and negotiate, and an undecodable frame closes the session with
/// that frame's error.
pub fn session_on_frame(state: SessionState, frame_bytes: &[u8], shared_paths: &Vec<String>) -> (r:
    (SessionState, ServerAction))
    requires
        !(state is Closed),
    ensures
        state is AwaitingHandshake && frame_bytes@ == version_token() ==> (r.0 is Ready
            && r.1 is AwaitNext),
        state is AwaitingHandshake && frame_bytes@ != version_token() ==> (r.0 is Closed
            && (r.1 matches ServerAction::Close { error } && error
            == FramingError::VersionMismatch)),
        state is Ready && frame_bytes@ == list_tag() ==> (r.0 is Ready && (
        r.1 matches ServerAction::SendListing { body } && body@ == spec_render_list(
            path_views(shared_paths@),
        ))),
        state is Ready && is_download_frame(frame_bytes@) ==> (r.0 is Ready && (
        r.1 matches ServerAction::StatThenOffer { path, have_bytes } && path@ == decode_utf8(
            path_field(frame_bytes@),
        ) && have_bytes == dec_value(num_field(frame_bytes@)))),
        state is Ready && frame_bytes@ != list_tag() && !is_download_frame(frame_bytes@) ==> (
        r.0 is Closed && (r.1 matches ServerAction::Close { error } && error == spec_decode_err(
            frame_bytes@,
        ))),
{
    match state {
        SessionState::AwaitingHandshake => {
            let token = version_token_bytes();
            if bytes_eq(frame_bytes, token.as_slice()) {
                (SessionState::Ready, ServerAction::AwaitNext)
            } else {
                (SessionState::Closed, ServerAction::Close {
                    error: FramingError::VersionMismatch,
                })
            }
        },
        SessionState::Ready => {
            match decode_command(frame_bytes) {
                Ok(CommandFrame::List) => (
                    SessionState::Ready,
                    ServerAction::SendListing { body: render_list(shared_paths) },
                ),
                Ok(CommandFrame::DownloadRequest { path, have_bytes }) => (
                    SessionState::Ready,
                    ServerAction::StatThenOffer { path, have_bytes },
                ),
                Err(error) => (SessionState::Closed, ServerAction::Close { error }),
            }
        },
        SessionState::Closed => {
            proof {
                assert(false);
            }
            (SessionState::Closed, ServerAction::AwaitNext)
        },
    }
}

} // verus!
