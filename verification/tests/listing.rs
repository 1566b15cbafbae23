use file_hoster::frame::FramingError;
use file_hoster::negotiate::{negotiate, TransferOffer};
use file_hoster::registry::{
    get_port_path, get_shared_files_path, nth_line, paths_of, render_list, share_file, stat_of,
    unshare_file, SharedFileEntry,
};
use file_hoster::resume::{resume_step, ResumeAction};
use file_hoster::session::{session_on_frame, version_token_bytes, ServerAction, SessionState};

fn registry_fixture() -> Vec<SharedFileEntry> {
    vec![
        SharedFileEntry { path: String::from("/a.txt"), size: 10 },
        SharedFileEntry { path: String::from("/b.bin"), size: 0 },
    ]
}

#[test]
fn listing_is_newline_joined_and_unterminated() {
    // Registry ["/a.txt" (10), "/b.bin" (0)]: the list response is exactly
    // "/a.txt\n/b.bin"; index 1 with have_bytes 0 offers 0 bytes.
    let entries = registry_fixture();
    let listing = render_list(&paths_of(&entries));
    assert_eq!(listing, b"/a.txt\n/b.bin".to_vec());

    let picked = nth_line(&listing, 1).unwrap();
    assert_eq!(picked, b"/b.bin".to_vec());
    let requested = String::from_utf8(picked).unwrap();

    let offer = negotiate(stat_of(&entries, &requested), 0);
    assert_eq!(offer, TransferOffer { remaining_bytes: 0 });
    assert_eq!(resume_step(offer), ResumeAction::Finished);
}

#[test]
fn listing_of_one_and_none() {
    assert_eq!(render_list(&vec![]), Vec::<u8>::new());
    assert_eq!(render_list(&vec![String::from("/only")]), b"/only".to_vec());
}

#[test]
fn nth_line_out_of_range() {
    let listing = b"/a.txt\n/b.bin";
    assert_eq!(nth_line(listing, 0).unwrap(), b"/a.txt".to_vec());
    assert!(nth_line(listing, 2).is_none());
}

#[test]
fn empty_listing_is_one_empty_line() {
    // Splitting an empty response yields a single empty line, as a text
    // split does; the identifier space is still well-defined.
    assert_eq!(nth_line(b"", 0).unwrap(), Vec::<u8>::new());
    assert!(nth_line(b"", 1).is_none());
}

#[test]
fn server_flow_dispatch_negotiate_chunk() {
    // The whole server side of one download request: dispatch the frame,
    // stat the registry, negotiate, then walk the chunk plan.
    let entries = registry_fixture();
    let shared = paths_of(&entries);
    let (state, action) = session_on_frame(SessionState::Ready, b"download\n/a.txt\n4", &shared);
    assert_eq!(state, SessionState::Ready);
    let (path, have_bytes) = match action {
        ServerAction::StatThenOffer { path, have_bytes } => (path, have_bytes),
        other => panic!("expected StatThenOffer, got {:?}", other),
    };
    let offer = negotiate(stat_of(&entries, &path), have_bytes);
    assert_eq!(offer.remaining_bytes, 6);
    let mut sender = file_hoster::chunk::ChunkSender::new(have_bytes, offer.remaining_bytes, 4);
    let mut writes: Vec<u64> = Vec::new();
    while !sender.done() {
        writes.push(sender.take_chunk());
    }
    assert_eq!(writes, vec![4, 2]);
}

#[test]
fn stat_of_finds_first_match() {
    let entries = registry_fixture();
    assert_eq!(stat_of(&entries, &String::from("/a.txt")), Some(10));
    assert_eq!(stat_of(&entries, &String::from("/b.bin")), Some(0));
    assert_eq!(stat_of(&entries, &String::from("/gone")), None);
}

#[test]
fn share_appends_and_unshare_removes() {
    let mut files = vec![String::from("/a"), String::from("/b")];
    assert!(share_file(&mut files, "/c"));
    assert_eq!(files, vec!["/a", "/b", "/c"]);
    let removed = unshare_file(&mut files, 1);
    assert_eq!(removed, "/b");
    assert_eq!(files, vec!["/a", "/c"]);
}

#[test]
fn config_file_names() {
    assert_eq!(get_shared_files_path("/home/u/.config/file-hoster"), "/home/u/.config/file-hoster/shared.txt");
    assert_eq!(get_port_path("/home/u/.config/file-hoster"), "/home/u/.config/file-hoster/port.txt");
}

#[test]
fn handshake_accepts_the_version_token() {
    let token = version_token_bytes();
    assert_eq!(token, b"v0.0.0".to_vec());
    let shared: Vec<String> = Vec::new();
    let (state, action) = session_on_frame(SessionState::AwaitingHandshake, &token, &shared);
    assert_eq!(state, SessionState::Ready);
    assert!(matches!(action, ServerAction::AwaitNext));
}

#[test]
fn handshake_rejects_other_frames() {
    let shared: Vec<String> = Vec::new();
    let (state, action) = session_on_frame(SessionState::AwaitingHandshake, b"v9.9.9", &shared);
    assert_eq!(state, SessionState::Closed);
    match action {
        ServerAction::Close { error } => assert_eq!(error, FramingError::VersionMismatch),
        other => panic!("expected Close, got {:?}", other),
    }
}

#[test]
fn ready_session_answers_list() {
    let entries = registry_fixture();
    let shared = paths_of(&entries);
    let (state, action) = session_on_frame(SessionState::Ready, b"list", &shared);
    assert_eq!(state, SessionState::Ready);
    match action {
        ServerAction::SendListing { body } => assert_eq!(body, b"/a.txt\n/b.bin".to_vec()),
        other => panic!("expected SendListing, got {:?}", other),
    }
}

#[test]
fn ready_session_hands_back_download_fields() {
    let shared: Vec<String> = Vec::new();
    let (state, action) = session_on_frame(SessionState::Ready, b"download\n/a.txt\n7", &shared);
    assert_eq!(state, SessionState::Ready);
    match action {
        ServerAction::StatThenOffer { path, have_bytes } => {
            assert_eq!(path, "/a.txt");
            assert_eq!(have_bytes, 7);
        }
        other => panic!("expected StatThenOffer, got {:?}", other),
    }
}

#[test]
fn ready_session_closes_on_garbage() {
    let shared: Vec<String> = Vec::new();
    let (state, action) = session_on_frame(SessionState::Ready, b"nonsense", &shared);
    assert_eq!(state, SessionState::Closed);
    match action {
        ServerAction::Close { error } => assert_eq!(error, FramingError::UnknownCommand),
        other => panic!("expected Close, got {:?}", other),
    }
}
