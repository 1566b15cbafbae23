use file_hoster::chunk::{check_size_race, ChunkReceiver, ChunkSender, TransferError};
use file_hoster::negotiate::{negotiate, TransferOffer};
use file_hoster::resume::{resume_step, ResumeAction};
use file_hoster::wire::{u64_from_be_bytes, u64_to_be_bytes};

#[test]
fn negotiate_covered_claims_yield_zero() {
    // have_bytes >= actual_size always offers nothing more.
    assert_eq!(negotiate(Some(100), 100), TransferOffer { remaining_bytes: 0 });
    assert_eq!(negotiate(Some(100), 150), TransferOffer { remaining_bytes: 0 });
    assert_eq!(negotiate(Some(1), u64::MAX), TransferOffer { remaining_bytes: 0 });
}

#[test]
fn negotiate_missing_file_yields_zero() {
    assert_eq!(negotiate(None, 0), TransferOffer { remaining_bytes: 0 });
    assert_eq!(negotiate(None, 5), TransferOffer { remaining_bytes: 0 });
}

#[test]
fn negotiate_partial_claim_offers_the_rest() {
    assert_eq!(negotiate(Some(100), 40), TransferOffer { remaining_bytes: 60 });
    assert_eq!(negotiate(Some(100), 0), TransferOffer { remaining_bytes: 100 });
    assert_eq!(negotiate(Some(100), 99), TransferOffer { remaining_bytes: 1 });
}

#[test]
fn negotiate_empty_source_yields_zero_immediately() {
    // have_bytes = 0 on an empty source: nothing to send, no chunks.
    let offer = negotiate(Some(0), 0);
    assert_eq!(offer, TransferOffer { remaining_bytes: 0 });
    assert_eq!(resume_step(offer), ResumeAction::Finished);
}

#[test]
fn negotiate_is_idempotent() {
    let first = negotiate(Some(12345), 678);
    let second = negotiate(Some(12345), 678);
    assert_eq!(first, second);
}

#[test]
fn complete_local_file_stops_the_resume_loop() {
    // The local file already holds all 100 bytes of a 100-byte source: the
    // offer is zero and the loop stops without any further network read.
    let offer = negotiate(Some(100), 100);
    assert_eq!(offer.remaining_bytes, 0);
    assert_eq!(resume_step(offer), ResumeAction::Finished);
}

#[test]
fn chunk_plan_for_150000_bytes_is_three_writes() {
    // 150 000 bytes at a 50 000-byte maximum: exactly 3 writes of 50 000,
    // matching the 8-byte length prefix of 150 000.
    let offer = negotiate(Some(150_000), 0);
    assert_eq!(offer.remaining_bytes, 150_000);
    let prefix = u64_to_be_bytes(offer.remaining_bytes);
    assert_eq!(prefix.len(), 8);
    assert_eq!(u64_from_be_bytes(&prefix), 150_000);

    let mut sender = ChunkSender::new(0, offer.remaining_bytes, 50_000);
    let mut writes: Vec<u64> = Vec::new();
    while !sender.done() {
        writes.push(sender.take_chunk());
    }
    assert_eq!(writes, vec![50_000, 50_000, 50_000]);
    assert_eq!(writes.iter().sum::<u64>(), 150_000);
}

#[test]
fn chunk_plan_final_chunk_is_the_remainder() {
    let mut sender = ChunkSender::new(10, 120_001, 50_000);
    let mut writes: Vec<u64> = Vec::new();
    while !sender.done() {
        writes.push(sender.take_chunk());
    }
    assert_eq!(writes, vec![50_000, 50_000, 20_001]);
    assert_eq!(sender.offset, 120_011);
}

#[test]
fn be_bytes_encode_known_value() {
    let v = u64_to_be_bytes(0x0102030405060708);
    assert_eq!(v, vec![1, 2, 3, 4, 5, 6, 7, 8]);
    assert_eq!(u64_from_be_bytes(&v), 0x0102030405060708);
    let zero = u64_to_be_bytes(0);
    assert_eq!(zero, vec![0; 8]);
    let max = u64_to_be_bytes(u64::MAX);
    assert_eq!(max, vec![0xff; 8]);
    assert_eq!(u64_from_be_bytes(&max), u64::MAX);
}

fn source_of(len: usize) -> Vec<u8> {
    (0..len).map(|i| (i % 251) as u8).collect()
}

#[test]
fn download_round_trip_single_attempt() {
    // One full transfer (K = 1), received in bounded chunks.
    let source = source_of(1000);
    let mut dest: Vec<u8> = Vec::new();
    loop {
        let offer = negotiate(Some(source.len() as u64), dest.len() as u64);
        match resume_step(offer) {
            ResumeAction::Finished => break,
            ResumeAction::Receive { length } => {
                let mut receiver = ChunkReceiver::new(length);
                while !receiver.is_complete() {
                    let n = receiver.next_read_len(64) as usize;
                    let start = dest.len();
                    dest.extend_from_slice(&source[start..start + n]);
                    receiver.record(n as u64);
                    let (done, total) = receiver.progress();
                    assert!(done <= total);
                }
            }
        }
    }
    assert_eq!(dest, source);
}

#[test]
fn download_round_trip_one_byte_per_attempt() {
    // K = S: every attempt is interrupted after a single byte, and the
    // next one resumes from the destination's real size.
    let source = source_of(100);
    let mut dest: Vec<u8> = Vec::new();
    let mut attempts = 0;
    loop {
        let offer = negotiate(Some(source.len() as u64), dest.len() as u64);
        match resume_step(offer) {
            ResumeAction::Finished => break,
            ResumeAction::Receive { length } => {
                assert!(length >= 1);
                attempts += 1;
                dest.push(source[dest.len()]);
            }
        }
    }
    assert_eq!(attempts, 100);
    assert_eq!(dest, source);
}

#[test]
fn download_round_trip_uneven_attempts() {
    // Attempts of uneven, arbitrary progress still converge byte-exactly.
    let source = source_of(777);
    let mut dest: Vec<u8> = Vec::new();
    let cuts = [5usize, 1, 300, 2, 7, 123, 456, 9999];
    let mut c = 0;
    loop {
        let offer = negotiate(Some(source.len() as u64), dest.len() as u64);
        match resume_step(offer) {
            ResumeAction::Finished => break,
            ResumeAction::Receive { length } => {
                let take = (length as usize).min(cuts[c % cuts.len()]);
                c += 1;
                let start = dest.len();
                dest.extend_from_slice(&source[start..start + take]);
            }
        }
    }
    assert_eq!(dest, source);
}

#[test]
fn size_race_is_detected() {
    assert_eq!(check_size_race(100, 40, 60), Ok(()));
    assert_eq!(
        check_size_race(99, 40, 60),
        Err(TransferError::SizeRaceDetected)
    );
    assert_eq!(
        check_size_race(0, 0, 1),
        Err(TransferError::SizeRaceDetected)
    );
    assert_eq!(check_size_race(0, 0, 0), Ok(()));
}
