//! Acknowledgments, and what algorithms there are.

use mcquic::ack::AckTracker;
use mcquic::algorithms::{
    cipher_from_id, encryption_algorithm_supported, integrity_hash_len_from_id,
    validate_encryption_algorithm, Cipher, HashAlgorithm, IntegrityHashAlgorithm,
};
use mcquic::error::Error;
use mcquic::types::AckRange;

#[test]
fn ack_tracker_merges_ranges() {
    let mut tracker = AckTracker::default();
    tracker.record_packet(1);
    tracker.record_packet(2);
    tracker.record_packet(5);

    let ack = tracker.pending_ack(b"ch").expect("pending ack");
    assert_eq!(ack.largest_acknowledged, 5);
    assert_eq!(ack.first_ack_range, 0);
    assert_eq!(
        ack.ack_ranges,
        vec![AckRange {
            gap: 1,
            ack_range_length: 1
        }]
    );

    tracker.mark_sent();
    assert!(tracker.pending_ack(b"ch").is_none());
}

#[test]
fn the_order_of_packets_does_not_matter() {
    let mut a = AckTracker::default();
    let mut b = AckTracker::default();
    for n in [9, 3, 4, 7, 0, 3] {
        a.record_packet(n);
    }
    for n in [0, 3, 3, 4, 7, 9] {
        b.record_packet(n);
    }
    assert_eq!(a, b);
    let ack = a.pending_ack(b"ch").expect("pending ack");
    assert_eq!(ack.channel_id, b"ch");
    assert_eq!(ack.largest_acknowledged, 9);
    assert_eq!(ack.first_ack_range, 0);
    assert_eq!(ack.ack_delay, 0);
    assert_eq!(
        ack.ack_ranges,
        vec![
            AckRange { gap: 0, ack_range_length: 0 },
            AckRange { gap: 1, ack_range_length: 1 },
            AckRange { gap: 1, ack_range_length: 0 },
        ]
    );
    assert_eq!(ack.ecn_counts, None);
}

#[test]
fn a_packet_in_a_gap_joins_two_ranges() {
    let mut tracker = AckTracker::default();
    tracker.record_packet(u64::MAX);
    tracker.record_packet(u64::MAX - 2);
    tracker.record_packet(u64::MAX - 1);
    let ack = tracker.pending_ack(b"ch").expect("pending ack");
    assert_eq!(ack.largest_acknowledged, u64::MAX);
    assert_eq!(ack.first_ack_range, 2);
    assert!(ack.ack_ranges.is_empty());
}

#[test]
fn an_acknowledgment_is_cumulative() {
    let mut tracker = AckTracker::default();
    assert!(tracker.pending_ack(b"ch").is_none());
    tracker.record_packet(1);
    tracker.mark_sent();
    tracker.record_packet(1);
    assert!(tracker.clone().pending_ack(b"ch").is_some());
    tracker.record_packet(3);
    let ack = tracker.pending_ack(b"ch").expect("pending ack");
    assert_eq!(ack.largest_acknowledged, 3);
    assert_eq!(ack.ack_ranges.len(), 1);
}

#[test]
fn packet_hashes_have_lengths() {
    for (id, len) in [(1, 32), (2, 16), (3, 15), (4, 12), (5, 8), (6, 4), (7, 48), (8, 64)] {
        assert_eq!(integrity_hash_len_from_id(id).expect("length"), len);
    }
    assert_eq!(integrity_hash_len_from_id(0).unwrap_err(), Error::NotAvailable);
    assert_eq!(integrity_hash_len_from_id(9).unwrap_err(), Error::NotAvailable);
}

#[test]
fn packet_hashes_are_cut_off() {
    let short = IntegrityHashAlgorithm::from_id(6).expect("algorithm");
    assert_eq!(short.algorithm(), HashAlgorithm::Sha256);
    assert_eq!(short.hash(vec![1, 2, 3, 4, 5, 6]), vec![1, 2, 3, 4]);
    assert_eq!(short.hash(vec![1, 2]), vec![1, 2]);
    let long = IntegrityHashAlgorithm::from_id(8).expect("algorithm");
    assert_eq!(long.algorithm(), HashAlgorithm::Sha512);
    assert_eq!(long.hash(vec![7; 64]), vec![7; 64]);
}

#[test]
fn three_ciphers_are_supported() {
    for (id, cipher) in [
        (0x1301, Cipher::Aes128GcmSha256),
        (0x1302, Cipher::Aes256GcmSha384),
        (0x1303, Cipher::ChaCha20Poly1305Sha256),
    ] {
        assert!(encryption_algorithm_supported(id));
        assert_eq!(validate_encryption_algorithm(id), Ok(()));
        assert_eq!(cipher_from_id(id).expect("cipher"), cipher);
    }
    assert!(!encryption_algorithm_supported(0x1304));
    assert_eq!(validate_encryption_algorithm(0x1300), Err(Error::NotAvailable));
    assert_eq!(cipher_from_id(0).unwrap_err(), Error::NotAvailable);
}
