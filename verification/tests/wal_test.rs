use alayasiki::bytes::{push_be32, push_be64, push_le64, read_be32, read_be64, read_le64};
use alayasiki::crypto::{AtRestCipher, InMemoryKmsKeyProvider, KmsHookCipher, NoOpCipher};
use alayasiki::snapshot::{
    parse_snapshot_lsn, snapshot_file_name, snapshot_temp_name, SnapshotError, SnapshotManager,
};
use alayasiki::wal::{Wal, WalError, HEADER_LEN};

fn append_all<C: AtRestCipher>(wal: &mut Wal<C>, payloads: &[&[u8]]) -> Vec<u8> {
    let mut log = Vec::new();
    for p in payloads {
        let (_, bytes) = wal.append(p).unwrap();
        log.extend_from_slice(&bytes);
    }
    log
}

#[test]
fn test_wal_append_and_recover() {
    let mut wal = Wal::new(NoOpCipher);
    let mut log = Vec::new();

    let entry1 = b"Hello WAL";
    let (lsn1, bytes1) = wal.append(entry1).expect("append failed");
    log.extend_from_slice(&bytes1);

    let entry2 = b"Second Entry";
    let (lsn2, bytes2) = wal.append(entry2).expect("append failed");
    log.extend_from_slice(&bytes2);

    assert!(lsn1 > 0);
    assert!(lsn2 > lsn1);
    assert_eq!(log.len(), (16 * 2) + entry1.len() + entry2.len());
}

#[test]
fn test_wal_replay() {
    let log = {
        let mut wal = Wal::new(NoOpCipher);
        append_all(&mut wal, &[b"Entry 1", b"Entry 2"])
    };

    let mut wal = Wal::new(NoOpCipher);
    let replay = wal.replay(&log).unwrap();

    assert_eq!(replay.last_lsn, 2);
    assert_eq!(replay.records.len(), 2);
    assert_eq!(replay.records[0].payload, b"Entry 1");
    assert_eq!(replay.records[1].payload, b"Entry 2");
    assert_eq!(replay.records[0].lsn, 1);
    assert_eq!(replay.records[1].lsn, 2);
    assert_eq!(wal.current_lsn(), 2);
    assert_eq!(replay.valid_len, log.len());
}

#[test]
fn wal_round_trips_payload_with_kms_hook_cipher() {
    let key = vec![0x42, 0x99, 0x11, 0xA7];
    let cipher = KmsHookCipher::new(
        "kms-key-acme",
        InMemoryKmsKeyProvider::from_keys(vec![("kms-key-acme".to_string(), key.clone())]),
    );
    let log = {
        let mut wal = Wal::new(cipher);
        append_all(&mut wal, &[b"sensitive-record"])
    };

    assert!(
        !log.windows(b"sensitive-record".len())
            .any(|w| w == b"sensitive-record"),
        "plaintext must not appear in the log"
    );

    let cipher = KmsHookCipher::new(
        "kms-key-acme",
        InMemoryKmsKeyProvider::from_keys(vec![("kms-key-acme".to_string(), key)]),
    );
    let mut wal = Wal::new(cipher);
    let replay = wal.replay(&log).unwrap();
    let recovered: Vec<Vec<u8>> = replay.records.into_iter().map(|r| r.payload).collect();
    assert_eq!(recovered, vec![b"sensitive-record".to_vec()]);
}

#[test]
fn record_layout_is_lsn_checksum_length_payload() {
    let mut wal = Wal::new(NoOpCipher);
    let (lsn, bytes) = wal.append(b"123456789").unwrap();
    assert_eq!(lsn, 1);
    assert_eq!(HEADER_LEN, 16);
    assert_eq!(&bytes[0..8], &[0, 0, 0, 0, 0, 0, 0, 1]);
    assert_eq!(&bytes[8..12], &[0xCB, 0xF4, 0x39, 0x26]);
    assert_eq!(&bytes[12..16], &[0, 0, 0, 9]);
    assert_eq!(&bytes[16..], b"123456789");
}

#[test]
fn torn_tail_is_cut_and_the_next_append_follows_the_last_record() {
    let mut wal = Wal::new(NoOpCipher);
    let mut log = append_all(&mut wal, &[b"a", b"b", b"c"]);
    let intact = log.len();
    log.extend_from_slice(&[0xDE, 0xAD, 0xBE, 0xEF, 0x01]);

    let mut reopened = Wal::new(NoOpCipher);
    let replay = reopened.replay(&log).unwrap();
    let payloads: Vec<&[u8]> = replay.records.iter().map(|r| r.payload.as_slice()).collect();
    assert_eq!(payloads, vec![b"a".as_slice(), b"b".as_slice(), b"c".as_slice()]);
    assert_eq!(replay.valid_len, intact);
    assert_eq!(replay.last_lsn, 3);

    log.truncate(replay.valid_len);
    let (lsn, bytes) = reopened.append(b"d").unwrap();
    assert_eq!(lsn, 4);
    log.extend_from_slice(&bytes);
    let mut again = Wal::new(NoOpCipher);
    let second = again.replay(&log).unwrap();
    assert_eq!(second.records.len(), 4);
    assert_eq!(second.records[3].payload, b"d");
    assert_eq!(second.valid_len, log.len());
}

#[test]
fn every_cut_of_the_last_record_is_a_torn_tail() {
    let mut wal = Wal::new(NoOpCipher);
    let first = append_all(&mut wal, &[b"kept"]);
    let (_, second) = wal.append(b"lost record").unwrap();
    for cut in 0..second.len() {
        let mut log = first.clone();
        log.extend_from_slice(&second[..cut]);
        let mut reopened = Wal::new(NoOpCipher);
        let replay = reopened.replay(&log).unwrap();
        assert_eq!(replay.records.len(), 1);
        assert_eq!(replay.valid_len, first.len());
        assert_eq!(reopened.current_lsn(), 1);
    }
}

#[test]
fn empty_log_replays_to_nothing() {
    let mut wal = Wal::new(NoOpCipher);
    let replay = wal.replay(&[]).unwrap();
    assert!(replay.records.is_empty());
    assert_eq!(replay.valid_len, 0);
    assert_eq!(replay.last_lsn, 0);
    assert_eq!(wal.current_lsn(), 0);
}

#[test]
fn flipped_payload_byte_is_a_checksum_mismatch() {
    let mut wal = Wal::new(NoOpCipher);
    let mut log = append_all(&mut wal, &[b"first", b"second"]);
    let last = log.len() - 1;
    log[last] ^= 0x01;
    let mut reopened = Wal::new(NoOpCipher);
    assert_eq!(reopened.replay(&log), Err(WalError::CrcMismatch));
    assert_eq!(reopened.current_lsn(), 0);
}

#[test]
fn cipher_failure_on_append_gives_out_no_lsn() {
    let cipher = KmsHookCipher::new("absent", InMemoryKmsKeyProvider::from_keys(vec![]));
    let mut wal = Wal::new(cipher);
    let r = wal.append(b"x");
    assert_eq!(
        r,
        Err(WalError::Encryption("kms key not found: absent".to_string()))
    );
    assert_eq!(wal.current_lsn(), 0);
}

#[test]
fn wal_errors_have_messages() {
    assert_eq!(WalError::Io("disk".to_string()).message(), "IO error: disk");
    assert_eq!(
        WalError::CrcMismatch.message(),
        "Data integrity error (CRC mismatch)"
    );
    assert_eq!(WalError::CorruptEntry.message(), "Corrupt entry");
    assert_eq!(
        WalError::Encryption("k".to_string()).message(),
        "At-rest encryption error: k"
    );
}

#[test]
fn integers_are_written_and_read_back() {
    let mut out = Vec::new();
    push_be32(&mut out, 0x0102_0304);
    push_be64(&mut out, 0x1112_1314_1516_1718);
    push_le64(&mut out, 0x2122_2324_2526_2728);
    assert_eq!(
        out,
        vec![
            1, 2, 3, 4, 0x11, 0x12, 0x13, 0x14, 0x15, 0x16, 0x17, 0x18, 0x28, 0x27, 0x26, 0x25,
            0x24, 0x23, 0x22, 0x21
        ]
    );
    assert_eq!(read_be32(&out, 0), 0x0102_0304);
    assert_eq!(read_be64(&out, 4), 0x1112_1314_1516_1718);
    assert_eq!(read_le64(&out[12..]), 0x2122_2324_2526_2728);
}

#[test]
fn latest_snapshot_at_or_before_filters_by_lsn() {
    let manager = SnapshotManager::new("snapshots");
    let files = vec![
        snapshot_file_name(1),
        snapshot_file_name(5),
        snapshot_file_name(9),
    ];

    let at_or_before_five = manager.latest_snapshot_at_or_before(&files, 5);
    assert_eq!(at_or_before_five.unwrap().0, 5);

    let at_or_before_seven = manager.latest_snapshot_at_or_before(&files, 7);
    assert_eq!(at_or_before_seven.unwrap().0, 5);

    let no_match = manager.latest_snapshot_at_or_before(&files, 0);
    assert!(no_match.is_none());
}

#[test]
fn snapshot_names_are_zero_padded_and_parse_back() {
    assert_eq!(snapshot_file_name(42), "snapshot_00000000000000000042.rkyv");
    assert_eq!(snapshot_temp_name(42), "snapshot_00000000000000000042.tmp");
    assert_eq!(
        snapshot_file_name(u64::MAX),
        "snapshot_18446744073709551615.rkyv"
    );
    assert_eq!(parse_snapshot_lsn("snapshot_00000000000000000042.rkyv"), Some(42));
    assert_eq!(parse_snapshot_lsn("snapshot_7.rkyv"), Some(7));
    assert_eq!(parse_snapshot_lsn("snapshot_7.tmp"), None);
    assert_eq!(parse_snapshot_lsn("snapshot_7.rkyv.tmp"), None);
    assert_eq!(parse_snapshot_lsn("snapshot_.rkyv"), None);
    assert_eq!(parse_snapshot_lsn("snapshot_x1.rkyv"), None);
    assert_eq!(parse_snapshot_lsn("backup_1.rkyv"), None);
    assert_eq!(parse_snapshot_lsn("snapshot_99999999999999999999.rkyv"), None);
}

#[test]
fn latest_snapshot_skips_other_files_and_reports_the_index() {
    let manager = SnapshotManager::new("/var/data/snapshots");
    let files = vec![
        "notes.txt".to_string(),
        snapshot_file_name(3),
        snapshot_temp_name(8),
        snapshot_file_name(6),
        snapshot_file_name(2),
    ];
    assert_eq!(manager.latest_snapshot(&files), Some((6, 3)));
    assert_eq!(manager.latest_snapshot_at_or_before(&files, 5), Some((3, 1)));
    assert_eq!(manager.latest_snapshot(&vec![]), None);
    assert_eq!(
        manager.snapshot_path(6),
        "/var/data/snapshots/snapshot_00000000000000000006.rkyv"
    );
    assert_eq!(manager.dir(), "/var/data/snapshots");
}

#[test]
fn snapshot_errors_have_messages() {
    assert_eq!(
        SnapshotError::Io("gone".to_string()).message(),
        "IO error: gone"
    );
}

#[test]
fn log_sequence_numbers_can_run_out() {
    let payload = b"last";
    let mut log = Vec::new();
    log.extend_from_slice(&u64::MAX.to_be_bytes());
    log.extend_from_slice(&crc32fast::hash(payload).to_be_bytes());
    log.extend_from_slice(&(payload.len() as u32).to_be_bytes());
    log.extend_from_slice(payload);

    let mut wal = Wal::new(NoOpCipher);
    let replay = wal.replay(&log).unwrap();
    assert_eq!(replay.last_lsn, u64::MAX);
    assert_eq!(wal.current_lsn(), u64::MAX);
    assert!(matches!(wal.append(b"more"), Err(WalError::Io(_))));
    assert_eq!(wal.current_lsn(), u64::MAX);
    let read = Wal::new(NoOpCipher).read_log(&log).unwrap();
    assert_eq!(read.records[0].payload, payload);
}

#[test]
fn record_that_does_not_decrypt_is_an_encryption_error() {
    let cipher = KmsHookCipher::new(
        "k",
        InMemoryKmsKeyProvider::from_keys(vec![("k".to_string(), vec![7])]),
    );
    let mut wal = Wal::new(cipher);
    let log = append_all(&mut wal, &[b"secret"]);
    let keyless = KmsHookCipher::new("gone", InMemoryKmsKeyProvider::from_keys(vec![]));
    let mut other = Wal::new(keyless);
    assert!(matches!(other.replay(&log), Err(WalError::Encryption(_))));
    assert_eq!(other.current_lsn(), 0);
}

#[test]
fn crash_inside_a_header_loses_only_that_record() {
    let mut wal = Wal::new(NoOpCipher);
    let (_, a) = wal.append(b"A").unwrap();
    let (lsn_b, b) = wal.append(b"B").unwrap();
    assert_eq!(lsn_b, 2);
    let mut file = a.clone();
    file.extend_from_slice(&b[..10]);

    let mut reopened = Wal::new(NoOpCipher);
    let replay = reopened.replay(&file).unwrap();
    let payloads: Vec<&[u8]> = replay.records.iter().map(|r| r.payload.as_slice()).collect();
    assert_eq!(payloads, vec![b"A".as_slice()]);
    assert_eq!(replay.valid_len, a.len());
    file.truncate(replay.valid_len);
    assert_eq!(file, a);

    let (lsn, bytes) = reopened.append(b"B").unwrap();
    assert_eq!(lsn, 2);
    assert_eq!(bytes, b);
}
