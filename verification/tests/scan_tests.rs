use dupescan::digest::{DigestError, DigestStep, ReadOutcome, StreamDigest};
use dupescan::filter::EntryKind;
use dupescan::record::{record_for, FileRecord};
use dupescan::resolver::resolve_duplicates;
use dupescan::scan::{Admission, FileOutcome, ScanFailure, ScanReport, ScanState, POOL_SIZE};
use dupescan::writer::{status_after, InsertOutcome, WriteStatus};

#[test]
fn pool_size_is_ten() {
    assert_eq!(POOL_SIZE, 10);
}

#[test]
fn fresh_scan_reports_zeroes() {
    let state = ScanState::new();
    assert_eq!(state.in_flight(), 0);
    assert_eq!(
        state.report(),
        Some(ScanReport { discovered: 0, inserted: 0, failed: 0, skipped: 0 })
    );
}

#[test]
fn scan_begins_only_at_a_directory() {
    assert!(ScanState::begin(Some(EntryKind::Directory)).is_ok());
    assert_eq!(ScanState::begin(None).err(), Some(ScanFailure::RootMissing));
    assert_eq!(
        ScanState::begin(Some(EntryKind::File)).err(),
        Some(ScanFailure::RootNotDirectory)
    );
    assert_eq!(
        ScanState::begin(Some(EntryKind::Other)).err(),
        Some(ScanFailure::RootNotDirectory)
    );
}

#[test]
fn files_are_taken_on_and_others_pass() {
    let mut state = ScanState::new();
    assert_eq!(state.offer("/root", EntryKind::Directory), Admission::Pass);
    assert_eq!(state.offer("/root/link", EntryKind::Other), Admission::Pass);
    assert_eq!(state.offer("/root/.git/HEAD", EntryKind::File), Admission::Pass);
    assert_eq!(state.in_flight(), 0);
    assert_eq!(state.offer("/root/a.txt", EntryKind::File), Admission::Start);
    assert_eq!(state.in_flight(), 1);
    assert_eq!(state.report(), None);
    assert!(state.complete(FileOutcome::Inserted));
    assert_eq!(
        state.report(),
        Some(ScanReport { discovered: 1, inserted: 1, failed: 0, skipped: 0 })
    );
}

#[test]
fn pool_never_holds_more_than_its_size() {
    let mut state = ScanState::new();
    for i in 0..POOL_SIZE {
        assert_eq!(state.offer(&format!("/root/{}", i), EntryKind::File), Admission::Start);
    }
    assert_eq!(state.in_flight(), POOL_SIZE);
    assert_eq!(state.offer("/root/more", EntryKind::File), Admission::Busy);
    assert_eq!(state.in_flight(), POOL_SIZE);
    assert_eq!(state.offer("/root/dir", EntryKind::Directory), Admission::Pass);
    assert!(state.complete(FileOutcome::Inserted));
    assert_eq!(state.in_flight(), POOL_SIZE - 1);
    assert_eq!(state.offer("/root/more", EntryKind::File), Admission::Start);
    assert_eq!(state.in_flight(), POOL_SIZE);
    for _ in 0..POOL_SIZE {
        assert!(state.complete(FileOutcome::Inserted));
    }
    assert_eq!(
        state.report(),
        Some(ScanReport { discovered: 11, inserted: 11, failed: 0, skipped: 0 })
    );
}

#[test]
fn completion_with_nothing_in_flight_is_not_booked() {
    let mut state = ScanState::new();
    assert!(!state.complete(FileOutcome::Inserted));
    assert!(!state.complete(FileOutcome::WriteFailed));
    assert!(!state.complete(FileOutcome::Skipped));
    assert_eq!(
        state.report(),
        Some(ScanReport { discovered: 0, inserted: 0, failed: 0, skipped: 0 })
    );
}

#[test]
fn report_tells_the_endings_apart() {
    let mut state = ScanState::new();
    for name in ["a", "b", "c", "d"] {
        assert_eq!(state.offer(name, EntryKind::File), Admission::Start);
    }
    assert!(state.complete(FileOutcome::Inserted));
    assert!(state.complete(FileOutcome::WriteFailed));
    assert!(state.complete(FileOutcome::Skipped));
    assert_eq!(state.report(), None);
    assert!(state.complete(FileOutcome::Inserted));
    assert_eq!(
        state.report(),
        Some(ScanReport { discovered: 4, inserted: 2, failed: 1, skipped: 1 })
    );
}

#[test]
fn file_that_turns_unreadable_is_left_out_of_the_count() {
    let mut state = ScanState::begin(Some(EntryKind::Directory)).expect("a directory");
    let mut stored: Vec<FileRecord> = Vec::new();
    for (name, readable) in [("a.txt", true), ("gone.txt", false), ("b.txt", true)] {
        let path = format!("/root/{}", name);
        assert_eq!(state.offer(&path, EntryKind::File), Admission::Start);
        let digest = if readable {
            match StreamDigest::standard().feed(ReadOutcome::Data(b"hello".to_vec())) {
                DigestStep::Done(fp) => Ok(fp),
                _ => panic!("a short read ends the digest"),
            }
        } else {
            let state = match StreamDigest::new(4).feed(ReadOutcome::Data(b"hell".to_vec())) {
                DigestStep::Continue(next) => next,
                _ => panic!("a full read asks for more"),
            };
            match state.feed(ReadOutcome::Failed) {
                DigestStep::Failed(e) => Err(e),
                _ => panic!("a failed read fails the digest"),
            }
        };
        let outcome = match record_for(name.to_string(), path, digest) {
            Ok(record) => match status_after(&[InsertOutcome::Stored]) {
                WriteStatus::Inserted { .. } => {
                    stored.push(record);
                    FileOutcome::Inserted
                }
                _ => FileOutcome::WriteFailed,
            },
            Err(_) => FileOutcome::Skipped,
        };
        assert!(state.complete(outcome));
    }
    assert_eq!(
        state.report(),
        Some(ScanReport { discovered: 3, inserted: 2, failed: 0, skipped: 1 })
    );
    assert_eq!(stored.len(), 2);
    for r in &stored {
        assert_ne!(r.filename(), "gone.txt");
    }
    let sets = resolve_duplicates(&stored);
    assert_eq!(sets.len(), 1);
    assert_eq!(sets[0].len(), 2);
}

#[test]
fn file_that_cannot_be_opened_is_skipped() {
    let mut state = ScanState::new();
    assert_eq!(state.offer("/root/locked", EntryKind::File), Admission::Start);
    let made = record_for(
        "locked".to_string(),
        "/root/locked".to_string(),
        Err(DigestError::OpenFailure),
    );
    assert!(made.is_err());
    assert!(state.complete(FileOutcome::Skipped));
    assert_eq!(
        state.report(),
        Some(ScanReport { discovered: 1, inserted: 0, failed: 0, skipped: 1 })
    );
}

#[test]
fn exhausted_write_is_reported_as_failed() {
    let mut state = ScanState::new();
    assert_eq!(state.offer("/root/a.txt", EntryKind::File), Admission::Start);
    let rejected = [InsertOutcome::Rejected, InsertOutcome::Rejected, InsertOutcome::Rejected];
    let outcome = match status_after(&rejected) {
        WriteStatus::Inserted { .. } => FileOutcome::Inserted,
        WriteStatus::Failed { attempts } => {
            assert_eq!(attempts, 3);
            FileOutcome::WriteFailed
        }
        WriteStatus::Pending { .. } => panic!("three rejections decide the insertion"),
    };
    assert!(state.complete(outcome));
    assert_eq!(
        state.report(),
        Some(ScanReport { discovered: 1, inserted: 0, failed: 1, skipped: 0 })
    );
}
