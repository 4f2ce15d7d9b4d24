use crate::filter::{classify, decision_for, Decision, EntryKind};
use vstd::prelude::*;
use vstd::string::*;

verus! {

/// How many files may be worked on at the same time.
pub const POOL_SIZE: usize = 10;

/// Why a scan could not begin.
#[derive(Debug, Clone, Copy, PartialEq, Eq, Structural)]
pub enum ScanFailure {
    /// Nothing is at the root path.
    RootMissing,
    /// The root path does not name a directory.
    RootNotDirectory,
}

/// How the work on one file ended.
#[derive(Debug, Clone, Copy, PartialEq, Eq, Structural)]
pub enum FileOutcome {
    /// Its record is in the store.
    Inserted,
    /// Its record was made, and every attempt to store it was rejected.
    WriteFailed,
    /// It gave no record: it could not be opened or read to its end, or its
    /// name was not fit for a record.
    Skipped,
}

/// What the scan does with an entry that the traversal offers.
#[derive(Debug, Clone, Copy, PartialEq, Eq, Structural)]
pub enum Admission {
    /// The entry is a file to work on, and the work may start now.
    Start,
    /// The entry is a file to work on, but the pool is full: one file in
    /// flight has to complete before the entry is offered again.
    Busy,
    /// The entry is nothing to work on.
    Pass,
    /// The entry is a file to work on, but the count of files has reached
    /// the limit of its type: the entry is not taken.
    Full,
}

/// The counts of a scan.
#[derive(Debug, Clone, Copy, PartialEq, Eq, Structural)]
pub struct ScanReport {
    /// Files that the traversal found and the scan took on.
    pub discovered: u64,
    /// Files whose record is in the store.
    pub inserted: u64,
    /// Files whose record could not be stored.
    pub failed: u64,
    /// Files that gave no record.
    pub skipped: u64,
}

/// The counts of a scan under way, as plain values.
pub struct ScanView {
    pub discovered: nat,
    pub in_flight: nat,
    pub inserted: nat,
    pub failed: nat,
    pub skipped: nat,
}

/// The books of a scan under way: how many files it has taken on, how many
/// of them are being worked on, and how the others ended. Never more than
/// [`POOL_SIZE`] files are in flight, and every file taken on is either in
/// flight or counted under exactly one ending.
#[derive(Debug)]
pub struct ScanState {
    discovered: u64,
    in_flight: usize,
    inserted: u64,
    failed: u64,
    skipped: u64,
}

impl View for ScanState {
    type V = ScanView;

    closed spec fn view(&self) -> ScanView {
        ScanView {
            discovered: self.discovered as nat,
            in_flight: self.in_flight as nat,
            inserted: self.inserted as nat,
            failed: self.failed as nat,
            skipped: self.skipped as nat,
        }
    }
}

/// The counts after a file has been taken on.
pub open spec fn after_start(v: ScanView) -> ScanView {
    ScanView { discovered: v.discovered + 1, in_flight: v.in_flight + 1, ..v }
}

/// The counts after a file in flight has ended with `outcome`.
pub open spec fn after_completion(v: ScanView, outcome: FileOutcome) -> ScanView {
    let rest = ScanView { in_flight: (v.in_flight - 1) as nat, ..v };
    match outcome {
        FileOutcome::Inserted => ScanView { inserted: v.inserted + 1, ..rest },
        FileOutcome::WriteFailed => ScanView { failed: v.failed + 1, ..rest },
        FileOutcome::Skipped => ScanView { skipped: v.skipped + 1, ..rest },
    }
}

/// Whether the counts add up and the pool is not overfull.
pub open spec fn balanced(v: ScanView) -> bool {
    &&& v.in_flight <= POOL_SIZE
    &&& v.discovered == v.inserted + v.failed + v.skipped + v.in_flight
}

impl ScanState {
    #[verifier::type_invariant]
    spec fn well_formed(self) -> bool {
        &&& self.in_flight <= POOL_SIZE
        &&& self.discovered == self.inserted + self.failed + self.skipped + self.in_flight
    }

    /// The books of a scan that has taken on nothing yet.
    pub fn new() -> (s: Self)
        ensures
            s@ == (ScanView { discovered: 0, in_flight: 0, inserted: 0, failed: 0, skipped: 0 }),
            balanced(s@),
    {
        ScanState { discovered: 0, in_flight: 0, inserted: 0, failed: 0, skipped: 0 }
    }

    /// Begins a scan at a root of the given kind, `None` where nothing is at
    /// the root path. Only a directory can be walked.
    pub fn begin(root: Option<EntryKind>) -> (begun: Result<ScanState, ScanFailure>)
        ensures
            match root {
                None => begun == Err::<ScanState, ScanFailure>(ScanFailure::RootMissing),
                Some(EntryKind::Directory) => begun is Ok && begun->Ok_0@ == (ScanView {
                    discovered: 0,
                    in_flight: 0,
                    inserted: 0,
                    failed: 0,
                    skipped: 0,
                }),
                Some(_) => begun == Err::<ScanState, ScanFailure>(ScanFailure::RootNotDirectory),
            },
    {
        match root {
            None => Err(ScanFailure::RootMissing),
            Some(EntryKind::Directory) => Ok(ScanState::new()),
            Some(_) => Err(ScanFailure::RootNotDirectory),
        }
    }

    /// Decides on an entry that the traversal offers. An entry that the path
    /// filter does not give to processing changes nothing. A file to process
    /// is taken on, and counted as discovered and in flight, if the pool has
    /// room; with a full pool nothing changes and the entry is to be offered
    /// again after a completion.
    pub fn offer(&mut self, path: &str, kind: EntryKind) -> (admission: Admission)
        ensures
            balanced(old(self)@),
            balanced(final(self)@),
            decision_for(path.spec_bytes(), kind) != Decision::Process ==> admission
                == Admission::Pass && final(self)@ == old(self)@,
            decision_for(path.spec_bytes(), kind) == Decision::Process ==> {
                if old(self)@.in_flight >= POOL_SIZE {
                    admission == Admission::Busy && final(self)@ == old(self)@
                } else if old(self)@.discovered >= u64::MAX {
                    admission == Admission::Full && final(self)@ == old(self)@
                } else {
                    admission == Admission::Start && final(self)@ == after_start(old(self)@)
                }
            },
    {
        proof {
            use_type_invariant(&*self);
        }
        match classify(path, kind) {
            Decision::Process => {
                if self.in_flight >= POOL_SIZE {
                    Admission::Busy
                } else if self.discovered == u64::MAX {
                    Admission::Full
                } else {
                    let discovered: u64 = self.discovered + 1;
                    let in_flight: usize = self.in_flight + 1;
                    *self = ScanState {
                        discovered,
                        in_flight,
                        inserted: self.inserted,
                        failed: self.failed,
                        skipped: self.skipped,
                    };
                    Admission::Start
                }
            },
            _ => Admission::Pass,
        }
    }

    /// Books the end of the work on one file in flight. With nothing in
    /// flight there is nothing to book: the counts stay and the answer is
    /// `false`.
    pub fn complete(&mut self, outcome: FileOutcome) -> (booked: bool)
        ensures
            balanced(old(self)@),
            balanced(final(self)@),
            booked == (old(self)@.in_flight > 0),
            booked ==> final(self)@ == after_completion(old(self)@, outcome),
            !booked ==> final(self)@ == old(self)@,
    {
        proof {
            use_type_invariant(&*self);
        }
        if self.in_flight == 0 {
            return false;
        }
        let in_flight: usize = self.in_flight - 1;
        let mut inserted: u64 = self.inserted;
        let mut failed: u64 = self.failed;
        let mut skipped: u64 = self.skipped;
        match outcome {
            FileOutcome::Inserted => {
                inserted = inserted + 1;
            },
            FileOutcome::WriteFailed => {
                failed = failed + 1;
            },
            FileOutcome::Skipped => {
                skipped = skipped + 1;
            },
        }
        *self = ScanState { discovered: self.discovered, in_flight, inserted, failed, skipped };
        true
    }

    /// The number of files in flight.
    pub fn in_flight(&self) -> (n: usize)
        ensures
            n == self@.in_flight,
            balanced(self@),
    {
        proof {
            use_type_invariant(self);
        }
        self.in_flight
    }

    /// The counts of the scan, once all work has settled: `None` while a
    /// file is in flight.
    pub fn report(&self) -> (report: Option<ScanReport>)
        ensures
            self@.in_flight > 0 ==> report is None,
            self@.in_flight == 0 ==> report == Some(
                ScanReport {
                    discovered: self@.discovered as u64,
                    inserted: self@.inserted as u64,
                    failed: self@.failed as u64,
                    skipped: self@.skipped as u64,
                },
            ),
            report matches Some(r) ==> r.discovered == r.inserted + r.failed + r.skipped,
    {
        proof {
            use_type_invariant(self);
        }
        if self.in_flight > 0 {
            None
        } else {
            Some(
                ScanReport {
                    discovered: self.discovered,
                    inserted: self.inserted,
                    failed: self.failed,
                    skipped: self.skipped,
                },
            )
        }
    }
}

/// Taking on a file while the pool has room keeps the counts in balance.
pub proof fn lemma_start_keeps_balance(v: ScanView)
    requires
        balanced(v),
        v.in_flight < POOL_SIZE,
    ensures
        balanced(after_start(v)),
{
}

/// The end of a file in flight keeps the counts in balance, however it
/// ended.
pub proof fn lemma_completion_keeps_balance(v: ScanView, outcome: FileOutcome)
    requires
        balanced(v),
        v.in_flight > 0,
    ensures
        balanced(after_completion(v, outcome)),
{
}

/// A file that gave no record, or whose record could not be stored, is not
/// among the inserted: its end leaves the count of inserted records as it
/// was.
pub proof fn lemma_only_stored_files_count_as_inserted(v: ScanView)
    ensures
        after_completion(v, FileOutcome::Skipped).inserted == v.inserted,
        after_completion(v, FileOutcome::WriteFailed).inserted == v.inserted,
{
}

} // verus!
