use vstd::prelude::*;

verus! {

/// How many times the insertion of one record is tried before it is given up.
pub const MAX_WRITE_ATTEMPTS: u32 = 3;

/// What the store said of one attempt to insert a record.
#[derive(Debug, Clone, Copy, PartialEq, Eq, Structural)]
pub enum InsertOutcome {
    /// The record is in the store.
    Stored,
    /// The store refused or failed; the record is not in it.
    Rejected,
}

/// The insertion of a record was given up: every attempt was rejected.
#[derive(Debug, Clone, Copy, PartialEq, Eq, Structural)]
pub struct WriteError {
    /// The number of attempts made.
    pub attempts: u32,
}

/// The insertion of one record under way: it knows how many attempts have
/// been rejected so far, always fewer than [`MAX_WRITE_ATTEMPTS`].
#[derive(Debug)]
pub struct WriteAttempt {
    made: u32,
}

/// What becomes of an insertion after one attempt.
#[derive(Debug)]
pub enum WriteStep {
    /// The attempt was rejected and another is due, with the same record.
    Retry(WriteAttempt),
    /// The record is in the store.
    Inserted,
    /// The last attempt allowed was rejected.
    Failed(WriteError),
}

/// Where an insertion stands after a run of attempts.
#[derive(Debug, Clone, Copy, PartialEq, Eq, Structural)]
pub enum WriteStatus {
    /// The attempt numbered `attempts`, counting from one, stored the record.
    Inserted { attempts: u32 },
    /// All of the `attempts` allowed were rejected.
    Failed { attempts: u32 },
    /// `attempts` were rejected and more are allowed.
    Pending { attempts: u32 },
}

/// Whether the first `n` outcomes are all rejections.
pub open spec fn all_rejected(outcomes: Seq<InsertOutcome>, n: int) -> bool {
    forall|j: int| 0 <= j < n && j < outcomes.len() ==> #[trigger] outcomes[j] == InsertOutcome::Rejected
}

/// Whether `status` is where an insertion stands once the store has given
/// `outcomes`, one per attempt: the first attempt stored ends it, if it is
/// among those allowed; without one it is failed after the last attempt
/// allowed and pending before.
pub open spec fn is_status(outcomes: Seq<InsertOutcome>, status: WriteStatus) -> bool {
    match status {
        WriteStatus::Inserted { attempts } => {
            &&& 1 <= attempts <= MAX_WRITE_ATTEMPTS
            &&& attempts <= outcomes.len()
            &&& outcomes[attempts - 1] == InsertOutcome::Stored
            &&& all_rejected(outcomes, attempts - 1)
        },
        WriteStatus::Failed { attempts } => {
            &&& attempts == MAX_WRITE_ATTEMPTS
            &&& outcomes.len() >= MAX_WRITE_ATTEMPTS
            &&& all_rejected(outcomes, MAX_WRITE_ATTEMPTS as int)
        },
        WriteStatus::Pending { attempts } => {
            &&& attempts == outcomes.len()
            &&& outcomes.len() < MAX_WRITE_ATTEMPTS
            &&& all_rejected(outcomes, outcomes.len() as int)
        },
    }
}

impl WriteAttempt {
    #[verifier::type_invariant]
    spec fn well_formed(self) -> bool {
        self.made < MAX_WRITE_ATTEMPTS
    }

    /// The number of attempts rejected so far.
    pub closed spec fn rejected(&self) -> nat {
        self.made as nat
    }

    /// An insertion of which nothing has been tried yet.
    pub fn first() -> (a: Self)
        ensures
            a.rejected() == 0,
    {
        WriteAttempt { made: 0 }
    }

    /// The number of attempts rejected so far.
    pub fn attempts_made(&self) -> (n: u32)
        ensures
            n == self.rejected(),
            n < MAX_WRITE_ATTEMPTS,
    {
        proof {
            use_type_invariant(self);
        }
        self.made
    }

    /// Takes in what the store said of the attempt just made. A stored
    /// record ends the insertion. A rejection asks for another attempt
    /// unless it was the last one allowed, which fails the insertion.
    pub fn settle(self, outcome: InsertOutcome) -> (step: WriteStep)
        ensures
            self.rejected() < MAX_WRITE_ATTEMPTS,
            match outcome {
                InsertOutcome::Stored => step is Inserted,
                InsertOutcome::Rejected => if self.rejected() + 1 < MAX_WRITE_ATTEMPTS {
                    &&& step matches WriteStep::Retry(next)
                    &&& next.rejected() == self.rejected() + 1
                } else {
                    &&& step matches WriteStep::Failed(e)
                    &&& e.attempts == MAX_WRITE_ATTEMPTS
                },
            },
    {
        proof {
            use_type_invariant(&self);
        }
        match outcome {
            InsertOutcome::Stored => WriteStep::Inserted,
            InsertOutcome::Rejected => {
                let made: u32 = self.made + 1;
                if made < MAX_WRITE_ATTEMPTS {
                    WriteStep::Retry(WriteAttempt { made })
                } else {
                    WriteStep::Failed(WriteError { attempts: made })
                }
            },
        }
    }
}

/// Where the insertion of one record stands once the store has answered
/// the attempts with `outcomes`, in order. Outcomes after the one that ends
/// the insertion are not looked at.
pub fn status_after(outcomes: &[InsertOutcome]) -> (status: WriteStatus)
    ensures
        is_status(outcomes@, status),
{
    let mut attempt = WriteAttempt::first();
    let mut i: usize = 0;
    while i < outcomes.len()
        invariant
            i <= outcomes.len(),
            attempt.rejected() == i,
            i < MAX_WRITE_ATTEMPTS,
            all_rejected(outcomes@, i as int),
        decreases outcomes.len() - i,
    {
        let outcome = outcomes[i];
        match attempt.settle(outcome) {
            WriteStep::Inserted => {
                return WriteStatus::Inserted { attempts: (i + 1) as u32 };
            },
            WriteStep::Failed(e) => {
                return WriteStatus::Failed { attempts: e.attempts };
            },
            WriteStep::Retry(next) => {
                attempt = next;
            },
        }
        i += 1;
    }
    WriteStatus::Pending { attempts: attempt.attempts_made() }
}

/// An insertion is decided after at most [`MAX_WRITE_ATTEMPTS`] attempts:
/// with that many outcomes or more, no status is pending.
pub proof fn lemma_attempts_are_bounded(outcomes: Seq<InsertOutcome>, status: WriteStatus)
    requires
        is_status(outcomes, status),
        outcomes.len() >= MAX_WRITE_ATTEMPTS,
    ensures
        !(status is Pending),
{
}

/// The outcomes decide the status: two statuses of the same outcomes are
/// equal.
pub proof fn lemma_status_is_unique(
    outcomes: Seq<InsertOutcome>,
    a: WriteStatus,
    b: WriteStatus,
)
    requires
        is_status(outcomes, a),
        is_status(outcomes, b),
    ensures
        a == b,
{
    match (a, b) {
        (WriteStatus::Inserted { attempts: x }, WriteStatus::Inserted { attempts: y }) => {
            if x < y {
                assert(outcomes[x - 1] == InsertOutcome::Rejected);
            } else if y < x {
                assert(outcomes[y - 1] == InsertOutcome::Rejected);
            }
        },
        (WriteStatus::Inserted { attempts: x }, _) => {
            assert(outcomes[x - 1] == InsertOutcome::Rejected);
        },
        (_, WriteStatus::Inserted { attempts: y }) => {
            assert(outcomes[y - 1] == InsertOutcome::Rejected);
        },
        _ => {},
    }
}

} // verus!
