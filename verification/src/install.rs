use vstd::prelude::*;

verus! {

/// How many unique temporary names are tried before giving up.
pub const TEMPORARY_NAME_ATTEMPTS: u32 = 100;

/// What happened when a file was created under a temporary name.
#[derive(Debug, Clone, Copy, PartialEq, Eq, Structural)]
pub enum CreateOutcome {
    /// The file was created and written.
    Created,
    /// A file of that name already exists.
    AlreadyExists,
    /// Creating or writing the file failed otherwise.
    Failed,
}

/// What to do after an attempt to create a file under a temporary name.
#[derive(Debug, Clone, Copy, PartialEq, Eq, Structural)]
pub enum Retry {
    /// Go on with the created file.
    Proceed,
    /// Try again with the next temporary name, of the given attempt number.
    TryAgain(u32),
    /// Every temporary name is taken: give up.
    Exhausted,
    /// Remove what was created, and report the failure.
    Fail,
}

/// After attempt number `attempt` (counted from zero) to create a file under a fresh
/// temporary name: go on when it was created, fail on an error other than a taken name,
/// and otherwise try the next name until all 100 have been tried.
pub fn after_create_attempt(attempt: u32, outcome: CreateOutcome) -> (r: Retry)
    requires
        attempt < TEMPORARY_NAME_ATTEMPTS,
    ensures
        match outcome {
            CreateOutcome::Created => r == Retry::Proceed,
            CreateOutcome::Failed => r == Retry::Fail,
            CreateOutcome::AlreadyExists => if attempt + 1 < TEMPORARY_NAME_ATTEMPTS {
                r == Retry::TryAgain((attempt + 1) as u32)
            } else {
                r == Retry::Exhausted
            },
        },
{
    match outcome {
        CreateOutcome::Created => Retry::Proceed,
        CreateOutcome::Failed => Retry::Fail,
        CreateOutcome::AlreadyExists => if attempt + 1 < TEMPORARY_NAME_ATTEMPTS {
            Retry::TryAgain(attempt + 1)
        } else {
            Retry::Exhausted
        },
    }
}

} // verus!
