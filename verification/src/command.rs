use vstd::prelude::*;
use vstd::string::*;

verus! {

/// What a command line asks for.
#[derive(Debug, PartialEq, Eq)]
pub enum Command {
    /// Create the schema, scan the tree under the path, report the count.
    Walk(String),
    /// Create the schema and do nothing else.
    Setup,
    /// Do nothing.
    Nothing,
}

/// One thing that a command has done for it.
#[derive(Debug, PartialEq, Eq)]
pub enum Step {
    /// Create the schema of the store if it is not there.
    CreateSchema,
    /// Scan the tree under the path.
    Scan(String),
    /// Report how many records the store holds.
    ReportCount,
}

/// A command line that cannot be carried out.
#[derive(Debug, Clone, Copy, PartialEq, Eq, Structural)]
pub enum UsageError {
    /// `walk` was given without a path.
    MissingPath,
}

/// What a [`Step`] says, as plain values.
pub enum StepView {
    CreateSchema,
    Scan(Seq<char>),
    ReportCount,
}

impl View for Step {
    type V = StepView;

    open spec fn view(&self) -> StepView {
        match self {
            Step::CreateSchema => StepView::CreateSchema,
            Step::Scan(path) => StepView::Scan(path@),
            Step::ReportCount => StepView::ReportCount,
        }
    }
}

/// The characters of `walk`.
pub open spec fn walk_word() -> Seq<char> {
    seq!['w', 'a', 'l', 'k']
}

/// The characters of `setup`.
pub open spec fn setup_word() -> Seq<char> {
    seq!['s', 'e', 't', 'u', 'p']
}

/// Reads a command word and its optional path. `walk` needs the path and is
/// a usage error without it; `setup` takes none into account; any other
/// word asks for nothing.
pub fn parse_command(word: &str, path: Option<String>) -> (parsed: Result<Command, UsageError>)
    ensures
        word@ == walk_word() ==> match path {
            Some(p) => parsed matches Ok(Command::Walk(q)) && q@ == p@,
            None => parsed == Err::<Command, UsageError>(UsageError::MissingPath),
        },
        word@ == setup_word() ==> parsed == Ok::<Command, UsageError>(Command::Setup),
        word@ != walk_word() && word@ != setup_word() ==> parsed == Ok::<Command, UsageError>(
            Command::Nothing,
        ),
{
    let given = word.to_owned();
    let walk = "walk".to_owned();
    let setup = "setup".to_owned();
    proof {
        reveal_strlit("walk");
        reveal_strlit("setup");
        assert(walk@ =~= walk_word());
        assert(setup@ =~= setup_word());
    }
    if given == walk {
        match path {
            Some(p) => Ok(Command::Walk(p)),
            None => Err(UsageError::MissingPath),
        }
    } else if given == setup {
        Ok(Command::Setup)
    } else {
        Ok(Command::Nothing)
    }
}

impl Command {
    /// What is done for the command, in order.
    pub fn steps(self) -> (steps: Vec<Step>)
        ensures
            match self {
                Command::Walk(path) => {
                    &&& steps@.len() == 3
                    &&& steps@[0]@ == StepView::CreateSchema
                    &&& steps@[1]@ == StepView::Scan(path@)
                    &&& steps@[2]@ == StepView::ReportCount
                },
                Command::Setup => steps@.len() == 1 && steps@[0]@ == StepView::CreateSchema,
                Command::Nothing => steps@.len() == 0,
            },
    {
        let mut steps: Vec<Step> = Vec::new();
        match self {
            Command::Walk(path) => {
                steps.push(Step::CreateSchema);
                steps.push(Step::Scan(path));
                steps.push(Step::ReportCount);
            },
            Command::Setup => {
                steps.push(Step::CreateSchema);
            },
            Command::Nothing => {},
        }
        steps
    }
}

} // verus!
