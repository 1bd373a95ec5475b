//! The settings of a run, and what they make of each target.

use std::path::PathBuf;

use vstd::prelude::*;
use vstd::string::StringExecFns;

use crate::errors::Error;

verus! {

/// The fewest workers a run may have.
pub const MIN_WORKER: usize = 1;

/// The most workers a run may have.
pub const MAX_WORKER: usize = 8;

/// How deep below a target directory files are looked for when the search is
/// recursive.
pub const MAX_RECURSIVE_DEPTH: usize = 8;

/// The settings of a run.
#[derive(Clone, Debug)]
pub struct Command {
    /// The files or directories to convert.
    pub targets: Vec<PathBuf>,
    /// The directory to write to; by default each output goes beside its input.
    pub output: Option<String>,
    /// Whether an output that is already there is overwritten.
    pub overwrite: bool,
    /// Whether directories are searched below their first level.
    pub recursive: bool,
    /// Whether each file is reported as it is processed.
    pub verbose: bool,
    /// The number of workers.
    pub worker: usize,
}

/// What the filesystem says a target is.
#[derive(Clone, Copy, Debug, PartialEq, Eq, Structural)]
pub enum TargetKind {
    /// Nothing is there.
    Missing,
    /// A file.
    File,
    /// A directory.
    Dir,
    /// Something that is neither.
    Other,
}

/// What a run does with a target.
#[derive(Clone, Copy, Debug, PartialEq, Eq, Structural)]
pub enum TargetPlan {
    /// The target is passed over.
    Skip,
    /// The target itself is an input.
    Take,
    /// The files below the target are inputs, from `min_depth` levels below it
    /// down to `max_depth`, links followed.
    Walk { min_depth: usize, max_depth: usize },
}

/// The directory that an output goes to.
#[derive(Debug)]
pub enum OutputDir {
    /// The directory that the settings name.
    Given(String),
    /// The directory in which the input lies.
    Beside(PathBuf),
}

/// A run with fewer than one or more than eight workers is refused for its
/// worker count, whatever its targets are; with one to eight workers it is
/// refused only if it has no target.
pub proof fn lemma_worker_bound(command: Command)
    ensures
        command.worker < 1 || command.worker > 8 <==> command.check() == Err::<(), Error>(
            Error::Worker,
        ),
        1 <= command.worker <= 8 && command.targets@.len() > 0 <==> command.check() is Ok,
{
}

impl Default for Command {
    fn default() -> (command: Self)
        ensures
            command.targets@.len() == 0,
            command.output is None,
            !command.overwrite,
            !command.recursive,
            !command.verbose,
            command.worker == 0,
    {
        Command {
            targets: Vec::new(),
            output: None,
            overwrite: false,
            recursive: false,
            verbose: false,
            worker: 0,
        }
    }
}

impl Command {
    /// Whether the settings allow a run, and if not, what is wrong with them.
    pub open spec fn check(self) -> Result<(), Error> {
        if self.worker < MIN_WORKER || self.worker > MAX_WORKER {
            Err(Error::Worker)
        } else if self.targets@.len() == 0 {
            Err(Error::NoTarget)
        } else {
            Ok(())
        }
    }

    /// How deep below a target directory files are looked for.
    pub open spec fn max_depth_spec(self) -> usize {
        if self.recursive {
            MAX_RECURSIVE_DEPTH
        } else {
            1
        }
    }

    /// Refuses settings with which no run can start: a worker count outside
    /// 1 to 8, reported first, or no target at all.
    pub fn invalid(&self) -> (result: Result<(), Error>)
        ensures
            result == self.check(),
    {
        if self.worker < MIN_WORKER || self.worker > MAX_WORKER {
            return Err(Error::Worker);
        }
        if self.targets.len() == 0 {
            return Err(Error::NoTarget);
        }
        Ok(())
    }

    /// How deep below a target directory files are looked for.
    pub fn max_depth(&self) -> (depth: usize)
        ensures
            depth == self.max_depth_spec(),
    {
        if self.recursive {
            MAX_RECURSIVE_DEPTH
        } else {
            1
        }
    }

    /// Picks the directory for the output of one input: the one that the
    /// settings name, else the one in which the input lies, handed in as
    /// `parent`. An input without such a directory cannot be placed; `target`
    /// is how the input is shown in that complaint.
    pub fn output_dir(&self, parent: Option<PathBuf>, target: &str) -> (dir: Result<
        OutputDir,
        Error,
    >)
        ensures
            match (self.output, parent) {
                (Some(given), _) => dir matches Ok(OutputDir::Given(path)) && path@ == given@,
                (None, Some(beside)) => dir matches Ok(OutputDir::Beside(path)) && path == beside,
                (None, None) => dir matches Err(Error::Path(reason)) && reason@
                    == "Can't get output dir for target: "@ + target@,
            },
    {
        match &self.output {
            Some(given) => Ok(OutputDir::Given(given.clone())),
            None => match parent {
                Some(beside) => Ok(OutputDir::Beside(beside)),
                None => Err(
                    Error::Path(String::from_str("Can't get output dir for target: ").concat(target)),
                ),
            },
        }
    }

    /// What a run does with a target, given what the filesystem says it is: a
    /// missing one is passed over, a file is taken, a directory is searched for
    /// files below it, and anything else ends the enumeration.
    pub fn plan(&self, kind: TargetKind) -> (plan: Result<TargetPlan, Error>)
        ensures
            match kind {
                TargetKind::Missing => plan == Ok::<TargetPlan, Error>(TargetPlan::Skip),
                TargetKind::File => plan == Ok::<TargetPlan, Error>(TargetPlan::Take),
                TargetKind::Dir => plan == Ok::<TargetPlan, Error>(
                    TargetPlan::Walk { min_depth: 1, max_depth: self.max_depth_spec() },
                ),
                TargetKind::Other => plan matches Err(Error::Path(reason)) && reason@
                    == "Unsupport target type"@,
            },
    {
        match kind {
            TargetKind::Missing => Ok(TargetPlan::Skip),
            TargetKind::File => Ok(TargetPlan::Take),
            TargetKind::Dir => Ok(TargetPlan::Walk { min_depth: 1, max_depth: self.max_depth() }),
            TargetKind::Other => Err(Error::Path(String::from_str("Unsupport target type"))),
        }
    }
}

} // verus!
