//! What it takes to run a command with environment variables.

use crate::text::texts;
use vstd::prelude::*;

verus! {

/// Why a command is not run.
#[derive(Debug, PartialEq, Eq)]
pub enum RunnerError {
    EmptyCommand,
    Spawn(String),
}

/// `RunnerError` with its text as a character sequence.
pub enum RunnerErrorView {
    EmptyCommand,
    Spawn(Seq<char>),
}

impl View for RunnerError {
    type V = RunnerErrorView;

    open spec fn view(&self) -> RunnerErrorView {
        match *self {
            RunnerError::EmptyCommand => RunnerErrorView::EmptyCommand,
            RunnerError::Spawn(detail) => RunnerErrorView::Spawn(detail@),
        }
    }
}

impl RunnerErrorView {
    /// What the user reads.
    pub open spec fn message(self) -> Seq<char> {
        match self {
            RunnerErrorView::EmptyCommand => {
                "No command provided after --.\nUsage: envctl run <project> <env> -- <cmd>"@
            },
            RunnerErrorView::Spawn(detail) => "failed to spawn command: "@ + detail,
        }
    }
}

impl RunnerError {
    /// What the user reads.
    pub fn message(&self) -> (r: String)
        ensures
            r@ == self@.message(),
    {
        match self {
            RunnerError::EmptyCommand => {
                "No command provided after --.\nUsage: envctl run <project> <env> -- <cmd>".to_owned()
            },
            RunnerError::Spawn(detail) => "failed to spawn command: ".to_owned().concat(
                detail.as_str(),
            ),
        }
    }
}

/// A program to start with its arguments.
#[derive(Debug, PartialEq, Eq)]
pub struct Launch {
    pub program: String,
    pub arguments: Vec<String>,
}

/// Splits a command into the program and its arguments.
pub fn split_command(command: &[String]) -> (r: Result<Launch, RunnerError>)
    ensures
        match r {
            Ok(launch) => command@.len() > 0 && launch.program@ == command@[0]@ && texts(
                launch.arguments@,
            ) == texts(command@.skip(1)),
            Err(error) => command@.len() == 0 && error@ == RunnerErrorView::EmptyCommand,
        },
{
    if command.len() == 0 {
        return Err(RunnerError::EmptyCommand);
    }
    let mut arguments: Vec<String> = Vec::new();
    let mut i: usize = 1;
    while i < command.len()
        invariant
            1 <= i <= command@.len(),
            arguments.len() == i - 1,
            forall|j: int| 0 <= j < i - 1 ==> (#[trigger] arguments@[j])@ == command@[j + 1]@,
        decreases command@.len() - i,
    {
        arguments.push(command[i].clone());
        i = i + 1;
    }
    assert(texts(arguments@) =~= texts(command@.skip(1)));
    Ok(Launch { program: command[0].clone(), arguments })
}

} // verus!
