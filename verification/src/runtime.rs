//! What a container Run is started with, and what is recorded around it.

use vstd::prelude::*;

use crate::event::{clone_texts, texts, EventKind, EventKindView};

verus! {

/// A program to run inside a container.
#[derive(Debug)]
pub struct RunSpec {
    pub image: String,
    pub command: Vec<String>,
}

impl RunSpec {
    /// The first event of the Run.
    pub fn start_event(&self) -> (res: EventKind)
        ensures
            res@ == (EventKindView::ProcessStart {
                image: self.image@,
                command: texts(self.command@),
            }),
    {
        EventKind::ProcessStart {
            image: self.image.clone(),
            command: clone_texts(&self.command),
        }
    }

    /// The arguments that `docker` is started with: the container is removed
    /// once it has exited.
    pub fn docker_args(&self) -> (res: Vec<String>)
        ensures
            texts(res@) == seq!["run"@, "--rm"@, self.image@] + texts(self.command@),
    {
        let mut args: Vec<String> = Vec::new();
        args.push("run".to_owned());
        args.push("--rm".to_owned());
        args.push(self.image.clone());
        let mut rest = clone_texts(&self.command);
        let ghost tail = rest@;
        let ghost head = args@;
        args.append(&mut rest);
        assert(texts(args@) =~= texts(head) + texts(tail));
        assert(texts(head) =~= seq!["run"@, "--rm"@, self.image@]);
        args
    }
}

/// The exit code that a Run is recorded with: that of its process, and -1
/// where it has none.
pub fn recorded_exit_code(code: Option<i32>) -> (res: i32)
    ensures
        res == match code {
            Some(c) => c,
            None => -1i32,
        },
{
    match code {
        Some(c) => c,
        None => -1,
    }
}

/// The last event of a Run that exited with a code.
pub fn exit_event(exit_code: i32) -> (res: EventKind)
    ensures
        res@ == (EventKindView::ProcessExit { exit_code }),
{
    EventKind::ProcessExit { exit_code }
}

} // verus!
