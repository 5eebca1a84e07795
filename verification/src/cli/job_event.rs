//! `ang job-event`: the boundary event that a Slurm hook records.

use vstd::prelude::*;

use crate::event::{opt_text, JobEventKind, JobEventKindView};
use crate::text::{chars_of, parse_i32, parsed_i32, same_text};

verus! {

/// What Slurm tells a hook in its environment; `None` where a variable is not
/// set.
#[derive(Debug)]
pub struct SlurmEnv {
    /// `SLURM_JOB_ID`
    pub job_id: Option<String>,
    /// `SLURMD_NODENAME`
    pub node: Option<String>,
    /// `SLURM_JOB_USER`
    pub user: Option<String>,
    /// `SLURM_JOB_WORK_DIR`
    pub work_dir: Option<String>,
    /// `SLURM_STEP_ID`
    pub step_id: Option<String>,
    /// `SLURM_PROCID`
    pub task_id: Option<String>,
    /// `SLURM_JOB_EXIT_CODE2`
    pub exit_code2: Option<String>,
    /// `SLURM_JOB_NAME`
    pub job_name: Option<String>,
    /// `SLURM_JOB_NODELIST`
    pub node_list: Option<String>,
}

/// Why no event is recorded.
#[derive(Debug, PartialEq)]
pub enum JobEventError {
    /// `SLURM_JOB_ID` is not set.
    NoJobId,
    /// There is no kind of that name.
    UnknownKind(String),
}

impl JobEventError {
    /// The message that is printed.
    pub fn message(&self) -> (res: String)
        ensures
            res@ == match *self {
                JobEventError::NoJobId =>
                "SLURM_JOB_ID not set; must be run from a Slurm hook"@,
                JobEventError::UnknownKind(kind) => "unknown job-event kind: "@ + kind@,
            },
    {
        match self {
            JobEventError::NoJobId =>
            "SLURM_JOB_ID not set; must be run from a Slurm hook".to_owned(),
            JobEventError::UnknownKind(kind) => {
                let mut text = String::from_str("unknown job-event kind: ");
                text.append(kind.as_str());
                text
            },
        }
    }
}

/// The value of a variable, or `unknown` where it is not set.
pub open spec fn var_text(var: Option<String>) -> Seq<char> {
    match var {
        Some(value) => value@,
        None => "unknown"@,
    }
}

/// The value of a variable, or `unknown` where it is not set.
pub fn env_var(var: &Option<String>) -> (res: String)
    ensures
        res@ == var_text(*var),
{
    match var {
        Some(value) => value.clone(),
        None => "unknown".to_owned(),
    }
}

/// Where the boundary logs are written: the given directory, or the default.
pub fn boundary_dir(var: Option<String>) -> (res: String)
    ensures
        res@ == match var {
            Some(dir) => dir@,
            None => "/var/log/ang/boundary"@,
        },
{
    match var {
        Some(dir) => dir,
        None => "/var/log/ang/boundary".to_owned(),
    }
}

/// The position of the first colon of a text, if it has one.
pub open spec fn is_first_colon(s: Seq<char>, c: int) -> bool {
    &&& 0 <= c < s.len()
    &&& s[c] == ':'
    &&& forall|k: int| 0 <= k < c ==> #[trigger] s[k] != ':'
}

/// What `exit_code:signal` means: the numbers before and after the first
/// colon, each -1 where it is absent or no number.
pub open spec fn exit_code2(raw: Seq<char>) -> (i32, i32) {
    if exists|c: int| is_first_colon(raw, c) {
        let c = choose|c: int| is_first_colon(raw, c);
        (
            match parsed_i32(raw.take(c)) {
                Some(n) => n,
                None => -1i32,
            },
            match parsed_i32(raw.skip(c + 1)) {
                Some(n) => n,
                None => -1i32,
            },
        )
    } else {
        (
            match parsed_i32(raw) {
                Some(n) => n,
                None => -1i32,
            },
            -1i32,
        )
    }
}

fn number_or_minus_one(s: &str) -> (res: i32)
    ensures
        res == match parsed_i32(s@) {
            Some(n) => n,
            None => -1i32,
        },
{
    match parse_i32(s) {
        Some(n) => n,
        None => -1,
    }
}

/// Reads Slurm's `SLURM_JOB_EXIT_CODE2`, `exit_code:signal`.
pub fn parse_exit_code2(raw: &str) -> (res: (i32, i32))
    ensures
        res == exit_code2(raw@),
{
    let chars = chars_of(raw);
    let mut c: usize = 0;
    while c < chars.len()
        invariant
            c <= chars@.len(),
            chars@ == raw@,
            forall|k: int| 0 <= k < c ==> #[trigger] raw@[k] != ':',
        decreases chars@.len() - c,
    {
        if chars[c] == ':' {
            proof {
                assert(is_first_colon(raw@, c as int));
                assert forall|d: int| is_first_colon(raw@, d) implies d == c by {
                    if d < c {
                        assert(raw@[d] != ':');
                    } else if c < d {
                        assert(raw@[c as int] != ':');
                    }
                }
            }
            let before = raw.substring_char(0, c);
            let after = raw.substring_char(c + 1, chars.len());
            assert(before@ =~= raw@.take(c as int));
            assert(after@ =~= raw@.skip(c + 1));
            return (number_or_minus_one(before), number_or_minus_one(after));
        }
        c = c + 1;
    }
    assert(forall|d: int| !is_first_colon(raw@, d));
    (number_or_minus_one(raw), -1)
}

/// The event of the given kind that a hook's environment describes.
pub open spec fn event_of_hook(kind: Seq<char>, env: SlurmEnv) -> Option<JobEventKindView> {
    if kind == "node-allocated"@ {
        Some(
            JobEventKindView::NodeAllocated {
                node: var_text(env.node),
                user: var_text(env.user),
                work_dir: var_text(env.work_dir),
            },
        )
    } else if kind == "task-started"@ {
        Some(
            JobEventKindView::TaskStarted {
                step_id: var_text(env.step_id),
                task_id: var_text(env.task_id),
                node: var_text(env.node),
            },
        )
    } else if kind == "task-exited"@ {
        Some(
            JobEventKindView::TaskExited {
                step_id: var_text(env.step_id),
                task_id: var_text(env.task_id),
                node: var_text(env.node),
            },
        )
    } else if kind == "job-exited"@ {
        let (exit_code, signal) = exit_code2(var_text(env.exit_code2));
        Some(
            JobEventKindView::JobExited {
                exit_code,
                signal,
                job_name: var_text(env.job_name),
                node_list: var_text(env.node_list),
            },
        )
    } else {
        None
    }
}

/// The Job and the event that a hook records. Without a Job there is none, and
/// there are four kinds.
pub fn run(kind: &str, env: &SlurmEnv) -> (res: Result<(String, JobEventKind), JobEventError>)
    ensures
        match res {
            Ok((job_id, event)) => opt_text(env.job_id) == Some(job_id@) && event_of_hook(
                kind@,
                *env,
            ) == Some(event@),
            Err(JobEventError::NoJobId) => env.job_id is None,
            Err(JobEventError::UnknownKind(name)) => env.job_id is Some && event_of_hook(
                kind@,
                *env,
            ) is None && name@ == kind@,
        },
{
    let job_id: String = match &env.job_id {
        Some(id) => id.clone(),
        None => {
            return Err(JobEventError::NoJobId);
        },
    };
    let event = if same_text(kind, "node-allocated") {
        JobEventKind::NodeAllocated {
            node: env_var(&env.node),
            user: env_var(&env.user),
            work_dir: env_var(&env.work_dir),
        }
    } else if same_text(kind, "task-started") {
        JobEventKind::TaskStarted {
            step_id: env_var(&env.step_id),
            task_id: env_var(&env.task_id),
            node: env_var(&env.node),
        }
    } else if same_text(kind, "task-exited") {
        JobEventKind::TaskExited {
            step_id: env_var(&env.step_id),
            task_id: env_var(&env.task_id),
            node: env_var(&env.node),
        }
    } else if same_text(kind, "job-exited") {
        let raw = env_var(&env.exit_code2);
        let (exit_code, signal) = parse_exit_code2(raw.as_str());
        JobEventKind::JobExited {
            exit_code,
            signal,
            job_name: env_var(&env.job_name),
            node_list: env_var(&env.node_list),
        }
    } else {
        return Err(JobEventError::UnknownKind(kind.to_owned()));
    };
    Ok((job_id, event))
}

} // verus!
