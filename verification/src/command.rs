//! Commands: where their programs are found, and when a running one is given up.

use vstd::prelude::*;
use crate::text::{decimal, decimal_text, join_texts, joined, texts};

verus! {

pub const SYSTEMCTL_IN_USR_BIN: &'static str = "/usr/bin/systemctl";

pub const SYSTEMCTL_IN_BIN: &'static str = "/bin/systemctl";

pub const DOCKER_IN_USR_BIN: &'static str = "/usr/bin/docker";

pub const DOCKER_IN_BIN: &'static str = "/bin/docker";

pub const DOCKER_IN_USR_LOCAL_BIN: &'static str = "/usr/local/bin/docker";

/// How long a command may run, in seconds.
pub const COMMAND_TIMEOUT_SECS: u64 = 20;

/// How long a command may run, in nanoseconds.
pub const COMMAND_TIMEOUT_NANOS: u64 = 20_000_000_000;

/// How long to wait before a running command is looked at again, in milliseconds.
pub const COMMAND_POLL_MILLIS: u64 = 100;

/// A place where a program may be found, and whether there is a file.
#[derive(Debug, Clone, Copy)]
pub struct Candidate<'a> {
    pub path: &'a str,
    pub present: bool,
}

/// The places of candidates.
pub open spec fn candidate_paths(candidates: Seq<Candidate>) -> Seq<Seq<char>> {
    Seq::new(candidates.len(), |i: int| candidates[i].path@)
}

/// There is a file at the place at position `i`, and none at those before it.
pub open spec fn first_present(candidates: Seq<Candidate>, i: int) -> bool {
    &&& 0 <= i < candidates.len()
    &&& candidates[i].present
    &&& forall|j: int| 0 <= j < i ==> !(#[trigger] candidates[j]).present
}

/// What is said where a program is at none of the places.
pub open spec fn not_found(paths: Seq<Seq<char>>) -> Seq<char> {
    "Required binary not found. Checked: "@ + joined(paths, ", "@)
}

/// The first of the places where there is a file.
pub fn find_binary<'a>(candidates: &[Candidate<'a>]) -> (r: Result<&'a str, String>)
    ensures
        r is Ok <==> exists|i: int|
            0 <= i < candidates@.len() && (#[trigger] candidates@[i]).present,
        r is Ok ==> exists|i: int| #[trigger]
            first_present(candidates@, i) && r->Ok_0@ == candidates@[i].path@,
        r is Err ==> r->Err_0@ == not_found(candidate_paths(candidates@)),
        r is Ok ==> exists|i: int|
            0 <= i < candidates@.len() && (#[trigger] candidates@[i]).present && r->Ok_0@
                == candidates@[i].path@ && (forall|j: int|
                0 <= j < i ==> !(#[trigger] candidates@[j]).present),
        r is Err ==> r->Err_0@ == "Required binary not found. Checked: "@ + joined(
            Seq::new(candidates@.len(), |i: int| candidates@[i].path@),
            ", "@,
        ),
{
    let mut paths: Vec<String> = Vec::new();
    let mut i: usize = 0;
    while i < candidates.len()
        invariant
            i <= candidates@.len(),
            forall|j: int| 0 <= j < i ==> !(#[trigger] candidates@[j]).present,
            texts(paths@) == candidate_paths(candidates@).take(i as int),
        decreases candidates.len() - i,
    {
        if candidates[i].present {
            assert(first_present(candidates@, i as int));
            return Ok(candidates[i].path);
        }
        let ghost before = paths@;
        paths.push(candidates[i].path.to_owned());
        assert(texts(paths@) == texts(before).push(candidates@[i as int].path@));
        i = i + 1;
        assert(texts(paths@) == candidate_paths(candidates@).take(i as int));
    }
    assert(texts(paths@) == candidate_paths(candidates@));
    Err(
        "Required binary not found. Checked: ".to_owned().concat(
            join_texts(&paths, ", ").as_str(),
        ),
    )
}

/// At which of the places that are looked at there is a file.
#[derive(Debug, Clone, Copy)]
pub struct InstalledBinaries {
    pub systemctl_in_usr_bin: bool,
    pub systemctl_in_bin: bool,
    pub docker_in_usr_bin: bool,
    pub docker_in_bin: bool,
    pub docker_in_usr_local_bin: bool,
}

/// Where `systemctl` is found, or what is said where it is not.
pub open spec fn systemctl_place(installed: InstalledBinaries) -> Result<Seq<char>, Seq<char>> {
    if installed.systemctl_in_usr_bin {
        Ok("/usr/bin/systemctl"@)
    } else if installed.systemctl_in_bin {
        Ok("/bin/systemctl"@)
    } else {
        Err(not_found(seq!["/usr/bin/systemctl"@, "/bin/systemctl"@]))
    }
}

/// Where `docker` is found, or what is said where it is not.
pub open spec fn docker_place(installed: InstalledBinaries) -> Result<Seq<char>, Seq<char>> {
    if installed.docker_in_usr_bin {
        Ok("/usr/bin/docker"@)
    } else if installed.docker_in_bin {
        Ok("/bin/docker"@)
    } else if installed.docker_in_usr_local_bin {
        Ok("/usr/local/bin/docker"@)
    } else {
        Err(not_found(seq!["/usr/bin/docker"@, "/bin/docker"@, "/usr/local/bin/docker"@]))
    }
}

/// The result says what the place says.
pub open spec fn is_place(r: Result<&str, String>, place: Result<Seq<char>, Seq<char>>) -> bool {
    match place {
        Ok(path) => r is Ok && r->Ok_0@ == path,
        Err(error) => r is Err && r->Err_0@ == error,
    }
}

/// Where `systemctl` is found.
pub fn systemctl_binary(installed: &InstalledBinaries) -> (r: Result<&'static str, String>)
    ensures
        is_place(r, systemctl_place(*installed)),
        r is Ok <==> installed.systemctl_in_usr_bin || installed.systemctl_in_bin,
        r is Ok ==> r->Ok_0@ == (if installed.systemctl_in_usr_bin {
            "/usr/bin/systemctl"@
        } else {
            "/bin/systemctl"@
        }),
        r is Err ==> r->Err_0@ == "Required binary not found. Checked: "@ + joined(
            seq!["/usr/bin/systemctl"@, "/bin/systemctl"@],
            ", "@,
        ),
{
    let candidates = [
        Candidate { path: SYSTEMCTL_IN_USR_BIN, present: installed.systemctl_in_usr_bin },
        Candidate { path: SYSTEMCTL_IN_BIN, present: installed.systemctl_in_bin },
    ];
    assert(candidate_paths(candidates@) == seq!["/usr/bin/systemctl"@, "/bin/systemctl"@]);
    assert(candidates@[0].present == installed.systemctl_in_usr_bin);
    assert(candidates@[1].present == installed.systemctl_in_bin);
    find_binary(candidates.as_slice())
}

/// Where `docker` is found.
pub fn docker_binary(installed: &InstalledBinaries) -> (r: Result<&'static str, String>)
    ensures
        is_place(r, docker_place(*installed)),
        r is Ok <==> installed.docker_in_usr_bin || installed.docker_in_bin
            || installed.docker_in_usr_local_bin,
        r is Ok ==> r->Ok_0@ == (if installed.docker_in_usr_bin {
            "/usr/bin/docker"@
        } else if installed.docker_in_bin {
            "/bin/docker"@
        } else {
            "/usr/local/bin/docker"@
        }),
        r is Err ==> r->Err_0@ == "Required binary not found. Checked: "@ + joined(
            seq!["/usr/bin/docker"@, "/bin/docker"@, "/usr/local/bin/docker"@],
            ", "@,
        ),
{
    let candidates = [
        Candidate { path: DOCKER_IN_USR_BIN, present: installed.docker_in_usr_bin },
        Candidate { path: DOCKER_IN_BIN, present: installed.docker_in_bin },
        Candidate { path: DOCKER_IN_USR_LOCAL_BIN, present: installed.docker_in_usr_local_bin },
    ];
    assert(candidate_paths(candidates@) == seq![
        "/usr/bin/docker"@,
        "/bin/docker"@,
        "/usr/local/bin/docker"@,
    ]);
    assert(candidates@[0].present == installed.docker_in_usr_bin);
    assert(candidates@[1].present == installed.docker_in_bin);
    assert(candidates@[2].present == installed.docker_in_usr_local_bin);
    find_binary(candidates.as_slice())
}

/// A command to be run, and what the log says before.
#[derive(Debug)]
pub struct CommandPlan {
    pub notice: String,
    pub executable: String,
    pub args: Vec<String>,
}

pub struct PlanView {
    pub notice: Seq<char>,
    pub executable: Seq<char>,
    pub args: Seq<Seq<char>>,
}

impl View for CommandPlan {
    type V = PlanView;

    open spec fn view(&self) -> PlanView {
        PlanView { notice: self.notice@, executable: self.executable@, args: texts(self.args@) }
    }
}

/// What the log says of a command that is about to be started.
pub fn command_notice(executable: &str, args: &Vec<String>) -> (r: String)
    ensures
        r@ == "[EXEC] "@ + executable@ + " "@ + joined(texts(args@), " "@),
{
    "[EXEC] ".to_owned().concat(executable).concat(" ").concat(join_texts(args, " ").as_str())
}

/// What is seen of a command.
#[derive(Debug)]
pub enum CommandPoll {
    /// It could not be started.
    NotStarted { error: String },
    /// It has ended.
    Exited { success: bool, status: String },
    /// It has been running for a number of nanoseconds.
    Running { elapsed: u64 },
    /// It could not be looked at.
    Lost { error: String },
}

/// What is to be done with a command.
#[derive(Debug)]
pub enum CommandStep {
    /// It is over, with this outcome.
    Finish { outcome: Result<(), String> },
    /// It is to be killed, and has failed with this error.
    Kill { error: String },
    /// It is to be looked at again later.
    Wait,
}

/// Decides by what is seen of a command what is to be done with it. A command that
/// has run for as long as it may is killed.
pub fn execute_command(executable: &str, poll: &CommandPoll) -> (r: CommandStep)
    ensures
        match poll {
            CommandPoll::NotStarted { error } => r matches CommandStep::Finish { outcome: Err(e) }
                && e@ == "Failed to start "@ + executable@ + ": "@ + error@,
            CommandPoll::Exited { success: true, status } => r matches CommandStep::Finish {
                outcome: Ok(()),
            },
            CommandPoll::Exited { success: false, status } => r matches CommandStep::Finish {
                outcome: Err(e),
            } && e@ == executable@ + " exited with status "@ + status@,
            CommandPoll::Running { elapsed } => if *elapsed >= COMMAND_TIMEOUT_NANOS {
                r matches CommandStep::Kill { error } && error@ == executable@
                    + " timed out after "@ + decimal(COMMAND_TIMEOUT_SECS as nat) + " seconds"@
            } else {
                r is Wait
            },
            CommandPoll::Lost { error } => r matches CommandStep::Finish { outcome: Err(e) }
                && e@ == "Failed waiting for "@ + executable@ + ": "@ + error@,
        },
        r is Wait <==> (poll matches CommandPoll::Running { elapsed } && *elapsed < 20_000_000_000),
        r is Kill <==> (poll matches CommandPoll::Running { elapsed } && *elapsed
            >= 20_000_000_000),
        r matches CommandStep::Kill { error } ==> error@ == executable@ + " timed out after "@
            + decimal(20) + " seconds"@,
{
    match poll {
        CommandPoll::NotStarted { error } => CommandStep::Finish {
            outcome: Err(
                "Failed to start ".to_owned().concat(executable).concat(": ").concat(
                    error.as_str(),
                ),
            ),
        },
        CommandPoll::Exited { success, status } => {
            if *success {
                CommandStep::Finish { outcome: Ok(()) }
            } else {
                CommandStep::Finish {
                    outcome: Err(
                        executable.to_owned().concat(" exited with status ").concat(
                            status.as_str(),
                        ),
                    ),
                }
            }
        },
        CommandPoll::Running { elapsed } => {
            if *elapsed >= COMMAND_TIMEOUT_NANOS {
                CommandStep::Kill {
                    error: executable.to_owned().concat(" timed out after ").concat(
                        decimal_text(COMMAND_TIMEOUT_SECS).as_str(),
                    ).concat(" seconds"),
                }
            } else {
                CommandStep::Wait
            }
        },
        CommandPoll::Lost { error } => CommandStep::Finish {
            outcome: Err(
                "Failed waiting for ".to_owned().concat(executable).concat(": ").concat(
                    error.as_str(),
                ),
            ),
        },
    }
}

} // verus!
