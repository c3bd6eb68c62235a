//! The sandbox: the steps that rebase a build onto its own root directory
//! before the build script runs.

use vstd::prelude::*;
use crate::error::{dependency_error, ErrorView, RavenError};
use crate::text::{join_path, path_join};

verus! {

/// One step of the setup that the child process performs before it runs
/// the script.
#[derive(Debug)]
pub enum SandboxStep {
    /// Enter new mount and UTS namespaces.
    Unshare,
    /// Mark `/` as private, recursively.
    MakePrivate,
    /// Mount a fresh `proc` filesystem onto `target`.
    MountProc { target: String },
    /// Bind-mount the host directory `source` onto `target`, recursively;
    /// create `target` first where `create_target` is set.
    BindMount { source: String, target: String, create_target: bool },
    /// Change the root directory to `root`.
    Chroot { root: String },
    /// Change the working directory to `/`.
    Chdir,
}

/// A step as a value of specifications.
pub enum StepView {
    Unshare,
    MakePrivate,
    MountProc { target: Seq<char> },
    BindMount { source: Seq<char>, target: Seq<char>, create_target: bool },
    Chroot { root: Seq<char> },
    Chdir,
}

impl View for SandboxStep {
    type V = StepView;

    open spec fn view(&self) -> StepView {
        match self {
            SandboxStep::Unshare => StepView::Unshare,
            SandboxStep::MakePrivate => StepView::MakePrivate,
            SandboxStep::MountProc { target } => StepView::MountProc { target: target@ },
            SandboxStep::BindMount { source, target, create_target } => StepView::BindMount {
                source: source@,
                target: target@,
                create_target: *create_target,
            },
            SandboxStep::Chroot { root } => StepView::Chroot { root: root@ },
            SandboxStep::Chdir => StepView::Chdir,
        }
    }
}

/// What was found on the filesystem for one stage of the setup.
#[derive(Clone, Copy, Debug)]
pub struct DirProbe {
    /// Whether the host directory of the stage exists.
    pub on_host: bool,
    /// Whether the directory of the stage exists below the sandbox root.
    pub in_sandbox: bool,
}

/// What the sandbox has to know of the filesystem, where all of it is
/// looked up at once.
#[derive(Clone, Copy, Debug)]
pub struct HostProbe {
    /// Whether `<root>/proc` exists.
    pub proc_exists: bool,
    /// One entry for each of `/bin`, `/usr`, `/lib`, `/lib64`, `/dev`,
    /// `/etc`, in this order.
    pub dirs: [DirProbe; 6],
}

/// The two paths to look up before a stage; `None` where the stage does not
/// ask.
#[derive(Debug)]
pub struct ProbeRequest {
    pub host: Option<String>,
    pub sandbox: Option<String>,
}

/// The number of stages of the setup: new namespaces, a private `/`,
/// `proc`, six bind mounts, the change of root, the change of directory.
pub const STAGES: usize = 11;

/// The host directories that supply the toolchain, without the leading
/// separator.
pub open spec fn toolchain_dirs() -> Seq<Seq<char>> {
    seq!["bin"@, "usr"@, "lib"@, "lib64"@, "dev"@, "etc"@]
}

/// The host directory that stage `stage` looks up, if it is a bind mount.
pub open spec fn host_path(stage: int) -> Option<Seq<char>> {
    if 3 <= stage < 9 {
        Some("/"@ + toolchain_dirs()[stage - 3])
    } else {
        None
    }
}

/// The directory below the sandbox root that stage `stage` looks up: `proc`
/// for the mount of `proc`, the target for a bind mount.
pub open spec fn sandbox_path(root: Seq<char>, stage: int) -> Option<Seq<char>> {
    if stage == 2 {
        Some(join_path(root, "proc"@))
    } else if 3 <= stage < 9 {
        Some(join_path(root, toolchain_dirs()[stage - 3]))
    } else {
        None
    }
}

/// The step of stage `stage`, given what was found for it; `None` where
/// the stage is passed over. `proc` is mounted where the sandbox has a
/// directory for it; a host directory is bound where it exists, and its
/// target is created first where that does not exist.
pub open spec fn stage_step(root: Seq<char>, stage: int, found: DirProbe) -> Option<StepView> {
    if stage == 0 {
        Some(StepView::Unshare)
    } else if stage == 1 {
        Some(StepView::MakePrivate)
    } else if stage == 2 {
        if found.in_sandbox {
            Some(StepView::MountProc { target: join_path(root, "proc"@) })
        } else {
            None
        }
    } else if 3 <= stage < 9 {
        if found.on_host {
            Some(
                StepView::BindMount {
                    source: "/"@ + toolchain_dirs()[stage - 3],
                    target: join_path(root, toolchain_dirs()[stage - 3]),
                    create_target: !found.in_sandbox,
                },
            )
        } else {
            None
        }
    } else if stage == 9 {
        Some(StepView::Chroot { root })
    } else if stage == 10 {
        Some(StepView::Chdir)
    } else {
        None
    }
}

/// What a probe made at once holds for stage `stage`.
pub open spec fn probe_at(probe: HostProbe, stage: int) -> DirProbe {
    if stage == 2 {
        DirProbe { on_host: false, in_sandbox: probe.proc_exists }
    } else if 3 <= stage < 9 {
        probe.dirs@[stage - 3]
    } else {
        DirProbe { on_host: false, in_sandbox: false }
    }
}

/// The steps of the stages from `stage` on, in order.
pub open spec fn steps_from(root: Seq<char>, probe: HostProbe, stage: int) -> Seq<StepView>
    decreases STAGES - stage,
{
    if stage < 0 || stage >= STAGES {
        Seq::empty()
    } else {
        match stage_step(root, stage, probe_at(probe, stage)) {
            Some(step) => seq![step] + steps_from(root, probe, stage + 1),
            None => steps_from(root, probe, stage + 1),
        }
    }
}

/// The whole setup: new namespaces, a private `/`, `proc`, the bind mounts,
/// then the change of root and of working directory.
pub open spec fn setup_steps(root: Seq<char>, probe: HostProbe) -> Seq<StepView> {
    steps_from(root, probe, 0)
}

/// The views of a list of steps.
pub open spec fn steps_view(steps: Seq<SandboxStep>) -> Seq<StepView> {
    Seq::new(steps.len(), |i: int| steps[i]@)
}

/// The view of a step that may be missing.
pub open spec fn step_view(step: Option<SandboxStep>) -> Option<StepView> {
    match step {
        Some(s) => Some(s@),
        None => None,
    }
}

/// The view of a text that may be missing.
pub open spec fn path_view(path: Option<String>) -> Option<Seq<char>> {
    match path {
        Some(p) => Some(p@),
        None => None,
    }
}

/// The build-failure error of a script that did not exit with success; it
/// refers to the log at `log_path`.
pub open spec fn script_failed(log_path: Seq<char>) -> ErrorView {
    dependency_error("Build script failed (check "@ + log_path + ")"@)
}

/// Runs build scripts inside a root directory of their own.
#[derive(Debug)]
pub struct ScriptSandbox {
    pub root: String,
}

fn toolchain_dir(i: usize) -> (r: &'static str)
    requires
        i < 6,
    ensures
        r@ == toolchain_dirs()[i as int],
{
    if i == 0 {
        "bin"
    } else if i == 1 {
        "usr"
    } else if i == 2 {
        "lib"
    } else if i == 3 {
        "lib64"
    } else if i == 4 {
        "dev"
    } else {
        "etc"
    }
}

impl ScriptSandbox {
    /// A sandbox on the directory `root`.
    pub fn new(root: &str) -> (r: Self)
        ensures
            r.root@ == root@,
    {
        ScriptSandbox { root: root.to_owned() }
    }

    /// The program and the arguments that run `script`: `/bin/sh -c
    /// <script>`.
    pub fn command(script: &str) -> (r: Vec<String>)
        ensures
            r@.len() == 3,
            r@[0]@ == "/bin/sh"@,
            r@[1]@ == "-c"@,
            r@[2]@ == script@,
    {
        let mut out: Vec<String> = Vec::new();
        out.push("/bin/sh".to_owned());
        out.push("-c".to_owned());
        out.push(script.to_owned());
        out
    }

    /// The paths to look up just before stage `stage` of the setup.
    pub fn to_probe(&self, stage: usize) -> (r: ProbeRequest)
        ensures
            path_view(r.host) == host_path(stage as int),
            path_view(r.sandbox) == sandbox_path(self.root@, stage as int),
    {
        let root = self.root.as_str();
        if stage == 2 {
            ProbeRequest { host: None, sandbox: Some(path_join(root, "proc")) }
        } else if 3 <= stage && stage < 9 {
            let name = toolchain_dir(stage - 3);
            let mut host = "/".to_owned();
            host.append(name);
            ProbeRequest { host: Some(host), sandbox: Some(path_join(root, name)) }
        } else {
            ProbeRequest { host: None, sandbox: None }
        }
    }

    /// The step that the child process performs at stage `stage` of the
    /// setup, given what was found just before it; `None` where there is
    /// nothing to do.
    pub fn step(&self, stage: usize, found: DirProbe) -> (r: Option<SandboxStep>)
        ensures
            step_view(r) == stage_step(self.root@, stage as int, found),
    {
        let root = self.root.as_str();
        if stage == 0 {
            Some(SandboxStep::Unshare)
        } else if stage == 1 {
            Some(SandboxStep::MakePrivate)
        } else if stage == 2 {
            if found.in_sandbox {
                Some(SandboxStep::MountProc { target: path_join(root, "proc") })
            } else {
                None
            }
        } else if stage < 9 {
            if found.on_host {
                let name = toolchain_dir(stage - 3);
                let mut source = "/".to_owned();
                source.append(name);
                Some(
                    SandboxStep::BindMount {
                        source,
                        target: path_join(root, name),
                        create_target: !found.in_sandbox,
                    },
                )
            } else {
                None
            }
        } else if stage == 9 {
            Some(SandboxStep::Chroot { root: root.to_owned() })
        } else if stage == 10 {
            Some(SandboxStep::Chdir)
        } else {
            None
        }
    }

    /// All steps of the setup, in order, for a filesystem that was looked
    /// up at once.
    pub fn setup(&self, probe: &HostProbe) -> (r: Vec<SandboxStep>)
        ensures
            steps_view(r@) == setup_steps(self.root@, *probe),
    {
        let mut steps: Vec<SandboxStep> = Vec::new();
        let mut stage: usize = 0;
        assert(steps_view(steps@) + steps_from(self.root@, *probe, 0) =~= steps_from(
            self.root@,
            *probe,
            0,
        ));
        while stage < STAGES
            invariant
                stage <= STAGES,
                setup_steps(self.root@, *probe) == steps_view(steps@) + steps_from(
                    self.root@,
                    *probe,
                    stage as int,
                ),
            decreases STAGES - stage,
        {
            let ghost so_far = steps_view(steps@);
            let found = if stage == 2 {
                DirProbe { on_host: false, in_sandbox: probe.proc_exists }
            } else if 3 <= stage && stage < 9 {
                probe.dirs[stage - 3]
            } else {
                DirProbe { on_host: false, in_sandbox: false }
            };
            match self.step(stage, found) {
                Some(step) => {
                    let ghost view = step@;
                    steps.push(step);
                    proof {
                        assert(steps_view(steps@) =~= so_far.push(view));
                        assert(so_far + (seq![view] + steps_from(self.root@, *probe, stage + 1))
                            =~= so_far.push(view) + steps_from(self.root@, *probe, stage + 1));
                    }
                },
                None => {},
            }
            stage = stage + 1;
        }
        assert(steps_view(steps@) + Seq::<StepView>::empty() =~= steps_view(steps@));
        steps
    }

    /// The result of a run whose setup succeeded, given how the script
    /// ended: `status` is its exit status, or `None` where a signal ended
    /// it. The run is good if and only if the status is 0; any other end
    /// gives the build-failure error that refers to the log at `log_path`.
    pub fn run(&self, log_path: &str, status: Option<i32>) -> (r: Result<(), RavenError>)
        ensures
            match r {
                Ok(_) => status == Some(0i32),
                Err(e) => status != Some(0i32) && e@ == script_failed(log_path@),
            },
    {
        match status {
            Some(0) => Ok(()),
            _ => {
                let mut detail = "Build script failed (check ".to_owned();
                detail.append(log_path);
                detail.append(")");
                Err(RavenError::DependencyError(detail))
            },
        }
    }
}

} // verus!
