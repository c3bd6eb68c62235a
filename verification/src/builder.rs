//! The builder: where a package is built, the script that builds it, the
//! check of what was downloaded, and the retry policy of the download.

use vstd::prelude::*;
use sha2::Digest;
use crate::error::{ErrorKind, ErrorView, RavenError};
use crate::recipe::{Recipe, RecipeView};
use crate::text::{join_path, join_strings, join_texts, path_join, same_text};

verus! {

/// The SHA-256 digest of `data`, as `sha2::Sha256::digest` computes it.
pub uninterp spec fn sha256(data: Seq<u8>) -> Seq<u8>;

/// Calls `sha2::Sha256::digest` on `data` and copies the digest into a
/// vector. The result is the one named `sha256`.
#[verifier::external_body]
pub(crate) fn sha256_digest(data: &[u8]) -> (r: Vec<u8>)
    ensures
        r@ == sha256(data@),
{
    sha2::Sha256::digest(data).to_vec()
}

/// The sixteen lowercase hexadecimal digits, in order.
pub open spec fn hex_digits() -> Seq<char> {
    "0123456789abcdef"@
}

/// The lowercase hexadecimal digit for a value below 16.
pub open spec fn hex_digit(n: int) -> char {
    hex_digits()[n]
}

/// The lowercase hexadecimal text of `bytes`: two digits for each byte, the
/// high four bits first.
pub open spec fn hex_text(bytes: Seq<u8>) -> Seq<char> {
    Seq::new(
        2 * bytes.len(),
        |i: int|
            if i % 2 == 0 {
                hex_digit(bytes[i / 2] as int / 16)
            } else {
                hex_digit(bytes[i / 2] as int % 16)
            },
    )
}

/// Writes each byte as two lowercase hexadecimal digits, the high four bits
/// first.
pub fn hex_encode(bytes: &[u8]) -> (r: String)
    ensures
        r@ == hex_text(bytes@),
{
    let table = "0123456789abcdef";
    proof {
        reveal_strlit("0123456789abcdef");
    }
    let mut out = String::new();
    let mut i: usize = 0;
    assert(out@ =~= hex_text(bytes@.take(0)));
    while i < bytes.len()
        invariant
            table@ == hex_digits(),
            table@.len() == 16,
            i <= bytes.len(),
            out@ == hex_text(bytes@.take(i as int)),
        decreases bytes.len() - i,
    {
        let byte: u8 = bytes[i];
        let high: usize = (byte / 16) as usize;
        let low: usize = (byte % 16) as usize;
        out.append(table.substring_char(high, high + 1));
        out.append(table.substring_char(low, low + 1));
        proof {
            let before = hex_text(bytes@.take(i as int));
            let after = hex_text(bytes@.take(i + 1));
            assert(after.len() == before.len() + 2);
            assert forall|k: int| 0 <= k < after.len() implies out@[k] == after[k] by {
                if k < before.len() {
                    assert(bytes@.take(i + 1)[k / 2] == bytes@.take(i as int)[k / 2]);
                    assert(out@[k] == before[k]);
                } else {
                    assert(k / 2 == i);
                    assert(bytes@.take(i + 1)[k / 2] == byte);
                }
            }
            assert(out@ =~= after);
        }
        i = i + 1;
    }
    assert(bytes@.take(bytes.len() as int) =~= bytes@);
    out
}

/// The lowercase hexadecimal SHA-256 digest of `data`.
pub fn digest_text(data: &[u8]) -> (r: String)
    ensures
        r@ == hex_text(sha256(data@)),
{
    let digest = sha256_digest(data);
    hex_encode(digest.as_slice())
}

/// The error of a download whose bytes do not have the expected digest.
pub open spec fn hash_mismatch() -> ErrorView {
    ErrorView { kind: ErrorKind::HashMismatch, detail: Seq::empty() }
}

/// The error of a download that the server did not answer with success.
pub open spec fn bad_status() -> ErrorView {
    ErrorView { kind: ErrorKind::Network, detail: "server did not answer with success"@ }
}

/// Whether an HTTP status code reports success.
pub open spec fn is_success(status: u16) -> bool {
    200 <= status < 300
}

/// Whether the bytes `body` have the digest `expected`: whether the
/// lowercase hexadecimal text of their SHA-256 digest is `expected`.
pub open spec fn body_matches(body: Seq<u8>, expected: Seq<char>) -> bool {
    hex_text(sha256(body)) == expected
}

/// What one download attempt comes to, given the status code of the answer
/// and its body: a network error for a status outside 200..299, a hash
/// mismatch for a body whose digest is not `expected`.
pub open spec fn response_outcome(status: u16, body: Seq<u8>, expected: Seq<char>) -> Result<
    (),
    ErrorView,
> {
    if !is_success(status) {
        Err(bad_status())
    } else if !body_matches(body, expected) {
        Err(hash_mismatch())
    } else {
        Ok(())
    }
}

/// The views of a result without a value.
pub open spec fn unit_result_view(r: Result<(), RavenError>) -> Result<(), ErrorView> {
    match r {
        Ok(_) => Ok(()),
        Err(e) => Err(e@),
    }
}

/// What follows a download attempt.
#[derive(Debug)]
pub enum RetryStep {
    /// The download is complete.
    Done,
    /// Wait this many seconds, then try again.
    Wait(u64),
    /// Give up with this error.
    Fail(RavenError),
}

/// What follows a download attempt, as a value of specifications.
pub enum RetryStepView {
    Done,
    Wait(u64),
    Fail(ErrorView),
}

impl View for RetryStep {
    type V = RetryStepView;

    open spec fn view(&self) -> RetryStepView {
        match self {
            RetryStep::Done => RetryStepView::Done,
            RetryStep::Wait(s) => RetryStepView::Wait(*s),
            RetryStep::Fail(e) => RetryStepView::Fail(e@),
        }
    }
}

/// The number of attempts after which a download is given up.
pub const MAX_ATTEMPTS: u64 = 3;

/// What follows attempt number `attempt` (from 1), given its outcome: done
/// after a success, a wait of `attempt` seconds after a failure that is not
/// the last, and the failure itself after the last attempt.
pub open spec fn retry_step(attempt: u64, outcome: Result<(), ErrorView>) -> RetryStepView {
    match outcome {
        Ok(_) => RetryStepView::Done,
        Err(e) => if attempt >= MAX_ATTEMPTS {
            RetryStepView::Fail(e)
        } else {
            RetryStepView::Wait(attempt)
        },
    }
}

/// The outcome of a download whose attempt number `n` fails with
/// `source(n)`, or succeeds where that is `None`, from attempt `attempt`
/// on.
pub open spec fn download_outcome(source: spec_fn(u64) -> Option<ErrorView>, attempt: u64) -> Result<
    (),
    ErrorView,
>
    decreases MAX_ATTEMPTS - attempt,
{
    let outcome = match source(attempt) {
        None => Ok(()),
        Some(e) => Err(e),
    };
    match retry_step(attempt, outcome) {
        RetryStepView::Done => Ok(()),
        RetryStepView::Fail(e) => Err(e),
        RetryStepView::Wait(_) => download_outcome(source, (attempt + 1) as u64),
    }
}

/// A download whose first `failures` attempts fail and whose next attempt
/// succeeds, with fewer than three failures, succeeds.
pub proof fn download_survives_failures(source: spec_fn(u64) -> Option<ErrorView>, failures: u64)
    requires
        failures < MAX_ATTEMPTS,
        forall|n: u64| 1 <= n <= failures ==> (#[trigger] source(n)) is Some,
        source((failures + 1) as u64) is None,
    ensures
        download_outcome(source, 1) is Ok,
{
    reveal_with_fuel(download_outcome, 4);
    assert(failures >= 1 ==> source(1) is Some);
    assert(failures >= 2 ==> source(2) is Some);
}

/// A download whose first three attempts fail fails, with the error of the
/// third attempt.
pub proof fn download_gives_up(source: spec_fn(u64) -> Option<ErrorView>)
    requires
        forall|n: u64| 1 <= n <= MAX_ATTEMPTS ==> (#[trigger] source(n)) is Some,
    ensures
        download_outcome(source, 1) == Err::<(), ErrorView>(source(3)->Some_0),
{
    reveal_with_fuel(download_outcome, 4);
    assert(source(1) is Some);
    assert(source(2) is Some);
    assert(source(3) is Some);
}

/// Where one build stands. The stages follow each other in the order
/// listed, up to `Done`.
#[derive(Debug)]
pub enum BuildStage {
    /// Make the workspace anew and, for a cross build, bring in the user
    /// emulator.
    Prepare,
    /// Download the source archive and check its digest.
    Fetch,
    /// Unpack the source archive.
    Unpack,
    /// Run the build script in the sandbox.
    Run,
    /// The build output is ready.
    Done,
    /// The build ended with this error; no later stage is entered.
    Failed(RavenError),
}

/// A stage as a value of specifications.
pub enum StageView {
    Prepare,
    Fetch,
    Unpack,
    Run,
    Done,
    Failed(ErrorView),
}

impl View for BuildStage {
    type V = StageView;

    open spec fn view(&self) -> StageView {
        match self {
            BuildStage::Prepare => StageView::Prepare,
            BuildStage::Fetch => StageView::Fetch,
            BuildStage::Unpack => StageView::Unpack,
            BuildStage::Run => StageView::Run,
            BuildStage::Done => StageView::Done,
            BuildStage::Failed(e) => StageView::Failed(e@),
        }
    }
}

/// The stage after `stage` has ended with `outcome`. A failure ends the
/// build; `Done` and `Failed` stay as they are.
pub open spec fn stage_after(stage: StageView, outcome: Result<(), ErrorView>) -> StageView {
    match stage {
        StageView::Done => StageView::Done,
        StageView::Failed(e) => StageView::Failed(e),
        _ => match outcome {
            Err(e) => StageView::Failed(e),
            Ok(_) => match stage {
                StageView::Prepare => StageView::Fetch,
                StageView::Fetch => StageView::Unpack,
                StageView::Unpack => StageView::Run,
                _ => StageView::Done,
            },
        },
    }
}

/// The directories and files of one build, and its script.
#[derive(Debug)]
pub struct BuildPlan {
    /// The workspace of the package: `<work>/<name>-build`.
    pub pkg_dir: String,
    /// Where the source archive is unpacked.
    pub src_dir: String,
    /// Where the install commands put their files; the result of the build.
    pub out_dir: String,
    /// The directories of the Unix skeleton inside the workspace.
    pub system_dirs: Vec<String>,
    /// Whether the recipe targets another architecture than the host's.
    pub needs_qemu: bool,
    /// The user emulator on the host.
    pub qemu_source: String,
    /// Where the user emulator goes inside the workspace.
    pub qemu_dest: String,
    /// Where the source archive is downloaded to.
    pub tarball: String,
    /// The shell script that builds and installs the package.
    pub script: String,
    /// Where the output of the script is logged.
    pub log_path: String,
}

/// Whether a recipe is built for another architecture than `host_arch`.
pub open spec fn needs_emulator(recipe: RecipeView, host_arch: Seq<char>) -> bool {
    match recipe.target_arch {
        Some(arch) => arch != host_arch,
        None => false,
    }
}

/// The environment that a cross build starts with; empty for a native
/// build.
pub open spec fn cross_prelude(cross: bool) -> Seq<char> {
    if cross {
        "export CC=aarch64-linux-gnu-gcc\nexport CXX=aarch64-linux-gnu-g++\nexport CROSS_COMPILE=aarch64-linux-gnu-\n"@
    } else {
        Seq::empty()
    }
}

/// The build script: the cross environment, the change into the first
/// directory of the unpacked source, the build commands and the install
/// commands, one per line.
pub open spec fn script_text(cross: bool, build: Seq<Seq<char>>, install: Seq<Seq<char>>) -> Seq<
    char,
> {
    cross_prelude(cross)
        + "\nexport DESTDIR=/out\ncd /src\nDIR=$(ls -d */ | head -n 1)\nif [ -n \"$DIR\" ]; then cd \"$DIR\"; fi\n"@
        + join_texts(build, "\n"@) + "\n"@ + join_texts(install, "\n"@)
}

/// The workspace of the package `name` below `work_dir`.
pub open spec fn workspace(work_dir: Seq<char>, name: Seq<char>) -> Seq<char> {
    join_path(work_dir, name + "-build"@)
}

/// The names of the directories of the Unix skeleton.
pub open spec fn skeleton() -> Seq<Seq<char>> {
    seq!["proc"@, "dev"@, "bin"@, "usr"@, "lib"@, "lib64"@, "etc"@, "tmp"@]
}

/// Whether `plan` is the plan for the build of `recipe` below `work_dir` on
/// a host of the architecture `host_arch`.
pub open spec fn is_plan_for(
    plan: BuildPlan,
    work_dir: Seq<char>,
    recipe: RecipeView,
    host_arch: Seq<char>,
) -> bool {
    &&& plan.pkg_dir@ == workspace(work_dir, recipe.name)
    &&& plan.src_dir@ == join_path(plan.pkg_dir@, "src"@)
    &&& plan.out_dir@ == join_path(plan.pkg_dir@, "out"@)
    &&& plan.system_dirs@.len() == skeleton().len()
    &&& forall|i: int|
        0 <= i < skeleton().len() ==> (#[trigger] plan.system_dirs@[i])@ == join_path(
            plan.pkg_dir@,
            skeleton()[i],
        )
    &&& plan.needs_qemu == needs_emulator(recipe, host_arch)
    &&& plan.qemu_source@ == "/usr/bin/qemu-aarch64-static"@
    &&& plan.qemu_dest@ == join_path(plan.pkg_dir@, "usr/bin/qemu-aarch64-static"@)
    &&& plan.tarball@ == join_path(plan.pkg_dir@, "source.tar"@)
    &&& plan.log_path@ == join_path(plan.pkg_dir@, "build.log"@)
    &&& plan.script@ == script_text(plan.needs_qemu, recipe.build_commands, recipe.install_commands)
}

/// Builds packages below a work directory.
#[derive(Debug)]
pub struct Builder {
    pub work_dir: String,
}

impl Builder {
    /// A builder that works below `work_dir`.
    pub fn new(work_dir: String) -> (r: Self)
        ensures
            r.work_dir@ == work_dir@,
    {
        Builder { work_dir }
    }

    /// The text sent as user agent with every download.
    pub fn user_agent() -> (r: String)
        ensures
            r@ == "RavenPackageManager/1.0 (MissionCritical)"@,
    {
        "RavenPackageManager/1.0 (MissionCritical)".to_owned()
    }

    /// Plans the build of `recipe` on a host of the architecture
    /// `host_arch`: the workspace with its directories, whether the user
    /// emulator is needed and where it goes, where the source archive and
    /// the log go, and the build script.
    pub fn build(&self, recipe: &Recipe, host_arch: &str) -> (plan: BuildPlan)
        ensures
            is_plan_for(plan, self.work_dir@, recipe@, host_arch@),
    {
        let mut leaf = recipe.name.0.clone();
        leaf.append("-build");
        let pkg_dir = path_join(self.work_dir.as_str(), leaf.as_str());
        let dir = pkg_dir.as_str();
        let mut system_dirs: Vec<String> = Vec::new();
        system_dirs.push(path_join(dir, "proc"));
        system_dirs.push(path_join(dir, "dev"));
        system_dirs.push(path_join(dir, "bin"));
        system_dirs.push(path_join(dir, "usr"));
        system_dirs.push(path_join(dir, "lib"));
        system_dirs.push(path_join(dir, "lib64"));
        system_dirs.push(path_join(dir, "etc"));
        system_dirs.push(path_join(dir, "tmp"));
        let needs_qemu = match &recipe.target_arch {
            Some(arch) => !same_text(arch.as_str(), host_arch),
            None => false,
        };
        let mut script = String::new();
        if needs_qemu {
            script.append(
                "export CC=aarch64-linux-gnu-gcc\nexport CXX=aarch64-linux-gnu-g++\nexport CROSS_COMPILE=aarch64-linux-gnu-\n",
            );
        }
        script.append(
            "\nexport DESTDIR=/out\ncd /src\nDIR=$(ls -d */ | head -n 1)\nif [ -n \"$DIR\" ]; then cd \"$DIR\"; fi\n",
        );
        script.append(join_strings(&recipe.build_commands, "\n").as_str());
        script.append("\n");
        script.append(join_strings(&recipe.install_commands, "\n").as_str());
        BuildPlan {
            src_dir: path_join(dir, "src"),
            out_dir: path_join(dir, "out"),
            system_dirs,
            needs_qemu,
            qemu_source: "/usr/bin/qemu-aarch64-static".to_owned(),
            qemu_dest: path_join(dir, "usr/bin/qemu-aarch64-static"),
            tarball: path_join(dir, "source.tar"),
            log_path: path_join(dir, "build.log"),
            script,
            pkg_dir,
        }
    }

    /// The total for the progress display: the length that the server
    /// announced, or 0 where it announced none.
    pub fn progress_total(content_length: Option<u64>) -> (r: u64)
        ensures
            r == match content_length {
                Some(n) => n,
                None => 0,
            },
    {
        match content_length {
            Some(n) => n,
            None => 0,
        }
    }

    /// Accepts a downloaded body if and only if its digest is `expected`;
    /// any other body gives `HashMismatch`.
    pub fn verify_body(body: &[u8], expected: &str) -> (r: Result<(), RavenError>)
        ensures
            r is Ok <==> body_matches(body@, expected@),
            r matches Err(e) ==> e@ == hash_mismatch(),
    {
        let calculated = digest_text(body);
        if !same_text(calculated.as_str(), expected) {
            return Err(RavenError::HashMismatch);
        }
        Ok(())
    }

    /// Judges one download attempt by the status code of the answer and the
    /// bytes of its body. The attempt is good if and only if the status
    /// reports success and the lowercase hexadecimal SHA-256 digest of the
    /// body is `expected`.
    pub fn check_response(status: u16, body: &[u8], expected: &str) -> (r: Result<(), RavenError>)
        ensures
            unit_result_view(r) == response_outcome(status, body@, expected@),
    {
        if status < 200 || status >= 300 {
            return Err(
                RavenError::NetworkError("server did not answer with success".to_owned()),
            );
        }
        Self::verify_body(body, expected)
    }

    /// The stage that follows `stage`, given how `stage` ended.
    pub fn next_stage(stage: BuildStage, outcome: Result<(), RavenError>) -> (r: BuildStage)
        ensures
            r@ == stage_after(stage@, unit_result_view(outcome)),
    {
        match stage {
            BuildStage::Done => BuildStage::Done,
            BuildStage::Failed(e) => BuildStage::Failed(e),
            BuildStage::Prepare => match outcome {
                Err(e) => BuildStage::Failed(e),
                Ok(_) => BuildStage::Fetch,
            },
            BuildStage::Fetch => match outcome {
                Err(e) => BuildStage::Failed(e),
                Ok(_) => BuildStage::Unpack,
            },
            BuildStage::Unpack => match outcome {
                Err(e) => BuildStage::Failed(e),
                Ok(_) => BuildStage::Run,
            },
            BuildStage::Run => match outcome {
                Err(e) => BuildStage::Failed(e),
                Ok(_) => BuildStage::Done,
            },
        }
    }

    /// Decides what follows attempt number `attempt` (from 1) of a
    /// download.
    pub fn after_attempt(attempt: u64, outcome: Result<(), RavenError>) -> (r: RetryStep)
        ensures
            r@ == retry_step(attempt, unit_result_view(outcome)),
    {
        match outcome {
            Ok(_) => RetryStep::Done,
            Err(e) => {
                if attempt >= MAX_ATTEMPTS {
                    RetryStep::Fail(e)
                } else {
                    RetryStep::Wait(attempt)
                }
            },
        }
    }
}

} // verus!
