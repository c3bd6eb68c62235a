use raven::builder::{digest_text, hex_encode, BuildStage, Builder, RetryStep, MAX_ATTEMPTS};
use raven::error::{ErrorKind, RavenError};
use raven::recipe::{HashSum, PackageName, Recipe};

const HELLO: &str = "b94d27b9934d3e08a52e52d7da7dabfac484efe37a5380ee9088f7ace2efcde9";
const EMPTY: &str = "e3b0c44298fc1c149afbf4c8996fb92427ae41e4649b934ca495991b7852b855";

fn recipe(arch: Option<&str>) -> Recipe {
    Recipe {
        name: PackageName("zlib".to_string()),
        version: "1.3.1".to_string(),
        description: "Compression library".to_string(),
        target_arch: arch.map(|a| a.to_string()),
        dependencies: vec!["libc >=2.30".to_string()],
        source_url: "https://example.org/zlib.tar.gz".to_string(),
        sha256_sum: HashSum(HELLO.to_string()),
        build_commands: vec!["./configure --prefix=/usr".to_string(), "make -j$(nproc)".to_string()],
        install_commands: vec!["make install".to_string()],
    }
}

#[test]
fn hex_is_two_lowercase_digits_per_byte() {
    assert_eq!(hex_encode(&[]), "");
    assert_eq!(hex_encode(&[0x00, 0x0f, 0x10, 0xab, 0xff]), "000f10abff");
    assert_eq!(hex_encode(b"Hello world!"), "48656c6c6f20776f726c6421");
    let all: Vec<u8> = (0u8..=255).collect();
    assert_eq!(hex_encode(&all), hex::encode(&all));
}

#[test]
fn digest_is_lowercase_hex_sha256() {
    assert_eq!(digest_text(b"hello world"), HELLO);
    assert_eq!(digest_text(b""), EMPTY);
    assert_eq!(digest_text(&[0u8, 255u8]).len(), 64);
}

#[test]
fn body_is_accepted_only_with_its_digest() {
    assert!(Builder::verify_body(b"hello world", HELLO).is_ok());
    let err = Builder::verify_body(b"hello world!", HELLO).unwrap_err();
    assert!(matches!(err, RavenError::HashMismatch));
    let err = Builder::verify_body(b"hello world", &HELLO.to_uppercase()).unwrap_err();
    assert!(matches!(err, RavenError::HashMismatch));
    let err = Builder::verify_body(b"hello world", EMPTY).unwrap_err();
    assert_eq!(
        err.message(),
        "Checksum verification failed (Files may be corrupted or tampered)"
    );
}

#[test]
fn response_needs_success_status() {
    assert!(Builder::check_response(200, b"hello world", HELLO).is_ok());
    assert!(Builder::check_response(204, b"", EMPTY).is_ok());
    assert!(Builder::check_response(299, b"hello world", HELLO).is_ok());
    for status in [199u16, 300, 301, 404, 500] {
        let err = Builder::check_response(status, b"hello world", HELLO).unwrap_err();
        assert_eq!(err.kind(), ErrorKind::Network);
        assert_eq!(err.message(), "Network connection failed");
    }
    let err = Builder::check_response(200, b"other bytes", HELLO).unwrap_err();
    assert_eq!(err.kind(), ErrorKind::HashMismatch);
}

fn run(outcomes: Vec<Result<(), RavenError>>) -> (Result<(), RavenError>, Vec<u64>, u64) {
    let mut waits = Vec::new();
    let mut attempt = 0u64;
    for outcome in outcomes {
        attempt += 1;
        match Builder::after_attempt(attempt, outcome) {
            RetryStep::Done => return (Ok(()), waits, attempt),
            RetryStep::Fail(e) => return (Err(e), waits, attempt),
            RetryStep::Wait(seconds) => waits.push(seconds),
        }
    }
    panic!("the source ran out of outcomes");
}

fn net(n: u32) -> RavenError {
    RavenError::NetworkError(format!("failure {}", n))
}

#[test]
fn download_succeeds_after_fewer_than_three_failures() {
    let (r, waits, attempts) = run(vec![Ok(())]);
    assert!(r.is_ok());
    assert!(waits.is_empty());
    assert_eq!(attempts, 1);
    let (r, waits, attempts) = run(vec![Err(net(1)), Ok(())]);
    assert!(r.is_ok());
    assert_eq!(waits, vec![1]);
    assert_eq!(attempts, 2);
    let (r, waits, attempts) = run(vec![Err(net(1)), Err(net(2)), Ok(())]);
    assert!(r.is_ok());
    assert_eq!(waits, vec![1, 2]);
    assert_eq!(attempts, 3);
}

#[test]
fn download_fails_after_three_failures_with_the_last_error() {
    let (r, waits, attempts) = run(vec![Err(net(1)), Err(net(2)), Err(net(3)), Ok(())]);
    assert_eq!(waits, vec![1, 2]);
    assert_eq!(attempts, 3);
    match r {
        Err(RavenError::NetworkError(d)) => assert_eq!(d, "failure 3"),
        other => panic!("unexpected {:?}", other),
    }
    assert_eq!(MAX_ATTEMPTS, 3);
}

#[test]
fn hash_mismatch_fails_after_three_attempts() {
    let served = b"tampered bytes";
    let mut outcomes = Vec::new();
    for _ in 0..5 {
        outcomes.push(Builder::check_response(200, served, HELLO));
    }
    let (r, waits, attempts) = run(outcomes);
    assert!(matches!(r, Err(RavenError::HashMismatch)));
    assert_eq!(attempts, 3);
    assert_eq!(waits, vec![1, 2]);
    let tm = raven::transaction::TransactionManager::new("/stage".to_string());
    assert!(tm.list_installed().is_empty());
}

#[test]
fn progress_total_defaults_to_zero() {
    assert_eq!(Builder::progress_total(Some(1234)), 1234);
    assert_eq!(Builder::progress_total(None), 0);
}

#[test]
fn user_agent_is_fixed() {
    assert_eq!(Builder::user_agent(), "RavenPackageManager/1.0 (MissionCritical)");
}

#[test]
fn native_build_plan() {
    let b = Builder::new("/tmp/raven_build".to_string());
    let plan = b.build(&recipe(None), "x86_64");
    assert_eq!(plan.pkg_dir, "/tmp/raven_build/zlib-build");
    assert_eq!(plan.src_dir, "/tmp/raven_build/zlib-build/src");
    assert_eq!(plan.out_dir, "/tmp/raven_build/zlib-build/out");
    assert_eq!(
        plan.system_dirs,
        vec![
            "/tmp/raven_build/zlib-build/proc",
            "/tmp/raven_build/zlib-build/dev",
            "/tmp/raven_build/zlib-build/bin",
            "/tmp/raven_build/zlib-build/usr",
            "/tmp/raven_build/zlib-build/lib",
            "/tmp/raven_build/zlib-build/lib64",
            "/tmp/raven_build/zlib-build/etc",
            "/tmp/raven_build/zlib-build/tmp",
        ]
    );
    assert!(!plan.needs_qemu);
    assert_eq!(plan.qemu_source, "/usr/bin/qemu-aarch64-static");
    assert_eq!(plan.qemu_dest, "/tmp/raven_build/zlib-build/usr/bin/qemu-aarch64-static");
    assert_eq!(plan.tarball, "/tmp/raven_build/zlib-build/source.tar");
    assert_eq!(plan.log_path, "/tmp/raven_build/zlib-build/build.log");
    assert_eq!(
        plan.script,
        "\nexport DESTDIR=/out\ncd /src\nDIR=$(ls -d */ | head -n 1)\nif [ -n \"$DIR\" ]; then cd \"$DIR\"; fi\n./configure --prefix=/usr\nmake -j$(nproc)\nmake install"
    );
}

#[test]
fn same_architecture_needs_no_emulator() {
    let b = Builder::new("/work/".to_string());
    let plan = b.build(&recipe(Some("aarch64")), "aarch64");
    assert!(!plan.needs_qemu);
    assert_eq!(plan.pkg_dir, "/work/zlib-build");
    assert!(plan.script.starts_with("\nexport DESTDIR=/out\n"));
}

#[test]
fn cross_build_plan_starts_with_the_cross_environment() {
    let b = Builder::new("/tmp/raven_build".to_string());
    let plan = b.build(&recipe(Some("aarch64")), "x86_64");
    assert!(plan.needs_qemu);
    assert_eq!(
        plan.script,
        "export CC=aarch64-linux-gnu-gcc\nexport CXX=aarch64-linux-gnu-g++\nexport CROSS_COMPILE=aarch64-linux-gnu-\n\nexport DESTDIR=/out\ncd /src\nDIR=$(ls -d */ | head -n 1)\nif [ -n \"$DIR\" ]; then cd \"$DIR\"; fi\n./configure --prefix=/usr\nmake -j$(nproc)\nmake install"
    );
}

#[test]
fn script_without_commands() {
    let b = Builder::new("/w".to_string());
    let mut r = recipe(None);
    r.build_commands.clear();
    r.install_commands.clear();
    let plan = b.build(&r, "x86_64");
    assert_eq!(
        plan.script,
        "\nexport DESTDIR=/out\ncd /src\nDIR=$(ls -d */ | head -n 1)\nif [ -n \"$DIR\" ]; then cd \"$DIR\"; fi\n\n"
    );
}

fn stages(fail_at: Option<usize>) -> Vec<String> {
    let mut seen = Vec::new();
    let mut stage = BuildStage::Prepare;
    let mut call = 0usize;
    loop {
        seen.push(format!("{:?}", stage));
        if matches!(stage, BuildStage::Done | BuildStage::Failed(_)) {
            return seen;
        }
        let outcome = if fail_at == Some(call) { Err(RavenError::HashMismatch) } else { Ok(()) };
        call += 1;
        stage = Builder::next_stage(stage, outcome);
    }
}

#[test]
fn build_goes_through_its_stages() {
    assert_eq!(stages(None), vec!["Prepare", "Fetch", "Unpack", "Run", "Done"]);
}

#[test]
fn failed_download_ends_the_build() {
    assert_eq!(stages(Some(1)), vec!["Prepare", "Fetch", "Failed(HashMismatch)"]);
    assert_eq!(stages(Some(0)), vec!["Prepare", "Failed(HashMismatch)"]);
    assert_eq!(stages(Some(3)), vec!["Prepare", "Fetch", "Unpack", "Run", "Failed(HashMismatch)"]);
}
