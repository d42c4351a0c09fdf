use aube::checksum::{parse_published_sha256, verify_digest};
use aube::mise::{
    failure_reason, install_tool_via_mise, install_via_mise, mise_on_path, tool_spec,
    MiseInstallFailed,
};
use aube::progress::{DownloadProgress, InstallPhase, NoopProgress};
use aube::self_download::{checksum_event, step, Event, Outcome, Phase};
use aube::self_install::{
    after_mise, delegate_to_mise, download_names, find_installed_aube, install_aube,
    latest_aube_version, list_installed_aube, no_mise_error, release_base, release_target_triple,
    scan_aube_dir, self_dir, validate_aube_install, version_url, InstallFacts, InstallOrigin,
    InstallStep, InstalledAube, InstallerMode, PlatformError, VersionDir,
};
use aube::semver::Version;

fn complete() -> InstallFacts {
    InstallFacts {
        incomplete: false,
        exe_at_root: true,
        exe_in_bin: false,
    }
}

fn dir(name: &str, facts: InstallFacts) -> VersionDir {
    VersionDir {
        name: Some(name.to_string()),
        is_dir: true,
        facts,
    }
}

#[test]
fn scans_and_validates_aube_installs() {
    let entries = vec![
        dir("1.17.0", complete()),
        dir("1.18.2", complete()),
        dir(
            "1.19.0",
            InstallFacts {
                incomplete: true,
                ..complete()
            },
        ),
        dir(
            "not-a-version",
            InstallFacts {
                exe_at_root: false,
                ..complete()
            },
        ),
    ];
    let mut versions: Vec<String> = scan_aube_dir("/mise/aube", "aube", &entries, InstallOrigin::Mise)
        .into_iter()
        .map(|i| i.version.to_text())
        .collect();
    versions.sort();
    assert_eq!(versions, vec!["1.17.0", "1.18.2"]);
}

#[test]
fn validate_accepts_bin_subdir_layout() {
    let version = Version {
        major: 2,
        minor: 0,
        patch: 0,
        pre_release: Vec::new(),
        build: Vec::new(),
    };
    let facts = InstallFacts {
        incomplete: false,
        exe_at_root: false,
        exe_in_bin: true,
    };
    let install =
        validate_aube_install("/tmp/2.0.0", "aube", version, InstallOrigin::Aube, facts).unwrap();
    assert_eq!(install.exe, "/tmp/2.0.0/bin/aube");
}

#[test]
fn target_triple_is_publishable() {
    for os in ["macos", "linux", "windows"] {
        for arch in ["x86_64", "aarch64"] {
            match release_target_triple(os, arch, Some(None)) {
                Ok(t) => {
                    assert!(
                        t.contains("apple-darwin")
                            || t.contains("unknown-linux")
                            || t.contains("pc-windows"),
                        "{t}"
                    );
                }
                Err(PlatformError::Unsupported(_)) => {
                    assert_eq!(os, "macos");
                    assert_eq!(arch, "x86_64");
                }
                Err(other) => panic!("unexpected error: {other:?}"),
            }
        }
    }
}

fn plain(major: u64, minor: u64, patch: u64) -> Version {
    Version {
        major,
        minor,
        patch,
        pre_release: Vec::new(),
        build: Vec::new(),
    }
}

fn install(v: Version, origin: InstallOrigin) -> InstalledAube {
    InstalledAube {
        version: v,
        install_dir: "/d".to_string(),
        exe: "/d/aube".to_string(),
        origin,
    }
}

fn owned(s: &str) -> Option<String> {
    Some(s.to_string())
}

#[test]
fn links_and_odd_names_are_skipped() {
    let entries = vec![
        VersionDir {
            name: owned("latest"),
            is_dir: true,
            facts: complete(),
        },
        VersionDir {
            name: owned("1.0.0"),
            is_dir: false,
            facts: complete(),
        },
        VersionDir {
            name: None,
            is_dir: true,
            facts: complete(),
        },
        dir("v1.2.3", complete()),
        dir(
            "1.2.4",
            InstallFacts {
                exe_at_root: false,
                ..complete()
            },
        ),
    ];
    let found = scan_aube_dir("/root", "aube", &entries, InstallOrigin::Aube);
    assert_eq!(found.len(), 1);
    assert_eq!(found[0].version.to_text(), "1.2.3");
    assert_eq!(found[0].install_dir, "/root/v1.2.3");
    assert_eq!(found[0].exe, "/root/v1.2.3/aube");
    assert_eq!(found[0].origin, InstallOrigin::Aube);
}

#[test]
fn own_installs_shadow_mises() {
    let listed = list_installed_aube(
        vec![
            install(plain(2, 0, 0), InstallOrigin::Mise),
            install(plain(1, 0, 0), InstallOrigin::Mise),
        ],
        vec![
            install(plain(1, 0, 0), InstallOrigin::Aube),
            install(plain(1, 5, 0), InstallOrigin::Aube),
        ],
    );
    let seen: Vec<(String, InstallOrigin)> = listed
        .iter()
        .map(|i| (i.version.to_text(), i.origin))
        .collect();
    assert_eq!(
        seen,
        vec![
            ("1.0.0".to_string(), InstallOrigin::Aube),
            ("1.5.0".to_string(), InstallOrigin::Aube),
            ("2.0.0".to_string(), InstallOrigin::Mise),
        ]
    );
    let found = find_installed_aube(
        Some(install(plain(1, 0, 0), InstallOrigin::Aube)),
        Some(install(plain(1, 0, 0), InstallOrigin::Mise)),
    );
    assert_eq!(found.unwrap().origin, InstallOrigin::Aube);
    let found = find_installed_aube(None, Some(install(plain(1, 0, 0), InstallOrigin::Mise)));
    assert_eq!(found.unwrap().origin, InstallOrigin::Mise);
    assert!(find_installed_aube(None, None).is_none());
}

#[test]
fn the_own_directory_follows_the_environment() {
    assert_eq!(
        self_dir(owned("/set"), None, owned("/data"), owned("/home/me")),
        owned("/set")
    );
    assert_eq!(
        self_dir(None, None, owned("/data"), owned("/home/me")),
        owned("/data/aube/self")
    );
    assert_eq!(
        self_dir(None, None, None, owned("/home/me")),
        owned("/home/me/.local/share/aube/self")
    );
    assert_eq!(self_dir(None, owned("/local"), None, None), owned("/local/aube/self"));
    assert_eq!(self_dir(None, None, None, None), None);
}

#[test]
fn triples_by_host() {
    let t = |os: &str, arch: &str, libc: Option<Option<String>>| release_target_triple(os, arch, libc);
    assert_eq!(t("linux", "x86_64", Some(owned("musl"))).unwrap(), "x86_64-unknown-linux-musl");
    assert_eq!(t("linux", "aarch64", Some(owned("glibc"))).unwrap(), "aarch64-unknown-linux-gnu");
    assert_eq!(t("macos", "aarch64", None).unwrap(), "aarch64-apple-darwin");
    assert_eq!(t("windows", "x86_64", None).unwrap(), "x86_64-pc-windows-msvc");
    assert!(matches!(t("linux", "x86_64", None), Err(PlatformError::Unknown)));
    assert!(
        matches!(t("linux", "riscv64", None), Err(PlatformError::Unsupported(p)) if p == "linux-riscv64")
    );
    assert!(
        matches!(t("freebsd", "x86_64", None), Err(PlatformError::Unsupported(p)) if p == "freebsd-x86_64")
    );
    assert!(
        matches!(t("macos", "x86_64", None), Err(PlatformError::Unsupported(p)) if p == "macos-x86_64 (no published aube build; install via mise)")
    );
}

#[test]
fn places_of_releases_can_be_set() {
    assert_eq!(release_base(owned("https://mirror.example//")), "https://mirror.example");
    assert_eq!(release_base(owned("  ")), release_base(None));
    assert!(release_base(None).starts_with("https://"));
    assert_eq!(version_url(owned("https://v.example/")), "https://v.example/");
    assert_eq!(version_url(owned("")), version_url(None));
}

#[test]
fn announcements_are_versions() {
    assert_eq!(latest_aube_version(" v1.18.2\n").unwrap().to_text(), "1.18.2");
    assert_eq!(latest_aube_version("2.0.0-rc.1").unwrap().to_text(), "2.0.0-rc.1");
    assert!(latest_aube_version("<html>").is_none());
}

#[test]
fn download_names_of_a_version() {
    let n = download_names("/self", "https://h/download", "1.2.3", "x86_64-pc-windows-msvc", true, 42);
    assert_eq!(n.archive_name, "aube-v1.2.3-x86_64-pc-windows-msvc.zip");
    let n = download_names("/self", "https://h/download", "1.2.3", "t", false, 42);
    assert_eq!(n.archive_name, "aube-v1.2.3-t.tar.gz");
    assert_eq!(n.url, "https://h/download/v1.2.3/aube-v1.2.3-t.tar.gz");
    assert_eq!(n.checksum_url, "https://h/download/v1.2.3/aube-v1.2.3-t.tar.gz.sha256");
    assert_eq!(n.dest, "/self/1.2.3");
    assert_eq!(n.lock_path, "/self/.locks/1.2.3.lock");
    assert_eq!(n.archive_path, "/self/.downloads/aube-v1.2.3-t.tar.gz.42");
    assert_eq!(n.staging, "/self/.tmp/1.2.3.42");
}

#[test]
fn who_installs() {
    assert_eq!(install_aube(true, InstallerMode::Mise, false), InstallStep::UseExisting);
    assert_eq!(install_aube(false, InstallerMode::Aube, true), InstallStep::Download);
    assert_eq!(install_aube(false, InstallerMode::Mise, true), InstallStep::AskMise);
    assert_eq!(install_aube(false, InstallerMode::Mise, false), InstallStep::NoMise);
    assert_eq!(install_aube(false, InstallerMode::Auto, true), InstallStep::AskMise);
    assert_eq!(install_aube(false, InstallerMode::Auto, false), InstallStep::Download);
    assert_eq!(after_mise(InstallerMode::Auto, false), InstallStep::Download);
    assert_eq!(after_mise(InstallerMode::Mise, false), InstallStep::MiseFailed);
    assert_eq!(after_mise(InstallerMode::Mise, true), InstallStep::UseMise);
    let e = no_mise_error("1.0.0");
    assert_eq!(e.version, "aube@1.0.0");
    assert_eq!(e.reason, "runtimeInstaller=mise but mise is not on PATH");
}

#[test]
fn mise_must_leave_an_install() {
    let e = delegate_to_mise("1.0.0", Ok(()), None).unwrap_err();
    assert_eq!(e.version, "aube@1.0.0");
    assert!(e.reason.starts_with("mise reported success but the install was not found"));
    assert!(delegate_to_mise("1.0.0", Ok(()), Some(install(plain(1, 0, 0), InstallOrigin::Mise))).is_ok());
    let failed = MiseInstallFailed {
        version: "aube@1.0.0".to_string(),
        reason: "r".to_string(),
    };
    assert_eq!(delegate_to_mise("1.0.0", Err(failed), None).unwrap_err().reason, "r");
    assert_eq!(install_via_mise("22.0.0", Some(7), "/m").unwrap(), 7);
    let e = install_via_mise::<u8>("22.0.0", None, "/m").unwrap_err();
    assert_eq!(e.version, "node@22.0.0");
    assert_eq!(
        e.reason,
        "mise reported success but node@22.0.0 was not found under /m — if mise uses a custom data dir, export MISE_DATA_DIR so aube sees the same path"
    );
}

#[test]
fn failures_of_mise_carry_the_tail_of_its_output() {
    assert!(install_tool_via_mise("aube", "1.0.0", true, Some(0), "noise").is_ok());
    let e = install_tool_via_mise("aube", "1.0.0", false, Some(2), "boom\n").unwrap_err();
    assert_eq!((e.version.as_str(), e.reason.as_str()), ("aube@1.0.0", "exit status 2\nboom"));
    assert_eq!(failure_reason(None, ""), "exit status -1");
    assert_eq!(failure_reason(Some(i32::MIN), ""), "exit status -2147483648");
    let long: String = (0..30).map(|i| format!("line {i}\n")).collect();
    let reason = failure_reason(Some(1), &long);
    assert_eq!(reason.lines().count(), 21);
    assert_eq!(reason.lines().nth(1), Some("line 10"));
    assert_eq!(reason.lines().last(), Some("line 29"));
    assert_eq!(tool_spec("node", "1"), "node@1");
}

#[test]
fn mise_is_looked_for_once() {
    let mut memo = None;
    assert_eq!(mise_on_path(&mut memo, owned("/bin/mise")), owned("/bin/mise"));
    assert_eq!(mise_on_path(&mut memo, None), owned("/bin/mise"));
    let mut memo = None;
    assert_eq!(mise_on_path(&mut memo, None), None);
    assert_eq!(mise_on_path(&mut memo, owned("/bin/mise")), None);
}

#[test]
fn published_digests_are_read() {
    let hex: String = (0..32).map(|i| format!("{i:02x}")).collect();
    let digest: Vec<u8> = (0..32).collect();
    assert_eq!(parse_published_sha256(&format!("{hex} *aube.tar.gz\n")), Some(digest.clone()));
    assert_eq!(parse_published_sha256(&format!("  {}", hex.to_uppercase())), Some(digest.clone()));
    assert_eq!(parse_published_sha256(""), None);
    assert_eq!(parse_published_sha256("abc"), None);
    assert_eq!(parse_published_sha256(&hex[2..]), None);
    assert_eq!(parse_published_sha256(&format!("zz{}", &hex[2..])), None);
    assert!(verify_digest("u", &Some(digest.clone()), &digest).is_ok());
    assert!(verify_digest("u", &None, &digest).is_ok());
    let m = verify_digest("u", &Some(digest), &vec![0xab, 0x0c]).unwrap_err();
    assert_eq!((m.url.as_str(), m.expected.as_str(), m.actual.as_str()), ("u", hex.as_str(), "ab0c"));
    assert_eq!(checksum_event("u", &None, &vec![1]).0, Event::ChecksumAccepted);
    let (event, mismatch) = checksum_event("u", &Some(vec![2]), &vec![1]);
    assert_eq!(event, Event::ChecksumRejected);
    assert_eq!(mismatch.unwrap().expected, "02");
}

#[test]
fn a_download_that_works() {
    let mut phase = Phase::Lock;
    let mut removed_archive = false;
    for event in [
        Event::Succeeded,
        Event::Absent,
        Event::Succeeded,
        Event::ChecksumAccepted,
        Event::Succeeded,
        Event::Succeeded,
        Event::Present,
    ] {
        let s = step(phase, event);
        removed_archive = removed_archive || s.remove_archive;
        assert!(!s.remove_staging);
        phase = s.phase;
    }
    assert_eq!(phase, Phase::Done(Outcome::Installed));
    assert!(removed_archive);
}

#[test]
fn downloads_that_do_not() {
    assert_eq!(step(Phase::Lock, Event::Failed).phase, Phase::Done(Outcome::LockFailed));
    assert_eq!(step(Phase::CheckDest, Event::Present).phase, Phase::Done(Outcome::Existing));
    assert_eq!(
        step(Phase::CheckDest, Event::AbsentUnsupported).phase,
        Phase::Done(Outcome::Unsupported)
    );
    assert_eq!(step(Phase::Download, Event::Failed).phase, Phase::Done(Outcome::DownloadFailed));
    let s = step(Phase::FetchChecksum, Event::ChecksumRejected);
    assert_eq!((s.phase, s.remove_archive), (Phase::Done(Outcome::ChecksumMismatch), true));
    let s = step(Phase::Extract, Event::Failed);
    assert_eq!(
        (s.phase, s.remove_archive, s.remove_staging),
        (Phase::Done(Outcome::ExtractFailed), true, true)
    );
    assert_eq!(step(Phase::Extract, Event::Aborted).phase, Phase::Done(Outcome::Aborted));
    let s = step(Phase::Publish, Event::Failed);
    assert_eq!((s.phase, s.remove_staging), (Phase::CheckAfterFailedPublish, true));
    assert_eq!(
        step(Phase::CheckAfterFailedPublish, Event::Present).phase,
        Phase::CheckPublished
    );
    assert_eq!(
        step(Phase::CheckAfterFailedPublish, Event::Absent).phase,
        Phase::Done(Outcome::PublishFailed)
    );
    assert_eq!(step(Phase::CheckPublished, Event::Absent).phase, Phase::Done(Outcome::NotUsable));
}

#[test]
fn progress_can_be_ignored() {
    let p = NoopProgress;
    p.on_phase("1.0.0", InstallPhase::Downloading);
    p.on_download_start(Some(10));
    p.on_download_chunk(10);
    p.on_done();
}
