use aurora_core::updates::{
    current, download_file_name, download_step, is_download_artifact, refusal, AssetKind, Download,
    DownloadStatus, DownloadStep,
    CURRENT,
};
use aurora_core::version::Version;
use std::path::PathBuf;

const APPLY_BREADCRUMB: &str = "last-apply.txt";

fn ready(path: Option<PathBuf>) -> Download {
    Download {
        status: DownloadStatus::Ready,
        version: Some("0.2.0".into()),
        received_bytes: 10,
        total_bytes: Some(10),
        message: None,
        path,
    }
}

#[test]
fn the_built_version_is_a_version() {
    assert!(
        Version::parse(CURRENT).is_some(),
        "workspace version {CURRENT:?} is not major.minor.patch"
    );
    assert_eq!(current(), Version::parse(CURRENT).unwrap());
}

#[test]
fn nothing_installs_until_something_verified_is_on_disk() {
    let nothing = Download::default();
    assert!(refusal(&nothing, false, true, 0)
        .unwrap()
        .contains("no verified update"));
    let gone = refusal(&ready(Some(PathBuf::from("s.exe"))), false, true, 0).unwrap();
    assert!(gone.contains("no longer there"), "{gone}");
}

#[test]
fn being_portable_is_no_longer_a_reason_to_refuse() {
    let ready = ready(Some(PathBuf::from("s.exe")));
    assert_eq!(
        refusal(&ready, true, true, 0),
        None,
        "a verified download with nothing recording must install"
    );
}

#[test]
fn a_recording_in_progress_postpones_the_install_and_says_so_in_english() {
    let one = refusal(&ready(Some(PathBuf::from("s.exe"))), true, true, 1).unwrap();
    assert!(one.contains("1 recording is in progress"), "{one}");
    assert!(one.contains("it has finished"), "{one}");

    let several = refusal(&ready(Some(PathBuf::from("s.exe"))), true, true, 3).unwrap();
    assert!(
        several.contains("3 recordings are in progress"),
        "{several}"
    );
    assert!(several.contains("they have finished"), "{several}");
}

#[test]
fn a_verified_download_on_a_quiet_installed_copy_goes_ahead() {
    assert_eq!(
        refusal(&ready(Some(PathBuf::from("s.exe"))), true, true, 0),
        None
    );
}

#[test]
fn a_platform_that_cannot_update_itself_says_so_rather_than_failing_late() {
    let msg = refusal(&ready(Some(PathBuf::from("s.exe"))), true, false, 0).unwrap();
    assert!(msg.contains("only update itself on Windows"), "{msg}");
    // Notably *not* the old message, which told a portable copy to go to a browser.
    assert!(!msg.contains("release page"), "{msg}");
}

#[test]
fn only_this_code_s_own_downloads_are_cleaned_up() {
    for ours in [
        "Aurora-TV-0.9.0-portable.zip",
        "Aurora-TV-0.9.0-x64-setup.exe",
        "aurora-tv-0.9.0-portable.zip",
        "Aurora-TV-0.9.0-portable.part",
        "anything.part",
    ] {
        assert!(is_download_artifact(ours), "{ours} should be cleaned up");
    }
    for theirs in [
        APPLY_BREADCRUMB,
        "staged",
        "previous",
        "aurora.log",
        "library.db",
        "notes.txt",
    ] {
        assert!(
            !is_download_artifact(theirs),
            "{theirs} is not this code's to delete"
        );
    }
}

#[test]
fn downloads_are_named_from_the_version_and_tidied_by_the_same_rule() {
    let installer = download_file_name(AssetKind::Installer, "0.9.0");
    let portable = download_file_name(AssetKind::Portable, "0.9.0");
    assert_eq!(installer, "Aurora-TV-0.9.0-x64-setup.exe");
    assert_eq!(portable, "Aurora-TV-0.9.0-portable.zip");
    assert!(is_download_artifact(&installer));
    assert!(is_download_artifact(&portable));
}

#[test]
fn a_download_request_is_decided_before_anything_is_fetched() {
    let running = Download { status: DownloadStatus::Downloading, ..Default::default() };
    assert_eq!(download_step(&running, true, Some("0.2.0"), false, AssetKind::Installer, true), DownloadStep::KeepCurrent);

    let idle = Download::default();
    assert_eq!(
        download_step(&idle, false, Some("0.2.0"), false, AssetKind::Installer, true),
        DownloadStep::Refuse("There is no newer build to download".to_string())
    );
    assert_eq!(
        download_step(&idle, true, None, false, AssetKind::Installer, true),
        DownloadStep::Refuse("There is no newer build to download".to_string())
    );

    let ready = Download { status: DownloadStatus::Ready, version: Some("0.2.0".to_string()), ..Default::default() };
    assert_eq!(download_step(&ready, true, Some("0.2.0"), true, AssetKind::Installer, true), DownloadStep::KeepCurrent);
    // The file went missing, or a newer build appeared: fetch again.
    assert_eq!(
        download_step(&ready, true, Some("0.2.0"), false, AssetKind::Installer, true),
        DownloadStep::Start { file_name: "Aurora-TV-0.2.0-x64-setup.exe".to_string() }
    );
    assert_eq!(
        download_step(&ready, true, Some("0.3.0"), true, AssetKind::Portable, true),
        DownloadStep::Start { file_name: "Aurora-TV-0.3.0-portable.zip".to_string() }
    );

    assert_eq!(
        download_step(&idle, true, Some("0.2.0"), false, AssetKind::Installer, false),
        DownloadStep::Refuse("This release does not publish a Windows installer".to_string())
    );
    assert_eq!(
        download_step(&idle, true, Some("0.2.0"), false, AssetKind::Portable, false),
        DownloadStep::Refuse(
            "This release does not publish a portable build, so this copy cannot update itself from it".to_string()
        )
    );
}
