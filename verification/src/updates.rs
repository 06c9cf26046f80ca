//! Self-update decisions: which version this build is, whether a downloaded update may
//! install now, and which files in the download folder are this code's to tidy away.

use vstd::prelude::*;
use std::path::PathBuf;
use crate::text::{append_str, chars_of, ends_with, lower_all, owned, push_decimal, starts_with, string_of, decimal, has_prefix, has_suffix, ascii_lower, str_eq};
use crate::version::{spec_parse, Version};

verus! {

broadcast use vstd::string::group_string_axioms;

#[verifier::external_type_specification]
#[verifier::external_body]
pub struct ExPathBuf(PathBuf);

/// The version of this build.
pub const CURRENT: &'static str = "0.1.0";

/// The version this build reports: its own, or 0.0.0 if that cannot be read, so that a
/// version this cannot read is a reason to offer every update rather than to refuse to
/// start.
pub fn current() -> (r: Version)
    ensures
        r == match spec_parse(CURRENT@) {
            Some(v) => v,
            None => Version { major: 0, minor: 0, patch: 0 },
        },
{
    match Version::parse(CURRENT) {
        Some(v) => v,
        None => Version::new(0, 0, 0),
    }
}

#[derive(Debug, Clone, Copy, Default, PartialEq, Eq, Structural)]
pub enum DownloadStatus {
    #[default]
    Idle,
    Downloading,
    /// On disk and matching the digest the release published. Ready to run.
    Ready,
    Failed,
}

/// The installer download, as the Updates panel sees it.
#[derive(Debug, Clone, Default, PartialEq, Eq)]
pub struct Download {
    pub status: DownloadStatus,
    /// What is being fetched, or what is waiting to be installed.
    pub version: Option<String>,
    pub received_bytes: u64,
    pub total_bytes: Option<u64>,
    /// Why it failed, in words the viewer can act on.
    pub message: Option<String>,
    /// Where it landed.
    pub path: Option<PathBuf>,
}

/// Why an update may not install now, the reason the viewer can act on first; `None`
/// when it may.
pub open spec fn spec_refusal(status: DownloadStatus, file_present: bool, can_install: bool, recordings: usize) -> Option<Seq<char>> {
    if status != DownloadStatus::Ready {
        Some("There is no verified update downloaded yet"@)
    } else if !file_present {
        Some("The downloaded update is no longer there"@)
    } else if !can_install {
        Some("Aurora can only update itself on Windows. This build is for development."@)
    } else if recordings > 0 {
        Some(
            decimal(recordings as nat) + " recording"@ + (if recordings == 1 { " is"@ } else { "s are"@ })
                + " in progress. The update can install once "@ + (if recordings == 1 { "it has"@ } else { "they have"@ })
                + " finished."@,
        )
    } else {
        None
    }
}

/// Whether the downloaded update may install now: it must be verified and still on
/// disk, this build must be able to replace itself, and nothing may be recording — a
/// recording cannot be redone, the update can wait.
pub fn refusal(download: &Download, file_present: bool, can_install: bool, recordings: usize) -> (r: Option<String>)
    ensures
        match r {
            Some(m) => spec_refusal(download.status, file_present, can_install, recordings) == Some(m@),
            None => spec_refusal(download.status, file_present, can_install, recordings) is None,
        },
{
    if download.status != DownloadStatus::Ready {
        return Some(owned("There is no verified update downloaded yet"));
    }
    if !file_present {
        return Some(owned("The downloaded update is no longer there"));
    }
    if !can_install {
        return Some(owned("Aurora can only update itself on Windows. This build is for development."));
    }
    if recordings > 0 {
        let mut out: Vec<char> = Vec::new();
        push_decimal(&mut out, recordings as u64);
        append_str(&mut out, " recording");
        append_str(&mut out, if recordings == 1 { " is" } else { "s are" });
        append_str(&mut out, " in progress. The update can install once ");
        append_str(&mut out, if recordings == 1 { "it has" } else { "they have" });
        append_str(&mut out, " finished.");
        return Some(string_of(out.as_slice()));
    }
    None
}

/// A file this code's own downloads produce: an installer or portable archive it named
/// (`aurora-tv-….exe`, `aurora-tv-….zip`, in any case), or a partial download.
pub open spec fn spec_is_download_artifact(name: Seq<char>) -> bool {
    let lower = ascii_lower(name);
    ends_with(lower, ".part"@) || (starts_with(lower, "aurora-tv-"@) && (ends_with(lower, ".exe"@)
        || ends_with(lower, ".zip"@)))
}

/// Whether a file in the download folder is one of this code's own downloads, and so
/// safe to delete; the folder also holds the staged update and the rollback copy.
pub fn is_download_artifact(name: &str) -> (r: bool)
    ensures
        r == spec_is_download_artifact(name@),
{
    let lower = lower_all(&chars_of(name));
    has_suffix(&lower, ".part") || (has_prefix(&lower, "aurora-tv-") && (has_suffix(&lower, ".exe")
        || has_suffix(&lower, ".zip")))
}

/// An update installs only when everything allows it: a verified download still on
/// disk, a build that can replace itself, and nothing recording.
pub proof fn lemma_install_needs_everything(
    status: DownloadStatus,
    file_present: bool,
    can_install: bool,
    recordings: usize,
)
    ensures
        spec_refusal(status, file_present, can_install, recordings) is None <==> (status
            == DownloadStatus::Ready && file_present && can_install && recordings == 0),
{
}

/// Which release asset this copy updates from: the installer, or the portable archive.
#[derive(Debug, Clone, Copy, PartialEq, Eq, Structural)]
pub enum AssetKind {
    Installer,
    Portable,
}

/// The file a download of `version` is saved as, named from the version rather than
/// from anything a response said.
pub open spec fn spec_download_file_name(kind: AssetKind, version: Seq<char>) -> Seq<char> {
    match kind {
        AssetKind::Installer => "Aurora-TV-"@ + version + "-x64-setup.exe"@,
        AssetKind::Portable => "Aurora-TV-"@ + version + "-portable.zip"@,
    }
}

pub fn download_file_name(kind: AssetKind, version: &str) -> (r: String)
    ensures
        r@ == spec_download_file_name(kind, version@),
{
    let mut out: Vec<char> = Vec::new();
    append_str(&mut out, "Aurora-TV-");
    append_str(&mut out, version);
    match kind {
        AssetKind::Installer => append_str(&mut out, "-x64-setup.exe"),
        AssetKind::Portable => append_str(&mut out, "-portable.zip"),
    }
    string_of(out.as_slice())
}

/// Every file a download is saved as is one the tidy-up recognises as its own, and
/// so is removed when a newer one replaces it.
pub proof fn lemma_downloads_are_tidied(kind: AssetKind, version: Seq<char>)
    ensures
        spec_is_download_artifact(spec_download_file_name(kind, version)),
{
    reveal_strlit("Aurora-TV-");
    reveal_strlit("aurora-tv-");
    reveal_strlit("-x64-setup.exe");
    reveal_strlit("-portable.zip");
    reveal_strlit(".exe");
    reveal_strlit(".zip");
    let name = spec_download_file_name(kind, version);
    let lower = ascii_lower(name);
    assert(lower.take(10) =~= "aurora-tv-"@);
    match kind {
        AssetKind::Installer => {
            assert(lower.skip(lower.len() - 4) =~= ".exe"@);
        },
        AssetKind::Portable => {
            assert(lower.skip(lower.len() - 4) =~= ".zip"@);
        },
    }
}


/// What a press of "download" comes to, before anything is fetched.
#[derive(Debug, Clone, PartialEq, Eq)]
pub enum DownloadStep {
    /// A download is running, or the newest build is already downloaded and verified:
    /// report the current state again.
    KeepCurrent,
    /// Refuse, with the reason the viewer reads.
    Refuse(String),
    /// Fetch the newest build into the file of this name.
    Start { file_name: String },
}

pub open spec fn no_newer_build() -> Seq<char> {
    "There is no newer build to download"@
}

/// Why a release cannot be downloaded when it lacks the asset this copy needs.
pub open spec fn missing_asset_message(kind: AssetKind) -> Seq<char> {
    match kind {
        AssetKind::Installer => "This release does not publish a Windows installer"@,
        AssetKind::Portable => "This release does not publish a portable build, so this copy cannot update itself from it"@,
    }
}

/// A verified download of version `v` whose file is still on disk: nothing to fetch.
pub open spec fn reuses(current: Download, v: Seq<char>, file_exists: bool) -> bool {
    &&& current.status == DownloadStatus::Ready
    &&& current.version is Some
    &&& current.version->0@ == v
    &&& file_exists
}

/// Decide what a download request does. `current` is the download as it stands;
/// `available` and `latest` are what the last check found (whether a newer build exists,
/// and its version); `file_exists` is whether the current download's file is still on
/// disk; `kind` is the asset this copy installs from, and `has_asset` whether the
/// release publishes it.
///
/// A running download is reported as it is. With no newer build the request is refused.
/// A verified download of that very version whose file is still there is reused. A
/// release without the asset this copy needs is refused, naming the asset. Otherwise the
/// download starts, into a file named from the version.
pub fn download_step(
    current: &Download,
    available: bool,
    latest: Option<&str>,
    file_exists: bool,
    kind: AssetKind,
    has_asset: bool,
) -> (r: DownloadStep)
    ensures
        current.status == DownloadStatus::Downloading ==> r == DownloadStep::KeepCurrent,
        current.status != DownloadStatus::Downloading && (!available || latest is None) ==> (
        r matches DownloadStep::Refuse(m) && m@ == no_newer_build()),
        current.status != DownloadStatus::Downloading && available && latest is Some ==> {
            let v = latest->0@;
            &&& reuses(*current, v, file_exists) ==> r == DownloadStep::KeepCurrent
            &&& !reuses(*current, v, file_exists) && !has_asset ==> (r matches DownloadStep::Refuse(
                m,
            ) && m@ == missing_asset_message(kind))
            &&& !reuses(*current, v, file_exists) && has_asset ==> (r matches DownloadStep::Start {
                file_name,
            } && file_name@ == spec_download_file_name(kind, v))
        },
{
    if current.status == DownloadStatus::Downloading {
        return DownloadStep::KeepCurrent;
    }
    let version = match latest {
        Some(v) => {
            if !available {
                return DownloadStep::Refuse(owned("There is no newer build to download"));
            }
            v
        },
        None => {
            return DownloadStep::Refuse(owned("There is no newer build to download"));
        },
    };
    let same_version = match &current.version {
        Some(cv) => str_eq(&chars_of(cv.as_str()), version),
        None => false,
    };
    if current.status == DownloadStatus::Ready && same_version && file_exists {
        return DownloadStep::KeepCurrent;
    }
    if !has_asset {
        return DownloadStep::Refuse(
            match kind {
                AssetKind::Installer => owned("This release does not publish a Windows installer"),
                AssetKind::Portable => owned(
                    "This release does not publish a portable build, so this copy cannot update itself from it",
                ),
            },
        );
    }
    DownloadStep::Start { file_name: download_file_name(kind, version) }
}

} // verus!
