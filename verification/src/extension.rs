//! How the editor extension finds the language server: on the path, in its cache, or
//! among the releases on GitHub.

use vstd::prelude::*;

use crate::text::same_text;

verus! {

broadcast use {vstd::seq::group_seq_axioms, vstd::string::group_string_axioms};

/// Repository slug used for GitHub release lookups and downloads.
pub const REPOSITORY: &'static str = "0xdea/zed-highlight";

/// Expected name of the language server binary.
pub const BINARY_NAME: &'static str = "zed-highlight-lsp";

/// An operating system.
#[derive(Clone, Copy, Debug, PartialEq, Eq, Structural)]
pub enum Os {
    Mac,
    Linux,
    Windows,
}

/// A processor architecture.
#[derive(Clone, Copy, Debug, PartialEq, Eq, Structural)]
pub enum Architecture {
    Aarch64,
    X86,
    X8664,
}

/// The name of an operating system in asset names.
pub open spec fn os_name(os: Os) -> Seq<char> {
    match os {
        Os::Mac => "darwin"@,
        Os::Linux => "linux"@,
        Os::Windows => "windows"@,
    }
}

/// The name of an architecture in asset names.
pub open spec fn architecture_name(arch: Architecture) -> Seq<char> {
    match arch {
        Architecture::Aarch64 => "aarch64"@,
        Architecture::X8664 => "x86_64"@,
        Architecture::X86 => "x86"@,
    }
}

/// The name of the tarball for an operating system and an architecture:
/// `{BINARY_NAME}-{os}-{arch}.tar.gz`.
pub open spec fn asset_name(os: Os, arch: Architecture) -> Seq<char> {
    BINARY_NAME@ + "-"@ + os_name(os) + "-"@ + architecture_name(arch) + ".tar.gz"@
}

/// The directory for a release: `{BINARY_NAME}-{version}`.
pub open spec fn version_dir(version: Seq<char>) -> Seq<char> {
    BINARY_NAME@ + "-"@ + version
}

/// The file name of the binary, with the extension that Windows needs.
pub open spec fn file_name(os: Os) -> Seq<char> {
    match os {
        Os::Windows => BINARY_NAME@ + ".exe"@,
        Os::Mac | Os::Linux => BINARY_NAME@,
    }
}

/// The path of the binary: its file name in the directory for the release.
pub open spec fn binary_path(version: Seq<char>, os: Os) -> Seq<char> {
    version_dir(version) + "/"@ + file_name(os)
}

/// Helper function to return the tarball asset name for the given OS and architecture.
///
/// Asset names follow the pattern `{BINARY_NAME}-{os}-{arch}.tar.gz` and are
/// matched against GitHub Release asset names during installation.
pub fn platform_asset_name(os: Os, arch: Architecture) -> (r: String)
    ensures
        r@ == asset_name(os, arch),
{
    let os = match os {
        Os::Mac => "darwin",
        Os::Linux => "linux",
        Os::Windows => "windows",
    };
    let arch = match arch {
        Architecture::Aarch64 => "aarch64",
        Architecture::X8664 => "x86_64",
        Architecture::X86 => "x86",  // Not supported by Zed.
    };
    BINARY_NAME.to_owned().concat("-").concat(os).concat("-").concat(arch).concat(".tar.gz")
}

/// Helper function to return the versioned directory name used to cache a specific release on disk.
pub fn version_dir_name(version: &str) -> (r: String)
    ensures
        r@ == version_dir(version@),
{
    BINARY_NAME.to_owned().concat("-").concat(version)
}

/// Helper function to return the executable file name for the given OS.
///
/// On Windows the LSP binary is shipped as `zed-highlight-lsp.exe`; on Unix-like systems it has no extension. The
/// suffix matters because we use this name both to probe the cache and to hand the path back to the editor.
pub fn binary_file_name(os: Os) -> (r: String)
    ensures
        r@ == file_name(os),
{
    match os {
        Os::Windows => BINARY_NAME.to_owned().concat(".exe"),
        Os::Mac | Os::Linux => BINARY_NAME.to_owned(),
    }
}

/// Helper function to return the path to the binary within its versioned directory for the given OS.
pub fn binary_path_in_version(version: &str, os: Os) -> (r: String)
    ensures
        r@ == binary_path(version@, os),
{
    version_dir_name(version).concat("/").concat(binary_file_name(os).as_str())
}

/// A file that is attached to a release.
#[derive(Debug, PartialEq, Eq)]
pub struct Asset {
    pub name: String,
    pub download_url: String,
}

/// A release on GitHub.
#[derive(Debug, PartialEq, Eq)]
pub struct Release {
    pub version: String,
    pub assets: Vec<Asset>,
}

/// What the editor shows about the installation of the language server.
#[derive(Debug, PartialEq, Eq)]
pub enum InstallationStatus<S> {
    /// Nothing is going on.
    Idle,
    CheckingForUpdate,
    Downloading,
    Failed(S),
}

/// How far the search for the language server has come.
#[derive(Debug, PartialEq, Eq)]
pub enum Phase<S> {
    /// Prefer a locally installed binary over downloading, so dev builds work without a release.
    LookUp,
    /// Check whether the binary that was found last is still there.
    ProbeCached { path: S },
    /// Tell the editor that we are checking for an update.
    ReportChecking,
    /// Fetch the latest release.
    Fetch,
    /// Check whether the binary of the release is already there.
    ProbeInstalled { version_dir: S, binary_path: S, url: Option<S> },
    /// Tell the editor that we are downloading the update.
    ReportDownloading { version_dir: S, binary_path: S, url: Option<S> },
    /// Download and extract the archive.
    Download { version_dir: S, binary_path: S, source: S },
    /// Ensure the binary is executable.
    MakeExecutable { version_dir: S, binary_path: S },
    /// Remove any other directories to avoid unbounded disk growth.
    Prune { version_dir: S, binary_path: S },
    /// Reset the installation status.
    ReportSuccess { binary_path: S },
    /// Report failure to the editor so the UI can update accordingly.
    ReportFailure { error: S },
    /// The language server is started from the given path.
    Found { path: S },
    /// There is no language server.
    NotFound { error: S },
}

/// What came of the work that a phase asks for.
#[derive(Debug, PartialEq, Eq)]
pub enum Event {
    /// The path of the binary on the user's path, if it is there.
    LookedUp(Option<String>),
    /// Whether there is a file at the path in question.
    Probed(bool),
    /// The status has been reported.
    Reported,
    /// The latest release, or why there is none.
    Fetched(Result<Release, String>),
    /// The archive has been downloaded and extracted, or why not.
    Downloaded(Result<(), String>),
    /// The binary has been made executable, or why not.
    MadeExecutable(Result<(), String>),
    /// The other directories have been removed as far as possible.
    Pruned,
}

/// The work that a phase asks for.
#[derive(Debug, PartialEq, Eq)]
pub enum Action<S> {
    LookUp { name: S },
    Probe { path: S },
    Report { status: InstallationStatus<S> },
    /// Fetch the latest release of the repository. Skip pre-releases and tag-only releases with no attached binaries.
    Fetch { repository: S, require_assets: bool, pre_release: bool },
    Download { url: S, dir: S },
    MakeExecutable { path: S },
    /// Remove every entry of the working directory but the given one.
    Prune { keep: S },
    /// Start the command, without arguments and without changes to the environment.
    Start { command: S },
    Fail { error: S },
}

/// The text of an optional string.
pub open spec fn option_text(s: Option<String>) -> Option<Seq<char>> {
    match s {
        Some(s) => Some(s@),
        None => None,
    }
}

impl View for Phase<String> {
    type V = Phase<Seq<char>>;

    open spec fn view(&self) -> Phase<Seq<char>> {
        match *self {
            Phase::LookUp => Phase::LookUp,
            Phase::ProbeCached { path } => Phase::ProbeCached { path: path@ },
            Phase::ReportChecking => Phase::ReportChecking,
            Phase::Fetch => Phase::Fetch,
            Phase::ProbeInstalled { version_dir, binary_path, url } => Phase::ProbeInstalled {
                version_dir: version_dir@,
                binary_path: binary_path@,
                url: option_text(url),
            },
            Phase::ReportDownloading { version_dir, binary_path, url } => Phase::ReportDownloading {
                version_dir: version_dir@,
                binary_path: binary_path@,
                url: option_text(url),
            },
            Phase::Download { version_dir, binary_path, source } => Phase::Download {
                version_dir: version_dir@,
                binary_path: binary_path@,
                source: source@,
            },
            Phase::MakeExecutable { version_dir, binary_path } => Phase::MakeExecutable {
                version_dir: version_dir@,
                binary_path: binary_path@,
            },
            Phase::Prune { version_dir, binary_path } => Phase::Prune {
                version_dir: version_dir@,
                binary_path: binary_path@,
            },
            Phase::ReportSuccess { binary_path } => Phase::ReportSuccess {
                binary_path: binary_path@,
            },
            Phase::ReportFailure { error } => Phase::ReportFailure { error: error@ },
            Phase::Found { path } => Phase::Found { path: path@ },
            Phase::NotFound { error } => Phase::NotFound { error: error@ },
        }
    }
}

impl View for InstallationStatus<String> {
    type V = InstallationStatus<Seq<char>>;

    open spec fn view(&self) -> InstallationStatus<Seq<char>> {
        match *self {
            InstallationStatus::Idle => InstallationStatus::Idle,
            InstallationStatus::CheckingForUpdate => InstallationStatus::CheckingForUpdate,
            InstallationStatus::Downloading => InstallationStatus::Downloading,
            InstallationStatus::Failed(error) => InstallationStatus::Failed(error@),
        }
    }
}

impl View for Action<String> {
    type V = Action<Seq<char>>;

    open spec fn view(&self) -> Action<Seq<char>> {
        match *self {
            Action::LookUp { name } => Action::LookUp { name: name@ },
            Action::Probe { path } => Action::Probe { path: path@ },
            Action::Report { status } => Action::Report { status: status@ },
            Action::Fetch { repository, require_assets, pre_release } => Action::Fetch {
                repository: repository@,
                require_assets,
                pre_release,
            },
            Action::Download { url, dir } => Action::Download { url: url@, dir: dir@ },
            Action::MakeExecutable { path } => Action::MakeExecutable { path: path@ },
            Action::Prune { keep } => Action::Prune { keep: keep@ },
            Action::Start { command } => Action::Start { command: command@ },
            Action::Fail { error } => Action::Fail { error: error@ },
        }
    }
}

/// The work that a phase asks for.
pub open spec fn action_of(phase: Phase<Seq<char>>) -> Action<Seq<char>> {
    match phase {
        Phase::LookUp => Action::LookUp { name: BINARY_NAME@ },
        Phase::ProbeCached { path } => Action::Probe { path },
        Phase::ReportChecking => Action::Report { status: InstallationStatus::CheckingForUpdate },
        Phase::Fetch => Action::Fetch {
            repository: REPOSITORY@,
            require_assets: true,
            pre_release: false,
        },
        Phase::ProbeInstalled { version_dir, binary_path, url } => Action::Probe {
            path: binary_path,
        },
        Phase::ReportDownloading { version_dir, binary_path, url } => Action::Report {
            status: InstallationStatus::Downloading,
        },
        Phase::Download { version_dir, binary_path, source } => Action::Download {
            url: source,
            dir: version_dir,
        },
        Phase::MakeExecutable { version_dir, binary_path } => Action::MakeExecutable {
            path: binary_path,
        },
        Phase::Prune { version_dir, binary_path } => Action::Prune { keep: version_dir },
        Phase::ReportSuccess { binary_path } => Action::Report { status: InstallationStatus::Idle },
        Phase::ReportFailure { error } => Action::Report {
            status: InstallationStatus::Failed(error),
        },
        Phase::Found { path } => Action::Start { command: path },
        Phase::NotFound { error } => Action::Fail { error },
    }
}

/// The URL of the first asset with the given name.
pub open spec fn asset_url(assets: Seq<Asset>, name: Seq<char>) -> Option<Seq<char>>
    decreases assets.len(),
{
    if assets.len() == 0 {
        None
    } else if assets[0].name@ == name {
        Some(assets[0].download_url@)
    } else {
        asset_url(assets.drop_first(), name)
    }
}

/// Why the latest release could not be fetched.
pub open spec fn fetch_error(error: Seq<char>) -> Seq<char> {
    "failed to fetch latest GitHub release: "@ + error
}

/// Why there is no asset for the platform.
pub open spec fn asset_error(os: Os, arch: Architecture) -> Seq<char> {
    "no prebuilt binary found for "@ + asset_name(os, arch) + ". Build "@ + BINARY_NAME@
        + " manually and place it on your PATH."@
}

/// Why the asset could not be downloaded.
pub open spec fn download_error(error: Seq<char>) -> Seq<char> {
    "failed to download "@ + BINARY_NAME@ + ": "@ + error
}

/// Why the binary could not be made executable.
pub open spec fn executable_error(error: Seq<char>) -> Seq<char> {
    "failed to make "@ + BINARY_NAME@ + " executable: "@ + error
}

/// The phase that follows when the work of a phase has come to an event. An event that
/// does not answer the phase changes nothing.
pub open spec fn next_phase(
    cached: Option<Seq<char>>,
    os: Os,
    arch: Architecture,
    phase: Phase<Seq<char>>,
    event: Event,
) -> Phase<Seq<char>> {
    match (phase, event) {
        (Phase::LookUp, Event::LookedUp(Some(path))) => Phase::Found { path: path@ },
        (Phase::LookUp, Event::LookedUp(None)) => match cached {
            Some(path) => Phase::ProbeCached { path },
            None => Phase::ReportChecking,
        },
        (Phase::ProbeCached { path }, Event::Probed(is_file)) => if is_file {
            Phase::Found { path }
        } else {
            Phase::ReportChecking
        },
        (Phase::ReportChecking, Event::Reported) => Phase::Fetch,
        (Phase::Fetch, Event::Fetched(Ok(release))) => Phase::ProbeInstalled {
            version_dir: version_dir(release.version@),
            binary_path: binary_path(release.version@, os),
            url: asset_url(release.assets@, asset_name(os, arch)),
        },
        (Phase::Fetch, Event::Fetched(Err(error))) => Phase::ReportFailure {
            error: fetch_error(error@),
        },
        (
            Phase::ProbeInstalled { version_dir, binary_path, url },
            Event::Probed(is_file),
        ) => if is_file {
            Phase::Prune { version_dir, binary_path }
        } else {
            Phase::ReportDownloading { version_dir, binary_path, url }
        },
        (
            Phase::ReportDownloading { version_dir, binary_path, url },
            Event::Reported,
        ) => match url {
            Some(source) => Phase::Download { version_dir, binary_path, source },
            None => Phase::ReportFailure { error: asset_error(os, arch) },
        },
        (
            Phase::Download { version_dir, binary_path, source },
            Event::Downloaded(result),
        ) => match result {
            Ok(_) => Phase::MakeExecutable { version_dir, binary_path },
            Err(error) => Phase::ReportFailure { error: download_error(error@) },
        },
        (
            Phase::MakeExecutable { version_dir, binary_path },
            Event::MadeExecutable(result),
        ) => match result {
            Ok(_) => Phase::Prune { version_dir, binary_path },
            Err(error) => Phase::ReportFailure { error: executable_error(error@) },
        },
        (Phase::Prune { version_dir, binary_path }, Event::Pruned) => Phase::ReportSuccess {
            binary_path,
        },
        (Phase::ReportSuccess { binary_path }, Event::Reported) => Phase::Found {
            path: binary_path,
        },
        (Phase::ReportFailure { error }, Event::Reported) => Phase::NotFound { error },
        _ => phase,
    }
}

/// The path in the cache after an event: that of the binary that has just been
/// installed, or what it was.
pub open spec fn cached_after(
    cached: Option<Seq<char>>,
    phase: Phase<Seq<char>>,
    event: Event,
) -> Option<Seq<char>> {
    match (phase, event) {
        (Phase::ReportSuccess { binary_path }, Event::Reported) => Some(binary_path),
        _ => cached,
    }
}

/// The work that a phase asks for.
pub fn action(phase: &Phase<String>) -> (r: Action<String>)
    ensures
        r@ == action_of(phase@),
{
    match phase {
        Phase::LookUp => Action::LookUp { name: BINARY_NAME.to_owned() },
        Phase::ProbeCached { path } => Action::Probe { path: path.clone() },
        // Tell the editor we are checking for an update.
        Phase::ReportChecking => Action::Report { status: InstallationStatus::CheckingForUpdate },
        Phase::Fetch => Action::Fetch {
            repository: REPOSITORY.to_owned(),
            require_assets: true,
            pre_release: false,
        },
        Phase::ProbeInstalled { version_dir: _, binary_path, url: _ } => Action::Probe {
            path: binary_path.clone(),
        },
        // Tell the editor we are downloading the update.
        Phase::ReportDownloading { version_dir: _, binary_path: _, url: _ } => Action::Report {
            status: InstallationStatus::Downloading,
        },
        Phase::Download { version_dir, binary_path: _, source } => Action::Download {
            url: source.clone(),
            dir: version_dir.clone(),
        },
        Phase::MakeExecutable { version_dir: _, binary_path } => Action::MakeExecutable {
            path: binary_path.clone(),
        },
        Phase::Prune { version_dir, binary_path: _ } => Action::Prune { keep: version_dir.clone() },
        Phase::ReportSuccess { binary_path: _ } => Action::Report {
            status: InstallationStatus::Idle,
        },
        Phase::ReportFailure { error } => Action::Report {
            status: InstallationStatus::Failed(error.clone()),
        },
        Phase::Found { path } => Action::Start { command: path.clone() },
        Phase::NotFound { error } => Action::Fail { error: error.clone() },
    }
}

/// Finds the URL of the first asset with the given name.
pub fn find_asset(assets: &Vec<Asset>, name: &str) -> (url: Option<String>)
    ensures
        option_text(url) == asset_url(assets@, name@),
{
    let ghost all = assets@;
    assert(all.skip(0) =~= all);
    for k in 0..assets.len()
        invariant
            all == assets@,
            asset_url(all, name@) == asset_url(all.skip(k as int), name@),
    {
        let ghost rest = all.skip(k as int);
        assert(rest[0] == all[k as int]);
        assert(rest.drop_first() =~= all.skip(k as int + 1));
        if same_text(assets[k].name.as_str(), name) {
            return Some(assets[k].download_url.clone());
        }
    }
    None
}

/// Whether an entry of the working directory is to be removed: every entry but the
/// directory of the current release. An entry whose name is no valid text has none.
pub fn is_stale(name: Option<&str>, keep: &str) -> (r: bool)
    ensures
        r == !(name matches Some(name) && name@ == keep@),
{
    match name {
        Some(name) => !same_text(name, keep),
        None => true,
    }
}

/// Editor extension that allows to highlight all occurrences of selected words.
pub struct HighlightExtension {
    /// In-process cache of the resolved binary path. Avoids a redundant lookup on every start of the language server
    /// within the same editor session. Not persisted across restarts; the versioned directory on disk serves that role.
    pub cached_binary_path: Option<String>,
}

impl HighlightExtension {
    /// Constructs a new instance of the extension.
    pub fn new() -> (extension: HighlightExtension)
        ensures
            extension.cached_binary_path is None,
    {
        HighlightExtension { cached_binary_path: None }
    }

    /// Starts the search for the command that starts the language server.
    pub fn language_server_command(&self) -> (phase: Phase<String>)
        ensures
            phase == Phase::<String>::LookUp,
    {
        Phase::LookUp
    }

    /// Goes on with the search for the language server when the work of a phase is done.
    ///
    /// A local binary is preferred to the cached one, and that to one from the latest release, which is downloaded
    /// unless it is already there. When a step of the install process fails, the failure is reported before it is
    /// returned, so the UI doesn't get stuck.
    pub fn advance(
        &mut self,
        os: Os,
        arch: Architecture,
        phase: Phase<String>,
        event: Event,
    ) -> (next: Phase<String>)
        ensures
            next@ == next_phase(
                option_text(old(self).cached_binary_path),
                os,
                arch,
                phase@,
                event,
            ),
            option_text(final(self).cached_binary_path) == cached_after(
                option_text(old(self).cached_binary_path),
                phase@,
                event,
            ),
    {
        match (phase, event) {
            (Phase::LookUp, Event::LookedUp(Some(path))) => Phase::Found { path },
            // Return the cached path if the file still exists on disk.
            (Phase::LookUp, Event::LookedUp(None)) => match &self.cached_binary_path {
                Some(path) => Phase::ProbeCached { path: path.clone() },
                None => Phase::ReportChecking,
            },
            (Phase::ProbeCached { path }, Event::Probed(is_file)) => {
                if is_file {
                    Phase::Found { path }
                } else {
                    Phase::ReportChecking
                }
            },
            (Phase::ReportSuccess { binary_path }, Event::Reported) => {
                // Populate the cache.
                self.cached_binary_path = Some(binary_path.clone());
                Phase::Found { path: binary_path }
            },
            (Phase::ReportFailure { error }, Event::Reported) => Phase::NotFound { error },
            (phase, event) => install_binary(os, arch, phase, event),
        }
    }
}

/// The steps of the install process (fetch release metadata, download and extract the latest release archive, and make
/// the binary executable).
fn install_binary(os: Os, arch: Architecture, phase: Phase<String>, event: Event) -> (next: Phase<
    String,
>)
    requires
        !(phase is LookUp && event is LookedUp),
        !(phase is ProbeCached && event is Probed),
        !(phase is ReportSuccess && event is Reported),
        !(phase is ReportFailure && event is Reported),
    ensures
        next@ == next_phase(None, os, arch, phase@, event),
{
    match (phase, event) {
        (Phase::ReportChecking, Event::Reported) => Phase::Fetch,
        (Phase::Fetch, Event::Fetched(result)) => match result {
            Ok(release) => {
                let name = platform_asset_name(os, arch);
                Phase::ProbeInstalled {
                    version_dir: version_dir_name(release.version.as_str()),
                    binary_path: binary_path_in_version(release.version.as_str(), os),
                    url: find_asset(&release.assets, name.as_str()),
                }
            },
            Err(error) => Phase::ReportFailure {
                error: "failed to fetch latest GitHub release: ".to_owned().concat(error.as_str()),
            },
        },
        (Phase::ProbeInstalled { version_dir, binary_path, url }, Event::Probed(is_file)) => {
            if is_file {
                Phase::Prune { version_dir, binary_path }
            } else {
                Phase::ReportDownloading { version_dir, binary_path, url }
            }
        },
        (Phase::ReportDownloading { version_dir, binary_path, url }, Event::Reported) => match url {
            Some(source) => Phase::Download { version_dir, binary_path, source },
            None => Phase::ReportFailure {
                error: "no prebuilt binary found for ".to_owned().concat(
                    platform_asset_name(os, arch).as_str(),
                ).concat(". Build ").concat(BINARY_NAME).concat(
                    " manually and place it on your PATH.",
                ),
            },
        },
        (Phase::Download { version_dir, binary_path, source: _ }, Event::Downloaded(result)) => {
            match result {
                Ok(_) => Phase::MakeExecutable { version_dir, binary_path },
                Err(error) => Phase::ReportFailure {
                    error: "failed to download ".to_owned().concat(BINARY_NAME).concat(": ").concat(
                        error.as_str(),
                    ),
                },
            }
        },
        (Phase::MakeExecutable { version_dir, binary_path }, Event::MadeExecutable(result)) => {
            match result {
                Ok(_) => Phase::Prune { version_dir, binary_path },
                Err(error) => Phase::ReportFailure {
                    error: "failed to make ".to_owned().concat(BINARY_NAME).concat(
                        " executable: ",
                    ).concat(error.as_str()),
                },
            }
        },
        (Phase::Prune { version_dir: _, binary_path }, Event::Pruned) => Phase::ReportSuccess {
            binary_path,
        },
        (phase, _) => phase,
    }
}

/// How many phases lie ahead at most.
pub open spec fn phases_ahead(phase: Phase<Seq<char>>) -> nat {
    match phase {
        Phase::LookUp => 11,
        Phase::ProbeCached { path } => 10,
        Phase::ReportChecking => 9,
        Phase::Fetch => 8,
        Phase::ProbeInstalled { version_dir, binary_path, url } => 7,
        Phase::ReportDownloading { version_dir, binary_path, url } => 6,
        Phase::Download { version_dir, binary_path, source } => 5,
        Phase::MakeExecutable { version_dir, binary_path } => 4,
        Phase::Prune { version_dir, binary_path } => 3,
        Phase::ReportSuccess { binary_path } => 1,
        Phase::ReportFailure { error } => 1,
        Phase::Found { path } => 0,
        Phase::NotFound { error } => 0,
    }
}

/// The event answers the work that the phase asks for.
pub open spec fn answers(phase: Phase<Seq<char>>, event: Event) -> bool {
    match action_of(phase) {
        Action::LookUp { name } => event is LookedUp,
        Action::Probe { path } => event is Probed,
        Action::Report { status } => event is Reported,
        Action::Fetch { repository, require_assets, pre_release } => event is Fetched,
        Action::Download { url, dir } => event is Downloaded,
        Action::MakeExecutable { path } => event is MadeExecutable,
        Action::Prune { keep } => event is Pruned,
        Action::Start { command } => false,
        Action::Fail { error } => false,
    }
}

/// The search ends: every answer brings it closer to its end, and nothing else changes
/// the phase.
pub proof fn the_search_ends(
    cached: Option<Seq<char>>,
    os: Os,
    arch: Architecture,
    phase: Phase<Seq<char>>,
    event: Event,
)
    ensures
        answers(phase, event) ==> phases_ahead(next_phase(cached, os, arch, phase, event))
            < phases_ahead(phase),
        !answers(phase, event) ==> next_phase(cached, os, arch, phase, event) == phase,
{
}

/// A failure of the install process is reported to the editor before it is returned, so
/// the UI doesn't get stuck.
pub proof fn a_failure_is_reported_first(
    cached: Option<Seq<char>>,
    os: Os,
    arch: Architecture,
    phase: Phase<Seq<char>>,
    event: Event,
    error: Seq<char>,
)
    requires
        answers(phase, event),
        next_phase(cached, os, arch, phase, event) == (Phase::NotFound { error }),
    ensures
        action_of(phase) == (Action::Report { status: InstallationStatus::Failed(error) }),
{
}

/// The cache changes only when a binary has been installed and is about to be started;
/// it then holds the path of that binary.
pub proof fn only_an_installed_binary_is_cached(
    cached: Option<Seq<char>>,
    os: Os,
    arch: Architecture,
    phase: Phase<Seq<char>>,
    event: Event,
)
    requires
        cached_after(cached, phase, event) != cached,
    ensures
        phase is ReportSuccess,
        cached_after(cached, phase, event) is Some,
        next_phase(cached, os, arch, phase, event) == (Phase::Found {
            path: cached_after(cached, phase, event)->0,
        }),
{
}

/// A cached binary that is still there is started without asking for releases.
pub proof fn a_cached_binary_is_reused(cached: Seq<char>, os: Os, arch: Architecture)
    ensures
        ({
            let probing = next_phase(
                Some(cached),
                os,
                arch,
                Phase::LookUp,
                Event::LookedUp(None),
            );
            &&& action_of(probing) == (Action::Probe { path: cached })
            &&& next_phase(Some(cached), os, arch, probing, Event::Probed(true)) == (Phase::Found {
                path: cached,
            })
        }),
{
}

/// Nothing is downloaded if the binary of the latest release is already there.
pub proof fn an_installed_release_is_reused(
    cached: Option<Seq<char>>,
    os: Os,
    arch: Architecture,
    release: Release,
)
    ensures
        ({
            let probing = next_phase(cached, os, arch, Phase::Fetch, Event::Fetched(Ok(release)));
            let pruning = next_phase(cached, os, arch, probing, Event::Probed(true));
            let reporting = next_phase(cached, os, arch, pruning, Event::Pruned);
            &&& action_of(probing) == (Action::Probe { path: binary_path(release.version@, os) })
            &&& action_of(pruning) == (Action::Prune { keep: version_dir(release.version@) })
            &&& action_of(reporting) == (Action::Report { status: InstallationStatus::<Seq<char>>::Idle })
            &&& next_phase(cached, os, arch, reporting, Event::Reported) == (Phase::Found {
                path: binary_path(release.version@, os),
            })
        }),
{
}

/// Different releases are stored in different directories.
pub proof fn releases_have_their_own_directories(a: Seq<char>, b: Seq<char>)
    requires
        version_dir(a) == version_dir(b),
    ensures
        a == b,
{
    let prefix = BINARY_NAME@ + "-"@;
    assert(a =~= version_dir(a).skip(prefix.len() as int));
    assert(b =~= version_dir(b).skip(prefix.len() as int));
}

/// Different platforms have different assets.
pub proof fn platforms_have_their_own_assets(
    os: Os,
    arch: Architecture,
    other_os: Os,
    other_arch: Architecture,
)
    requires
        asset_name(os, arch) == asset_name(other_os, other_arch),
    ensures
        os == other_os,
        arch == other_arch,
{
    reveal_strlit("darwin");
    reveal_strlit("linux");
    reveal_strlit("windows");
    reveal_strlit("aarch64");
    reveal_strlit("x86_64");
    reveal_strlit("x86");
    reveal_strlit("-");
    reveal_strlit(".tar.gz");
    reveal_strlit("zed-highlight-lsp");
    let (a, b) = (asset_name(os, arch), asset_name(other_os, other_arch));
    let n = BINARY_NAME@.len() + 1;
    assert(a[n as int] == os_name(os)[0]);
    assert(b[n as int] == os_name(other_os)[0]);
    assert(os == other_os);
    assert(a.len() == b.len());
}

/// The path of the binary has a slash between the directory and the file, and a
/// backslash only where the version has one.
pub proof fn the_path_uses_forward_slashes(version: Seq<char>, os: Os, i: int)
    requires
        0 <= i < binary_path(version, os).len(),
        !version.contains('\\'),
    ensures
        binary_path(version, os)[i] != '\\',
        binary_path(version, os)[version_dir(version).len() as int] == '/',
{
    reveal_strlit("zed-highlight-lsp");
    reveal_strlit("-");
    reveal_strlit("/");
    reveal_strlit(".exe");
    let dir = version_dir(version);
    let n = BINARY_NAME@.len() as int;
    if n + 1 <= i < dir.len() {
        assert(dir[i] == version[i - (n + 1)]);
    }
}

/// The asset with a name is found if and only if there is one, and it is the first with
/// that name.
pub proof fn the_first_asset_with_the_name_is_found(assets: Seq<Asset>, name: Seq<char>)
    ensures
        asset_url(assets, name) is None <==> forall|k: int|
            0 <= k < assets.len() ==> (#[trigger] assets[k]).name@ != name,
        asset_url(assets, name) matches Some(url) ==> exists|k: int|
            {
                &&& 0 <= k < assets.len()
                &&& (#[trigger] assets[k]).name@ == name
                &&& assets[k].download_url@ == url
                &&& forall|j: int| 0 <= j < k ==> (#[trigger] assets[j]).name@ != name
            },
    decreases assets.len(),
{
    if assets.len() > 0 && assets[0].name@ != name {
        let rest = assets.drop_first();
        the_first_asset_with_the_name_is_found(rest, name);
        assert(forall|k: int| 0 <= k < rest.len() ==> rest[k] == assets[k + 1]);
        if asset_url(rest, name) is None {
            assert forall|k: int| 0 <= k < assets.len() implies (#[trigger] assets[k]).name@
                != name by {
                if k > 0 {
                    assert(rest[k - 1].name@ != name);
                }
            }
        } else {
            let k = choose|k: int|
                {
                    &&& 0 <= k < rest.len()
                    &&& (#[trigger] rest[k]).name@ == name
                    &&& rest[k].download_url@ == asset_url(rest, name)->0
                    &&& forall|j: int| 0 <= j < k ==> (#[trigger] rest[j]).name@ != name
                };
            assert(assets[k + 1].name@ == name);
            assert forall|j: int| 0 <= j < k + 1 implies (#[trigger] assets[j]).name@ != name by {
                if j > 0 {
                    assert(rest[j - 1].name@ != name);
                }
            }
        }
    } else if assets.len() > 0 {
        assert(assets[0].name@ == name);
    }
}

/// The names of assets, directories and files, spelled out.
pub proof fn names_are_spelled_out(version: Seq<char>, os: Os, arch: Architecture)
    ensures
        asset_name(os, arch) == "zed-highlight-lsp"@ + "-"@ + (match os {
            Os::Mac => "darwin"@,
            Os::Linux => "linux"@,
            Os::Windows => "windows"@,
        }) + "-"@ + (match arch {
            Architecture::Aarch64 => "aarch64"@,
            Architecture::X8664 => "x86_64"@,
            Architecture::X86 => "x86"@,
        }) + ".tar.gz"@,
        version_dir(version) == "zed-highlight-lsp"@ + "-"@ + version,
        binary_path(version, os) == "zed-highlight-lsp"@ + "-"@ + version + "/"@ + (if os
            == Os::Windows {
            "zed-highlight-lsp"@ + ".exe"@
        } else {
            "zed-highlight-lsp"@
        }),
{
}

/// The error messages keep the whole text of the error that they report.
pub proof fn errors_are_spelled_out(error: Seq<char>, os: Os, arch: Architecture)
    ensures
        fetch_error(error) == "failed to fetch latest GitHub release: "@ + error,
        download_error(error) == "failed to download "@ + "zed-highlight-lsp"@ + ": "@ + error,
        executable_error(error) == "failed to make "@ + "zed-highlight-lsp"@ + " executable: "@
            + error,
        asset_error(os, arch) == "no prebuilt binary found for "@ + asset_name(os, arch)
            + ". Build "@ + "zed-highlight-lsp"@ + " manually and place it on your PATH."@,
{
}

/// What the editor is asked to do hands on the texts of the phase unchanged.
pub proof fn actions_hand_on_the_texts_of_the_phase(phase: Phase<String>, action: Action<String>)
    requires
        action@ == action_of(phase@),
    ensures
        match phase {
            Phase::LookUp => action matches Action::LookUp { name } && name@
                == "zed-highlight-lsp"@,
            Phase::ProbeCached { path } => action matches Action::Probe { path: probed } && probed@
                == path@,
            Phase::ReportChecking => action matches Action::Report { status }
                && status is CheckingForUpdate,
            Phase::Fetch => action matches Action::Fetch { repository, require_assets, pre_release }
                && repository@ == "0xdea/zed-highlight"@ && require_assets && !pre_release,
            Phase::ProbeInstalled { version_dir, binary_path, url } => action matches Action::Probe {
                path,
            } && path@ == binary_path@,
            Phase::ReportDownloading { version_dir, binary_path, url } => action matches Action::Report {
                status,
            } && status is Downloading,
            Phase::Download { version_dir, binary_path, source } => action matches Action::Download {
                url,
                dir,
            } && url@ == source@ && dir@ == version_dir@,
            Phase::MakeExecutable { version_dir, binary_path } => action matches Action::MakeExecutable {
                path,
            } && path@ == binary_path@,
            Phase::Prune { version_dir, binary_path } => action matches Action::Prune { keep }
                && keep@ == version_dir@,
            Phase::ReportSuccess { binary_path } => action matches Action::Report { status }
                && status is Idle,
            Phase::ReportFailure { error } => action matches Action::Report { status }
                && status matches InstallationStatus::Failed(reported) && reported@ == error@,
            Phase::Found { path } => action matches Action::Start { command } && command@ == path@,
            Phase::NotFound { error } => action matches Action::Fail { error: reported } && reported@
                == error@,
        },
{
}

/// The binary that is found is the local one if there is one, else the cached one if it is
/// still there; only otherwise releases are asked for.
pub proof fn the_search_prefers_what_is_at_hand(
    cached: Option<String>,
    os: Os,
    arch: Architecture,
    phase: Phase<String>,
    event: Event,
    next: Phase<String>,
)
    requires
        next@ == next_phase(option_text(cached), os, arch, phase@, event),
    ensures
        phase is LookUp ==> (event matches Event::LookedUp(Some(local)) ==> next matches Phase::Found {
            path,
        } && path@ == local@),
        phase is LookUp && event == Event::LookedUp(None) ==> match cached {
            Some(at) => next matches Phase::ProbeCached { path } && path@ == at@,
            None => next is ReportChecking,
        },
        phase matches Phase::ProbeCached { path } ==> {
            &&& event == Event::Probed(true) ==> (next matches Phase::Found { path: found } && found@
                == path@)
            &&& event == Event::Probed(false) ==> next is ReportChecking
        },
        phase is ReportChecking && event is Reported ==> next is Fetch,
{
}

/// The latest release is looked for in its own directory, and its asset for the platform
/// is downloaded, made executable and started, unless it is already there or something
/// fails, which is reported with the reason.
pub proof fn a_release_is_installed_step_by_step(
    cached: Option<String>,
    os: Os,
    arch: Architecture,
    phase: Phase<String>,
    event: Event,
    next: Phase<String>,
)
    requires
        next@ == next_phase(option_text(cached), os, arch, phase@, event),
    ensures
        phase is Fetch ==> (event matches Event::Fetched(result) ==> match result {
            Ok(release) => next matches Phase::ProbeInstalled { version_dir, binary_path, url } && {
                &&& version_dir@ == self::version_dir(release.version@)
                &&& binary_path@ == self::binary_path(release.version@, os)
                &&& match url {
                    Some(url) => exists|k: int|
                        {
                            &&& 0 <= k < release.assets@.len()
                            &&& (#[trigger] release.assets@[k]).name@ == asset_name(os, arch)
                            &&& release.assets@[k].download_url@ == url@
                        },
                    None => forall|k: int|
                        0 <= k < release.assets@.len() ==> (#[trigger] release.assets@[k]).name@
                            != asset_name(os, arch),
                }
            },
            Err(reason) => next matches Phase::ReportFailure { error } && error@
                == "failed to fetch latest GitHub release: "@ + reason@,
        }),
        phase matches Phase::ProbeInstalled { version_dir, binary_path, url } ==> {
            &&& event == Event::Probed(true) ==> (next matches Phase::Prune {
                version_dir: dir,
                binary_path: path,
            } && dir@ == version_dir@ && path@ == binary_path@)
            &&& event == Event::Probed(false) ==> (next matches Phase::ReportDownloading {
                version_dir: dir,
                binary_path: path,
                url: source,
            } && dir@ == version_dir@ && path@ == binary_path@ && (match url {
                Some(url) => source matches Some(source) && source@ == url@,
                None => source is None,
            }))
        },
        phase matches Phase::ReportDownloading { version_dir, binary_path, url } ==> event
            is Reported ==> match url {
            Some(url) => next matches Phase::Download {
                version_dir: dir,
                binary_path: path,
                source,
            } && dir@ == version_dir@ && path@ == binary_path@ && source@ == url@,
            None => next matches Phase::ReportFailure { error } && error@ == asset_error(os, arch),
        },
        phase matches Phase::Download { version_dir, binary_path, source } ==> (
        event matches Event::Downloaded(result) ==> match result {
            Ok(_) => next matches Phase::MakeExecutable { version_dir: dir, binary_path: path }
                && dir@ == version_dir@ && path@ == binary_path@,
            Err(reason) => next matches Phase::ReportFailure { error } && error@
                == "failed to download "@ + "zed-highlight-lsp"@ + ": "@ + reason@,
        }),
        phase matches Phase::MakeExecutable { version_dir, binary_path } ==> (
        event matches Event::MadeExecutable(result) ==> match result {
            Ok(_) => next matches Phase::Prune { version_dir: dir, binary_path: path } && dir@
                == version_dir@ && path@ == binary_path@,
            Err(reason) => next matches Phase::ReportFailure { error } && error@
                == "failed to make "@ + "zed-highlight-lsp"@ + " executable: "@ + reason@,
        }),
        phase matches Phase::Prune { version_dir, binary_path } ==> event is Pruned
            ==> (next matches Phase::ReportSuccess { binary_path: path } && path@ == binary_path@),
        phase matches Phase::ReportSuccess { binary_path } ==> event is Reported
            ==> (next matches Phase::Found { path } && path@ == binary_path@),
        phase matches Phase::ReportFailure { error } ==> event is Reported
            ==> (next matches Phase::NotFound { error: reported } && reported@ == error@),
{
    if let Event::Fetched(Ok(release)) = event {
        the_first_asset_with_the_name_is_found(release.assets@, asset_name(os, arch));
    }
}

/// The path of a binary is remembered once it has been installed, and nothing else is.
pub proof fn an_installed_binary_is_remembered(
    cached: Option<String>,
    phase: Phase<String>,
    event: Event,
    after: Option<String>,
)
    requires
        option_text(after) == cached_after(option_text(cached), phase@, event),
    ensures
        phase matches Phase::ReportSuccess { binary_path } ==> event is Reported ==> (
        after matches Some(path) && path@ == binary_path@),
        !(phase is ReportSuccess && event is Reported) ==> (match cached {
            Some(path) => after matches Some(still) && still@ == path@,
            None => after is None,
        }),
{
}

} // verus!
