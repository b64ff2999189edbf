//! How the extension finds the language server.

use zed_highlight::extension::{
    action, binary_file_name, binary_path_in_version, find_asset, is_stale, platform_asset_name,
    version_dir_name, Action, Architecture, Asset, Event, HighlightExtension, InstallationStatus,
    Os, Phase, Release, BINARY_NAME, REPOSITORY,
};

// Test constants.

#[test]
fn binary_name_is_correct() {
    assert_eq!(
        BINARY_NAME, "zed-highlight-lsp",
        "language server binary name must match the published crate"
    );
}

#[test]
fn repository_slug_is_correct() {
    assert_eq!(
        REPOSITORY, "0xdea/zed-highlight",
        "repository must be the canonical GitHub slug"
    );
}

// Test `HighlightExtension::new`.

#[test]
fn new_starts_with_no_cached_path() {
    let ext = HighlightExtension::new();
    assert!(
        ext.cached_binary_path.is_none(),
        "a freshly created extension must not have a cached binary path"
    );
}

// Test `platform_asset_name`.

#[test]
fn asset_name_mac_aarch64_is_correct() {
    let name = platform_asset_name(Os::Mac, Architecture::Aarch64);
    assert_eq!(name, "zed-highlight-lsp-darwin-aarch64.tar.gz");
}

#[test]
fn asset_name_mac_x86_64_is_correct() {
    let name = platform_asset_name(Os::Mac, Architecture::X8664);
    assert_eq!(name, "zed-highlight-lsp-darwin-x86_64.tar.gz");
}

#[test]
fn asset_name_mac_x86_is_correct() {
    let name = platform_asset_name(Os::Mac, Architecture::X86);
    assert_eq!(name, "zed-highlight-lsp-darwin-x86.tar.gz");
}

#[test]
fn asset_name_linux_aarch64_is_correct() {
    let name = platform_asset_name(Os::Linux, Architecture::Aarch64);
    assert_eq!(name, "zed-highlight-lsp-linux-aarch64.tar.gz");
}

#[test]
fn asset_name_linux_x86_64_is_correct() {
    let name = platform_asset_name(Os::Linux, Architecture::X8664);
    assert_eq!(name, "zed-highlight-lsp-linux-x86_64.tar.gz");
}

#[test]
fn asset_name_linux_x86_is_correct() {
    let name = platform_asset_name(Os::Linux, Architecture::X86);
    assert_eq!(name, "zed-highlight-lsp-linux-x86.tar.gz");
}

#[test]
fn asset_name_windows_aarch64_is_correct() {
    let name = platform_asset_name(Os::Windows, Architecture::Aarch64);
    assert_eq!(name, "zed-highlight-lsp-windows-aarch64.tar.gz");
}

#[test]
fn asset_name_windows_x86_64_is_correct() {
    let name = platform_asset_name(Os::Windows, Architecture::X8664);
    assert_eq!(name, "zed-highlight-lsp-windows-x86_64.tar.gz");
}

#[test]
fn asset_name_windows_x86_is_correct() {
    let name = platform_asset_name(Os::Windows, Architecture::X86);
    assert_eq!(name, "zed-highlight-lsp-windows-x86.tar.gz");
}

// Test `version_dir_name`.

#[test]
fn version_dir_name_format_is_correct() {
    assert_eq!(version_dir_name("0.1.0"), "zed-highlight-lsp-0.1.0");
}

// Test `binary_file_name`.

#[test]
fn binary_file_name_on_unix_has_no_extension() {
    assert_eq!(binary_file_name(Os::Mac), "zed-highlight-lsp");
    assert_eq!(binary_file_name(Os::Linux), "zed-highlight-lsp");
}

#[test]
fn binary_file_name_on_windows_has_exe_extension() {
    assert_eq!(binary_file_name(Os::Windows), "zed-highlight-lsp.exe");
}

// Test `binary_path_in_version`.

#[test]
fn binary_path_in_version_format_is_correct_on_unix() {
    assert_eq!(
        binary_path_in_version("0.1.0", Os::Mac),
        "zed-highlight-lsp-0.1.0/zed-highlight-lsp"
    );
    assert_eq!(
        binary_path_in_version("0.1.0", Os::Linux),
        "zed-highlight-lsp-0.1.0/zed-highlight-lsp"
    );
}

#[test]
fn binary_path_in_version_format_is_correct_on_windows() {
    // Regression test: on Windows the archive contains `zed-highlight-lsp.exe`, so the path used for cache probing
    // and for spawning the language server must include the `.exe` suffix. Forgetting it causes Zed to re-download
    // on every session and then fail to start the LSP because the resolved path doesn't exist.
    assert_eq!(
        binary_path_in_version("0.1.0", Os::Windows),
        "zed-highlight-lsp-0.1.0/zed-highlight-lsp.exe"
    );
}

#[test]
fn binary_path_uses_forward_slash() {
    // The path is passed to calls that expect POSIX-style paths because the extension runs inside a WASM sandbox.
    for os in [Os::Mac, Os::Linux, Os::Windows] {
        let path = binary_path_in_version("0.1.0", os);
        assert!(
            path.contains('/'),
            "binary path must use '/' as separator (os: {os:?})"
        );
        assert!(
            !path.contains('\\'),
            "binary path must not use '\\' as separator (os: {os:?})"
        );
    }
}

// Test the search for the language server.

fn release() -> Release {
    Release {
        version: "0.1.0".to_owned(),
        assets: vec![
            Asset {
                name: "zed-highlight-lsp-linux-aarch64.tar.gz".to_owned(),
                download_url: "https://example.com/a".to_owned(),
            },
            Asset {
                name: "zed-highlight-lsp-linux-x86_64.tar.gz".to_owned(),
                download_url: "https://example.com/b".to_owned(),
            },
            Asset {
                name: "zed-highlight-lsp-linux-x86_64.tar.gz".to_owned(),
                download_url: "https://example.com/c".to_owned(),
            },
        ],
    }
}

fn step(ext: &mut HighlightExtension, phase: Phase<String>, event: Event) -> Phase<String> {
    ext.advance(Os::Linux, Architecture::X8664, phase, event)
}

fn report(status: InstallationStatus<String>) -> Action<String> {
    Action::Report { status }
}

fn fetching(ext: &mut HighlightExtension) -> Phase<String> {
    let phase = ext.language_server_command();
    let phase = step(ext, phase, Event::LookedUp(None));
    let phase = step(ext, phase, Event::Reported);
    assert_eq!(phase, Phase::Fetch);
    phase
}

#[test]
fn a_local_binary_is_preferred() {
    let mut ext = HighlightExtension::new();
    ext.cached_binary_path = Some("cached".to_owned());
    let phase = ext.language_server_command();
    assert_eq!(
        action(&phase),
        Action::LookUp {
            name: "zed-highlight-lsp".to_owned()
        }
    );
    let phase = step(&mut ext, phase, Event::LookedUp(Some("/bin/lsp".to_owned())));
    assert_eq!(
        action(&phase),
        Action::Start {
            command: "/bin/lsp".to_owned()
        }
    );
    assert_eq!(ext.cached_binary_path, Some("cached".to_owned()));
}

#[test]
fn a_cached_binary_is_started_if_it_is_still_there() {
    let mut ext = HighlightExtension::new();
    ext.cached_binary_path = Some("cached".to_owned());
    let phase = ext.language_server_command();
    let phase = step(&mut ext, phase, Event::LookedUp(None));
    assert_eq!(
        action(&phase),
        Action::Probe {
            path: "cached".to_owned()
        }
    );
    let phase = step(&mut ext, phase, Event::Probed(true));
    assert_eq!(
        phase,
        Phase::Found {
            path: "cached".to_owned()
        }
    );

    let phase = ext.language_server_command();
    let phase = step(&mut ext, phase, Event::LookedUp(None));
    let phase = step(&mut ext, phase, Event::Probed(false));
    assert_eq!(action(&phase), report(InstallationStatus::CheckingForUpdate));
}

#[test]
fn a_release_is_downloaded_and_cached() {
    let dir = "zed-highlight-lsp-0.1.0".to_owned();
    let path = "zed-highlight-lsp-0.1.0/zed-highlight-lsp".to_owned();
    let mut ext = HighlightExtension::new();
    let phase = fetching(&mut ext);
    assert_eq!(
        action(&phase),
        Action::Fetch {
            repository: "0xdea/zed-highlight".to_owned(),
            require_assets: true,
            pre_release: false
        }
    );
    let phase = step(&mut ext, phase, Event::Fetched(Ok(release())));
    assert_eq!(action(&phase), Action::Probe { path: path.clone() });
    let phase = step(&mut ext, phase, Event::Probed(false));
    assert_eq!(action(&phase), report(InstallationStatus::Downloading));
    let phase = step(&mut ext, phase, Event::Reported);
    assert_eq!(
        action(&phase),
        Action::Download {
            url: "https://example.com/b".to_owned(),
            dir: dir.clone()
        }
    );
    let phase = step(&mut ext, phase, Event::Downloaded(Ok(())));
    assert_eq!(action(&phase), Action::MakeExecutable { path: path.clone() });
    let phase = step(&mut ext, phase, Event::MadeExecutable(Ok(())));
    assert_eq!(action(&phase), Action::Prune { keep: dir });
    let phase = step(&mut ext, phase, Event::Pruned);
    assert_eq!(action(&phase), report(InstallationStatus::Idle));
    assert_eq!(ext.cached_binary_path, None);
    let phase = step(&mut ext, phase, Event::Reported);
    assert_eq!(
        action(&phase),
        Action::Start {
            command: path.clone()
        }
    );
    assert_eq!(ext.cached_binary_path, Some(path));
}

#[test]
fn an_installed_release_is_not_downloaded_again() {
    let mut ext = HighlightExtension::new();
    let phase = fetching(&mut ext);
    let phase = step(&mut ext, phase, Event::Fetched(Ok(release())));
    let phase = step(&mut ext, phase, Event::Probed(true));
    assert_eq!(
        action(&phase),
        Action::Prune {
            keep: "zed-highlight-lsp-0.1.0".to_owned()
        }
    );
}

fn assert_fails(ext: &mut HighlightExtension, phase: Phase<String>, error: &str) {
    assert_eq!(
        action(&phase),
        report(InstallationStatus::Failed(error.to_owned()))
    );
    let phase = step(ext, phase, Event::Reported);
    assert_eq!(
        action(&phase),
        Action::Fail {
            error: error.to_owned()
        }
    );
    assert_eq!(ext.cached_binary_path, None);
}

#[test]
fn a_missing_release_is_reported() {
    let mut ext = HighlightExtension::new();
    let phase = fetching(&mut ext);
    let phase = step(&mut ext, phase, Event::Fetched(Err("offline".to_owned())));
    assert_fails(
        &mut ext,
        phase,
        "failed to fetch latest GitHub release: offline",
    );
}

#[test]
fn a_missing_asset_is_reported() {
    let mut ext = HighlightExtension::new();
    let phase = fetching(&mut ext);
    let (os, arch) = (Os::Windows, Architecture::X86);
    let phase = ext.advance(os, arch, phase, Event::Fetched(Ok(release())));
    let phase = ext.advance(os, arch, phase, Event::Probed(false));
    let phase = ext.advance(os, arch, phase, Event::Reported);
    assert_fails(
        &mut ext,
        phase,
        "no prebuilt binary found for zed-highlight-lsp-windows-x86.tar.gz. \
         Build zed-highlight-lsp manually and place it on your PATH.",
    );
}

#[test]
fn a_failed_download_is_reported() {
    let mut ext = HighlightExtension::new();
    let phase = fetching(&mut ext);
    let phase = step(&mut ext, phase, Event::Fetched(Ok(release())));
    let phase = step(&mut ext, phase, Event::Probed(false));
    let phase = step(&mut ext, phase, Event::Reported);
    let phase = step(&mut ext, phase, Event::Downloaded(Err("404".to_owned())));
    assert_fails(&mut ext, phase, "failed to download zed-highlight-lsp: 404");
}

#[test]
fn a_binary_that_stays_not_executable_is_reported() {
    let mut ext = HighlightExtension::new();
    let phase = fetching(&mut ext);
    let phase = step(&mut ext, phase, Event::Fetched(Ok(release())));
    let phase = step(&mut ext, phase, Event::Probed(false));
    let phase = step(&mut ext, phase, Event::Reported);
    let phase = step(&mut ext, phase, Event::Downloaded(Ok(())));
    let phase = step(&mut ext, phase, Event::MadeExecutable(Err("no".to_owned())));
    assert_fails(
        &mut ext,
        phase,
        "failed to make zed-highlight-lsp executable: no",
    );
}

#[test]
fn an_event_that_answers_nothing_changes_nothing() {
    let mut ext = HighlightExtension::new();
    let phase = ext.language_server_command();
    let phase = step(&mut ext, phase, Event::Reported);
    assert_eq!(phase, Phase::LookUp);
    let phase = fetching(&mut ext);
    let phase = step(&mut ext, phase, Event::Pruned);
    assert_eq!(phase, Phase::Fetch);
}

#[test]
fn the_first_asset_with_the_name_is_taken() {
    let assets = release().assets;
    assert_eq!(
        find_asset(&assets, "zed-highlight-lsp-linux-x86_64.tar.gz"),
        Some("https://example.com/b".to_owned())
    );
    assert_eq!(find_asset(&assets, "zed-highlight-lsp-linux-x86"), None);
    assert_eq!(find_asset(&vec![], ""), None);
}

#[test]
fn only_the_current_release_is_kept() {
    assert!(!is_stale(Some("zed-highlight-lsp-0.1.0"), "zed-highlight-lsp-0.1.0"));
    assert!(is_stale(Some("zed-highlight-lsp-0.0.9"), "zed-highlight-lsp-0.1.0"));
    assert!(is_stale(None, "zed-highlight-lsp-0.1.0"));
}
