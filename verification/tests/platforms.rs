use diskscout::category::Category;
use diskscout::path::{FsPath, Part};
use diskscout::platform::runtime_roots;
use diskscout::sweep::Entry;
use diskscout::{unix, windows};

fn unix_file(len: u64, blocks: u64) -> unix::Metadata {
    unix::Metadata { len, blocks, nlink: 1, dev: 1, ino: 2, modified: None }
}

fn windows_file(len: u64, attributes: u32) -> windows::Metadata {
    windows::Metadata { len, attributes, compressed: None, modified: None }
}

#[test]
fn ordinary_files_report_their_length() {
    assert_eq!(unix::size_on_disk(&unix_file(4_096, 8)), 4_096);
    // Slack in the last block does not count.
    assert_eq!(unix::size_on_disk(&unix_file(1, 8)), 1);
    assert_eq!(windows::size_on_disk(&windows_file(4_096, 0x20)), 4_096);
}

const LOGICAL: u64 = 64 * 1_048_576;

// The case that made a 0.74 GB emulator image read as 512 GB.
#[test]
fn platform_a_sparse_file_counts_its_allocation_not_its_hole() {
    let meta = unix_file(LOGICAL, 16);
    assert_eq!(meta.len, LOGICAL, "the logical length is the whole 64 MB");
    assert!(
        unix::size_on_disk(&meta) < LOGICAL / 2,
        "the hole must not be counted"
    );
    assert_eq!(unix::size_on_disk(&meta), 8_192);

    let mut meta = windows_file(LOGICAL, windows::SPARSE);
    meta.compressed = Some(windows::CompressedSize { low: 65_536, high: 0, error: 0 });
    assert_eq!(meta.len, LOGICAL, "the logical length is the whole 64 MB");
    assert!(
        windows::size_on_disk(&meta) < LOGICAL / 2,
        "the hole must not be counted"
    );
}

#[test]
fn a_failed_question_falls_back_to_the_length() {
    let mut meta = windows_file(10, windows::COMPRESSED);
    assert!(windows::needs_compressed_size(meta.attributes));
    assert!(!windows::needs_compressed_size(0x20));
    meta.compressed = Some(windows::CompressedSize { low: u32::MAX, high: 0, error: 5 });
    assert_eq!(windows::size_on_disk(&meta), 10);
    // The same low half without an error is a size.
    meta.compressed = Some(windows::CompressedSize { low: u32::MAX, high: 1, error: 0 });
    assert_eq!(windows::size_on_disk(&meta), 0x1_ffff_ffff);
}

#[test]
fn a_block_count_beyond_the_machine_is_capped_at_the_length() {
    assert_eq!(unix::size_on_disk(&unix_file(7, u64::MAX)), 7);
    assert_eq!(unix::size_on_disk(&unix_file(u64::MAX, u64::MAX)), u64::MAX);
}

#[test]
fn only_a_file_with_more_than_one_link_has_an_identity() {
    let alone = unix_file(1, 8);
    let mut shared = unix_file(1, 8);
    shared.nlink = 2;
    shared.ino = 3;
    let other_name = shared;

    assert!(unix::hard_link_id(&alone).is_none());
    assert_eq!(
        unix::hard_link_id(&shared),
        unix::hard_link_id(&other_name),
        "both names must resolve to the same allocation"
    );
    assert_eq!(unix::hard_link_id(&shared), Some((1, 3)));
    assert_eq!(windows::hard_link_id(&windows_file(1, 0)), None);
}

#[test]
fn a_placeholder_occupies_no_local_space() {
    for flag in [
        windows::OFFLINE,
        windows::RECALL_ON_OPEN,
        windows::RECALL_ON_DATA_ACCESS,
    ] {
        assert!(windows::occupies_no_local_space(&windows_file(5, flag | 0x20)));
        assert!(!windows::measure(&windows_file(5, flag)).local);
    }
    assert!(!windows::occupies_no_local_space(&windows_file(5, 0x20)));
    assert!(!unix::occupies_no_local_space(&unix_file(5, 0)));
    let measured = unix::measure(&unix_file(5, 8));
    assert!(measured.local);
    assert_eq!(measured.size, 5);
}

#[test]
fn only_the_owners_write_bit_is_added() {
    assert_eq!(unix::clear_readonly(0o100555), Some(0o100755));
    assert_eq!(unix::clear_readonly(0o040500), Some(0o040700));
    assert_eq!(unix::clear_readonly(0o100644), None);
}

#[test]
fn home_is_where_the_environment_says() {
    let text = |path: Option<FsPath>| path.map(|p| p.display());
    assert_eq!(
        text(unix::home_dir(Some(FsPath::new("/home/me")))).as_deref(),
        Some("/home/me")
    );
    assert_eq!(text(unix::home_dir(Some(FsPath::new("")))), None);
    assert_eq!(text(unix::home_dir(None)), None);
    assert_eq!(
        text(windows::home_dir(
            Some(FsPath::new("")),
            Some(FsPath::new("/fallback"))
        ))
        .as_deref(),
        Some("/fallback")
    );
    assert_eq!(
        text(windows::home_dir(
            Some(FsPath::new("/profile")),
            Some(FsPath::new("/fallback"))
        ))
        .as_deref(),
        Some("/profile")
    );
}

#[test]
fn the_report_goes_to_the_temp_directory() {
    assert_eq!(unix::report_path().display(), "/tmp/diskscout-report.txt");
    let temp = drive("C:").descend("Temp");
    assert_eq!(
        windows::report_path(&temp).display(),
        "C:\\Temp\\diskscout-report.txt"
    );
}

#[test]
fn the_report_points_at_the_right_commands() {
    let hints = unix::extra_hints().join("\n");
    for command in [
        "rustup toolchain uninstall",
        "xcrun simctl runtime delete",
        "brew cleanup",
        "conda clean --all",
    ] {
        assert!(hints.contains(command), "{command}");
    }
    assert_eq!(windows::extra_hints().len(), 3);
    assert!(unix::reserved_system_files().is_empty());
}

// ---------------------------------------------------------------------------
// Windows
// ---------------------------------------------------------------------------

fn drive(letter: &str) -> FsPath {
    FsPath::root(&format!("{letter}\\"), '\\')
}

fn env() -> windows::WindowsEnv {
    windows::WindowsEnv {
        local_app_data: None,
        app_data: None,
        system_root: None,
        program_data: None,
        system_drive: None,
        cargo_target_dir: None,
        temp: drive("C:").descend("Temp"),
    }
}

fn me() -> FsPath {
    drive("C:").descend("Users/me")
}

fn texts(paths: &[FsPath]) -> Vec<String> {
    paths.iter().map(|p| p.display()).collect()
}

#[test]
fn unset_variables_have_their_usual_values() {
    let env = env();
    assert_eq!(
        windows::local_app_data(&me(), &env).display(),
        "C:\\Users\\me\\AppData\\Local"
    );
    assert_eq!(
        windows::roaming_app_data(&me(), &env).display(),
        "C:\\Users\\me\\AppData\\Roaming"
    );
    assert_eq!(windows::windows_dir(&env).display(), "C:\\Windows");
    assert_eq!(windows::program_data(&env).display(), "C:\\ProgramData");
    assert_eq!(windows::system_drive(&env).display(), "C:\\");

    let mut moved = env;
    moved.local_app_data = Some(drive("D:").descend("Local"));
    moved.system_drive = Some("D:".to_owned());
    moved.app_data = Some(FsPath::new(""));
    assert_eq!(
        windows::local_app_data(&me(), &moved).display(),
        "D:\\Local"
    );
    assert_eq!(windows::system_drive(&moved).display(), "D:\\");
    assert_eq!(
        windows::roaming_app_data(&me(), &moved).display(),
        "C:\\Users\\me\\AppData\\Roaming"
    );
}

#[test]
fn store_app_data_and_global_tools_are_skipped() {
    let skips = texts(&windows::skip_paths(&me(), &env()));
    for path in [
        "C:\\Windows",
        "C:\\$Recycle.Bin",
        "C:\\Users\\me\\AppData\\Local\\Packages",
        "C:\\Users\\me\\AppData\\Roaming\\npm",
        "C:\\Users\\me\\.bun\\install\\global",
    ] {
        assert!(skips.contains(&path.to_owned()), "{path}: {skips:?}");
    }
    let skips = texts(&unix::skip_paths(&FsPath::new("/h")));
    for path in [
        "\\h\\Library\\CloudStorage",
        "\\h\\Library\\Group Containers",
        "\\opt\\homebrew",
    ] {
        let path = path.replace('\\', "/");
        let shown: Vec<String> = skips.iter().map(|s| s.replace('\\', "/")).collect();
        assert!(shown.contains(&path), "{path}: {shown:?}");
    }
}

#[test]
fn the_runtimes_of_version_managers_are_not_walked() {
    let home = FsPath::new("/Users/x");
    let skips = unix::skip_paths(&home);
    for path in [
        "/Users/x/.nvm/versions/node/v20.0.0/lib/node_modules",
        "/Users/x/.fnm/node-versions/v20/installation/lib/node_modules",
        "/Users/x/.local/share/fnm/node-versions",
        "/Users/x/.volta/tools",
        "/Users/x/.nodenv/versions",
        "/Users/x/.asdf/installs",
        "/Users/x/.rbenv/versions",
        "/Users/x/.local/share/mise/installs",
        "/Users/x/.pyenv/versions/3.12/lib/__pycache__",
    ] {
        let path = FsPath::new(path);
        assert!(skips.iter().any(|s| path.starts_with(s)), "{path:?}");
    }
    let project = FsPath::new("/Users/x/code/.nvmrc-test/node_modules");
    assert!(!skips.iter().any(|s| project.starts_with(s)));
    assert_eq!(runtime_roots(&home).len(), 9);
}

#[test]
fn what_installers_and_sync_engines_own_is_not_walked_on_windows() {
    let skips = texts(&windows::skip_paths(&me(), &env()));
    for path in [
        "C:\\Users\\me\\scoop",
        "C:\\Users\\me\\anaconda3",
        "C:\\Users\\me\\miniconda3",
        "C:\\Users\\me\\miniforge3",
        "C:\\Users\\me\\OneDrive",
        "C:\\Users\\me\\AppData\\Local\\Programs",
        "C:\\Users\\me\\AppData\\Roaming\\nvm",
        "C:\\Users\\me\\.nvm",
        "C:\\Users\\me\\.pyenv",
    ] {
        assert!(skips.contains(&path.to_owned()), "{path}: {skips:?}");
    }
}

#[test]
fn checkouts_are_searched_for_in_the_usual_places() {
    assert_eq!(windows::workspace_roots(&me()).len(), 5);
    assert_eq!(
        unix::workspace_roots(&FsPath::new("/h"))[0].display(),
        "/h/Developer"
    );
    assert_eq!(
        unix::installed_software_roots(&FsPath::new("/h")).len(),
        7
    );
    assert_eq!(windows::installed_software_roots(&me(), &env()).len(), 6);
}

fn entry(name: &str) -> Entry {
    Entry { name: Part::name(name), is_dir: true }
}

#[test]
fn only_the_caches_of_a_browser_profile_are_taken() {
    let data = drive("C:").descend("Chrome");
    let entries = vec![
        entry("Default"),
        entry("Profile 2"),
        entry("Profiles"),
        Entry { name: Part::name("Guest Profile"), is_dir: false },
    ];
    let mut out = vec![];
    windows::chromium_caches(&data, Some(&entries), &mut out);
    let paths: Vec<String> = out.iter().map(|t| t.0.display()).collect();
    assert_eq!(paths.len(), 15);
    assert_eq!(paths[0], "C:\\Chrome\\Default\\Cache");
    assert_eq!(
        paths[5],
        "C:\\Chrome\\Default\\Service Worker/CacheStorage"
    );
    assert_eq!(paths[6], "C:\\Chrome\\Profile 2\\Cache");
    assert_eq!(paths[14], "C:\\Chrome\\GraphiteDawnCache");
    assert!(out.iter().all(|t| t.1 == Category::BrowserCache));

    windows::chromium_caches(&data, None, &mut out);
    assert_eq!(out.len(), 15);
    windows::firefox_caches(&drive("C:"), Some(&vec![entry("abc.default")]), &mut out);
    assert_eq!(out[15].0.display(), "C:\\abc.default\\cache2");
}

#[test]
fn every_drive_has_a_recycle_bin_of_its_own() {
    let targets = windows::target_candidates(&me(), &env(), &vec![]);
    let bins: Vec<String> = targets
        .iter()
        .filter(|t| t.1 == Category::RecycleBin)
        .map(|t| t.0.display())
        .collect();
    assert_eq!(bins.len(), 24);
    assert_eq!(bins[0], "C:\\$Recycle.Bin");
    assert_eq!(bins[23], "Z:\\$Recycle.Bin");
}

#[test]
fn a_sync_engines_directory_stays_out_of_the_sweep() {
    let local = windows::local_app_data(&me(), &env());
    let dropbox = local.descend("Dropbox");
    let chat = local.descend("Chat/Cache");
    let targets = windows::system_targets(
        &me(),
        &env(),
        &vec![windows::Listing {
            dir: local.descend("Google/Chrome/User Data"),
            entries: vec![entry("Default")],
        }],
        &vec![
            dropbox.clone(),
            local.descend("Google/Chrome/User Data/Default/Cache"),
        ],
        vec![
            (dropbox.clone(), Category::AppWebCache),
            (chat.clone(), Category::AppWebCache),
        ],
    );
    let got: Vec<(String, Category)> = targets
        .iter()
        .map(|t| (t.0.display(), t.1))
        .collect();
    assert_eq!(
        got,
        vec![
            (dropbox.display(), Category::CloudMirror),
            (
                local.descend("Google/Chrome/User Data/Default/Cache").display(),
                Category::BrowserCache
            ),
            (chat.display(), Category::AppWebCache),
        ]
    );
    assert_eq!(windows::web_cache_roots(&me(), &env()).len(), 2);
    assert_eq!(
        unix::web_cache_roots(&FsPath::new("/h"))[0].display(),
        "/h/Library/Application Support"
    );
}

#[test]
fn a_shared_target_directory_is_a_build_cache() {
    let mut env = env();
    let shared = drive("D:").descend("target");
    env.cargo_target_dir = Some(shared.clone());
    let own = me().descend(".build_caches/cargo");
    let present = vec![own.clone(), shared.clone()];
    let found = windows::build_cache_targets(&me(), &env, &present);
    let paths: Vec<String> = found.iter().map(|t| t.0.display()).collect();
    assert_eq!(paths, vec![shared.display(), own.display()]);
    env.cargo_target_dir = Some(FsPath::new(""));
    assert_eq!(
        windows::build_cache_targets(&me(), &env, &present).len(),
        1
    );
}

#[test]
fn reserved_files_come_with_the_command_that_frees_them() {
    let present = vec![drive("C:").descend("hiberfil.sys")];
    let files = windows::reserved_system_files(&env(), &present);
    assert_eq!(files.len(), 1);
    assert!(files[0].1.contains("powercfg /h off"));
    assert_eq!(windows::reserved_candidates(&env()).len(), 3);
}

#[test]
fn powershell_is_asked_where_its_profile_is() {
    let answers = vec![
        None,
        Some("  \r\n".to_owned()),
        Some("C:\\Docs\\profile.ps1\r\n".to_owned()),
    ];
    assert_eq!(
        windows::told_profile(&answers).as_deref(),
        Some("C:\\Docs\\profile.ps1")
    );
    assert_eq!(windows::told_profile(&vec![None]), None);
    assert_eq!(
        windows::powershell_profile(&me(), None).display(),
        "C:\\Users\\me\\Documents\\WindowsPowerShell\\Microsoft.PowerShell_profile.ps1"
    );
    assert_eq!(
        windows::powershell_profile(&me(), Some(drive("D:"))).display(),
        "D:\\"
    );
    assert_eq!(
        unix::powershell_profile(&FsPath::new("/h")).display(),
        "/h/.config/powershell/Microsoft.PowerShell_profile.ps1"
    );
}
