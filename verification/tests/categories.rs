use diskscout::category::Category;
use diskscout::sections::{all_categories, section_cats};

#[test]
fn only_regenerable_categories_are_marked_safe() {
    assert!(Category::RustTarget.safe_to_delete());
    assert!(Category::NodeModules.safe_to_delete());
    assert!(Category::UvCache.safe_to_delete());
    assert!(Category::WindowsTemp.safe_to_delete());
    assert!(Category::RecycleBin.safe_to_delete());
    assert!(!Category::IphoneBackups.safe_to_delete());
    assert!(!Category::IosSimulators.safe_to_delete());
    assert!(!Category::PythonEnv.safe_to_delete());
    // Deleting these breaks repair/uninstall or throws away real state.
    assert!(!Category::WindowsOld.safe_to_delete());
    assert!(!Category::InstallerCache.safe_to_delete());
    assert!(!Category::DockerData.safe_to_delete());
    // Reported so the space is visible, never auto-deleted: one is real
    // data behind a placeholder, the other needs root and a re-download.
    assert!(!Category::CloudMirror.safe_to_delete());
    assert!(!Category::SimulatorRuntimes.safe_to_delete());
    assert!(!Category::AndroidEmulator.safe_to_delete());
}

#[test]
fn slugs_are_cli_safe_and_unique() {
    assert_eq!(Category::BrowserCache.slug(), "browser-caches");
    assert_eq!(Category::RustTarget.slug(), "rust-target");
    assert_eq!(Category::DotNetBuild.slug(), "net-bin-obj");
    assert_eq!(Category::YarnPnpmCache.slug(), "yarn-pnpm-store");

    let all: Vec<String> = all_categories().into_iter().map(Category::slug).collect();
    let mut unique = all.clone();
    unique.sort();
    unique.dedup();
    assert_eq!(all.len(), unique.len(), "two categories share a slug");
    assert!(
        all.iter().all(|s| !s.is_empty()
            && s.chars()
                .all(|c| c.is_ascii_lowercase() || c.is_ascii_digit() || c == '-')),
        "a slug would need shell quoting"
    );
}

#[test]
fn live_os_directories_are_emptied_not_removed() {
    assert!(Category::WindowsTemp.delete_contents_only());
    assert!(Category::RecycleBin.delete_contents_only());
    assert!(Category::BrowserCache.delete_contents_only());
    // Project-local artifacts go away wholesale.
    assert!(!Category::RustTarget.delete_contents_only());
    assert!(!Category::NodeModules.delete_contents_only());
}

#[test]
fn the_protected_caches_are_never_auto_deleted() {
    assert!(!Category::ExpensiveCache.safe_to_delete());
    assert!(Category::ExpensiveCache.delete_contents_only());
}

#[test]
fn a_sync_container_is_never_offered_for_deletion() {
    assert!(!Category::CloudMirror.safe_to_delete());
}

#[test]
fn forty_eight_categories_in_six_sections() {
    let sections = section_cats();
    assert_eq!(sections.len(), 6);
    let shown: usize = sections.iter().map(|s| s.cats.len()).sum();
    assert_eq!(shown, 48);
    let all = all_categories();
    assert_eq!(all.len(), 48);
    assert_eq!(all.iter().filter(|c| c.safe_to_delete()).count(), 32);
    assert_eq!(all[0], Category::RustTarget);
    assert_eq!(all[47], Category::AndroidEmulator);
}

#[test]
fn a_label_is_shown_as_it_is() {
    assert_eq!(Category::InstrumentsTraces.slug(), "instruments-traces");
    assert_eq!(Category::MacOsCaches.slug(), "macos-caches");
    assert_eq!(Category::AppWebCache.slug(), "app-web-caches");
    assert_eq!(Category::InstrumentsTraces.label(), "Instruments traces");
}
