use diskscout::category::Category;
use diskscout::path::{FsPath, Part};
use diskscout::sweep::{Entry, WebCacheSweep};
use diskscout::targets::{keep_outermost, keep_present, push_unclaimed, Target};
use diskscout::unix::{
    app_caches, container_caches, container_caches_in, darwin_user_dirs, file_provider_bundles,
    held_back_cache, instruments_traces, is_sync_container, system_targets, Container, SystemFacts,
};

fn shown(targets: &[Target]) -> Vec<(String, Category)> {
    targets
        .iter()
        .map(|(path, category)| (path.display(), *category))
        .collect()
}

fn paths(targets: &[Target]) -> Vec<String> {
    targets.iter().map(|(path, _)| path.display()).collect()
}

/// The entries of `dir` on a disk that consists of these directories.
fn listing(dir: &FsPath, dirs: &[&str]) -> Vec<Entry> {
    let mut names: Vec<String> = Vec::new();
    for text in dirs {
        let path = FsPath::new(text);
        if path.starts_with(dir) && path.steps.len() > dir.steps.len() {
            let name = path.steps[dir.steps.len()].part.text();
            if !names.contains(&name) {
                names.push(name);
            }
        }
    }
    names
        .iter()
        .map(|name| Entry { name: Part::name(name), is_dir: true })
        .collect()
}

fn app_web_caches(root: &str, dirs: &[&str]) -> Vec<String> {
    let mut sweep = WebCacheSweep::new(&vec![FsPath::new(root)]);
    while let Some((dir, depth)) = sweep.next() {
        let entries = listing(&dir, dirs);
        sweep.collect_web_caches(&dir, depth, &entries);
    }
    assert!(sweep.found.iter().all(|(_, c)| *c == Category::AppWebCache));
    paths(&sweep.found)
}

#[test]
fn a_web_cache_is_found_at_every_depth_and_never_descended_into() {
    // The three shapes seen in the wild: an app, a session partition, and
    // a browser profile.
    let plain = "/s/Discord/Cache";
    let partition = "/s/Notion/Partitions/notion/Service Worker";
    let profile = "/s/Google/Chrome/Default/Code Cache";
    // Chromium nests a directory of the same name inside the cache itself.
    let nested = "/s/Discord/Cache/Cache";

    let found = app_web_caches("/s", &[plain, partition, profile, nested]);

    assert!(found.contains(&plain.to_owned()), "{found:?}");
    assert!(found.contains(&partition.to_owned()), "{found:?}");
    assert!(found.contains(&profile.to_owned()), "{found:?}");
    assert!(
        !found.contains(&nested.to_owned()),
        "a nested match would be counted twice: {found:?}"
    );
}

#[test]
fn the_sweep_goes_no_deeper_than_a_profile() {
    let found = app_web_caches("/s", &["/s/a/b/c/Cache", "/s/a/b/c/d/Cache"]);
    assert_eq!(found, vec!["/s/a/b/c/Cache"]);
}

#[test]
fn the_sweep_refuses_to_enter_a_tree_of_real_user_data() {
    // A podcast app keeps downloaded episodes under a directory named Cache.
    let episodes = "/s/Group Containers/groups.com.apple.podcasts/Library/Cache";
    // A Store app's LocalCache is documented as persistent storage.
    let store = "/s/Packages/SomeApp_8wekyb/Cache";

    let found = app_web_caches("/s", &[episodes, store]);

    assert!(found.is_empty(), "{found:?}");
}

#[test]
fn an_entry_that_is_no_directory_is_passed_over() {
    let root = FsPath::new("/s");
    let mut sweep = WebCacheSweep::new(&vec![root]);
    let (dir, depth) = sweep.next().unwrap();
    let link = Entry { name: Part::name("Cache"), is_dir: false };
    sweep.collect_web_caches(&dir, depth, &vec![link]);
    assert!(sweep.next().is_none());
    assert!(sweep.found.is_empty());
}

// The exact shape that re-downloaded a 340 GB Drive account: the provider's
// container sits beside ordinary app containers and looks identical.
#[test]
fn a_sync_providers_cache_is_reported_but_not_swept() {
    let containers = FsPath::new("/c");
    let entries: Vec<Container> = ["com.google.drivefs.fpext", "com.spotify.client"]
        .iter()
        .map(|id| Container { name: Part::name(id), has_cache: true })
        .collect();

    let found = container_caches_in(
        &containers,
        &vec!["com.google.drivefs.fpext".to_owned()],
        &entries,
    );

    let category = |id: &str| {
        found
            .iter()
            .find(|(path, _)| path.starts_with(&containers.join(id)))
            .map(|(_, category)| *category)
    };
    assert_eq!(
        category("com.google.drivefs.fpext"),
        Some(Category::CloudMirror)
    );
    assert_eq!(
        category("com.spotify.client"),
        Some(Category::ContainerCaches)
    );
}

#[test]
fn a_containers_cache_is_found_only_at_the_sandbox_path() {
    let home = FsPath::new("/home");
    let containers = home.join("Library/Containers");
    let real = containers.join("com.apple.Safari/Data/Library/Caches");
    // A container that keeps no cache contributes nothing.
    let entries = vec![
        Container { name: Part::name("com.apple.Safari"), has_cache: true },
        Container { name: Part::name("com.empty.app"), has_cache: false },
    ];

    let found = container_caches_in(&containers, &vec![], &entries);

    assert_eq!(paths(&found), vec![real.display()]);
}

#[test]
fn without_an_answer_no_container_is_swept() {
    let entries = vec![Container { name: Part::name("com.x"), has_cache: true }];
    assert!(container_caches(&FsPath::new("/h"), &None, &entries).is_empty());
    assert_eq!(
        container_caches(&FsPath::new("/h"), &Some(String::new()), &entries).len(),
        1
    );
}

#[test]
fn a_held_back_path_survives_the_sweep_that_would_reclassify_it() {
    let held = "/Users/x/Library/Containers/com.apple.photoanalysisd/Data/Library/Caches";
    let ordinary = "/Users/x/Library/Containers/com.other/Data/Library/Caches";

    let mut out = vec![(FsPath::new(held), Category::ExpensiveCache)];
    push_unclaimed(
        &mut out,
        vec![
            (FsPath::new(held), Category::ContainerCaches),
            (FsPath::new(ordinary), Category::ContainerCaches),
        ],
    );

    assert_eq!(
        shown(&out),
        vec![
            (held.to_owned(), Category::ExpensiveCache),
            (ordinary.to_owned(), Category::ContainerCaches),
        ]
    );
}

// The container that cost a 340 GB re-download, plus the shapes around it:
// the extension's own container, the app that ships it, and an unrelated
// app that merely shares a name prefix.
#[test]
fn a_sync_providers_container_is_recognised_from_its_extension() {
    let providers = vec![
        "com.google.drivefs.fpext".to_owned(),
        "com.microsoft.OneDrive-mac.FileProvider".to_owned(),
        "com.apple.CloudDocs.iCloudDriveFileProvider".to_owned(),
    ];

    assert!(is_sync_container("com.google.drivefs.fpext", &providers));
    assert!(is_sync_container("com.google.drivefs", &providers));
    assert!(is_sync_container("com.microsoft.OneDrive-mac", &providers));
    assert!(is_sync_container("com.apple.CloudDocs", &providers));

    assert!(!is_sync_container("com.spotify.client", &providers));
    assert!(!is_sync_container("com.apple.Safari", &providers));
    // A prefix that is not a whole identifier segment is a different app.
    assert!(!is_sync_container("com.google.drivefsOther", &providers));
}

// ~/Library/Caches is regenerable by definition, which is why the sweep
// takes all of it; these are the entries where that is simply untrue.
#[test]
fn the_caches_that_are_not_caches_keep_their_own_category() {
    assert_eq!(
        held_back_cache("com.apple.bird"),
        Some(Category::CloudMirror)
    );
    assert_eq!(
        held_back_cache("com.spotify.client"),
        Some(Category::ExpensiveCache)
    );
    assert_eq!(held_back_cache("JetBrains"), Some(Category::ExpensiveCache));
    assert_eq!(held_back_cache("org.swift.swiftpm"), None);
}

#[test]
fn every_app_has_a_cache_entry_of_its_own() {
    let names = vec![Part::name("com.apple.bird"), Part::name("pip")];
    assert_eq!(
        shown(&app_caches(&FsPath::new("/h/Library/Caches"), &names, &vec![])),
        vec![
            ("/h/Library/Caches/com.apple.bird".to_owned(), Category::CloudMirror),
            ("/h/Library/Caches/pip".to_owned(), Category::MacOsCaches),
        ]
    );
}

#[test]
fn the_folder_that_googles_apps_share_is_split() {
    let caches = FsPath::new("/h/Library/Caches");
    let names = vec![Part::name("Google"), Part::name("pip")];
    let vendor = vec![
        Part::name("Chrome"),
        Part::name("Chrome Canary"),
        Part::name("AndroidStudio2024.1"),
    ];
    let found = app_caches(&caches, &names, &vendor);
    assert_eq!(
        shown(&found),
        vec![
            ("/h/Library/Caches/Google/Chrome".to_owned(), Category::ExpensiveCache),
            ("/h/Library/Caches/Google/Chrome Canary".to_owned(), Category::ExpensiveCache),
            ("/h/Library/Caches/Google/AndroidStudio2024.1".to_owned(), Category::MacOsCaches),
            ("/h/Library/Caches/pip".to_owned(), Category::MacOsCaches),
        ]
    );
    assert!(!found[0].1.safe_to_delete());
    assert!(found[2].1.safe_to_delete());
}

#[test]
fn the_registrys_answer_is_read_line_by_line() {
    let answer = "     com.google.drivefs.fpext(1.0)\n\n  com.apple.CloudDocs(2.5)\n(odd)\n";
    assert_eq!(
        file_provider_bundles(answer),
        vec!["com.google.drivefs.fpext", "com.apple.CloudDocs"]
    );
}

#[test]
fn a_target_inside_another_target_is_dropped() {
    let container = FsPath::new("/Users/x/Library/Containers/com.docker.docker/Data");
    let inner = container.join("Library/Caches");
    let sibling = FsPath::new("/Users/x/Library/Containers/com.other.app/Data");

    let kept = keep_outermost(vec![
        (inner.clone(), Category::ContainerCaches),
        (container.clone(), Category::DockerData),
        (sibling.clone(), Category::ContainerCaches),
        (container.clone(), Category::DockerData),
    ]);

    assert_eq!(
        paths(&kept),
        vec![container.display(), sibling.display()],
        "{kept:?}"
    );
}

// A name that merely starts with another's text is not inside it.
#[test]
fn keep_outermost_compares_whole_path_components() {
    let dir = FsPath::new("/a/b");
    let lookalike = FsPath::new("/a/b-backup");

    let kept = keep_outermost(vec![
        (lookalike.clone(), Category::MacOsCaches),
        (dir.clone(), Category::MacOsCaches),
    ]);

    assert_eq!(kept.len(), 2, "{kept:?}");
}

#[test]
fn removing_overlaps_again_or_in_another_order_changes_nothing() {
    let targets = || -> Vec<Target> {
        ["/b/c", "/a", "/b", "/a/x", "/b-2"]
            .iter()
            .map(|p| (FsPath::new(p), Category::MacOsCaches))
            .collect()
    };
    let kept = keep_outermost(targets());
    assert_eq!(paths(&kept), vec!["/a", "/b", "/b-2"]);
    assert_eq!(shown(&keep_outermost(keep_outermost(targets()))), shown(&kept));

    let mut shuffled = targets();
    shuffled.reverse();
    assert_eq!(paths(&keep_outermost(shuffled)), paths(&kept));

    let mut nested = targets();
    nested.push((FsPath::new("/b/c/d"), Category::AppWebCache));
    nested.push((FsPath::new("/a"), Category::AppWebCache));
    assert_eq!(shown(&keep_outermost(nested)), shown(&kept));
}

#[test]
fn the_first_category_of_a_path_named_twice_stands() {
    let kept = keep_outermost(vec![
        (FsPath::new("/a"), Category::CloudMirror),
        (FsPath::new("/a"), Category::AppWebCache),
    ]);
    assert_eq!(shown(&kept), vec![("/a".to_owned(), Category::CloudMirror)]);
}

#[test]
fn a_candidate_that_does_not_exist_is_left_out() {
    let kept = keep_present(
        vec![
            (FsPath::new("/a"), Category::NpmCache),
            (FsPath::new("/b"), Category::UvCache),
        ],
        &vec![FsPath::new("/b")],
    );
    assert_eq!(shown(&kept), vec![("/b".to_owned(), Category::UvCache)]);
}

#[test]
fn the_user_directories_are_found_through_either_answer() {
    let text = |dirs: Option<(FsPath, FsPath)>| {
        dirs.map(|(c, t)| (c.display(), t.display()))
    };
    let want = Some(("/var/folders/ab/C".to_owned(), "/var/folders/ab/T".to_owned()));
    assert_eq!(
        text(darwin_user_dirs(&Some(FsPath::new("/var/folders/ab/T/")), &None)),
        want
    );
    assert_eq!(
        text(darwin_user_dirs(&None, &Some("/var/folders/ab/C/\n".to_owned()))),
        want
    );
    assert_eq!(text(darwin_user_dirs(&None, &None)), None);
    assert_eq!(text(darwin_user_dirs(&Some(FsPath::new("tmp")), &None)), None);
    assert_eq!(text(darwin_user_dirs(&Some(FsPath::new("/")), &None)), None);
}

#[test]
fn abandoned_recordings_are_found_by_their_extension() {
    let dirs = Some((FsPath::new("/v/C"), FsPath::new("/v/T")));
    let names = vec![Part::name("run1.ktrace"), Part::name("notes.txt")];
    assert_eq!(
        paths(&instruments_traces(&dirs, true, &names)),
        vec!["/v/C/com.apple.dt.Instruments", "/v/T/run1.ktrace"]
    );
    assert_eq!(
        paths(&instruments_traces(&dirs, false, &names)),
        vec!["/v/T/run1.ktrace"]
    );
}

#[test]
fn the_fixed_targets_keep_the_category_of_the_most_specific_rule() {
    let home = FsPath::new("/h");
    let photo = "Library/Containers/com.apple.photoanalysisd/Data/Library/Caches";
    let facts = SystemFacts {
        derived_data: None,
        present: vec![
            home.join(photo),
            home.join(".cargo/registry"),
            FsPath::new("/brew/cache"),
        ],
        tmpdir: None,
        getconf: None,
        recordings: false,
        temp_entries: vec![],
        web_caches: vec![(home.join("Library/Application Support/X/Cache"), Category::AppWebCache)],
        file_providers: Some("com.sync.ext(1)\n".to_owned()),
        containers: vec![
            Container { name: Part::name("com.apple.photoanalysisd"), has_cache: true },
            Container { name: Part::name("com.sync"), has_cache: true },
        ],
        brew: Some("/brew/cache\n".to_owned()),
        app_caches: vec![Part::name("GeoServices"), Part::name("Google")],
        vendor_caches: vec![Part::name("Chrome"), Part::name("AndroidStudio2024.1")],
    };
    assert_eq!(
        shown(&system_targets(&home, facts)),
        vec![
            (format!("/h/{photo}"), Category::ExpensiveCache),
            ("/h/.cargo/registry".to_owned(), Category::CargoRegistry),
            ("/h/Library/Application Support/X/Cache".to_owned(), Category::AppWebCache),
            (
                "/h/Library/Containers/com.sync/Data/Library/Caches".to_owned(),
                Category::CloudMirror
            ),
            ("/brew/cache".to_owned(), Category::HomebrewCache),
            ("/h/Library/Caches/GeoServices".to_owned(), Category::ExpensiveCache),
            ("/h/Library/Caches/Google/Chrome".to_owned(), Category::ExpensiveCache),
            ("/h/Library/Caches/Google/AndroidStudio2024.1".to_owned(), Category::MacOsCaches),
        ]
    );
}
