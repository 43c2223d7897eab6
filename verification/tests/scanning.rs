use diskscout::category::Category;
use diskscout::classify::Surroundings;
use diskscout::clock::Timestamp;
use diskscout::found::{FoundDir, FoundFile, ScanResult};
use diskscout::measure::{check_file, dir_stats, is_disk_image, FileLimits, Measured};
use diskscout::path::{FsPath, Part};
use diskscout::scanner::{
    reserved_files, scan_unknown_large_dirs, Answer, DirStat, Question, ScanConfig, Scanner, Visit,
    Walk,
};
use diskscout::sections::all_categories;
use diskscout::unix::{build_cache_targets, skip_paths};

const MB: u64 = 1_048_576;

fn at(secs: u64) -> Timestamp {
    Timestamp::from_epoch(Ok((secs, 0)))
}

fn plain(size: u64) -> Measured {
    Measured { size, local: true, link: None, modified: Some(at(1_000)) }
}

#[test]
fn a_hard_linked_file_is_counted_once() {
    let mut blob = plain(8_192);
    blob.link = Some((1, 77));
    let linked = blob;
    let (size, _) = dir_stats(&vec![blob, linked]);
    assert_eq!(size, 8_192, "the second link is the same allocation");

    let mut other_disk = blob;
    other_disk.link = Some((2, 77));
    assert_eq!(dir_stats(&vec![blob, other_disk]).0, 16_384);
}

#[test]
fn dir_stats_sums_nested_files() {
    let (size, newest) = dir_stats(&vec![plain(100), plain(250)]);
    assert_eq!(size, 350);
    assert!(newest.later_than(&Timestamp::unix_epoch()));
}

#[test]
fn dir_stats_on_an_empty_dir_is_zero() {
    let (size, newest) = dir_stats(&vec![]);
    assert_eq!(size, 0);
    assert_eq!(newest, Timestamp::unix_epoch());
}

#[test]
fn the_newest_file_that_counts_dates_the_directory() {
    let mut stub = plain(10);
    stub.local = false;
    stub.modified = Some(at(9_000));
    let mut newer = plain(1);
    newer.modified = Some(at(5_000));
    let mut undated = plain(2);
    undated.modified = None;
    let (size, newest) = dir_stats(&vec![plain(3), newer, stub, undated]);
    assert_eq!(size, 6);
    assert_eq!(newest, at(5_000));
}

fn found(path: &str, category: Category, size: u64) -> FoundDir {
    FoundDir {
        path: FsPath::new(path),
        category,
        size,
        last_modified: Timestamp::unix_epoch(),
    }
}

#[test]
fn dirs_by_category_filters_and_sorts_largest_first() {
    let result = ScanResult {
        dirs: vec![
            found("/a", Category::RustTarget, 10),
            found("/b", Category::NodeModules, 999),
            found("/c", Category::RustTarget, 500),
        ],
        ..ScanResult::default()
    };
    let targets = result.dirs_by_category(Category::RustTarget);
    assert_eq!(targets.len(), 2);
    assert_eq!(targets[0].size, 500);
    assert_eq!(targets[1].size, 10);
    assert_eq!(result.category_total(Category::RustTarget), 510);
}

#[test]
fn grand_total_counts_dirs_and_disk_images() {
    let result = ScanResult {
        dirs: vec![found("/a", Category::RustTarget, 100)],
        disk_images: vec![FoundFile {
            path: FsPath::new("/x.dmg"),
            size: 25,
            modified: Timestamp::unix_epoch(),
        }],
        ..ScanResult::default()
    };
    assert_eq!(result.grand_total(), 125);
}

#[test]
fn the_categories_add_up_to_the_grand_total() {
    let result = ScanResult {
        dirs: vec![
            found("/a", Category::RustTarget, 1),
            found("/b", Category::CloudMirror, 20),
            found("/c", Category::RustTarget, 300),
            found("/d", Category::AndroidEmulator, 4_000),
        ],
        ..ScanResult::default()
    };
    let sum: u64 = all_categories()
        .into_iter()
        .map(|c| result.category_total(c))
        .sum();
    assert_eq!(sum, 4_321);
    assert_eq!(result.grand_total(), 4_321);
}

#[test]
fn installers_and_images_are_told_by_their_extension() {
    assert!(is_disk_image("dmg"));
    assert!(is_disk_image("appxbundle"));
    assert!(!is_disk_image("DMG"));
    assert!(!is_disk_image("zip"));
}

fn limits() -> FileLimits {
    FileLimits { large: 100 * MB, old_after: 180 * 86_400, old_min: 10 * MB }
}

fn checked(path: &str, file: &Measured, now: u64) -> (usize, usize, usize) {
    let (mut large, mut stale, mut images) = (vec![], vec![], vec![]);
    check_file(
        &FsPath::new(path),
        file,
        &limits(),
        &at(now),
        &mut large,
        &mut stale,
        &mut images,
    );
    (large.len(), stale.len(), images.len())
}

#[test]
fn a_file_goes_into_every_list_that_it_belongs_in() {
    let soon = 1_000;
    let late = 1_000 + 180 * 86_400;
    assert_eq!(checked("/a.bin", &plain(MB), soon), (0, 0, 0));
    assert_eq!(checked("/a.bin", &plain(100 * MB), soon), (1, 0, 0));
    assert_eq!(checked("/a.bin", &plain(100 * MB - 1), soon), (0, 0, 0));
    assert_eq!(checked("/a.bin", &plain(10 * MB), late), (0, 1, 0));
    assert_eq!(checked("/a.bin", &plain(10 * MB), late - 1), (0, 0, 0));
    assert_eq!(checked("/a.bin", &plain(10 * MB - 1), late), (0, 0, 0));
    assert_eq!(checked("/a.dmg", &plain(MB + 1), soon), (0, 0, 1));
    assert_eq!(checked("/a.dmg", &plain(MB), soon), (0, 0, 0));
    assert_eq!(checked("/a.dmg", &plain(200 * MB), late), (1, 1, 1));

    // A placeholder occupies nothing here.
    let mut stub = plain(200 * MB);
    stub.local = false;
    assert_eq!(checked("/a.dmg", &stub, late), (0, 0, 0));

    // One that cannot be dated is as old as the epoch.
    let mut undated = plain(10 * MB);
    undated.modified = None;
    assert_eq!(checked("/a.bin", &undated, 180 * 86_400), (0, 1, 0));
    // One from the future is not old.
    assert_eq!(checked("/a.bin", &plain(10 * MB), 10), (0, 0, 0));
}

#[test]
fn the_case_of_an_images_extension_does_not_matter() {
    assert_eq!(checked("/a.DMG", &plain(2 * MB), 1_000).2, 1);
    // The Kelvin sign is the letter k in lower case.
    assert_eq!(checked("/a.p\u{212a}g", &plain(2 * MB), 1_000).2, 1);
    assert_eq!(checked("/.dmg", &plain(2 * MB), 1_000).2, 0);
}

// ---------------------------------------------------------------------------
// The walk
// ---------------------------------------------------------------------------

fn config(root: &str, include_system: bool) -> ScanConfig {
    ScanConfig {
        root: FsPath::new(root),
        home: FsPath::new("/home/me"),
        old_after_days: 180,
        large_over_mb: 100,
        include_system,
    }
}

fn start(root: &str) -> Walk {
    let scanner = Scanner::new(config(root, true));
    let defaults = skip_paths(&scanner.config.home);
    scanner.start(
        defaults,
        vec![(FsPath::new("/home/me/.npm/_cacache"), Category::NpmCache)],
    )
}

fn dir(path: &str, depth: usize) -> Visit {
    Visit { path: FsPath::new(path), is_dir: true, is_file: false, depth }
}

fn file(path: &str) -> Visit {
    Visit { path: FsPath::new(path), is_dir: false, is_file: true, depth: 3 }
}

fn nothing() -> Answer {
    Answer { around: Surroundings { present: vec![], listing: vec![] }, file: None }
}

fn beside(name: &str) -> Answer {
    Answer {
        around: Surroundings { present: vec![name.to_owned()], listing: vec![Part::name(name)] },
        file: None,
    }
}

fn sized(size: u64) -> Answer {
    Answer { around: nothing().around, file: Some(plain(size)) }
}

#[test]
fn the_walk_keeps_out_of_what_it_skips() {
    let mut walk = start("/home/me");
    for path in [
        "/home/me/Library",
        "/home/me/.bun/install/global/node_modules",
        "/home/me/.npm/_cacache/x",
        "/home/me/miniconda3/lib/__pycache__",
    ] {
        assert_eq!(walk.ask(&dir(path, 2)), Question::Prune, "{path}");
        assert!(walk.visit(&dir(path, 2), &nothing(), &at(0)), "{path}");
    }
    assert_eq!(walk.ask(&dir("/home/me/code/.git", 2)), Question::Prune);
    assert!(walk.pending.is_empty());
    // The sibling of bun's global prefix is a real cache, and is walked.
    assert_eq!(
        walk.ask(&dir("/home/me/.bun/install/cache", 3)),
        Question::Surroundings
    );
}

#[test]
fn a_directory_that_counts_is_taken_and_not_entered() {
    let mut walk = start("/home/me");
    let target = dir("/home/me/code/x/target", 3);
    assert_eq!(walk.ask(&target), Question::Surroundings);
    assert!(!walk.visit(&target, &nothing(), &at(0)));
    assert!(walk.pending.is_empty());
    assert!(walk.visit(&target, &beside("Cargo.toml"), &at(0)));
    assert_eq!(walk.pending.len(), 1);
    assert_eq!(walk.pending[0].1, Category::RustTarget);
    // The root of a scan is never taken as a whole.
    assert_eq!(walk.ask(&dir("/home/me/node_modules", 0)), Question::Pass);
}

#[test]
fn a_walk_takes_nothing_inside_an_app_bundle() {
    let mut walk = start("/");
    let inside = dir("/Applications/X.app/Contents/node_modules", 4);
    assert!(!walk.visit(&inside, &beside("package.json"), &at(0)));
    assert!(walk.pending.is_empty());
    let outside = dir("/work/X/Contents/node_modules", 4);
    assert!(walk.visit(&outside, &beside("package.json"), &at(0)));
    assert_eq!(walk.pending.len(), 1);
}

#[test]
fn what_sits_elsewhere_does_not_change_the_category() {
    let mut walk = start("/");
    let pods = dir("/work/App/Pods", 3);
    assert!(!walk.visit(&pods, &beside("Cargo.toml"), &at(0)));
    assert!(walk.visit(&pods, &beside("Podfile"), &at(0)));
}

#[test]
fn a_file_is_measured_and_noted() {
    let mut walk = start("/home/me");
    let video = file("/home/me/a.mov");
    assert_eq!(walk.ask(&video), Question::Metadata);
    assert!(!walk.visit(&video, &nothing(), &at(1_000)));
    assert!(walk.large_files.is_empty());
    assert!(!walk.visit(&video, &sized(100 * MB), &at(1_000)));
    assert_eq!(walk.large_files.len(), 1);
    walk.error();
    walk.error();
    assert_eq!(walk.errors, 2);
}

#[test]
fn a_default_skip_that_contains_the_root_is_dropped() {
    let walk = start("/Volumes/disk");
    assert_eq!(
        walk.ask(&dir("/Volumes/disk/x", 1)),
        Question::Surroundings
    );
    // Skips inside the requested root still apply.
    let everything = start("/");
    assert_eq!(everything.ask(&dir("/System", 1)), Question::Prune);
}

#[test]
fn without_the_system_its_targets_are_neither_measured_nor_skipped() {
    let scanner = Scanner::new(config("/home/me", false));
    let mut walk = scanner.start(
        vec![],
        vec![(FsPath::new("/home/me/.npm/_cacache"), Category::NpmCache)],
    );
    assert_eq!(
        walk.ask(&dir("/home/me/.npm/_cacache", 2)),
        Question::Surroundings
    );
    assert!(walk.take_targets(vec![]).is_empty());
}

#[test]
fn the_targets_of_a_scan_do_not_overlap() {
    let mut walk = start("/home/me");
    walk.visit(&dir("/home/me/x/target", 2), &beside("Cargo.toml"), &at(0));
    walk.visit(
        &dir("/home/me/.build_caches/cargo/node_modules", 4),
        &nothing(),
        &at(0),
    );
    let home = FsPath::new("/home/me");
    let caches = build_cache_targets(&home, &vec![home.join(".build_caches/cargo")]);
    let targets: Vec<String> = walk
        .take_targets(caches)
        .iter()
        .map(|t| t.0.display())
        .collect();
    assert_eq!(
        targets,
        vec![
            "/home/me/.build_caches/cargo",
            "/home/me/.npm/_cacache",
            "/home/me/x/target",
        ]
    );
}

#[test]
fn a_result_counts_nothing_twice() {
    let mut walk = start("/home/me");
    walk.visit(&dir("/home/me/x/node_modules", 2), &nothing(), &at(0));
    walk.visit(&dir("/home/me/x/node_modules/y/node_modules", 4), &nothing(), &at(0));
    let dirs = walk
        .take_targets(vec![(FsPath::new("/home/me/x"), Category::RustTarget)])
        .into_iter()
        .map(|(path, category)| FoundDir { path, category, size: 9, last_modified: at(0) })
        .collect();
    let (result, _) = walk.into_result(dirs, vec![]);
    for (i, a) in result.dirs.iter().enumerate() {
        for (j, b) in result.dirs.iter().enumerate() {
            assert!(i == j || !a.path.starts_with(&b.path));
        }
    }
    assert_eq!(result.dirs.len(), 2);
}

#[test]
fn the_result_is_sorted_cut_and_free_of_empty_directories() {
    let mut walk = start("/home/me");
    for i in 0..40 {
        walk.visit(&file(&format!("/home/me/f{i}")), &sized((100 + i) * MB), &at(1_000));
    }
    // The same file twice.
    walk.visit(&file("/home/me/f39"), &sized(139 * MB), &at(1_000));
    walk.error();
    let (result, search) = walk.into_result(
        vec![
            found("/home/me/small", Category::NpmCache, 5),
            found("/home/me/empty", Category::NpmCache, 0),
            found("/home/me/big", Category::UvCache, 50),
        ],
        vec![],
    );
    assert_eq!(result.dirs.len(), 2);
    assert_eq!(result.dirs[0].size, 50);
    assert_eq!(result.large_files.len(), 30);
    assert_eq!(result.large_files[0].size, 139 * MB);
    assert_eq!(result.large_files[1].size, 138 * MB);
    assert_eq!(result.large_files[29].size, 110 * MB);
    assert_eq!(result.permission_errors, 1);
    assert_eq!(search.known.len(), 2);
}

#[test]
fn the_limits_come_from_the_configuration() {
    let limits = Scanner::new(config("/", true)).limits();
    assert_eq!(limits.large, 104_857_600);
    assert_eq!(limits.old_after, 15_552_000);
    assert_eq!(limits.old_min, 10_485_760);
}

// ---------------------------------------------------------------------------
// Unexplored directories
// ---------------------------------------------------------------------------

#[test]
fn the_second_pass_looks_where_no_category_does() {
    let walk = start("/home/me");
    let (_, mut search) = walk.into_result(
        vec![found("/home/me/x/target", Category::RustTarget, 5)],
        vec![],
    );
    assert!(!search.visit(&dir("/home/me", 0)));
    assert!(!search.visit(&dir("/home/me/x", 1)));
    assert!(search.visit(&dir("/home/me/x/target", 2)));
    assert!(search.visit(&dir("/home/me/x/.git", 2)));
    assert!(search.visit(&dir("/home/me/Library", 1)));
    assert!(!search.visit(&file("/home/me/x/readme")));
    assert!(!search.visit(&dir("/home/me/vms", 1)));
    let candidates: Vec<String> = search.candidates.iter().map(|p| p.display()).collect();
    assert_eq!(candidates, vec!["/home/me/x", "/home/me/vms"]);
}

fn stat(path: &str, mb: u64) -> DirStat {
    DirStat { path: FsPath::new(path), size: mb * MB, last_modified: at(0) }
}

#[test]
fn an_unexplored_directory_is_reported_with_its_largest_children() {
    let dirs = scan_unknown_large_dirs(vec![
        stat("/h/vms", 900),
        stat("/h/vms/a", 300),
        stat("/h/vms/b", 250),
        stat("/h/vms/c", 100),
        stat("/h/vms/d", 90),
        stat("/h/vms/e", 80),
        stat("/h/vms/a/deep", 299),
        stat("/h/other", 50),
        stat("/h/tiny", 49),
    ]);
    let paths: Vec<String> = dirs.iter().map(|d| d.path.display()).collect();
    assert_eq!(paths, vec!["/h/vms", "/h/other"]);
    let children: Vec<String> = dirs[0]
        .notable_children
        .iter()
        .map(|c| c.0.display())
        .collect();
    assert_eq!(children, vec!["/h/vms/a", "/h/vms/b", "/h/vms/c", "/h/vms/d"]);
    assert!(dirs[1].notable_children.is_empty());
}

#[test]
fn a_directory_as_large_as_its_parent_is_not_reported_beside_it() {
    let dirs = scan_unknown_large_dirs(vec![
        stat("/h/a", 60),
        stat("/h/a/only", 60),
        stat("/h/a/only/child", 60),
        stat("/h/b", 70),
    ]);
    let paths: Vec<String> = dirs.iter().map(|d| d.path.display()).collect();
    assert_eq!(paths, vec!["/h/b", "/h/a"]);
}

#[test]
fn no_more_than_twenty_five_unexplored_directories_are_reported() {
    let stats = (0..30).map(|i| stat(&format!("/h/d{i}"), 60 + i)).collect();
    let dirs = scan_unknown_large_dirs(stats);
    assert_eq!(dirs.len(), 25);
    assert_eq!(dirs[0].size, 89 * MB);
    assert_eq!(dirs[24].size, 65 * MB);
}

#[test]
fn a_reserved_file_that_cannot_be_read_is_left_out() {
    let files = vec![
        (FsPath::new("/pagefile.sys"), "resize"),
        (FsPath::new("/swapfile.sys"), "goes away"),
    ];
    let reserved = reserved_files(files, &vec![None, Some(42)]);
    assert_eq!(reserved.len(), 1);
    assert_eq!(reserved[0].size, 42);
    assert_eq!(reserved[0].hint, "goes away");
}
