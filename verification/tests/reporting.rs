use diskscout::category::Category;
use diskscout::clock::Timestamp;
use diskscout::dump::write_full_report;
use diskscout::found::{FoundDir, FoundFile, LargeDir, ReservedFile, ScanResult};
use diskscout::path::{FsPath, Part};
use diskscout::report::{print_report, Viewer};
use diskscout::style::{Line, Span, Style};

const DAY: u64 = 86_400;

fn days_ago(days: u64) -> Timestamp {
    Timestamp::from_epoch(Ok(((1_000 - days) * DAY, 0)))
}

fn viewer() -> Viewer {
    Viewer { home: FsPath::new("/h"), sep: '/', now: days_ago(0) }
}

fn dir(path: &str, category: Category, size: u64) -> FoundDir {
    FoundDir { path: FsPath::new(path), category, size, last_modified: days_ago(3) }
}

fn file(path: &str, size: u64) -> FoundFile {
    FoundFile { path: FsPath::new(path), size, modified: days_ago(200) }
}

fn scan() -> ScanResult {
    let odd = FsPath::new("/h/vms").child(&Part::Raw(vec![0xff], "\u{fffd}".to_owned()));
    ScanResult {
        dirs: vec![
            dir("/h/a/target", Category::RustTarget, 3 << 30),
            dir("/h/phone", Category::IphoneBackups, 1 << 30),
        ],
        large_files: vec![file("/h/big.mov", 200 << 20)],
        old_files: vec![],
        disk_images: vec![file("/h/setup.dmg", 1 << 30)],
        large_unknown_dirs: vec![LargeDir {
            path: FsPath::new("/h/vms"),
            size: 60 << 20,
            last_modified: days_ago(180),
            notable_children: vec![(FsPath::new("/h/vms/a"), 55 << 20), (odd, 51 << 20)],
        }],
        reserved_files: vec![ReservedFile {
            path: FsPath::new("/hiberfil.sys"),
            size: 2 << 30,
            hint: "powercfg /h off",
        }],
        permission_errors: 7,
    }
}

fn texts(lines: &[Line]) -> Vec<String> {
    lines.iter().map(|l| l.text()).collect()
}

#[test]
fn the_report_shows_what_was_found_and_nothing_else() {
    let rule = "─".repeat(60);
    let lines = print_report(&scan(), &viewer(), &vec!["Try this."]);
    assert_eq!(
        texts(&lines),
        vec![
            String::new(),
            "diskscout -- storage cleanup report".to_owned(),
            rule.clone(),
            String::new(),
            "  BUILD ARTIFACTS  3.0 GB".to_owned(),
            format!(
                "    {:<28} 3.0 GB (safe to delete)",
                Category::RustTarget.label()
            ),
            "          3.0 GB  ~/a/target  (3 days)".to_owned(),
            String::new(),
            "  MACOS & XCODE  1.0 GB".to_owned(),
            format!("    {:<28} 1.0 GB", Category::IphoneBackups.label()),
            "          1.0 GB  ~/phone  (3 days)".to_owned(),
            String::new(),
            "  UNEXPLORED LARGE DIRECTORIES  (not matched by any known pattern)".to_owned(),
            "    60 MB  ~/vms  (last used: 6 months)  [stale]".to_owned(),
            "           55 MB  a".to_owned(),
            "           51 MB  ?".to_owned(),
            String::new(),
            "  LARGE FILES  (review before deleting)".to_owned(),
            "          200 MB  ~/big.mov  (6 months)".to_owned(),
            String::new(),
            "  DISK IMAGES (.dmg / .iso / .pkg)  (forgotten installers)".to_owned(),
            "          1.0 GB  ~/setup.dmg  (6 months)".to_owned(),
            String::new(),
            rule,
            "  TOTAL RECLAIMABLE (dirs + disk images):  5.0 GB".to_owned(),
            "  note: 7 directories skipped due to permission errors".to_owned(),
            "  reserved: /hiberfil.sys  2.0 GB -- powercfg /h off".to_owned(),
            String::new(),
            "  Run with --delete to choose what to remove.".to_owned(),
            "  Run with --delete-targets to nuke all Rust target/ dirs immediately.".to_owned(),
            "  Try this.".to_owned(),
            String::new(),
        ]
    );
    assert_eq!(lines[1].spans[0].style, Style::Bold);
    assert_eq!(lines[4].spans[1].style, Style::BoldYellow);
}

#[test]
fn an_empty_scan_has_no_sections() {
    let lines = texts(&print_report(&ScanResult::default(), &viewer(), &vec![]));
    assert_eq!(lines.len(), 10);
    assert_eq!(lines[5], "  TOTAL RECLAIMABLE (dirs + disk images):  0 B");
}

#[test]
fn long_lists_are_cut_short_on_the_terminal_only() {
    let mut result = ScanResult::default();
    for i in 0..11u64 {
        result
            .dirs
            .push(dir(&format!("/h/d{i}"), Category::NodeModules, 100 - i));
    }
    for i in 0..16u64 {
        result.large_files.push(file(&format!("/h/f{i}"), 100 - i));
    }
    let lines = texts(&print_report(&result, &viewer(), &vec![]));
    assert!(lines.contains(&"      3 more...".to_owned()), "{lines:?}");
    assert!(lines.contains(&"      ... and 1 more".to_owned()), "{lines:?}");
    assert!(!lines.iter().any(|l| l.contains("~/d8 ")));

    let full = write_full_report(&result, &viewer());
    assert!(full.contains("~/d10 "));
    assert!(full.contains("~/f15 "));
}

#[test]
fn a_directory_is_stale_after_half_a_year() {
    let viewer = viewer();
    assert!(viewer.is_stale(days_ago(180)));
    assert!(!viewer.is_stale(days_ago(179)));
}

#[test]
fn the_full_report_is_plain_text() {
    let rule = "=".repeat(60);
    let label = Category::RustTarget.label();
    let backups = Category::IphoneBackups.label();
    assert_eq!(
        write_full_report(&scan(), &viewer()),
        format!(
            "diskscout -- full storage cleanup report\n\
             {rule}\n\
             \n\
             [BUILD ARTIFACTS]  3.0 GB\n\
             \n  {label}  3.0 GB  (safe to delete)\n\
             {0}    3.0 GB  ~/a/target  (3 days)\n\
             \n\
             [MACOS & XCODE]  1.0 GB\n\
             \n  {backups}  1.0 GB\n\
             {0}    1.0 GB  ~/phone  (3 days)\n\
             \n\
             [UNEXPLORED LARGE DIRECTORIES]  (not matched by any known pattern)\n\
             \n  60 MB  ~/vms  (last used: 6 months)  [stale]\n\
             {0}     55 MB  a\n\
             {0}     51 MB  ?\n\
             \n\
             [LARGE FILES]  (review before deleting)\n\
             {0}    200 MB  ~/big.mov  (6 months)\n\
             \n\
             [DISK IMAGES]  (.dmg / .iso / .pkg) -- forgotten installers\n\
             {0}    1.0 GB  ~/setup.dmg  (6 months)\n\
             \n\
             {rule}\n\
             TOTAL RECLAIMABLE (dirs + disk images):  5.0 GB\n\
             note: 7 directories skipped due to permission errors\n",
            "    "
        )
    );
}

#[test]
fn a_line_is_its_spans_put_together() {
    let line = Line::new(vec![Span::plain("a "), Span::new("b", Style::Cyan)]);
    assert_eq!(line.text(), "a b");
    assert_eq!(Line::blank().text(), "");
}
