use diskscout::category::Category;
use diskscout::cleaner::{
    after_removal, category_freed, clear_contents, clear_entry, confirm, delete_category, delete_safe, force_remove_dir_all,
    interactive_delete, remove, remove_reporting, removing, sweep_confirmed, sweep_preview,
    sweep_prompt, total_freed, AfterAttempt, Attempt, EntryMethod, Method, Session,
};
use diskscout::clock::Timestamp;
use diskscout::found::{FoundDir, ScanResult};
use diskscout::path::FsPath;
use diskscout::report::Viewer;
use diskscout::sections::all_categories;
use diskscout::style::{Line, Style};
use diskscout::unix::clear_readonly;

fn found(path: &str, category: Category, size: u64) -> FoundDir {
    FoundDir {
        path: FsPath::new(path),
        category,
        size,
        last_modified: Timestamp::unix_epoch(),
    }
}

fn viewer() -> Viewer {
    Viewer { home: FsPath::new("/h"), sep: '/', now: Timestamp::from_epoch(Ok((0, 0))) }
}

fn texts(lines: &[Line]) -> Vec<String> {
    lines.iter().map(|l| l.text()).collect()
}

// An empty scan deletes nothing, so these reach the validation and stop.
fn check(except: &str) -> Result<Vec<Category>, String> {
    delete_safe(&ScanResult::default(), &vec![except.to_owned()])
}

#[test]
fn except_accepts_a_category_this_scan_did_not_find() {
    assert!(check("browser-caches").is_ok());
    assert!(check("recycle-bin").is_ok());
    // Naming one that is never auto-deleted is redundant, not wrong.
    assert!(check("iphone-backups").is_ok());
}

#[test]
fn except_rejects_a_name_that_is_no_category_at_all() {
    assert!(check("brwoser-caches").is_err());
    assert!(check("").is_err());
}

/// One directory removed, with this much left of it if it still exists.
fn removed(dir: FoundDir, left: Option<u64>, step: Result<(), String>) -> (u64, Option<String>) {
    let category = dir.category;
    let result = ScanResult { dirs: vec![dir], ..ScanResult::default() };
    let mut session = Session::new(&result, vec![category]);
    assert_eq!(session.offer(), Some(category));
    session.accept();
    let outcome = session.settle(left, step);
    assert_eq!(session.freed, outcome.0);
    assert!(session.job().is_none());
    outcome
}

// An abandoned Instruments recording is a loose file, not a directory.
#[test]
fn a_file_target_is_removed_rather_than_walked() {
    let trace = found("/t/instrumentsAbc.ktrace", Category::InstrumentsTraces, 4_096);
    assert_eq!(remove(true, trace.category), Method::File);
    let (freed, error) = removed(trace, None, Ok(()));
    assert_eq!(error, None);
    assert_eq!(freed, 4_096);
}

// Go marks every module directory read-only, so the whole category failed
// with "Permission denied" on a tree the user owns outright.
#[test]
fn a_deliberately_unwritable_cache_is_still_removed() {
    let cache = found("/t/mod", Category::GoModCache, 1_024);
    assert_eq!(remove(false, cache.category), Method::Tree);
    assert!(matches!(
        force_remove_dir_all(Attempt::Denied("Permission denied".to_owned())),
        AfterAttempt::ClearAndRetry
    ));
    // Read and execute only, which is exactly how Go leaves them.
    assert_eq!(clear_readonly(0o555), Some(0o755));
    let (freed, error) = removed(cache, None, Ok(()));
    assert_eq!(error, None);
    assert_eq!(freed, 1_024);
}

// A contents-only category keeps the directory the OS expects to exist.
#[test]
fn clearing_a_live_cache_leaves_the_directory_behind() {
    let cache = found("/t/Cache", Category::AppWebCache, 2_048);
    assert_eq!(remove(false, cache.category), Method::Contents);
    assert_eq!(clear_entry(true), EntryMethod::Tree);
    assert_eq!(clear_entry(false), EntryMethod::FileOrLink);
    let (freed, error) = removed(cache, Some(0), clear_contents(&vec![true]));
    assert_eq!(error, None);
    assert_eq!(freed, 2_048);
}

#[test]
fn a_tree_that_fails_otherwise_is_given_up() {
    assert!(matches!(
        force_remove_dir_all(Attempt::Removed),
        AfterAttempt::Done
    ));
    match force_remove_dir_all(Attempt::Failed("busy".to_owned())) {
        AfterAttempt::GiveUp(why) => assert_eq!(why, "busy"),
        other => panic!("{other:?}"),
    }
}

#[test]
fn entries_that_stay_are_counted() {
    assert_eq!(clear_contents(&vec![]), Ok(()));
    assert_eq!(
        clear_contents(&vec![true, false, true, false]),
        Err("2 entries still in use".to_owned())
    );
}

#[test]
fn only_what_is_gone_counts() {
    let cache = || found("/x", Category::NpmCache, 100);
    let busy = || Err("2 entries still in use".to_owned());
    let why = Some("2 entries still in use".to_owned());
    assert_eq!(removed(cache(), Some(40), busy()), (60, why.clone()));
    assert_eq!(removed(cache(), Some(40), Ok(())), (60, None));
    // A cache can have grown since it was measured.
    assert_eq!(removed(cache(), Some(400), busy()), (0, why.clone()));
    assert_eq!(after_removal(100, None, busy()), (100, why));
    assert_eq!(after_removal(100, Some(100), Ok(())), (0, None));
}

fn scan() -> ScanResult {
    ScanResult {
        dirs: vec![
            found("/h/a/target", Category::RustTarget, 3 << 30),
            found("/h/b/target", Category::RustTarget, 1 << 30),
            found("/h/.npm/_cacache", Category::NpmCache, 5 << 20),
            found("/h/backup", Category::IphoneBackups, 9 << 30),
        ],
        ..ScanResult::default()
    }
}

#[test]
fn a_sweep_takes_the_regenerable_categories_that_are_not_held_back() {
    let result = scan();
    assert_eq!(
        delete_safe(&result, &vec![]),
        Ok(vec![Category::RustTarget, Category::NpmCache])
    );
    assert_eq!(
        delete_safe(&result, &vec!["npm-cache".to_owned()]),
        Ok(vec![Category::RustTarget])
    );
    assert_eq!(
        delete_safe(
            &result,
            &vec!["rust-target".to_owned(), "npm-cache".to_owned()]
        ),
        Ok(vec![])
    );
    // Nothing on the command line adds what is for review.
    assert_eq!(
        delete_safe(&result, &vec!["iphone-backups".to_owned()]),
        Ok(vec![Category::RustTarget, Category::NpmCache])
    );
    assert_eq!(
        delete_safe(&result, &vec!["npm-cache".to_owned(), "nmp".to_owned()]),
        Err(
            "unknown category 'nmp'.\n  Deletable categories in this scan: rust-target, npm-cache"
                .to_owned()
        )
    );
}

#[test]
fn the_preview_names_every_category_with_its_slug() {
    let result = scan();
    let except = vec!["uv-cache".to_owned()];
    let cats = delete_safe(&result, &except).unwrap();
    assert_eq!(
        texts(&sweep_preview(&result, &cats, &except)),
        vec![
            "  excluded: uv-cache".to_owned(),
            String::new(),
            "  About to delete these categories:".to_owned(),
            format!(
                "    {:<28} {:>9}  (2 dirs, --except rust-target)",
                Category::RustTarget.label(),
                "4.0 GB"
            ),
            format!(
                "    {:<28} {:>9}  (1 dir, --except npm-cache)",
                Category::NpmCache.label(),
                "5 MB"
            ),
            format!("    {:<28} {:>9}", "TOTAL", "4.0 GB"),
        ]
    );
    assert_eq!(
        texts(&sweep_preview(&result, &vec![], &except)),
        vec!["Nothing regenerable found."]
    );
    assert_eq!(sweep_prompt().text(), "  Delete all of it? [y/N] ");
}

#[test]
fn an_answer_is_yes_in_either_case_only() {
    assert!(confirm("y\n"));
    assert!(confirm("  Y \r\n"));
    assert!(!confirm("yes\n"));
    assert!(!confirm("\n"));
    assert!(!confirm("n\n"));
    assert!(sweep_confirmed(true, ""));
    assert!(sweep_confirmed(false, "y\n"));
    assert!(!sweep_confirmed(false, "\n"));
}

#[test]
fn a_session_goes_through_the_categories_that_hold_something() {
    let result = scan();
    let mut session = Session::new(&result, all_categories());
    assert_eq!(session.offer(), Some(Category::RustTarget));
    session.accept();
    assert_eq!(session.job().unwrap().size, 3 << 30);
    assert_eq!(session.settle(Some(1 << 30), Ok(())).0, 2 << 30);
    assert_eq!(session.settle(None, Ok(())).0, 1 << 30);
    assert!(session.job().is_none());
    assert_eq!(session.offer(), Some(Category::IphoneBackups));
    session.decline();
    assert_eq!(session.offer(), Some(Category::NpmCache));
    session.accept();
    assert_eq!(session.settle(Some(0), Ok(())).0, 5 << 20);
    assert_eq!(session.offer(), None);
    assert_eq!(session.freed, (3 << 30) + (5 << 20));
    assert_eq!(
        session.accepted,
        vec![Category::RustTarget, Category::NpmCache]
    );
}

#[test]
fn an_offer_says_what_would_go() {
    let mut result = scan();
    for i in 0..7 {
        result
            .dirs
            .push(found(&format!("/h/w{i}"), Category::AppWebCache, 100 - i));
    }
    assert_eq!(
        texts(&interactive_delete(&result, Category::AppWebCache, &viewer())),
        vec![
            "",
            "  App web caches -- 679 B [safe to delete]",
            "    ~/w0",
            "    ~/w1",
            "    ~/w2",
            "    ~/w3",
            "    ~/w4",
            "    ... and 2 more",
            "    (contents are cleared; the directory itself stays)",
        ]
    );
    let lines = interactive_delete(&result, Category::IphoneBackups, &viewer());
    assert_eq!(lines.len(), 3);
    assert!(lines[1].text().ends_with(" -- 9.0 GB [review carefully]"));
}

#[test]
fn all_directories_of_a_category_are_announced() {
    let result = scan();
    let label = Category::RustTarget.label();
    assert_eq!(
        texts(&delete_category(&result, Category::RustTarget, &viewer())),
        vec![
            String::new(),
            format!("  2 {label}  (4.0 GB)"),
            "    ~/a/target".to_owned(),
            "    ~/b/target".to_owned(),
        ]
    );
    assert_eq!(
        texts(&delete_category(&result, Category::UvCache, &viewer())),
        vec![format!("No {} found.", Category::UvCache.label())]
    );
}

#[test]
fn a_removal_says_how_it_went() {
    let dir = found("/h/x", Category::NpmCache, 2_048);
    let gone = remove_reporting(&dir, 2_048, &None, &viewer(), "  ");
    assert_eq!(gone.line.text(), "  deleted ~/x");
    assert_eq!(gone.line.spans[1].style, Style::Red);
    assert!(!gone.is_error);

    let why = Some("2 entries still in use".to_owned());
    let partial = remove_reporting(&dir, 1_024, &why, &viewer(), "    ");
    assert_eq!(
        partial.line.text(),
        "    partial ~/x -- 1 KB freed, 2 entries still in use"
    );
    assert!(!partial.is_error);

    let failed = remove_reporting(&dir, 0, &why, &viewer(), "  ");
    assert_eq!(failed.line.text(), "  error /h/x: 2 entries still in use");
    assert!(failed.is_error);

    assert_eq!(
        removing(Category::NpmCache).text(),
        format!("  {}", Category::NpmCache.label())
    );
    assert_eq!(total_freed(1 << 30).text(), "  Total freed: 1.0 GB");
    assert_eq!(category_freed(1 << 20).text(), "  1 MB freed.");
}
