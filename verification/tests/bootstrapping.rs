use diskscout::bootstrap::{
    closing, expand_tilde, file_failure, home_dir, ignored_source, install_binary,
    install_failure, installing, patch_rc, persist_source_env, resolve_source, run, source_rc,
    status, write_completions, BootstrapArgs, Candidate, CargoArg, Shell, Step,
};
use diskscout::discover::{is_diskscout_workspace, Discovery, Site};
use diskscout::path::{FsPath, Part};
use diskscout::style::Style;
use diskscout::sweep::Entry;

fn text(path: &FsPath) -> String {
    path.display()
}

fn candidate(path: &str, is_checkout: bool) -> Candidate {
    Candidate { path: FsPath::new(path), is_checkout }
}

#[test]
fn completions_alone_install_nothing() {
    let args = BootstrapArgs { only_completions: true, debug: false };
    assert_eq!(run(&args), vec![Step::WriteCompletions]);
    let args = BootstrapArgs { only_completions: false, debug: true };
    assert_eq!(
        run(&args),
        vec![
            Step::ResolveSource,
            Step::InstallBinary,
            Step::WriteCompletions,
            Step::PersistSource,
        ]
    );
}

#[test]
fn the_shell_is_known_by_its_path() {
    assert_eq!(Shell::detect(false, "/bin/zsh"), Shell::Zsh);
    assert_eq!(Shell::detect(false, "/usr/local/bin/fish"), Shell::Fish);
    assert_eq!(Shell::detect(false, "/bin/bash"), Shell::Bash);
    assert_eq!(Shell::detect(false, ""), Shell::Bash);
    assert_eq!(Shell::detect(true, "/bin/zsh"), Shell::Pwsh);
    assert_eq!(Shell::Pwsh.reload_hint(), ". $PROFILE");
    assert_eq!(Shell::Zsh.reload_hint(), "exec $SHELL");
    let last: Vec<String> = closing(true, Shell::Fish).iter().map(|l| l.text()).collect();
    assert_eq!(last, vec!["", "done", "  Run exec $SHELL to load completions now."]);
    assert_eq!(closing(false, Shell::Zsh)[1].text(), "setup complete");
}

#[test]
fn the_source_is_taken_from_the_first_place_that_has_it() {
    let cwd = || Ok(candidate("/cwd", true));
    let source = |named, found, cwd| resolve_source(named, found, cwd, Shell::Zsh).map(|p| text(&p));

    assert_eq!(
        source(Some(candidate("/env", true)), Some(FsPath::new("/found")), cwd()),
        Ok("/env".to_owned())
    );
    assert_eq!(
        source(Some(candidate("/env", false)), Some(FsPath::new("/found")), cwd()),
        Ok("/found".to_owned())
    );
    assert_eq!(source(None, None, cwd()), Ok("/cwd".to_owned()));
    assert_eq!(
        source(None, None, Ok(candidate("/cwd", false))),
        Err(
            "no diskscout checkout found.\n  Set DISKSCOUT_SRC to the repo path, e.g.\n    export DISKSCOUT_SRC=~/Developer/diskscout"
                .to_owned()
        )
    );
    assert_eq!(
        source(None, None, Err("gone".to_owned())),
        Err("cannot read cwd: gone".to_owned())
    );
    let windows = resolve_source(None, None, Ok(candidate("/cwd", false)), Shell::Pwsh);
    assert!(windows
        .err()
        .unwrap()
        .ends_with("$env:DISKSCOUT_SRC = \"$HOME\\Developer\\diskscout\""));
    assert_eq!(
        ignored_source(&FsPath::new("/x")).text(),
        "  note: $DISKSCOUT_SRC = '/x' is not a diskscout checkout -- ignoring"
    );
}

#[test]
fn a_tilde_stands_for_home() {
    let home = Some(FsPath::new("/home/me"));
    assert_eq!(text(&expand_tilde("~/src/x", &home)), "/home/me/src/x");
    assert_eq!(text(&expand_tilde("~\\x", &home)), "/home/me/x");
    assert_eq!(text(&expand_tilde("/abs", &home)), "/abs");
    assert_eq!(text(&expand_tilde("~", &home)), "~");
    assert_eq!(text(&expand_tilde("~/x", &None)), "~/x");
}

#[test]
fn a_missing_home_is_an_error() {
    assert_eq!(
        home_dir(None, "$HOME").map(|p| text(&p)),
        Err("$HOME is not set".to_owned())
    );
    assert_eq!(
        home_dir(Some(FsPath::new("/h")), "$HOME").map(|p| text(&p)),
        Ok("/h".to_owned())
    );
}

#[test]
fn cargo_is_called_with_the_profile_that_was_asked_for() {
    let words = |debug| -> Vec<String> {
        install_binary(debug)
            .iter()
            .map(|arg| match arg {
                CargoArg::Word(word) => word.to_string(),
                CargoArg::Source => "<source>".to_owned(),
            })
            .collect()
    };
    assert_eq!(words(false), vec!["install", "--path", "<source>", "--force"]);
    assert_eq!(
        words(true),
        vec!["install", "--path", "<source>", "--force", "--debug"]
    );
    assert_eq!(installing(true), "installing (debug-build)...");
    assert_eq!(installing(false), "installing (release-build)...");
    assert_eq!(
        install_failure(Some(101), &FsPath::new("/src")),
        "cargo install failed (exit Some(101)); run `cargo install --path /src` manually"
    );
    assert_eq!(
        install_failure(Some(-9), &FsPath::new("/src")),
        "cargo install failed (exit Some(-9)); run `cargo install --path /src` manually"
    );
    assert!(install_failure(None, &FsPath::new("/src")).contains("(exit None)"));
    assert_eq!(
        file_failure("mkdir", &FsPath::new("/x"), "denied"),
        "mkdir /x: denied"
    );
    let line = status("source", "/src", Style::Cyan);
    assert_eq!(line.text(), "source          /src");
}

#[test]
fn every_shell_has_a_place_for_completions() {
    let home = FsPath::new("/h");
    let profile = FsPath::new("/h/Docs/profile.ps1");
    let plan = |shell, bash| write_completions(shell, &home, &profile, bash);

    let zsh = plan(Shell::Zsh, false);
    assert_eq!(text(&zsh.dir), "/h/.zsh/completions");
    assert_eq!(zsh.file, "_diskscout");
    let edit = zsh.rc.unwrap();
    assert_eq!(text(&edit.path), "/h/.zshrc");
    assert_eq!(
        edit.block,
        "# diskscout completions\nfpath=(~/.zsh/completions $fpath)\nautoload -U compinit && compinit\n"
    );

    assert_eq!(text(&plan(Shell::Bash, true).rc.unwrap().path), "/h/.bash_profile");
    assert_eq!(text(&plan(Shell::Bash, false).rc.unwrap().path), "/h/.bashrc");
    assert_eq!(plan(Shell::Bash, false).file, "diskscout");

    let fish = plan(Shell::Fish, false);
    assert_eq!(text(&fish.dir), "/h/.config/fish/completions");
    assert!(fish.rc.is_none());

    let pwsh = plan(Shell::Pwsh, false);
    assert_eq!(text(&pwsh.dir), "/h/Docs/Completions");
    assert_eq!(
        pwsh.rc.unwrap().block,
        "# diskscout completions\n. \"/h/Docs/Completions/diskscout.ps1\"\n"
    );
}

#[test]
fn a_startup_file_is_patched_once() {
    let marker = "# diskscout completions";
    let block = "# diskscout completions\nload\n";
    let more = patch_rc("alias x=y\n", marker, block).unwrap();
    assert_eq!(more, "\n# diskscout completions\nload\n");
    assert_eq!(patch_rc(&format!("alias x=y\n{more}"), marker, block), None);
}

#[test]
fn the_source_is_written_down_once() {
    let source = FsPath::new("/src/diskscout");
    let line = persist_source_env(Shell::Bash, "", &source).unwrap();
    assert_eq!(line, "\nexport DISKSCOUT_SRC=\"/src/diskscout\"\n");
    assert_eq!(persist_source_env(Shell::Bash, &line, &source), None);
    let line = persist_source_env(Shell::Pwsh, "", &source).unwrap();
    assert_eq!(line, "\n$env:DISKSCOUT_SRC = \"/src/diskscout\"\n");
    assert_eq!(persist_source_env(Shell::Pwsh, &line, &source), None);
    // The line for fish is no export, so it does not show that it was written.
    let line = persist_source_env(Shell::Fish, "", &source).unwrap();
    assert_eq!(line, "\nset -gx DISKSCOUT_SRC \"/src/diskscout\"\n");
    assert!(persist_source_env(Shell::Fish, &line, &source).is_some());

    let home = FsPath::new("/h");
    let profile = FsPath::new("/p.ps1");
    let rc = |shell, zshrc| text(&source_rc(shell, &home, &profile, zshrc));
    assert_eq!(rc(Shell::Zsh, true), "/h/.zshrc");
    assert_eq!(rc(Shell::Bash, true), "/h/.zshrc");
    assert_eq!(rc(Shell::Bash, false), "/h/.bashrc");
    assert_eq!(rc(Shell::Fish, true), "/h/.config/fish/config.fish");
    assert_eq!(rc(Shell::Pwsh, true), "/p.ps1");
}

// ---------------------------------------------------------------------------
// Discovery
// ---------------------------------------------------------------------------

fn site(dir: &str, dirs: &[&str], checkouts: &[&str]) -> Site {
    let here = FsPath::new(dir);
    let mut entries = vec![];
    for text in dirs {
        let path = FsPath::new(text);
        if path.parent().is_some_and(|p| p.same(&here)) {
            entries.push(Entry { name: path.file_name().unwrap().clone(), is_dir: true });
        }
    }
    entries.push(Entry { name: Part::name("file"), is_dir: false });
    let manifest = checkouts
        .contains(&dir)
        .then_some("[package]\nname = \"diskscout\"\n".to_owned());
    Site { manifest, real: None, entries }
}

fn discovered(roots: &[&str], dirs: &[&str], checkouts: &[&str]) -> Option<String> {
    let mut search = Discovery::new(&roots.iter().map(|r| FsPath::new(r)).collect());
    while let Some((dir, left)) = search.next() {
        let seen = site(&text(&dir), dirs, checkouts);
        search.scan(&dir, left, seen);
    }
    search.discover_workspace().map(|p| text(&p))
}

#[test]
fn a_checkout_is_known_by_its_manifest() {
    assert!(is_diskscout_workspace(&Some("name = \"diskscout\"".to_owned())));
    assert!(!is_diskscout_workspace(&Some("name = \"other\"".to_owned())));
    assert!(!is_diskscout_workspace(&None));
}

#[test]
fn the_first_checkout_in_path_order_is_found() {
    let dirs = ["/d/z", "/d/b", "/d/b/x", "/d/.hid", "/d/target", "/d/.hid/a", "/d/target/a"];
    assert_eq!(
        discovered(&["/d"], &dirs, &["/d/z", "/d/b/x", "/d/.hid/a", "/d/target/a"]),
        Some("/d/b/x".to_owned())
    );
    assert_eq!(discovered(&["/d"], &dirs, &["/d/.hid/a", "/d/target/a"]), None);
    assert_eq!(
        discovered(&["/d", "/c"], &["/c/x"], &["/c/x"]),
        Some("/c/x".to_owned())
    );
}

#[test]
fn the_search_is_four_levels_deep() {
    let dirs = ["/d/1", "/d/1/2", "/d/1/2/3", "/d/1/2/3/4", "/d/1/2/3/4/5"];
    assert_eq!(
        discovered(&["/d"], &dirs, &["/d/1/2/3/4"]),
        Some("/d/1/2/3/4".to_owned())
    );
    assert_eq!(discovered(&["/d"], &dirs, &["/d/1/2/3/4/5"]), None);
}

#[test]
fn a_checkout_is_known_by_its_real_path() {
    let mut search = Discovery::new(&vec![FsPath::new("/link")]);
    let (dir, left) = search.next().unwrap();
    let mut seen = site("/link", &[], &["/link"]);
    seen.real = Some(FsPath::new("/real"));
    search.scan(&dir, left, seen);
    assert!(search.next().is_none());
    assert_eq!(search.discover_workspace().map(|p| text(&p)), Some("/real".to_owned()));
}
