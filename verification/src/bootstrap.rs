//! The hidden `__bootstrap` command: install diskscout and wire up shell
//! completions.
//!
//! Source resolution order:
//!   1. `DISKSCOUT_SRC` if set and pointing at a diskscout checkout
//!   2. auto-discovery scan under the platform's usual checkout roots
//!   3. the current working directory
//!
//! Once resolved, the path is written back as an `export DISKSCOUT_SRC=...`
//! line in the shell rc file so the next run skips discovery.

use vstd::prelude::*;

use crate::path::{path_join, path_of, path_parent, FsPath, PathView};
use crate::platform::path_view;
use crate::style::{plain, styled, Line, LineView, Span, Style};
use crate::text::{
    chars_of, contains, left_aligned, lemma_occurs_in_concat, occurs_at, occurs_in, pad_right,
    signed_decimal, signed_number, starts_with, string_of, views,
};

verus! {

pub const SRC_ENV: &'static str = "DISKSCOUT_SRC";

#[derive(Debug)]
pub struct BootstrapArgs {
    /// Write or refresh shell completions without reinstalling the binary.
    pub only_completions: bool,
    /// Build with cargo's debug profile: faster link, slower binary.
    pub debug: bool,
}

// ---------------------------------------------------------------------------
// What is to be done
// ---------------------------------------------------------------------------

#[derive(Debug, Clone, Copy, PartialEq, Eq, Structural)]
pub enum Step {
    ResolveSource,
    InstallBinary,
    WriteCompletions,
    PersistSource,
}

/// The steps of the command, in order; the first that fails ends it.
pub fn run(args: &BootstrapArgs) -> (r: Vec<Step>)
    ensures
        args.only_completions ==> r@ == seq![Step::WriteCompletions],
        !args.only_completions ==> r@ == seq![
            Step::ResolveSource,
            Step::InstallBinary,
            Step::WriteCompletions,
            Step::PersistSource,
        ],
{
    if args.only_completions {
        return vec![Step::WriteCompletions];
    }
    vec![Step::ResolveSource, Step::InstallBinary, Step::WriteCompletions, Step::PersistSource]
}

/// What is said when all of it is done.
pub open spec fn closing_lines(only_completions: bool, hint: Seq<char>) -> Seq<LineView> {
    seq![
        LineView::empty(),
        seq![
            styled(
                if only_completions {
                    "done"@
                } else {
                    "setup complete"@
                },
                Style::BoldGreen,
            ),
        ],
        seq![
            plain("  Run "@),
            styled(hint, Style::Cyan),
            plain(" to load completions now."@),
        ],
    ]
}

pub fn closing(only_completions: bool, shell: Shell) -> (r: Vec<Line>)
    ensures
        views(r@) == closing_lines(only_completions, shell.hint()),
{
    let done: Vec<Span> = vec![
        Span::new(
            if only_completions {
                "done"
            } else {
                "setup complete"
            },
            Style::BoldGreen,
        ),
    ];
    let hint: Vec<Span> = vec![
        Span::plain("  Run "),
        Span::new(shell.reload_hint(), Style::Cyan),
        Span::plain(" to load completions now."),
    ];
    assert(views(done@) =~= closing_lines(only_completions, shell.hint())[1]);
    assert(views(hint@) =~= closing_lines(only_completions, shell.hint())[2]);
    let r: Vec<Line> = vec![Line::blank(), Line::new(done), Line::new(hint)];
    assert(views(r@) =~= closing_lines(only_completions, shell.hint()));
    r
}

/// A label and what it is about.
pub open spec fn status_line(label: Seq<char>, value: Seq<char>, style: Style) -> LineView {
    seq![styled(pad_right(label, 14), Style::Dimmed), plain("  "@), styled(value, style)]
}

pub fn status(label: &str, value: &str, style: Style) -> (r: Line)
    ensures
        r@ == status_line(label@, value@, style),
{
    let spans: Vec<Span> = vec![
        Span::new(left_aligned(label, 14).as_str(), Style::Dimmed),
        Span::plain("  "),
        Span::new(value, style),
    ];
    assert(views(spans@) =~= status_line(label@, value@, style));
    Line::new(spans)
}

// ---------------------------------------------------------------------------
// Shells
// ---------------------------------------------------------------------------

#[derive(Debug, Clone, Copy, PartialEq, Eq, Structural)]
pub enum Shell {
    Zsh,
    Bash,
    Fish,
    Pwsh,
}

pub open spec fn shell_named(windows: bool, shell: Seq<char>) -> Shell {
    if windows {
        Shell::Pwsh
    } else if occurs_in("zsh"@, shell) {
        Shell::Zsh
    } else if occurs_in("fish"@, shell) {
        Shell::Fish
    } else {
        Shell::Bash
    }
}

impl Shell {
    /// The shell that `$SHELL` names. Windows has no `$SHELL`; PowerShell is
    /// the shell that has completions worth generating, and cmd.exe has none at
    /// all.
    pub fn detect(windows: bool, shell: &str) -> (r: Shell)
        ensures
            r == shell_named(windows, shell@),
    {
        if windows {
            return Shell::Pwsh;
        }
        if contains(shell, "zsh") {
            Shell::Zsh
        } else if contains(shell, "fish") {
            Shell::Fish
        } else {
            Shell::Bash
        }
    }

    pub open spec fn hint(self) -> Seq<char> {
        match self {
            Shell::Pwsh => ". $PROFILE"@,
            _ => "exec $SHELL"@,
        }
    }

    /// What to tell the user to run so the new completions load now.
    pub fn reload_hint(self) -> (r: &'static str)
        ensures
            r@ == self.hint(),
    {
        match self {
            Shell::Pwsh => ". $PROFILE",
            _ => "exec $SHELL",
        }
    }
}

// ---------------------------------------------------------------------------
// The source
// ---------------------------------------------------------------------------

/// The home directory, or why there is none.
pub fn home_dir(home: Option<FsPath>, var: &str) -> (r: Result<FsPath, String>)
    ensures
        home matches Some(path) ==> r == Ok::<FsPath, String>(path),
        home is None ==> r is Err && r->Err_0@ == var@ + " is not set"@,
{
    match home {
        Some(path) => Ok(path),
        None => {
            let mut message = var.to_owned();
            message.append(" is not set");
            Err(message)
        },
    }
}

/// The path that `s` spells, a leading `~` standing for the home directory.
pub open spec fn tilde_path(s: Seq<char>, home: Option<PathView>) -> PathView {
    match home {
        Some(home) => if "~/"@.is_prefix_of(s) || "~\\"@.is_prefix_of(s) {
            path_join(home, s.skip(2))
        } else {
            path_of(s)
        },
        None => path_of(s),
    }
}

pub fn expand_tilde(s: &str, home: &Option<FsPath>) -> (r: FsPath)
    ensures
        r@ == tilde_path(s@, path_view(*home)),
{
    if starts_with(s, "~/") || starts_with(s, "~\\") {
        if let Some(home) = home {
            let chars = chars_of(s);
            proof {
                reveal_strlit("~/");
                reveal_strlit("~\\");
            }
            let rest = string_of(&chars, 2, chars.len());
            assert(rest@ =~= s@.skip(2));
            return home.join(rest.as_str());
        }
    }
    FsPath::new(s)
}

/// A directory that may be a checkout, and whether it is one.
pub struct Candidate {
    pub path: FsPath,
    pub is_checkout: bool,
}

pub open spec fn example_text(shell: Shell) -> Seq<char> {
    match shell {
        Shell::Pwsh => "$env:DISKSCOUT_SRC = \"$HOME\\Developer\\diskscout\""@,
        _ => "export DISKSCOUT_SRC=~/Developer/diskscout"@,
    }
}

pub open spec fn no_source_text(shell: Shell) -> Seq<char> {
    "no diskscout checkout found.\n  Set DISKSCOUT_SRC to the repo path, e.g.\n    "@
        + example_text(shell)
}

/// The checkout to install from: the one that the variable names, else the one
/// that the search found, else the current directory. `cwd` is an error
/// message where there is no current directory to be had.
pub fn resolve_source(
    named: Option<Candidate>,
    found: Option<FsPath>,
    cwd: Result<Candidate, String>,
    shell: Shell,
) -> (r: Result<FsPath, String>)
    ensures
        named matches Some(c) && c.is_checkout ==> r == Ok::<FsPath, String>(named->0.path),
        !(named is Some && named->0.is_checkout) ==> {
            &&& found matches Some(path) ==> r == Ok::<FsPath, String>(path)
            &&& found is None && cwd is Err ==> r is Err && r->Err_0@ == "cannot read cwd: "@
                + cwd->Err_0@
            &&& found is None && cwd is Ok && cwd->Ok_0.is_checkout ==> r == Ok::<FsPath, String>(
                cwd->Ok_0.path,
            )
            &&& found is None && cwd is Ok && !cwd->Ok_0.is_checkout ==> r is Err && r->Err_0@
                == no_source_text(shell)
        },
{
    if let Some(candidate) = named {
        if candidate.is_checkout {
            return Ok(candidate.path);
        }
    }
    if let Some(path) = found {
        return Ok(path);
    }
    match cwd {
        Ok(candidate) => {
            if candidate.is_checkout {
                return Ok(candidate.path);
            }
        },
        Err(why) => {
            let mut message = "cannot read cwd: ".to_owned();
            message.append(why.as_str());
            return Err(message);
        },
    }
    let mut message =
        "no diskscout checkout found.\n  Set DISKSCOUT_SRC to the repo path, e.g.\n    ".to_owned();
    message.append(
        match shell {
            Shell::Pwsh => "$env:DISKSCOUT_SRC = \"$HOME\\Developer\\diskscout\"",
            _ => "export DISKSCOUT_SRC=~/Developer/diskscout",
        },
    );
    Err(message)
}

/// What is said of a variable that names no checkout.
pub open spec fn ignored_line(path: Seq<char>) -> LineView {
    seq![
        plain("  "@),
        styled("note:"@, Style::Dimmed),
        plain(
            " $DISKSCOUT_SRC = '"@ + path + "' is not a diskscout checkout -- ignoring"@,
        ),
    ]
}

pub fn ignored_source(path: &FsPath) -> (r: Line)
    ensures
        r@ == ignored_line(path@.text()),
{
    let mut text = " $DISKSCOUT_SRC = '".to_owned();
    text.append(path.display().as_str());
    text.append("' is not a diskscout checkout -- ignoring");
    let spans: Vec<Span> = vec![
        Span::plain("  "),
        Span::new("note:", Style::Dimmed),
        Span::plain(text.as_str()),
    ];
    assert(views(spans@) =~= ignored_line(path@.text()));
    Line::new(spans)
}

// ---------------------------------------------------------------------------
// The binary
// ---------------------------------------------------------------------------

/// One argument of `cargo`.
#[derive(Debug, Clone, Copy)]
pub enum CargoArg {
    Word(&'static str),
    /// The path of the checkout.
    Source,
}

pub enum CargoArgView {
    Word(Seq<char>),
    Source,
}

impl View for CargoArg {
    type V = CargoArgView;

    open spec fn view(&self) -> CargoArgView {
        match self {
            CargoArg::Word(word) => CargoArgView::Word(word@),
            CargoArg::Source => CargoArgView::Source,
        }
    }
}

pub open spec fn cargo_args(debug: bool) -> Seq<CargoArgView> {
    let args = seq![
        CargoArgView::Word("install"@),
        CargoArgView::Word("--path"@),
        CargoArgView::Source,
        CargoArgView::Word("--force"@),
    ];
    if debug {
        args.push(CargoArgView::Word("--debug"@))
    } else {
        args
    }
}

/// How `cargo` is called to install the binary.
pub fn install_binary(debug: bool) -> (r: Vec<CargoArg>)
    ensures
        views(r@) == cargo_args(debug),
{
    let mut args: Vec<CargoArg> = vec![
        CargoArg::Word("install"),
        CargoArg::Word("--path"),
        CargoArg::Source,
        CargoArg::Word("--force"),
    ];
    if debug {
        args.push(CargoArg::Word("--debug"));
    }
    assert(views(args@) =~= cargo_args(debug));
    args
}

/// What is said before the build.
pub fn installing(debug: bool) -> (r: &'static str)
    ensures
        r@ == (if debug {
            "installing (debug-build)..."@
        } else {
            "installing (release-build)..."@
        }),
{
    if debug {
        "installing (debug-build)..."
    } else {
        "installing (release-build)..."
    }
}

/// How an exit code is shown; a process that was killed has none.
pub open spec fn exit_text(code: Option<i32>) -> Seq<char> {
    match code {
        Some(code) => "Some("@ + signed_decimal(code as int) + ")"@,
        None => "None"@,
    }
}

fn exit_shown(code: Option<i32>) -> (r: String)
    ensures
        r@ == exit_text(code),
{
    match code {
        Some(code) => {
            let mut out = "Some(".to_owned();
            out.append(signed_number(code).as_str());
            out.append(")");
            out
        },
        None => "None".to_owned(),
    }
}

/// What is said of a build that failed.
pub fn install_failure(code: Option<i32>, source: &FsPath) -> (r: String)
    ensures
        r@ == "cargo install failed (exit "@ + exit_text(code) + "); run `cargo install --path "@
            + source@.text() + "` manually"@,
{
    let mut out = "cargo install failed (exit ".to_owned();
    out.append(exit_shown(code).as_str());
    out.append("); run `cargo install --path ");
    out.append(source.display().as_str());
    out.append("` manually");
    out
}

/// What is said of a file operation that failed.
pub fn file_failure(action: &str, path: &FsPath, why: &str) -> (r: String)
    ensures
        r@ == action@ + " "@ + path@.text() + ": "@ + why@,
{
    let mut out = action.to_owned();
    out.append(" ");
    out.append(path.display().as_str());
    out.append(": ");
    out.append(why);
    out
}

// ---------------------------------------------------------------------------
// Completions
// ---------------------------------------------------------------------------

pub open spec fn completion_marker() -> Seq<char> {
    "# diskscout completions"@
}

/// An edit of a startup file.
pub struct RcEdit {
    pub path: FsPath,
    /// What shows that the edit was made before.
    pub marker: &'static str,
    pub block: String,
}

#[verifier::ext_equal]
pub struct RcEditView {
    pub path: PathView,
    pub marker: Seq<char>,
    pub block: Seq<char>,
}

impl View for RcEdit {
    type V = RcEditView;

    open spec fn view(&self) -> RcEditView {
        RcEditView { path: self.path@, marker: self.marker@, block: self.block@ }
    }
}

pub open spec fn edit_view(edit: Option<RcEdit>) -> Option<RcEditView> {
    match edit {
        Some(edit) => Some(edit@),
        None => None,
    }
}

/// Where the completions go, and the edit of the startup file that loads them.
pub struct Completions {
    pub dir: FsPath,
    pub file: &'static str,
    pub rc: Option<RcEdit>,
}

pub open spec fn powershell_dir(home: PathView, profile: PathView) -> PathView {
    match path_parent(profile) {
        Some(parent) => path_join(parent, "Completions"@),
        None => path_join(home, "Completions"@),
    }
}

pub open spec fn completion_dir(shell: Shell, home: PathView, profile: PathView) -> PathView {
    match shell {
        Shell::Zsh => path_join(home, ".zsh/completions"@),
        Shell::Bash => path_join(home, ".bash_completion.d"@),
        Shell::Fish => path_join(home, ".config/fish/completions"@),
        Shell::Pwsh => powershell_dir(home, profile),
    }
}

pub open spec fn completion_file(shell: Shell) -> Seq<char> {
    match shell {
        Shell::Zsh => "_diskscout"@,
        Shell::Bash => "diskscout"@,
        Shell::Fish => "diskscout.fish"@,
        Shell::Pwsh => "diskscout.ps1"@,
    }
}

pub open spec fn completion_edit(
    shell: Shell,
    home: PathView,
    profile: PathView,
    has_bash_profile: bool,
) -> Option<RcEditView> {
    match shell {
        Shell::Zsh => Some(
            RcEditView {
                path: path_join(home, ".zshrc"@),
                marker: completion_marker(),
                block: completion_marker()
                    + "\nfpath=(~/.zsh/completions $fpath)\nautoload -U compinit && compinit\n"@,
            },
        ),
        Shell::Bash => Some(
            RcEditView {
                path: if has_bash_profile {
                    path_join(home, ".bash_profile"@)
                } else {
                    path_join(home, ".bashrc"@)
                },
                marker: completion_marker(),
                block: completion_marker()
                    + "\n[ -f ~/.bash_completion.d/diskscout ] && source ~/.bash_completion.d/diskscout\n"@,
            },
        ),
        Shell::Fish => None,
        Shell::Pwsh => Some(
            RcEditView {
                path: profile,
                marker: completion_marker(),
                block: completion_marker() + "\n. \""@ + path_join(
                    powershell_dir(home, profile),
                    "diskscout.ps1"@,
                ).text() + "\"\n"@,
            },
        ),
    }
}

/// Where the completions of a shell go. `profile` is where `$PROFILE` is.
pub fn write_completions(
    shell: Shell,
    home: &FsPath,
    profile: &FsPath,
    has_bash_profile: bool,
) -> (r: Completions)
    ensures
        r.dir@ == completion_dir(shell, home@, profile@),
        r.file@ == completion_file(shell),
        edit_view(r.rc) == completion_edit(
            shell,
            home@,
            profile@,
            has_bash_profile,
        ),
{
    let marker = "# diskscout completions";
    match shell {
        Shell::Zsh => {
            let mut block = marker.to_owned();
            block.append(
                "\nfpath=(~/.zsh/completions $fpath)\nautoload -U compinit && compinit\n",
            );
            Completions {
                dir: home.join(".zsh/completions"),
                file: "_diskscout",
                rc: Some(RcEdit { path: home.join(".zshrc"), marker, block }),
            }
        },
        Shell::Bash => {
            let mut block = marker.to_owned();
            block.append(
                "\n[ -f ~/.bash_completion.d/diskscout ] && source ~/.bash_completion.d/diskscout\n",
            );
            let rc = if has_bash_profile {
                home.join(".bash_profile")
            } else {
                home.join(".bashrc")
            };
            Completions {
                dir: home.join(".bash_completion.d"),
                file: "diskscout",
                rc: Some(RcEdit { path: rc, marker, block }),
            }
        },
        // fish auto-loads this directory; no rc edit needed.
        Shell::Fish => Completions {
            dir: home.join(".config/fish/completions"),
            file: "diskscout.fish",
            rc: None,
        },
        Shell::Pwsh => {
            let dir = match profile.parent() {
                Some(parent) => parent.join("Completions"),
                None => home.join("Completions"),
            };
            let mut block = marker.to_owned();
            block.append("\n. \"");
            block.append(dir.join("diskscout.ps1").display().as_str());
            block.append("\"\n");
            Completions {
                dir,
                file: "diskscout.ps1",
                rc: Some(RcEdit { path: profile.clone(), marker, block }),
            }
        },
    }
}

/// What an edit appends to a startup file that holds `existing`.
pub open spec fn addition(
    existing: Seq<char>,
    marker: Seq<char>,
    block: Seq<char>,
) -> Option<Seq<char>> {
    if occurs_in(marker, existing) {
        None
    } else {
        Some("\n"@ + block)
    }
}

pub open spec fn text_of(text: Option<String>) -> Option<Seq<char>> {
    match text {
        Some(text) => Some(text@),
        None => None,
    }
}

/// What to append to a startup file, if the edit was not made before.
pub fn patch_rc(existing: &str, marker: &str, block: &str) -> (r: Option<String>)
    ensures
        text_of(r) == addition(existing@, marker@, block@),
{
    if contains(existing, marker) {
        return None;
    }
    let mut text = "\n".to_owned();
    text.append(block);
    Some(text)
}

// ---------------------------------------------------------------------------
// Remembering the source
// ---------------------------------------------------------------------------

pub open spec fn env_rc(
    shell: Shell,
    home: PathView,
    profile: PathView,
    has_zshrc: bool,
) -> PathView {
    match shell {
        Shell::Pwsh => profile,
        Shell::Fish => path_join(home, ".config/fish/config.fish"@),
        _ => if has_zshrc {
            path_join(home, ".zshrc"@)
        } else {
            path_join(home, ".bashrc"@)
        },
    }
}

pub open spec fn env_marker(shell: Shell) -> Seq<char> {
    match shell {
        Shell::Pwsh => "$env:DISKSCOUT_SRC ="@,
        _ => "export DISKSCOUT_SRC="@,
    }
}

pub open spec fn env_line(shell: Shell, source: Seq<char>) -> Seq<char> {
    match shell {
        Shell::Pwsh => "$env:DISKSCOUT_SRC ="@ + " \""@ + source + "\"\n"@,
        Shell::Fish => "set -gx DISKSCOUT_SRC \""@ + source + "\"\n"@,
        _ => "export DISKSCOUT_SRC="@ + "\""@ + source + "\"\n"@,
    }
}

/// The startup file that remembers the source.
pub fn source_rc(shell: Shell, home: &FsPath, profile: &FsPath, has_zshrc: bool) -> (r: FsPath)
    ensures
        r@ == env_rc(shell, home@, profile@, has_zshrc),
{
    match shell {
        Shell::Pwsh => profile.clone(),
        Shell::Fish => home.join(".config/fish/config.fish"),
        _ => if has_zshrc {
            home.join(".zshrc")
        } else {
            home.join(".bashrc")
        },
    }
}

/// What to append to that startup file so that it remembers the source, if it
/// does not do so yet.
pub fn persist_source_env(shell: Shell, existing: &str, source: &FsPath) -> (r: Option<String>)
    ensures
        text_of(r) == addition(
            existing@,
            env_marker(shell),
            env_line(shell, source@.text()),
        ),
{
    let path = source.display();
    let marker = match shell {
        Shell::Pwsh => "$env:DISKSCOUT_SRC =",
        _ => "export DISKSCOUT_SRC=",
    };
    let mut line = match shell {
        Shell::Pwsh => "$env:DISKSCOUT_SRC =",
        Shell::Fish => "set -gx DISKSCOUT_SRC \"",
        _ => "export DISKSCOUT_SRC=",
    }.to_owned();
    match shell {
        Shell::Pwsh => {
            line.append(" \"");
        },
        Shell::Fish => {},
        _ => {
            line.append("\"");
        },
    }
    line.append(path.as_str());
    line.append("\"\n");
    patch_rc(existing, marker, line.as_str())
}

// ---------------------------------------------------------------------------
// Laws
// ---------------------------------------------------------------------------

proof fn lemma_starts_with_marker(existing: Seq<char>, marker: Seq<char>, rest: Seq<char>)
    ensures
        occurs_in(marker, existing + ("\n"@ + (marker + rest))),
{
    assert((marker + rest).subrange(0, marker.len() as int) =~= marker);
    assert(occurs_at(marker, marker + rest, 0));
    lemma_occurs_in_concat(marker, "\n"@, marker + rest);
    lemma_occurs_in_concat(marker, existing, "\n"@ + (marker + rest));
}

/// Loading the completions is set up once: whatever a startup file held, a
/// second edit finds the first and adds nothing.
pub proof fn a_startup_file_is_edited_once(
    shell: Shell,
    home: PathView,
    profile: PathView,
    has_bash_profile: bool,
    existing: Seq<char>,
)
    ensures
        completion_edit(shell, home, profile, has_bash_profile) matches Some(edit)
            ==> addition(existing, edit.marker, edit.block) matches Some(more) ==> addition(
            existing + more,
            edit.marker,
            edit.block,
        ) is None,
{
    if let Some(edit) = completion_edit(shell, home, profile, has_bash_profile) {
        let rest = edit.block.skip(edit.marker.len() as int);
        assert(edit.block =~= edit.marker + rest);
        lemma_starts_with_marker(existing, edit.marker, rest);
    }
}

/// The source is remembered once, except under fish, whose line is not written
/// as an export.
pub proof fn the_source_is_remembered_once(shell: Shell, existing: Seq<char>, source: Seq<char>)
    requires
        shell != Shell::Fish,
    ensures
        addition(existing, env_marker(shell), env_line(shell, source)) matches Some(more)
            ==> addition(existing + more, env_marker(shell), env_line(shell, source)) is None,
{
    let line = env_line(shell, source);
    let marker = env_marker(shell);
    let rest = line.skip(marker.len() as int);
    assert(line =~= marker + rest);
    lemma_starts_with_marker(existing, marker, rest);
}

/// On Windows the shell is PowerShell. Elsewhere it is the one that `$SHELL` names:
/// zsh ahead of fish, and bash where it names neither.
pub proof fn shells_are_known_by_name(windows: bool, shell: Seq<char>)
    ensures
        windows ==> shell_named(windows, shell) == Shell::Pwsh,
        !windows && occurs_in("zsh"@, shell) ==> shell_named(windows, shell) == Shell::Zsh,
        !windows && !occurs_in("zsh"@, shell) && occurs_in("fish"@, shell) ==> shell_named(
            windows,
            shell,
        ) == Shell::Fish,
        !windows && !occurs_in("zsh"@, shell) && !occurs_in("fish"@, shell) ==> shell_named(
            windows,
            shell,
        ) == Shell::Bash,
{
}

/// PowerShell reloads its profile; the other shells are started anew.
pub proof fn completions_are_loaded_by_a_command(shell: Shell, only_completions: bool)
    ensures
        shell == Shell::Pwsh ==> shell.hint() == ". $PROFILE"@,
        shell != Shell::Pwsh ==> shell.hint() == "exec $SHELL"@,
        ({
            let said = closing_lines(only_completions, shell.hint());
            &&& said.len() == 3
            &&& said[0].len() == 0
            &&& said[1].len() == 1
            &&& said[1][0].style == Style::BoldGreen
            &&& only_completions ==> said[1][0].text == "done"@
            &&& !only_completions ==> said[1][0].text == "setup complete"@
            &&& said[2].len() == 3
            &&& said[2][0].text == "  Run "@
            &&& said[2][1].text == shell.hint()
            &&& said[2][2].text == " to load completions now."@
        }),
{
}

/// A `~` stands for the home directory where a separator follows it, if there is a
/// home directory.
pub proof fn a_tilde_stands_for_home(s: Seq<char>, home: PathView)
    ensures
        tilde_path(s, None) == path_of(s),
        s.len() >= 2 && s[0] == '~' && (s[1] == '/' || s[1] == '\\') ==> tilde_path(s, Some(home))
            == path_join(home, s.skip(2)),
        !(s.len() >= 2 && s[0] == '~' && (s[1] == '/' || s[1] == '\\')) ==> tilde_path(
            s,
            Some(home),
        ) == path_of(s),
{
    reveal_strlit("~/");
    reveal_strlit("~\\");
    assert("~/"@[0] == '~' && "~/"@[1] == '/');
    assert("~\\"@[0] == '~' && "~\\"@[1] == '\\');
    if s.len() >= 2 {
        if s[0] == '~' && s[1] == '/' {
            assert(s.subrange(0, 2) =~= "~/"@);
        }
        if s[0] == '~' && s[1] == '\\' {
            assert(s.subrange(0, 2) =~= "~\\"@);
        }
        assert(s.subrange(0, 2)[0] == s[0] && s.subrange(0, 2)[1] == s[1]);
    }
}

/// Where nothing is found, the message shows how the shell sets the variable.
pub proof fn the_message_shows_how_to_name_a_source(shell: Shell)
    ensures
        shell == Shell::Pwsh ==> no_source_text(shell)
            == "no diskscout checkout found.\n  Set DISKSCOUT_SRC to the repo path, e.g.\n    "@
            + "$env:DISKSCOUT_SRC = \"$HOME\\Developer\\diskscout\""@,
        shell != Shell::Pwsh ==> no_source_text(shell)
            == "no diskscout checkout found.\n  Set DISKSCOUT_SRC to the repo path, e.g.\n    "@
            + "export DISKSCOUT_SRC=~/Developer/diskscout"@,
{
}

/// A variable that names no checkout is said to be ignored.
pub proof fn an_ignored_source_is_named(path: Seq<char>)
    ensures
        ignored_line(path).len() == 3,
        ignored_line(path)[0].text == "  "@,
        ignored_line(path)[1].text == "note:"@,
        ignored_line(path)[1].style == Style::Dimmed,
        ignored_line(path)[2].text == " $DISKSCOUT_SRC = '"@ + path
            + "' is not a diskscout checkout -- ignoring"@,
{
}

/// A label takes fourteen columns, then come two blanks and what it is about.
pub proof fn a_status_is_a_label_and_a_value(label: Seq<char>, value: Seq<char>, style: Style)
    ensures
        status_line(label, value, style).len() == 3,
        status_line(label, value, style)[0].text == pad_right(label, 14),
        status_line(label, value, style)[0].style == Style::Dimmed,
        status_line(label, value, style)[1].text == "  "@,
        status_line(label, value, style)[2].text == value,
        status_line(label, value, style)[2].style == style,
{
}

/// `cargo install --path <source> --force`, and `--debug` for the debug profile
/// alone.
pub proof fn cargo_installs_the_source(debug: bool)
    ensures
        cargo_args(debug).len() == if debug {
            5int
        } else {
            4int
        },
        cargo_args(debug)[0] == CargoArgView::Word("install"@),
        cargo_args(debug)[1] == CargoArgView::Word("--path"@),
        cargo_args(debug)[2] == CargoArgView::Source,
        cargo_args(debug)[3] == CargoArgView::Word("--force"@),
        debug ==> cargo_args(debug)[4] == CargoArgView::Word("--debug"@),
{
}

/// An exit code is shown as a number, and its absence as `None`.
pub proof fn an_exit_code_is_shown(code: i32)
    ensures
        exit_text(Some(code)) == "Some("@ + signed_decimal(code as int) + ")"@,
        exit_text(None) == "None"@,
{
}

/// Where each shell has its completions, and what its startup file is told.
pub proof fn each_shell_loads_its_completions(
    home: PathView,
    profile: PathView,
    has_bash_profile: bool,
)
    ensures
        completion_dir(Shell::Zsh, home, profile) == path_join(home, ".zsh/completions"@),
        completion_dir(Shell::Bash, home, profile) == path_join(home, ".bash_completion.d"@),
        completion_dir(Shell::Fish, home, profile) == path_join(home, ".config/fish/completions"@),
        path_parent(profile) matches Some(parent) ==> completion_dir(Shell::Pwsh, home, profile)
            == path_join(parent, "Completions"@),
        path_parent(profile) is None ==> completion_dir(Shell::Pwsh, home, profile) == path_join(
            home,
            "Completions"@,
        ),
        completion_file(Shell::Zsh) == "_diskscout"@,
        completion_file(Shell::Bash) == "diskscout"@,
        completion_file(Shell::Fish) == "diskscout.fish"@,
        completion_file(Shell::Pwsh) == "diskscout.ps1"@,
        completion_edit(Shell::Fish, home, profile, has_bash_profile) is None,
        completion_edit(Shell::Zsh, home, profile, has_bash_profile) matches Some(edit) && {
            &&& edit.path == path_join(home, ".zshrc"@)
            &&& edit.marker == "# diskscout completions"@
            &&& edit.block == "# diskscout completions"@
                + "\nfpath=(~/.zsh/completions $fpath)\nautoload -U compinit && compinit\n"@
        },
        completion_edit(Shell::Bash, home, profile, has_bash_profile) matches Some(edit) && {
            &&& has_bash_profile ==> edit.path == path_join(home, ".bash_profile"@)
            &&& !has_bash_profile ==> edit.path == path_join(home, ".bashrc"@)
            &&& edit.marker == "# diskscout completions"@
            &&& edit.block == "# diskscout completions"@
                + "\n[ -f ~/.bash_completion.d/diskscout ] && source ~/.bash_completion.d/diskscout\n"@
        },
        completion_edit(Shell::Pwsh, home, profile, has_bash_profile) matches Some(edit) && {
            &&& edit.path == profile
            &&& edit.marker == "# diskscout completions"@
            &&& edit.block == "# diskscout completions"@ + "\n. \""@ + path_join(
                completion_dir(Shell::Pwsh, home, profile),
                "diskscout.ps1"@,
            ).text() + "\"\n"@
        },
{
}

/// A startup file is added to where it does not hold the marker, on a line of its
/// own, and left alone where it does.
pub proof fn a_startup_file_is_added_to(existing: Seq<char>, marker: Seq<char>, block: Seq<char>)
    ensures
        addition(existing, marker, block) is None <==> occurs_in(marker, existing),
        addition(existing, marker, block) matches Some(more) ==> more.len() == 1 + block.len()
            && more[0] == '\n' && more.skip(1) == block,
{
    reveal_strlit("\n");
    if let Some(more) = addition(existing, marker, block) {
        assert(more.skip(1) =~= block);
    }
}

/// Which startup file remembers the source, and with which line.
pub proof fn the_source_is_remembered_by_the_shell(
    shell: Shell,
    home: PathView,
    profile: PathView,
    has_zshrc: bool,
    source: Seq<char>,
)
    ensures
        shell == Shell::Pwsh ==> {
            &&& env_rc(shell, home, profile, has_zshrc) == profile
            &&& env_marker(shell) == "$env:DISKSCOUT_SRC ="@
            &&& env_line(shell, source) == "$env:DISKSCOUT_SRC = \""@ + source + "\"\n"@
        },
        shell == Shell::Fish ==> {
            &&& env_rc(shell, home, profile, has_zshrc) == path_join(
                home,
                ".config/fish/config.fish"@,
            )
            &&& env_marker(shell) == "export DISKSCOUT_SRC="@
            &&& env_line(shell, source) == "set -gx DISKSCOUT_SRC \""@ + source + "\"\n"@
        },
        shell == Shell::Zsh || shell == Shell::Bash ==> {
            &&& has_zshrc ==> env_rc(shell, home, profile, has_zshrc) == path_join(
                home,
                ".zshrc"@,
            )
            &&& !has_zshrc ==> env_rc(shell, home, profile, has_zshrc) == path_join(
                home,
                ".bashrc"@,
            )
            &&& env_marker(shell) == "export DISKSCOUT_SRC="@
            &&& env_line(shell, source) == "export DISKSCOUT_SRC=\""@ + source + "\"\n"@
        },
{
    reveal_strlit("$env:DISKSCOUT_SRC =");
    reveal_strlit(" \"");
    reveal_strlit("$env:DISKSCOUT_SRC = \"");
    assert("$env:DISKSCOUT_SRC ="@ + " \""@ =~= "$env:DISKSCOUT_SRC = \""@);
    reveal_strlit("export DISKSCOUT_SRC=");
    reveal_strlit("\"");
    reveal_strlit("export DISKSCOUT_SRC=\"");
    assert("export DISKSCOUT_SRC="@ + "\""@ =~= "export DISKSCOUT_SRC=\""@);
}

/// The variable that names the source.
pub proof fn the_source_is_named_by_a_variable()
    ensures
        SRC_ENV@ == "DISKSCOUT_SRC"@,
{
}

} // verus!
