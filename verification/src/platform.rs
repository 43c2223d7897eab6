//! What macOS, Linux and Windows have in common in the way the fixed places of
//! a machine are found. What differs is in `unix` and `windows`, one function
//! per question in each.

use vstd::prelude::*;

use crate::path::{path_descend, FsPath, PathView};
use crate::text::views;

verus! {

/// A path from an environment variable. Set but empty counts as not set.
pub open spec fn set_path(value: Option<PathView>) -> Option<PathView> {
    match value {
        Some(path) => if path.steps.len() == 0 {
            None
        } else {
            Some(path)
        },
        None => None,
    }
}

pub open spec fn path_view(path: Option<FsPath>) -> Option<PathView> {
    match path {
        Some(path) => Some(path@),
        None => None,
    }
}

pub open spec fn text_view(text: Option<String>) -> Option<Seq<char>> {
    match text {
        Some(text) => Some(text@),
        None => None,
    }
}

/// The value of an environment variable that holds a path.
pub fn env_path(value: Option<FsPath>) -> (r: Option<FsPath>)
    ensures
        path_view(r) == set_path(path_view(value)),
{
    match value {
        Some(path) => {
            if path.is_empty() {
                None
            } else {
                Some(path)
            }
        },
        None => None,
    }
}

/// Roots holding installed software that happens to be laid out like a project,
/// on every platform.
pub open spec fn common_software_roots(home: PathView) -> Seq<PathView> {
    seq![
        path_descend(home, ".vscode/extensions"@),
        path_descend(home, ".vscode-server/extensions"@),
        path_descend(home, ".cursor/extensions"@),
        path_descend(home, ".windsurf/extensions"@),
        path_descend(home, ".bun/install/global"@),
    ]
}

/// Roots holding installed software that happens to be laid out like a project.
///
/// An editor extension and a globally installed CLI are both `node_modules`
/// trees next to a `package.json`, so no marker file can tell them apart from a
/// project's dependencies -- but deleting them uninstalls working software
/// instead of freeing a rebuildable cache.
pub fn shared_software_roots(home: &FsPath) -> (r: Vec<FsPath>)
    ensures
        views(r@) == common_software_roots(home@),
{
    let roots: Vec<FsPath> = vec![
        home.descend(".vscode/extensions"),
        home.descend(".vscode-server/extensions"),
        home.descend(".cursor/extensions"),
        home.descend(".windsurf/extensions"),
        // bun's global prefix, same layout on every platform: the node_modules
        // here backs every binary in ~/.bun/bin, while its sibling
        // install/cache is a real cache and stays deletable.
        home.descend(".bun/install/global"),
    ];
    assert(views(roots@) =~= common_software_roots(home@));
    roots
}

/// Where the managers of runtime versions (nvm, fnm, Volta, nodenv, asdf, rbenv,
/// mise and pyenv) keep the runtimes that they installed.
pub open spec fn version_manager_roots(home: PathView) -> Seq<PathView> {
    seq![
        path_descend(home, ".nvm"@),
        path_descend(home, ".fnm"@),
        path_descend(home, ".local/share/fnm"@),
        path_descend(home, ".volta"@),
        path_descend(home, ".nodenv"@),
        path_descend(home, ".asdf"@),
        path_descend(home, ".rbenv"@),
        path_descend(home, ".local/share/mise"@),
        path_descend(home, ".pyenv"@),
    ]
}

/// Where the managers of runtime versions keep what they installed. The
/// `node_modules` of a runtime holds npm itself and every CLI installed with
/// it, and its `__pycache__` belongs to the interpreter.
pub fn runtime_roots(home: &FsPath) -> (r: Vec<FsPath>)
    ensures
        views(r@) == version_manager_roots(home@),
{
    let roots: Vec<FsPath> = vec![
        home.descend(".nvm"),
        home.descend(".fnm"),
        home.descend(".local/share/fnm"),
        home.descend(".volta"),
        home.descend(".nodenv"),
        home.descend(".asdf"),
        home.descend(".rbenv"),
        home.descend(".local/share/mise"),
        home.descend(".pyenv"),
    ];
    assert(views(roots@) =~= version_manager_roots(home@));
    roots
}

/// Puts the paths behind those that are there.
pub fn extend_paths(out: &mut Vec<FsPath>, more: Vec<FsPath>)
    ensures
        views(final(out)@) == views(old(out)@) + views(more@),
{
    let ghost had = views(out@);
    let mut more = more;
    let ghost tail = views(more@);
    out.append(&mut more);
    assert(views(out@) =~= had + tail);
}

/// A variable that is set but empty counts as not set.
pub proof fn an_empty_variable_is_not_set(path: PathView)
    ensures
        set_path(None) is None,
        path.steps.len() == 0 ==> set_path(Some(path)) is None,
        path.steps.len() > 0 ==> set_path(Some(path)) == Some(path),
{
}

} // verus!
