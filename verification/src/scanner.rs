//! The scan: what to do at each entry that the walk comes to, and what is made
//! of everything it found.

use vstd::prelude::*;

use crate::category::Category;
use crate::classify::{
    category_at, classify_dir, inside_app_bundle, nothing_inside_an_app_bundle_counts, Surroundings,
    SurroundingsView,
};
use crate::clock::Timestamp;
use crate::found::{
    FoundDir, FoundDirView, FoundFile, FoundFileView, LargeDir, LargeDirView, ReservedFile,
    ReservedFileView, ScanResult, ScanResultView,
};
use crate::measure::{check_file, is_forgotten_image, is_stale, noted, FileLimits, Measured};
use crate::order::{
    are_apart, in_order, is_ordered, lemma_front_ordered, lemma_in_order, lemma_in_order_apart,
    lemma_in_order_keeps_precedence, lemma_ordered_at, sort, Ranked,
};
use crate::path::{
    is_inside, path_file_name, path_parent, same_path, FsPath, PartView, PathView,
};
use crate::targets::{
    keep_outermost, kept_targets_do_not_overlap, outermost, target_paths, Target, TargetView,
};
use crate::text::views;

verus! {

broadcast use crate::text::lemma_views_push;

#[derive(Debug)]
pub struct ScanConfig {
    pub root: FsPath,
    pub home: FsPath,
    pub old_after_days: u64,
    pub large_over_mb: u64,
    pub include_system: bool,
}

pub struct Scanner {
    pub config: ScanConfig,
}

// ---------------------------------------------------------------------------
// Where the walk does not go
// ---------------------------------------------------------------------------

/// The path is one of `skip` or lies inside one.
pub open spec fn under_any(path: PathView, skip: Seq<PathView>) -> bool {
    exists|i: int| 0 <= i < skip.len() && is_inside(path, #[trigger] skip[i])
}

/// The default skips that leave the root of the scan alone.
pub open spec fn skips_for(root: PathView, defaults: Seq<PathView>) -> Seq<PathView>
    decreases defaults.len(),
{
    if defaults.len() == 0 {
        Seq::empty()
    } else {
        let front = skips_for(root, defaults.drop_last());
        if is_inside(root, defaults.last()) {
            front
        } else {
            front.push(defaults.last())
        }
    }
}

fn is_under_any(path: &FsPath, skip: &Vec<FsPath>) -> (r: bool)
    ensures
        r == under_any(path@, views(skip@)),
{
    let ghost all = views(skip@);
    for i in 0..skip.len()
        invariant
            all == views(skip@),
            forall|j: int| 0 <= j < i ==> !is_inside(path@, #[trigger] all[j]),
    {
        if path.starts_with(&skip[i]) {
            assert(is_inside(path@, all[i as int]));
            return true;
        }
    }
    false
}

fn keep_skips(root: &FsPath, defaults: Vec<FsPath>) -> (r: Vec<FsPath>)
    ensures
        views(r@) == skips_for(root@, views(defaults@)),
{
    let ghost all = views(defaults@);
    let mut out: Vec<FsPath> = Vec::new();
    assert(views(out@) =~= skips_for(root@, all.take(0)));
    for path in it: defaults
        invariant
            it.seq() == defaults@,
            all == views(defaults@),
            views(out@) == skips_for(root@, all.take(it.index() as int)),
    {
        assert(all.take(it.index() + 1).drop_last() =~= all.take(it.index() as int));
        if !root.starts_with(&path) {
            out.push(path);
        }
    }
    assert(all.take(all.len() as int) =~= all);
    out
}

fn push_paths(out: &mut Vec<FsPath>, targets: &Vec<Target>)
    ensures
        views(final(out)@) == views(old(out)@) + target_paths(views(targets@)),
{
    let ghost had = views(out@);
    let ghost more = target_paths(views(targets@));
    for i in 0..targets.len()
        invariant
            more == target_paths(views(targets@)),
            views(out@) =~= had + more.take(i as int),
    {
        out.push(targets[i].0.clone());
    }
    assert(more.take(more.len() as int) =~= more);
}

// ---------------------------------------------------------------------------
// The walk
// ---------------------------------------------------------------------------

/// An entry that the walk comes to.
#[derive(Debug)]
pub struct Visit {
    pub path: FsPath,
    pub is_dir: bool,
    pub is_file: bool,
    /// How far below the root of the scan it is.
    pub depth: usize,
}

#[verifier::ext_equal]
pub struct VisitView {
    pub path: PathView,
    pub is_dir: bool,
    pub is_file: bool,
    pub depth: nat,
}

impl View for Visit {
    type V = VisitView;

    open spec fn view(&self) -> VisitView {
        VisitView {
            path: self.path@,
            is_dir: self.is_dir,
            is_file: self.is_file,
            depth: self.depth as nat,
        }
    }
}

/// What has to be known of an entry before it is dealt with.
#[derive(Debug, Clone, Copy, PartialEq, Eq, Structural)]
pub enum Question {
    /// Nothing: neither it nor anything in it matters.
    Prune,
    /// What sits beside this directory.
    Surroundings,
    /// How large this file is, and how old.
    Metadata,
    /// Nothing.
    Pass,
}

pub open spec fn is_git_dir(visit: VisitView) -> bool {
    visit.is_dir && visit.depth > 0 && path_file_name(visit.path) == Some(PartView::Name(".git"@))
}

pub open spec fn question(skip: Seq<PathView>, visit: VisitView) -> Question {
    if under_any(visit.path, skip) || is_git_dir(visit) {
        Question::Prune
    } else if visit.is_dir && visit.depth > 0 {
        Question::Surroundings
    } else if visit.is_file {
        Question::Metadata
    } else {
        Question::Pass
    }
}

/// The answer to a question about an entry. `file` is missing where the
/// metadata could not be read, or was not asked for.
pub struct Answer {
    pub around: Surroundings,
    pub file: Option<Measured>,
}

#[verifier::ext_equal]
pub struct AnswerView {
    pub around: SurroundingsView,
    pub file: Option<Measured>,
}

impl View for Answer {
    type V = AnswerView;

    open spec fn view(&self) -> AnswerView {
        AnswerView { around: self.around@, file: self.file }
    }
}

/// What the walk has found so far.
pub struct Walk {
    pub skip: Vec<FsPath>,
    pub system: Vec<Target>,
    pub limits: FileLimits,
    pub pending: Vec<Target>,
    pub large_files: Vec<FoundFile>,
    pub old_files: Vec<FoundFile>,
    pub disk_images: Vec<FoundFile>,
    pub errors: usize,
}

#[verifier::ext_equal]
pub struct WalkView {
    pub skip: Seq<PathView>,
    pub system: Seq<TargetView>,
    pub limits: FileLimits,
    pub pending: Seq<TargetView>,
    pub large_files: Seq<FoundFileView>,
    pub old_files: Seq<FoundFileView>,
    pub disk_images: Seq<FoundFileView>,
    pub errors: usize,
}

impl View for Walk {
    type V = WalkView;

    open spec fn view(&self) -> WalkView {
        WalkView {
            skip: views(self.skip@),
            system: views(self.system@),
            limits: self.limits,
            pending: views(self.pending@),
            large_files: views(self.large_files@),
            old_files: views(self.old_files@),
            disk_images: views(self.disk_images@),
            errors: self.errors,
        }
    }
}

/// The category under which the walk takes the directory as a whole.
pub open spec fn taken_as(
    skip: Seq<PathView>,
    visit: VisitView,
    answer: AnswerView,
) -> Option<Category> {
    if question(skip, visit) == Question::Surroundings {
        category_at(visit.path, answer.around)
    } else {
        None
    }
}

/// The walk goes no further below this entry.
pub open spec fn prunes(skip: Seq<PathView>, visit: VisitView, answer: AnswerView) -> bool {
    question(skip, visit) == Question::Prune || taken_as(skip, visit, answer) is Some
}

/// The walk after one more entry.
pub open spec fn after_visit(
    walk: WalkView,
    visit: VisitView,
    answer: AnswerView,
    now: Timestamp,
) -> WalkView {
    match taken_as(walk.skip, visit, answer) {
        Some(cat) => WalkView { pending: walk.pending.push((visit.path, cat)), ..walk },
        None => match answer.file {
            Some(file) => if question(walk.skip, visit) == Question::Metadata {
                after_file(walk, visit.path, file, now)
            } else {
                walk
            },
            None => walk,
        },
    }
}

pub open spec fn after_file(
    walk: WalkView,
    path: PathView,
    file: Measured,
    now: Timestamp,
) -> WalkView {
    WalkView {
        large_files: noted(
            walk.large_files,
            path,
            file,
            file.size >= walk.limits.large,
        ),
        old_files: noted(walk.old_files, path, file, is_stale(file, walk.limits, now)),
        disk_images: noted(
            walk.disk_images,
            path,
            file,
            is_forgotten_image(path, file.size),
        ),
        ..walk
    }
}

impl Scanner {
    pub fn new(config: ScanConfig) -> (r: Scanner)
        ensures
            r.config == config,
    {
        Scanner { config }
    }

    /// The configured limits are numbers of bytes and seconds that exist.
    pub open spec fn limits_fit(self) -> bool {
        &&& self.config.large_over_mb * 1_048_576 <= u64::MAX
        &&& self.config.old_after_days * 86_400 <= u64::MAX
    }

    pub open spec fn limits_view(self) -> FileLimits {
        FileLimits {
            large: (self.config.large_over_mb * 1_048_576) as u64,
            old_after: (self.config.old_after_days * 86_400) as u64,
            old_min: 10_485_760,
        }
    }

    /// The fixed targets that this scan measures.
    pub open spec fn system_view(self, system: Seq<TargetView>) -> Seq<TargetView> {
        if self.config.include_system {
            system
        } else {
            Seq::empty()
        }
    }

    pub open spec fn start_view(self, defaults: Seq<PathView>, system: Seq<TargetView>) -> WalkView {
        WalkView {
            skip: skips_for(self.config.root@, defaults) + target_paths(self.system_view(system)),
            system: self.system_view(system),
            limits: self.limits_view(),
            pending: Seq::empty(),
            large_files: Seq::empty(),
            old_files: Seq::empty(),
            disk_images: Seq::empty(),
            errors: 0,
        }
    }

    pub fn limits(&self) -> (r: FileLimits)
        requires
            self.limits_fit(),
        ensures
            r.large == self.config.large_over_mb * 1_048_576,
            r.old_after == self.config.old_after_days * 86_400,
            r.old_min == 10 * 1_048_576,
            r == self.limits_view(),
    {
        FileLimits {
            large: self.config.large_over_mb * 1_048_576,
            old_after: self.config.old_after_days * 86_400,
            old_min: 10 * 1_048_576,
        }
    }

    /// The walk before its first entry. `system` are the fixed targets of the
    /// machine; they count only where the configuration asks for them, and are
    /// then sized directly, so the walk skips them: it avoids both
    /// double-counting and a long crawl through cache trees.
    ///
    /// A default skip that contains the root is dropped: naming a root is a
    /// request, and must not prune the scan on its own root.
    pub fn start(&self, defaults: Vec<FsPath>, system: Vec<Target>) -> (r: Walk)
        requires
            self.limits_fit(),
        ensures
            r@ == self.start_view(views(defaults@), views(system@)),
    {
        let system = if self.config.include_system {
            system
        } else {
            Vec::new()
        };
        let mut skip = keep_skips(&self.config.root, defaults);
        push_paths(&mut skip, &system);
        Walk {
            skip,
            system,
            limits: self.limits(),
            pending: Vec::new(),
            large_files: Vec::new(),
            old_files: Vec::new(),
            disk_images: Vec::new(),
            errors: 0,
        }
    }
}

fn is_git(visit: &Visit) -> (r: bool)
    ensures
        r == is_git_dir(visit@),
{
    if !visit.is_dir || visit.depth == 0 {
        return false;
    }
    match visit.path.file_name() {
        Some(name) => name.same(&crate::path::Part::name(".git")),
        None => false,
    }
}

impl Walk {
    /// What has to be found out about an entry.
    pub fn ask(&self, visit: &Visit) -> (r: Question)
        ensures
            r == question(self@.skip, visit@),
    {
        if is_under_any(&visit.path, &self.skip) || is_git(visit) {
            Question::Prune
        } else if visit.is_dir && visit.depth > 0 {
            Question::Surroundings
        } else if visit.is_file {
            Question::Metadata
        } else {
            Question::Pass
        }
    }

    /// Deals with an entry, and says whether the walk keeps out of what is
    /// below it.
    pub fn visit(&mut self, visit: &Visit, answer: &Answer, now: &Timestamp) -> (r: bool)
        ensures
            final(self)@ == after_visit(old(self)@, visit@, answer@, *now),
            r == prunes(old(self)@.skip, visit@, answer@),
    {
        match self.ask(visit) {
            Question::Prune => true,
            Question::Surroundings => match classify_dir(&visit.path, &answer.around) {
                Some(category) => {
                    self.pending.push((visit.path.clone(), category));
                    true
                },
                None => false,
            },
            Question::Metadata => {
                if let Some(file) = &answer.file {
                    let limits = self.limits;
                    check_file(
                        &visit.path,
                        file,
                        &limits,
                        now,
                        &mut self.large_files,
                        &mut self.old_files,
                        &mut self.disk_images,
                    );
                }
                false
            },
            Question::Pass => false,
        }
    }

    /// Counts an entry that could not be read.
    pub fn error(&mut self)
        ensures
            final(self)@ == (WalkView {
                errors: if old(self)@.errors == usize::MAX {
                    0
                } else {
                    (old(self)@.errors + 1) as usize
                },
                ..old(self)@
            }),
    {
        self.errors = if self.errors == usize::MAX {
            0
        } else {
            self.errors + 1
        };
    }
}

// ---------------------------------------------------------------------------
// The result
// ---------------------------------------------------------------------------

/// How many files of a list are kept.
pub const FILE_LIMIT: usize = 30;

/// The directories that hold something. An empty target is either genuinely
/// empty or unreadable without elevation; either way there is nothing to report.
pub open spec fn filled(dirs: Seq<FoundDirView>) -> Seq<FoundDirView>
    decreases dirs.len(),
{
    if dirs.len() == 0 {
        Seq::empty()
    } else {
        let front = filled(dirs.drop_last());
        if dirs.last().size > 0 {
            front.push(dirs.last())
        } else {
            front
        }
    }
}

/// The files without those that follow another of the same path.
pub open spec fn without_repeats(files: Seq<FoundFileView>) -> Seq<FoundFileView>
    decreases files.len(),
{
    if files.len() == 0 {
        Seq::empty()
    } else {
        let front = without_repeats(files.drop_last());
        if front.len() > 0 && same_path(front.last().path, files.last().path) {
            front
        } else {
            front.push(files.last())
        }
    }
}

/// The first of the files, as many as a list keeps.
pub open spec fn cut(files: Seq<FoundFileView>) -> Seq<FoundFileView> {
    if files.len() > FILE_LIMIT {
        files.take(FILE_LIMIT as int)
    } else {
        files
    }
}

/// The largest of the files, the largest first.
pub open spec fn top_files(files: Seq<FoundFileView>) -> Seq<FoundFileView> {
    cut(without_repeats(in_order::<FoundFile>(files)))
}

/// What the scan comes to, before the search for unexplored directories.
pub open spec fn result_of(
    walk: WalkView,
    dirs: Seq<FoundDirView>,
    reserved: Seq<ReservedFileView>,
) -> ScanResultView {
    ScanResultView {
        dirs: in_order::<FoundDir>(filled(dirs)),
        large_files: top_files(walk.large_files),
        old_files: top_files(walk.old_files),
        disk_images: in_order::<FoundFile>(walk.disk_images),
        large_unknown_dirs: Seq::empty(),
        reserved_files: reserved,
        permission_errors: walk.errors as nat,
    }
}

fn keep_filled(dirs: Vec<FoundDir>) -> (r: Vec<FoundDir>)
    ensures
        views(r@) == filled(views(dirs@)),
{
    let ghost all = views(dirs@);
    let mut out: Vec<FoundDir> = Vec::new();
    assert(views(out@) =~= filled(all.take(0)));
    for dir in it: dirs
        invariant
            it.seq() == dirs@,
            all == views(dirs@),
            views(out@) == filled(all.take(it.index() as int)),
    {
        assert(all.take(it.index() + 1).drop_last() =~= all.take(it.index() as int));
        if dir.size > 0 {
            out.push(dir);
        }
    }
    assert(all.take(all.len() as int) =~= all);
    out
}

fn drop_repeats(files: Vec<FoundFile>) -> (r: Vec<FoundFile>)
    ensures
        views(r@) == without_repeats(views(files@)),
{
    let ghost all = views(files@);
    let mut out: Vec<FoundFile> = Vec::new();
    assert(views(out@) =~= without_repeats(all.take(0)));
    for file in it: files
        invariant
            it.seq() == files@,
            all == views(files@),
            views(out@) == without_repeats(all.take(it.index() as int)),
    {
        assert(all.take(it.index() + 1).drop_last() =~= all.take(it.index() as int));
        let ghost kept = views(out@);
        let n = out.len();
        let repeated = n > 0 && out[n - 1].path.same(&file.path);
        assert(n > 0 ==> kept.last() == out@[n - 1]@);
        if !repeated {
            out.push(file);
        }
    }
    assert(all.take(all.len() as int) =~= all);
    out
}

fn largest(files: Vec<FoundFile>) -> (r: Vec<FoundFile>)
    ensures
        views(r@) == top_files(views(files@)),
{
    let mut out = drop_repeats(sort(files));
    let ghost all = views(out@);
    out.truncate(FILE_LIMIT);
    assert(views(out@) =~= cut(all));
    out
}

impl Walk {
    /// The directories to measure: those that the walk took, the fixed targets
    /// and the build caches outside of any project, without overlaps.
    pub fn take_targets(&mut self, build_caches: Vec<Target>) -> (r: Vec<Target>)
        ensures
            views(r@) == outermost(
                old(self)@.pending + old(self)@.system + views(build_caches@),
            ),
            final(self)@ == (WalkView {
                pending: Seq::empty(),
                system: Seq::empty(),
                ..old(self)@
            }),
    {
        let ghost start = self@;
        let mut build_caches = build_caches;
        let ghost built = views(build_caches@);
        let mut all: Vec<Target> = Vec::new();
        all.append(&mut self.pending);
        all.append(&mut self.system);
        all.append(&mut build_caches);
        assert(views(all@) =~= start.pending + start.system + built);
        assert(self@ =~= (WalkView { pending: Seq::empty(), system: Seq::empty(), ..start }));
        keep_outermost(all)
    }

    /// The result of the scan, given what the targets were measured to hold,
    /// and the search for what is left.
    pub fn into_result(self, dirs: Vec<FoundDir>, reserved: Vec<ReservedFile>) -> (r: (
        ScanResult,
        UnknownSearch,
    ))
        ensures
            r.0@ == result_of(self@, views(dirs@), views(reserved@)),
            r.1@ == (UnknownSearchView {
                skip: self@.skip,
                known: dir_paths(r.0@.dirs),
                candidates: Seq::empty(),
            }),
    {
        let dirs = sort(keep_filled(dirs));
        let mut known: Vec<FsPath> = Vec::new();
        let ghost paths = dir_paths(views(dirs@));
        for i in 0..dirs.len()
            invariant
                paths == dir_paths(views(dirs@)),
                views(known@) =~= paths.take(i as int),
        {
            known.push(dirs[i].path.clone());
        }
        assert(paths.take(paths.len() as int) =~= paths);
        let none: Vec<LargeDir> = Vec::new();
        assert(views(none@) =~= Seq::empty());
        let result = ScanResult {
            dirs,
            large_files: largest(self.large_files),
            old_files: largest(self.old_files),
            disk_images: sort(self.disk_images),
            large_unknown_dirs: none,
            reserved_files: reserved,
            permission_errors: self.errors,
        };
        let search = UnknownSearch { skip: self.skip, known, candidates: Vec::new() };
        (result, search)
    }
}

/// The reserved files whose size could be read.
pub open spec fn readable(
    files: Seq<(PathView, Seq<char>)>,
    sizes: Seq<Option<u64>>,
) -> Seq<ReservedFileView>
    decreases files.len(),
{
    if files.len() == 0 {
        Seq::empty()
    } else {
        let front = readable(files.drop_last(), sizes);
        match sizes[files.len() - 1] {
            Some(size) => front.push(
                ReservedFileView {
                    path: files.last().0,
                    size,
                    hint: files.last().1,
                },
            ),
            None => front,
        }
    }
}

/// The reserved files with their sizes; one that cannot be read is left out.
pub fn reserved_files(files: Vec<(FsPath, &'static str)>, sizes: &Vec<Option<u64>>) -> (r: Vec<
    ReservedFile,
>)
    requires
        sizes@.len() == files@.len(),
    ensures
        views(r@) == readable(views(files@), sizes@),
{
    let ghost all = views(files@);
    let mut out: Vec<ReservedFile> = Vec::new();
    let mut i: usize = 0;
    assert(views(out@) =~= readable(all.take(0), sizes@));
    for file in it: files
        invariant
            it.seq() == files@,
            all == views(files@),
            i == it.index(),
            sizes@.len() == files@.len(),
            views(out@) == readable(all.take(i as int), sizes@),
    {
        assert(all.take(i + 1).drop_last() =~= all.take(i as int));
        assert(i < sizes.len());
        if let Some(size) = sizes[i] {
            let entry = ReservedFile { path: file.0, size, hint: file.1 };
            assert(entry@ == (ReservedFileView {
                path: all[i as int].0,
                size,
                hint: all[i as int].1,
            }));
            out.push(entry);
        }
        i = i + 1;
    }
    assert(all.take(all.len() as int) =~= all);
    out
}

// ---------------------------------------------------------------------------
// Unexplored directories
// ---------------------------------------------------------------------------

/// How deep the search for unexplored directories goes.
pub const UNKNOWN_DEPTH: usize = 4;

/// The size from which an unexplored directory is worth a line.
pub const UNKNOWN_MIN: u64 = 52_428_800;

/// How many unexplored directories are kept.
pub const UNKNOWN_LIMIT: usize = 25;

/// How many subdirectories are shown of one.
pub const CHILD_LIMIT: usize = 4;

pub open spec fn dir_paths(dirs: Seq<FoundDirView>) -> Seq<PathView> {
    Seq::new(dirs.len(), |i: int| dirs[i].path)
}

/// Second pass: looks for large dirs not covered by any known category.
/// Surfaces things like VM images, model weights, forgotten project archives --
/// anything the pattern matcher wouldn't catch.
pub struct UnknownSearch {
    pub skip: Vec<FsPath>,
    /// Already accounted for in the main categorized report.
    pub known: Vec<FsPath>,
    pub candidates: Vec<FsPath>,
}

#[verifier::ext_equal]
pub struct UnknownSearchView {
    pub skip: Seq<PathView>,
    pub known: Seq<PathView>,
    pub candidates: Seq<PathView>,
}

impl View for UnknownSearch {
    type V = UnknownSearchView;

    open spec fn view(&self) -> UnknownSearchView {
        UnknownSearchView {
            skip: views(self.skip@),
            known: views(self.known@),
            candidates: views(self.candidates@),
        }
    }
}

/// The entry is a directory below the root, outside of every skipped place.
pub open spec fn is_open_dir(skip: Seq<PathView>, visit: VisitView) -> bool {
    !under_any(visit.path, skip) && visit.is_dir && visit.depth > 0
}

/// The entry is an unexplored directory.
pub open spec fn is_candidate(search: UnknownSearchView, visit: VisitView) -> bool {
    is_open_dir(search.skip, visit) && !is_git_dir(visit) && !under_any(visit.path, search.known)
}

/// The search goes no further below this entry.
pub open spec fn search_prunes(search: UnknownSearchView, visit: VisitView) -> bool {
    under_any(visit.path, search.skip) || (is_open_dir(search.skip, visit) && !is_candidate(
        search,
        visit,
    ))
}

impl UnknownSearch {
    /// Deals with an entry, and says whether the search keeps out of what is
    /// below it.
    pub fn visit(&mut self, visit: &Visit) -> (r: bool)
        ensures
            final(self)@ == (UnknownSearchView {
                candidates: if is_candidate(old(self)@, visit@) {
                    old(self)@.candidates.push(visit@.path)
                } else {
                    old(self)@.candidates
                },
                ..old(self)@
            }),
            r == search_prunes(old(self)@, visit@),
    {
        if is_under_any(&visit.path, &self.skip) {
            return true;
        }
        if !visit.is_dir || visit.depth == 0 {
            return false;
        }
        if is_git(visit) {
            return true;
        }
        if is_under_any(&visit.path, &self.known) {
            return true;
        }
        self.candidates.push(visit.path.clone());
        false
    }
}

/// A directory with what it was measured to hold.
#[derive(Debug)]
pub struct DirStat {
    pub path: FsPath,
    pub size: u64,
    pub last_modified: Timestamp,
}

#[verifier::ext_equal]
pub struct DirStatView {
    pub path: PathView,
    pub size: u64,
    pub last_modified: Timestamp,
}

impl View for DirStat {
    type V = DirStatView;

    open spec fn view(&self) -> DirStatView {
        DirStatView {
            path: self.path@,
            size: self.size,
            last_modified: self.last_modified,
        }
    }
}

impl Ranked for DirStat {
    open spec fn leq(a: DirStatView, b: DirStatView) -> bool {
        a.size >= b.size
    }

    proof fn leq_total(a: DirStatView, b: DirStatView) {
    }

    proof fn leq_transitive(a: DirStatView, b: DirStatView, c: DirStatView) {
    }

    fn le(&self, other: &Self) -> (r: bool) {
        self.size >= other.size
    }
}

pub open spec fn big_enough(stats: Seq<DirStatView>) -> Seq<DirStatView>
    decreases stats.len(),
{
    if stats.len() == 0 {
        Seq::empty()
    } else {
        let front = big_enough(stats.drop_last());
        if stats.last().size >= UNKNOWN_MIN {
            front.push(stats.last())
        } else {
            front
        }
    }
}

/// `path` is the directory that `child` is an entry of.
pub open spec fn is_child(child: PathView, path: PathView) -> bool {
    path_parent(child) matches Some(parent) && same_path(parent, path)
}

/// The immediate subdirectories of `path`, in the order of `stats`.
pub open spec fn children_of(stats: Seq<DirStatView>, path: PathView) -> Seq<(PathView, u64)>
    decreases stats.len(),
{
    if stats.len() == 0 {
        Seq::empty()
    } else {
        let front = children_of(stats.drop_last(), path);
        if is_child(stats.last().path, path) {
            front.push((stats.last().path, stats.last().size))
        } else {
            front
        }
    }
}

/// The first of the immediate subdirectories.
pub open spec fn top_children(stats: Seq<DirStatView>, path: PathView) -> Seq<(PathView, u64)> {
    let all = children_of(stats, path);
    if all.len() > CHILD_LIMIT {
        all.take(CHILD_LIMIT as int)
    } else {
        all
    }
}

/// A directory of the result is this path or contains it.
pub open spec fn reported(dirs: Seq<LargeDirView>, path: PathView) -> bool {
    exists|i: int| 0 <= i < dirs.len() && is_inside(path, (#[trigger] dirs[i]).path)
}

/// Of the first `n` of `stats`, those that no earlier one contains, up to the
/// limit, each with the largest of its subdirectories.
pub open spec fn chosen(stats: Seq<DirStatView>, n: nat) -> Seq<LargeDirView>
    decreases n,
{
    if n == 0 {
        Seq::empty()
    } else {
        let front = chosen(stats, (n - 1) as nat);
        let s = stats[n - 1];
        if front.len() >= UNKNOWN_LIMIT || reported(front, s.path) {
            front
        } else {
            front.push(
                LargeDirView {
                    path: s.path,
                    size: s.size,
                    last_modified: s.last_modified,
                    notable_children: top_children(stats, s.path),
                },
            )
        }
    }
}

/// The large directories among the unexplored ones, the largest first.
pub open spec fn unknown_large(stats: Seq<DirStatView>) -> Seq<LargeDirView> {
    let sorted = in_order::<DirStat>(big_enough(stats));
    chosen(sorted, sorted.len())
}

fn keep_big(stats: Vec<DirStat>) -> (r: Vec<DirStat>)
    ensures
        views(r@) == big_enough(views(stats@)),
{
    let ghost all = views(stats@);
    let mut out: Vec<DirStat> = Vec::new();
    assert(views(out@) =~= big_enough(all.take(0)));
    for stat in it: stats
        invariant
            it.seq() == stats@,
            all == views(stats@),
            views(out@) == big_enough(all.take(it.index() as int)),
    {
        assert(all.take(it.index() + 1).drop_last() =~= all.take(it.index() as int));
        if stat.size >= UNKNOWN_MIN {
            out.push(stat);
        }
    }
    assert(all.take(all.len() as int) =~= all);
    out
}

proof fn lemma_children_grow(stats: Seq<DirStatView>, path: PathView, n: int)
    requires
        0 <= n <= stats.len(),
    ensures
        children_of(stats.take(n), path).is_prefix_of(children_of(stats, path)),
    decreases stats.len(),
{
    if n < stats.len() {
        lemma_children_grow(stats.drop_last(), path, n);
        assert(stats.drop_last().take(n) =~= stats.take(n));
        let a = children_of(stats.take(n), path);
        let b = children_of(stats.drop_last(), path);
        let c = children_of(stats, path);
        assert(c.subrange(0, a.len() as int) =~= b.subrange(0, a.len() as int));
    } else {
        assert(stats.take(n) =~= stats);
        let a = children_of(stats, path);
        assert(a.subrange(0, a.len() as int) =~= a);
    }
}

fn notable_children(stats: &Vec<DirStat>, path: &FsPath) -> (r: Vec<(FsPath, u64)>)
    ensures
        views(r@) == top_children(views(stats@), path@),
{
    let ghost all = views(stats@);
    let mut out: Vec<(FsPath, u64)> = Vec::new();
    let mut i: usize = 0;
    assert(views(out@) =~= children_of(all.take(0), path@));
    while i < stats.len() && out.len() < CHILD_LIMIT
        invariant
            i <= stats.len(),
            all == views(stats@),
            out.len() <= CHILD_LIMIT,
            views(out@) == children_of(all.take(i as int), path@),
        decreases stats.len() - i,
    {
        assert(all.take(i + 1).drop_last() =~= all.take(i as int));
        let child = match stats[i].path.parent() {
            Some(parent) => parent.same(path),
            None => false,
        };
        if child {
            out.push((stats[i].path.clone(), stats[i].size));
        }
        i = i + 1;
    }
    proof {
        lemma_children_grow(all, path@, i as int);
        let full = children_of(all, path@);
        if i == stats.len() {
            assert(all.take(i as int) =~= all);
            assert(views(out@) == full);
            assert(full.len() <= CHILD_LIMIT);
        } else {
            assert(out.len() == CHILD_LIMIT);
            assert(views(out@).len() == CHILD_LIMIT);
            assert(full.take(CHILD_LIMIT as int) =~= views(out@));
            assert(full.len() == CHILD_LIMIT ==> full =~= views(out@));
        }
    }
    out
}

fn is_reported(dirs: &Vec<LargeDir>, path: &FsPath) -> (r: bool)
    ensures
        r == reported(views(dirs@), path@),
{
    let ghost all = views(dirs@);
    for i in 0..dirs.len()
        invariant
            all == views(dirs@),
            forall|j: int| 0 <= j < i ==> !is_inside(path@, (#[trigger] all[j]).path),
    {
        if path.starts_with(&dirs[i].path) {
            assert(is_inside(path@, all[i as int].path));
            return true;
        }
    }
    false
}

/// Greedy: keeps a dir only if no ancestor is already in the result, with the
/// top immediate children so the report can show what's inside.
pub fn scan_unknown_large_dirs(stats: Vec<DirStat>) -> (r: Vec<LargeDir>)
    ensures
        views(r@) == unknown_large(views(stats@)),
{
    let sorted = sort(keep_big(stats));
    let ghost all = views(sorted@);
    let mut result: Vec<LargeDir> = Vec::new();
    assert(views(result@) =~= chosen(all, 0));
    for i in 0..sorted.len()
        invariant
            all == views(sorted@),
            views(result@) == chosen(all, i as nat),
    {
        let stat = &sorted[i];
        if result.len() < UNKNOWN_LIMIT && !is_reported(&result, &stat.path) {
            let dir = LargeDir {
                path: stat.path.clone(),
                size: stat.size,
                last_modified: stat.last_modified,
                notable_children: notable_children(&sorted, &stat.path),
            };
            assert(dir@ == (LargeDirView {
                path: stat@.path,
                size: stat@.size,
                last_modified: stat@.last_modified,
                notable_children: top_children(all, stat@.path),
            }));
            result.push(dir);
        }
    }
    result
}

// ---------------------------------------------------------------------------
// Laws
// ---------------------------------------------------------------------------

/// Everything that the walk has noted lies outside of the places it skips.
pub open spec fn keeps_out(walk: WalkView) -> bool {
    &&& forall|i: int|
        0 <= i < walk.pending.len() ==> !under_any((#[trigger] walk.pending[i]).0, walk.skip)
    &&& forall|i: int|
        0 <= i < walk.large_files.len() ==> !under_any(
            (#[trigger] walk.large_files[i]).path,
            walk.skip,
        )
    &&& forall|i: int|
        0 <= i < walk.old_files.len() ==> !under_any(
            (#[trigger] walk.old_files[i]).path,
            walk.skip,
        )
    &&& forall|i: int|
        0 <= i < walk.disk_images.len() ==> !under_any(
            (#[trigger] walk.disk_images[i]).path,
            walk.skip,
        )
}

/// The walk never notes anything in a place that it skips: it starts that way,
/// and no entry changes it, whatever is answered of it.
pub proof fn nothing_skipped_is_noted(
    scanner: Scanner,
    defaults: Seq<PathView>,
    system: Seq<TargetView>,
    walk: WalkView,
    visit: VisitView,
    answer: AnswerView,
    now: Timestamp,
)
    ensures
        keeps_out(scanner.start_view(defaults, system)),
        keeps_out(walk) ==> keeps_out(after_visit(walk, visit, answer, now)),
        after_visit(walk, visit, answer, now).skip == walk.skip,
{
}

/// An entry that the walk came to, what was answered of it, and when.
pub type EventView = (VisitView, AnswerView, Timestamp);

/// The walk after all of these entries.
pub open spec fn walked(walk: WalkView, events: Seq<EventView>) -> WalkView
    decreases events.len(),
{
    if events.len() == 0 {
        walk
    } else {
        let e = events.last();
        after_visit(walked(walk, events.drop_last()), e.0, e.1, e.2)
    }
}

/// Some entry is the directory of this target, and the rules give it this
/// category by what was seen beside it.
pub open spec fn was_classified(events: Seq<EventView>, target: TargetView) -> bool {
    exists|k: int|
        0 <= k < events.len() && (#[trigger] events[k]).0.path == target.0 && category_at(
            target.0,
            events[k].1.around,
        ) == Some(target.1)
}

/// However long the walk: it notes nothing in a place that it skips, it takes
/// no directory but those that the rules name, and none inside an application
/// bundle.
pub proof fn a_whole_walk_takes_what_the_rules_name(
    scanner: Scanner,
    defaults: Seq<PathView>,
    system: Seq<TargetView>,
    events: Seq<EventView>,
)
    ensures
        keeps_out(walked(scanner.start_view(defaults, system), events)),
        walked(scanner.start_view(defaults, system), events).skip == scanner.start_view(
            defaults,
            system,
        ).skip,
        forall|i: int|
            0 <= i < walked(scanner.start_view(defaults, system), events).pending.len() ==> {
                let target = #[trigger] walked(
                    scanner.start_view(defaults, system),
                    events,
                ).pending[i];
                was_classified(events, target) && !inside_app_bundle(target.0)
            },
    decreases events.len(),
{
    let start = scanner.start_view(defaults, system);
    if events.len() > 0 {
        let front = events.drop_last();
        let before = walked(start, front);
        let after = walked(start, events);
        let e = events.last();
        a_whole_walk_takes_what_the_rules_name(scanner, defaults, system, front);
        nothing_skipped_is_noted(scanner, defaults, system, before, e.0, e.1, e.2);
        assert forall|i: int| 0 <= i < after.pending.len() implies {
            let target = #[trigger] after.pending[i];
            was_classified(events, target) && !inside_app_bundle(target.0)
        } by {
            let target = after.pending[i];
            if i < before.pending.len() {
                assert(before.pending[i] == target);
                let k = choose|k: int|
                    0 <= k < front.len() && (#[trigger] front[k]).0.path == target.0
                        && category_at(target.0, front[k].1.around) == Some(target.1);
                assert(events[k] == front[k]);
            } else {
                assert(events[events.len() - 1] == e);
                if inside_app_bundle(target.0) {
                    nothing_inside_an_app_bundle_counts(target.0, e.1.around);
                }
            }
        }
    }
}

/// A directory that is taken as a whole is not descended into, and neither is
/// a skipped place or the inside of a repository.
pub proof fn a_taken_directory_is_not_entered(
    walk: WalkView,
    visit: VisitView,
    answer: AnswerView,
    now: Timestamp,
)
    ensures
        after_visit(walk, visit, answer, now).pending != walk.pending ==> prunes(
            walk.skip,
            visit,
            answer,
        ),
        under_any(visit.path, walk.skip) || is_git_dir(visit) ==> {
            &&& prunes(walk.skip, visit, answer)
            &&& after_visit(walk, visit, answer, now) == walk
        },
{
}

/// No default skip prunes the scan on its own root, and those that do not
/// contain the root all still apply.
pub proof fn a_named_root_is_reached(root: PathView, defaults: Seq<PathView>)
    ensures
        !under_any(root, skips_for(root, defaults)),
        forall|i: int|
            0 <= i < defaults.len() && !is_inside(root, #[trigger] defaults[i]) ==> skips_for(
                root,
                defaults,
            ).contains(defaults[i]),
        forall|s: PathView| #[trigger]
            skips_for(root, defaults).contains(s) ==> defaults.contains(s),
    decreases defaults.len(),
{
    if defaults.len() > 0 {
        let front = defaults.drop_last();
        let kept = skips_for(root, front);
        let all = skips_for(root, defaults);
        a_named_root_is_reached(root, front);
        assert forall|i: int| 0 <= i < all.len() implies !is_inside(root, #[trigger] all[i]) by {
            if i < kept.len() {
                assert(all[i] == kept[i]);
            }
        }
        assert forall|i: int|
            0 <= i < defaults.len() && !is_inside(root, #[trigger] defaults[i]) implies all.contains(
            defaults[i],
        ) by {
            if i < front.len() {
                assert(front[i] == defaults[i]);
                let k = choose|k: int| 0 <= k < kept.len() && kept[k] == front[i];
                assert(all[k] == defaults[i]);
            } else {
                assert(all[kept.len() as int] == defaults[i]);
            }
        }
        assert forall|s: PathView| #[trigger] all.contains(s) implies defaults.contains(s) by {
            let k = choose|k: int| 0 <= k < all.len() && all[k] == s;
            if k < kept.len() {
                assert(kept[k] == s);
                assert(kept.contains(s));
                assert(front.contains(s));
                let i = choose|i: int| 0 <= i < front.len() && front[i] == s;
                assert(defaults[i] == s);
            } else {
                assert(defaults[defaults.len() - 1] == s);
            }
        }
    }
}

/// Without the fixed locations of the system nothing is measured but what the
/// walk took and the build caches.
pub proof fn without_system_only_the_walk_counts(
    scanner: Scanner,
    defaults: Seq<PathView>,
    system: Seq<TargetView>,
)
    requires
        !scanner.config.include_system,
    ensures
        scanner.start_view(defaults, system).system.len() == 0,
        scanner.start_view(defaults, system).skip == skips_for(scanner.config.root@, defaults),
{
    let start = scanner.start_view(defaults, system);
    assert(start.skip =~= skips_for(scanner.config.root@, defaults));
}

/// What is kept of a list stems from it.
proof fn lemma_repeats_origin(s: Seq<FoundFileView>, i: int)
    requires
        0 <= i < without_repeats(s).len(),
    ensures
        s.contains(without_repeats(s)[i]),
    decreases s.len(),
{
    let front = s.drop_last();
    let kept = without_repeats(front);
    let all = without_repeats(s);
    if i < kept.len() {
        lemma_repeats_origin(front, i);
        let k = choose|k: int| 0 <= k < front.len() && front[k] == kept[i];
        assert(s[k] == all[i]);
    } else {
        assert(s[s.len() - 1] == all[i]);
    }
}

proof fn lemma_repeats_above_last(s: Seq<FoundFileView>, i: int)
    requires
        is_ordered::<FoundFile>(s),
        s.len() > 0,
        0 <= i < without_repeats(s.drop_last()).len(),
    ensures
        without_repeats(s.drop_last())[i].size >= s.last().size,
{
    let front = s.drop_last();
    lemma_repeats_origin(front, i);
    let k = choose|k: int| 0 <= k < front.len() && front[k] == without_repeats(front)[i];
    lemma_ordered_at::<FoundFile>(s, k, s.len() - 1);
}

proof fn lemma_repeats_ordered(s: Seq<FoundFileView>, i: int, j: int)
    requires
        is_ordered::<FoundFile>(s),
        0 <= i <= j < without_repeats(s).len(),
    ensures
        without_repeats(s)[i].size >= without_repeats(s)[j].size,
    decreases s.len(),
{
    lemma_front_ordered::<FoundFile>(s);
    let kept = without_repeats(s.drop_last());
    if j < kept.len() {
        lemma_repeats_ordered(s.drop_last(), i, j);
    } else if i < kept.len() {
        lemma_repeats_above_last(s, i);
    }
}

proof fn lemma_repeats_copy(s: Seq<FoundFileView>, i: int)
    requires
        is_ordered::<FoundFile>(s),
        0 <= i < s.len(),
    ensures
        has_copy(without_repeats(s), s[i]),
    decreases s.len(),
{
    let front = s.drop_last();
    let kept = without_repeats(front);
    let all = without_repeats(s);
    if i < front.len() {
        lemma_front_ordered::<FoundFile>(s);
        lemma_repeats_copy(front, i);
        let k = choose|k: int|
            0 <= k < kept.len() && same_path((#[trigger] kept[k]).path, front[i].path)
                && kept[k].size >= front[i].size;
        assert(all[k] == kept[k]);
    } else if all.len() > kept.len() {
        assert(all[kept.len() as int] == s.last());
    } else {
        lemma_repeats_above_last(s, kept.len() - 1);
        assert(all[kept.len() - 1] == kept.last());
    }
}

/// The list has an entry for this file, of its size or larger.
pub open spec fn has_copy(list: Seq<FoundFileView>, file: FoundFileView) -> bool {
    exists|k: int|
        0 <= k < list.len() && same_path((#[trigger] list[k]).path, file.path) && list[k].size
            >= file.size
}

/// A list of files keeps the largest, in order, and leaves a file out only in
/// favour of others that are not smaller.
pub proof fn the_largest_files_are_listed(files: Seq<FoundFileView>)
    ensures
        top_files(files).len() <= FILE_LIMIT,
        is_ordered::<FoundFile>(top_files(files)),
        forall|i: int|
            0 <= i < top_files(files).len() ==> files.contains(#[trigger] top_files(files)[i]),
        forall|i: int, k: int|
            0 <= i < files.len() && !has_copy(top_files(files), #[trigger] files[i]) && 0 <= k
                < top_files(files).len() ==> {
                &&& top_files(files).len() == FILE_LIMIT
                &&& (#[trigger] top_files(files)[k]).size >= files[i].size
            },
{
    let sorted = in_order::<FoundFile>(files);
    let unique = without_repeats(sorted);
    let list = top_files(files);
    lemma_in_order::<FoundFile>(files);
    assert forall|i: int| 0 <= i < list.len() implies files.contains(#[trigger] list[i]) by {
        assert(list[i] == unique[i]);
        lemma_repeats_origin(sorted, i);
        assert(sorted.contains(unique[i]));
    }
    assert forall|i: int, j: int| 0 <= i <= j < list.len() implies FoundFile::leq(
        #[trigger] list[i],
        #[trigger] list[j],
    ) by {
        lemma_repeats_ordered(sorted, i, j);
        assert(list[i] == unique[i] && list[j] == unique[j]);
    }
    assert forall|i: int, k: int|
        0 <= i < files.len() && !has_copy(list, #[trigger] files[i]) && 0 <= k < list.len() implies {
        &&& list.len() == FILE_LIMIT
        &&& (#[trigger] list[k]).size >= files[i].size
    } by {
        assert(files.contains(files[i]));
        assert(sorted.contains(files[i]));
        let p = choose|p: int| 0 <= p < sorted.len() && sorted[p] == files[i];
        lemma_repeats_copy(sorted, p);
        let q = choose|q: int|
            0 <= q < unique.len() && same_path((#[trigger] unique[q]).path, files[i].path)
                && unique[q].size >= files[i].size;
        if q < list.len() {
            assert(list[q] == unique[q]);
        } else {
            lemma_repeats_ordered(sorted, k, q);
            assert(list[k] == unique[k]);
        }
    }
}

proof fn lemma_filled(dirs: Seq<FoundDirView>)
    ensures
        forall|d: FoundDirView| #[trigger]
            filled(dirs).contains(d) <==> dirs.contains(d) && d.size > 0,
    decreases dirs.len(),
{
    if dirs.len() > 0 {
        let front = dirs.drop_last();
        lemma_filled(front);
        let kept = filled(front);
        let all = filled(dirs);
        assert forall|d: FoundDirView| #[trigger] all.contains(d) <==> dirs.contains(d) && d.size
            > 0 by {
            if all.contains(d) {
                let k = choose|k: int| 0 <= k < all.len() && all[k] == d;
                if k < kept.len() {
                    assert(kept[k] == d);
                    assert(kept.contains(d));
                    let i = choose|i: int| 0 <= i < front.len() && front[i] == d;
                    assert(dirs[i] == d);
                } else {
                    assert(dirs[dirs.len() - 1] == d);
                }
            }
            if dirs.contains(d) && d.size > 0 {
                let i = choose|i: int| 0 <= i < dirs.len() && dirs[i] == d;
                if i < front.len() {
                    assert(front[i] == d);
                    assert(front.contains(d));
                    assert(kept.contains(d));
                    let k = choose|k: int| 0 <= k < kept.len() && kept[k] == d;
                    assert(all[k] == d);
                } else {
                    assert(all[kept.len() as int] == d);
                }
            }
        }
    }
}

/// Every measured directory that holds something is reported, no other one is,
/// and the largest comes first.
pub proof fn every_filled_directory_is_reported(
    walk: WalkView,
    dirs: Seq<FoundDirView>,
    reserved: Seq<ReservedFileView>,
)
    ensures
        is_ordered::<FoundDir>(result_of(walk, dirs, reserved).dirs),
        forall|d: FoundDirView| #[trigger]
            result_of(walk, dirs, reserved).dirs.contains(d) <==> dirs.contains(d) && d.size > 0,
{
    let kept = filled(dirs);
    lemma_in_order::<FoundDir>(kept);
    lemma_filled(dirs);
    assert forall|d: FoundDirView| #[trigger]
        in_order::<FoundDir>(kept).contains(d) <==> dirs.contains(d) && d.size > 0 by {
        assert(kept.contains(d) <==> in_order::<FoundDir>(kept).contains(d));
    }
}

/// One of the two directories lies inside the other, or is it.
pub open spec fn overlap() -> spec_fn(FoundDirView, FoundDirView) -> bool {
    |a: FoundDirView, b: FoundDirView| is_inside(a.path, b.path)
}

/// What is kept of two different ones stood at two different places.
proof fn lemma_filled_apart(dirs: Seq<FoundDirView>, related: spec_fn(
    FoundDirView,
    FoundDirView,
) -> bool)
    requires
        are_apart(dirs, related),
    ensures
        are_apart(filled(dirs), related),
    decreases dirs.len(),
{
    if dirs.len() > 0 {
        let front = dirs.drop_last();
        let kept = filled(front);
        let all = filled(dirs);
        let last = dirs.len() - 1;
        assert forall|i: int, j: int|
            0 <= i < front.len() && 0 <= j < front.len() && i != j implies !related(
            #[trigger] front[i],
            #[trigger] front[j],
        ) by {
            assert(!related(dirs[i], dirs[j]));
        }
        lemma_filled_apart(front, related);
        lemma_filled(front);
        assert forall|i: int| 0 <= i < kept.len() implies !related(#[trigger] kept[i], dirs[last])
            && !related(dirs[last], kept[i]) by {
            assert(kept.contains(kept[i]));
            let k = choose|k: int| 0 <= k < front.len() && front[k] == kept[i];
            assert(!related(dirs[k], dirs[last]) && !related(dirs[last], dirs[k]));
        }
        assert forall|i: int, j: int|
            0 <= i < all.len() && 0 <= j < all.len() && i != j implies !related(
            #[trigger] all[i],
            #[trigger] all[j],
        ) by {
            if i < kept.len() {
                assert(all[i] == kept[i]);
            }
            if j < kept.len() {
                assert(all[j] == kept[j]);
            }
        }
    }
}

/// Where the targets without overlaps are what was measured, no directory of
/// the result lies inside another, and none is listed twice.
pub proof fn the_result_counts_nothing_twice(
    walk: WalkView,
    dirs: Seq<FoundDirView>,
    reserved: Seq<ReservedFileView>,
    targets: Seq<TargetView>,
    i: int,
    j: int,
)
    requires
        dir_paths(dirs) == target_paths(outermost(targets)),
        0 <= i < result_of(walk, dirs, reserved).dirs.len(),
        0 <= j < result_of(walk, dirs, reserved).dirs.len(),
        i != j,
    ensures
        !is_inside(
            result_of(walk, dirs, reserved).dirs[i].path,
            result_of(walk, dirs, reserved).dirs[j].path,
        ),
{
    let kept = outermost(targets);
    let related = overlap();
    assert(dirs.len() == dir_paths(dirs).len());
    assert forall|a: int, b: int|
        0 <= a < dirs.len() && 0 <= b < dirs.len() && a != b implies !related(
        #[trigger] dirs[a],
        #[trigger] dirs[b],
    ) by {
        assert(dir_paths(dirs)[a] == target_paths(kept)[a]);
        assert(dir_paths(dirs)[b] == target_paths(kept)[b]);
        kept_targets_do_not_overlap(targets, b, a);
    }
    lemma_filled_apart(dirs, related);
    lemma_in_order_apart::<FoundDir>(filled(dirs), related);
    let all = result_of(walk, dirs, reserved).dirs;
    assert(!related(all[i], all[j]));
}

proof fn lemma_big_enough(stats: Seq<DirStatView>)
    ensures
        forall|i: int|
            0 <= i < big_enough(stats).len() ==> (#[trigger] big_enough(stats)[i]).size
                >= UNKNOWN_MIN && stats.contains(big_enough(stats)[i]),
    decreases stats.len(),
{
    if stats.len() > 0 {
        let front = stats.drop_last();
        let kept = big_enough(front);
        lemma_big_enough(front);
        let all = big_enough(stats);
        assert forall|i: int| 0 <= i < all.len() implies (#[trigger] all[i]).size >= UNKNOWN_MIN
            && stats.contains(all[i]) by {
            if i < kept.len() {
                assert(kept[i] == all[i]);
                let k = choose|k: int| 0 <= k < front.len() && front[k] == kept[i];
                assert(stats[k] == all[i]);
            } else {
                assert(stats[stats.len() - 1] == all[i]);
            }
        }
    }
}

proof fn lemma_chosen(stats: Seq<DirStatView>, n: nat)
    requires
        n <= stats.len(),
        is_ordered::<DirStat>(stats),
    ensures
        chosen(stats, n).len() <= UNKNOWN_LIMIT,
        forall|i: int|
            0 <= i < chosen(stats, n).len() ==> stands_for(stats, n, #[trigger] chosen(stats, n)[i]),
        forall|i: int, j: int|
            0 <= i < j < chosen(stats, n).len() ==> {
                &&& (#[trigger] chosen(stats, n)[i]).size >= (#[trigger] chosen(stats, n)[j]).size
                &&& !is_inside(chosen(stats, n)[j].path, chosen(stats, n)[i].path)
            },
        forall|k: int|
            0 <= k < n && chosen(stats, n).len() < UNKNOWN_LIMIT ==> reported(
                chosen(stats, n),
                (#[trigger] stats[k]).path,
            ),
    decreases n,
{
    if n > 0 {
        let front = chosen(stats, (n - 1) as nat);
        let all = chosen(stats, n);
        lemma_chosen(stats, (n - 1) as nat);
        assert forall|i: int| 0 <= i < all.len() implies stands_for(stats, n, #[trigger] all[i]) by {
            if i < front.len() {
                assert(all[i] == front[i]);
                assert(stands_for(stats, (n - 1) as nat, front[i]));
                let k = choose|k: int|
                    0 <= k < n - 1 && (#[trigger] stats[k]).path == front[i].path && stats[k].size
                        == front[i].size;
                assert(stats[k].path == all[i].path);
            } else {
                assert(stats[n - 1].path == all[i].path);
            }
        }
        assert forall|i: int, j: int| 0 <= i < j < all.len() implies {
            &&& (#[trigger] all[i]).size >= (#[trigger] all[j]).size
            &&& !is_inside(all[j].path, all[i].path)
        } by {
            assert(all[i] == front[i]);
            if j < front.len() {
                assert(all[j] == front[j]);
            } else {
                assert(stands_for(stats, (n - 1) as nat, front[i]));
                let k = choose|k: int|
                    0 <= k < n - 1 && (#[trigger] stats[k]).path == front[i].path && stats[k].size
                        == front[i].size;
                lemma_ordered_at::<DirStat>(stats, k, n - 1);
                assert(!is_inside(stats[n - 1].path, front[i].path));
            }
        }
        assert forall|k: int| 0 <= k < n && all.len() < UNKNOWN_LIMIT implies reported(
            all,
            (#[trigger] stats[k]).path,
        ) by {
            if k < n - 1 {
                assert(reported(front, stats[k].path));
                let i = choose|i: int|
                    0 <= i < front.len() && is_inside(stats[k].path, (#[trigger] front[i]).path);
                assert(all[i] == front[i]);
            } else if all.len() > front.len() {
                crate::path::lemma_inside(stats[k].path, stats[k].path, stats[k].path);
                assert(all[front.len() as int].path == stats[k].path);
            }
        }
    }
}

/// `dir` reports one of the first `n` of `stats`, with the largest of its
/// subdirectories.
pub open spec fn stands_for(stats: Seq<DirStatView>, n: nat, dir: LargeDirView) -> bool {
    &&& exists|k: int|
        0 <= k < n && (#[trigger] stats[k]).path == dir.path && stats[k].size == dir.size
    &&& dir.notable_children == top_children(stats, dir.path)
}

/// The directories are listed as a walk comes to them: each before those inside
/// it, and with no smaller size than theirs.
pub open spec fn parents_first(stats: Seq<DirStatView>) -> bool {
    forall|i: int, j: int|
        0 <= i < stats.len() && 0 <= j < stats.len() && i != j && is_inside(
            (#[trigger] stats[j]).path,
            (#[trigger] stats[i]).path,
        ) ==> i < j && stats[i].size >= stats[j].size
}

/// A directory that has to be listed before another: it contains that one and
/// is no smaller.
pub open spec fn contains_in_size() -> spec_fn(DirStatView, DirStatView) -> bool {
    |a: DirStatView, b: DirStatView| is_inside(b.path, a.path) && a.size >= b.size
}

/// Every later one that `big_enough` keeps was later in the list, too.
proof fn lemma_big_in_list_order(stats: Seq<DirStatView>, i: int, j: int) -> (at: (int, int))
    requires
        0 <= i < j < big_enough(stats).len(),
    ensures
        0 <= at.0 < at.1 < stats.len(),
        stats[at.0] == big_enough(stats)[i],
        stats[at.1] == big_enough(stats)[j],
    decreases stats.len(),
{
    let front = stats.drop_last();
    let kept = big_enough(front);
    if j < kept.len() {
        lemma_big_in_list_order(front, i, j)
    } else {
        lemma_big_enough(front);
        assert(front.contains(kept[i]));
        let k = choose|k: int| 0 <= k < front.len() && front[k] == kept[i];
        (k, stats.len() - 1)
    }
}

/// What is chosen later stood later in the list.
proof fn lemma_chosen_in_list_order(stats: Seq<DirStatView>, n: nat, i: int, j: int) -> (at: (
    int,
    int,
))
    requires
        n <= stats.len(),
        is_ordered::<DirStat>(stats),
        0 <= i < j < chosen(stats, n).len(),
    ensures
        0 <= at.0 < at.1 < n,
        stats[at.0].path == chosen(stats, n)[i].path,
        stats[at.0].size == chosen(stats, n)[i].size,
        stats[at.1].path == chosen(stats, n)[j].path,
        stats[at.1].size == chosen(stats, n)[j].size,
    decreases n,
{
    let front = chosen(stats, (n - 1) as nat);
    if j < front.len() {
        lemma_chosen_in_list_order(stats, (n - 1) as nat, i, j)
    } else {
        lemma_chosen(stats, (n - 1) as nat);
        assert(stands_for(stats, (n - 1) as nat, front[i]));
        let k = choose|k: int|
            0 <= k < n - 1 && (#[trigger] stats[k]).path == front[i].path && stats[k].size
                == front[i].size;
        (k, n - 1)
    }
}

/// No two of the unexplored directories that a walk turned up overlap in the
/// report.
pub proof fn reported_directories_do_not_overlap(stats: Seq<DirStatView>, i: int, j: int)
    requires
        parents_first(stats),
        0 <= i < unknown_large(stats).len(),
        0 <= j < unknown_large(stats).len(),
        i != j,
    ensures
        !is_inside(unknown_large(stats)[i].path, unknown_large(stats)[j].path),
{
    large_directories_are_reported_once(stats);
    if i < j {
        let big = big_enough(stats);
        let sorted = in_order::<DirStat>(big);
        let all = unknown_large(stats);
        let precedes = contains_in_size();
        lemma_in_order::<DirStat>(big);
        assert forall|a: int, b: int| 0 <= a < b < big.len() implies !precedes(
            #[trigger] big[b],
            #[trigger] big[a],
        ) by {
            let at = lemma_big_in_list_order(stats, a, b);
            assert(!is_inside(stats[at.0].path, stats[at.1].path));
        }
        lemma_in_order_keeps_precedence::<DirStat>(big, precedes);
        let at = lemma_chosen_in_list_order(sorted, sorted.len(), i, j);
        assert(!precedes(sorted[at.1], sorted[at.0]));
        if is_inside(all[i].path, all[j].path) {
            let a = sorted[at.0];
            let b = sorted[at.1];
            lemma_sorted_origin(stats, at.0);
            lemma_sorted_origin(stats, at.1);
            let x = choose|x: int| 0 <= x < stats.len() && stats[x] == a;
            let y = choose|y: int| 0 <= y < stats.len() && stats[y] == b;
            if x != y {
                assert(is_inside(stats[x].path, stats[y].path));
            }
            assert(b.size >= a.size);
        }
    }
}

proof fn lemma_sorted_origin(stats: Seq<DirStatView>, i: int)
    requires
        0 <= i < in_order::<DirStat>(big_enough(stats)).len(),
    ensures
        stats.contains(in_order::<DirStat>(big_enough(stats))[i]),
{
    let big = big_enough(stats);
    let sorted = in_order::<DirStat>(big);
    lemma_in_order::<DirStat>(big);
    lemma_big_enough(stats);
    assert(sorted.contains(sorted[i]));
    assert(big.contains(sorted[i]));
    let k = choose|k: int| 0 <= k < big.len() && big[k] == sorted[i];
    assert(stats.contains(big[k]));
}

/// The unexplored directories are reported largest first, none below the
/// minimum, none inside one reported before it, and never more than the limit;
/// below the limit, everything large enough is reported or lies inside
/// something that is.
pub proof fn large_directories_are_reported_once(stats: Seq<DirStatView>)
    ensures
        unknown_large(stats).len() <= UNKNOWN_LIMIT,
        forall|i: int|
            0 <= i < unknown_large(stats).len() ==> (#[trigger] unknown_large(stats)[i]).size
                >= UNKNOWN_MIN && unknown_large(stats)[i].notable_children.len() <= CHILD_LIMIT,
        forall|i: int, j: int|
            0 <= i < j < unknown_large(stats).len() ==> {
                &&& (#[trigger] unknown_large(stats)[i]).size >= (
                #[trigger] unknown_large(stats)[j]).size
                &&& !is_inside(unknown_large(stats)[j].path, unknown_large(stats)[i].path)
            },
        forall|k: int|
            0 <= k < stats.len() && (#[trigger] stats[k]).size >= UNKNOWN_MIN && unknown_large(
                stats,
            ).len() < UNKNOWN_LIMIT ==> reported(unknown_large(stats), stats[k].path),
{
    let big = big_enough(stats);
    let sorted = in_order::<DirStat>(big);
    lemma_in_order::<DirStat>(big);
    lemma_big_enough(stats);
    lemma_chosen(sorted, sorted.len());
    let all = unknown_large(stats);
    assert forall|i: int| 0 <= i < all.len() implies (#[trigger] all[i]).size >= UNKNOWN_MIN
        && all[i].notable_children.len() <= CHILD_LIMIT by {
        assert(stands_for(sorted, sorted.len(), all[i]));
        let k = choose|k: int|
            0 <= k < sorted.len() && (#[trigger] sorted[k]).path == all[i].path && sorted[k].size
                == all[i].size;
        assert(sorted.contains(sorted[k]));
        assert(big.contains(sorted[k]));
        let m = choose|m: int| 0 <= m < big.len() && big[m] == sorted[k];
        assert(big[m].size >= UNKNOWN_MIN);
    }
    assert forall|k: int|
        0 <= k < stats.len() && (#[trigger] stats[k]).size >= UNKNOWN_MIN && all.len()
            < UNKNOWN_LIMIT implies reported(all, stats[k].path) by {
        lemma_big_kept(stats, k);
        assert(big.contains(stats[k]));
        assert(sorted.contains(stats[k]));
        let m = choose|m: int| 0 <= m < sorted.len() && sorted[m] == stats[k];
        assert(reported(all, sorted[m].path));
    }
}

proof fn lemma_big_kept(stats: Seq<DirStatView>, k: int)
    requires
        0 <= k < stats.len(),
        stats[k].size >= UNKNOWN_MIN,
    ensures
        big_enough(stats).contains(stats[k]),
    decreases stats.len(),
{
    let front = stats.drop_last();
    let kept = big_enough(front);
    let all = big_enough(stats);
    if k < front.len() {
        assert(front[k] == stats[k]);
        lemma_big_kept(front, k);
        let m = choose|m: int| 0 <= m < kept.len() && kept[m] == stats[k];
        assert(all[m] == stats[k]);
    } else {
        assert(all[kept.len() as int] == stats[k]);
    }
}

// ---------------------------------------------------------------------------
// Laws on subdirectories
// ---------------------------------------------------------------------------

/// Position of a child among the directories that were looked through.
proof fn lemma_child_at(stats: Seq<DirStatView>, path: PathView, i: int) -> (k: int)
    requires
        0 <= i < children_of(stats, path).len(),
    ensures
        0 <= k < stats.len(),
        children_of(stats, path)[i] == (stats[k].path, stats[k].size),
        is_child(stats[k].path, path),
    decreases stats.len(),
{
    let front = children_of(stats.drop_last(), path);
    if i < front.len() {
        lemma_child_at(stats.drop_last(), path, i)
    } else {
        stats.len() - 1
    }
}

/// Two children stood one behind the other in the list.
proof fn lemma_children_in_list_order(stats: Seq<DirStatView>, path: PathView, i: int, j: int) -> (at:
    (int, int))
    requires
        0 <= i < j < children_of(stats, path).len(),
    ensures
        0 <= at.0 < at.1 < stats.len(),
        children_of(stats, path)[i] == (stats[at.0].path, stats[at.0].size),
        children_of(stats, path)[j] == (stats[at.1].path, stats[at.1].size),
    decreases stats.len(),
{
    let front = children_of(stats.drop_last(), path);
    if j < front.len() {
        lemma_children_in_list_order(stats.drop_last(), path, i, j)
    } else {
        (lemma_child_at(stats.drop_last(), path, i), stats.len() - 1)
    }
}

/// Every immediate subdirectory is among the children.
proof fn lemma_child_kept(stats: Seq<DirStatView>, path: PathView, k: int) -> (i: int)
    requires
        0 <= k < stats.len(),
        is_child(stats[k].path, path),
    ensures
        0 <= i < children_of(stats, path).len(),
        children_of(stats, path)[i] == (stats[k].path, stats[k].size),
    decreases stats.len(),
{
    let front = children_of(stats.drop_last(), path);
    if k < stats.len() - 1 {
        lemma_child_kept(stats.drop_last(), path, k)
    } else {
        front.len() as int
    }
}

proof fn lemma_chosen_origin(stats: Seq<DirStatView>, n: nat, i: int) -> (k: int)
    requires
        n <= stats.len(),
        0 <= i < chosen(stats, n).len(),
    ensures
        0 <= k < n,
        chosen(stats, n)[i].path == stats[k].path,
        chosen(stats, n)[i].size == stats[k].size,
        chosen(stats, n)[i].last_modified == stats[k].last_modified,
        chosen(stats, n)[i].notable_children == top_children(stats, stats[k].path),
    decreases n,
{
    let front = chosen(stats, (n - 1) as nat);
    if i < front.len() {
        lemma_chosen_origin(stats, (n - 1) as nat, i)
    } else {
        n - 1
    }
}

proof fn lemma_sorted_big(stats: Seq<DirStatView>, m: int) -> (k: int)
    requires
        0 <= m < in_order::<DirStat>(big_enough(stats)).len(),
    ensures
        0 <= k < stats.len(),
        stats[k] == in_order::<DirStat>(big_enough(stats))[m],
        stats[k].size >= 52_428_800,
{
    let big = big_enough(stats);
    let sorted = in_order::<DirStat>(big);
    lemma_in_order::<DirStat>(big);
    lemma_big_enough(stats);
    assert(sorted.contains(sorted[m]));
    assert(big.contains(sorted[m]));
    let x = choose|x: int| 0 <= x < big.len() && big[x] == sorted[m];
    assert(stats.contains(big[x]));
    choose|k: int| 0 <= k < stats.len() && stats[k] == big[x]
}

/// The directory of which the last component of `child` is an entry is `path`.
pub open spec fn lies_directly_in(child: PathView, path: PathView) -> bool {
    &&& child.parts().len() == path.parts().len() + 1
    &&& forall|i: int| 0 <= i < path.parts().len() ==> child.parts()[i] == path.parts()[i]
    &&& !(child.parts().last() is Root)
}

proof fn lemma_lies_in(child: PathView, path: PathView)
    ensures
        is_child(child, path) <==> lies_directly_in(child, path),
{
    let c = child.parts();
    let p = path.parts();
    if c.len() > 0 && !(c.last() is Root) {
        assert(child.steps.last().part == c.last());
        let parent = path_parent(child)->0;
        assert(parent.parts() =~= c.drop_last());
        if lies_directly_in(child, path) {
            assert(parent.parts() =~= p);
        }
        if is_child(child, path) {
            assert(c.drop_last() == p);
            assert forall|i: int| 0 <= i < p.len() implies c[i] == p[i] by {
                assert(c.drop_last()[i] == p[i]);
            }
        }
    } else if c.len() > 0 {
        assert(child.steps.last().part == c.last());
    }
}

/// A reported directory is one that was measured, with its size and its age, and
/// is shown with subdirectories that were measured to lie directly in it, each
/// with its own size, the largest first.
pub proof fn reported_directories_are_shown_as_measured(stats: Seq<DirStatView>, i: int)
    requires
        0 <= i < unknown_large(stats).len(),
    ensures
        ({
            let dir = unknown_large(stats)[i];
            let children = dir.notable_children;
            &&& exists|k: int|
                0 <= k < stats.len() && (#[trigger] stats[k]).path == dir.path && stats[k].size
                    == dir.size && stats[k].last_modified == dir.last_modified
            &&& dir.size >= 52_428_800
            &&& children.len() <= 4
            &&& forall|c: int|
                0 <= c < children.len() ==> lies_directly_in((#[trigger] children[c]).0, dir.path)
                    && exists|k: int|
                    0 <= k < stats.len() && (#[trigger] stats[k]).path == children[c].0
                        && stats[k].size == children[c].1
            &&& forall|c: int, d: int|
                0 <= c <= d < children.len() ==> (#[trigger] children[c]).1 >= (
                #[trigger] children[d]).1
        }),
{
    let big = big_enough(stats);
    let sorted = in_order::<DirStat>(big);
    lemma_in_order::<DirStat>(big);
    let dir = unknown_large(stats)[i];
    let children = dir.notable_children;
    let m = lemma_chosen_origin(sorted, sorted.len(), i);
    let k = lemma_sorted_big(stats, m);
    assert(stats[k].path == dir.path);
    let all = children_of(sorted, dir.path);
    assert forall|c: int| 0 <= c < children.len() implies lies_directly_in(
        (#[trigger] children[c]).0,
        dir.path,
    ) && exists|k: int|
        0 <= k < stats.len() && (#[trigger] stats[k]).path == children[c].0 && stats[k].size
            == children[c].1 by {
        assert(children[c] == all[c]);
        let n = lemma_child_at(sorted, dir.path, c);
        lemma_lies_in(sorted[n].path, dir.path);
        let q = lemma_sorted_big(stats, n);
        assert(stats[q].path == children[c].0);
    }
    assert forall|c: int, d: int| 0 <= c <= d < children.len() implies (#[trigger] children[c]).1
        >= (#[trigger] children[d]).1 by {
        assert(children[c] == all[c] && children[d] == all[d]);
        if c < d {
            let at = lemma_children_in_list_order(sorted, dir.path, c, d);
            lemma_ordered_at::<DirStat>(sorted, at.0, at.1);
        }
    }
}

/// No subdirectory that is worth a line is left out but in favour of four that
/// are no smaller.
pub proof fn the_largest_subdirectories_are_shown(stats: Seq<DirStatView>, i: int, k: int)
    requires
        0 <= i < unknown_large(stats).len(),
        0 <= k < stats.len(),
        stats[k].size >= 52_428_800,
        lies_directly_in(stats[k].path, unknown_large(stats)[i].path),
    ensures
        ({
            let children = unknown_large(stats)[i].notable_children;
            ||| exists|c: int|
                0 <= c < children.len() && (#[trigger] children[c]) == (
                    stats[k].path,
                    stats[k].size,
                )
            ||| children.len() == 4 && forall|c: int|
                0 <= c < children.len() ==> (#[trigger] children[c]).1 >= stats[k].size
        }),
{
    let big = big_enough(stats);
    let sorted = in_order::<DirStat>(big);
    let dir = unknown_large(stats)[i];
    let children = dir.notable_children;
    let all = children_of(sorted, dir.path);
    lemma_in_order::<DirStat>(big);
    lemma_big_kept(stats, k);
    assert(big.contains(stats[k]));
    assert(sorted.contains(stats[k]));
    let m = choose|m: int| 0 <= m < sorted.len() && sorted[m] == stats[k];
    let o = lemma_chosen_origin(sorted, sorted.len(), i);
    lemma_lies_in(stats[k].path, dir.path);
    let at = lemma_child_kept(sorted, dir.path, m);
    if at < children.len() {
        assert(children[at] == all[at]);
    } else {
        assert forall|c: int| 0 <= c < children.len() implies (#[trigger] children[c]).1
            >= stats[k].size by {
            assert(children[c] == all[c]);
            let pair = lemma_children_in_list_order(sorted, dir.path, c, at);
            lemma_ordered_at::<DirStat>(sorted, pair.0, pair.1);
        }
    }
}

/// Two measurements of one directory.
spec fn of_one_directory() -> spec_fn(DirStatView, DirStatView) -> bool {
    |a: DirStatView, b: DirStatView| same_path(a.path, b.path)
}

/// Where no directory was measured twice, no subdirectory is shown twice.
pub proof fn no_subdirectory_is_shown_twice(stats: Seq<DirStatView>, i: int, c: int, d: int)
    requires
        forall|a: int, b: int|
            0 <= a < b < stats.len() ==> !same_path(
                (#[trigger] stats[a]).path,
                (#[trigger] stats[b]).path,
            ),
        0 <= i < unknown_large(stats).len(),
        0 <= c < d < unknown_large(stats)[i].notable_children.len(),
    ensures
        !same_path(
            unknown_large(stats)[i].notable_children[c].0,
            unknown_large(stats)[i].notable_children[d].0,
        ),
{
    let big = big_enough(stats);
    let sorted = in_order::<DirStat>(big);
    let dir = unknown_large(stats)[i];
    let related = of_one_directory();
    assert forall|a: int, b: int|
        0 <= a < big.len() && 0 <= b < big.len() && a != b implies !related(
        #[trigger] big[a],
        #[trigger] big[b],
    ) by {
        if a < b {
            let at = lemma_big_in_list_order(stats, a, b);
            assert(!same_path(stats[at.0].path, stats[at.1].path));
        } else {
            let at = lemma_big_in_list_order(stats, b, a);
            assert(!same_path(stats[at.0].path, stats[at.1].path));
        }
    }
    lemma_in_order_apart::<DirStat>(big, related);
    let o = lemma_chosen_origin(sorted, sorted.len(), i);
    let at = lemma_children_in_list_order(sorted, dir.path, c, d);
    assert(!related(sorted[at.0], sorted[at.1]));
}

// ---------------------------------------------------------------------------
// Laws on single entries
// ---------------------------------------------------------------------------

/// How many files, directories and subdirectories are kept, how large and how
/// deep the unexplored ones are looked for.
pub proof fn the_lists_have_their_lengths()
    ensures
        FILE_LIMIT == 30,
        UNKNOWN_LIMIT == 25,
        CHILD_LIMIT == 4,
        UNKNOWN_MIN == 50 * 1_048_576,
        UNKNOWN_DEPTH == 4,
{
}

/// What is asked of an entry that lies in no skipped place: beside a directory
/// below the root, of a file what the file system says, of others nothing. The
/// inside of a repository is never entered, and neither is a skipped place.
pub proof fn an_entry_is_asked_for_what_decides(skip: Seq<PathView>, visit: VisitView)
    ensures
        (exists|i: int| 0 <= i < skip.len() && is_inside(visit.path, #[trigger] skip[i]))
            ==> question(skip, visit) == Question::Prune,
        (forall|i: int| 0 <= i < skip.len() ==> !is_inside(visit.path, #[trigger] skip[i])) ==> {
            let git = visit.path.steps.len() > 0 && visit.path.steps.last().part
                == PartView::Name(".git"@);
            &&& visit.is_dir && visit.depth > 0 && git ==> question(skip, visit)
                == Question::Prune
            &&& visit.is_dir && visit.depth > 0 && !git ==> question(skip, visit)
                == Question::Surroundings
            &&& !(visit.is_dir && visit.depth > 0) && visit.is_file ==> question(skip, visit)
                == Question::Metadata
            &&& !(visit.is_dir && visit.depth > 0) && !visit.is_file ==> question(skip, visit)
                == Question::Pass
        },
{
}

/// A directory that counts is taken under its category, behind those that are
/// there, and the walk keeps out of it; any other directory leaves no trace and
/// is entered.
pub proof fn a_directory_is_taken_or_entered(
    walk: WalkView,
    visit: VisitView,
    answer: AnswerView,
    now: Timestamp,
)
    requires
        question(walk.skip, visit) == Question::Surroundings,
    ensures
        category_at(visit.path, answer.around) matches Some(cat) ==> {
            let after = after_visit(walk, visit, answer, now);
            &&& prunes(walk.skip, visit, answer)
            &&& after.pending.len() == walk.pending.len() + 1
            &&& forall|i: int|
                0 <= i < walk.pending.len() ==> #[trigger] after.pending[i] == walk.pending[i]
            &&& after.pending.last() == (visit.path, cat)
            &&& after.large_files == walk.large_files
            &&& after.old_files == walk.old_files
            &&& after.disk_images == walk.disk_images
        },
        category_at(visit.path, answer.around) is None ==> {
            &&& !prunes(walk.skip, visit, answer)
            &&& after_visit(walk, visit, answer, now) == walk
        },
{
    if category_at(visit.path, answer.around) is None {
        assert(after_visit(walk, visit, answer, now) == walk);
    }
}

/// A file whose bytes are here goes into the list of large files from the limit
/// on, into that of old ones if it is stale, and into that of images if it is
/// one; nothing else changes, and nothing at all for a file that could not be
/// read or lies elsewhere.
pub proof fn a_file_is_sorted_into_its_lists(
    walk: WalkView,
    visit: VisitView,
    answer: AnswerView,
    now: Timestamp,
)
    requires
        question(walk.skip, visit) == Question::Metadata,
    ensures
        !prunes(walk.skip, visit, answer),
        after_visit(walk, visit, answer, now).pending == walk.pending,
        after_visit(walk, visit, answer, now).errors == walk.errors,
        answer.file is None ==> after_visit(walk, visit, answer, now) == walk,
        answer.file matches Some(file) ==> {
            let after = after_visit(walk, visit, answer, now);
            let size = file.size;
            &&& !file.local ==> after.large_files == walk.large_files && after.old_files
                == walk.old_files && after.disk_images == walk.disk_images
            &&& file.local ==> {
                &&& after.large_files.len() == walk.large_files.len() + (if size
                    >= walk.limits.large {
                    1int
                } else {
                    0
                })
                &&& size >= walk.limits.large ==> after.large_files.last().path == visit.path
                    && after.large_files.last().size == size
                &&& after.old_files.len() == walk.old_files.len() + (if is_stale(
                    file,
                    walk.limits,
                    now,
                ) {
                    1int
                } else {
                    0
                })
                &&& is_stale(file, walk.limits, now) ==> after.old_files.last().path == visit.path
                    && after.old_files.last().size == size
                &&& after.disk_images.len() == walk.disk_images.len() + (if is_forgotten_image(
                    visit.path,
                    size,
                ) {
                    1int
                } else {
                    0
                })
                &&& is_forgotten_image(visit.path, size) ==> after.disk_images.last().path
                    == visit.path && after.disk_images.last().size == size
            }
        },
{
}

/// The search for unexplored directories notes each directory below the root
/// that is neither skipped, nor a repository's inside, nor in the report, and
/// goes on below it; below every other directory and skipped place it stops.
pub proof fn every_open_directory_is_explored(search: UnknownSearchView, visit: VisitView)
    requires
        visit.is_dir,
        visit.depth > 0,
    ensures
        ({
            let git = visit.path.steps.len() > 0 && visit.path.steps.last().part
                == PartView::Name(".git"@);
            let skipped = exists|i: int|
                0 <= i < search.skip.len() && is_inside(visit.path, #[trigger] search.skip[i]);
            let known = exists|i: int|
                0 <= i < search.known.len() && is_inside(visit.path, #[trigger] search.known[i]);
            &&& is_candidate(search, visit) <==> !git && !skipped && !known
            &&& search_prunes(search, visit) <==> git || skipped || known
        }),
{
}

/// Neither a file nor the root of the scan is an unexplored directory, and the
/// search goes on below the root unless that is skipped.
pub proof fn only_directories_below_the_root_are_explored(
    search: UnknownSearchView,
    visit: VisitView,
)
    requires
        !visit.is_dir || visit.depth == 0,
    ensures
        !is_candidate(search, visit),
        search_prunes(search, visit) <==> exists|i: int|
            0 <= i < search.skip.len() && is_inside(visit.path, #[trigger] search.skip[i]),
{
}

/// The result passes on what is no list of directories or files as it is, and
/// every image that was noted, the largest first.
pub proof fn nothing_else_is_lost_in_the_result(
    walk: WalkView,
    dirs: Seq<FoundDirView>,
    reserved: Seq<ReservedFileView>,
)
    ensures
        result_of(walk, dirs, reserved).reserved_files == reserved,
        result_of(walk, dirs, reserved).permission_errors == walk.errors,
        result_of(walk, dirs, reserved).disk_images.to_multiset()
            == walk.disk_images.to_multiset(),
        forall|i: int, j: int|
            0 <= i <= j < result_of(walk, dirs, reserved).disk_images.len() ==> (
            #[trigger] result_of(walk, dirs, reserved).disk_images[i]).size >= (
            #[trigger] result_of(walk, dirs, reserved).disk_images[j]).size,
        result_of(walk, dirs, reserved).large_unknown_dirs.len() == 0,
{
    let images = in_order::<FoundFile>(walk.disk_images);
    lemma_in_order::<FoundFile>(walk.disk_images);
    assert forall|i: int, j: int| 0 <= i <= j < images.len() implies (#[trigger] images[i]).size
        >= (#[trigger] images[j]).size by {
        lemma_ordered_at::<FoundFile>(images, i, j);
    }
}

/// A measured directory that holds something stands in the result as often as it
/// was measured, the largest first.
pub proof fn directories_are_reported_as_measured(
    walk: WalkView,
    dirs: Seq<FoundDirView>,
    reserved: Seq<ReservedFileView>,
)
    requires
        forall|i: int| 0 <= i < dirs.len() ==> (#[trigger] dirs[i]).size > 0,
    ensures
        result_of(walk, dirs, reserved).dirs.to_multiset() == dirs.to_multiset(),
        forall|i: int, j: int|
            0 <= i <= j < result_of(walk, dirs, reserved).dirs.len() ==> (
            #[trigger] result_of(walk, dirs, reserved).dirs[i]).size >= (
            #[trigger] result_of(walk, dirs, reserved).dirs[j]).size,
{
    lemma_all_filled(dirs);
    let sorted = in_order::<FoundDir>(dirs);
    lemma_in_order::<FoundDir>(dirs);
    assert forall|i: int, j: int| 0 <= i <= j < sorted.len() implies (#[trigger] sorted[i]).size
        >= (#[trigger] sorted[j]).size by {
        lemma_ordered_at::<FoundDir>(sorted, i, j);
    }
}

proof fn lemma_all_filled(dirs: Seq<FoundDirView>)
    requires
        forall|i: int| 0 <= i < dirs.len() ==> (#[trigger] dirs[i]).size > 0,
    ensures
        filled(dirs) == dirs,
    decreases dirs.len(),
{
    if dirs.len() == 0 {
        assert(filled(dirs) =~= dirs);
    } else {
        let front = dirs.drop_last();
        assert forall|i: int| 0 <= i < front.len() implies (#[trigger] front[i]).size > 0 by {
            assert(dirs[i].size > 0);
        }
        lemma_all_filled(front);
        assert(dirs[dirs.len() - 1].size > 0);
        assert(front.push(dirs.last()) =~= dirs);
    }
}

/// A reserved file whose size could be read is reported, with that size and the
/// hint that belongs to it.
pub proof fn readable_reserved_files_are_reported(
    files: Seq<(PathView, Seq<char>)>,
    sizes: Seq<Option<u64>>,
    i: int,
)
    requires
        sizes.len() == files.len(),
        0 <= i < files.len(),
    ensures
        sizes[i] matches Some(size) ==> exists|k: int|
            0 <= k < readable(files, sizes).len() && (#[trigger] readable(files, sizes)[k]).path
                == files[i].0 && readable(files, sizes)[k].size == size && readable(
                files,
                sizes,
            )[k].hint == files[i].1,
{
    lemma_readable_kept(files, sizes, i);
}

/// No other reserved file is reported.
pub proof fn only_readable_reserved_files_are_reported(
    files: Seq<(PathView, Seq<char>)>,
    sizes: Seq<Option<u64>>,
    k: int,
)
    requires
        sizes.len() == files.len(),
        0 <= k < readable(files, sizes).len(),
    ensures
        exists|j: int|
            0 <= j < files.len() && (#[trigger] files[j]).0 == readable(files, sizes)[k].path
                && sizes[j] == Some(readable(files, sizes)[k].size) && files[j].1 == readable(
                files,
                sizes,
            )[k].hint,
{
    let j = lemma_readable_origin(files, sizes, k);
    assert(files[j].0 == readable(files, sizes)[k].path);
}

proof fn lemma_readable_kept(files: Seq<(PathView, Seq<char>)>, sizes: Seq<Option<u64>>, i: int)
    requires
        files.len() <= sizes.len(),
        0 <= i < files.len(),
    ensures
        sizes[i] matches Some(size) ==> exists|k: int|
            0 <= k < readable(files, sizes).len() && (#[trigger] readable(files, sizes)[k]).path
                == files[i].0 && readable(files, sizes)[k].size == size && readable(
                files,
                sizes,
            )[k].hint == files[i].1,
    decreases files.len(),
{
    let front = readable(files.drop_last(), sizes);
    let all = readable(files, sizes);
    if sizes[i] is Some {
        if i < files.len() - 1 {
            lemma_readable_kept(files.drop_last(), sizes, i);
            let k = choose|k: int|
                0 <= k < front.len() && (#[trigger] front[k]).path == files[i].0 && front[k].size
                    == sizes[i]->0 && front[k].hint == files[i].1;
            assert(all[k] == front[k]);
        } else {
            assert(all[front.len() as int].path == files[i].0);
        }
    }
}

proof fn lemma_readable_origin(
    files: Seq<(PathView, Seq<char>)>,
    sizes: Seq<Option<u64>>,
    k: int,
) -> (j: int)
    requires
        files.len() <= sizes.len(),
        0 <= k < readable(files, sizes).len(),
    ensures
        0 <= j < files.len(),
        files[j].0 == readable(files, sizes)[k].path,
        sizes[j] == Some(readable(files, sizes)[k].size),
        files[j].1 == readable(files, sizes)[k].hint,
    decreases files.len(),
{
    let front = readable(files.drop_last(), sizes);
    if k < front.len() {
        lemma_readable_origin(files.drop_last(), sizes, k)
    } else {
        files.len() - 1
    }
}

/// The limits of a scan are those that were asked for, in bytes and seconds, and
/// ten megabytes for old files.
pub proof fn the_limits_are_those_asked_for(scanner: Scanner)
    requires
        scanner.config.large_over_mb * 1_048_576 <= u64::MAX,
        scanner.config.old_after_days * 86_400 <= u64::MAX,
    ensures
        scanner.limits_fit(),
        scanner.limits_view().large == scanner.config.large_over_mb * 1_048_576,
        scanner.limits_view().old_after == scanner.config.old_after_days * 24 * 60 * 60,
        scanner.limits_view().old_min == 10 * 1_048_576,
{
}

/// The fixed targets are kept out of the walk, each of them, where they are
/// asked for.
pub proof fn the_walk_keeps_out_of_the_fixed_targets(
    scanner: Scanner,
    defaults: Seq<PathView>,
    system: Seq<TargetView>,
    i: int,
)
    requires
        scanner.config.include_system,
        0 <= i < system.len(),
    ensures
        scanner.start_view(defaults, system).system == system,
        scanner.start_view(defaults, system).skip.contains(system[i].0),
{
    let kept = skips_for(scanner.config.root@, defaults);
    let start = scanner.start_view(defaults, system);
    assert(start.skip[kept.len() + i] == system[i].0);
}

/// A walk starts with nothing noted and no errors, with the fixed targets of the
/// system where the scan takes those in, and with none where it does not.
pub proof fn a_walk_starts_with_nothing_noted(
    scanner: Scanner,
    defaults: Seq<PathView>,
    system: Seq<TargetView>,
)
    ensures
        ({
            let walk = scanner.start_view(defaults, system);
            &&& walk.pending.len() == 0
            &&& walk.large_files.len() == 0
            &&& walk.old_files.len() == 0
            &&& walk.disk_images.len() == 0
            &&& walk.errors == 0
            &&& scanner.config.include_system ==> walk.system == system
            &&& !scanner.config.include_system ==> walk.system.len() == 0
        }),
{
}

} // verus!
