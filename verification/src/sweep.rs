//! The search for Chromium cache directories under the roots where apps keep
//! their data, one directory listing at a time.

use vstd::prelude::*;

use crate::category::Category;
use crate::path::{unicode, FsPath, Part, PartView, PathView};
use crate::targets::{Target, TargetView};
use crate::text::{one_of, views};

verus! {

broadcast use crate::text::lemma_views_push;

/// One entry of a directory listing. A symbolic link is not a directory.
pub struct Entry {
    pub name: Part,
    pub is_dir: bool,
}

#[verifier::ext_equal]
pub struct EntryView {
    pub name: PartView,
    pub is_dir: bool,
}

impl View for Entry {
    type V = EntryView;

    open spec fn view(&self) -> EntryView {
        EntryView { name: self.name@, is_dir: self.is_dir }
    }
}

/// The directory names Chromium uses for its caches, identical under every
/// Electron app, browser profile and session partition, on every platform.
///
/// `Local Storage`, `Session Storage` and `IndexedDB` sit beside these and look
/// just like them. They hold an app's offline documents and unsent work, so
/// nothing may be added here without checking which of the two it is.
pub open spec fn is_web_cache(name: PartView) -> bool {
    match unicode(name) {
        Some(text) => {
            ||| text == "Cache"@
            ||| text == "CachedData"@
            ||| text == "Code Cache"@
            ||| text == "DawnCache"@
            ||| text == "DawnGraphiteCache"@
            ||| text == "DawnWebGPUCache"@
            ||| text == "GPUCache"@
            ||| text == "GrShaderCache"@
            ||| text == "ShaderCache"@
            ||| text == "Service Worker"@
            ||| text == "component_crx_cache"@
        },
        None => false,
    }
}

/// Trees whose children carry cache-shaped names over real user data: Store app
/// data on Windows, and the group and cloud roots on macOS.
pub open spec fn is_never_swept(name: PartView) -> bool {
    match unicode(name) {
        Some(text) => {
            ||| text == "Packages"@
            ||| text == "Group Containers"@
            ||| text == "CloudStorage"@
            ||| text == "Mobile Documents"@
        },
        None => false,
    }
}

fn web_cache(name: &Part) -> (r: bool)
    ensures
        r == is_web_cache(name@),
{
    match name.to_str() {
        Some(text) => {
            let dirs: [&'static str; 11] = [
                "Cache",
                "CachedData",
                "Code Cache",
                "DawnCache",
                "DawnGraphiteCache",
                "DawnWebGPUCache",
                "GPUCache",
                "GrShaderCache",
                "ShaderCache",
                "Service Worker",
                "component_crx_cache",
            ];
            let r = one_of(&text, &dirs);
            proof {
                assert(dirs@[0]@ == "Cache"@ && dirs@[1]@ == "CachedData"@);
                assert(dirs@[2]@ == "Code Cache"@ && dirs@[3]@ == "DawnCache"@);
                assert(dirs@[4]@ == "DawnGraphiteCache"@ && dirs@[5]@ == "DawnWebGPUCache"@);
                assert(dirs@[6]@ == "GPUCache"@ && dirs@[7]@ == "GrShaderCache"@);
                assert(dirs@[8]@ == "ShaderCache"@ && dirs@[9]@ == "Service Worker"@);
                assert(dirs@[10]@ == "component_crx_cache"@);
            }
            r
        },
        None => false,
    }
}

fn never_swept(name: &Part) -> (r: bool)
    ensures
        r == is_never_swept(name@),
{
    match name.to_str() {
        Some(text) => {
            let trees: [&'static str; 4] =
                ["Packages", "Group Containers", "CloudStorage", "Mobile Documents"];
            let r = one_of(&text, &trees);
            proof {
                assert(trees@[0]@ == "Packages"@ && trees@[1]@ == "Group Containers"@);
                assert(trees@[2]@ == "CloudStorage"@ && trees@[3]@ == "Mobile Documents"@);
            }
            r
        },
        None => false,
    }
}

// ---------------------------------------------------------------------------
// What the search finds on a disk
// ---------------------------------------------------------------------------

/// The listing of every directory; empty where there is none to be had.
pub type Disk = spec_fn(PathView) -> Seq<EntryView>;

/// The caches that the entries of `dir` lead to, `depth` levels further down
/// at the most.
pub open spec fn caches_under(
    disk: Disk,
    dir: PathView,
    entries: Seq<EntryView>,
    depth: nat,
) -> Seq<TargetView>
    decreases depth, entries.len(),
{
    if entries.len() == 0 {
        Seq::empty()
    } else {
        let child = dir.child(entries[0].name);
        let rest = caches_under(disk, dir, entries.drop_first(), depth);
        if !entries[0].is_dir || is_never_swept(entries[0].name) {
            rest
        } else if is_web_cache(entries[0].name) {
            seq![(child, Category::AppWebCache)] + rest
        } else if depth > 0 {
            caches_under(disk, child, disk(child), (depth - 1) as nat) + rest
        } else {
            rest
        }
    }
}

/// The caches under each of the roots, deep enough for
/// `<app>/Partitions/<session>/Cache` and `<browser>/<profile>/Cache`.
pub open spec fn caches_of_roots(disk: Disk, roots: Seq<PathView>) -> Seq<TargetView>
    decreases roots.len(),
{
    if roots.len() == 0 {
        Seq::empty()
    } else {
        caches_under(disk, roots[0], disk(roots[0]), 3) + caches_of_roots(disk, roots.drop_first())
    }
}

// ---------------------------------------------------------------------------
// The search
// ---------------------------------------------------------------------------

/// Something left to do.
pub enum Work {
    /// A cache to be noted.
    Take(FsPath),
    /// A directory to be listed, and how many levels may follow.
    List(FsPath, u32),
}

#[verifier::ext_equal]
pub enum WorkView {
    Take(PathView),
    List(PathView, nat),
}

impl View for Work {
    type V = WorkView;

    open spec fn view(&self) -> WorkView {
        match self {
            Work::Take(path) => WorkView::Take(path@),
            Work::List(path, depth) => WorkView::List(path@, *depth as nat),
        }
    }
}

/// What a piece of work leads to.
pub open spec fn work_outcome(disk: Disk, work: WorkView) -> Seq<TargetView> {
    match work {
        WorkView::Take(path) => seq![(path, Category::AppWebCache)],
        WorkView::List(path, depth) => caches_under(disk, path, disk(path), depth),
    }
}

/// What the pending work leads to, the last piece first.
pub open spec fn pending_outcome(disk: Disk, pending: Seq<WorkView>) -> Seq<TargetView>
    decreases pending.len(),
{
    if pending.len() == 0 {
        Seq::empty()
    } else {
        work_outcome(disk, pending.last()) + pending_outcome(disk, pending.drop_last())
    }
}

/// The work that the entries of a listing call for, in reverse.
pub open spec fn work_for(dir: PathView, entries: Seq<EntryView>, depth: nat) -> Seq<WorkView>
    decreases entries.len(),
{
    if entries.len() == 0 {
        Seq::empty()
    } else {
        let rest = work_for(dir, entries.drop_first(), depth);
        let child = dir.child(entries[0].name);
        if !entries[0].is_dir || is_never_swept(entries[0].name) {
            rest
        } else if is_web_cache(entries[0].name) {
            rest.push(WorkView::Take(child))
        } else if depth > 0 {
            rest.push(WorkView::List(child, (depth - 1) as nat))
        } else {
            rest
        }
    }
}

pub open spec fn roots_work(roots: Seq<PathView>) -> Seq<WorkView>
    decreases roots.len(),
{
    if roots.len() == 0 {
        Seq::empty()
    } else {
        roots_work(roots.drop_first()).push(WorkView::List(roots[0], 3))
    }
}

pub struct WebCacheSweep {
    pub pending: Vec<Work>,
    pub found: Vec<Target>,
}

impl WebCacheSweep {
    /// All that the search will have found on this disk in the end.
    pub open spec fn outcome(self, disk: Disk) -> Seq<TargetView> {
        views(self.found@) + pending_outcome(disk, views(self.pending@))
    }

    /// Every Electron app keeps its caches under the platform's per-app data
    /// root: Application Support on macOS, %APPDATA% and %LOCALAPPDATA% on
    /// Windows.
    pub fn new(roots: &Vec<FsPath>) -> (r: WebCacheSweep)
        ensures
            r.found@.len() == 0,
            views(r.pending@) == roots_work(views(roots@)),
            forall|disk: Disk| #[trigger]
                r.outcome(disk) == caches_of_roots(disk, views(roots@)),
    {
        let mut pending: Vec<Work> = Vec::new();
        let ghost all = views(roots@);
        let mut i = roots.len();
        assert(views(pending@) =~= roots_work(all.skip(i as int)));
        while i > 0
            invariant
                i <= roots.len(),
                all == views(roots@),
                views(pending@) == roots_work(all.skip(i as int)),
            decreases i,
        {
            i = i - 1;
            assert(all.skip(i as int).drop_first() =~= all.skip(i + 1));
            assert(all.skip(i as int)[0] == all[i as int]);
            pending.push(Work::List(roots[i].clone(), 3));
        }
        assert(all.skip(0) =~= all);
        let r = WebCacheSweep { pending, found: Vec::new() };
        assert forall|disk: Disk| #[trigger]
            r.outcome(disk) == caches_of_roots(disk, views(roots@)) by {
            lemma_roots_work(disk, all);
            assert(r.outcome(disk) =~= caches_of_roots(disk, all));
        }
        r
    }

    /// The next directory to list, with the number of levels that may follow
    /// it. When there is none the search is over.
    pub fn next(&mut self) -> (r: Option<(FsPath, u32)>)
        ensures
            r is None ==> final(self).pending@.len() == 0,
            forall|disk: Disk| #[trigger]
                old(self).outcome(disk) == (match r {
                    None => views(final(self).found@),
                    Some(listed) => views(final(self).found@) + (caches_under(
                        disk,
                        listed.0@,
                        disk(listed.0@),
                        listed.1 as nat,
                    ) + pending_outcome(disk, views(final(self).pending@))),
                }),
    {
        let ghost start = *self;
        loop
            invariant
                start == *old(self),
                forall|disk: Disk| #[trigger] start.outcome(disk) == self.outcome(disk),
            ensures
                self.pending@.len() == 0,
            decreases self.pending@.len(),
        {
            let ghost before = *self;
            let ghost stack = views(self.pending@);
            match self.pending.pop() {
                None => {
                    break;
                },
                Some(Work::Take(path)) => {
                    let ghost target = (path@, Category::AppWebCache);
                    assert(views(self.pending@) =~= stack.drop_last());
                    self.found.push((path, Category::AppWebCache));
                    assert forall|disk: Disk| #[trigger]
                        start.outcome(disk) == self.outcome(disk) by {
                        assert(before.outcome(disk) =~= self.outcome(disk));
                    }
                },
                Some(Work::List(path, depth)) => {
                    assert(views(self.pending@) =~= stack.drop_last());
                    assert(stack.last() == WorkView::List(path@, depth as nat));
                    assert forall|disk: Disk| #[trigger]
                        start.outcome(disk) == views(self.found@) + (caches_under(
                            disk,
                            path@,
                            disk(path@),
                            depth as nat,
                        ) + pending_outcome(disk, views(self.pending@))) by {
                        assert(start.outcome(disk) == before.outcome(disk));
                    }
                    return Some((path, depth));
                },
            }
        }
        assert forall|disk: Disk| #[trigger] start.outcome(disk) == views(self.found@) by {
            assert(self.outcome(disk) =~= views(self.found@));
        }
        None
    }

    /// Takes in the listing of the directory that `next` asked for. Matching on
    /// the name finds every Electron app's cache without naming one. A matched
    /// directory is never descended into, so nothing is counted twice.
    pub fn collect_web_caches(&mut self, dir: &FsPath, depth: u32, entries: &Vec<Entry>)
        ensures
            final(self).found@ == old(self).found@,
            views(final(self).pending@) == views(old(self).pending@) + work_for(
                dir@,
                views(entries@),
                depth as nat,
            ),
            forall|disk: Disk|
                disk(dir@) == views(entries@) ==> #[trigger] final(self).outcome(disk) == views(
                    old(self).found@,
                ) + (caches_under(disk, dir@, disk(dir@), depth as nat) + pending_outcome(
                    disk,
                    views(old(self).pending@),
                )),
    {
        let ghost had = views(self.pending@);
        let ghost all = views(entries@);
        let mut i = entries.len();
        assert(had + work_for(dir@, all.skip(i as int), depth as nat) =~= had);
        while i > 0
            invariant
                i <= entries.len(),
                all == views(entries@),
                self.found@ == old(self).found@,
                views(self.pending@) == had + work_for(dir@, all.skip(i as int), depth as nat),
            decreases i,
        {
            i = i - 1;
            let entry = &entries[i];
            let ghost stack = views(self.pending@);
            let ghost rest = work_for(dir@, all.skip(i + 1), depth as nat);
            assert(all.skip(i as int).drop_first() =~= all.skip(i + 1));
            assert(all.skip(i as int)[0] == entry@);
            if entry.is_dir && !never_swept(&entry.name) {
                if web_cache(&entry.name) {
                    let child = dir.child(&entry.name);
                    self.pending.push(Work::Take(child));
                } else if depth > 0 {
                    let child = dir.child(&entry.name);
                    self.pending.push(Work::List(child, depth - 1));
                }
            }
            assert(views(self.pending@) =~= had + work_for(
                dir@,
                all.skip(i as int),
                depth as nat,
            ));
        }
        assert(all.skip(0) =~= all);
        assert forall|disk: Disk| disk(dir@) == views(entries@) implies #[trigger] self.outcome(
            disk,
        ) == views(old(self).found@) + (caches_under(disk, dir@, disk(dir@), depth as nat)
            + pending_outcome(disk, had)) by {
            lemma_work_for(disk, had, dir@, all, depth as nat);
        }
    }
}

proof fn lemma_roots_work(disk: Disk, roots: Seq<PathView>)
    ensures
        pending_outcome(disk, roots_work(roots)) == caches_of_roots(disk, roots),
    decreases roots.len(),
{
    if roots.len() > 0 {
        lemma_roots_work(disk, roots.drop_first());
        assert(roots_work(roots).drop_last() =~= roots_work(roots.drop_first()));
    }
}

proof fn lemma_work_for(
    disk: Disk,
    pending: Seq<WorkView>,
    dir: PathView,
    entries: Seq<EntryView>,
    depth: nat,
)
    ensures
        pending_outcome(disk, pending + work_for(dir, entries, depth)) == caches_under(
            disk,
            dir,
            entries,
            depth,
        ) + pending_outcome(disk, pending),
    decreases entries.len(),
{
    let work = work_for(dir, entries, depth);
    if entries.len() == 0 {
        assert(pending + work =~= pending);
        assert(caches_under(disk, dir, entries, depth) + pending_outcome(disk, pending)
            =~= pending_outcome(disk, pending));
    } else {
        let rest = work_for(dir, entries.drop_first(), depth);
        lemma_work_for(disk, pending, dir, entries.drop_first(), depth);
        if work.len() > rest.len() {
            assert((pending + work).drop_last() =~= pending + rest);
            assert((pending + work).last() == work.last());
            assert(pending_outcome(disk, pending + work) =~= caches_under(
                disk,
                dir,
                entries,
                depth,
            ) + pending_outcome(disk, pending));
        }
    }
}

// ---------------------------------------------------------------------------
// Laws
// ---------------------------------------------------------------------------

/// The entry that the names lead to from `dir`, one directory after the other.
pub open spec fn entry_path(dir: PathView, names: Seq<PartView>) -> PathView
    decreases names.len(),
{
    if names.len() == 0 {
        dir
    } else {
        entry_path(dir.child(names[0]), names.drop_first())
    }
}

/// The names lead through no tree of real user data and through no cache, and
/// end in one.
pub open spec fn leads_to_cache(names: Seq<PartView>) -> bool {
    &&& names.len() > 0
    &&& is_web_cache(names.last())
    &&& forall|i: int| 0 <= i < names.len() ==> !is_never_swept(#[trigger] names[i])
    &&& forall|i: int| 0 <= i < names.len() - 1 ==> !is_web_cache(#[trigger] names[i])
}

/// The target is a cache somewhere below `dir`.
pub open spec fn is_cache_below(target: TargetView, dir: PathView) -> bool {
    &&& target.1 == Category::AppWebCache
    &&& exists|names: Seq<PartView>|
        leads_to_cache(names) && target.0 == #[trigger] entry_path(dir, names)
}

proof fn lemma_cache_below_child(target: TargetView, dir: PathView, name: PartView)
    requires
        is_cache_below(target, dir.child(name)),
        !is_never_swept(name),
        !is_web_cache(name),
    ensures
        is_cache_below(target, dir),
{
    let child = dir.child(name);
    let names = choose|names: Seq<PartView>|
        leads_to_cache(names) && target.0 == #[trigger] entry_path(child, names);
    let all = seq![name] + names;
    assert(all.drop_first() =~= names);
    assert(all.last() == names.last());
    assert forall|i: int| 0 <= i < all.len() implies !is_never_swept(#[trigger] all[i]) by {
        if i > 0 {
            assert(all[i] == names[i - 1]);
        }
    }
    assert forall|i: int| 0 <= i < all.len() - 1 implies !is_web_cache(#[trigger] all[i]) by {
        if i > 0 {
            assert(all[i] == names[i - 1]);
        }
    }
    assert(target.0 == entry_path(dir, all));
}

/// The search takes caches only, never enters a tree of real user data, and
/// never looks inside a cache.
pub proof fn the_sweep_takes_caches_only(
    disk: Disk,
    dir: PathView,
    entries: Seq<EntryView>,
    depth: nat,
    i: int,
)
    requires
        0 <= i < caches_under(disk, dir, entries, depth).len(),
    ensures
        is_cache_below(caches_under(disk, dir, entries, depth)[i], dir),
    decreases depth, entries.len(),
{
    let all = caches_under(disk, dir, entries, depth);
    let rest = caches_under(disk, dir, entries.drop_first(), depth);
    let name = entries[0].name;
    let child = dir.child(name);
    if !entries[0].is_dir || is_never_swept(name) {
        the_sweep_takes_caches_only(disk, dir, entries.drop_first(), depth, i);
    } else if is_web_cache(name) {
        if i == 0 {
            let names = seq![name];
            assert(names.drop_first() =~= Seq::empty());
            assert(entry_path(child, names.drop_first()) == child);
            assert(all[0].0 == entry_path(dir, names));
        } else {
            the_sweep_takes_caches_only(disk, dir, entries.drop_first(), depth, i - 1);
            assert(all[i] == rest[i - 1]);
        }
    } else if depth > 0 {
        let deeper = caches_under(disk, child, disk(child), (depth - 1) as nat);
        if i < deeper.len() {
            the_sweep_takes_caches_only(disk, child, disk(child), (depth - 1) as nat, i);
            assert(all[i] == deeper[i]);
            lemma_cache_below_child(all[i], dir, name);
        } else {
            the_sweep_takes_caches_only(
                disk,
                dir,
                entries.drop_first(),
                depth,
                i - deeper.len(),
            );
            assert(all[i] == rest[i - deeper.len()]);
        }
    } else {
        the_sweep_takes_caches_only(disk, dir, entries.drop_first(), depth, i);
    }
}

/// Each of the names is a directory on the disk where the ones before it lead.
pub open spec fn is_on_disk(disk: Disk, dir: PathView, names: Seq<PartView>) -> bool
    decreases names.len(),
{
    names.len() > 0 ==> {
        &&& disk(dir).contains(EntryView { name: names[0], is_dir: true })
        &&& is_on_disk(disk, dir.child(names[0]), names.drop_first())
    }
}

proof fn lemma_contains_concat(a: Seq<TargetView>, b: Seq<TargetView>, target: TargetView)
    requires
        a.contains(target) || b.contains(target),
    ensures
        (a + b).contains(target),
{
    if a.contains(target) {
        let i = choose|i: int| 0 <= i < a.len() && a[i] == target;
        assert((a + b)[i] == target);
    } else {
        let i = choose|i: int| 0 <= i < b.len() && b[i] == target;
        assert((a + b)[a.len() + i] == target);
    }
}

proof fn lemma_cache_found(
    disk: Disk,
    dir: PathView,
    entries: Seq<EntryView>,
    depth: nat,
    names: Seq<PartView>,
    k: int,
)
    requires
        leads_to_cache(names),
        names.len() <= depth + 1,
        is_on_disk(disk, dir, names),
        0 <= k < entries.len(),
        entries[k] == (EntryView { name: names[0], is_dir: true }),
    ensures
        caches_under(disk, dir, entries, depth).contains(
            (entry_path(dir, names), Category::AppWebCache),
        ),
    decreases depth, entries.len(),
{
    let target = (entry_path(dir, names), Category::AppWebCache);
    let child = dir.child(entries[0].name);
    let rest = caches_under(disk, dir, entries.drop_first(), depth);
    if k > 0 {
        lemma_cache_found(disk, dir, entries.drop_first(), depth, names, k - 1);
        if !entries[0].is_dir || is_never_swept(entries[0].name) {
        } else if is_web_cache(entries[0].name) {
            lemma_contains_concat(seq![(child, Category::AppWebCache)], rest, target);
        } else if depth > 0 {
            lemma_contains_concat(
                caches_under(disk, child, disk(child), (depth - 1) as nat),
                rest,
                target,
            );
        }
    } else {
        let inner = names.drop_first();
        assert(!is_never_swept(names[0]));
        if names.len() == 1 {
            assert(names.last() == names[0]);
            assert(entry_path(child, inner) == child);
            let one = seq![(child, Category::AppWebCache)];
            assert(one[0] == target);
            lemma_contains_concat(one, rest, target);
        } else {
            assert(!is_web_cache(names[0]));
            assert(inner.last() == names.last());
            assert forall|i: int| 0 <= i < inner.len() implies !is_never_swept(
                #[trigger] inner[i],
            ) by {
                assert(inner[i] == names[i + 1]);
            }
            assert forall|i: int| 0 <= i < inner.len() - 1 implies !is_web_cache(
                #[trigger] inner[i],
            ) by {
                assert(inner[i] == names[i + 1]);
            }
            let listed = disk(child);
            let entry = EntryView { name: inner[0], is_dir: true };
            assert(is_on_disk(disk, child, inner));
            assert(listed.contains(entry));
            let m = choose|m: int| 0 <= m < listed.len() && #[trigger] listed[m] == entry;
            lemma_cache_found(disk, child, listed, (depth - 1) as nat, inner, m);
            lemma_contains_concat(
                caches_under(disk, child, listed, (depth - 1) as nat),
                rest,
                target,
            );
        }
    }
}

/// A cache is found at every depth that the search reaches.
pub proof fn every_cache_in_reach_is_found(
    disk: Disk,
    dir: PathView,
    names: Seq<PartView>,
    depth: nat,
)
    requires
        leads_to_cache(names),
        names.len() <= depth + 1,
        is_on_disk(disk, dir, names),
    ensures
        caches_under(disk, dir, disk(dir), depth).contains(
            (entry_path(dir, names), Category::AppWebCache),
        ),
{
    let entry = EntryView { name: names[0], is_dir: true };
    let entries = disk(dir);
    let k = choose|k: int| 0 <= k < entries.len() && #[trigger] entries[k] == entry;
    lemma_cache_found(disk, dir, entries, depth, names, k);
}

/// The names of Chromium's caches, and of the trees that hold real user data.
pub proof fn caches_are_known_by_name(name: Seq<char>, bytes: Seq<u8>)
    ensures
        is_web_cache(PartView::Name(name)) <==> (name == "Cache"@
            || name == "CachedData"@
            || name == "Code Cache"@
            || name == "DawnCache"@
            || name == "DawnGraphiteCache"@
            || name == "DawnWebGPUCache"@
            || name == "GPUCache"@
            || name == "GrShaderCache"@
            || name == "ShaderCache"@
            || name == "Service Worker"@
            || name == "component_crx_cache"@),
        is_never_swept(PartView::Name(name)) <==> (name == "Packages"@
            || name == "Group Containers"@
            || name == "CloudStorage"@
            || name == "Mobile Documents"@),
        !is_web_cache(PartView::Raw(bytes, name)),
        !is_never_swept(PartView::Raw(bytes, name)),
{
}

/// The target is a cache that `limit` directories at the most lead to from one
/// of the entries of `dir`.
pub open spec fn is_cache_within(
    disk: Disk,
    target: TargetView,
    dir: PathView,
    entries: Seq<EntryView>,
    limit: nat,
    names: Seq<PartView>,
) -> bool {
    &&& target == (entry_path(dir, names), Category::AppWebCache)
    &&& leads_to_cache(names)
    &&& names.len() <= limit
    &&& entries.contains(EntryView { name: names[0], is_dir: true })
    &&& is_on_disk(disk, dir.child(names[0]), names.drop_first())
}

proof fn lemma_cache_within(
    disk: Disk,
    dir: PathView,
    entries: Seq<EntryView>,
    depth: nat,
    i: int,
) -> (names: Seq<PartView>)
    requires
        0 <= i < caches_under(disk, dir, entries, depth).len(),
    ensures
        is_cache_within(
            disk,
            caches_under(disk, dir, entries, depth)[i],
            dir,
            entries,
            depth + 1,
            names,
        ),
    decreases depth, entries.len(),
{
    let all = caches_under(disk, dir, entries, depth);
    let later = entries.drop_first();
    let rest = caches_under(disk, dir, later, depth);
    let name = entries[0].name;
    let child = dir.child(name);
    let taken: int = if !entries[0].is_dir || is_never_swept(name) {
        0
    } else if is_web_cache(name) {
        1
    } else if depth > 0 {
        caches_under(disk, child, disk(child), (depth - 1) as nat).len() as int
    } else {
        0
    };
    if i >= taken {
        assert(all[i] == rest[i - taken]);
        let names = lemma_cache_within(disk, dir, later, depth, i - taken);
        let entry = EntryView { name: names[0], is_dir: true };
        let k = choose|k: int| 0 <= k < later.len() && later[k] == entry;
        assert(entries[k + 1] == entry);
        names
    } else {
        assert(entries[0] == (EntryView { name, is_dir: true }));
        if is_web_cache(name) {
            let names = seq![name];
            assert(names.drop_first() =~= Seq::empty());
            assert(entry_path(child, names.drop_first()) == child);
            assert(entry_path(dir, names) == child);
            names
        } else {
            let deeper = caches_under(disk, child, disk(child), (depth - 1) as nat);
            let inner = lemma_cache_within(disk, child, disk(child), (depth - 1) as nat, i);
            let names = seq![name] + inner;
            assert(all[i] == deeper[i]);
            assert(names.drop_first() =~= inner);
            assert(names.last() == inner.last());
            assert forall|k: int| 0 <= k < names.len() implies !is_never_swept(
                #[trigger] names[k],
            ) by {
                if k > 0 {
                    assert(names[k] == inner[k - 1]);
                }
            }
            assert forall|k: int| 0 <= k < names.len() - 1 implies !is_web_cache(
                #[trigger] names[k],
            ) by {
                if k > 0 {
                    assert(names[k] == inner[k - 1]);
                }
            }
            assert(is_on_disk(disk, child, inner));
            names
        }
    }
}

/// The search goes four directories down from a root: a cache there is found,
/// whatever the root.
pub proof fn a_cache_four_directories_down_is_found(
    disk: Disk,
    roots: Seq<PathView>,
    r: int,
    names: Seq<PartView>,
)
    requires
        0 <= r < roots.len(),
        leads_to_cache(names),
        names.len() <= 4,
        is_on_disk(disk, roots[r], names),
    ensures
        caches_of_roots(disk, roots).contains(
            (entry_path(roots[r], names), Category::AppWebCache),
        ),
    decreases roots.len(),
{
    let target = (entry_path(roots[r], names), Category::AppWebCache);
    let own = caches_under(disk, roots[0], disk(roots[0]), 3);
    let rest = roots.drop_first();
    if r == 0 {
        every_cache_in_reach_is_found(disk, roots[0], names, 3);
    } else {
        assert(rest[r - 1] == roots[r]);
        a_cache_four_directories_down_is_found(disk, rest, r - 1, names);
    }
    lemma_contains_concat(own, caches_of_roots(disk, rest), target);
}

/// Nothing else is found: every target is a cache on the disk, four directories
/// down from one of the roots at the most.
pub proof fn nothing_deeper_is_found(disk: Disk, roots: Seq<PathView>, i: int)
    requires
        0 <= i < caches_of_roots(disk, roots).len(),
    ensures
        exists|r: int, names: Seq<PartView>|
            0 <= r < roots.len() && #[trigger] is_cache_within(
                disk,
                caches_of_roots(disk, roots)[i],
                #[trigger] roots[r],
                disk(roots[r]),
                4,
                names,
            ),
    decreases roots.len(),
{
    let own = caches_under(disk, roots[0], disk(roots[0]), 3);
    let rest = roots.drop_first();
    let later = caches_of_roots(disk, rest);
    let all = caches_of_roots(disk, roots);
    if i < own.len() {
        let names = lemma_cache_within(disk, roots[0], disk(roots[0]), 3, i);
        assert(all[i] == own[i]);
        assert(is_cache_within(disk, all[i], roots[0], disk(roots[0]), 4, names));
    } else {
        let k = i - own.len();
        nothing_deeper_is_found(disk, rest, k);
        let (r, names) = choose|r: int, names: Seq<PartView>|
            0 <= r < rest.len() && #[trigger] is_cache_within(
                disk,
                later[k],
                #[trigger] rest[r],
                disk(rest[r]),
                4,
                names,
            );
        assert(all[i] == later[k] && roots[r + 1] == rest[r]);
        assert(is_cache_within(disk, all[i], roots[r + 1], disk(roots[r + 1]), 4, names));
    }
}

} // verus!
